use udsv_serde::{record_from_str, Error, IntWidth, Schema, Value, VariantSchema};

fn text(s: &str) -> Value {
    Value::Text(s.to_owned())
}

fn texts() -> Schema {
    Schema::Sequence(Box::new(Schema::Text))
}

fn optional_text() -> Schema {
    Schema::Optional(Box::new(Schema::Text))
}

fn text_map() -> Schema {
    Schema::Mapping(Box::new(Schema::Text), Box::new(Schema::Text))
}

fn u32_schema() -> Schema {
    Schema::Unsigned(IntWidth::W32)
}

#[test]
fn test_unsigned() {
    let v = "1";
    assert_eq!(Value::Unsigned(1), record_from_str(v, &Schema::Unsigned(IntWidth::W8)).unwrap());
    assert_eq!(Value::Unsigned(1), record_from_str(v, &Schema::Unsigned(IntWidth::W16)).unwrap());
    assert_eq!(Value::Unsigned(1), record_from_str(v, &Schema::Unsigned(IntWidth::W32)).unwrap());
    assert_eq!(Value::Unsigned(1), record_from_str(v, &Schema::Unsigned(IntWidth::W64)).unwrap());

    let v = "11534";
    assert_eq!(
        Value::Unsigned(11534),
        record_from_str(v, &Schema::Unsigned(IntWidth::W16)).unwrap()
    );
}

#[test]
fn de_test_escaped_str() {
    let v = r#"a\:b"#;
    let expected = "a:b";
    assert_eq!(text(expected), record_from_str(v, &Schema::Text).unwrap());

    // Escaped non-printable characters
    let v = r#"a\nb\tc"#;
    let expected = "a\nb\tc";
    assert_eq!(text(expected), record_from_str(v, &Schema::Text).unwrap());

    // Escaped delimiters and a continued line
    let v = r#"a\:b\,c\=d\
e"#;
    let expected = "a:b,c=de";
    assert_eq!(text(expected), record_from_str(v, &Schema::Text).unwrap());
}

#[test]
fn de_test_seq() {
    let v = "a,b";
    let expected = Value::Sequence(vec![text("a"), text("b")]);
    assert_eq!(expected, record_from_str(v, &texts()).unwrap());

    let v = "a,b&],\nc";
    let expected = Value::Sequence(vec![text("a"), text("b&]"), text("\nc")]);
    assert_eq!(expected, record_from_str(v, &texts()).unwrap());
}

#[test]
fn de_test_tuple() {
    let pair = Schema::Tuple(vec![Schema::Text, Schema::Text]);

    let v = "a,b";
    let expected = Value::Sequence(vec![text("a"), text("b")]);
    assert_eq!(expected, record_from_str(v, &pair).unwrap());

    // Escaped comma
    let v = r#"a,b\,c"#;
    let expected = Value::Sequence(vec![text("a"), text("b,c")]);
    assert_eq!(expected, record_from_str(v, &pair).unwrap());
}

#[test]
fn test_trailing_chars() {
    let v = "a::b";
    assert!(record_from_str(v, &optional_text()).is_err());
    assert!(record_from_str(v, &Schema::Sequence(Box::new(optional_text()))).is_err());
}

#[test]
fn de_test_option() {
    let v = "a";
    let expected = Value::Present(Box::new(text("a")));
    assert_eq!(expected, record_from_str(v, &optional_text()).unwrap());

    let v = "a,,b";
    let expected = Value::Sequence(vec![
        Value::Present(Box::new(text("a"))),
        Value::Absent,
        Value::Present(Box::new(text("b"))),
    ]);
    assert_eq!(
        expected,
        record_from_str(v, &Schema::Sequence(Box::new(optional_text()))).unwrap()
    );
}

#[test]
fn de_test_map() {
    let v = "a=b,c=d";
    let map = Value::Mapping(vec![(text("a"), text("b")), (text("c"), text("d"))]);
    assert_eq!(map, record_from_str(v, &text_map()).unwrap());

    // Escaped comma
    let v = r#"a=b\,x,c=d"#;
    let map = Value::Mapping(vec![(text("a"), text("b,x")), (text("c"), text("d"))]);
    assert_eq!(map, record_from_str(v, &text_map()).unwrap());

    // Escaped equals
    let v = r#"a=b\,x,c=d\=e"#;
    let map = Value::Mapping(vec![(text("a"), text("b,x")), (text("c"), text("d=e"))]);
    assert_eq!(map, record_from_str(v, &text_map()).unwrap());

    // An ill formed map errors - comma before equals
    let v = r#"a=b,cx,y=d"#;
    assert!(record_from_str(v, &text_map()).is_err());

    // An ill formed map errors - equal before comma
    let v = r#"a=b=x,c=d"#;
    assert!(record_from_str(v, &text_map()).is_err());
}

#[test]
fn de_test_struct() {
    let schema = Schema::Struct(vec![u32_schema(), texts()]);

    let j = r#"1:a"#;
    let expected = Value::Struct(vec![Value::Unsigned(1), Value::Sequence(vec![text("a")])]);
    assert_eq!(expected, record_from_str(j, &schema).unwrap());

    let j = r#"1:a,b"#;
    let expected =
        Value::Struct(vec![Value::Unsigned(1), Value::Sequence(vec![text("a"), text("b")])]);
    assert_eq!(expected, record_from_str(j, &schema).unwrap());

    let j = r#"1:a,b,c"#;
    let expected = Value::Struct(vec![
        Value::Unsigned(1),
        Value::Sequence(vec![text("a"), text("b"), text("c")]),
    ]);
    assert_eq!(expected, record_from_str(j, &schema).unwrap());
}

fn variant(name: &str, payload: Option<Schema>) -> VariantSchema {
    VariantSchema { name: name.to_owned(), payload }
}

fn tagged(name: &str, payload: Option<Value>) -> Value {
    Value::Variant(name.to_owned(), payload.map(Box::new))
}

#[test]
fn de_test_enum() {
    let schema = Schema::Enum(vec![
        variant("Unit", None),
        variant("Newtype", Some(u32_schema())),
        variant("Tuple", Some(Schema::Tuple(vec![u32_schema(), u32_schema()]))),
        variant("Struct", Some(Schema::Struct(vec![u32_schema()]))),
        variant("Opt", Some(Schema::Optional(Box::new(u32_schema())))),
    ]);

    let j = "Unit";
    let expected = tagged("Unit", None);
    assert_eq!(expected, record_from_str(j, &schema).unwrap());

    let j = "Newtype:1";
    let expected = tagged("Newtype", Some(Value::Unsigned(1)));
    assert_eq!(expected, record_from_str(j, &schema).unwrap());

    let j = "Tuple:1,2";
    let expected =
        tagged("Tuple", Some(Value::Sequence(vec![Value::Unsigned(1), Value::Unsigned(2)])));
    assert_eq!(expected, record_from_str(j, &schema).unwrap());

    let j = "Struct:1";
    let expected = tagged("Struct", Some(Value::Struct(vec![Value::Unsigned(1)])));
    assert_eq!(expected, record_from_str(j, &schema).unwrap());

    let j = "Opt:1";
    let expected = tagged("Opt", Some(Value::Present(Box::new(Value::Unsigned(1)))));
    assert_eq!(expected, record_from_str(j, &schema).unwrap());
    let j = "Opt:";
    let expected = tagged("Opt", Some(Value::Absent));
    assert_eq!(expected, record_from_str(j, &schema).unwrap());
}

#[test]
fn trailing_characters_are_reported_as_such() {
    assert_eq!(Err(Error::TrailingCharacters), record_from_str("a::b", &optional_text()));
    assert_eq!(Err(Error::TrailingCharacters), record_from_str("1x", &u32_schema()));
}
