use udsv_serde::{record_to_string, Error, Value};

fn text(s: &str) -> Value {
    Value::Text(s.to_owned())
}

fn some(s: &str) -> Value {
    Value::Present(Box::new(text(s)))
}

fn tagged(name: &str, payload: Option<Value>) -> Value {
    Value::Variant(name.to_owned(), payload.map(Box::new))
}

#[test]
fn ser_test_escaped_str() {
    let v = "a:b";
    let expected = r#"a\:b"#;
    assert_eq!(record_to_string(&text(v)).unwrap(), expected);

    let v = r"a\b";
    let expected = r"a\\b";
    assert_eq!(record_to_string(&text(v)).unwrap(), expected);

    let v = r"a
b";
    let expected = r"a\nb";
    assert_eq!(record_to_string(&text(v)).unwrap(), expected);

    // commas and equals should not be escaped in a plain string
    let v = r"a,b=c";
    let expected = r"a,b=c";
    assert_eq!(record_to_string(&text(v)).unwrap(), expected);
}

#[test]
fn ser_test_seq() {
    let v = Value::Sequence(vec![text("a"), text("b")]);
    let expected = r#"a,b"#;
    assert_eq!(record_to_string(&v).unwrap(), expected);

    // escaped comma
    let v = Value::Sequence(vec![text("a,c"), text("b")]);
    let expected = r#"a\,c,b"#;
    assert_eq!(record_to_string(&v).unwrap(), expected);

    // equals should not be escaped in a sequence
    let v = Value::Sequence(vec![text("a=c"), text("b")]);
    let expected = r#"a=c,b"#;
    assert_eq!(record_to_string(&v).unwrap(), expected);
}

#[test]
fn ser_test_tuple() {
    let v = Value::Sequence(vec![text("a"), text("b")]);
    let expected = r#"a,b"#;
    assert_eq!(record_to_string(&v).unwrap(), expected);
}

#[test]
fn ser_test_option() {
    let v = some("a");
    let expected = "a";
    assert_eq!(record_to_string(&v).unwrap(), expected);

    let v = Value::Sequence(vec![some("a"), Value::Absent, some("b")]);
    let expected = "a,,b";
    assert_eq!(record_to_string(&v).unwrap(), expected);
}

#[test]
fn ser_test_map() {
    let map = Value::Mapping(vec![(text("a"), text("b")), (text("c"), text("d"))]);

    let expected1 = r#"a=b,c=d"#;
    let expected2 = r#"c=d,a=b"#;
    let output = record_to_string(&map).unwrap();
    assert!(output == expected1 || output == expected2, "output: {}", output);

    // escaped comma
    let map = Value::Mapping(vec![(text("a"), text("b,c"))]);
    let expected = r#"a=b\,c"#;
    assert_eq!(record_to_string(&map).unwrap(), expected);

    // escaped equals
    let map = Value::Mapping(vec![(text("a"), text("b=c"))]);
    let expected = r#"a=b\=c"#;
    assert_eq!(record_to_string(&map).unwrap(), expected);
}

#[test]
fn ser_test_struct() {
    let test = Value::Struct(vec![
        Value::Unsigned(1),
        Value::Sequence(vec![text("a"), text("b")]),
        Value::Sequence(vec![text("c"), text("d")]),
        text("hello"),
        Value::Absent,
        some("world"),
    ]);

    let expected = r#"1:a,b:c,d:hello::world"#;
    assert_eq!(record_to_string(&test).unwrap(), expected);
}

#[test]
fn ser_test_enum() {
    let u = tagged("Unit", None);
    let expected = r#"Unit"#;
    assert_eq!(record_to_string(&u).unwrap(), expected);

    let n = tagged("Newtype", Some(Value::Unsigned(1)));
    let expected = r#"Newtype:1"#;
    assert_eq!(record_to_string(&n).unwrap(), expected);

    let t = tagged("Tuple", Some(Value::Sequence(vec![Value::Unsigned(1), Value::Unsigned(2)])));
    let expected = r#"Tuple:1,2"#;
    assert_eq!(record_to_string(&t).unwrap(), expected);

    let s = tagged("Struct", Some(Value::Struct(vec![Value::Unsigned(1)])));
    let expected = r#"Struct:1"#;
    assert_eq!(record_to_string(&s).unwrap(), expected);
}

#[test]
fn bytes_are_refused() {
    let v = Value::Sequence(vec![text("a"), Value::Bytes(vec![1, 2, 3])]);
    assert_eq!(record_to_string(&v), Err(Error::BytesUnsupported));
}
