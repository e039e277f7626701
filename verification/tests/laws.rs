use udsv_serde::{
    record_from_str, record_from_str_at, record_to_string, Error, IntWidth, Schema, Value,
    VariantSchema,
};

fn text(s: &str) -> Value {
    Value::Text(s.to_owned())
}

fn texts() -> Schema {
    Schema::Sequence(Box::new(Schema::Text))
}

fn text_map() -> Schema {
    Schema::Mapping(Box::new(Schema::Text), Box::new(Schema::Text))
}

fn round_trip(value: Value, schema: &Schema) {
    let line = record_to_string(&value).unwrap();
    assert_eq!(record_from_str(&line, schema), Ok(value), "line: {}", line);
}

#[test]
fn scalars_are_read_back() {
    round_trip(Value::Bool(true), &Schema::Bool);
    round_trip(Value::Bool(false), &Schema::Bool);
    round_trip(Value::Unsigned(0), &Schema::Unsigned(IntWidth::W8));
    round_trip(Value::Unsigned(255), &Schema::Unsigned(IntWidth::W8));
    round_trip(Value::Unsigned(u64::MAX), &Schema::Unsigned(IntWidth::W64));
    round_trip(Value::Signed(-1), &Schema::Signed(IntWidth::W8));
    round_trip(Value::Signed(i64::MIN), &Schema::Signed(IntWidth::W64));
    round_trip(Value::Signed(i64::MAX), &Schema::Signed(IntWidth::W64));
    round_trip(Value::Char(':'), &Schema::Char);
    round_trip(Value::Char('\\'), &Schema::Char);
    round_trip(Value::Char('ß'), &Schema::Char);
    round_trip(text(""), &Schema::Text);
    round_trip(text("plain"), &Schema::Text);
    round_trip(Value::Unit, &Schema::Unit);
    round_trip(Value::Absent, &Schema::Optional(Box::new(Schema::Text)));
}

#[test]
fn texts_with_reserved_characters_are_read_back() {
    round_trip(text("a:b,c=d\\e\nf"), &Schema::Text);
    round_trip(text("ends in a backslash\\"), &Schema::Text);
    round_trip(text("\\\\:\\"), &Schema::Text);
    round_trip(text("tab\tand\rreturn"), &Schema::Text);
    round_trip(text("\\:"), &Schema::Text);
    round_trip(text("\\,\\="), &Schema::Text);
}

#[test]
fn a_text_in_a_map_is_read_back() {
    let original = "a:b,c=d\\e\nf";
    let map = Value::Mapping(vec![(text("key"), text(original))]);
    let line = record_to_string(&map).unwrap();
    assert_eq!(line, "key=a\\:b\\,c\\=d\\\\e\\nf");
    assert_eq!(record_from_str(&line, &text_map()), Ok(map));

    round_trip(
        Value::Mapping(vec![
            (text("k=1"), text("v,1\\")),
            (text(""), text("")),
            (text("k:3\\"), text("\n")),
        ]),
        &text_map(),
    );
    round_trip(Value::Mapping(vec![]), &text_map());
}

#[test]
fn a_text_that_ends_in_a_backslash_does_not_swallow_its_delimiter() {
    let value = Value::Sequence(vec![text("a\\"), text("b")]);
    let line = record_to_string(&value).unwrap();
    assert_eq!(line, r"a\\,b");
    assert_eq!(record_from_str(&line, &texts()), Ok(value));

    round_trip(
        Value::Struct(vec![text("a\\"), text("\\"), text("c")]),
        &Schema::Struct(vec![Schema::Text, Schema::Text, Schema::Text]),
    );
}

#[test]
fn lists_of_texts_are_read_back() {
    round_trip(Value::Sequence(vec![]), &texts());
    round_trip(Value::Sequence(vec![text("a")]), &texts());
    round_trip(Value::Sequence(vec![text(""), text("")]), &texts());
    round_trip(Value::Sequence(vec![text("a"), text("")]), &texts());
    round_trip(Value::Sequence(vec![text(""), text("a")]), &texts());
    round_trip(Value::Sequence(vec![text("a,b"), text(":"), text("=\\")]), &texts());
}

#[test]
fn composites_of_scalars_are_read_back() {
    let pair = Schema::Tuple(vec![Schema::Signed(IntWidth::W32), Schema::Bool]);
    round_trip(Value::Sequence(vec![Value::Signed(-5), Value::Bool(true)]), &pair);

    let record = Schema::Struct(vec![
        Schema::Unsigned(IntWidth::W32),
        texts(),
        Schema::Optional(Box::new(Schema::Char)),
        text_map(),
    ]);
    round_trip(
        Value::Struct(vec![
            Value::Unsigned(7),
            Value::Sequence(vec![text("a"), text("b,c")]),
            Value::Absent,
            Value::Mapping(vec![(text("k"), text("v"))]),
        ]),
        &record,
    );

    let choice = Schema::Enum(vec![
        VariantSchema { name: "None".to_owned(), payload: None },
        VariantSchema { name: "Pair".to_owned(), payload: Some(pair) },
    ]);
    round_trip(Value::Variant("None".to_owned(), None), &choice);
    round_trip(
        Value::Variant(
            "Pair".to_owned(),
            Some(Box::new(Value::Sequence(vec![Value::Signed(1), Value::Bool(false)]))),
        ),
        &choice,
    );
}

#[test]
fn a_text_that_spells_an_escape_is_not_read_back() {
    let value = text("\\n");
    let line = record_to_string(&value).unwrap();
    assert_eq!(line, r"\\n");
    assert_eq!(record_from_str(&line, &Schema::Text), Ok(text("\\\n")));
}

#[test]
fn the_list_of_one_empty_text_is_read_back_as_the_empty_list() {
    let value = Value::Sequence(vec![text("")]);
    let line = record_to_string(&value).unwrap();
    assert_eq!(line, "");
    assert_eq!(record_from_str(&line, &texts()), Ok(Value::Sequence(vec![])));
}

#[test]
fn map_syntax_errors_are_told_apart() {
    assert_eq!(record_from_str("a=b,cx,y=d", &text_map()), Err(Error::ExpectedMapEquals));
    assert_eq!(record_from_str("a=b=x,c=d", &text_map()), Err(Error::ExpectedMapComma));
    assert_eq!(record_from_str("a", &text_map()), Err(Error::ExpectedMapEquals));
    assert_eq!(record_from_str("a=b,c=d=e", &text_map()), Err(Error::ExpectedMapComma));
}

#[test]
fn every_decoding_error_has_an_input() {
    let u8_schema = Schema::Unsigned(IntWidth::W8);
    assert_eq!(record_from_str("", &u8_schema), Err(Error::Eof));
    assert_eq!(record_from_str("x", &u8_schema), Err(Error::ExpectedInteger));
    assert_eq!(record_from_str("256", &u8_schema), Err(Error::IntegerOverflow));
    assert_eq!(record_from_str("yes", &Schema::Bool), Err(Error::ExpectedBoolean));
    assert_eq!(record_from_str("ab", &Schema::Char), Err(Error::ExpectedChar));
    assert_eq!(record_from_str("a", &Schema::Unit), Err(Error::ExpectedEmpty));
    assert_eq!(record_from_str("a", &Schema::Bytes), Err(Error::BytesUnsupported));
    assert_eq!(record_from_str("1", &Schema::Bool), Err(Error::ExpectedBoolean));
    assert_eq!(record_from_str("1 ", &u8_schema), Err(Error::TrailingCharacters));

    let pair = Schema::Tuple(vec![u8_schema, Schema::Unsigned(IntWidth::W8)]);
    assert_eq!(record_from_str("1", &pair), Err(Error::Eof));
    assert_eq!(record_from_str("1;2", &pair), Err(Error::ExpectedArrayComma));
    assert_eq!(record_from_str("1,2,3", &pair), Err(Error::TrailingCharacters));
    let nested = Schema::Struct(vec![
        Schema::Tuple(vec![Schema::Text, Schema::Text]),
        Schema::Text,
    ]);
    assert_eq!(record_from_str("a:b", &nested), Err(Error::ExpectedArray));

    let choice = Schema::Enum(vec![VariantSchema { name: "A".to_owned(), payload: None }]);
    assert_eq!(record_from_str("B", &choice), Err(Error::ExpectedEnum));
    assert_eq!(record_from_str("A", &choice), Ok(Value::Variant("A".to_owned(), None)));
}

#[test]
fn every_input_gives_a_value_or_an_error() {
    let inputs = [
        "",
        ":",
        ",",
        "=",
        "\\",
        "\\\\",
        "\\\n",
        ":::",
        ",,,",
        "===",
        "a=b=c=d",
        "true",
        "-",
        "--1",
        "\\:\\,\\=",
        "äöü,€=ß:☃",
        "\u{0}\u{10ffff}",
        "1:2:3:4:5:6",
        "a,b:c=d,e=f:g",
        "18446744073709551616",
    ];
    let schemas = [
        Schema::Bool,
        Schema::Unsigned(IntWidth::W8),
        Schema::Signed(IntWidth::W64),
        Schema::Char,
        Schema::Text,
        Schema::Bytes,
        Schema::Unit,
        Schema::Optional(Box::new(Schema::Text)),
        Schema::Sequence(Box::new(Schema::Optional(Box::new(Schema::Text)))),
        Schema::Sequence(Box::new(Schema::Sequence(Box::new(Schema::Unit)))),
        Schema::Tuple(vec![Schema::Text, Schema::Unsigned(IntWidth::W16)]),
        Schema::Mapping(Box::new(Schema::Text), Box::new(Schema::Signed(IntWidth::W8))),
        Schema::Struct(vec![
            Schema::Text,
            Schema::Sequence(Box::new(Schema::Text)),
            Schema::Mapping(Box::new(Schema::Text), Box::new(Schema::Text)),
        ]),
        Schema::Enum(vec![
            VariantSchema { name: "a".to_owned(), payload: Some(Schema::Text) },
            VariantSchema { name: "true".to_owned(), payload: None },
        ]),
    ];
    let mut values = 0;
    let mut errors = 0;
    for input in inputs.iter() {
        for schema in schemas.iter() {
            match record_from_str(input, schema) {
                Ok(_) => values += 1,
                Err(_) => errors += 1,
            }
        }
    }
    assert_eq!(values + errors, inputs.len() * schemas.len());
    assert!(values > 0 && errors > 0);
}

#[test]
fn a_long_sequence_is_read_without_deep_recursion() {
    let items: Vec<Value> = (0..100_000u64).map(Value::Unsigned).collect();
    let value = Value::Sequence(items);
    let line = record_to_string(&value).unwrap();
    let schema = Schema::Sequence(Box::new(Schema::Unsigned(IntWidth::W32)));
    assert_eq!(record_from_str(&line, &schema), Ok(value));
}

#[test]
fn an_error_tells_how_far_the_line_was_read() {
    let numbers = Schema::Sequence(Box::new(Schema::Unsigned(IntWidth::W8)));
    assert_eq!(record_from_str_at("1,2,3", &numbers), Ok(Value::Sequence(vec![
        Value::Unsigned(1),
        Value::Unsigned(2),
        Value::Unsigned(3),
    ])));
    assert_eq!(record_from_str_at("1,2,x", &numbers), Err((Error::ExpectedInteger, 4)));
    assert_eq!(record_from_str_at("1,2,300", &numbers), Err((Error::IntegerOverflow, 4)));
    assert_eq!(record_from_str_at("1,2;3", &numbers), Err((Error::ExpectedArrayComma, 3)));
    assert_eq!(record_from_str_at("1,2:3", &numbers), Err((Error::TrailingCharacters, 3)));
    assert_eq!(record_from_str_at("", &Schema::Bool), Err((Error::ExpectedBoolean, 0)));
    assert_eq!(record_from_str_at("äö,", &numbers), Err((Error::ExpectedInteger, 0)));
    assert_eq!(record_from_str_at("ab:c", &Schema::Char), Err((Error::ExpectedChar, 2)));

    assert_eq!(record_from_str_at("a=b,cx,y=d", &text_map()), Err((Error::ExpectedMapEquals, 4)));
    assert_eq!(record_from_str_at("a=b=x,c=d", &text_map()), Err((Error::ExpectedMapComma, 2)));
    assert_eq!(record_from_str_at("a=b;c", &text_map()), Ok(Value::Mapping(vec![(
        text("a"),
        text("b;c"),
    )])));

    let choice = Schema::Enum(vec![VariantSchema { name: "A".to_owned(), payload: None }]);
    assert_eq!(record_from_str_at("B:1", &choice), Err((Error::ExpectedEnum, 2)));
}
