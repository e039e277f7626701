use udsv_serde::{Deserializer, Error, Scope, Serializer, Value};

#[test]
fn cursor_moves_one_character_at_a_time() {
    let mut de = Deserializer::from_str("ab");
    assert_eq!(de.remaining(), 2);
    assert_eq!(de.peek_char(), Ok('a'));
    assert_eq!(de.next_char(), Ok('a'));
    assert_eq!(de.next_char(), Ok('b'));
    assert!(de.is_empty());
    assert_eq!(de.peek_char(), Err(Error::Eof));
    assert_eq!(de.next_char(), Err(Error::Eof));
}

#[test]
fn shifting_consumes_characters_not_bytes() {
    let mut de = Deserializer::from_str("äöü:x");
    de.shift_input_forward(3);
    assert_eq!(de.peek_char(), Ok(':'));
    assert_eq!(de.remaining(), 2);
    de.shift_input_forward(2);
    assert!(de.is_empty());
}

#[test]
fn a_delimiter_at_the_start_counts() {
    let de = Deserializer::from_str(":x");
    assert_eq!(de.get_next_nonescaped_char(':'), Some(0));
    assert_eq!(de.get_next_delimiter_idx(), Some(0));
}

#[test]
fn a_delimiter_behind_one_backslash_is_escaped() {
    let de = Deserializer::from_str(r"a\:b:c");
    assert_eq!(de.get_next_nonescaped_char(':'), Some(4));
    let de = Deserializer::from_str(r"a\:b");
    assert_eq!(de.get_next_nonescaped_char(':'), None);
}

#[test]
fn a_delimiter_behind_an_even_run_of_backslashes_is_not_escaped() {
    let de = Deserializer::from_str(r"a\\:b");
    assert_eq!(de.get_next_nonescaped_char(':'), Some(3));
    let de = Deserializer::from_str(r"a\\\:b");
    assert_eq!(de.get_next_nonescaped_char(':'), None);
    let de = Deserializer::from_str(r"\\\\,");
    assert_eq!(de.get_next_nonescaped_char(','), Some(4));
}

#[test]
fn the_boundary_is_the_nearest_active_delimiter() {
    let mut de = Deserializer::from_str("a=b,c:d");
    assert_eq!(de.get_next_delimiter_idx(), Some(5));
    de.enter(Scope::Sequence);
    assert_eq!(de.get_next_delimiter_idx(), Some(3));
    de.enter(Scope::Mapping);
    assert_eq!(de.get_next_delimiter_idx(), Some(1));
    de.enter(Scope::Struct);
    assert_eq!(de.get_next_delimiter_idx(), Some(5));
    de.leave();
    assert_eq!(de.get_next_delimiter_idx(), Some(1));
    de.leave();
    de.leave();
    assert_eq!(de.get_next_delimiter_idx(), Some(5));
    de.leave();
    assert_eq!(de.get_next_delimiter_idx(), Some(5));
}

#[test]
fn a_token_without_delimiter_runs_to_the_end() {
    let mut de = Deserializer::from_str("a,b=c");
    assert_eq!(de.get_next_delimiter_idx(), None);
    assert_eq!(de.parse_string(), Ok("a,b=c".to_owned()));
    assert!(de.is_empty());
}

#[test]
fn a_string_stops_before_its_delimiter() {
    let mut de = Deserializer::from_str("ab:cd");
    assert_eq!(de.parse_string(), Ok("ab".to_owned()));
    assert_eq!(de.peek_char(), Ok(':'));
    assert_eq!(de.remaining(), 3);
}

#[test]
fn unescaping_follows_the_order_of_the_format() {
    // `\:` `\,` `\=` first
    let mut de = Deserializer::from_str(r"\:\,\=");
    assert_eq!(de.parse_string(), Ok(":,=".to_owned()));
    // a continued line is joined
    let mut de = Deserializer::from_str("a\\\nb");
    assert_eq!(de.parse_string(), Ok("ab".to_owned()));
    // non-printables
    let mut de = Deserializer::from_str(r"\n\r\t");
    assert_eq!(de.parse_string(), Ok("\n\r\t".to_owned()));
    // `\\` last: the letter behind a doubled backslash is taken first
    let mut de = Deserializer::from_str(r"\\n");
    assert_eq!(de.parse_string(), Ok("\\\n".to_owned()));
    let mut de = Deserializer::from_str(r"a\\b");
    assert_eq!(de.parse_string(), Ok(r"a\b".to_owned()));
    let mut de = Deserializer::from_str(r"\\\");
    assert_eq!(de.parse_string(), Ok(r"\\".to_owned()));
}

#[test]
fn booleans_are_matched_as_words() {
    let mut de = Deserializer::from_str("true,false");
    assert_eq!(de.parse_bool(), Ok(true));
    assert_eq!(de.next_char(), Ok(','));
    assert_eq!(de.parse_bool(), Ok(false));
    assert!(de.is_empty());

    let mut de = Deserializer::from_str("tru");
    assert_eq!(de.parse_bool(), Err(Error::ExpectedBoolean));
    assert_eq!(de.remaining(), 3);
    let mut de = Deserializer::from_str("");
    assert_eq!(de.parse_bool(), Err(Error::ExpectedBoolean));
}

#[test]
fn unsigned_numbers_are_the_longest_run_of_digits() {
    let mut de = Deserializer::from_str("0123:4");
    assert_eq!(de.parse_unsigned(u64::MAX), Ok(123));
    assert_eq!(de.peek_char(), Ok(':'));

    let mut de = Deserializer::from_str("18446744073709551615");
    assert_eq!(de.parse_unsigned(u64::MAX), Ok(u64::MAX));
    assert!(de.is_empty());
}

#[test]
fn unsigned_numbers_that_do_not_fit_overflow() {
    let mut de = Deserializer::from_str("18446744073709551616");
    assert_eq!(de.parse_unsigned(u64::MAX), Err(Error::IntegerOverflow));
    assert_eq!(de.remaining(), 20);

    let mut de = Deserializer::from_str("256");
    assert_eq!(de.parse_unsigned(255), Err(Error::IntegerOverflow));
    let mut de = Deserializer::from_str("255");
    assert_eq!(de.parse_unsigned(255), Ok(255));
    let mut de = Deserializer::from_str("256");
    assert_eq!(de.deserialize_u8(), Err(Error::IntegerOverflow));
    let mut de = Deserializer::from_str("65536");
    assert_eq!(de.deserialize_u16(), Err(Error::IntegerOverflow));
    let mut de = Deserializer::from_str("4294967296");
    assert_eq!(de.deserialize_u32(), Err(Error::IntegerOverflow));
    let mut de = Deserializer::from_str("99999999999999999999999999999999999999");
    assert_eq!(de.deserialize_u64(), Err(Error::IntegerOverflow));
}

#[test]
fn numbers_need_a_digit() {
    let mut de = Deserializer::from_str("x1");
    assert_eq!(de.parse_unsigned(u64::MAX), Err(Error::ExpectedInteger));
    assert_eq!(de.remaining(), 2);
    let mut de = Deserializer::from_str("");
    assert_eq!(de.parse_unsigned(u64::MAX), Err(Error::Eof));
    let mut de = Deserializer::from_str("-");
    assert_eq!(de.parse_signed(i64::MIN, i64::MAX), Err(Error::Eof));
    let mut de = Deserializer::from_str("-x");
    assert_eq!(de.parse_signed(i64::MIN, i64::MAX), Err(Error::ExpectedInteger));
    let mut de = Deserializer::from_str("+1");
    assert_eq!(de.parse_signed(i64::MIN, i64::MAX), Err(Error::ExpectedInteger));
}

#[test]
fn signed_numbers_take_an_optional_minus() {
    let mut de = Deserializer::from_str("-12,7");
    assert_eq!(de.parse_signed(i64::MIN, i64::MAX), Ok(-12));
    assert_eq!(de.next_char(), Ok(','));
    assert_eq!(de.parse_signed(i64::MIN, i64::MAX), Ok(7));

    let mut de = Deserializer::from_str("-9223372036854775808");
    assert_eq!(de.parse_signed(i64::MIN, i64::MAX), Ok(i64::MIN));
    let mut de = Deserializer::from_str("9223372036854775807");
    assert_eq!(de.parse_signed(i64::MIN, i64::MAX), Ok(i64::MAX));
    let mut de = Deserializer::from_str("9223372036854775808");
    assert_eq!(de.parse_signed(i64::MIN, i64::MAX), Err(Error::IntegerOverflow));
    let mut de = Deserializer::from_str("-9223372036854775809");
    assert_eq!(de.parse_signed(i64::MIN, i64::MAX), Err(Error::IntegerOverflow));

    let mut de = Deserializer::from_str("-128");
    assert_eq!(de.deserialize_i8(), Ok(-128));
    let mut de = Deserializer::from_str("-129");
    assert_eq!(de.deserialize_i8(), Err(Error::IntegerOverflow));
    let mut de = Deserializer::from_str("128");
    assert_eq!(de.deserialize_i8(), Err(Error::IntegerOverflow));
    let mut de = Deserializer::from_str("-32768");
    assert_eq!(de.deserialize_i16(), Ok(-32768));
    let mut de = Deserializer::from_str("2147483648");
    assert_eq!(de.deserialize_i32(), Err(Error::IntegerOverflow));
    let mut de = Deserializer::from_str("-0");
    assert_eq!(de.deserialize_i64(), Ok(0));
}

#[test]
fn a_character_is_a_token_of_length_one() {
    let mut de = Deserializer::from_str("ä");
    assert_eq!(de.deserialize_char(), Ok('ä'));
    let mut de = Deserializer::from_str(r"\:");
    assert_eq!(de.deserialize_char(), Ok(':'));
    let mut de = Deserializer::from_str("ab");
    assert_eq!(de.deserialize_char(), Err(Error::ExpectedChar));
    let mut de = Deserializer::from_str("");
    assert_eq!(de.deserialize_char(), Err(Error::ExpectedChar));
}

#[test]
fn an_optional_value_is_absent_before_a_delimiter() {
    let mut de = Deserializer::from_str(",x");
    assert!(de.deserialize_option());
    de.enter(Scope::Sequence);
    assert!(!de.deserialize_option());
    de.leave();

    let mut de = Deserializer::from_str("=x");
    de.enter(Scope::Sequence);
    assert!(de.deserialize_option());
    de.enter(Scope::Mapping);
    assert!(!de.deserialize_option());

    let mut de = Deserializer::from_str(":x");
    assert!(!de.deserialize_option());
    let mut de = Deserializer::from_str("");
    assert!(!de.deserialize_option());
    let mut de = Deserializer::from_str("x");
    assert!(de.deserialize_option());
}

#[test]
fn a_unit_is_the_end_of_the_input() {
    let mut de = Deserializer::from_str("");
    assert_eq!(de.deserialize_unit(), Ok(()));
    assert_eq!(de.deserialize_unit_struct("Marker"), Ok(()));
    let mut de = Deserializer::from_str("x");
    assert_eq!(de.deserialize_unit(), Err(Error::ExpectedEmpty));
}

#[test]
fn bytes_cannot_be_read() {
    let mut de = Deserializer::from_str("abc");
    assert_eq!(de.deserialize_bytes(), Err(Error::BytesUnsupported));
    assert_eq!(de.deserialize_byte_buf(), Err(Error::BytesUnsupported));
    assert_eq!(de.remaining(), 3);
}

#[test]
fn elements_are_handed_out_one_by_one() {
    let mut de = Deserializer::from_str("a,b:rest");
    let mut seq = de.deserialize_seq();
    assert_eq!(seq.next_element(), Ok(true));
    assert_eq!(seq.de.parse_string(), Ok("a".to_owned()));
    assert_eq!(seq.next_element(), Ok(true));
    assert_eq!(seq.de.parse_string(), Ok("b".to_owned()));
    assert_eq!(seq.next_element(), Ok(false));
    seq.end();
    assert_eq!(de.remaining(), 5);
    assert_eq!(de.top(), None);
}

#[test]
fn elements_must_be_separated() {
    let mut de = Deserializer::from_str("truefalse");
    let mut seq = de.deserialize_tuple(2);
    assert_eq!(seq.next_element(), Ok(true));
    assert_eq!(seq.de.parse_bool(), Ok(true));
    assert_eq!(seq.next_element(), Err(Error::ExpectedArrayComma));
}

#[test]
fn entries_are_checked_before_they_are_read() {
    let mut de = Deserializer::from_str("k=v,x");
    let mut map = de.deserialize_map();
    assert_eq!(map.next_key(), Ok(true));
    assert_eq!(map.de.parse_string(), Ok("k".to_owned()));
    assert_eq!(map.next_value(), Ok(()));
    assert_eq!(map.de.parse_string(), Ok("v".to_owned()));
    assert_eq!(map.next_key(), Err(Error::ExpectedMapEquals));

    let mut de = Deserializer::from_str("k");
    let mut map = de.deserialize_map();
    assert_eq!(map.next_key(), Err(Error::ExpectedMapEquals));

    let mut de = Deserializer::from_str("k=v");
    let mut map = de.deserialize_map();
    assert_eq!(map.next_value(), Err(Error::ExpectedMapEquals));

    let mut de = Deserializer::from_str("");
    let mut map = de.deserialize_map();
    assert_eq!(map.next_key(), Ok(false));
    assert_eq!(map.next_value(), Err(Error::Eof));
}

#[test]
fn a_tag_takes_the_colon_behind_it() {
    let mut de = Deserializer::from_str("Some:1");
    let access = de.deserialize_enum("E", &["Some"]);
    let (tag, payload) = access.variant_seed().unwrap();
    assert_eq!(tag, "Some");
    assert_eq!(payload.de.deserialize_u8(), Ok(1));

    let mut de = Deserializer::from_str("Unit");
    let access = de.deserialize_enum("E", &["Unit"]);
    let (tag, payload) = access.variant_seed().unwrap();
    assert_eq!(tag, "Unit");
    assert_eq!(payload.unit_variant(), Ok(()));
    assert!(de.is_empty());
}

#[test]
fn scalars_are_escaped_for_the_composite_they_are_in() {
    let mut ser = Serializer::new();
    assert_eq!(ser.escape_str("a:b,c=d\\e\nf\tg\rh"), "a\\:b,c=d\\\\e\\nf\tg\rh");
    ser.enter(Scope::Sequence);
    assert_eq!(ser.escape_str("a:b,c=d"), r"a\:b\,c=d");
    ser.enter(Scope::Mapping);
    assert_eq!(ser.escape_str("a:b,c=d"), r"a\:b\,c\=d");
    ser.enter(Scope::Struct);
    assert_eq!(ser.escape_str("a:b,c=d"), r"a\:b,c=d");
    ser.leave();
    ser.leave();
    assert_eq!(ser.top(), Some(Scope::Sequence));
    assert_eq!(ser.escape_str("a:b,c=d"), r"a\:b\,c=d");
}

#[test]
fn numbers_are_written_in_decimal() {
    let mut ser = Serializer::new();
    ser.serialize_u64(0).unwrap();
    ser.put(' ');
    ser.serialize_u64(u64::MAX).unwrap();
    ser.put(' ');
    ser.serialize_i64(i64::MIN).unwrap();
    ser.put(' ');
    ser.serialize_i64(i64::MAX).unwrap();
    ser.put(' ');
    ser.serialize_i8(-7).unwrap();
    ser.serialize_u8(10).unwrap();
    ser.serialize_i16(-300).unwrap();
    ser.serialize_u16(65535).unwrap();
    ser.serialize_i32(1).unwrap();
    ser.serialize_u32(4000000000).unwrap();
    assert_eq!(
        ser.into_string(),
        "0 18446744073709551615 -9223372036854775808 9223372036854775807 -710-3006553514000000000"
    );
}

#[test]
fn nothing_is_written_for_what_is_absent() {
    let mut ser = Serializer::new();
    ser.serialize_none().unwrap();
    ser.serialize_unit().unwrap();
    ser.serialize_unit_struct("Marker").unwrap();
    assert_eq!(ser.into_string(), "");
}

#[test]
fn scalars_are_written_as_text() {
    let mut ser = Serializer::new();
    ser.serialize_bool(true).unwrap();
    ser.serialize_bool(false).unwrap();
    ser.serialize_char(':').unwrap();
    ser.serialize_char('x').unwrap();
    ser.serialize_str("a\\b").unwrap();
    ser.serialize_unit_variant("E", 0, "Tag").unwrap();
    assert_eq!(ser.serialize_bytes(&[1, 2]), Err(Error::BytesUnsupported));
    assert_eq!(ser.into_string(), r"truefalse\:xa\\bTag");
}

#[test]
fn a_sequence_is_written_through_its_handle() {
    let mut ser = Serializer::new();
    let mut seq = ser.serialize_seq(Some(3)).unwrap();
    seq.serialize_element(&Value::Text("a,b".to_owned())).unwrap();
    seq.serialize_element(&Value::Absent).unwrap();
    seq.element().serialize_u8(3).unwrap();
    assert_eq!(
        seq.serialize_element(&Value::Bytes(vec![0])),
        Err(Error::BytesUnsupported)
    );
    seq.end().unwrap();
    assert_eq!(ser.top(), None);
    assert_eq!(ser.into_string(), r"a\,b,,3");
}

#[test]
fn a_map_is_written_through_its_handle() {
    let mut ser = Serializer::new();
    let mut map = ser.serialize_map(None).unwrap();
    map.serialize_key(&Value::Text("a=".to_owned())).unwrap();
    map.serialize_value(&Value::Unsigned(1)).unwrap();
    map.key().serialize_str("b").unwrap();
    map.value().serialize_bool(true).unwrap();
    map.end().unwrap();
    assert_eq!(ser.into_string(), r"a\==1,b=true");
}

#[test]
fn a_struct_is_written_through_its_handle() {
    let mut ser = Serializer::new();
    let mut fields = ser.serialize_struct("S", 3).unwrap();
    fields.serialize_field("x", &Value::Text("a,b".to_owned())).unwrap();
    fields.serialize_field("y", &Value::Absent).unwrap();
    fields.field().serialize_i8(-1).unwrap();
    fields.end().unwrap();
    assert_eq!(ser.into_string(), "a,b::-1");
}

#[test]
fn variants_are_written_behind_their_tag() {
    let mut ser = Serializer::new();
    ser.serialize_newtype_variant("E", 0, "New", &Value::Unsigned(1)).unwrap();
    ser.put(' ');
    let mut tuple = ser.serialize_tuple_variant("E", 1, "Tup", 2).unwrap();
    tuple.serialize_field(&Value::Unsigned(1)).unwrap();
    tuple.serialize_field(&Value::Unsigned(2)).unwrap();
    tuple.end().unwrap();
    ser.put(' ');
    let mut fields = ser.serialize_struct_variant("E", 2, "Str", 2).unwrap();
    fields.serialize_field("a", &Value::Unsigned(1)).unwrap();
    fields.serialize_field("b", &Value::Unsigned(2)).unwrap();
    fields.end().unwrap();
    ser.put(' ');
    let mut tuple = ser.serialize_tuple_struct("T", 2).unwrap();
    tuple.serialize_element(&Value::Bool(true)).unwrap();
    tuple.element().serialize_bool(false).unwrap();
    tuple.end().unwrap();
    ser.put(' ');
    ser.serialize_some(&Value::Char('c')).unwrap();
    ser.serialize_newtype_struct("N", &Value::Char('d')).unwrap();
    assert_eq!(ser.into_string(), "New:1 Tup:1,2 Str:1:2 true,false cd");
}

#[test]
fn errors_have_a_text() {
    assert_eq!(Error::Eof.message(), "Unexpected end of input");
    assert_eq!(
        Error::BytesUnsupported.message(),
        "Serialising bytes is not supported for a human readable format"
    );
    assert_eq!(Error::custom("my own").message(), "my own");
    assert_eq!(Error::custom("my own"), Error::Message("my own".to_owned()));
    assert_eq!(Error::ExpectedMapComma.message(), "Expected `,` between map entries");
    assert_eq!(Error::TrailingCharacters.message(), "Trailing characters after the value");
    assert_eq!(Error::IntegerOverflow.message(), "Number out of range for its integer type");
}
