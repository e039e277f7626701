use vstd::prelude::*;
use crate::codec::{escape, escape_into};
use crate::err::Error;
use crate::number::{decimal, push_decimal, push_signed, signed_decimal};
use crate::resolve::{commas_active, equals_active, innermost, Scope};
use crate::text::{to_chars, to_string};
use crate::value::{view_all, view_entries, Value};
use crate::wire::{
    any_bytes, any_entry_bytes, bool_word, has_bytes, separator, wire, wire_entries, wire_items,
};

verus! {


/// What an encoder has written so far, and the composites it is inside of,
/// outermost first.
pub struct Buffer {
    pub text: Seq<char>,
    pub scopes: Seq<Scope>,
}

impl Buffer {
    /// Whether `,` is escaped here.
    pub open spec fn commas(self) -> bool {
        commas_active(innermost(self.scopes))
    }

    /// Whether `=` is escaped here.
    pub open spec fn equals(self) -> bool {
        equals_active(innermost(self.scopes))
    }

    /// The buffer with `s` appended as it is.
    pub open spec fn write(self, s: Seq<char>) -> Buffer {
        Buffer { text: self.text + s, scopes: self.scopes }
    }

    /// The buffer with the escaped form of `s` appended.
    pub open spec fn write_escaped(self, s: Seq<char>) -> Buffer {
        self.write(escape(s, self.commas(), self.equals()))
    }

    /// The buffer with the separator `delim` appended, unless `count`
    /// says that no element was written yet.
    pub open spec fn separate(self, count: int, delim: char) -> Buffer {
        if count > 0 {
            self.write(seq![delim])
        } else {
            self
        }
    }

    /// The buffer inside a composite that was just entered.
    pub open spec fn enter(self, scope: Scope) -> Buffer {
        Buffer { text: self.text, scopes: self.scopes.push(scope) }
    }

    /// The buffer after the innermost composite was left. Outside any
    /// composite there is nothing to leave.
    pub open spec fn leave(self) -> Buffer {
        if self.scopes.len() == 0 {
            self
        } else {
            Buffer { text: self.text, scopes: self.scopes.drop_last() }
        }
    }
}

/// The count after one more element, which stops growing at its largest
/// value: it is only ever compared with zero.
pub open spec fn bump(count: i32) -> i32 {
    if count < i32::MAX {
        (count + 1) as i32
    } else {
        count
    }
}

/// The encode engine: a growing line of output.
///
/// Text is only ever appended. Which characters a scalar escapes depends on
/// the innermost composite that was entered and not left yet.
pub struct Serializer {
    output: Vec<char>,
    scopes: Vec<Scope>,
}

impl View for Serializer {
    type V = Buffer;

    closed spec fn view(&self) -> Buffer {
        Buffer { text: self.output@, scopes: self.scopes@ }
    }
}

impl Serializer {
    /// An encoder that has written nothing, outside any composite.
    pub fn new() -> (ser: Self)
        ensures
            ser@.text == Seq::<char>::empty(),
            ser@.scopes == Seq::<Scope>::empty(),
    {
        Serializer { output: Vec::new(), scopes: Vec::new() }
    }

    /// The line that was written.
    pub fn into_string(self) -> (out: String)
        ensures
            out@ == self@.text,
    {
        to_string(&self.output)
    }

    /// The innermost composite that was entered and not left.
    pub fn top(&self) -> (top: Option<Scope>)
        ensures
            top == innermost(self@.scopes),
    {
        let n: usize = self.scopes.len();
        if n == 0 {
            None
        } else {
            Some(self.scopes[n - 1])
        }
    }

    /// Enters a composite: from here on its delimiters are escaped.
    pub fn enter(&mut self, scope: Scope)
        ensures
            final(self)@ == old(self)@.enter(scope),
    {
        self.scopes.push(scope);
    }

    /// Leaves the innermost composite.
    pub fn leave(&mut self)
        ensures
            final(self)@ == old(self)@.leave(),
    {
        let _ = self.scopes.pop();
    }

    /// Appends one character as it is.
    pub fn put(&mut self, c: char)
        ensures
            final(self)@ == old(self)@.write(seq![c]),
    {
        self.output.push(c);
        assert(self@.text == old(self)@.text + seq![c]);
    }

    /// Appends the separator `delim` unless `count` says that the element
    /// to come is the first of its composite.
    pub fn separate(&mut self, count: i32, delim: char)
        ensures
            final(self)@ == old(self)@.separate(count as int, delim),
    {
        if count > 0 {
            self.output.push(delim);
            assert(self@.text == old(self)@.text + seq![delim]);
        }
    }

    /// The on-wire form of a scalar's text at the current place.
    pub fn escape_str(&self, v: &str) -> (out: String)
        ensures
            out@ == escape(v@, self@.commas(), self@.equals()),
    {
        let top = self.top();
        let commas = matches!(top, Some(Scope::Sequence) | Some(Scope::Mapping));
        let equals = matches!(top, Some(Scope::Mapping));
        let mut out: Vec<char> = Vec::new();
        escape_into(&mut out, &to_chars(v), commas, equals);
        to_string(&out)
    }

    /// Appends the escaped form of `v`.
    pub fn serialize_chars(&mut self, v: &Vec<char>)
        ensures
            final(self)@ == old(self)@.write_escaped(v@),
    {
        let top = self.top();
        let commas = matches!(top, Some(Scope::Sequence) | Some(Scope::Mapping));
        let equals = matches!(top, Some(Scope::Mapping));
        escape_into(&mut self.output, v, commas, equals);
    }

    /// Writes `true` or `false`.
    pub fn serialize_bool(&mut self, v: bool) -> (r: Result<(), Error>)
        ensures
            r is Ok,
            final(self)@ == old(self)@.write(bool_word(v)),
    {
        if v {
            self.output.push('t');
            self.output.push('r');
            self.output.push('u');
            self.output.push('e');
        } else {
            self.output.push('f');
            self.output.push('a');
            self.output.push('l');
            self.output.push('s');
            self.output.push('e');
        }
        assert(self@.text == old(self)@.text + bool_word(v));
        Ok(())
    }

    /// Writes a signed number in decimal.
    pub fn serialize_i8(&mut self, v: i8) -> (r: Result<(), Error>)
        ensures
            r is Ok,
            final(self)@ == old(self)@.write(signed_decimal(v as int)),
    {
        self.serialize_i64(v as i64)
    }

    /// Writes a signed number in decimal.
    pub fn serialize_i16(&mut self, v: i16) -> (r: Result<(), Error>)
        ensures
            r is Ok,
            final(self)@ == old(self)@.write(signed_decimal(v as int)),
    {
        self.serialize_i64(v as i64)
    }

    /// Writes a signed number in decimal.
    pub fn serialize_i32(&mut self, v: i32) -> (r: Result<(), Error>)
        ensures
            r is Ok,
            final(self)@ == old(self)@.write(signed_decimal(v as int)),
    {
        self.serialize_i64(v as i64)
    }

    /// Writes a signed number in decimal, with a minus sign if it is
    /// negative.
    pub fn serialize_i64(&mut self, v: i64) -> (r: Result<(), Error>)
        ensures
            r is Ok,
            final(self)@ == old(self)@.write(signed_decimal(v as int)),
    {
        push_signed(&mut self.output, v);
        Ok(())
    }

    /// Writes an unsigned number in decimal.
    pub fn serialize_u8(&mut self, v: u8) -> (r: Result<(), Error>)
        ensures
            r is Ok,
            final(self)@ == old(self)@.write(decimal(v as nat)),
    {
        self.serialize_u64(v as u64)
    }

    /// Writes an unsigned number in decimal.
    pub fn serialize_u16(&mut self, v: u16) -> (r: Result<(), Error>)
        ensures
            r is Ok,
            final(self)@ == old(self)@.write(decimal(v as nat)),
    {
        self.serialize_u64(v as u64)
    }

    /// Writes an unsigned number in decimal.
    pub fn serialize_u32(&mut self, v: u32) -> (r: Result<(), Error>)
        ensures
            r is Ok,
            final(self)@ == old(self)@.write(decimal(v as nat)),
    {
        self.serialize_u64(v as u64)
    }

    /// Writes an unsigned number in decimal, without leading zeros.
    pub fn serialize_u64(&mut self, v: u64) -> (r: Result<(), Error>)
        ensures
            r is Ok,
            final(self)@ == old(self)@.write(decimal(v as nat)),
    {
        push_decimal(&mut self.output, v);
        Ok(())
    }

    /// Writes one character, escaped.
    pub fn serialize_char(&mut self, v: char) -> (r: Result<(), Error>)
        ensures
            r is Ok,
            final(self)@ == old(self)@.write_escaped(seq![v]),
    {
        let mut one: Vec<char> = Vec::new();
        one.push(v);
        self.serialize_chars(&one);
        Ok(())
    }

    /// Writes a text, escaped.
    pub fn serialize_str(&mut self, v: &str) -> (r: Result<(), Error>)
        ensures
            r is Ok,
            final(self)@ == old(self)@.write_escaped(v@),
    {
        self.serialize_chars(&to_chars(v));
        Ok(())
    }

    /// Binary blobs cannot be written in this format.
    pub fn serialize_bytes(&mut self, _v: &[u8]) -> (r: Result<(), Error>)
        ensures
            r == Err::<(), Error>(Error::BytesUnsupported),
            *final(self) == *old(self),
    {
        Err(Error::BytesUnsupported)
    }

    /// An absent optional value is written as nothing.
    pub fn serialize_none(&mut self) -> (r: Result<(), Error>)
        ensures
            r is Ok,
            *final(self) == *old(self),
    {
        self.serialize_unit()
    }

    /// A unit is written as nothing.
    pub fn serialize_unit(&mut self) -> (r: Result<(), Error>)
        ensures
            r is Ok,
            *final(self) == *old(self),
    {
        Ok(())
    }

    /// A unit struct is written as nothing.
    pub fn serialize_unit_struct(&mut self, _name: &'static str) -> (r: Result<(), Error>)
        ensures
            r is Ok,
            *final(self) == *old(self),
    {
        self.serialize_unit()
    }

    /// A variant without payload is written as its tag.
    pub fn serialize_unit_variant(
        &mut self,
        _name: &'static str,
        _variant_index: u32,
        variant: &'static str,
    ) -> (r: Result<(), Error>)
        ensures
            r is Ok,
            final(self)@ == old(self)@.write_escaped(variant@),
    {
        self.serialize_str(variant)
    }

    /// Writes the tag of a variant and the `:` that precedes its payload.
    pub fn serialize_tag(&mut self, variant: &str)
        ensures
            final(self)@ == old(self)@.write_escaped(variant@).write(seq![':']),
    {
        self.serialize_chars(&to_chars(variant));
        let ghost tagged = self@.text;
        self.output.push(':');
        assert(self@.text == tagged + seq![':']);
    }

    /// A present optional value is written as the value itself.
    pub fn serialize_some(&mut self, value: &Value) -> (r: Result<(), Error>)
        ensures
            has_bytes(value@) ==> r == Err::<(), Error>(Error::BytesUnsupported) && *final(self)
                == *old(self),
            !has_bytes(value@) ==> r is Ok && final(self)@ == old(self)@.write(
                wire(value@, innermost(old(self)@.scopes)),
            ),
    {
        self.serialize_value(value)
    }

    /// A struct of one unnamed field is written as that field.
    pub fn serialize_newtype_struct(&mut self, _name: &'static str, value: &Value) -> (r: Result<
        (),
        Error,
    >)
        ensures
            has_bytes(value@) ==> r == Err::<(), Error>(Error::BytesUnsupported) && *final(self)
                == *old(self),
            !has_bytes(value@) ==> r is Ok && final(self)@ == old(self)@.write(
                wire(value@, innermost(old(self)@.scopes)),
            ),
    {
        self.serialize_value(value)
    }

    /// A variant with one unnamed field is written as its tag, a `:` and the
    /// field.
    pub fn serialize_newtype_variant(
        &mut self,
        _name: &'static str,
        _variant_index: u32,
        variant: &'static str,
        value: &Value,
    ) -> (r: Result<(), Error>)
        ensures
            has_bytes(value@) ==> r == Err::<(), Error>(Error::BytesUnsupported) && *final(self)
                == *old(self),
            !has_bytes(value@) ==> r is Ok && final(self)@ == old(self)@.write_escaped(
                variant@,
            ).write(seq![':']).write(wire(value@, innermost(old(self)@.scopes))),
    {
        if contains_bytes(value) {
            return Err(Error::BytesUnsupported);
        }
        self.serialize_tag(variant);
        self.write_value(value);
        Ok(())
    }

    /// Starts a sequence.
    pub fn serialize_seq<'a>(&'a mut self, _len: Option<usize>) -> (r: Result<UDSVSeq<'a>, Error>)
        ensures
            r matches Ok(seq) && seq.0@ == old(self)@.enter(Scope::Sequence) && seq.1 == 0
                && *final(self) == *final(seq.0),
    {
        self.enter(Scope::Sequence);
        Ok(UDSVSeq(self, 0))
    }

    /// Starts a tuple, which is written as a sequence is.
    pub fn serialize_tuple<'a>(&'a mut self, _len: usize) -> (r: Result<UDSVTuple<'a>, Error>)
        ensures
            r matches Ok(tuple) && tuple.0@ == old(self)@.enter(Scope::Sequence) && tuple.1 == 0
                && *final(self) == *final(tuple.0),
    {
        self.enter(Scope::Sequence);
        Ok(UDSVTuple(self, 0))
    }

    /// Starts a struct of unnamed fields, which is written as a tuple is.
    pub fn serialize_tuple_struct<'a>(&'a mut self, _name: &'static str, len: usize) -> (r: Result<
        UDSVTuple<'a>,
        Error,
    >)
        ensures
            r matches Ok(tuple) && tuple.0@ == old(self)@.enter(Scope::Sequence) && tuple.1 == 0
                && *final(self) == *final(tuple.0),
    {
        self.serialize_tuple(len)
    }

    /// Starts a variant with unnamed fields: its tag, a `:`, then a tuple.
    pub fn serialize_tuple_variant<'a>(
        &'a mut self,
        _name: &'static str,
        _variant_index: u32,
        variant: &'static str,
        _len: usize,
    ) -> (r: Result<UDSVTuple<'a>, Error>)
        ensures
            r matches Ok(tuple) && tuple.0@ == old(self)@.write_escaped(variant@).write(
                seq![':'],
            ).enter(Scope::Sequence) && tuple.1 == 0 && *final(self) == *final(tuple.0),
    {
        self.serialize_tag(variant);
        self.enter(Scope::Sequence);
        Ok(UDSVTuple(self, 0))
    }

    /// Starts a map.
    pub fn serialize_map<'a>(&'a mut self, _len: Option<usize>) -> (r: Result<UDSVMap<'a>, Error>)
        ensures
            r matches Ok(map) && map.0@ == old(self)@.enter(Scope::Mapping) && map.1 == 0
                && *final(self) == *final(map.0),
    {
        self.enter(Scope::Mapping);
        Ok(UDSVMap(self, 0))
    }

    /// Starts a struct.
    pub fn serialize_struct<'a>(&'a mut self, _name: &'static str, _len: usize) -> (r: Result<
        UDSVStuct<'a>,
        Error,
    >)
        ensures
            r matches Ok(fields) && fields.0@ == old(self)@.enter(Scope::Struct) && fields.1 == 0
                && *final(self) == *final(fields.0),
    {
        self.enter(Scope::Struct);
        Ok(UDSVStuct(self, 0))
    }

    /// Starts a variant with named fields: its tag, a `:`, then a struct.
    pub fn serialize_struct_variant<'a>(
        &'a mut self,
        _name: &'static str,
        _variant_index: u32,
        variant: &'static str,
        _len: usize,
    ) -> (r: Result<UDSVStuct<'a>, Error>)
        ensures
            r matches Ok(fields) && fields.0@ == old(self)@.write_escaped(variant@).write(
                seq![':'],
            ).enter(Scope::Struct) && fields.1 == 0 && *final(self) == *final(fields.0),
    {
        self.serialize_tag(variant);
        self.enter(Scope::Struct);
        Ok(UDSVStuct(self, 0))
    }

    /// Writes one part of a composite: the separator `delim` unless `count`
    /// says it is the first, then the value.
    pub fn serialize_part(&mut self, count: i32, delim: char, value: &Value) -> (r: Result<
        (),
        Error,
    >)
        ensures
            has_bytes(value@) ==> r == Err::<(), Error>(Error::BytesUnsupported) && *final(self)
                == *old(self),
            !has_bytes(value@) ==> r is Ok && final(self)@ == old(self)@.separate(
                count as int,
                delim,
            ).write(wire(value@, innermost(old(self)@.scopes))),
    {
        if contains_bytes(value) {
            return Err(Error::BytesUnsupported);
        }
        self.separate(count, delim);
        self.write_value(value);
        Ok(())
    }

    /// Writes a whole value at the current place.
    ///
    /// A value that holds a binary blob anywhere is refused before anything
    /// is written.
    pub fn serialize_value(&mut self, value: &Value) -> (r: Result<(), Error>)
        ensures
            has_bytes(value@) ==> r == Err::<(), Error>(Error::BytesUnsupported) && *final(self)
                == *old(self),
            !has_bytes(value@) ==> r is Ok && final(self)@ == old(self)@.write(
                wire(value@, innermost(old(self)@.scopes)),
            ),
    {
        if contains_bytes(value) {
            return Err(Error::BytesUnsupported);
        }
        self.write_value(value);
        Ok(())
    }

    fn write_value(&mut self, value: &Value)
        requires
            !has_bytes(value@),
        ensures
            final(self)@ == old(self)@.write(wire(value@, innermost(old(self)@.scopes))),
        decreases value,
    {
        let ghost before = self@;
        match value {
            Value::Bool(b) => {
                let _ = self.serialize_bool(*b);
            },
            Value::Unsigned(n) => {
                let _ = self.serialize_u64(*n);
            },
            Value::Signed(n) => {
                let _ = self.serialize_i64(*n);
            },
            Value::Char(c) => {
                let _ = self.serialize_char(*c);
            },
            Value::Text(s) => {
                let _ = self.serialize_str(s.as_str());
            },
            Value::Bytes(_) => {},
            Value::Unit => {
                assert(before.text + Seq::<char>::empty() == before.text);
            },
            Value::Absent => {
                assert(before.text + Seq::<char>::empty() == before.text);
            },
            Value::Present(inner) => {
                self.write_value(inner);
            },
            Value::Sequence(items) => {
                self.enter(Scope::Sequence);
                self.write_items(items, ',', Scope::Sequence);
                self.leave();
                assert(before.scopes.push(Scope::Sequence).drop_last() == before.scopes);
            },
            Value::Struct(fields) => {
                self.enter(Scope::Struct);
                self.write_items(fields, ':', Scope::Struct);
                self.leave();
                assert(before.scopes.push(Scope::Struct).drop_last() == before.scopes);
            },
            Value::Mapping(entries) => {
                self.enter(Scope::Mapping);
                self.write_entries(entries);
                self.leave();
                assert(before.scopes.push(Scope::Mapping).drop_last() == before.scopes);
            },
            Value::Variant(tag, payload) => {
                match payload {
                    None => {
                        let _ = self.serialize_str(tag.as_str());
                    },
                    Some(inner) => {
                        self.serialize_tag(tag.as_str());
                        let ghost tagged = self@;
                        self.write_value(inner);
                        assert(self@.text == before.text + (escape(
                            tag@,
                            before.commas(),
                            before.equals(),
                        ) + seq![':'] + wire(inner@, innermost(before.scopes))));
                    },
                }
            },
        }
    }

    #[verifier::loop_isolation(false)]
    fn write_items(&mut self, items: &Vec<Value>, delim: char, scope: Scope)
        requires
            !any_bytes(view_all(items@), 0),
            innermost(old(self)@.scopes) == Some(scope),
        ensures
            final(self)@ == old(self)@.write(wire_items(view_all(items@), 0, delim, scope)),
        decreases items,
    {
        let ghost before = self@;
        let ghost data = view_all(items@);
        let mut i: usize = 0;
        while i < items.len()
            invariant
                i <= items.len(),
                self@.scopes == before.scopes,
                !any_bytes(data, i as int),
                self@.text + wire_items(data, i as int, delim, scope) == before.text + wire_items(
                    data,
                    0,
                    delim,
                    scope,
                ),
            decreases items.len() - i,
        {
            let ghost here = self@.text;
            if i > 0 {
                self.put(delim);
            }
            self.write_value(&items[i]);
            proof {
                let item = wire(items[i as int]@, Some(scope));
                let behind = wire_items(data, i + 1, delim, scope);
                assert(self@.text == here + separator(i as int, delim) + item);
                assert(here + separator(i as int, delim) + item + behind == here + (separator(
                    i as int,
                    delim,
                ) + item + behind));
            }
            i += 1;
        }
        assert(self@.text + Seq::<char>::empty() == self@.text);
    }

    #[verifier::loop_isolation(false)]
    fn write_entries(&mut self, entries: &Vec<(Value, Value)>)
        requires
            !any_entry_bytes(view_entries(entries@), 0),
            innermost(old(self)@.scopes) == Some(Scope::Mapping),
        ensures
            final(self)@ == old(self)@.write(wire_entries(view_entries(entries@), 0)),
        decreases entries,
    {
        let ghost before = self@;
        let ghost data = view_entries(entries@);
        let mut i: usize = 0;
        while i < entries.len()
            invariant
                i <= entries.len(),
                self@.scopes == before.scopes,
                !any_entry_bytes(data, i as int),
                self@.text + wire_entries(data, i as int) == before.text + wire_entries(data, 0),
            decreases entries.len() - i,
        {
            let ghost here = self@.text;
            if i > 0 {
                self.put(',');
            }
            self.write_value(&entries[i].0);
            self.put('=');
            self.write_value(&entries[i].1);
            proof {
                let key = wire(entries[i as int].0@, Some(Scope::Mapping));
                let value = wire(entries[i as int].1@, Some(Scope::Mapping));
                let behind = wire_entries(data, i + 1);
                assert(self@.text == here + separator(i as int, ',') + key + seq!['='] + value);
                assert(here + separator(i as int, ',') + key + seq!['='] + value + behind == here
                    + (separator(i as int, ',') + key + seq!['='] + value + behind));
            }
            i += 1;
        }
        assert(self@.text + Seq::<char>::empty() == self@.text);
    }
}

/// The count of a composite's parts after one more was written.
pub fn next_count(count: i32) -> (next: i32)
    ensures
        next == bump(count),
{
    if count < i32::MAX {
        count + 1
    } else {
        count
    }
}

/// A sequence that is being written: the encoder, and how many elements
/// were written.
pub struct UDSVSeq<'a>(pub &'a mut Serializer, pub i32);

/// A map that is being written: the encoder, and how many entries were
/// begun.
pub struct UDSVMap<'a>(pub &'a mut Serializer, pub i32);

/// A struct that is being written: the encoder, and how many fields were
/// written.
pub struct UDSVStuct<'a>(pub &'a mut Serializer, pub i32);

/// A tuple that is being written: the encoder, and how many elements were
/// written.
pub struct UDSVTuple<'a>(pub &'a mut Serializer, pub i32);

impl<'a> UDSVSeq<'a> {
    /// Makes room for the next element: writes `,` unless the element is
    /// the first, and hands out the encoder to write the element with.
    pub fn element(&mut self) -> (slot: &mut Serializer)
        ensures
            slot@ == old(self).0@.separate(old(self).1 as int, ','),
            *final(self).0 == *final(slot),
            final(self).1 == bump(old(self).1),
            *final(final(self).0) == *final(old(self).0),
    {
        self.0.separate(self.1, ',');
        self.1 = next_count(self.1);
        &mut *self.0
    }

    /// Writes the next element, preceded by `,` unless it is the first.
    pub fn serialize_element(&mut self, value: &Value) -> (r: Result<(), Error>)
        ensures
            *final(final(self).0) == *final(old(self).0),
            has_bytes(value@) ==> r == Err::<(), Error>(Error::BytesUnsupported) && *final(self).0
                == *old(self).0 && final(self).1 == old(self).1,
            !has_bytes(value@) ==> r is Ok && final(self).0@ == old(self).0@.separate(
                old(self).1 as int,
                ',',
            ).write(wire(value@, innermost(old(self).0@.scopes))) && final(self).1 == bump(
                old(self).1,
            ),
    {
        self.0.serialize_part(self.1, ',', value)?;
        self.1 = next_count(self.1);
        Ok(())
    }

    /// Ends the sequence.
    pub fn end(self) -> (r: Result<(), Error>)
        ensures
            r is Ok,
            final(self.0)@ == old(self.0)@.leave(),
    {
        self.0.leave();
        Ok(())
    }
}

impl<'a> UDSVTuple<'a> {
    /// Makes room for the next element: writes `,` unless the element is
    /// the first, and hands out the encoder to write the element with.
    pub fn element(&mut self) -> (slot: &mut Serializer)
        ensures
            slot@ == old(self).0@.separate(old(self).1 as int, ','),
            *final(self).0 == *final(slot),
            final(self).1 == bump(old(self).1),
            *final(final(self).0) == *final(old(self).0),
    {
        self.0.separate(self.1, ',');
        self.1 = next_count(self.1);
        &mut *self.0
    }

    /// Writes the next element, preceded by `,` unless it is the first.
    pub fn serialize_element(&mut self, value: &Value) -> (r: Result<(), Error>)
        ensures
            *final(final(self).0) == *final(old(self).0),
            has_bytes(value@) ==> r == Err::<(), Error>(Error::BytesUnsupported) && *final(self).0
                == *old(self).0 && final(self).1 == old(self).1,
            !has_bytes(value@) ==> r is Ok && final(self).0@ == old(self).0@.separate(
                old(self).1 as int,
                ',',
            ).write(wire(value@, innermost(old(self).0@.scopes))) && final(self).1 == bump(
                old(self).1,
            ),
    {
        self.0.serialize_part(self.1, ',', value)?;
        self.1 = next_count(self.1);
        Ok(())
    }

    /// Writes the next unnamed field, as an element is written.
    pub fn serialize_field(&mut self, value: &Value) -> (r: Result<(), Error>)
        ensures
            *final(final(self).0) == *final(old(self).0),
            has_bytes(value@) ==> r == Err::<(), Error>(Error::BytesUnsupported) && *final(self).0
                == *old(self).0 && final(self).1 == old(self).1,
            !has_bytes(value@) ==> r is Ok && final(self).0@ == old(self).0@.separate(
                old(self).1 as int,
                ',',
            ).write(wire(value@, innermost(old(self).0@.scopes))) && final(self).1 == bump(
                old(self).1,
            ),
    {
        self.serialize_element(value)
    }

    /// Ends the tuple.
    pub fn end(self) -> (r: Result<(), Error>)
        ensures
            r is Ok,
            final(self.0)@ == old(self.0)@.leave(),
    {
        self.0.leave();
        Ok(())
    }
}

impl<'a> UDSVMap<'a> {
    /// Makes room for the key of the next entry: writes `,` unless the entry
    /// is the first, and hands out the encoder to write the key with.
    pub fn key(&mut self) -> (slot: &mut Serializer)
        ensures
            slot@ == old(self).0@.separate(old(self).1 as int, ','),
            *final(self).0 == *final(slot),
            final(self).1 == bump(old(self).1),
            *final(final(self).0) == *final(old(self).0),
    {
        self.0.separate(self.1, ',');
        self.1 = next_count(self.1);
        &mut *self.0
    }

    /// Writes the `=` behind a key and hands out the encoder to write the
    /// value with.
    pub fn value(&mut self) -> (slot: &mut Serializer)
        ensures
            slot@ == old(self).0@.write(seq!['=']),
            *final(self).0 == *final(slot),
            final(self).1 == old(self).1,
            *final(final(self).0) == *final(old(self).0),
    {
        self.0.put('=');
        &mut *self.0
    }

    /// Writes the key of the next entry, preceded by `,` unless the entry
    /// is the first.
    pub fn serialize_key(&mut self, key: &Value) -> (r: Result<(), Error>)
        ensures
            *final(final(self).0) == *final(old(self).0),
            has_bytes(key@) ==> r == Err::<(), Error>(Error::BytesUnsupported) && *final(self).0
                == *old(self).0 && final(self).1 == old(self).1,
            !has_bytes(key@) ==> r is Ok && final(self).0@ == old(self).0@.separate(
                old(self).1 as int,
                ',',
            ).write(wire(key@, innermost(old(self).0@.scopes))) && final(self).1 == bump(
                old(self).1,
            ),
    {
        self.0.serialize_part(self.1, ',', key)?;
        self.1 = next_count(self.1);
        Ok(())
    }

    /// Writes `=` and the value of the entry whose key was written last.
    pub fn serialize_value(&mut self, value: &Value) -> (r: Result<(), Error>)
        ensures
            *final(final(self).0) == *final(old(self).0),
            final(self).1 == old(self).1,
            has_bytes(value@) ==> r == Err::<(), Error>(Error::BytesUnsupported) && *final(self).0
                == *old(self).0,
            !has_bytes(value@) ==> r is Ok && final(self).0@ == old(self).0@.write(
                seq!['='],
            ).write(wire(value@, innermost(old(self).0@.scopes))),
    {
        self.0.serialize_part(1, '=', value)
    }

    /// Ends the map.
    pub fn end(self) -> (r: Result<(), Error>)
        ensures
            r is Ok,
            final(self.0)@ == old(self.0)@.leave(),
    {
        self.0.leave();
        Ok(())
    }
}

impl<'a> UDSVStuct<'a> {
    /// Makes room for the next field: writes `:` unless the field is the
    /// first, and hands out the encoder to write the field with.
    pub fn field(&mut self) -> (slot: &mut Serializer)
        ensures
            slot@ == old(self).0@.separate(old(self).1 as int, ':'),
            *final(self).0 == *final(slot),
            final(self).1 == bump(old(self).1),
            *final(final(self).0) == *final(old(self).0),
    {
        self.0.separate(self.1, ':');
        self.1 = next_count(self.1);
        &mut *self.0
    }

    /// Writes the next field, preceded by `:` unless it is the first. The
    /// name of the field is not written.
    pub fn serialize_field(&mut self, _key: &'static str, value: &Value) -> (r: Result<(), Error>)
        ensures
            *final(final(self).0) == *final(old(self).0),
            has_bytes(value@) ==> r == Err::<(), Error>(Error::BytesUnsupported) && *final(self).0
                == *old(self).0 && final(self).1 == old(self).1,
            !has_bytes(value@) ==> r is Ok && final(self).0@ == old(self).0@.separate(
                old(self).1 as int,
                ':',
            ).write(wire(value@, innermost(old(self).0@.scopes))) && final(self).1 == bump(
                old(self).1,
            ),
    {
        self.0.serialize_part(self.1, ':', value)?;
        self.1 = next_count(self.1);
        Ok(())
    }

    /// Ends the struct.
    pub fn end(self) -> (r: Result<(), Error>)
        ensures
            r is Ok,
            final(self.0)@ == old(self.0)@.leave(),
    {
        self.0.leave();
        Ok(())
    }
}

/// Tells whether a binary blob occurs anywhere in the value.
pub fn contains_bytes(value: &Value) -> (b: bool)
    ensures
        b == has_bytes(value@),
    decreases value,
{
    match value {
        Value::Bytes(_) => true,
        Value::Present(inner) => contains_bytes(inner),
        Value::Sequence(items) => items_contain_bytes(items),
        Value::Struct(fields) => items_contain_bytes(fields),
        Value::Mapping(entries) => entries_contain_bytes(entries),
        Value::Variant(_, Some(payload)) => contains_bytes(payload),
        _ => false,
    }
}

#[verifier::loop_isolation(false)]
fn items_contain_bytes(items: &Vec<Value>) -> (b: bool)
    ensures
        b == any_bytes(view_all(items@), 0),
    decreases items,
{
    let ghost data = view_all(items@);
    let mut i: usize = 0;
    while i < items.len()
        invariant
            i <= items.len(),
            any_bytes(data, i as int) == any_bytes(data, 0),
        decreases items.len() - i,
    {
        if contains_bytes(&items[i]) {
            return true;
        }
        i += 1;
    }
    false
}

#[verifier::loop_isolation(false)]
fn entries_contain_bytes(entries: &Vec<(Value, Value)>) -> (b: bool)
    ensures
        b == any_entry_bytes(view_entries(entries@), 0),
    decreases entries,
{
    let ghost data = view_entries(entries@);
    let mut i: usize = 0;
    while i < entries.len()
        invariant
            i <= entries.len(),
            any_entry_bytes(data, i as int) == any_entry_bytes(data, 0),
        decreases entries.len() - i,
    {
        if contains_bytes(&entries[i].0) || contains_bytes(&entries[i].1) {
            return true;
        }
        i += 1;
    }
    false
}

/// Writes a value as one line.
///
/// Fails, with nothing written, iff the value holds a binary blob. The line
/// of any other value is its text outside any composite.
pub fn record_to_string(value: &Value) -> (r: Result<String, Error>)
    ensures
        has_bytes(value@) ==> r == Err::<String, Error>(Error::BytesUnsupported),
        !has_bytes(value@) ==> (r matches Ok(line) && line@ == wire(value@, None)),
{
    let mut serializer = Serializer::new();
    serializer.serialize_value(value)?;
    let ghost text = serializer@.text;
    assert(text == wire(value@, None));
    Ok(serializer.into_string())
}

} // verus!
