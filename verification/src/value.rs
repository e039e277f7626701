use vstd::prelude::*;

verus! {

/// A value that a record can hold.
///
/// A record does not describe itself: the same line can stand for different
/// values, and which one is meant is told by a [`Schema`].
#[derive(Debug, PartialEq, Eq)]
pub enum Value {
    Bool(bool),
    Unsigned(u64),
    Signed(i64),
    Char(char),
    Text(String),
    /// A binary blob. The format has no way to write one.
    Bytes(Vec<u8>),
    Unit,
    /// An optional value that is missing.
    Absent,
    /// An optional value that is there.
    Present(Box<Value>),
    /// A sequence or a tuple.
    Sequence(Vec<Value>),
    /// The entries of a map, in the order in which they are written.
    Mapping(Vec<(Value, Value)>),
    /// The fields of a struct, in the order of their declaration.
    Struct(Vec<Value>),
    /// A variant of an enum: its tag, and its payload if it has one.
    Variant(String, Option<Box<Value>>),
}

/// The mathematical content of a [`Value`].
pub enum Data {
    Bool(bool),
    Unsigned(nat),
    Signed(int),
    Char(char),
    Text(Seq<char>),
    Bytes(Seq<u8>),
    Unit,
    Absent,
    Present(Box<Data>),
    Sequence(Seq<Data>),
    Mapping(Seq<(Data, Data)>),
    Struct(Seq<Data>),
    Variant(Seq<char>, Option<Box<Data>>),
}

/// The content of each value of a list.
pub open spec fn view_all(items: Seq<Value>) -> Seq<Data>
    decreases items,
{
    Seq::new(
        items.len(),
        |i: int|
            if 0 <= i < items.len() {
                data_of(items[i])
            } else {
                Data::Unit
            },
    )
}

/// The content of each entry of a list of pairs.
pub open spec fn view_entries(entries: Seq<(Value, Value)>) -> Seq<(Data, Data)>
    decreases entries,
{
    Seq::new(
        entries.len(),
        |i: int|
            if 0 <= i < entries.len() {
                (data_of(entries[i].0), data_of(entries[i].1))
            } else {
                (Data::Unit, Data::Unit)
            },
    )
}

/// The content of a value.
pub open spec fn data_of(value: Value) -> Data
    decreases value,
{
    match value {
        Value::Bool(b) => Data::Bool(b),
        Value::Unsigned(n) => Data::Unsigned(n as nat),
        Value::Signed(n) => Data::Signed(n as int),
        Value::Char(c) => Data::Char(c),
        Value::Text(s) => Data::Text(s@),
        Value::Bytes(b) => Data::Bytes(b@),
        Value::Unit => Data::Unit,
        Value::Absent => Data::Absent,
        Value::Present(inner) => Data::Present(Box::new(data_of(*inner))),
        Value::Sequence(items) => Data::Sequence(view_all(items@)),
        Value::Mapping(entries) => Data::Mapping(view_entries(entries@)),
        Value::Struct(fields) => Data::Struct(view_all(fields@)),
        Value::Variant(tag, payload) => Data::Variant(
            tag@,
            match payload {
                Some(inner) => Some(Box::new(data_of(*inner))),
                None => None,
            },
        ),
    }
}

impl View for Value {
    type V = Data;

    open spec fn view(&self) -> Data {
        data_of(*self)
    }
}

impl Value {
    /// The value that holds one character.
    pub fn character(c: char) -> (value: Value)
        ensures
            value@ == Data::Char(c),
    {
        Value::Char(c)
    }

    /// The value that holds a text.
    pub fn text(s: &str) -> (value: Value)
        ensures
            value@ == Data::Text(s@),
    {
        Value::Text(s.to_owned())
    }
}

/// The width of an integer type, in bits.
#[derive(Debug, Clone, Copy, PartialEq, Eq, Structural)]
pub enum IntWidth {
    W8,
    W16,
    W32,
    W64,
}

impl IntWidth {
    /// The largest unsigned number of this width.
    pub open spec fn unsigned_high(self) -> nat {
        match self {
            IntWidth::W8 => 0xff,
            IntWidth::W16 => 0xffff,
            IntWidth::W32 => 0xffff_ffff,
            IntWidth::W64 => 0xffff_ffff_ffff_ffff,
        }
    }

    /// The largest signed number of this width.
    pub open spec fn signed_high(self) -> int {
        match self {
            IntWidth::W8 => 0x7f,
            IntWidth::W16 => 0x7fff,
            IntWidth::W32 => 0x7fff_ffff,
            IntWidth::W64 => 0x7fff_ffff_ffff_ffff,
        }
    }

    /// The smallest signed number of this width.
    pub open spec fn signed_low(self) -> int {
        -self.signed_high() - 1
    }

    /// The largest unsigned number of this width.
    pub fn max_unsigned(self) -> (max: u64)
        ensures
            max == self.unsigned_high(),
    {
        match self {
            IntWidth::W8 => 0xff,
            IntWidth::W16 => 0xffff,
            IntWidth::W32 => 0xffff_ffff,
            IntWidth::W64 => 0xffff_ffff_ffff_ffff,
        }
    }

    /// The largest signed number of this width.
    pub fn max_signed(self) -> (max: i64)
        ensures
            max == self.signed_high(),
    {
        match self {
            IntWidth::W8 => 0x7f,
            IntWidth::W16 => 0x7fff,
            IntWidth::W32 => 0x7fff_ffff,
            IntWidth::W64 => 0x7fff_ffff_ffff_ffff,
        }
    }

    /// The smallest signed number of this width.
    pub fn min_signed(self) -> (min: i64)
        ensures
            min == self.signed_low(),
    {
        -self.max_signed() - 1
    }
}

/// The shape of a value: what tells a decoder how to read a line.
#[derive(Debug, PartialEq, Eq)]
pub enum Schema {
    Bool,
    Unsigned(IntWidth),
    Signed(IntWidth),
    Char,
    Text,
    Bytes,
    Unit,
    /// A value that may be missing.
    Optional(Box<Schema>),
    /// Any number of elements of one shape.
    Sequence(Box<Schema>),
    /// A fixed number of elements, each of its own shape.
    Tuple(Vec<Schema>),
    /// Any number of entries, each a key and a value.
    Mapping(Box<Schema>, Box<Schema>),
    /// The fields of a struct, in the order of their declaration.
    Struct(Vec<Schema>),
    /// The variants of an enum.
    Enum(Vec<VariantSchema>),
}

/// One variant of an enum: its tag, and the shape of its payload if it has
/// one.
#[derive(Debug, PartialEq, Eq)]
pub struct VariantSchema {
    pub name: String,
    pub payload: Option<Schema>,
}

} // verus!
