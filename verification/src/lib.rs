//! A codec for single-line, positional, delimiter-separated records.
//!
//! A record is one line of text. The characters `:`, `,` and `=` separate the
//! parts of a value; which of them separate at a given place depends on the
//! composite that is being read or written there, not on brackets or length
//! prefixes. The shape of a value is therefore supplied from outside: as a
//! [`Schema`], or by a caller that drives the engines operation by
//! operation.
//!
//! - [`resolve`] finds the delimiter that ends a token, and [`codec`]
//!   escapes and unescapes the text of a scalar.
//! - [`ser`] and [`de`] hold the two engines; [`wire`] and [`grammar`] say
//!   what they write and read, over the model of [`cursor`] and [`value`].
//! - [`laws`] and [`roundtrip`] prove what holds between the two directions.

pub mod codec;
pub mod cursor;
pub mod de;
pub mod err;
pub mod grammar;
pub mod laws;
pub mod number;
pub mod resolve;
pub mod roundtrip;
pub mod ser;
pub mod text;
pub mod value;
pub mod wire;

pub use de::{record_from_str, record_from_str_at, DelimiterSeparated, Deserializer, Enum};
pub use err::Error;
pub use resolve::Scope;
pub use ser::{record_to_string, Serializer, UDSVMap, UDSVSeq, UDSVStuct, UDSVTuple};
pub use value::{IntWidth, Schema, Value, VariantSchema};
