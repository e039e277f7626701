use vstd::prelude::*;

verus! {

/// Everything that can go wrong while encoding or decoding a record.
///
/// Every error is fatal to the call that raised it: no partial value is
/// handed back.
#[derive(Debug, PartialEq, Eq)]
pub enum Error {
    /// A free-form message raised by the caller's own traversal code.
    Message(String),
    /// The input ended where a character was required.
    Eof,
    /// The input is malformed in a way that no other error names.
    Syntax,
    /// Binary blobs have no representation in this text format.
    BytesUnsupported,
    /// A number does not fit the integer type that was asked for.
    IntegerOverflow,
    /// Neither `true` nor `false` stands where a boolean was asked for.
    ExpectedBoolean,
    /// No digit stands where a number was asked for.
    ExpectedInteger,
    /// A character was asked for and the token does not hold exactly one.
    ExpectedChar,
    ExpectedString,
    /// A unit was asked for and the input is not exhausted.
    ExpectedEmpty,
    /// A part of a tuple or a struct is missing.
    ExpectedArray,
    /// Two elements are not separated by the delimiter of their composite.
    ExpectedArrayComma,
    ExpectedArrayEnd,
    ExpectedMap,
    /// A map entry is not followed by `,`, or its value holds a bare `=`.
    ExpectedMapComma,
    /// A map key is not followed by `=`, or holds a bare `,`.
    ExpectedMapEquals,
    ExpectedMapEnd,
    /// The tag that was read names no variant of the enum.
    ExpectedEnum,
    /// Input is left over after the whole value was decoded.
    TrailingCharacters,
}

impl Error {
    /// The human-readable text of an error.
    pub open spec fn text(self) -> Seq<char> {
        match self {
            Error::Message(msg) => msg@,
            Error::Eof => "Unexpected end of input"@,
            Error::Syntax => "Malformed input"@,
            Error::BytesUnsupported => {
                "Serialising bytes is not supported for a human readable format"@
            },
            Error::IntegerOverflow => "Number out of range for its integer type"@,
            Error::ExpectedBoolean => "Expected `true` or `false`"@,
            Error::ExpectedInteger => "Expected an integer"@,
            Error::ExpectedChar => "Expected a single character"@,
            Error::ExpectedString => "Expected a string"@,
            Error::ExpectedEmpty => "Expected the end of input"@,
            Error::ExpectedArray => "Expected a part of a tuple or a struct"@,
            Error::ExpectedArrayComma => "Expected a separator between elements"@,
            Error::ExpectedArrayEnd => "Expected the end of a sequence"@,
            Error::ExpectedMap => "Expected a map"@,
            Error::ExpectedMapComma => "Expected `,` between map entries"@,
            Error::ExpectedMapEquals => "Expected `=` between key and value"@,
            Error::ExpectedMapEnd => "Expected the end of a map"@,
            Error::ExpectedEnum => "Expected a variant of the enum"@,
            Error::TrailingCharacters => "Trailing characters after the value"@,
        }
    }

    /// Wraps a caller's message.
    pub fn custom(msg: &str) -> (e: Error)
        ensures
            e matches Error::Message(m) && m@ == msg@,
    {
        Error::Message(msg.to_owned())
    }

    /// Renders the error for a human reader.
    pub fn message(&self) -> (out: String)
        ensures
            out@ == self.text(),
    {
        match self {
            Error::Message(msg) => msg.clone(),
            Error::Eof => "Unexpected end of input".to_owned(),
            Error::Syntax => "Malformed input".to_owned(),
            Error::BytesUnsupported => {
                "Serialising bytes is not supported for a human readable format".to_owned()
            },
            Error::IntegerOverflow => "Number out of range for its integer type".to_owned(),
            Error::ExpectedBoolean => "Expected `true` or `false`".to_owned(),
            Error::ExpectedInteger => "Expected an integer".to_owned(),
            Error::ExpectedChar => "Expected a single character".to_owned(),
            Error::ExpectedString => "Expected a string".to_owned(),
            Error::ExpectedEmpty => "Expected the end of input".to_owned(),
            Error::ExpectedArray => "Expected a part of a tuple or a struct".to_owned(),
            Error::ExpectedArrayComma => "Expected a separator between elements".to_owned(),
            Error::ExpectedArrayEnd => "Expected the end of a sequence".to_owned(),
            Error::ExpectedMap => "Expected a map".to_owned(),
            Error::ExpectedMapComma => "Expected `,` between map entries".to_owned(),
            Error::ExpectedMapEquals => "Expected `=` between key and value".to_owned(),
            Error::ExpectedMapEnd => "Expected the end of a map".to_owned(),
            Error::ExpectedEnum => "Expected a variant of the enum".to_owned(),
            Error::TrailingCharacters => "Trailing characters after the value".to_owned(),
        }
    }
}

} // verus!
