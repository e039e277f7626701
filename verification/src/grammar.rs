use vstd::prelude::*;
use crate::cursor::{Cursor, Stop};
use crate::err::Error;
use crate::number::lemma_digits_are_digits;
use crate::resolve::{lemma_boundary_in_range, Scope};
use crate::value::{Data, Schema, VariantSchema};

verus! {

/// The value of shape `schema` that the text at the cursor stands for, and
/// the cursor behind it; or why there is none, and where reading stopped.
///
/// An optional value is absent where the cursor stands at the end of the
/// input or at a delimiter of the innermost composite. A sequence and a map
/// go on for as long as elements follow; a tuple and a struct hold as many
/// parts as their shape says, and it is an error if one is missing. The tag
/// of a variant must be one that the shape names.
pub open spec fn parse(schema: Schema, c: Cursor) -> Result<(Data, Cursor), Stop>
    decreases schema, c.text.len(), 3int,
{
    match schema {
        Schema::Bool => match c.read_bool() {
            Ok((b, rest)) => Ok((Data::Bool(b), rest)),
            Err(error) => Err(Stop { error, at: c }),
        },
        Schema::Unsigned(width) => match c.read_unsigned(width.unsigned_high()) {
            Ok((n, rest)) => Ok((Data::Unsigned(n), rest)),
            Err(error) => Err(Stop { error, at: c }),
        },
        Schema::Signed(width) => match c.read_signed(width.signed_low(), width.signed_high()) {
            Ok((n, rest)) => Ok((Data::Signed(n), rest)),
            Err(error) => Err(Stop { error, at: c }),
        },
        Schema::Char => match c.read_char() {
            Ok((ch, rest)) => Ok((Data::Char(ch), rest)),
            Err(error) => Err(Stop { error, at: c.read_string().1 }),
        },
        Schema::Text => Ok((Data::Text(c.read_string().0), c.read_string().1)),
        Schema::Bytes => Err(Stop { error: Error::BytesUnsupported, at: c }),
        Schema::Unit => if c.text.len() == 0 {
            Ok((Data::Unit, c))
        } else {
            Err(Stop { error: Error::ExpectedEmpty, at: c })
        },
        Schema::Optional(inner) => if c.at_none() {
            Ok((Data::Absent, c))
        } else {
            match parse(*inner, c) {
                Ok((d, rest)) => Ok((Data::Present(Box::new(d)), rest)),
                Err(stop) => Err(stop),
            }
        },
        Schema::Sequence(_) => match parse_elements(schema, c.enter(Scope::Sequence), true) {
            Ok((items, rest)) => Ok((Data::Sequence(items), rest.leave())),
            Err(stop) => Err(stop),
        },
        Schema::Tuple(parts) => match parse_parts(parts@, 0, ',', c.enter(Scope::Sequence)) {
            Ok((items, rest)) => Ok((Data::Sequence(items), rest.leave())),
            Err(stop) => Err(stop),
        },
        Schema::Struct(fields) => match parse_parts(fields@, 0, ':', c.enter(Scope::Struct)) {
            Ok((items, rest)) => Ok((Data::Struct(items), rest.leave())),
            Err(stop) => Err(stop),
        },
        Schema::Mapping(_, _) => match parse_entries(schema, c.enter(Scope::Mapping), true) {
            Ok((entries, rest)) => Ok((Data::Mapping(entries), rest.leave())),
            Err(stop) => Err(stop),
        },
        Schema::Enum(variants) => parse_variant(variants@, 0, c.read_tag().0, c.read_tag().1),
    }
}

/// The variant whose tag `tag` was read, and whose payload, if it has one,
/// stands at the cursor: the first from index `from` on that has this tag.
pub open spec fn parse_variant(variants: Seq<VariantSchema>, from: int, tag: Seq<char>, c: Cursor)
    -> Result<(Data, Cursor), Stop>
    decreases variants, variants.len() - from, 0int,
{
    if from < 0 || from >= variants.len() {
        Err(Stop { error: Error::ExpectedEnum, at: c })
    } else if variants[from].name@ == tag {
        match variants[from].payload {
            None => Ok((Data::Variant(tag, None), c)),
            Some(payload) => match parse(payload, c) {
                Ok((d, end)) => Ok((Data::Variant(tag, Some(Box::new(d))), end)),
                Err(stop) => Err(stop),
            },
        }
    } else {
        parse_variant(variants, from + 1, tag, c)
    }
}

/// The elements of the sequence of shape `schema` from the cursor on.
///
/// That an element leaves the cursor no further back than it found it is
/// asked here so that the definition ends; it always holds, as
/// [`lemma_parse_moves_forward`] shows.
pub open spec fn parse_elements(schema: Schema, c: Cursor, first: bool) -> Result<
    (Seq<Data>, Cursor),
    Stop,
>
    decreases schema, c.text.len(), (if first { 2int } else { 1int }),
{
    match schema {
        Schema::Sequence(elem) => match c.next_element(first, ',') {
            Err(error) => Err(Stop { error, at: c }),
            Ok((false, rest)) => Ok((Seq::empty(), rest)),
            Ok((true, at)) => match parse(*elem, at) {
                Err(stop) => Err(stop),
                Ok((d, rest)) => if rest.text.len() <= at.text.len() {
                    match parse_elements(schema, rest, false) {
                        Ok((items, end)) => Ok((seq![d] + items, end)),
                        Err(stop) => Err(stop),
                    }
                } else {
                    Err(Stop { error: Error::Syntax, at: rest })
                },
            },
        },
        _ => Err(Stop { error: Error::Syntax, at: c }),
    }
}

/// What a composite of a fixed number of parts is missing where a part
/// is: the end of the input is unexpected, anything else is no part.
pub open spec fn missing_part(c: Cursor) -> Error {
    if c.text.len() == 0 {
        Error::Eof
    } else {
        Error::ExpectedArray
    }
}

/// The parts from index `from` on of a composite whose parts have the
/// shapes `parts` and are separated by `delim`.
pub open spec fn parse_parts(parts: Seq<Schema>, from: int, delim: char, c: Cursor) -> Result<
    (Seq<Data>, Cursor),
    Stop,
>
    decreases parts, parts.len() - from, 0int,
{
    if from < 0 || from >= parts.len() {
        Ok((Seq::empty(), c))
    } else {
        match c.next_element(from == 0, delim) {
            Err(error) => Err(Stop { error, at: c }),
            Ok((false, _)) => Err(Stop { error: missing_part(c), at: c }),
            Ok((true, at)) => match parse(parts[from], at) {
                Err(stop) => Err(stop),
                Ok((d, rest)) => match parse_parts(parts, from + 1, delim, rest) {
                    Ok((items, end)) => Ok((seq![d] + items, end)),
                    Err(stop) => Err(stop),
                },
            },
        }
    }
}

/// The entries of the map of shape `schema` from the cursor on.
///
/// That a key and a value leave the cursor no further back than they found
/// it is asked here so that the definition ends; it always holds, as
/// [`lemma_parse_moves_forward`] shows.
pub open spec fn parse_entries(schema: Schema, c: Cursor, first: bool) -> Result<
    (Seq<(Data, Data)>, Cursor),
    Stop,
>
    decreases schema, c.text.len(), (if first { 2int } else { 1int }),
{
    match schema {
        Schema::Mapping(key_schema, value_schema) => match c.next_key(first) {
            Err(stop) => Err(stop),
            Ok((false, rest)) => Ok((Seq::empty(), rest)),
            Ok((true, at_key)) => match parse(*key_schema, at_key) {
                Err(stop) => Err(stop),
                Ok((k, at_equals)) => match at_equals.next_value() {
                    Err(stop) => Err(stop),
                    Ok(at_value) => match parse(*value_schema, at_value) {
                        Err(stop) => Err(stop),
                        Ok((v, rest)) => if at_equals.text.len() <= at_key.text.len()
                            && rest.text.len() <= at_value.text.len() {
                            match parse_entries(schema, rest, false) {
                                Ok((entries, end)) => Ok((seq![(k, v)] + entries, end)),
                                Err(stop) => Err(stop),
                            }
                        } else {
                            Err(Stop { error: Error::Syntax, at: rest })
                        },
                    },
                },
            },
        },
        _ => Err(Stop { error: Error::Syntax, at: c }),
    }
}

/// The value of shape `schema` that a whole line stands for; or why there
/// is none, and how many characters of the line were read when that showed.
///
/// The line is read from its start, outside any composite, and must be
/// used up: input left over is an error.
pub open spec fn decode_at(schema: Schema, line: Seq<char>) -> Result<Data, (Error, nat)> {
    match parse(schema, Cursor { text: line, scopes: Seq::empty() }) {
        Ok((d, rest)) => if rest.text.len() == 0 {
            Ok(d)
        } else {
            Err((Error::TrailingCharacters, (line.len() - rest.text.len()) as nat))
        },
        Err(stop) => Err((stop.error, (line.len() - stop.at.text.len()) as nat)),
    }
}

/// The value of shape `schema` that a whole line stands for, or why there
/// is none.
pub open spec fn decode(schema: Schema, line: Seq<char>) -> Result<Data, Error> {
    match decode_at(schema, line) {
        Ok(d) => Ok(d),
        Err((error, _)) => Err(error),
    }
}

/// The elements read so far, put before those that are still to come.
pub open spec fn prepend<T>(read: Seq<T>, coming: Result<(Seq<T>, Cursor), Stop>) -> Result<
    (Seq<T>, Cursor),
    Stop,
> {
    match coming {
        Ok((items, end)) => Ok((read + items, end)),
        Err(stop) => Err(stop),
    }
}

/// Reading never moves the cursor backwards: behind a value that was read,
/// the cursor stands in what was left to read before, inside the same
/// composites; and where reading stopped, it stopped in what was left to
/// read.
pub proof fn lemma_parse_moves_forward(schema: Schema, c: Cursor)
    ensures
        parse(schema, c) matches Ok((_, rest)) ==> rest.left_of(c) && rest.scopes == c.scopes,
        parse(schema, c) matches Err(stop) ==> stop.at.left_of(c),
    decreases schema, c.text.len(), 3int,
{
    match schema {
        Schema::Unsigned(_) => {
            lemma_digits_are_digits(c.text);
        },
        Schema::Signed(_) => {
            lemma_digits_are_digits(c.text);
            if c.text.len() > 0 {
                lemma_digits_are_digits(c.text.skip(1));
            }
        },
        Schema::Char => {
            lemma_boundary_in_range(c.text, c.commas(), c.equals());
        },
        Schema::Text => {
            lemma_boundary_in_range(c.text, c.commas(), c.equals());
        },
        Schema::Optional(inner) => {
            if !c.at_none() {
                lemma_parse_moves_forward(*inner, c);
            }
        },
        Schema::Sequence(_) => {
            let inside = c.enter(Scope::Sequence);
            lemma_elements_move_forward(schema, inside, true);
            assert(inside.scopes.drop_last() == c.scopes);
        },
        Schema::Tuple(parts) => {
            let inside = c.enter(Scope::Sequence);
            lemma_parts_move_forward(parts@, 0, ',', inside);
            assert(inside.scopes.drop_last() == c.scopes);
        },
        Schema::Struct(fields) => {
            let inside = c.enter(Scope::Struct);
            lemma_parts_move_forward(fields@, 0, ':', inside);
            assert(inside.scopes.drop_last() == c.scopes);
        },
        Schema::Mapping(_, _) => {
            let inside = c.enter(Scope::Mapping);
            lemma_entries_move_forward(schema, inside, true);
            assert(inside.scopes.drop_last() == c.scopes);
        },
        Schema::Enum(variants) => {
            lemma_boundary_in_range(c.text, c.commas(), c.equals());
            lemma_variant_moves_forward(variants@, 0, c.read_tag().0, c.read_tag().1);
        },
        _ => {},
    }
}

/// Reading the elements of a sequence never moves the cursor backwards.
pub proof fn lemma_elements_move_forward(schema: Schema, c: Cursor, first: bool)
    ensures
        parse_elements(schema, c, first) matches Ok((_, rest)) ==> rest.left_of(c) && rest.scopes
            == c.scopes,
        parse_elements(schema, c, first) matches Err(stop) ==> stop.at.left_of(c),
    decreases schema, c.text.len(), (if first { 2int } else { 1int }),
{
    match schema {
        Schema::Sequence(elem) => match c.next_element(first, ',') {
            Ok((true, at)) => {
                lemma_parse_moves_forward(*elem, at);
                match parse(*elem, at) {
                    Ok((_, rest)) => {
                        lemma_elements_move_forward(schema, rest, false);
                    },
                    Err(_) => {},
                }
            },
            _ => {},
        },
        _ => {},
    }
}

/// Reading the parts of a tuple or a struct never moves the cursor
/// backwards.
pub proof fn lemma_parts_move_forward(parts: Seq<Schema>, from: int, delim: char, c: Cursor)
    ensures
        parse_parts(parts, from, delim, c) matches Ok((_, rest)) ==> rest.left_of(c) && rest.scopes
            == c.scopes,
        parse_parts(parts, from, delim, c) matches Err(stop) ==> stop.at.left_of(c),
    decreases parts, parts.len() - from, 0int,
{
    if 0 <= from < parts.len() {
        match c.next_element(from == 0, delim) {
            Ok((true, at)) => {
                lemma_parse_moves_forward(parts[from], at);
                match parse(parts[from], at) {
                    Ok((_, rest)) => {
                        lemma_parts_move_forward(parts, from + 1, delim, rest);
                    },
                    Err(_) => {},
                }
            },
            _ => {},
        }
    }
}

/// Reading the entries of a map never moves the cursor backwards.
pub proof fn lemma_entries_move_forward(schema: Schema, c: Cursor, first: bool)
    ensures
        parse_entries(schema, c, first) matches Ok((_, rest)) ==> rest.left_of(c) && rest.scopes
            == c.scopes,
        parse_entries(schema, c, first) matches Err(stop) ==> stop.at.left_of(c),
    decreases schema, c.text.len(), (if first { 2int } else { 1int }),
{
    match schema {
        Schema::Mapping(key_schema, value_schema) => match c.next_key(first) {
            Ok((true, at_key)) => {
                lemma_parse_moves_forward(*key_schema, at_key);
                match parse(*key_schema, at_key) {
                    Ok((_, at_equals)) => match at_equals.next_value() {
                        Ok(at_value) => {
                            lemma_parse_moves_forward(*value_schema, at_value);
                            match parse(*value_schema, at_value) {
                                Ok((_, rest)) => {
                                    lemma_entries_move_forward(schema, rest, false);
                                },
                                Err(_) => {},
                            }
                        },
                        Err(_) => {},
                    },
                    Err(_) => {},
                }
            },
            _ => {},
        },
        _ => {},
    }
}

/// Reading the payload of a variant never moves the cursor backwards.
pub proof fn lemma_variant_moves_forward(
    variants: Seq<VariantSchema>,
    from: int,
    tag: Seq<char>,
    c: Cursor,
)
    ensures
        parse_variant(variants, from, tag, c) matches Ok((_, rest)) ==> rest.left_of(c)
            && rest.scopes == c.scopes,
        parse_variant(variants, from, tag, c) matches Err(stop) ==> stop.at.left_of(c),
    decreases variants, variants.len() - from, 0int,
{
    if 0 <= from < variants.len() {
        if variants[from].name@ == tag {
            match variants[from].payload {
                Some(payload) => {
                    lemma_parse_moves_forward(payload, c);
                },
                None => {},
            }
        } else {
            lemma_variant_moves_forward(variants, from + 1, tag, c);
        }
    }
}

} // verus!
