use vstd::prelude::*;
use crate::codec::unescape_token;
use crate::cursor::{false_word, reached, stopped, true_word, Cursor, Stop};
use crate::err::Error;
use crate::grammar::{
    decode, decode_at, parse, parse_elements, parse_entries, parse_parts, parse_variant, prepend,
};
use crate::number::{leading_signed, leading_unsigned, scan_signed, scan_unsigned};
use crate::resolve::{
    as_int, boundary, find, find_boundary, find_unescaped, innermost, lemma_boundary_in_range,
    lemma_find_from, Scope,
};
use crate::text::{to_chars, to_string};
use crate::value::{view_all, view_entries, Data, Schema, Value, VariantSchema};

verus! {


/// One line of input and how much of it was consumed.
struct Input {
    chars: Vec<char>,
    pos: usize,
}

impl Input {
    #[verifier::type_invariant]
    spec fn in_bounds(self) -> bool {
        self.pos <= self.chars.len()
    }

    /// What is left to read.
    spec fn rest(self) -> Seq<char> {
        self.chars@.skip(self.pos as int)
    }

    fn new(chars: Vec<char>) -> (input: Input)
        ensures
            input.rest() == chars@,
    {
        assert(chars@.skip(0) == chars@);
        Input { chars, pos: 0 }
    }

    fn len(&self) -> (n: usize)
        ensures
            n == self.rest().len(),
    {
        proof {
            use_type_invariant(self);
        }
        self.chars.len() - self.pos
    }

    fn get(&self, i: usize) -> (c: char)
        requires
            i < self.rest().len(),
        ensures
            c == self.rest()[i as int],
    {
        proof {
            use_type_invariant(self);
        }
        self.chars[self.pos + i]
    }

    fn advance(&mut self, len: usize)
        requires
            len <= old(self).rest().len(),
        ensures
            final(self).rest() == old(self).rest().skip(len as int),
    {
        proof {
            use_type_invariant(&*self);
        }
        self.pos = self.pos + len;
        assert(self.chars@.skip(old(self).pos as int).skip(len as int) == self.chars@.skip(
            self.pos as int,
        ));
    }

    fn find(&self, ch: char) -> (idx: Option<usize>)
        ensures
            as_int(idx) == find_unescaped(self.rest(), ch),
    {
        proof {
            use_type_invariant(self);
        }
        find(&self.chars, self.pos, ch)
    }

    fn find_boundary(&self, commas: bool, equals: bool) -> (idx: Option<usize>)
        ensures
            as_int(idx) == boundary(self.rest(), commas, equals),
    {
        proof {
            use_type_invariant(self);
        }
        find_boundary(&self.chars, self.pos, commas, equals)
    }

    fn scan_unsigned(&self, max: u64) -> (r: Result<(u64, usize), Error>)
        ensures
            match r {
                Ok((value, len)) => leading_unsigned(self.rest(), max as nat) == Ok::<
                    (nat, int),
                    Error,
                >((value as nat, len as int)) && len <= self.rest().len(),
                Err(e) => leading_unsigned(self.rest(), max as nat) == Err::<(nat, int), Error>(e),
            },
    {
        proof {
            use_type_invariant(self);
        }
        scan_unsigned(&self.chars, self.pos, max)
    }

    fn scan_signed(&self, min: i64, max: i64) -> (r: Result<(i64, usize), Error>)
        ensures
            match r {
                Ok((value, len)) => leading_signed(self.rest(), min as int, max as int) == Ok::<
                    (int, int),
                    Error,
                >((value as int, len as int)) && len <= self.rest().len(),
                Err(e) => leading_signed(self.rest(), min as int, max as int) == Err::<
                    (int, int),
                    Error,
                >(e),
            },
    {
        proof {
            use_type_invariant(self);
        }
        scan_signed(&self.chars, self.pos, min, max)
    }
}

/// The decode engine: a cursor over one line of input.
///
/// The cursor only moves forward. Which characters end a token depends on the
/// innermost composite that was entered and not left yet.
pub struct Deserializer {
    input: Input,
    scopes: Vec<Scope>,
}

impl View for Deserializer {
    type V = Cursor;

    closed spec fn view(&self) -> Cursor {
        Cursor { text: self.input.rest(), scopes: self.scopes@ }
    }
}

impl Deserializer {
    /// A decoder at the start of `input`, outside any composite.
    pub fn from_str(input: &str) -> (de: Self)
        ensures
            de@.text == input@,
            de@.scopes == Seq::<Scope>::empty(),
    {
        Deserializer { input: Input::new(to_chars(input)), scopes: Vec::new() }
    }

    /// How many characters are left to read.
    pub fn remaining(&self) -> (n: usize)
        ensures
            n == self@.text.len(),
    {
        self.input.len()
    }

    /// Whether the whole input was consumed.
    pub fn is_empty(&self) -> (b: bool)
        ensures
            b == (self@.text.len() == 0),
    {
        self.remaining() == 0
    }

    /// Consumes `len` characters.
    pub fn shift_input_forward(&mut self, len: usize)
        requires
            len <= old(self)@.text.len(),
        ensures
            final(self)@ == old(self)@.advance(len as int),
    {
        self.input.advance(len);
    }

    /// Where the token at the cursor ends, if it ends before the input does.
    pub fn get_next_delimiter_idx(&self) -> (idx: Option<usize>)
        ensures
            as_int(idx) == boundary(self@.text, self@.commas(), self@.equals()),
            idx matches Some(i) ==> i < self@.text.len(),
    {
        proof {
            lemma_boundary_in_range(
                self@.text,
                self@.commas(),
                self@.equals(),
            );
        }
        let top = self.top();
        let commas = matches!(top, Some(Scope::Sequence) | Some(Scope::Mapping));
        let equals = matches!(top, Some(Scope::Mapping));
        self.input.find_boundary(commas, equals)
    }

    /// The first unescaped occurrence of `ch` in what is left to read.
    pub fn get_next_nonescaped_char(&self, ch: char) -> (idx: Option<usize>)
        ensures
            as_int(idx) == find_unescaped(self@.text, ch),
            idx matches Some(i) ==> i < self@.text.len(),
    {
        proof {
            lemma_find_from(self@.text, ch, 0);
        }
        self.input.find(ch)
    }

    /// The innermost composite that was entered and not left.
    pub fn top(&self) -> (top: Option<Scope>)
        ensures
            top == innermost(self@.scopes),
    {
        let n: usize = self.scopes.len();
        if n == 0 {
            None
        } else {
            Some(self.scopes[n - 1])
        }
    }

    /// The next character, which stays unconsumed.
    pub fn peek_char(&mut self) -> (r: Result<char, Error>)
        ensures
            *final(self) == *old(self),
            old(self)@.text.len() == 0 ==> r == Err::<char, Error>(Error::Eof),
            old(self)@.text.len() > 0 ==> r == Ok::<char, Error>(old(self)@.text[0]),
    {
        match self.peek() {
            Some(c) => Ok(c),
            None => Err(Error::Eof),
        }
    }

    /// The next character, if the input has one left.
    pub fn peek(&self) -> (r: Option<char>)
        ensures
            self@.text.len() == 0 ==> r is None,
            self@.text.len() > 0 ==> r == Some(self@.text[0]),
    {
        if self.input.len() > 0 {
            Some(self.input.get(0))
        } else {
            None
        }
    }

    /// Whether what is left to read starts with `word`.
    pub fn starts_with(&self, word: &Vec<char>) -> (b: bool)
        ensures
            b == self@.starts_with(word@),
    {
        if word.len() > self.input.len() {
            return false;
        }
        let mut i: usize = 0;
        while i < word.len()
            invariant
                word.len() <= self@.text.len(),
                i <= word.len(),
                self@.text.take(i as int) == word@.take(i as int),
            decreases word.len() - i,
        {
            if self.input.get(i) != word[i] {
                assert(self@.text.take(word.len() as int)[i as int] != word@[i as int]);
                return false;
            }
            assert(self@.text.take(i + 1) == self@.text.take(i as int).push(
                self@.text[i as int],
            ));
            assert(word@.take(i + 1) == word@.take(i as int).push(word@[i as int]));
            i += 1;
        }
        assert(word@.take(word.len() as int) == word@);
        true
    }

    /// Consumes the next character.
    pub fn next_char(&mut self) -> (r: Result<char, Error>)
        ensures
            old(self)@.text.len() == 0 ==> r == Err::<char, Error>(Error::Eof) && final(self)@
                == old(self)@,
            old(self)@.text.len() > 0 ==> r == Ok::<char, Error>(old(self)@.text[0])
                && final(self)@ == old(self)@.advance(1),
    {
        match self.peek() {
            Some(c) => {
                self.shift_input_forward(1);
                Ok(c)
            },
            None => Err(Error::Eof),
        }
    }

    /// Reads the word `true` or `false`.
    pub fn parse_bool(&mut self) -> (r: Result<bool, Error>)
        ensures
            match r {
                Ok(b) => old(self)@.read_bool() == Ok::<(bool, Cursor), Error>((b, final(self)@)),
                Err(e) => old(self)@.read_bool() == Err::<(bool, Cursor), Error>(e)
                    && final(self)@ == old(self)@,
            },
            final(self)@.left_of(old(self)@),
            final(self)@.scopes == old(self)@.scopes,
    {
        let yes: Vec<char> = vec!['t', 'r', 'u', 'e'];
        let no: Vec<char> = vec!['f', 'a', 'l', 's', 'e'];
        assert(yes@ == true_word());
        assert(no@ == false_word());
        if self.starts_with(&yes) {
            self.shift_input_forward(4);
            Ok(true)
        } else if self.starts_with(&no) {
            self.shift_input_forward(5);
            Ok(false)
        } else {
            Err(Error::ExpectedBoolean)
        }
    }

    /// Reads an unsigned decimal number that must not exceed `max`.
    ///
    /// The number is the longest run of digits at the cursor. It is an error
    /// if there is no input left, if the first character is no digit, or if
    /// the number exceeds `max`.
    pub fn parse_unsigned(&mut self, max: u64) -> (r: Result<u64, Error>)
        ensures
            match r {
                Ok(n) => old(self)@.read_unsigned(max as nat) == Ok::<(nat, Cursor), Error>(
                    (n as nat, final(self)@),
                ),
                Err(e) => old(self)@.read_unsigned(max as nat) == Err::<(nat, Cursor), Error>(e)
                    && final(self)@ == old(self)@,
            },
            final(self)@.left_of(old(self)@),
            final(self)@.scopes == old(self)@.scopes,
    {
        match self.input.scan_unsigned(max) {
            Ok((value, len)) => {
                self.shift_input_forward(len);
                Ok(value)
            },
            Err(e) => Err(e),
        }
    }

    /// Reads a signed decimal number that must lie between `min` and `max`:
    /// an optional minus sign, then an unsigned number.
    pub fn parse_signed(&mut self, min: i64, max: i64) -> (r: Result<i64, Error>)
        ensures
            match r {
                Ok(n) => old(self)@.read_signed(min as int, max as int) == Ok::<
                    (int, Cursor),
                    Error,
                >((n as int, final(self)@)),
                Err(e) => old(self)@.read_signed(min as int, max as int) == Err::<
                    (int, Cursor),
                    Error,
                >(e) && final(self)@ == old(self)@,
            },
            final(self)@.left_of(old(self)@),
            final(self)@.scopes == old(self)@.scopes,
    {
        match self.input.scan_signed(min, max) {
            Ok((value, len)) => {
                self.shift_input_forward(len);
                Ok(value)
            },
            Err(e) => Err(e),
        }
    }

    /// Reads one token, up to the next active delimiter or the end of the
    /// input, and unescapes it.
    pub fn parse_chars(&mut self) -> (value: Vec<char>)
        ensures
            (value@, final(self)@) == old(self)@.read_string(),
            final(self)@.left_of(old(self)@),
            final(self)@.scopes == old(self)@.scopes,
    {
        let len: usize = match self.get_next_delimiter_idx() {
            Some(idx) => idx,
            None => self.remaining(),
        };
        let mut token: Vec<char> = Vec::new();
        let mut i: usize = 0;
        while i < len
            invariant
                len <= self@.text.len(),
                i <= len,
                token@ == self@.text.take(i as int),
            decreases len - i,
        {
            token.push(self.input.get(i));
            assert(self@.text.take(i + 1) == self@.text.take(i as int).push(
                self@.text[i as int],
            ));
            i += 1;
        }
        self.shift_input_forward(len);
        unescape_token(&token)
    }

    /// Reads one token as a string.
    pub fn parse_string(&mut self) -> (r: Result<String, Error>)
        ensures
            r matches Ok(value) && (value@, final(self)@) == old(self)@.read_string(),
            final(self)@.left_of(old(self)@),
            final(self)@.scopes == old(self)@.scopes,
    {
        let value = self.parse_chars();
        Ok(to_string(&value))
    }

    /// Reads a token that stands for exactly one character.
    pub fn deserialize_char(&mut self) -> (r: Result<char, Error>)
        ensures
            match r {
                Ok(c) => old(self)@.read_char() == Ok::<(char, Cursor), Error>((c, final(self)@)),
                Err(e) => old(self)@.read_char() == Err::<(char, Cursor), Error>(e)
                    && final(self)@ == old(self)@.read_string().1,
            },
            final(self)@.left_of(old(self)@),
            final(self)@.scopes == old(self)@.scopes,
    {
        let value = self.parse_chars();
        if value.len() == 1 {
            Ok(value[0])
        } else {
            Err(Error::ExpectedChar)
        }
    }

    /// Binary blobs cannot be read from this format.
    pub fn deserialize_bytes(&mut self) -> (r: Result<Vec<u8>, Error>)
        ensures
            r == Err::<Vec<u8>, Error>(Error::BytesUnsupported),
            *final(self) == *old(self),
    {
        Err(Error::BytesUnsupported)
    }

    /// Tells whether an optional value is present at the cursor.
    pub fn deserialize_option(&mut self) -> (present: bool)
        ensures
            present == !old(self)@.at_none(),
            *final(self) == *old(self),
    {
        let top = self.top();
        match self.peek() {
            None => false,
            Some(c) => {
                let commas = matches!(top, Some(Scope::Sequence) | Some(Scope::Mapping));
                let equals = matches!(top, Some(Scope::Mapping));
                !(c == ':' || (commas && c == ',') || (equals && c == '='))
            },
        }
    }

    /// Reads a unit: succeeds iff nothing is left to read.
    pub fn deserialize_unit(&mut self) -> (r: Result<(), Error>)
        ensures
            *final(self) == *old(self),
            old(self)@.text.len() == 0 ==> r is Ok,
            old(self)@.text.len() > 0 ==> r == Err::<(), Error>(Error::ExpectedEmpty),
    {
        if self.is_empty() {
            Ok(())
        } else {
            Err(Error::ExpectedEmpty)
        }
    }

    /// Enters a composite: from here on its delimiters end a token.
    pub fn enter(&mut self, scope: Scope)
        ensures
            final(self)@ == old(self)@.enter(scope),
    {
        self.scopes.push(scope);
    }

    /// Leaves the innermost composite: the delimiters of the one around it
    /// apply again.
    pub fn leave(&mut self)
        ensures
            final(self)@ == old(self)@.leave(),
    {
        let _ = self.scopes.pop();
    }

    /// Steps to the next element of the innermost composite.
    pub fn next_element(&mut self, first: bool, delim: char) -> (r: Result<bool, Error>)
        ensures
            match r {
                Ok(more) => old(self)@.next_element(first, delim) == Ok::<(bool, Cursor), Error>(
                    (more, final(self)@),
                ),
                Err(e) => old(self)@.next_element(first, delim) == Err::<(bool, Cursor), Error>(e)
                    && final(self)@ == old(self)@,
            },
            final(self)@.left_of(old(self)@),
            final(self)@.scopes == old(self)@.scopes,
            r == Ok::<bool, Error>(true) && !first ==> final(self)@.text.len() < old(
                self,
            )@.text.len(),
    {
        match self.peek() {
            None => Ok(false),
            Some(c) => {
                if delim != ':' && c == ':' {
                    Ok(false)
                } else if first {
                    Ok(true)
                } else if c == delim {
                    self.shift_input_forward(1);
                    Ok(true)
                } else {
                    Err(Error::ExpectedArrayComma)
                }
            },
        }
    }

    /// Steps to the key of the next map entry.
    pub fn next_key(&mut self, first: bool) -> (r: Result<bool, Error>)
        ensures
            match r {
                Ok(more) => reached(old(self)@.next_key(first), more, final(self)@),
                Err(e) => stopped(old(self)@.next_key(first), e, final(self)@),
            },
            final(self)@.left_of(old(self)@),
            final(self)@.scopes == old(self)@.scopes,
            r == Ok::<bool, Error>(true) && !first ==> final(self)@.text.len() < old(
                self,
            )@.text.len(),
    {
        match self.peek() {
            None => Ok(false),
            Some(c) => {
                if c == ':' {
                    return Ok(false);
                }
                if !first {
                    if c != ',' {
                        return Err(Error::ExpectedMapComma);
                    }
                    self.shift_input_forward(1);
                }
                let eq: usize = match self.get_next_nonescaped_char('=') {
                    Some(idx) => idx,
                    None => {
                        return Err(Error::ExpectedMapEquals);
                    },
                };
                match self.get_next_nonescaped_char(',') {
                    Some(comma) => {
                        if comma < eq {
                            return Err(Error::ExpectedMapEquals);
                        }
                    },
                    None => {},
                }
                Ok(true)
            },
        }
    }

    /// Steps over the `=` of a map entry to its value.
    pub fn next_value(&mut self) -> (r: Result<(), Error>)
        ensures
            match r {
                Ok(_) => old(self)@.next_value() == Ok::<Cursor, Stop>(final(self)@),
                Err(e) => stopped(old(self)@.next_value(), e, final(self)@),
            },
            final(self)@.left_of(old(self)@),
            final(self)@.scopes == old(self)@.scopes,
    {
        match self.peek() {
            None => Err(Error::Eof),
            Some(c) => {
                if c != '=' {
                    return Err(Error::ExpectedMapEquals);
                }
                self.shift_input_forward(1);
                let len: usize = match self.get_next_nonescaped_char(',') {
                    Some(idx) => idx,
                    None => self.remaining(),
                };
                match self.get_next_nonescaped_char('=') {
                    Some(eq) => {
                        if eq < len {
                            return Err(Error::ExpectedMapComma);
                        }
                    },
                    None => {},
                }
                Ok(())
            },
        }
    }

    /// Reads the tag of an enum variant and steps over the `:` behind it.
    pub fn read_tag(&mut self) -> (tag: Vec<char>)
        ensures
            (tag@, final(self)@) == old(self)@.read_tag(),
            final(self)@.left_of(old(self)@),
            final(self)@.scopes == old(self)@.scopes,
    {
        let tag = self.parse_chars();
        match self.peek() {
            Some(c) => {
                if c == ':' {
                    self.shift_input_forward(1);
                }
            },
            None => {},
        }
        tag
    }

    /// Reads `true` or `false`.
    pub fn deserialize_bool(&mut self) -> (r: Result<bool, Error>)
        ensures
            match r {
                Ok(b) => old(self)@.read_bool() == Ok::<(bool, Cursor), Error>((b, final(self)@)),
                Err(e) => old(self)@.read_bool() == Err::<(bool, Cursor), Error>(e)
                    && final(self)@ == old(self)@,
            },
    {
        self.parse_bool()
    }

    /// Reads an unsigned number of eight bits.
    pub fn deserialize_u8(&mut self) -> (r: Result<u8, Error>)
        ensures
            match r {
                Ok(n) => old(self)@.read_unsigned(0xff) == Ok::<(nat, Cursor), Error>(
                    (n as nat, final(self)@),
                ),
                Err(e) => old(self)@.read_unsigned(0xff) == Err::<(nat, Cursor), Error>(e)
                    && final(self)@ == old(self)@,
            },
    {
        Ok(self.parse_unsigned(0xff)? as u8)
    }

    /// Reads an unsigned number of sixteen bits.
    pub fn deserialize_u16(&mut self) -> (r: Result<u16, Error>)
        ensures
            match r {
                Ok(n) => old(self)@.read_unsigned(0xffff) == Ok::<(nat, Cursor), Error>(
                    (n as nat, final(self)@),
                ),
                Err(e) => old(self)@.read_unsigned(0xffff) == Err::<(nat, Cursor), Error>(e)
                    && final(self)@ == old(self)@,
            },
    {
        Ok(self.parse_unsigned(0xffff)? as u16)
    }

    /// Reads an unsigned number of thirty-two bits.
    pub fn deserialize_u32(&mut self) -> (r: Result<u32, Error>)
        ensures
            match r {
                Ok(n) => old(self)@.read_unsigned(0xffff_ffff) == Ok::<(nat, Cursor), Error>(
                    (n as nat, final(self)@),
                ),
                Err(e) => old(self)@.read_unsigned(0xffff_ffff) == Err::<(nat, Cursor), Error>(e)
                    && final(self)@ == old(self)@,
            },
    {
        Ok(self.parse_unsigned(0xffff_ffff)? as u32)
    }

    /// Reads an unsigned number of sixty-four bits.
    pub fn deserialize_u64(&mut self) -> (r: Result<u64, Error>)
        ensures
            match r {
                Ok(n) => old(self)@.read_unsigned(0xffff_ffff_ffff_ffff) == Ok::<
                    (nat, Cursor),
                    Error,
                >((n as nat, final(self)@)),
                Err(e) => old(self)@.read_unsigned(0xffff_ffff_ffff_ffff) == Err::<
                    (nat, Cursor),
                    Error,
                >(e) && final(self)@ == old(self)@,
            },
    {
        self.parse_unsigned(0xffff_ffff_ffff_ffff)
    }

    /// Reads a signed number of eight bits.
    pub fn deserialize_i8(&mut self) -> (r: Result<i8, Error>)
        ensures
            match r {
                Ok(n) => old(self)@.read_signed(-0x80, 0x7f) == Ok::<(int, Cursor), Error>(
                    (n as int, final(self)@),
                ),
                Err(e) => old(self)@.read_signed(-0x80, 0x7f) == Err::<(int, Cursor), Error>(e)
                    && final(self)@ == old(self)@,
            },
    {
        Ok(self.parse_signed(-0x80, 0x7f)? as i8)
    }

    /// Reads a signed number of sixteen bits.
    pub fn deserialize_i16(&mut self) -> (r: Result<i16, Error>)
        ensures
            match r {
                Ok(n) => old(self)@.read_signed(-0x8000, 0x7fff) == Ok::<(int, Cursor), Error>(
                    (n as int, final(self)@),
                ),
                Err(e) => old(self)@.read_signed(-0x8000, 0x7fff) == Err::<(int, Cursor), Error>(e)
                    && final(self)@ == old(self)@,
            },
    {
        Ok(self.parse_signed(-0x8000, 0x7fff)? as i16)
    }

    /// Reads a signed number of thirty-two bits.
    pub fn deserialize_i32(&mut self) -> (r: Result<i32, Error>)
        ensures
            match r {
                Ok(n) => old(self)@.read_signed(-0x8000_0000, 0x7fff_ffff) == Ok::<
                    (int, Cursor),
                    Error,
                >((n as int, final(self)@)),
                Err(e) => old(self)@.read_signed(-0x8000_0000, 0x7fff_ffff) == Err::<
                    (int, Cursor),
                    Error,
                >(e) && final(self)@ == old(self)@,
            },
    {
        Ok(self.parse_signed(-0x8000_0000, 0x7fff_ffff)? as i32)
    }

    /// Reads a signed number of sixty-four bits.
    pub fn deserialize_i64(&mut self) -> (r: Result<i64, Error>)
        ensures
            match r {
                Ok(n) => old(self)@.read_signed(-0x8000_0000_0000_0000, 0x7fff_ffff_ffff_ffff)
                    == Ok::<(int, Cursor), Error>((n as int, final(self)@)),
                Err(e) => old(self)@.read_signed(-0x8000_0000_0000_0000, 0x7fff_ffff_ffff_ffff)
                    == Err::<(int, Cursor), Error>(e) && final(self)@ == old(self)@,
            },
    {
        self.parse_signed(i64::MIN, i64::MAX)
    }

    /// Reads one token as a string.
    pub fn deserialize_str(&mut self) -> (r: Result<String, Error>)
        ensures
            r matches Ok(value) && (value@, final(self)@) == old(self)@.read_string(),
    {
        self.parse_string()
    }

    /// Reads one token as a string.
    pub fn deserialize_string(&mut self) -> (r: Result<String, Error>)
        ensures
            r matches Ok(value) && (value@, final(self)@) == old(self)@.read_string(),
    {
        self.deserialize_str()
    }

    /// Reads the name of a field or of a variant, which is one token.
    pub fn deserialize_identifier(&mut self) -> (r: Result<String, Error>)
        ensures
            r matches Ok(value) && (value@, final(self)@) == old(self)@.read_string(),
    {
        self.deserialize_str()
    }

    /// Binary blobs cannot be read from this format.
    pub fn deserialize_byte_buf(&mut self) -> (r: Result<Vec<u8>, Error>)
        ensures
            r == Err::<Vec<u8>, Error>(Error::BytesUnsupported),
            *final(self) == *old(self),
    {
        Err(Error::BytesUnsupported)
    }

    /// Reads a unit struct: succeeds iff nothing is left to read.
    pub fn deserialize_unit_struct(&mut self, _name: &'static str) -> (r: Result<(), Error>)
        ensures
            *final(self) == *old(self),
            old(self)@.text.len() == 0 ==> r is Ok,
            old(self)@.text.len() > 0 ==> r == Err::<(), Error>(Error::ExpectedEmpty),
    {
        self.deserialize_unit()
    }

    /// Enters a sequence and hands out its elements.
    pub fn deserialize_seq<'a>(&'a mut self) -> (seq: DelimiterSeparated<'a>)
        ensures
            seq.de@ == old(self)@.enter(Scope::Sequence),
            seq.first,
            seq.delim == ',',
            *final(self) == *final(seq.de),
    {
        self.enter(Scope::Sequence);
        DelimiterSeparated::new(self, ',')
    }

    /// Enters a tuple, which is read as a sequence is.
    pub fn deserialize_tuple<'a>(&'a mut self, _len: usize) -> (seq: DelimiterSeparated<'a>)
        ensures
            seq.de@ == old(self)@.enter(Scope::Sequence),
            seq.first,
            seq.delim == ',',
            *final(self) == *final(seq.de),
    {
        self.enter(Scope::Sequence);
        DelimiterSeparated::new(self, ',')
    }

    /// Enters a struct of unnamed fields, which is read as a sequence is.
    pub fn deserialize_tuple_struct<'a>(&'a mut self, _name: &'static str, _len: usize) -> (seq:
        DelimiterSeparated<'a>)
        ensures
            seq.de@ == old(self)@.enter(Scope::Sequence),
            seq.first,
            seq.delim == ',',
            *final(self) == *final(seq.de),
    {
        self.enter(Scope::Sequence);
        DelimiterSeparated::new(self, ',')
    }

    /// Enters a map and hands out its entries.
    pub fn deserialize_map<'a>(&'a mut self) -> (map: DelimiterSeparated<'a>)
        ensures
            map.de@ == old(self)@.enter(Scope::Mapping),
            map.first,
            map.delim == ',',
            *final(self) == *final(map.de),
    {
        self.enter(Scope::Mapping);
        DelimiterSeparated::new(self, ',')
    }

    /// Enters a struct and hands out its fields, which `:` separates. A `,`
    /// inside a field does not end it there: the field may be a sequence.
    pub fn deserialize_struct<'a>(
        &'a mut self,
        _name: &'static str,
        _fields: &'static [&'static str],
    ) -> (fields: DelimiterSeparated<'a>)
        ensures
            fields.de@ == old(self)@.enter(Scope::Struct),
            fields.first,
            fields.delim == ':',
            *final(self) == *final(fields.de),
    {
        self.enter(Scope::Struct);
        DelimiterSeparated::new(self, ':')
    }

    /// Starts on an enum: its tag comes first.
    pub fn deserialize_enum<'a>(
        &'a mut self,
        _name: &'static str,
        _variants: &'static [&'static str],
    ) -> (access: Enum<'a>)
        ensures
            access.de@ == old(self)@,
            *final(self) == *final(access.de),
    {
        Enum::new(self)
    }

    /// Reads a whole value of the given shape at the cursor.
    ///
    /// On success the cursor stands behind the value, inside the same
    /// composites as before. The cursor never moves backwards.
    pub fn deserialize_value(&mut self, schema: &Schema) -> (r: Result<Value, Error>)
        ensures
            match r {
                Ok(v) => reached(parse(*schema, old(self)@), v@, final(self)@),
                Err(e) => stopped(parse(*schema, old(self)@), e, final(self)@),
            },
            final(self)@.left_of(old(self)@),
            r is Ok ==> final(self)@.scopes == old(self)@.scopes,
        decreases schema, old(self)@.text.len(), 3int,
    {
        let ghost before = self@;
        match schema {
            Schema::Bool => Ok(Value::Bool(self.parse_bool()?)),
            Schema::Unsigned(width) => Ok(
                Value::Unsigned(self.parse_unsigned(width.max_unsigned())?),
            ),
            Schema::Signed(width) => Ok(
                Value::Signed(self.parse_signed(width.min_signed(), width.max_signed())?),
            ),
            Schema::Char => Ok(Value::character(self.deserialize_char()?)),
            Schema::Text => Ok(Value::Text(self.parse_string()?)),
            Schema::Bytes => Err(Error::BytesUnsupported),
            Schema::Unit => {
                self.deserialize_unit()?;
                Ok(Value::Unit)
            },
            Schema::Optional(inner) => {
                if self.deserialize_option() {
                    let v = self.deserialize_value(inner)?;
                    Ok(Value::Present(Box::new(v)))
                } else {
                    Ok(Value::Absent)
                }
            },
            Schema::Sequence(_) => {
                self.enter(Scope::Sequence);
                let items = self.read_elements(schema)?;
                self.leave();
                assert(before.scopes.push(Scope::Sequence).drop_last() == before.scopes);
                Ok(Value::Sequence(items))
            },
            Schema::Tuple(parts) => {
                self.enter(Scope::Sequence);
                let items = self.read_parts(parts, ',')?;
                self.leave();
                assert(before.scopes.push(Scope::Sequence).drop_last() == before.scopes);
                Ok(Value::Sequence(items))
            },
            Schema::Struct(fields) => {
                self.enter(Scope::Struct);
                let items = self.read_parts(fields, ':')?;
                self.leave();
                assert(before.scopes.push(Scope::Struct).drop_last() == before.scopes);
                Ok(Value::Struct(items))
            },
            Schema::Mapping(_, _) => {
                self.enter(Scope::Mapping);
                let entries = self.read_entries(schema)?;
                self.leave();
                assert(before.scopes.push(Scope::Mapping).drop_last() == before.scopes);
                Ok(Value::Mapping(entries))
            },
            Schema::Enum(variants) => {
                let tag = to_string(&self.read_tag());
                self.read_variant(variants, tag)
            },
        }
    }

    #[verifier::loop_isolation(false)]
    fn read_elements(&mut self, schema: &Schema) -> (r: Result<Vec<Value>, Error>)
        requires
            schema is Sequence,
        ensures
            match r {
                Ok(items) => reached(
                    parse_elements(*schema, old(self)@, true),
                    view_all(items@),
                    final(self)@,
                ),
                Err(e) => stopped(parse_elements(*schema, old(self)@, true), e, final(self)@),
            },
            final(self)@.left_of(old(self)@),
            r is Ok ==> final(self)@.scopes == old(self)@.scopes,
        decreases schema, old(self)@.text.len(), 2int,
    {
        let ghost start = self@;
        let elem = match schema {
            Schema::Sequence(elem) => elem,
            _ => {
                return Err(Error::Syntax);
            },
        };
        let mut items: Vec<Value> = Vec::new();
        let mut first = true;
        assert(view_all(items@) + Seq::<Data>::empty() == Seq::<Data>::empty());
        loop
            invariant
                prepend(view_all(items@), parse_elements(*schema, self@, first))
                    == parse_elements(*schema, start, true),
                self@.left_of(start),
                self@.scopes == start.scopes,
            decreases self@.text.len(), (if first { 1int } else { 0int }),
        {
            let ghost here = self@;
            let ghost read = view_all(items@);
            match self.next_element(first, ',') {
                Err(e) => {
                    return Err(e);
                },
                Ok(false) => {
                    assert(read + Seq::<Data>::empty() == read);
                    return Ok(items);
                },
                Ok(true) => {
                    let ghost at = self@;
                    let v = match self.deserialize_value(elem) {
                        Ok(v) => v,
                        Err(e) => {
                            return Err(e);
                        },
                    };
                    items.push(v);
                    proof {
                        assert(view_all(items@) == read + seq![v@]);
                        let coming = parse_elements(*schema, self@, false);
                        match coming {
                            Ok((more, end)) => {
                                assert(read + (seq![v@] + more) == (read + seq![v@]) + more);
                            },
                            Err(_) => {},
                        }
                    }
                    first = false;
                },
            }
        }
    }

    #[verifier::loop_isolation(false)]
    fn read_parts(&mut self, parts: &Vec<Schema>, delim: char) -> (r: Result<Vec<Value>, Error>)
        ensures
            match r {
                Ok(items) => reached(
                    parse_parts(parts@, 0, delim, old(self)@),
                    view_all(items@),
                    final(self)@,
                ),
                Err(e) => stopped(parse_parts(parts@, 0, delim, old(self)@), e, final(self)@),
            },
            final(self)@.left_of(old(self)@),
            r is Ok ==> final(self)@.scopes == old(self)@.scopes,
        decreases parts, parts.len(), 0int,
    {
        let ghost start = self@;
        let mut items: Vec<Value> = Vec::new();
        let mut i: usize = 0;
        assert(view_all(items@) + Seq::<Data>::empty() == Seq::<Data>::empty());
        while i < parts.len()
            invariant
                i <= parts.len(),
                prepend(view_all(items@), parse_parts(parts@, i as int, delim, self@))
                    == parse_parts(parts@, 0, delim, start),
                self@.left_of(start),
                self@.scopes == start.scopes,
            decreases parts.len() - i,
        {
            let ghost here = self@;
            let ghost read = view_all(items@);
            match self.next_element(i == 0, delim) {
                Err(e) => {
                    return Err(e);
                },
                Ok(false) => {
                    if self.is_empty() {
                        return Err(Error::Eof);
                    } else {
                        return Err(Error::ExpectedArray);
                    }
                },
                Ok(true) => {
                    let v = match self.deserialize_value(&parts[i]) {
                        Ok(v) => v,
                        Err(e) => {
                            return Err(e);
                        },
                    };
                    items.push(v);
                    proof {
                        assert(view_all(items@) == read + seq![v@]);
                        let coming = parse_parts(parts@, i + 1, delim, self@);
                        match coming {
                            Ok((more, end)) => {
                                assert(read + (seq![v@] + more) == (read + seq![v@]) + more);
                            },
                            Err(_) => {},
                        }
                    }
                    i += 1;
                },
            }
        }
        assert(view_all(items@) + Seq::<Data>::empty() == view_all(items@));
        Ok(items)
    }

    #[verifier::loop_isolation(false)]
    fn read_entries(&mut self, schema: &Schema) -> (r: Result<Vec<(Value, Value)>, Error>)
        requires
            schema is Mapping,
        ensures
            match r {
                Ok(entries) => reached(
                    parse_entries(*schema, old(self)@, true),
                    view_entries(entries@),
                    final(self)@,
                ),
                Err(e) => stopped(parse_entries(*schema, old(self)@, true), e, final(self)@),
            },
            final(self)@.left_of(old(self)@),
            r is Ok ==> final(self)@.scopes == old(self)@.scopes,
        decreases schema, old(self)@.text.len(), 2int,
    {
        let ghost start = self@;
        let (key_schema, value_schema) = match schema {
            Schema::Mapping(k, v) => (k, v),
            _ => {
                return Err(Error::Syntax);
            },
        };
        let mut entries: Vec<(Value, Value)> = Vec::new();
        let mut first = true;
        assert(view_entries(entries@) + Seq::<(Data, Data)>::empty() == Seq::<
            (Data, Data),
        >::empty());
        loop
            invariant
                prepend(view_entries(entries@), parse_entries(*schema, self@, first))
                    == parse_entries(*schema, start, true),
                self@.left_of(start),
                self@.scopes == start.scopes,
            decreases self@.text.len(), (if first { 1int } else { 0int }),
        {
            let ghost read = view_entries(entries@);
            match self.next_key(first) {
                Err(e) => {
                    return Err(e);
                },
                Ok(false) => {
                    assert(read + Seq::<(Data, Data)>::empty() == read);
                    return Ok(entries);
                },
                Ok(true) => {
                    let k = match self.deserialize_value(key_schema) {
                        Ok(k) => k,
                        Err(e) => {
                            return Err(e);
                        },
                    };
                    match self.next_value() {
                        Ok(_) => {},
                        Err(e) => {
                            return Err(e);
                        },
                    }
                    let v = match self.deserialize_value(value_schema) {
                        Ok(v) => v,
                        Err(e) => {
                            return Err(e);
                        },
                    };
                    let ghost pair = (k@, v@);
                    entries.push((k, v));
                    proof {
                        assert(view_entries(entries@) == read + seq![pair]);
                        let coming = parse_entries(*schema, self@, false);
                        match coming {
                            Ok((more, end)) => {
                                assert(read + (seq![pair] + more) == (read + seq![pair]) + more);
                            },
                            Err(_) => {},
                        }
                    }
                    first = false;
                },
            }
        }
    }

    #[verifier::loop_isolation(false)]
    fn read_variant(&mut self, variants: &Vec<VariantSchema>, tag: String) -> (r: Result<
        Value,
        Error,
    >)
        ensures
            match r {
                Ok(v) => reached(parse_variant(variants@, 0, tag@, old(self)@), v@, final(self)@),
                Err(e) => stopped(parse_variant(variants@, 0, tag@, old(self)@), e, final(self)@),
            },
            final(self)@.left_of(old(self)@),
            r is Ok ==> final(self)@.scopes == old(self)@.scopes,
        decreases variants, variants.len(), 0int,
    {
        let mut i: usize = 0;
        while i < variants.len()
            invariant
                i <= variants.len(),
                *self == *old(self),
                parse_variant(variants@, i as int, tag@, self@) == parse_variant(
                    variants@,
                    0,
                    tag@,
                    self@,
                ),
            decreases variants.len() - i,
        {
            if variants[i].name == tag {
                return match &variants[i].payload {
                    None => Ok(Value::Variant(tag, None)),
                    Some(payload) => {
                        let v = self.deserialize_value(payload)?;
                        Ok(Value::Variant(tag, Some(Box::new(v))))
                    },
                };
            }
            i += 1;
        }
        Err(Error::ExpectedEnum)
    }
}

/// Reads a line as a value of the given shape; or tells why there is none,
/// and how many characters of the line were read when that showed.
///
/// Succeeds iff the line stands for such a value and is used up by it.
pub fn record_from_str_at(s: &str, schema: &Schema) -> (r: Result<Value, (Error, usize)>)
    ensures
        match r {
            Ok(v) => decode_at(*schema, s@) == Ok::<Data, (Error, nat)>(v@),
            Err((e, read)) => decode_at(*schema, s@) == Err::<Data, (Error, nat)>(
                (e, read as nat),
            ),
        },
{
    let mut deserializer = Deserializer::from_str(s);
    assert(deserializer@ == (Cursor { text: s@, scopes: Seq::empty() }));
    let total: usize = deserializer.remaining();
    match deserializer.deserialize_value(schema) {
        Ok(v) => {
            if deserializer.is_empty() {
                Ok(v)
            } else {
                Err((Error::TrailingCharacters, total - deserializer.remaining()))
            }
        },
        Err(e) => Err((e, total - deserializer.remaining())),
    }
}

/// Reads a line as a value of the given shape.
///
/// Succeeds iff the line stands for such a value and is used up by it.
/// Every line gives a value or an error.
pub fn record_from_str(s: &str, schema: &Schema) -> (r: Result<Value, Error>)
    ensures
        match r {
            Ok(v) => decode(*schema, s@) == Ok::<Data, Error>(v@),
            Err(e) => decode(*schema, s@) == Err::<Data, Error>(e),
        },
{
    match record_from_str_at(s, schema) {
        Ok(v) => Ok(v),
        Err((e, _)) => Err(e),
    }
}

/// The elements of a composite that is being decoded, one after another.
pub struct DelimiterSeparated<'a> {
    /// The decoder, positioned at the element that was stepped to last.
    pub de: &'a mut Deserializer,
    /// Whether no element was stepped to yet.
    pub first: bool,
    /// The character that separates the elements.
    pub delim: char,
}

impl<'a> DelimiterSeparated<'a> {
    /// Starts on the elements of a composite that `delim` separates.
    pub fn new(de: &'a mut Deserializer, delim: char) -> (seq: Self)
        ensures
            seq.de@ == old(de)@,
            seq.first,
            seq.delim == delim,
            *final(de) == *final(seq.de),
    {
        DelimiterSeparated { de, first: true, delim }
    }

    /// Steps to the next element, and tells whether there is one.
    pub fn next_element(&mut self) -> (r: Result<bool, Error>)
        ensures
            *final(final(self).de) == *final(old(self).de),
            final(self).delim == old(self).delim,
            match r {
                Ok(more) => old(self).de@.next_element(old(self).first, old(self).delim) == Ok::<
                    (bool, Cursor),
                    Error,
                >((more, final(self).de@)) && final(self).first == (old(self).first && !more),
                Err(e) => old(self).de@.next_element(old(self).first, old(self).delim) == Err::<
                    (bool, Cursor),
                    Error,
                >(e) && final(self).de@ == old(self).de@ && final(self).first == old(self).first,
            },
    {
        let more = self.de.next_element(self.first, self.delim)?;
        if more {
            self.first = false;
        }
        Ok(more)
    }

    /// Steps to the key of the next map entry, and tells whether there is
    /// one.
    pub fn next_key(&mut self) -> (r: Result<bool, Error>)
        ensures
            *final(final(self).de) == *final(old(self).de),
            final(self).delim == old(self).delim,
            match r {
                Ok(more) => reached(
                    old(self).de@.next_key(old(self).first),
                    more,
                    final(self).de@,
                ) && final(self).first == (old(self).first && !more),
                Err(e) => stopped(old(self).de@.next_key(old(self).first), e, final(self).de@)
                    && final(self).first == old(self).first,
            },
    {
        let more = self.de.next_key(self.first)?;
        if more {
            self.first = false;
        }
        Ok(more)
    }

    /// Steps over the `=` behind the key that was read last.
    pub fn next_value(&mut self) -> (r: Result<(), Error>)
        ensures
            *final(final(self).de) == *final(old(self).de),
            final(self).delim == old(self).delim,
            final(self).first == old(self).first,
            match r {
                Ok(_) => old(self).de@.next_value() == Ok::<Cursor, Stop>(final(self).de@),
                Err(e) => stopped(old(self).de@.next_value(), e, final(self).de@),
            },
    {
        self.de.next_value()
    }

    /// Leaves the composite.
    pub fn end(self)
        ensures
            final(self.de)@ == old(self.de)@.leave(),
    {
        self.de.leave();
    }
}

/// An enum that is being decoded.
pub struct Enum<'a> {
    /// The decoder, positioned at the tag, or behind it at the payload.
    pub de: &'a mut Deserializer,
}

impl<'a> Enum<'a> {
    /// Starts on an enum at the cursor.
    pub fn new(de: &'a mut Deserializer) -> (access: Self)
        ensures
            access.de@ == old(de)@,
            *final(de) == *final(access.de),
    {
        Enum { de }
    }

    /// Reads the tag of the variant, and the `:` behind it if there is one.
    pub fn variant_seed(self) -> (r: Result<(String, Enum<'a>), Error>)
        ensures
            r matches Ok((tag, access)) && (tag@, access.de@) == old(self.de)@.read_tag()
                && *final(self.de) == *final(access.de),
    {
        let tag = to_string(&self.de.read_tag());
        Ok((tag, self))
    }

    /// A variant without payload has nothing more to read.
    pub fn unit_variant(self) -> (r: Result<(), Error>)
        ensures
            r is Ok,
            *final(self.de) == *old(self.de),
    {
        Ok(())
    }

    /// Reads the one unnamed field of a variant.
    pub fn newtype_variant_seed(self, schema: &Schema) -> (r: Result<Value, Error>)
        ensures
            match r {
                Ok(v) => reached(parse(*schema, old(self.de)@), v@, final(self.de)@),
                Err(e) => stopped(parse(*schema, old(self.de)@), e, final(self.de)@),
            },
    {
        self.de.deserialize_value(schema)
    }

    /// Enters the unnamed fields of a variant, which are read as a tuple is.
    pub fn tuple_variant(self, len: usize) -> (seq: DelimiterSeparated<'a>)
        ensures
            seq.de@ == old(self.de)@.enter(Scope::Sequence),
            seq.first,
            seq.delim == ',',
            *final(self.de) == *final(seq.de),
    {
        self.de.deserialize_tuple(len)
    }

    /// Enters the named fields of a variant, which are read as a struct is.
    pub fn struct_variant(self, fields: &'static [&'static str]) -> (seq: DelimiterSeparated<'a>)
        ensures
            seq.de@ == old(self.de)@.enter(Scope::Struct),
            seq.first,
            seq.delim == ':',
            *final(self.de) == *final(seq.de),
    {
        self.de.deserialize_struct("", fields)
    }
}

} // verus!
