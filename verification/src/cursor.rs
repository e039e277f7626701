use vstd::prelude::*;
use crate::codec::unescape;
use crate::err::Error;
use crate::number::{leading_signed, leading_unsigned};
use crate::resolve::{commas_active, equals_active, find_unescaped, innermost, token_len, Scope};

verus! {

/// What a decoder has still to read: the unconsumed text and the composites
/// it is inside of, outermost first.
pub struct Cursor {
    pub text: Seq<char>,
    pub scopes: Seq<Scope>,
}

/// Where and why reading stopped: the error, and the cursor at which it
/// arose.
pub struct Stop {
    pub error: Error,
    pub at: Cursor,
}

impl Cursor {
    /// Whether `,` ends a token here.
    pub open spec fn commas(self) -> bool {
        commas_active(innermost(self.scopes))
    }

    /// Whether `=` ends a token here.
    pub open spec fn equals(self) -> bool {
        equals_active(innermost(self.scopes))
    }

    /// The cursor after `n` more characters were consumed.
    pub open spec fn advance(self, n: int) -> Cursor {
        Cursor { text: self.text.skip(n), scopes: self.scopes }
    }

    /// Whether this cursor is where a decoder can stand that started at
    /// `before` and only ever moved forward: its text is what is left of the
    /// text of `before` behind some part at its start.
    pub open spec fn left_of(self, before: Cursor) -> bool {
        self.text.len() <= before.text.len() && forall|i: int|
            0 <= i < self.text.len() ==> #[trigger] self.text[i] == before.text[i
                + before.text.len() - self.text.len()]
    }

    /// The length of the token that the text starts with.
    pub open spec fn token_len(self) -> int {
        token_len(self.text, self.commas(), self.equals())
    }

    /// The raw token that the text starts with.
    pub open spec fn token(self) -> Seq<char> {
        self.text.take(self.token_len())
    }

    /// Whether the text starts with `word`.
    pub open spec fn starts_with(self, word: Seq<char>) -> bool {
        word.len() <= self.text.len() && self.text.take(word.len() as int) == word
    }

    /// The cursor inside a composite that was just entered.
    pub open spec fn enter(self, scope: Scope) -> Cursor {
        Cursor { text: self.text, scopes: self.scopes.push(scope) }
    }

    /// The cursor after the innermost composite was left. Outside any
    /// composite there is nothing to leave.
    pub open spec fn leave(self) -> Cursor {
        if self.scopes.len() == 0 {
            self
        } else {
            Cursor { text: self.text, scopes: self.scopes.drop_last() }
        }
    }

    /// Reads `true` or `false`, whichever the text starts with.
    pub open spec fn read_bool(self) -> Result<(bool, Cursor), Error> {
        if self.starts_with(true_word()) {
            Ok((true, self.advance(4)))
        } else if self.starts_with(false_word()) {
            Ok((false, self.advance(5)))
        } else {
            Err(Error::ExpectedBoolean)
        }
    }

    /// Reads the unsigned number that the text starts with.
    pub open spec fn read_unsigned(self, max: nat) -> Result<(nat, Cursor), Error> {
        match leading_unsigned(self.text, max) {
            Ok((value, len)) => Ok((value, self.advance(len))),
            Err(e) => Err(e),
        }
    }

    /// Reads the signed number that the text starts with.
    pub open spec fn read_signed(self, min: int, max: int) -> Result<(int, Cursor), Error> {
        match leading_signed(self.text, min, max) {
            Ok((value, len)) => Ok((value, self.advance(len))),
            Err(e) => Err(e),
        }
    }

    /// Reads one token and unescapes it. The delimiter behind the token, if
    /// any, stays unconsumed.
    pub open spec fn read_string(self) -> (Seq<char>, Cursor) {
        (unescape(self.token()), self.advance(self.token_len()))
    }

    /// Reads a token that must stand for exactly one character.
    pub open spec fn read_char(self) -> Result<(char, Cursor), Error> {
        let (value, rest) = self.read_string();
        if value.len() == 1 {
            Ok((value[0], rest))
        } else {
            Err(Error::ExpectedChar)
        }
    }

    /// Whether an optional value is absent here: the input is exhausted, or
    /// the next character is a delimiter of the innermost composite.
    pub open spec fn at_none(self) -> bool {
        self.text.len() == 0 || self.text[0] == ':' || (self.commas() && self.text[0] == ',') || (
        self.equals() && self.text[0] == '=')
    }

    /// Steps to the next element of a composite whose elements are separated
    /// by `delim`, and tells whether there is one.
    ///
    /// There is none where the input is exhausted, or where a `:` follows
    /// inside a composite that `:` does not separate. Every element but the
    /// first must be preceded by `delim`, which is consumed.
    pub open spec fn next_element(self, first: bool, delim: char) -> Result<(bool, Cursor), Error> {
        if self.text.len() == 0 || (delim != ':' && self.text[0] == ':') {
            Ok((false, self))
        } else if first {
            Ok((true, self))
        } else if self.text[0] == delim {
            Ok((true, self.advance(1)))
        } else {
            Err(Error::ExpectedArrayComma)
        }
    }

    /// Whether a map key can be read here: an unescaped `=` follows, with no
    /// unescaped `,` before it.
    pub open spec fn key_ahead(self) -> bool {
        match find_unescaped(self.text, '=') {
            Some(eq) => match find_unescaped(self.text, ',') {
                Some(comma) => eq <= comma,
                None => true,
            },
            None => false,
        }
    }

    /// Steps to the key of the next map entry, and tells whether there is one.
    ///
    /// There is none where the input is exhausted or a `:` follows. Every
    /// entry but the first must be preceded by `,`, which is consumed; and
    /// the key must be in sight as a key.
    pub open spec fn next_key(self, first: bool) -> Result<(bool, Cursor), Stop> {
        if self.text.len() == 0 || self.text[0] == ':' {
            Ok((false, self))
        } else if !first && self.text[0] != ',' {
            Err(Stop { error: Error::ExpectedMapComma, at: self })
        } else {
            let at_key = if first { self } else { self.advance(1) };
            if at_key.key_ahead() {
                Ok((true, at_key))
            } else {
                Err(Stop { error: Error::ExpectedMapEquals, at: at_key })
            }
        }
    }

    /// Whether a map value can be read here: no unescaped `=` stands before
    /// the next unescaped `,` or the end of the input.
    pub open spec fn value_ahead(self) -> bool {
        match find_unescaped(self.text, '=') {
            Some(eq) => match find_unescaped(self.text, ',') {
                Some(comma) => comma <= eq,
                None => false,
            },
            None => true,
        }
    }

    /// Steps over the `=` of a map entry to its value, which must be in
    /// sight as a value.
    pub open spec fn next_value(self) -> Result<Cursor, Stop> {
        if self.text.len() == 0 {
            Err(Stop { error: Error::Eof, at: self })
        } else if self.text[0] != '=' {
            Err(Stop { error: Error::ExpectedMapEquals, at: self })
        } else if self.advance(1).value_ahead() {
            Ok(self.advance(1))
        } else {
            Err(Stop { error: Error::ExpectedMapComma, at: self.advance(1) })
        }
    }

    /// Reads the tag of an enum variant, and the `:` behind it if there is
    /// one.
    pub open spec fn read_tag(self) -> (Seq<char>, Cursor) {
        let (tag, rest) = self.read_string();
        if rest.text.len() > 0 && rest.text[0] == ':' {
            (tag, rest.advance(1))
        } else {
            (tag, rest)
        }
    }
}

/// Whether a step of reading came to `value`, with the cursor then at `at`.
pub open spec fn reached<T>(outcome: Result<(T, Cursor), Stop>, value: T, at: Cursor) -> bool {
    outcome == Ok::<(T, Cursor), Stop>((value, at))
}

/// Whether a step of reading stopped with `error`, with the cursor then at
/// `at`.
pub open spec fn stopped<T>(outcome: Result<T, Stop>, error: Error, at: Cursor) -> bool {
    outcome == Err::<T, Stop>(Stop { error, at })
}

/// The word that stands for the boolean `true`.
pub open spec fn true_word() -> Seq<char> {
    seq!['t', 'r', 'u', 'e']
}

/// The word that stands for the boolean `false`.
pub open spec fn false_word() -> Seq<char> {
    seq!['f', 'a', 'l', 's', 'e']
}

} // verus!
