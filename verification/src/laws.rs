use vstd::prelude::*;
use crate::codec::{
    escape, escape_char, escape_in_passes, escape_letter, replace_char, replace_pair,
    replacement, unescape,
};
use crate::cursor::Cursor;
use crate::number::{
    decimal, decimal_value, digit_char, is_digit, leading_number, leading_signed,
    lemma_digits_len, signed_decimal,
};
use crate::resolve::{
    backslash_run, bare_at, commas_active, equals_active, innermost, lemma_find_from, token_len,
    Scope,
};

verus! {

/// A run of `k` backslashes.
pub open spec fn backslashes(k: nat) -> Seq<char> {
    Seq::new(k, |i: int| '\\')
}

/// How many backslashes the text starts with.
pub open spec fn leading_run(s: Seq<char>) -> nat
    decreases s.len(),
{
    if s.len() > 0 && s[0] == '\\' {
        1 + leading_run(s.skip(1))
    } else {
        0
    }
}

/// No backslash of the text is directly followed by `n`, `r` or `t`.
///
/// Such a pair, once its backslash is doubled, reads as the escape of a
/// line break, a carriage return or a tab.
pub open spec fn spells_no_escape(s: Seq<char>) -> bool {
    forall|i: int|
        0 <= i && i + 1 < s.len() && #[trigger] s[i] == '\\' ==> s[i + 1] != 'n' && s[i + 1] != 'r'
            && s[i + 1] != 't'
}

/// A text is its leading run of backslashes and what follows, which does
/// not start with a backslash.
pub proof fn lemma_leading_run(s: Seq<char>)
    ensures
        leading_run(s) <= s.len(),
        s == backslashes(leading_run(s)) + s.skip(leading_run(s) as int),
        leading_run(s) < s.len() ==> s[leading_run(s) as int] != '\\',
    decreases s.len(),
{
    if s.len() > 0 && s[0] == '\\' {
        let t = s.skip(1);
        lemma_leading_run(t);
        let k = leading_run(t);
        assert(s.skip(k + 1 as int) == t.skip(k as int));
        assert(backslashes(k + 1) == seq!['\\'] + backslashes(k));
        assert(s == seq!['\\'] + t);
        assert(s == backslashes(k + 1) + s.skip(k + 1 as int));
        if k + 1 < s.len() {
            assert(s[k + 1 as int] == t[k as int]);
        }
    } else {
        assert(s.skip(0) == s);
        assert(backslashes(0) + s == s);
    }
}

/// Replacing `\b`, for a `b` that is no backslash, in a run of backslashes
/// that ends before `d`: only the last backslash of the run can match, and
/// does iff `d` is `b`. What follows `d` is replaced on its own.
pub proof fn lemma_replace_block(
    k: nat,
    d: char,
    rest: Seq<char>,
    b: char,
    with: Option<char>,
)
    requires
        d != '\\',
        b != '\\',
    ensures
        replace_pair(backslashes(k) + seq![d] + rest, '\\', b, with) == (if k >= 1 && d == b {
            backslashes((k - 1) as nat) + replacement(with)
        } else {
            backslashes(k) + seq![d]
        }) + replace_pair(rest, '\\', b, with),
    decreases k,
{
    let s = backslashes(k) + seq![d] + rest;
    let tail = replace_pair(rest, '\\', b, with);
    if k == 0 {
        assert(s.skip(1) == rest);
        assert(backslashes(0) + seq![d] == seq![d]);
    } else if k == 1 {
        if d == b {
            assert(s.skip(2) == rest);
            assert(backslashes(0) + replacement(with) == replacement(with));
        } else {
            let t = backslashes(0) + seq![d] + rest;
            assert(s.skip(1) == t);
            lemma_replace_block(0, d, rest, b, with);
            assert(seq!['\\'] + (seq![d] + tail) == backslashes(1) + seq![d] + tail);
            assert(backslashes(0) + seq![d] == seq![d]);
        }
    } else {
        let t = backslashes((k - 1) as nat) + seq![d] + rest;
        assert(s.skip(1) == t);
        assert(s[1] == '\\');
        lemma_replace_block((k - 1) as nat, d, rest, b, with);
        if d == b {
            assert(seq!['\\'] + (backslashes((k - 2) as nat) + replacement(with) + tail)
                == backslashes((k - 1) as nat) + replacement(with) + tail);
        } else {
            assert(seq!['\\'] + (backslashes((k - 1) as nat) + seq![d] + tail) == backslashes(k)
                + seq![d] + tail);
        }
    }
}

/// Replacing `\b`, for a `b` that is no backslash, leaves a text of
/// backslashes alone.
pub proof fn lemma_replace_run(k: nat, b: char, with: Option<char>)
    requires
        b != '\\',
    ensures
        replace_pair(backslashes(k), '\\', b, with) == backslashes(k),
    decreases k,
{
    let s = backslashes(k);
    if k > 0 {
        assert(s.skip(1) == backslashes((k - 1) as nat));
        lemma_replace_run((k - 1) as nat, b, with);
        assert(seq!['\\'] + backslashes((k - 1) as nat) == s);
    }
}

/// Collapsing `\\` halves a run of backslashes that ends before `d`,
/// rounding up. What follows `d` is collapsed on its own.
pub proof fn lemma_collapse_block(k: nat, d: char, rest: Seq<char>)
    requires
        d != '\\',
    ensures
        replace_pair(backslashes(k) + seq![d] + rest, '\\', '\\', Some('\\')) == backslashes(
            (k + 1) / 2,
        ) + seq![d] + replace_pair(rest, '\\', '\\', Some('\\')),
    decreases k,
{
    let s = backslashes(k) + seq![d] + rest;
    let tail = replace_pair(rest, '\\', '\\', Some('\\'));
    if k == 0 {
        assert(s.skip(1) == rest);
        assert(backslashes(0) + seq![d] == seq![d]);
    } else if k == 1 {
        let t = backslashes(0) + seq![d] + rest;
        assert(s.skip(1) == t);
        lemma_collapse_block(0, d, rest);
        assert(seq!['\\'] + (backslashes(0) + seq![d] + tail) == backslashes(1) + seq![d] + tail);
    } else {
        let t = backslashes((k - 2) as nat) + seq![d] + rest;
        assert(s.skip(2) == t);
        assert(s[1] == '\\');
        lemma_collapse_block((k - 2) as nat, d, rest);
        assert(seq!['\\'] + (backslashes(((k - 1) / 2) as nat) + seq![d] + tail) == backslashes(
            (k + 1) / 2,
        ) + seq![d] + tail);
    }
}

/// Collapsing `\\` halves a text of backslashes, rounding up.
pub proof fn lemma_collapse_run(k: nat)
    ensures
        replace_pair(backslashes(k), '\\', '\\', Some('\\')) == backslashes((k + 1) / 2),
    decreases k,
{
    let s = backslashes(k);
    if k == 0 {
        assert(s == backslashes(0));
    } else if k == 1 {
        assert(s.skip(1) == backslashes(0));
        assert(replace_pair(backslashes(0), '\\', '\\', Some('\\')) == backslashes(0));
        assert(seq!['\\'] + backslashes(0) == backslashes(1));
    } else {
        assert(s[0] == '\\' && s[1] == '\\');
        assert(s.skip(2) == backslashes((k - 2) as nat));
        lemma_collapse_run((k - 2) as nat);
        assert(replacement(Some('\\')) == seq!['\\']);
        assert(seq!['\\'] + backslashes(((k - 1) / 2) as nat) == backslashes((k + 1) / 2));
    }
}

/// What one pass of replacing `\b` by `with` makes of a run of `block.0`
/// backslashes before the character `block.1`.
pub open spec fn pass(block: (nat, char), b: char, with: char) -> (nat, char) {
    if block.0 >= 1 && block.1 == b {
        ((block.0 - 1) as nat, with)
    } else {
        block
    }
}

/// What unescaping makes of a run of `k` backslashes before the character
/// `d`: the length of the run that is left, and the character behind it.
pub open spec fn unescaped_block(k: nat, d: char) -> (nat, char) {
    let x = pass((k, d), ':', ':');
    let x = pass(x, ',', ',');
    let x = pass(x, '=', '=');
    let x = pass(x, 'n', '\n');
    let x = pass(x, 'r', '\r');
    let x = pass(x, 't', '\t');
    ((x.0 + 1) / 2, x.1)
}

/// Unescaping works block by block: a run of backslashes and the character
/// that ends it are unescaped on their own, whatever follows.
///
/// The one exception is a run before a line break, which swallows the line
/// break and so joins what follows.
pub proof fn lemma_unescape_block(k: nat, d: char, rest: Seq<char>)
    requires
        d != '\\',
        k == 0 || d != '\n',
    ensures
        unescape(backslashes(k) + seq![d] + rest) == backslashes(unescaped_block(k, d).0) + seq![
            unescaped_block(k, d).1,
        ] + unescape(rest),
{
    let x0 = (k, d);
    let r0 = rest;
    lemma_replace_block(x0.0, x0.1, r0, ':', Some(':'));
    let x1 = pass(x0, ':', ':');
    let r1 = replace_pair(r0, '\\', ':', Some(':'));
    lemma_replace_block(x1.0, x1.1, r1, ',', Some(','));
    let x2 = pass(x1, ',', ',');
    let r2 = replace_pair(r1, '\\', ',', Some(','));
    lemma_replace_block(x2.0, x2.1, r2, '=', Some('='));
    let x3 = pass(x2, '=', '=');
    let r3 = replace_pair(r2, '\\', '=', Some('='));
    lemma_replace_block(x3.0, x3.1, r3, '\n', None);
    let r4 = replace_pair(r3, '\\', '\n', None);
    lemma_replace_block(x3.0, x3.1, r4, 'n', Some('\n'));
    let x5 = pass(x3, 'n', '\n');
    let r5 = replace_pair(r4, '\\', 'n', Some('\n'));
    lemma_replace_block(x5.0, x5.1, r5, 'r', Some('\r'));
    let x6 = pass(x5, 'r', '\r');
    let r6 = replace_pair(r5, '\\', 'r', Some('\r'));
    lemma_replace_block(x6.0, x6.1, r6, 't', Some('\t'));
    let x7 = pass(x6, 't', '\t');
    let r7 = replace_pair(r6, '\\', 't', Some('\t'));
    lemma_collapse_block(x7.0, x7.1, r7);
}

/// Unescaping halves a text of backslashes, rounding up.
pub proof fn lemma_unescape_run(k: nat)
    ensures
        unescape(backslashes(k)) == backslashes((k + 1) / 2),
{
    lemma_replace_run(k, ':', Some(':'));
    lemma_replace_run(k, ',', Some(','));
    lemma_replace_run(k, '=', Some('='));
    lemma_replace_run(k, '\n', None);
    lemma_replace_run(k, 'n', Some('\n'));
    lemma_replace_run(k, 'r', Some('\r'));
    lemma_replace_run(k, 't', Some('\t'));
    lemma_collapse_run(k);
}

/// Escaping works character by character: the escaped form of two texts
/// put together is their escaped forms put together.
pub proof fn lemma_escape_concat(x: Seq<char>, y: Seq<char>, commas: bool, equals: bool)
    ensures
        escape(x + y, commas, equals) == escape(x, commas, equals) + escape(y, commas, equals),
    decreases y.len(),
{
    if y.len() == 0 {
        assert(x + y == x);
    } else {
        assert((x + y).drop_last() == x + y.drop_last());
        lemma_escape_concat(x, y.drop_last(), commas, equals);
    }
}

/// The escaped form of a text of one character.
pub proof fn lemma_escape_one(c: char, commas: bool, equals: bool)
    ensures
        escape(seq![c], commas, equals) == escape_char(c, commas, equals),
{
    let one = seq![c];
    assert(one.drop_last() == Seq::<char>::empty());
    assert(one.last() == c);
    assert(escape(one.drop_last(), commas, equals) == Seq::<char>::empty());
    assert(Seq::<char>::empty() + escape_char(c, commas, equals) == escape_char(c, commas, equals));
}

/// Replacing a character works character by character.
pub proof fn lemma_replace_char_concat(x: Seq<char>, y: Seq<char>, c: char, with: Seq<char>)
    ensures
        replace_char(x + y, c, with) == replace_char(x, c, with) + replace_char(y, c, with),
    decreases y.len(),
{
    if y.len() == 0 {
        assert(x + y == x);
    } else {
        assert((x + y).drop_last() == x + y.drop_last());
        lemma_replace_char_concat(x, y.drop_last(), c, with);
    }
}

/// Replacing a character in a text of one or two characters.
proof fn lemma_replace_char_short(a: char, b: char, c: char, with: Seq<char>)
    ensures
        replace_char(seq![a], c, with) == if a == c {
            with
        } else {
            seq![a]
        },
        replace_char(seq![a, b], c, with) == (if a == c {
            with
        } else {
            seq![a]
        }) + (if b == c {
            with
        } else {
            seq![b]
        }),
{
    let one = seq![a];
    assert(one.drop_last() == Seq::<char>::empty());
    assert(replace_char(Seq::<char>::empty(), c, with) == Seq::<char>::empty());
    assert(Seq::<char>::empty() + with == with);
    assert(Seq::<char>::empty() + seq![a] == seq![a]);
    let two = seq![a, b];
    assert(two.drop_last() == one);
}

/// Escaping one reserved character after the other, the backslash first,
/// escapes every character on its own.
pub proof fn lemma_escape_in_passes(s: Seq<char>, commas: bool, equals: bool)
    ensures
        escape_in_passes(s, commas, equals) == escape(s, commas, equals),
    decreases s.len(),
{
    if s.len() == 0 {
        assert(replace_char(Seq::<char>::empty(), ':', seq!['\\', ':']) == Seq::<char>::empty());
    } else {
        let front = s.drop_last();
        let c = s.last();
        assert(s == front + seq![c]);
        lemma_escape_in_passes(front, commas, equals);
        let bs = seq!['\\', '\\'];
        let f1 = replace_char(front, '\\', bs);
        let l1 = replace_char(seq![c], '\\', bs);
        lemma_replace_char_concat(front, seq![c], '\\', bs);
        let f2 = replace_char(f1, ':', seq!['\\', ':']);
        let l2 = replace_char(l1, ':', seq!['\\', ':']);
        lemma_replace_char_concat(f1, l1, ':', seq!['\\', ':']);
        let f3 = replace_char(f2, '\n', seq!['\\', 'n']);
        let l3 = replace_char(l2, '\n', seq!['\\', 'n']);
        lemma_replace_char_concat(f2, l2, '\n', seq!['\\', 'n']);
        let f4 = if commas { replace_char(f3, ',', seq!['\\', ',']) } else { f3 };
        let l4 = if commas { replace_char(l3, ',', seq!['\\', ',']) } else { l3 };
        lemma_replace_char_concat(f3, l3, ',', seq!['\\', ',']);
        let l5 = if equals { replace_char(l4, '=', seq!['\\', '=']) } else { l4 };
        lemma_replace_char_concat(f4, l4, '=', seq!['\\', '=']);
        assert(l5 == escape_char(c, commas, equals)) by {
            lemma_passes_on_one(c, commas, equals);
        }
    }
}

/// The passes of escaping, applied to a text of one character.
proof fn lemma_passes_on_one(c: char, commas: bool, equals: bool)
    ensures
        escape_in_passes(seq![c], commas, equals) == escape_char(c, commas, equals),
{
    let bs = seq!['\\', '\\'];
    lemma_replace_char_short(c, c, '\\', bs);
    let l1 = replace_char(seq![c], '\\', bs);
    if c == '\\' {
        assert(l1 == seq!['\\', '\\']);
        lemma_replace_char_short('\\', '\\', ':', seq!['\\', ':']);
        lemma_replace_char_short('\\', '\\', '\n', seq!['\\', 'n']);
        lemma_replace_char_short('\\', '\\', ',', seq!['\\', ',']);
        lemma_replace_char_short('\\', '\\', '=', seq!['\\', '=']);
        assert(seq!['\\'] + seq!['\\'] == seq!['\\', '\\']);
    } else {
        assert(l1 == seq![c]);
        lemma_replace_char_short(c, c, ':', seq!['\\', ':']);
        let l2 = replace_char(l1, ':', seq!['\\', ':']);
        if c == ':' {
            assert(l2 == seq!['\\', ':']);
            lemma_replace_char_short('\\', ':', '\n', seq!['\\', 'n']);
            lemma_replace_char_short('\\', ':', ',', seq!['\\', ',']);
            lemma_replace_char_short('\\', ':', '=', seq!['\\', '=']);
            assert(seq!['\\'] + seq![':'] == seq!['\\', ':']);
        } else {
            assert(l2 == seq![c]);
            lemma_replace_char_short(c, c, '\n', seq!['\\', 'n']);
            let l3 = replace_char(l2, '\n', seq!['\\', 'n']);
            if c == '\n' {
                assert(l3 == seq!['\\', 'n']);
                lemma_replace_char_short('\\', 'n', ',', seq!['\\', ',']);
                lemma_replace_char_short('\\', 'n', '=', seq!['\\', '=']);
                assert(seq!['\\'] + seq!['n'] == seq!['\\', 'n']);
            } else {
                assert(l3 == seq![c]);
                lemma_replace_char_short(c, c, ',', seq!['\\', ',']);
                let l4 = if commas { replace_char(l3, ',', seq!['\\', ',']) } else { l3 };
                if commas && c == ',' {
                    assert(l4 == seq!['\\', ',']);
                    lemma_replace_char_short('\\', ',', '=', seq!['\\', '=']);
                    assert(seq!['\\'] + seq![','] == seq!['\\', ',']);
                } else {
                    assert(l4 == seq![c]);
                    lemma_replace_char_short(c, c, '=', seq!['\\', '=']);
                }
            }
        }
    }
}

/// Escaping doubles a run of backslashes.
pub proof fn lemma_escape_run(k: nat, commas: bool, equals: bool)
    ensures
        escape(backslashes(k), commas, equals) == backslashes(2 * k),
    decreases k,
{
    if k > 0 {
        assert(backslashes(k).drop_last() == backslashes((k - 1) as nat));
        lemma_escape_run((k - 1) as nat, commas, equals);
        assert(backslashes((2 * (k - 1)) as nat) + seq!['\\', '\\'] == backslashes(2 * k));
    } else {
        assert(backslashes(2 * k) == Seq::<char>::empty());
    }
}

/// The escaped form of a text that does not consist of backslashes alone:
/// its leading run doubled, then the escaped form of the character that
/// ends the run, then the escaped form of the rest.
pub proof fn lemma_escape_split(s: Seq<char>, commas: bool, equals: bool)
    requires
        leading_run(s) < s.len(),
    ensures
        escape(s, commas, equals) == backslashes(2 * leading_run(s)) + escape_char(
            s[leading_run(s) as int],
            commas,
            equals,
        ) + escape(s.skip(leading_run(s) + 1 as int), commas, equals),
        s == backslashes(leading_run(s)) + seq![s[leading_run(s) as int]] + s.skip(
            leading_run(s) + 1 as int,
        ),
{
    lemma_leading_run(s);
    let k = leading_run(s);
    let c = s[k as int];
    let tail = s.skip(k + 1 as int);
    lemma_escape_run(k, commas, equals);
    assert(s.skip(k as int) == seq![c] + tail);
    assert(s == backslashes(k) + (seq![c] + tail));
    lemma_escape_concat(backslashes(k), seq![c] + tail, commas, equals);
    lemma_escape_concat(seq![c], tail, commas, equals);
    lemma_escape_one(c, commas, equals);
    let e = escape(tail, commas, equals);
    let ec = escape_char(c, commas, equals);
    assert(backslashes(2 * k) + (ec + e) == backslashes(2 * k) + ec + e);
    assert(backslashes(k) + (seq![c] + tail) == backslashes(k) + seq![c] + tail);
}

/// Unescaping restores a block that was escaped: a run of `k` backslashes
/// before `c`, unless `c` is one of `n`, `r`, `t` and the run is not empty.
pub proof fn lemma_block_restored(k: nat, c: char, commas: bool, equals: bool)
    requires
        c != '\\',
        k == 0 || (c != 'n' && c != 'r' && c != 't'),
    ensures
        match escape_letter(c, commas, equals) {
            Some(l) => unescaped_block(2 * k + 1, l) == (k, c) && l != '\\' && l != '\n',
            None => unescaped_block(2 * k, c) == (k, c) && c != '\n',
        },
{
}

/// What was escaped is unescaped to what it was, wherever it was escaped,
/// if no backslash of it is directly followed by `n`, `r` or `t`.
pub proof fn lemma_unescape_escape(s: Seq<char>, commas: bool, equals: bool)
    requires
        spells_no_escape(s),
    ensures
        unescape(escape(s, commas, equals)) == s,
    decreases s.len(),
{
    lemma_leading_run(s);
    let k = leading_run(s);
    if k == s.len() {
        lemma_escape_run(k, commas, equals);
        assert(s.skip(k as int) == Seq::<char>::empty());
        assert(s == backslashes(k));
        lemma_unescape_run(2 * k);
    } else {
        let c = s[k as int];
        let tail = s.skip(k + 1 as int);
        lemma_escape_split(s, commas, equals);
        let e = escape(tail, commas, equals);
        assert forall|i: int| 0 <= i && i + 1 < tail.len() && #[trigger] tail[i] == '\\' implies tail[i
            + 1] != 'n' && tail[i + 1] != 'r' && tail[i + 1] != 't' by {
            assert(tail[i] == s[k + 1 + i]);
            assert(tail[i + 1] == s[k + 1 + i + 1]);
        }
        lemma_unescape_escape(tail, commas, equals);
        if k >= 1 {
            assert(s[k - 1] == '\\') by {
                assert(backslashes(k)[k - 1] == '\\');
            }
        }
        lemma_block_restored(k, c, commas, equals);
        match escape_letter(c, commas, equals) {
            Some(l) => {
                assert(backslashes(2 * k) + seq!['\\', l] == backslashes(2 * k + 1) + seq![l]);
                lemma_unescape_block(2 * k + 1, l, e);
            },
            None => {
                lemma_unescape_block(2 * k, c, e);
            },
        }
    }
}

/// A text in which a backslash is directly followed by `n`, `r` or `t` is
/// not unescaped to what it was: the doubled backslash of such a pair and
/// the letter behind it read as the escape of a non-printable.
pub proof fn lemma_spelled_escape_is_lost(s: Seq<char>, commas: bool, equals: bool)
    requires
        !spells_no_escape(s),
    ensures
        unescape(escape(s, commas, equals)) != s,
    decreases s.len(),
{
    let i = choose|i: int|
        0 <= i && i + 1 < s.len() && #[trigger] s[i] == '\\' && (s[i + 1] == 'n' || s[i + 1] == 'r'
            || s[i + 1] == 't');
    lemma_leading_run(s);
    let k = leading_run(s);
    assert(k < s.len()) by {
        if k == s.len() {
            assert(backslashes(k)[i + 1] == '\\');
        }
    }
    let c = s[k as int];
    let tail = s.skip(k + 1 as int);
    lemma_escape_split(s, commas, equals);
    let e = escape(tail, commas, equals);
    let out = unescape(escape(s, commas, equals));
    if i + 1 < k {
        assert(backslashes(k)[i + 1] == '\\');
    } else if i + 1 == k {
        // The pair ends the leading run: the letter is read as a non-printable.
        assert(escape_letter(c, commas, equals) is None);
        lemma_unescape_block(2 * k, c, e);
        let block = unescaped_block(2 * k, c);
        assert(block.0 == k && block.1 != c);
        assert(out[k as int] == block.1);
    } else {
        // The pair stands behind the leading run and the character that ends it.
        assert(i > k);
        assert(tail[i - k - 1] == s[i] && tail[i - k] == s[i + 1]);
        assert(!spells_no_escape(tail));
        lemma_spelled_escape_is_lost(tail, commas, equals);
        let lost = unescape(e);
        match escape_letter(c, commas, equals) {
            Some(l) => {
                assert(backslashes(2 * k) + seq!['\\', l] == backslashes(2 * k + 1) + seq![l]);
                lemma_unescape_block(2 * k + 1, l, e);
            },
            None => {
                lemma_unescape_block(2 * k, c, e);
            },
        }
        let block = if escape_letter(c, commas, equals) is Some {
            unescaped_block(2 * k + 1, escape_letter(c, commas, equals)->0)
        } else {
            unescaped_block(2 * k, c)
        };
        let front = backslashes(block.0) + seq![block.1];
        assert(out == front + lost);
        if out == s {
            assert(front.len() == k + 1) by {
                if k >= 1 {
                    assert(c != 'n' && c != 'r' && c != 't') by {
                        if c == 'n' || c == 'r' || c == 't' {
                            assert(out[k as int] == block.1);
                        }
                    }
                }
                lemma_block_restored(k, c, commas, equals);
            }
            assert(out.skip(k + 1 as int) == lost);
        }
    }
}

/// What was escaped is unescaped to what it was exactly if no backslash of
/// it is directly followed by `n`, `r` or `t`.
pub proof fn lemma_unescape_inverts_escape(s: Seq<char>, commas: bool, equals: bool)
    ensures
        unescape(escape(s, commas, equals)) == s <==> spells_no_escape(s),
{
    if spells_no_escape(s) {
        lemma_unescape_escape(s, commas, equals);
    } else {
        lemma_spelled_escape_is_lost(s, commas, equals);
    }
}

/// Whether `ch` is a delimiter where commas are delimiters iff `commas`
/// and equals signs iff `equals`.
pub open spec fn is_delimiter(ch: char, commas: bool, equals: bool) -> bool {
    ch == ':' || (commas && ch == ',') || (equals && ch == '=')
}

/// The run of backslashes before an index depends only on what stands
/// before that index.
pub proof fn lemma_run_prefix(x: Seq<char>, y: Seq<char>, i: int)
    requires
        0 <= i <= x.len(),
    ensures
        backslash_run(x + y, i) == backslash_run(x, i),
    decreases i,
{
    if i > 0 {
        assert((x + y)[i - 1] == x[i - 1]);
        if x[i - 1] == '\\' {
            lemma_run_prefix(x, y, i - 1);
        }
    }
}

/// In an escaped text every delimiter stands behind an odd run of
/// backslashes, and the text ends in an even run.
pub proof fn lemma_escape_runs(s: Seq<char>, commas: bool, equals: bool)
    ensures
        backslash_run(escape(s, commas, equals), escape(s, commas, equals).len() as int) % 2 == 0,
        forall|i: int|
            0 <= i < escape(s, commas, equals).len() && is_delimiter(
                #[trigger] escape(s, commas, equals)[i],
                commas,
                equals,
            ) ==> backslash_run(escape(s, commas, equals), i) % 2 == 1,
    decreases s.len(),
{
    let e = escape(s, commas, equals);
    if s.len() > 0 {
        let c = s.last();
        let before = escape(s.drop_last(), commas, equals);
        let ec = escape_char(c, commas, equals);
        let n = before.len() as int;
        lemma_escape_runs(s.drop_last(), commas, equals);
        assert(e == before + ec);
        lemma_run_prefix(before, ec, n);
        assert forall|i: int| 0 <= i < e.len() && is_delimiter(#[trigger] e[i], commas, equals)
            implies backslash_run(e, i) % 2 == 1 by {
            if i < n {
                assert(e[i] == before[i]);
                lemma_run_prefix(before, ec, i);
            } else if i == n {
                assert(e[n] == ec[0]);
            } else {
                assert(e[i] == ec[i - n]);
                assert(e[n] == '\\');
            }
        }
        match escape_letter(c, commas, equals) {
            Some(l) => {
                assert(e[n] == '\\');
                assert(e[n + 1] == l);
                assert(backslash_run(e, n + 1) == 1 + backslash_run(e, n));
            },
            None => {
                assert(e[n] == c);
            },
        }
    }
}

/// No delimiter stands unescaped inside an escaped text, whatever follows
/// it; and what follows it starts unescaped.
pub proof fn lemma_escaped_has_no_bare(s: Seq<char>, rest: Seq<char>, commas: bool, equals: bool)
    ensures
        forall|j: int, ch: char|
            0 <= j < escape(s, commas, equals).len() && is_delimiter(ch, commas, equals)
                ==> !#[trigger] bare_at(escape(s, commas, equals) + rest, j, ch),
        rest.len() > 0 ==> bare_at(
            escape(s, commas, equals) + rest,
            escape(s, commas, equals).len() as int,
            rest[0],
        ),
{
    let e = escape(s, commas, equals);
    let t = e + rest;
    let n = e.len() as int;
    lemma_escape_runs(s, commas, equals);
    lemma_run_prefix(e, rest, n);
    assert forall|j: int, ch: char| 0 <= j < n && is_delimiter(ch, commas, equals) implies !bare_at(
        t,
        j,
        ch,
    ) by {
        assert(t[j] == e[j]);
        lemma_run_prefix(e, rest, j);
    }
    if rest.len() > 0 {
        assert(t[n] == rest[0]);
    }
}

/// A text that is not empty is escaped to one that is not empty either,
/// and that does not start with a delimiter.
pub proof fn lemma_escape_start(s: Seq<char>, commas: bool, equals: bool)
    requires
        s.len() > 0,
    ensures
        escape(s, commas, equals).len() > 0,
        !is_delimiter(escape(s, commas, equals)[0], commas, equals),
{
    assert(s == seq![s[0]] + s.skip(1));
    lemma_escape_concat(seq![s[0]], s.skip(1), commas, equals);
    lemma_escape_one(s[0], commas, equals);
}

/// An escaped text is one token: put before nothing, or before a
/// delimiter, it ends exactly where that begins.
pub proof fn lemma_escaped_is_token(s: Seq<char>, rest: Seq<char>, commas: bool, equals: bool)
    requires
        rest.len() == 0 || is_delimiter(rest[0], commas, equals),
    ensures
        token_len(escape(s, commas, equals) + rest, commas, equals) == escape(
            s,
            commas,
            equals,
        ).len(),
{
    let e = escape(s, commas, equals);
    let t = e + rest;
    let n = e.len() as int;
    lemma_escape_runs(s, commas, equals);
    lemma_run_prefix(e, rest, n);
    assert forall|j: int, ch: char| 0 <= j < n && is_delimiter(ch, commas, equals) implies !bare_at(
        t,
        j,
        ch,
    ) by {
        assert(t[j] == e[j]);
        lemma_run_prefix(e, rest, j);
    }
    lemma_find_from(t, ':', 0);
    lemma_find_from(t, ',', 0);
    lemma_find_from(t, '=', 0);
    if rest.len() > 0 {
        assert(t[n] == rest[0]);
        assert(bare_at(t, n, rest[0]));
    }
}

/// An escaped text, put before nothing or before a delimiter, is read back
/// as the text that was escaped, and the cursor stops behind it.
///
/// This holds wherever the text is read with the delimiters it was escaped
/// for, and of every text in which no backslash is directly followed by `n`,
/// `r` or `t`.
pub proof fn lemma_read_escaped(s: Seq<char>, rest: Seq<char>, scopes: Seq<Scope>)
    requires
        spells_no_escape(s),
        rest.len() == 0 || is_delimiter(
            rest[0],
            commas_active(innermost(scopes)),
            equals_active(innermost(scopes)),
        ),
    ensures
        (Cursor {
            text: escape(s, commas_active(innermost(scopes)), equals_active(innermost(scopes)))
                + rest,
            scopes,
        }).read_string() == (s, Cursor { text: rest, scopes }),
{
    let commas = commas_active(innermost(scopes));
    let equals = equals_active(innermost(scopes));
    let e = escape(s, commas, equals);
    let c = Cursor { text: e + rest, scopes };
    lemma_escaped_is_token(s, rest, commas, equals);
    lemma_unescape_escape(s, commas, equals);
    assert(c.token() == e);
    assert((e + rest).skip(e.len() as int) == rest);
}

/// A number is written with at least one character, all of them digits.
pub proof fn lemma_decimal_digits(n: nat)
    ensures
        decimal(n).len() >= 1,
        forall|i: int| 0 <= i < decimal(n).len() ==> is_digit(#[trigger] decimal(n)[i]),
    decreases n,
{
    if n >= 10 {
        lemma_decimal_digits(n / 10);
    }
}

/// The digits of a number write that number.
pub proof fn lemma_decimal_value(n: nat)
    ensures
        decimal_value(decimal(n)) == n,
    decreases n,
{
    if n >= 10 {
        lemma_decimal_value(n / 10);
        assert(decimal(n).drop_last() == decimal(n / 10));
        assert(decimal(n).last() == digit_char(n % 10));
    } else {
        assert(decimal(n).drop_last() == Seq::<char>::empty());
        assert(decimal_value(Seq::<char>::empty()) == 0);
    }
}

/// The digits of a number, put before nothing or before something that is
/// no digit, are read back as that number.
pub proof fn lemma_leading_decimal(n: nat, rest: Seq<char>)
    requires
        rest.len() == 0 || !is_digit(rest[0]),
    ensures
        leading_number(decimal(n) + rest) == Ok::<(nat, int), crate::err::Error>(
            (n, decimal(n).len() as int),
        ),
{
    let d = decimal(n);
    let t = d + rest;
    lemma_decimal_digits(n);
    lemma_decimal_value(n);
    assert forall|j: int| 0 <= j < d.len() implies is_digit(#[trigger] t[j]) by {
        assert(t[j] == d[j]);
    }
    if rest.len() > 0 {
        assert(t[d.len() as int] == rest[0]);
    }
    lemma_digits_len(t, d.len() as int);
    assert(t.take(d.len() as int) == d);
    assert(t[0] == d[0]);
}

/// The text of a signed number within bounds, put before nothing or before
/// something that is no digit, is read back as that number.
pub proof fn lemma_leading_signed(v: int, low: int, high: int, rest: Seq<char>)
    requires
        low <= v <= high,
        rest.len() == 0 || !is_digit(rest[0]),
    ensures
        leading_signed(signed_decimal(v) + rest, low, high) == Ok::<(int, int), crate::err::Error>(
            (v, signed_decimal(v).len() as int),
        ),
{
    if v < 0 {
        let d = decimal((-v) as nat);
        let t = signed_decimal(v) + rest;
        assert(t[0] == '-');
        assert(t.skip(1) == d + rest);
        lemma_leading_decimal((-v) as nat, rest);
    } else {
        let d = decimal(v as nat);
        let t = d + rest;
        lemma_decimal_digits(v as nat);
        assert(t[0] == d[0]);
        lemma_leading_decimal(v as nat, rest);
    }
}

} // verus!
