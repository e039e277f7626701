use vstd::prelude::*;

verus! {

/// What a two-character escape is replaced with: one character or nothing.
pub open spec fn replacement(with: Option<char>) -> Seq<char> {
    match with {
        Some(c) => seq![c],
        None => Seq::empty(),
    }
}

/// Literal search-and-replace of the two-character pattern `a b`.
///
/// The text is scanned from the left; each occurrence found is replaced and
/// the scan goes on behind it, so occurrences never overlap and replaced text
/// is never scanned again.
pub open spec fn replace_pair(s: Seq<char>, a: char, b: char, with: Option<char>) -> Seq<char>
    decreases s.len(),
{
    if s.len() == 0 {
        s
    } else if s.len() >= 2 && s[0] == a && s[1] == b {
        replacement(with) + replace_pair(s.skip(2), a, b, with)
    } else {
        seq![s[0]] + replace_pair(s.skip(1), a, b, with)
    }
}

/// The value of a raw token.
///
/// Four passes of literal replacement, in this order: the escaped structural
/// characters `\:`, `\,` and `\=`; then a backslash directly before a line
/// break, which stands for nothing (a continued line); then the escaped
/// non-printables `\n`, `\r` and `\t`; and last `\\`, which collapses to one
/// backslash. The order is part of the format.
pub open spec fn unescape(token: Seq<char>) -> Seq<char> {
    let t = replace_pair(token, '\\', ':', Some(':'));
    let t = replace_pair(t, '\\', ',', Some(','));
    let t = replace_pair(t, '\\', '=', Some('='));
    let t = replace_pair(t, '\\', '\n', None);
    let t = replace_pair(t, '\\', 'n', Some('\n'));
    let t = replace_pair(t, '\\', 'r', Some('\r'));
    let t = replace_pair(t, '\\', 't', Some('\t'));
    replace_pair(t, '\\', '\\', Some('\\'))
}

/// The character that follows the backslash in the escaped form of `c`, if `c`
/// is escaped where commas are escaped iff `commas` and equals signs iff
/// `equals`.
pub open spec fn escape_letter(c: char, commas: bool, equals: bool) -> Option<char> {
    if c == '\\' {
        Some('\\')
    } else if c == ':' {
        Some(':')
    } else if c == '\n' {
        Some('n')
    } else if c == ',' && commas {
        Some(',')
    } else if c == '=' && equals {
        Some('=')
    } else {
        None
    }
}

/// The on-wire form of one character.
pub open spec fn escape_char(c: char, commas: bool, equals: bool) -> Seq<char> {
    match escape_letter(c, commas, equals) {
        Some(l) => seq!['\\', l],
        None => seq![c],
    }
}

/// The on-wire form of a scalar's text: every character in its escaped form.
///
/// Backslash, colon and line break are always escaped; a comma inside a
/// sequence or a map; an equals sign inside a map. Tabs and carriage returns
/// are written as they are.
pub open spec fn escape(s: Seq<char>, commas: bool, equals: bool) -> Seq<char>
    decreases s.len(),
{
    if s.len() == 0 {
        Seq::empty()
    } else {
        escape(s.drop_last(), commas, equals) + escape_char(s.last(), commas, equals)
    }
}

/// The text with every occurrence of the character `c` replaced by `with`.
pub open spec fn replace_char(s: Seq<char>, c: char, with: Seq<char>) -> Seq<char>
    decreases s.len(),
{
    if s.len() == 0 {
        Seq::empty()
    } else {
        replace_char(s.drop_last(), c, with) + (if s.last() == c {
            with
        } else {
            seq![s.last()]
        })
    }
}

/// Escaping as a series of replacements, one reserved character after the
/// other: the backslash first, so that the backslashes which the later
/// replacements put in are not doubled; then the colon; then the line
/// break; then the comma, iff `commas`; then the equals sign, iff `equals`.
pub open spec fn escape_in_passes(s: Seq<char>, commas: bool, equals: bool) -> Seq<char> {
    let t = replace_char(s, '\\', seq!['\\', '\\']);
    let t = replace_char(t, ':', seq!['\\', ':']);
    let t = replace_char(t, '\n', seq!['\\', 'n']);
    let t = if commas { replace_char(t, ',', seq!['\\', ',']) } else { t };
    if equals { replace_char(t, '=', seq!['\\', '=']) } else { t }
}

/// Replaces every occurrence of the pattern `a b`, scanning from the left.
pub fn replace(v: &Vec<char>, a: char, b: char, with: Option<char>) -> (out: Vec<char>)
    ensures
        out@ == replace_pair(v@, a, b, with),
{
    let mut out: Vec<char> = Vec::new();
    let mut i: usize = 0;
    assert(v@.skip(0) == v@);
    while i < v.len()
        invariant
            i <= v.len(),
            out@ + replace_pair(v@.skip(i as int), a, b, with) == replace_pair(v@, a, b, with),
        decreases v.len() - i,
    {
        let ghost rest = v@.skip(i as int);
        if v[i] == a && i + 1 < v.len() && v[i + 1] == b {
            assert(rest.skip(2) == v@.skip(i + 2));
            if let Some(c) = with {
                out.push(c);
            }
            i += 2;
        } else {
            assert(rest.skip(1) == v@.skip(i + 1));
            out.push(v[i]);
            i += 1;
        }
    }
    out
}

/// Turns a raw token into the value it stands for.
pub fn unescape_token(token: &Vec<char>) -> (out: Vec<char>)
    ensures
        out@ == unescape(token@),
{
    let t = replace(token, '\\', ':', Some(':'));
    let t = replace(&t, '\\', ',', Some(','));
    let t = replace(&t, '\\', '=', Some('='));
    let t = replace(&t, '\\', '\n', None);
    let t = replace(&t, '\\', 'n', Some('\n'));
    let t = replace(&t, '\\', 'r', Some('\r'));
    let t = replace(&t, '\\', 't', Some('\t'));
    replace(&t, '\\', '\\', Some('\\'))
}

/// Appends the on-wire form of `v` to `out`.
pub fn escape_into(out: &mut Vec<char>, v: &Vec<char>, commas: bool, equals: bool)
    ensures
        final(out)@ == old(out)@ + escape(v@, commas, equals),
{
    let mut i: usize = 0;
    while i < v.len()
        invariant
            i <= v.len(),
            out@ == old(out)@ + escape(v@.take(i as int), commas, equals),
        decreases v.len() - i,
    {
        let c = v[i];
        assert(v@.take(i + 1).drop_last() == v@.take(i as int));
        if c == '\\' {
            out.push('\\');
            out.push('\\');
        } else if c == ':' {
            out.push('\\');
            out.push(':');
        } else if c == '\n' {
            out.push('\\');
            out.push('n');
        } else if c == ',' && commas {
            out.push('\\');
            out.push(',');
        } else if c == '=' && equals {
            out.push('\\');
            out.push('=');
        } else {
            out.push(c);
        }
        i += 1;
    }
    assert(v@.take(v.len() as int) == v@);
}

} // verus!
