use vstd::prelude::*;

verus! {

/// The composite whose parts are being read or written.
#[derive(Debug, Clone, Copy, PartialEq, Eq, Structural)]
pub enum Scope {
    /// A sequence or a tuple: its elements are separated by `,`.
    Sequence,
    /// A map: its entries are separated by `,`, key and value by `=`.
    Mapping,
    /// A struct: its fields are separated by `:`, and a `,` inside a field
    /// belongs to that field.
    Struct,
}

/// Whether `,` is a delimiter inside the innermost composite `top`.
pub open spec fn commas_active(top: Option<Scope>) -> bool {
    top == Some(Scope::Sequence) || top == Some(Scope::Mapping)
}

/// Whether `=` is a delimiter inside the innermost composite `top`.
pub open spec fn equals_active(top: Option<Scope>) -> bool {
    top == Some(Scope::Mapping)
}

/// The innermost composite of a nesting, outermost first.
pub open spec fn innermost(scopes: Seq<Scope>) -> Option<Scope> {
    if scopes.len() == 0 {
        None
    } else {
        Some(scopes.last())
    }
}

/// How many backslashes stand in an unbroken run directly before index `i`.
pub open spec fn backslash_run(s: Seq<char>, i: int) -> nat
    decreases i,
{
    if 0 < i <= s.len() && s[i - 1] == '\\' {
        1 + backslash_run(s, i - 1)
    } else {
        0
    }
}

/// Whether `ch` stands at index `i` and is not escaped there: the run of
/// backslashes before it has even length.
pub open spec fn bare_at(s: Seq<char>, i: int, ch: char) -> bool {
    0 <= i < s.len() && s[i] == ch && backslash_run(s, i) % 2 == 0
}

/// The first index at or behind `from` where `ch` stands unescaped.
pub open spec fn find_from(s: Seq<char>, ch: char, from: int) -> Option<int>
    decreases s.len() - from,
{
    if from < 0 || from >= s.len() {
        None
    } else if bare_at(s, from, ch) {
        Some(from)
    } else {
        find_from(s, ch, from + 1)
    }
}

/// The index of the first unescaped occurrence of `ch`, if there is one.
pub open spec fn find_unescaped(s: Seq<char>, ch: char) -> Option<int> {
    find_from(s, ch, 0)
}

/// The smaller of two indices, where a missing one counts as beyond the end.
pub open spec fn earlier(a: Option<int>, b: Option<int>) -> Option<int> {
    match (a, b) {
        (Some(x), Some(y)) => Some(if x <= y { x } else { y }),
        (Some(x), None) => Some(x),
        (None, Some(y)) => Some(y),
        (None, None) => None,
    }
}

/// Where the current token ends: the first unescaped delimiter among those
/// that are active. `:` always is; `,` iff `commas`; `=` iff `equals`.
pub open spec fn boundary(s: Seq<char>, commas: bool, equals: bool) -> Option<int> {
    let colon = find_unescaped(s, ':');
    let comma = if commas { earlier(colon, find_unescaped(s, ',')) } else { colon };
    if equals { earlier(comma, find_unescaped(s, '=')) } else { comma }
}

/// The length of the current token: up to its boundary, or to the end of the
/// text where there is none.
pub open spec fn token_len(s: Seq<char>, commas: bool, equals: bool) -> int {
    match boundary(s, commas, equals) {
        Some(i) => i,
        None => s.len() as int,
    }
}

/// What `find_from` returns is the least unescaped occurrence from `from` on.
pub proof fn lemma_find_from(s: Seq<char>, ch: char, from: int)
    requires
        0 <= from,
    ensures
        match find_from(s, ch, from) {
            Some(i) => from <= i < s.len() && bare_at(s, i, ch) && forall|j: int|
                from <= j < i ==> !bare_at(s, j, ch),
            None => forall|j: int| from <= j ==> !bare_at(s, j, ch),
        },
    decreases s.len() - from,
{
    if from < s.len() && !bare_at(s, from, ch) {
        lemma_find_from(s, ch, from + 1);
    }
}

/// A boundary lies inside the text.
pub proof fn lemma_boundary_in_range(s: Seq<char>, commas: bool, equals: bool)
    ensures
        boundary(s, commas, equals) matches Some(i) ==> 0 <= i < s.len(),
        0 <= token_len(s, commas, equals) <= s.len(),
{
    lemma_find_from(s, ':', 0);
    lemma_find_from(s, ',', 0);
    lemma_find_from(s, '=', 0);
}

/// The first unescaped `ch` in `v[start..]`, as an index from `start`.
pub fn find(v: &Vec<char>, start: usize, ch: char) -> (r: Option<usize>)
    requires
        start <= v.len(),
    ensures
        match r {
            Some(i) => find_unescaped(v@.skip(start as int), ch) == Some(i as int),
            None => find_unescaped(v@.skip(start as int), ch) is None,
        },
{
    let ghost s = v@.skip(start as int);
    let n: usize = v.len() - start;
    let mut i: usize = 0;
    let mut odd = false;
    while i < n
        invariant
            start <= v.len(),
            n == v.len() - start,
            s == v@.skip(start as int),
            i <= n,
            odd == (backslash_run(s, i as int) % 2 == 1),
            find_from(s, ch, 0) == find_from(s, ch, i as int),
        decreases n - i,
    {
        let c = v[start + i];
        assert(c == s[i as int]);
        if c == ch && !odd {
            return Some(i);
        }
        odd = c == '\\' && !odd;
        i += 1;
    }
    None
}

/// The index that comes first, where a missing one counts as beyond the end.
pub fn first_of(a: Option<usize>, b: Option<usize>) -> (r: Option<usize>)
    ensures
        as_int(r) == earlier(as_int(a), as_int(b)),
{
    match (a, b) {
        (Some(x), Some(y)) => Some(if x <= y { x } else { y }),
        (Some(x), None) => Some(x),
        (None, Some(y)) => Some(y),
        (None, None) => None,
    }
}

/// An optional machine index as an optional mathematical one.
pub open spec fn as_int(r: Option<usize>) -> Option<int> {
    match r {
        Some(i) => Some(i as int),
        None => None,
    }
}

/// The boundary of the token that starts at `v[start]`, as an index from
/// `start`.
pub fn find_boundary(v: &Vec<char>, start: usize, commas: bool, equals: bool) -> (r: Option<usize>)
    requires
        start <= v.len(),
    ensures
        as_int(r) == boundary(v@.skip(start as int), commas, equals),
{
    let mut idx = find(v, start, ':');
    if commas {
        idx = first_of(idx, find(v, start, ','));
    }
    if equals {
        idx = first_of(idx, find(v, start, '='));
    }
    idx
}

} // verus!
