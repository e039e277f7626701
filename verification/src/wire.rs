use vstd::prelude::*;
use crate::codec::escape;
use crate::number::{decimal, signed_decimal};
use crate::resolve::{commas_active, equals_active, Scope};
use crate::value::Data;

verus! {

/// Whether a binary blob occurs anywhere in the value.
pub open spec fn has_bytes(d: Data) -> bool
    decreases d,
{
    match d {
        Data::Bytes(_) => true,
        Data::Present(inner) => has_bytes(*inner),
        Data::Sequence(items) => any_bytes(items, 0),
        Data::Struct(fields) => any_bytes(fields, 0),
        Data::Mapping(entries) => any_entry_bytes(entries, 0),
        Data::Variant(_, Some(payload)) => has_bytes(*payload),
        _ => false,
    }
}

/// Whether a binary blob occurs in one of the values from index `from` on.
pub open spec fn any_bytes(items: Seq<Data>, from: int) -> bool
    decreases items, items.len() - from,
{
    if from < 0 || from >= items.len() {
        false
    } else {
        has_bytes(items[from]) || any_bytes(items, from + 1)
    }
}

/// Whether a binary blob occurs in one of the entries from index `from` on.
pub open spec fn any_entry_bytes(entries: Seq<(Data, Data)>, from: int) -> bool
    decreases entries, entries.len() - from,
{
    if from < 0 || from >= entries.len() {
        false
    } else {
        has_bytes(entries[from].0) || has_bytes(entries[from].1) || any_entry_bytes(
            entries,
            from + 1,
        )
    }
}

/// The separator that is written before the element of index `index`:
/// none before the first.
pub open spec fn separator(index: int, delim: char) -> Seq<char> {
    if index > 0 {
        seq![delim]
    } else {
        Seq::empty()
    }
}

/// The text that a value is written as inside the composite `top`.
///
/// A scalar is written as its escaped text, a number in decimal, an absent
/// value and a unit as nothing. The elements of a sequence are separated by
/// `,`, the fields of a struct by `:`, the entries of a map by `,` and key
/// from value by `=`. A variant is written as its tag, and before its
/// payload a `:`. Nothing is ever written before the first element or behind
/// the last.
pub open spec fn wire(d: Data, top: Option<Scope>) -> Seq<char>
    decreases d,
{
    match d {
        Data::Bool(b) => bool_word(b),
        Data::Unsigned(n) => decimal(n),
        Data::Signed(n) => signed_decimal(n),
        Data::Char(c) => escape(seq![c], commas_active(top), equals_active(top)),
        Data::Text(s) => escape(s, commas_active(top), equals_active(top)),
        Data::Bytes(_) => Seq::empty(),
        Data::Unit => Seq::empty(),
        Data::Absent => Seq::empty(),
        Data::Present(inner) => wire(*inner, top),
        Data::Sequence(items) => wire_items(items, 0, ',', Scope::Sequence),
        Data::Struct(fields) => wire_items(fields, 0, ':', Scope::Struct),
        Data::Mapping(entries) => wire_entries(entries, 0),
        Data::Variant(tag, None) => escape(tag, commas_active(top), equals_active(top)),
        Data::Variant(tag, Some(payload)) => escape(tag, commas_active(top), equals_active(top))
            + seq![':'] + wire(*payload, top),
    }
}

/// The text of the elements from index `from` on, inside the composite
/// `scope`, each but the first of the composite preceded by `delim`.
pub open spec fn wire_items(items: Seq<Data>, from: int, delim: char, scope: Scope) -> Seq<char>
    decreases items, items.len() - from,
{
    if from < 0 || from >= items.len() {
        Seq::empty()
    } else {
        separator(from, delim) + wire(items[from], Some(scope)) + wire_items(
            items,
            from + 1,
            delim,
            scope,
        )
    }
}

/// The text of the map entries from index `from` on.
pub open spec fn wire_entries(entries: Seq<(Data, Data)>, from: int) -> Seq<char>
    decreases entries, entries.len() - from,
{
    if from < 0 || from >= entries.len() {
        Seq::empty()
    } else {
        separator(from, ',') + wire(entries[from].0, Some(Scope::Mapping)) + seq!['='] + wire(
            entries[from].1,
            Some(Scope::Mapping),
        ) + wire_entries(entries, from + 1)
    }
}

/// The word that a boolean is written as.
pub open spec fn bool_word(v: bool) -> Seq<char> {
    if v {
        seq!['t', 'r', 'u', 'e']
    } else {
        seq!['f', 'a', 'l', 's', 'e']
    }
}

} // verus!
