use vstd::prelude::*;
use crate::codec::escape;
use crate::cursor::{reached, true_word, Cursor, Stop};
use crate::grammar::{decode, parse, parse_elements, parse_entries, parse_parts, parse_variant};
use crate::err::Error;
use crate::laws::{
    is_delimiter, lemma_escape_start, lemma_escaped_has_no_bare, lemma_leading_decimal,
    lemma_leading_signed, lemma_read_escaped, spells_no_escape,
};
use crate::number::{decimal, is_digit, signed_decimal};
use crate::resolve::{bare_at, commas_active, equals_active, innermost, lemma_find_from, Scope};
use crate::wire::{bool_word, separator, wire, wire_entries, wire_items};
use crate::value::{Data, Schema, VariantSchema};

verus! {

/// The cursor at the start of `text`, inside the composites `scopes`.
pub open spec fn cursor(text: Seq<char>, scopes: Seq<Scope>) -> Cursor {
    Cursor { text, scopes }
}

/// What may follow a token inside the composite `top`: nothing, or one of
/// its delimiters.
pub open spec fn follows_token(rest: Seq<char>, top: Option<Scope>) -> bool {
    rest.len() == 0 || is_delimiter(rest[0], commas_active(top), equals_active(top))
}

/// What may follow a number: nothing, or anything but a digit.
pub open spec fn follows_number(rest: Seq<char>) -> bool {
    rest.len() == 0 || !is_digit(rest[0])
}

/// What may follow a sequence or a map: nothing, or a `:`.
pub open spec fn ends_composite(rest: Seq<char>) -> bool {
    rest.len() == 0 || rest[0] == ':'
}

/// Whether a present optional value can start with `text` inside the
/// composite `top`: with something, and not with a delimiter.
pub open spec fn starts_value(text: Seq<char>, top: Option<Scope>) -> bool {
    text.len() > 0 && !is_delimiter(text[0], commas_active(top), equals_active(top))
}

/// Whether the first element of a sequence or a map can start with `text`:
/// with something, and not with a `:`.
pub open spec fn starts_element(text: Seq<char>) -> bool {
    text.len() > 0 && text[0] != ':'
}

/// Whether the first part of a composite of a fixed number of parts, which
/// `delim` separates, can start with `text`.
pub open spec fn starts_part(text: Seq<char>, delim: char) -> bool {
    text.len() > 0 && (delim == ':' || text[0] != ':')
}

/// The index of the first variant from `from` on whose tag is `tag`.
pub open spec fn first_named(variants: Seq<VariantSchema>, tag: Seq<char>, from: int) -> Option<
    int,
>
    decreases variants.len() - from,
{
    if from < 0 || from >= variants.len() {
        None
    } else if variants[from].name@ == tag {
        Some(from)
    } else {
        first_named(variants, tag, from + 1)
    }
}

/// Whether the value `v`, written inside the composite `top` and followed
/// by `rest`, is read back as itself by a decoder that is told the shape
/// `schema`.
///
/// The format has no brackets, so not every value is: a text must not spell
/// an escape; a number must fit its width; what is optional and present must
/// be written as something; and every part must be followed by what ends it
/// and nothing inside it.
pub open spec fn faithful(v: Data, schema: Schema, top: Option<Scope>, rest: Seq<char>) -> bool
    decreases v,
{
    match (v, schema) {
        (Data::Bool(_), Schema::Bool) => true,
        (Data::Unsigned(n), Schema::Unsigned(width)) => n <= width.unsigned_high()
            && follows_number(rest),
        (Data::Signed(n), Schema::Signed(width)) => width.signed_low() <= n
            <= width.signed_high() && follows_number(rest),
        (Data::Char(_), Schema::Char) => follows_token(rest, top),
        (Data::Text(s), Schema::Text) => spells_no_escape(s) && follows_token(rest, top),
        (Data::Unit, Schema::Unit) => rest.len() == 0,
        (Data::Absent, Schema::Optional(_)) => follows_token(rest, top),
        (Data::Present(inner), Schema::Optional(shape)) => starts_value(
            wire(*inner, top) + rest,
            top,
        ) && faithful(*inner, *shape, top, rest),
        (Data::Sequence(items), Schema::Sequence(shape)) => ends_composite(rest) && (items.len()
            == 0 || starts_element(wire_items(items, 0, ',', Scope::Sequence) + rest))
            && faithful_items(items, 0, *shape, rest),
        (Data::Sequence(items), Schema::Tuple(shapes)) => items.len() == shapes.len() && (
        items.len() == 0 || starts_part(wire_items(items, 0, ',', Scope::Sequence) + rest, ','))
            && faithful_parts(items, shapes@, 0, ',', Scope::Sequence, rest),
        (Data::Struct(fields), Schema::Struct(shapes)) => fields.len() == shapes.len() && (
        fields.len() == 0 || starts_part(wire_items(fields, 0, ':', Scope::Struct) + rest, ':'))
            && faithful_parts(fields, shapes@, 0, ':', Scope::Struct, rest),
        (Data::Mapping(entries), Schema::Mapping(key_shape, value_shape)) => ends_composite(rest)
            && (entries.len() == 0 || starts_element(wire_entries(entries, 0) + rest))
            && faithful_entries(entries, 0, *key_shape, *value_shape, rest),
        (Data::Variant(tag, payload), Schema::Enum(variants)) => spells_no_escape(tag)
            && match first_named(variants@, tag, 0) {
            None => false,
            Some(i) => match (payload, variants@[i].payload) {
                (None, None) => rest.len() == 0 || (rest[0] != ':' && follows_token(rest, top)),
                (Some(inner), Some(shape)) => faithful(*inner, shape, top, rest),
                _ => false,
            },
        },
        _ => false,
    }
}

/// Whether each entry of a map from index `from` on is read back as itself,
/// followed by the entries behind it and then by `rest`.
///
/// Before a key is read, the `=` behind it must be in sight with no `,`
/// before it; before a value is read, no `=` must be in sight before the
/// next `,`.
pub open spec fn faithful_entries(
    entries: Seq<(Data, Data)>,
    from: int,
    key_shape: Schema,
    value_shape: Schema,
    rest: Seq<char>,
) -> bool
    decreases entries, entries.len() - from,
{
    if from < 0 || from >= entries.len() {
        true
    } else {
        let tail = wire_entries(entries, from + 1) + rest;
        let value_text = wire(entries[from].1, Some(Scope::Mapping)) + tail;
        let key_text = wire(entries[from].0, Some(Scope::Mapping)) + (seq!['='] + value_text);
        cursor(key_text, Seq::empty()).key_ahead() && faithful(
            entries[from].0,
            key_shape,
            Some(Scope::Mapping),
            seq!['='] + value_text,
        ) && cursor(value_text, Seq::empty()).value_ahead() && faithful(
            entries[from].1,
            value_shape,
            Some(Scope::Mapping),
            tail,
        ) && faithful_entries(entries, from + 1, key_shape, value_shape, rest)
    }
}

/// Whether each element of a sequence from index `from` on is read back as
/// itself, followed by the elements behind it and then by `rest`.
pub open spec fn faithful_items(items: Seq<Data>, from: int, shape: Schema, rest: Seq<char>) -> bool
    decreases items, items.len() - from,
{
    if from < 0 || from >= items.len() {
        true
    } else {
        faithful(
            items[from],
            shape,
            Some(Scope::Sequence),
            wire_items(items, from + 1, ',', Scope::Sequence) + rest,
        ) && faithful_items(items, from + 1, shape, rest)
    }
}

/// Whether each part from index `from` on of a composite of a fixed number
/// of parts is read back as itself, followed by the parts behind it and
/// then by `rest`.
pub open spec fn faithful_parts(
    items: Seq<Data>,
    shapes: Seq<Schema>,
    from: int,
    delim: char,
    scope: Scope,
    rest: Seq<char>,
) -> bool
    decreases items, items.len() - from,
{
    if from < 0 || from >= items.len() || from >= shapes.len() {
        true
    } else {
        faithful(
            items[from],
            shapes[from],
            Some(scope),
            wire_items(items, from + 1, delim, scope) + rest,
        ) && faithful_parts(items, shapes, from + 1, delim, scope, rest)
    }
}

/// A scalar that is faithful is read back as itself.
pub proof fn lemma_scalar_round_trip(v: Data, schema: Schema, scopes: Seq<Scope>, rest: Seq<char>)
    requires
        faithful(v, schema, innermost(scopes), rest),
        v is Bool || v is Unsigned || v is Signed || v is Char || v is Text || v is Unit
            || v is Absent,
    ensures
        reached(
            parse(schema, cursor(wire(v, innermost(scopes)) + rest, scopes)),
            v,
            cursor(rest, scopes),
        ),
{
    let top = innermost(scopes);
    let text = wire(v, top) + rest;
    let c = cursor(text, scopes);
    match v {
        Data::Bool(b) => {
            let word = bool_word(b);
            assert(text.take(word.len() as int) == word);
            assert(text.skip(word.len() as int) == rest);
            if !b {
                assert(text[0] == 'f');
                if c.starts_with(true_word()) {
                    assert(text.take(4)[0] == true_word()[0]);
                }
            }
        },
        Data::Unsigned(n) => {
            lemma_leading_decimal(n, rest);
            assert(text.skip(decimal(n).len() as int) == rest);
        },
        Data::Signed(n) => {
            match schema {
                Schema::Signed(width) => {
                    lemma_leading_signed(n, width.signed_low(), width.signed_high(), rest);
                },
                _ => {},
            }
            assert(text.skip(signed_decimal(n).len() as int) == rest);
        },
        Data::Char(ch) => {
            assert(spells_no_escape(seq![ch]));
            lemma_read_escaped(seq![ch], rest, scopes);
        },
        Data::Text(s) => {
            lemma_read_escaped(s, rest, scopes);
        },
        Data::Unit => {
            assert(text == rest);
        },
        Data::Absent => {
            assert(text == rest);
        },
        _ => {},
    }
}

/// A value that is faithful is read back as itself, and the cursor stops
/// behind it, inside the composites it started in.
pub proof fn lemma_round_trip(v: Data, schema: Schema, scopes: Seq<Scope>, rest: Seq<char>)
    requires
        faithful(v, schema, innermost(scopes), rest),
    ensures
        reached(
            parse(schema, cursor(wire(v, innermost(scopes)) + rest, scopes)),
            v,
            cursor(rest, scopes),
        ),
    decreases v, 0int,
{
    let top = innermost(scopes);
    let text = wire(v, top) + rest;
    match (v, schema) {
        (Data::Present(inner), Schema::Optional(shape)) => {
            lemma_round_trip(*inner, *shape, scopes, rest);
        },
        (Data::Sequence(items), Schema::Sequence(shape)) => {
            let inside = scopes.push(Scope::Sequence);
            assert(inside.drop_last() == scopes);
            lemma_items_round_trip(items, 0, schema, inside, rest);
            assert(items.skip(0) == items);
        },
        (Data::Sequence(items), Schema::Tuple(shapes)) => {
            let inside = scopes.push(Scope::Sequence);
            assert(inside.drop_last() == scopes);
            lemma_parts_round_trip(items, shapes@, 0, ',', Scope::Sequence, inside, rest);
            assert(items.skip(0) == items);
        },
        (Data::Struct(fields), Schema::Struct(shapes)) => {
            let inside = scopes.push(Scope::Struct);
            assert(inside.drop_last() == scopes);
            lemma_parts_round_trip(fields, shapes@, 0, ':', Scope::Struct, inside, rest);
            assert(fields.skip(0) == fields);
        },
        (Data::Mapping(entries), Schema::Mapping(key_shape, value_shape)) => {
            let inside = scopes.push(Scope::Mapping);
            assert(inside.drop_last() == scopes);
            lemma_entries_round_trip(entries, 0, schema, inside, rest);
            assert(entries.skip(0) == entries);
        },
        (Data::Variant(tag, payload), Schema::Enum(variants)) => {
            let i = first_named(variants@, tag, 0)->0;
            let commas = commas_active(top);
            let equals = equals_active(top);
            let behind = match payload {
                Some(inner) => seq![':'] + (wire(*inner, top) + rest),
                None => rest,
            };
            assert(text == escape(tag, commas, equals) + behind);
            lemma_read_escaped(tag, behind, scopes);
            let c = cursor(text, scopes);
            lemma_first_named(variants@, tag, 0);
            match payload {
                Some(inner) => {
                    assert(behind.skip(1) == wire(*inner, top) + rest);
                    let at = cursor(wire(*inner, top) + rest, scopes);
                    assert(c.read_tag() == (tag, at));
                    lemma_parse_variant(variants@, 0, tag, at);
                    lemma_round_trip(*inner, variants@[i].payload->0, scopes, rest);
                },
                None => {
                    let at = cursor(rest, scopes);
                    assert(c.read_tag() == (tag, at));
                    lemma_parse_variant(variants@, 0, tag, at);
                },
            }
        },
        _ => {
            lemma_scalar_round_trip(v, schema, scopes, rest);
        },
    }
}

/// The first variant of a given tag has that tag, and none before it has.
pub proof fn lemma_first_named(variants: Seq<VariantSchema>, tag: Seq<char>, from: int)
    requires
        0 <= from,
    ensures
        first_named(variants, tag, from) matches Some(i) ==> from <= i < variants.len()
            && variants[i].name@ == tag,
    decreases variants.len() - from,
{
    if from < variants.len() && variants[from].name@ != tag {
        lemma_first_named(variants, tag, from + 1);
    }
}

/// A tag is read as the first variant that has it: with that variant's
/// payload, or with none if the variant has none. A tag that no variant
/// has is not part of the enum.
pub proof fn lemma_parse_variant(variants: Seq<VariantSchema>, from: int, tag: Seq<char>, c: Cursor)
    requires
        0 <= from,
    ensures
        parse_variant(variants, from, tag, c) == match first_named(variants, tag, from) {
            None => Err::<(Data, Cursor), Stop>((Stop { error: Error::ExpectedEnum, at: c })),
            Some(i) => match variants[i].payload {
                None => Ok((Data::Variant(tag, None), c)),
                Some(shape) => match parse(shape, c) {
                    Ok((d, end)) => Ok((Data::Variant(tag, Some(Box::new(d))), end)),
                    Err(stop) => Err(stop),
                },
            },
        },
    decreases variants.len() - from,
{
    if from < variants.len() && variants[from].name@ != tag {
        lemma_parse_variant(variants, from + 1, tag, c);
    }
}

/// The entries of a faithful map from index `from` on are read back as
/// themselves.
pub proof fn lemma_entries_round_trip(
    entries: Seq<(Data, Data)>,
    from: int,
    schema: Schema,
    scopes: Seq<Scope>,
    rest: Seq<char>,
)
    requires
        0 <= from <= entries.len(),
        schema is Mapping,
        innermost(scopes) == Some(Scope::Mapping),
        ends_composite(rest),
        from == 0 ==> entries.len() == 0 || starts_element(wire_entries(entries, 0) + rest),
        faithful_entries(entries, from, *schema->Mapping_0, *schema->Mapping_1, rest),
    ensures
        reached(
            parse_entries(schema, cursor(wire_entries(entries, from) + rest, scopes), from == 0),
            entries.skip(from),
            cursor(rest, scopes),
        ),
    decreases entries, entries.len() - from,
{
    let text = wire_entries(entries, from) + rest;
    let c = cursor(text, scopes);
    if from >= entries.len() {
        assert(text == rest);
        assert(entries.skip(from) == Seq::<(Data, Data)>::empty());
    } else {
        let key_shape = *schema->Mapping_0;
        let value_shape = *schema->Mapping_1;
        let key = wire(entries[from].0, Some(Scope::Mapping));
        let value = wire(entries[from].1, Some(Scope::Mapping));
        let tail = wire_entries(entries, from + 1) + rest;
        let value_text = value + tail;
        let key_text = key + (seq!['='] + value_text);
        assert(text == separator(from, ',') + key_text);
        let at_key = cursor(key_text, scopes);
        if from == 0 {
            assert(text == key_text);
        } else {
            assert(text[0] == ',');
            assert(text.skip(1) == key_text);
        }
        assert(at_key.key_ahead() == cursor(key_text, Seq::empty()).key_ahead());
        assert(c.next_key(from == 0) == Ok::<(bool, Cursor), Stop>((true, at_key)));
        lemma_round_trip(entries[from].0, key_shape, scopes, seq!['='] + value_text);
        let at_equals = cursor(seq!['='] + value_text, scopes);
        let at_value = cursor(value_text, scopes);
        assert(at_equals.text[0] == '=');
        assert(at_equals.text.skip(1) == value_text);
        assert(at_value.value_ahead() == cursor(value_text, Seq::empty()).value_ahead());
        assert(at_equals.next_value() == Ok::<Cursor, Stop>(at_value));
        lemma_round_trip(entries[from].1, value_shape, scopes, tail);
        lemma_entries_round_trip(entries, from + 1, schema, scopes, rest);
        assert(seq![entries[from]] + entries.skip(from + 1) == entries.skip(from));
    }
}

/// The elements of a faithful sequence from index `from` on are read back
/// as themselves.
pub proof fn lemma_items_round_trip(
    items: Seq<Data>,
    from: int,
    schema: Schema,
    scopes: Seq<Scope>,
    rest: Seq<char>,
)
    requires
        0 <= from <= items.len(),
        schema is Sequence,
        innermost(scopes) == Some(Scope::Sequence),
        ends_composite(rest),
        from == 0 ==> items.len() == 0 || starts_element(
            wire_items(items, 0, ',', Scope::Sequence) + rest,
        ),
        faithful_items(items, from, *schema->Sequence_0, rest),
    ensures
        reached(
            parse_elements(
                schema,
                cursor(wire_items(items, from, ',', Scope::Sequence) + rest, scopes),
                from == 0,
            ),
            items.skip(from),
            cursor(rest, scopes),
        ),
    decreases items, items.len() - from,
{
    let text = wire_items(items, from, ',', Scope::Sequence) + rest;
    let c = cursor(text, scopes);
    if from >= items.len() {
        assert(text == rest);
        assert(items.skip(from) == Seq::<Data>::empty());
    } else {
        let shape = *schema->Sequence_0;
        let item = wire(items[from], Some(Scope::Sequence));
        let tail = wire_items(items, from + 1, ',', Scope::Sequence) + rest;
        assert(text == separator(from, ',') + (item + tail));
        let at = cursor(item + tail, scopes);
        if from == 0 {
            assert(text == item + tail);
        } else {
            assert(text[0] == ',');
            assert(text.skip(1) == item + tail);
        }
        assert(c.next_element(from == 0, ',') == Ok::<(bool, Cursor), Error>((true, at)));
        lemma_round_trip(items[from], shape, scopes, tail);
        lemma_items_round_trip(items, from + 1, schema, scopes, rest);
        assert(seq![items[from]] + items.skip(from + 1) == items.skip(from));
    }
}

/// The parts of a faithful tuple or struct from index `from` on are read
/// back as themselves.
pub proof fn lemma_parts_round_trip(
    items: Seq<Data>,
    shapes: Seq<Schema>,
    from: int,
    delim: char,
    scope: Scope,
    scopes: Seq<Scope>,
    rest: Seq<char>,
)
    requires
        0 <= from <= items.len(),
        items.len() == shapes.len(),
        delim == ',' || delim == ':',
        innermost(scopes) == Some(scope),
        from == 0 ==> items.len() == 0 || starts_part(
            wire_items(items, 0, delim, scope) + rest,
            delim,
        ),
        faithful_parts(items, shapes, from, delim, scope, rest),
    ensures
        reached(
            parse_parts(
                shapes,
                from,
                delim,
                cursor(wire_items(items, from, delim, scope) + rest, scopes),
            ),
            items.skip(from),
            cursor(rest, scopes),
        ),
    decreases items, items.len() - from,
{
    let text = wire_items(items, from, delim, scope) + rest;
    let c = cursor(text, scopes);
    if from >= items.len() {
        assert(text == rest);
        assert(items.skip(from) == Seq::<Data>::empty());
    } else {
        let item = wire(items[from], Some(scope));
        let tail = wire_items(items, from + 1, delim, scope) + rest;
        assert(text == separator(from, delim) + (item + tail));
        let at = cursor(item + tail, scopes);
        if from == 0 {
            assert(text == item + tail);
        } else {
            assert(text[0] == delim);
            assert(text.skip(1) == item + tail);
        }
        assert(c.next_element(from == 0, delim) == Ok::<(bool, Cursor), Error>((true, at)));
        lemma_round_trip(items[from], shapes[from], scopes, tail);
        lemma_parts_round_trip(items, shapes, from + 1, delim, scope, scopes, rest);
        assert(seq![items[from]] + items.skip(from + 1) == items.skip(from));
    }
}

/// What is written is read back: the line of a value that is faithful at
/// the top of a record, outside any composite and with nothing behind it,
/// decodes to that value.
pub proof fn lemma_decode_wire(v: Data, schema: Schema)
    requires
        faithful(v, schema, None, Seq::empty()),
    ensures
        decode(schema, wire(v, None)) == Ok::<Data, Error>(v),
{
    let scopes = Seq::<Scope>::empty();
    lemma_round_trip(v, schema, scopes, Seq::empty());
    assert(wire(v, None) + Seq::<char>::empty() == wire(v, None));
}

/// The texts of a list, each as a value.
pub open spec fn texts(items: Seq<Seq<char>>) -> Seq<Data> {
    Seq::new(items.len(), |i: int| Data::Text(items[i]))
}

/// The pairs of texts of a list, each as a map entry.
pub open spec fn text_entries(entries: Seq<(Seq<char>, Seq<char>)>) -> Seq<(Data, Data)> {
    Seq::new(entries.len(), |i: int| (Data::Text(entries[i].0), Data::Text(entries[i].1)))
}

/// What is written for the elements of a list from index `from` on is
/// nothing, or starts with a `,`, unless the list starts there.
proof fn lemma_items_tail(items: Seq<Data>, from: int)
    requires
        0 < from,
    ensures
        follows_token(wire_items(items, from, ',', Scope::Sequence), Some(Scope::Sequence)),
        wire_items(items, from, ',', Scope::Sequence).len() > 0 ==> wire_items(
            items,
            from,
            ',',
            Scope::Sequence,
        )[0] == ',',
        from < items.len() ==> wire_items(items, from, ',', Scope::Sequence).len() > 0,
{
    if from < items.len() {
        let w = wire_items(items, from, ',', Scope::Sequence);
        assert(w[0] == separator(from, ',')[0]);
    }
}

/// What is written for the entries of a map from index `from` on is
/// nothing, or starts with a `,`, unless the map starts there.
proof fn lemma_entries_tail(entries: Seq<(Data, Data)>, from: int)
    requires
        0 < from,
    ensures
        wire_entries(entries, from).len() > 0 ==> wire_entries(entries, from)[0] == ',',
        from < entries.len() ==> wire_entries(entries, from).len() > 0,
        from >= entries.len() ==> wire_entries(entries, from).len() == 0,
{
    if from < entries.len() {
        let w = wire_entries(entries, from);
        assert(w[0] == separator(from, ',')[0]);
    }
}

/// Every list of texts is read back from its line, as long as no text
/// spells an escape and the line is not empty: the list of one empty text
/// is written as nothing, and nothing is read as the empty list.
pub proof fn lemma_texts_round_trip(items: Seq<Seq<char>>)
    requires
        forall|i: int| 0 <= i < items.len() ==> spells_no_escape(#[trigger] items[i]),
        !(items.len() == 1 && items[0].len() == 0),
    ensures
        decode(Schema::Sequence(Box::new(Schema::Text)), wire(Data::Sequence(texts(items)), None))
            == Ok::<Data, Error>(Data::Sequence(texts(items))),
{
    let data = texts(items);
    let rest = Seq::<char>::empty();
    lemma_texts_faithful(items, 0);
    if items.len() > 0 {
        let line = wire_items(data, 0, ',', Scope::Sequence);
        let first = wire(data[0], Some(Scope::Sequence));
        let behind = wire_items(data, 1, ',', Scope::Sequence);
        assert(line == first + behind) by {
            assert(separator(0, ',') + first == first);
        }
        if items[0].len() > 0 {
            lemma_escape_start(items[0], true, false);
            assert(line[0] == first[0]);
        } else {
            assert(first.len() == 0);
            lemma_items_tail(data, 1);
            assert(line == behind);
        }
        assert(line + rest == line);
    }
    lemma_decode_wire(Data::Sequence(data), Schema::Sequence(Box::new(Schema::Text)));
}

/// Each text of a list is faithful as an element of the list.
proof fn lemma_texts_faithful(items: Seq<Seq<char>>, from: int)
    requires
        0 <= from,
        forall|i: int| 0 <= i < items.len() ==> spells_no_escape(#[trigger] items[i]),
    ensures
        faithful_items(texts(items), from, Schema::Text, Seq::empty()),
    decreases items.len() - from,
{
    if from < items.len() {
        lemma_texts_faithful(items, from + 1);
        let data = texts(items);
        let tail = wire_items(data, from + 1, ',', Scope::Sequence);
        lemma_items_tail(data, from + 1);
        assert(tail + Seq::<char>::empty() == tail);
        assert(spells_no_escape(items[from]));
        assert(data[from] == Data::Text(items[from]));
        assert(follows_token(tail, Some(Scope::Sequence)));
        assert(faithful(data[from], Schema::Text, Some(Scope::Sequence), tail));
    }
}

/// Every map from texts to texts is read back from its line, as long as no
/// key and no value spells an escape: whichever of `:`, `,`, `=`, backslash
/// and line break they hold.
pub proof fn lemma_text_map_round_trip(entries: Seq<(Seq<char>, Seq<char>)>)
    requires
        forall|i: int|
            0 <= i < entries.len() ==> spells_no_escape((#[trigger] entries[i]).0)
                && spells_no_escape(entries[i].1),
    ensures
        decode(
            Schema::Mapping(Box::new(Schema::Text), Box::new(Schema::Text)),
            wire(Data::Mapping(text_entries(entries)), None),
        ) == Ok::<Data, Error>(Data::Mapping(text_entries(entries))),
{
    let data = text_entries(entries);
    let rest = Seq::<char>::empty();
    lemma_text_entries_faithful(entries, 0);
    if entries.len() > 0 {
        let line = wire_entries(data, 0);
        let key = wire(data[0].0, Some(Scope::Mapping));
        assert(separator(0, ',') + key == key);
        if entries[0].0.len() > 0 {
            lemma_escape_start(entries[0].0, true, true);
            assert(line[0] == key[0]);
        } else {
            assert(key.len() == 0);
            assert(line[0] == '=');
        }
        assert(line + rest == line);
    }
    lemma_decode_wire(
        Data::Mapping(data),
        Schema::Mapping(Box::new(Schema::Text), Box::new(Schema::Text)),
    );
}

/// Each entry of a map of texts is faithful as an entry of the map.
proof fn lemma_text_entries_faithful(entries: Seq<(Seq<char>, Seq<char>)>, from: int)
    requires
        0 <= from,
        forall|i: int|
            0 <= i < entries.len() ==> spells_no_escape((#[trigger] entries[i]).0)
                && spells_no_escape(entries[i].1),
    ensures
        faithful_entries(text_entries(entries), from, Schema::Text, Schema::Text, Seq::empty()),
    decreases entries.len() - from,
{
    if from < entries.len() {
        lemma_text_entries_faithful(entries, from + 1);
        let data = text_entries(entries);
        let k = entries[from].0;
        let v = entries[from].1;
        assert(spells_no_escape(k) && spells_no_escape(v));
        let behind = wire_entries(data, from + 1);
        lemma_entries_tail(data, from + 1);
        let tail = behind + Seq::<char>::empty();
        assert(tail == behind);
        let key = escape(k, true, true);
        let value = escape(v, true, true);
        let value_text = value + tail;
        let after_key = seq!['='] + value_text;
        let key_text = key + after_key;
        // The `=` behind the key is the first one unescaped, with no `,` before it.
        lemma_escaped_has_no_bare(k, after_key, true, true);
        lemma_find_from(key_text, '=', 0);
        lemma_find_from(key_text, ',', 0);
        assert(cursor(key_text, Seq::empty()).key_ahead()) by {
            assert(bare_at(key_text, key.len() as int, '='));
            assert(is_delimiter('=', true, true) && is_delimiter(',', true, true));
        }
        // No `=` stands unescaped in the value, and what follows starts with a `,`.
        lemma_escaped_has_no_bare(v, tail, true, true);
        lemma_find_from(value_text, '=', 0);
        lemma_find_from(value_text, ',', 0);
        assert(cursor(value_text, Seq::empty()).value_ahead()) by {
            assert(is_delimiter('=', true, true) && is_delimiter(',', true, true));
            if tail.len() > 0 {
                assert(bare_at(value_text, value.len() as int, ','));
            } else {
                assert(value_text == value);
            }
        }
        assert(data[from] == (Data::Text(k), Data::Text(v)));
        assert(wire(data[from].0, Some(Scope::Mapping)) == key);
        assert(wire(data[from].1, Some(Scope::Mapping)) == value);
        assert(follows_token(after_key, Some(Scope::Mapping)));
        assert(follows_token(tail, Some(Scope::Mapping)));
        assert(faithful(data[from].0, Schema::Text, Some(Scope::Mapping), after_key));
        assert(faithful(data[from].1, Schema::Text, Some(Scope::Mapping), tail));
    }
}

} // verus!
