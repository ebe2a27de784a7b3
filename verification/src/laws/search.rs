//! Looking values up in documents and searching documents for texts.

use crate::json::{
    all_nodes, any_text, array_field, entry_nodes, entry_values, field, first_named, has_text,
    lemma_entry_nodes, lookup, named_text, nodes, text_field, JsonView,
};
use vstd::prelude::*;

verus! {

/// The entry at this position is the first with this key.
pub open spec fn first_entry(
    entries: Seq<(Seq<char>, JsonView)>,
    key: Seq<char>,
    i: int,
) -> bool {
    &&& 0 <= i < entries.len()
    &&& entries[i].0 == key
    &&& forall|k: int| 0 <= k < i ==> (#[trigger] entries[k]).0 != key
}

/// A lookup gives the value of the first entry with the key, unchanged, and nothing
/// exactly if no entry has the key.
pub proof fn lookup_gives_the_first_entry(entries: Seq<(Seq<char>, JsonView)>, key: Seq<char>)
    ensures
        match lookup(entries, key) {
            Some(value) => exists|i: int| #[trigger]
                first_entry(entries, key, i) && entries[i].1 == value,
            None => forall|i: int| 0 <= i < entries.len() ==> (#[trigger] entries[i]).0 != key,
        },
    decreases entries.len(),
{
    if entries.len() > 0 {
        let rest = entries.drop_first();
        if entries[0].0 == key {
            assert(first_entry(entries, key, 0));
        } else {
            lookup_gives_the_first_entry(rest, key);
            match lookup(rest, key) {
                Some(value) => {
                    let i = choose|i: int| #[trigger]
                        first_entry(rest, key, i) && rest[i].1 == value;
                    assert forall|k: int| 0 <= k < i + 1 implies (#[trigger] entries[k]).0
                        != key by {
                        if k > 0 {
                            assert(entries[k] == rest[k - 1]);
                        }
                    }
                    assert(first_entry(entries, key, i + 1));
                },
                None => {
                    assert forall|i: int| 0 <= i < entries.len() implies (#[trigger] entries[i]).0
                        != key by {
                        if i > 0 {
                            assert(entries[i] == rest[i - 1]);
                        }
                    }
                },
            }
        }
    }
}

/// Only objects have values under keys; a text or an array under a key is found exactly
/// if that is what stands there.
pub proof fn fields_are_those_of_objects(value: JsonView, key: Seq<char>)
    ensures
        field(value, key) == match value {
            JsonView::Object(entries) => lookup(entries, key),
            _ => None,
        },
        forall|text: Seq<char>|
            text_field(value, key) == Some(text) <==> #[trigger] field(value, key) == Some(
                JsonView::Text(text),
            ),
        array_field(value, key) == match field(value, key) {
            Some(JsonView::Array(items)) => items,
            _ => Seq::empty(),
        },
{
}

/// The value holds this text under the key, and the text is not empty.
pub open spec fn holds(value: JsonView, key: Seq<char>, text: Seq<char>) -> bool {
    field(value, key) == Some(JsonView::Text(text)) && text.len() > 0
}

/// The value holds some text that is not empty under the key.
pub open spec fn holds_some(value: JsonView, key: Seq<char>) -> bool {
    field(value, key) matches Some(JsonView::Text(text)) && text.len() > 0
}

/// The text under this key is the first that the value holds.
pub open spec fn first_key(
    value: JsonView,
    keys: Seq<Seq<char>>,
    i: int,
    text: Seq<char>,
) -> bool {
    &&& 0 <= i < keys.len()
    &&& holds(value, keys[i], text)
    &&& forall|k: int| 0 <= k < i ==> !holds_some(value, #[trigger] keys[k])
}

/// Of several keys the first that holds a text counts, and the text is given as it
/// stands.
pub proof fn earlier_keys_win(value: JsonView, keys: Seq<Seq<char>>)
    ensures
        match named_text(value, keys) {
            Some(text) => exists|i: int| #[trigger] first_key(value, keys, i, text),
            None => forall|i: int| 0 <= i < keys.len() ==> !holds_some(value, #[trigger] keys[i]),
        },
    decreases keys.len(),
{
    if keys.len() > 0 {
        let rest = keys.drop_first();
        if holds_some(value, keys[0]) {
            assert(first_key(value, keys, 0, named_text(value, keys)->0));
        } else {
            earlier_keys_win(value, rest);
            match named_text(value, rest) {
                Some(text) => {
                    let i = choose|i: int| #[trigger] first_key(value, rest, i, text);
                    assert forall|k: int| 0 <= k < i + 1 implies !holds_some(
                        value,
                        #[trigger] keys[k],
                    ) by {
                        if k > 0 {
                            assert(keys[k] == rest[k - 1]);
                        }
                    }
                    assert(first_key(value, keys, i + 1, text));
                },
                None => {
                    assert forall|i: int| 0 <= i < keys.len() implies !holds_some(
                        value,
                        #[trigger] keys[i],
                    ) by {
                        if i > 0 {
                            assert(keys[i] == rest[i - 1]);
                        }
                    }
                },
            }
        }
    }
}

/// The value at this position is the first with a named text.
pub open spec fn first_value(
    values: Seq<JsonView>,
    keys: Seq<Seq<char>>,
    i: int,
    text: Seq<char>,
) -> bool {
    &&& 0 <= i < values.len()
    &&& named_text(values[i], keys) == Some(text)
    &&& forall|k: int| 0 <= k < i ==> named_text(#[trigger] values[k], keys) is None
}

/// Of several values the first with a named text counts.
pub proof fn earlier_values_win(values: Seq<JsonView>, keys: Seq<Seq<char>>)
    ensures
        match first_named(values, keys) {
            Some(text) => exists|i: int| #[trigger] first_value(values, keys, i, text),
            None => forall|i: int|
                0 <= i < values.len() ==> named_text(#[trigger] values[i], keys) is None,
        },
    decreases values.len(),
{
    if values.len() > 0 {
        let rest = values.drop_first();
        if named_text(values[0], keys) is Some {
            assert(first_value(values, keys, 0, named_text(values[0], keys)->0));
        } else {
            earlier_values_win(rest, keys);
            match first_named(rest, keys) {
                Some(text) => {
                    let i = choose|i: int| #[trigger] first_value(rest, keys, i, text);
                    assert forall|k: int| 0 <= k < i + 1 implies named_text(
                        #[trigger] values[k],
                        keys,
                    ) is None by {
                        if k > 0 {
                            assert(values[k] == rest[k - 1]);
                        }
                    }
                    assert(first_value(values, keys, i + 1, text));
                },
                None => {
                    assert forall|i: int| 0 <= i < values.len() implies named_text(
                        #[trigger] values[i],
                        keys,
                    ) is None by {
                        if i > 0 {
                            assert(values[i] == rest[i - 1]);
                        }
                    }
                },
            }
        }
    }
}

/// Some value holds a text under the key exactly if one of the values does.
pub proof fn any_text_under_the_key_counts(values: Seq<JsonView>, key: Seq<char>)
    ensures
        any_text(values, key) <==> exists|i: int|
            0 <= i < values.len() && holds_some(#[trigger] values[i], key),
{
    if any_text(values, key) {
        let i = choose|i: int| 0 <= i < values.len() && has_text(#[trigger] values[i], key);
        assert(holds_some(values[i], key));
    }
    if exists|i: int| 0 <= i < values.len() && holds_some(#[trigger] values[i], key) {
        let i = choose|i: int| 0 <= i < values.len() && holds_some(#[trigger] values[i], key);
        assert(has_text(values[i], key));
    }
}

/// A search takes values one after the other: what two lists hold is what the first holds
/// and then what the second does.
pub proof fn values_are_searched_in_order(a: Seq<JsonView>, b: Seq<JsonView>)
    ensures
        all_nodes(a + b) == all_nodes(a) + all_nodes(b),
    decreases b.len(),
{
    if b.len() == 0 {
        assert(a + b =~= a);
        assert(all_nodes(a) + all_nodes(b) =~= all_nodes(a));
    } else {
        assert((a + b).drop_last() =~= a + b.drop_last());
        values_are_searched_in_order(a, b.drop_last());
        assert(all_nodes(a + b) =~= all_nodes(a) + all_nodes(b));
    }
}

/// A search looks at a value before what it holds, and at all of that: the items of an
/// array and the values of an object, whatever their keys, down to the last.
pub proof fn search_goes_all_the_way_down(value: JsonView)
    ensures
        nodes(value).len() > 0,
        nodes(value)[0] == value,
        nodes(value).drop_first() == match value {
            JsonView::Array(items) => all_nodes(items),
            JsonView::Object(entries) => all_nodes(
                entries.map_values(|entry: (Seq<char>, JsonView)| entry.1),
            ),
            _ => Seq::empty(),
        },
        all_nodes(seq![value]) == nodes(value),
{
    assert(seq![value].drop_last() =~= Seq::empty());
    assert(all_nodes(seq![value].drop_last()) =~= Seq::empty());
    assert(all_nodes(seq![value]) =~= nodes(value));
    match value {
        JsonView::Array(items) => {
            assert(nodes(value).drop_first() =~= all_nodes(items));
        },
        JsonView::Object(entries) => {
            lemma_entry_nodes(entries);
            assert(nodes(value).drop_first() =~= entry_nodes(entries));
            assert(entry_values(entries) =~= entries.map_values(
                |entry: (Seq<char>, JsonView)| entry.1,
            ));
        },
        _ => {
            assert(nodes(value).drop_first() =~= Seq::empty());
        },
    }
}

/// Everything inside one of the values is inside all of them together.
pub(crate) proof fn lemma_node_of_one(values: Seq<JsonView>, i: int, node: JsonView)
    requires
        0 <= i < values.len(),
        nodes(values[i]).contains(node),
    ensures
        all_nodes(values).contains(node),
{
    let before = values.take(i);
    let after = values.skip(i + 1);
    assert(values =~= before + seq![values[i]] + after);
    values_are_searched_in_order(before + seq![values[i]], after);
    values_are_searched_in_order(before, seq![values[i]]);
    search_goes_all_the_way_down(values[i]);
    let k = choose|k: int| 0 <= k < nodes(values[i]).len() && nodes(values[i])[k] == node;
    assert(all_nodes(values)[all_nodes(before).len() + k] == node);
}

/// A search finds nothing exactly if no value anywhere holds a text under any of the keys.
pub proof fn search_fails_only_where_nothing_is(values: Seq<JsonView>, keys: Seq<Seq<char>>)
    ensures
        first_named(values, keys) is None <==> forall|i: int, k: int|
            0 <= i < values.len() && 0 <= k < keys.len() ==> !#[trigger] holds_some(
                values[i],
                keys[k],
            ),
{
    earlier_values_win(values, keys);
    if first_named(values, keys) is None {
        assert forall|i: int, k: int|
            0 <= i < values.len() && 0 <= k < keys.len() implies !#[trigger] holds_some(
            values[i],
            keys[k],
        ) by {
            earlier_keys_win(values[i], keys);
            assert(named_text(values[i], keys) is None);
        }
    } else {
        let text = first_named(values, keys)->0;
        let i = choose|i: int| #[trigger] first_value(values, keys, i, text);
        earlier_keys_win(values[i], keys);
        let k = choose|k: int| #[trigger] first_key(values[i], keys, k, text);
        assert(holds_some(values[i], keys[k]));
    }
}

} // verus!
