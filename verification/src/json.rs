//! JSON documents: the library's own form, how they are read from text, and how
//! values are looked up in them.

use crate::text::{same_text, text_before};
use vstd::prelude::*;

verus! {

/// A JSON value. An object keeps its entries in ascending order of their keys; a
/// number keeps its text.
#[derive(Debug, PartialEq, Eq)]
pub enum Json {
    Null,
    Bool(bool),
    Number(String),
    Text(String),
    Array(Vec<Json>),
    Object(Vec<(String, Json)>),
}

/// What a [`Json`] stands for.
pub enum JsonView {
    Null,
    Bool(bool),
    Number(Seq<char>),
    Text(Seq<char>),
    Array(Seq<JsonView>),
    Object(Seq<(Seq<char>, JsonView)>),
}

impl DeepView for Json {
    type V = JsonView;

    open spec fn deep_view(&self) -> JsonView {
        json_view(*self)
    }
}

/// The view of a value.
pub open spec fn json_view(value: Json) -> JsonView
    decreases value,
{
    match value {
        Json::Null => JsonView::Null,
        Json::Bool(flag) => JsonView::Bool(flag),
        Json::Number(text) => JsonView::Number(text@),
        Json::Text(text) => JsonView::Text(text@),
        Json::Array(items) => JsonView::Array(items_view(items@)),
        Json::Object(entries) => JsonView::Object(entries_view(entries@)),
    }
}

/// The views of the items of an array.
pub open spec fn items_view(items: Seq<Json>) -> Seq<JsonView>
    decreases items,
{
    if items.len() == 0 {
        Seq::empty()
    } else {
        items_view(items.drop_last()).push(json_view(items.last()))
    }
}

/// The views of the entries of an object.
pub open spec fn entries_view(entries: Seq<(String, Json)>) -> Seq<(Seq<char>, JsonView)>
    decreases entries,
{
    if entries.len() == 0 {
        Seq::empty()
    } else {
        entries_view(entries.drop_last()).push((entries.last().0@, json_view(entries.last().1)))
    }
}

/// The value of the first entry with this key.
pub open spec fn lookup(entries: Seq<(Seq<char>, JsonView)>, key: Seq<char>) -> Option<JsonView>
    decreases entries.len(),
{
    if entries.len() == 0 {
        None
    } else if entries[0].0 == key {
        Some(entries[0].1)
    } else {
        lookup(entries.drop_first(), key)
    }
}

/// The value of a key, if the value is an object that has it.
pub open spec fn field(value: JsonView, key: Seq<char>) -> Option<JsonView> {
    match value {
        JsonView::Object(entries) => lookup(entries, key),
        _ => None,
    }
}

/// The text of a key, if the value is an object that has a text there.
pub open spec fn text_field(value: JsonView, key: Seq<char>) -> Option<Seq<char>> {
    match field(value, key) {
        Some(JsonView::Text(text)) => Some(text),
        _ => None,
    }
}

/// The items of the array under a key; none if there is no array.
pub open spec fn array_field(value: JsonView, key: Seq<char>) -> Seq<JsonView> {
    match field(value, key) {
        Some(JsonView::Array(items)) => items,
        _ => Seq::empty(),
    }
}

/// The value is an object that has a text that is not empty under this key.
pub open spec fn has_text(value: JsonView, key: Seq<char>) -> bool {
    text_field(value, key) matches Some(text) && text.len() > 0
}

/// The value and everything inside it: each value before what it holds, and what
/// it holds in order.
pub open spec fn nodes(value: JsonView) -> Seq<JsonView>
    decreases value,
{
    match value {
        JsonView::Array(items) => seq![value] + all_nodes(items),
        JsonView::Object(entries) => seq![value] + entry_nodes(entries),
        _ => seq![value],
    }
}

/// The nodes of several values, one value after the other.
pub open spec fn all_nodes(values: Seq<JsonView>) -> Seq<JsonView>
    decreases values,
{
    if values.len() == 0 {
        Seq::empty()
    } else {
        all_nodes(values.drop_last()) + nodes(values.last())
    }
}

/// The nodes of the values of several entries, one entry after the other.
pub open spec fn entry_nodes(entries: Seq<(Seq<char>, JsonView)>) -> Seq<JsonView>
    decreases entries,
{
    if entries.len() == 0 {
        Seq::empty()
    } else {
        entry_nodes(entries.drop_last()) + nodes(entries.last().1)
    }
}

/// The first text that is not empty under one of the keys, taken in order.
pub open spec fn named_text(value: JsonView, keys: Seq<Seq<char>>) -> Option<Seq<char>>
    decreases keys.len(),
{
    if keys.len() == 0 {
        None
    } else if has_text(value, keys[0]) {
        text_field(value, keys[0])
    } else {
        named_text(value, keys.drop_first())
    }
}

/// The named text of the first of several values that has one.
pub open spec fn first_named(values: Seq<JsonView>, keys: Seq<Seq<char>>) -> Option<Seq<char>>
    decreases values.len(),
{
    if values.len() == 0 {
        None
    } else if named_text(values[0], keys) is Some {
        named_text(values[0], keys)
    } else {
        first_named(values.drop_first(), keys)
    }
}

/// The keys of every object in the value ascend, so that no key occurs twice.
pub open spec fn well_formed(value: JsonView) -> bool {
    all_ascend(nodes(value))
}

/// The keys of each object among the values ascend.
pub open spec fn all_ascend(values: Seq<JsonView>) -> bool {
    forall|i: int| 0 <= i < values.len() ==> keys_ascend(#[trigger] values[i])
}

/// If the value is an object, its keys ascend.
pub open spec fn keys_ascend(value: JsonView) -> bool {
    value matches JsonView::Object(entries) ==> forall|i: int, j: int|
        0 <= i < j < entries.len() ==> text_before(#[trigger] entries[i].0, #[trigger] entries[j].0)
}

pub(crate) proof fn lemma_items_view(items: Seq<Json>)
    ensures
        items_view(items).len() == items.len(),
        forall|i: int|
            0 <= i < items.len() ==> #[trigger] items_view(items)[i] == json_view(items[i]),
    decreases items.len(),
{
    if items.len() > 0 {
        lemma_items_view(items.drop_last());
    }
}

pub(crate) proof fn lemma_entries_view(entries: Seq<(String, Json)>)
    ensures
        entries_view(entries).len() == entries.len(),
        forall|i: int|
            0 <= i < entries.len() ==> #[trigger] entries_view(entries)[i] == (
                entries[i].0@,
                json_view(entries[i].1),
            ),
    decreases entries.len(),
{
    if entries.len() > 0 {
        lemma_entries_view(entries.drop_last());
    }
}

proof fn lemma_first_named_concat(a: Seq<JsonView>, b: Seq<JsonView>, keys: Seq<Seq<char>>)
    ensures
        first_named(a + b, keys) == (if first_named(a, keys) is Some {
            first_named(a, keys)
        } else {
            first_named(b, keys)
        }),
    decreases a.len(),
{
    if a.len() == 0 {
        assert(a + b =~= b);
    } else {
        assert((a + b).drop_first() =~= a.drop_first() + b);
        lemma_first_named_concat(a.drop_first(), b, keys);
    }
}

/// Entries with other keys in front do not matter for a lookup.
proof fn lemma_lookup_skip(entries: Seq<(Seq<char>, JsonView)>, key: Seq<char>, n: int)
    requires
        0 <= n <= entries.len(),
        forall|k: int| 0 <= k < n ==> (#[trigger] entries[k]).0 != key,
    ensures
        lookup(entries, key) == lookup(entries.skip(n), key),
    decreases n,
{
    if n == 0 {
        assert(entries.skip(0) =~= entries);
    } else {
        lemma_lookup_skip(entries.drop_first(), key, n - 1);
        assert(entries.drop_first().skip(n - 1) =~= entries.skip(n));
    }
}

impl Json {
    /// The value of a key, if this is an object that has it.
    pub fn get(&self, key: &str) -> (found: Option<&Json>)
        ensures
            found.deep_view() == field(self.deep_view(), key@),
    {
        match self {
            Json::Object(entries) => find_entry(entries, key),
            _ => None,
        }
    }

    /// The text, if this is one.
    pub fn as_text(&self) -> (text: Option<&str>)
        ensures
            text.deep_view() == (match self.deep_view() {
                JsonView::Text(text) => Some(text),
                _ => None,
            }),
    {
        match self {
            Json::Text(text) => Some(text.as_str()),
            _ => None,
        }
    }

    /// The text of a key, if this is an object that has a text there.
    pub fn get_text(&self, key: &str) -> (text: Option<&str>)
        ensures
            text.deep_view() == text_field(self.deep_view(), key@),
    {
        match self.get(key) {
            Some(value) => value.as_text(),
            None => None,
        }
    }

    /// Tells whether this is an object that holds exactly `true` under the key.
    pub fn is_true(&self, key: &str) -> (yes: bool)
        ensures
            yes == (field(self.deep_view(), key@) == Some(JsonView::Bool(true))),
    {
        match self.get(key) {
            Some(Json::Bool(flag)) => *flag,
            _ => false,
        }
    }
}

impl Clone for Json {
    fn clone(&self) -> (copy: Json)
        ensures
            copy.deep_view() == self.deep_view(),
        decreases self,
    {
        match self {
            Json::Null => Json::Null,
            Json::Bool(flag) => Json::Bool(*flag),
            Json::Number(text) => Json::Number(text.clone()),
            Json::Text(text) => Json::Text(text.clone()),
            Json::Array(items) => {
                let mut out: Vec<Json> = Vec::new();
                let mut i: usize = 0;
                while i < items.len()
                    invariant
                        *self == Json::Array(*items),
                        i <= items@.len(),
                        items_view(out@) == items_view(items@.take(i as int)),
                    decreases items@.len() - i,
                {
                    let ghost before = out@;
                    assert(decreases_to!(*self => self->Array_0));
                    assert(decreases_to!(*items => items@));
                    assert(decreases_to!(items@ => items@[i as int]));
                    out.push(items[i].clone());
                    assert(out@.drop_last() == before);
                    assert(items@.take(i + 1).drop_last() =~= items@.take(i as int));
                    i += 1;
                }
                assert(items@.take(i as int) =~= items@);
                Json::Array(out)
            },
            Json::Object(entries) => {
                let mut out: Vec<(String, Json)> = Vec::new();
                let mut i: usize = 0;
                while i < entries.len()
                    invariant
                        *self == Json::Object(*entries),
                        i <= entries@.len(),
                        entries_view(out@) == entries_view(entries@.take(i as int)),
                    decreases entries@.len() - i,
                {
                    let ghost before = out@;
                    assert(decreases_to!(*self => self->Object_0));
                    assert(decreases_to!(*entries => entries@));
                    assert(decreases_to!(entries@ => entries@[i as int]));
                    assert(decreases_to!(entries@[i as int] => entries@[i as int].1));
                    out.push((entries[i].0.clone(), entries[i].1.clone()));
                    assert(out@.drop_last() == before);
                    assert(entries@.take(i + 1).drop_last() =~= entries@.take(i as int));
                    i += 1;
                }
                assert(entries@.take(i as int) =~= entries@);
                Json::Object(out)
            },
        }
    }
}

/// The value of the first entry with this key.
pub fn find_entry<'a>(entries: &'a Vec<(String, Json)>, key: &str) -> (found: Option<&'a Json>)
    ensures
        found.deep_view() == lookup(entries_view(entries@), key@),
{
    proof {
        lemma_entries_view(entries@);
    }
    let ghost view = entries_view(entries@);
    let mut i: usize = 0;
    while i < entries.len()
        invariant
            view == entries_view(entries@),
            view.len() == entries@.len(),
            forall|k: int|
                0 <= k < view.len() ==> #[trigger] view[k] == (
                    entries@[k].0@,
                    json_view(entries@[k].1),
                ),
            i <= entries@.len(),
            forall|k: int| 0 <= k < i ==> (#[trigger] view[k]).0 != key@,
        decreases entries@.len() - i,
    {
        if same_text(entries[i].0.as_str(), key) {
            proof {
                lemma_lookup_skip(view, key@, i as int);
                assert(view[i as int].0 == key@);
            }
            return Some(&entries[i].1);
        }
        assert(view[i as int].0 != key@);
        i += 1;
    }
    proof {
        lemma_lookup_skip(view, key@, i as int);
    }
    None
}

/// The first text that is not empty under one of the keys, taken in order.
fn own_text(value: &Json, keys: &[&str]) -> (found: Option<String>)
    ensures
        found.deep_view() == named_text(value.deep_view(), keys.deep_view()),
{
    let ghost all = keys.deep_view();
    let mut i: usize = 0;
    assert(all.skip(0) =~= all);
    while i < keys.len()
        invariant
            all == keys.deep_view(),
            i <= keys@.len(),
            named_text(value.deep_view(), all) == named_text(
                value.deep_view(),
                all.skip(i as int),
            ),
        decreases keys@.len() - i,
    {
        assert(all.skip(i as int)[0] == keys@[i as int]@);
        assert(all.skip(i as int).drop_first() =~= all.skip(i + 1));
        if let Some(text) = value.get_text(keys[i]) {
            if !text.is_empty() {
                return Some(text.to_owned());
            }
        }
        i += 1;
    }
    None
}

/// The first text that is not empty under one of the keys, in the value or
/// anywhere inside it.
pub fn find_string_recursive(value: &Json, keys: &[&str]) -> (found: Option<String>)
    ensures
        found.deep_view() == first_named(nodes(value.deep_view()), keys.deep_view()),
    decreases value,
{
    let ghost names = keys.deep_view();
    let ghost view = value.deep_view();
    let own = own_text(value, keys);
    if own.is_some() {
        assert(nodes(view)[0] == view);
        return own;
    }
    proof {
        assert(nodes(view).drop_first() =~= match view {
            JsonView::Array(items) => all_nodes(items),
            JsonView::Object(entries) => entry_nodes(entries),
            _ => Seq::empty(),
        });
    }
    match value {
        Json::Array(items) => {
            let ghost views = items_view(items@);
            proof {
                lemma_items_view(items@);
                assert(view == JsonView::Array(views));
                assert(first_named(nodes(view), names) == first_named(all_nodes(views), names));
            }
            let mut i: usize = 0;
            while i < items.len()
                invariant
                    *value == Json::Array(*items),
                    names == keys.deep_view(),
                    first_named(nodes(value.deep_view()), names) == first_named(
                        all_nodes(views),
                        names,
                    ),
                    views == items_view(items@),
                    views.len() == items@.len(),
                    forall|k: int| 0 <= k < views.len() ==> #[trigger] views[k] == json_view(items@[k]),
                    i <= items@.len(),
                    first_named(all_nodes(views.take(i as int)), names) is None,
                decreases items@.len() - i,
            {
                let found = find_string_recursive(&items[i], keys);
                proof {
                    lemma_first_named_split(views, i as int, names);
                }
                if found.is_some() {
                    return found;
                }
                i += 1;
            }
            assert(views.take(i as int) =~= views);
            None
        },
        Json::Object(entries) => {
            let ghost views = entries_view(entries@);
            proof {
                lemma_entries_view(entries@);
                assert(view == JsonView::Object(views));
                assert(first_named(nodes(view), names) == first_named(entry_nodes(views), names));
            }
            let mut i: usize = 0;
            while i < entries.len()
                invariant
                    *value == Json::Object(*entries),
                    names == keys.deep_view(),
                    first_named(nodes(value.deep_view()), names) == first_named(
                        entry_nodes(views),
                        names,
                    ),
                    views == entries_view(entries@),
                    views.len() == entries@.len(),
                    forall|k: int|
                        0 <= k < views.len() ==> #[trigger] views[k] == (
                            entries@[k].0@,
                            json_view(entries@[k].1),
                        ),
                    i <= entries@.len(),
                    first_named(entry_nodes(views.take(i as int)), names) is None,
                decreases entries@.len() - i,
            {
                let found = find_string_recursive(&entries[i].1, keys);
                proof {
                    lemma_first_named_entry_split(views, i as int, names);
                }
                if found.is_some() {
                    return found;
                }
                i += 1;
            }
            assert(views.take(i as int) =~= views);
            None
        },
        _ => {
            assert(first_named(nodes(view), names) == first_named(Seq::empty(), names));
            None
        },
    }
}

/// When the first `i` values hold no named text, the next one decides, both for
/// the first `i + 1` and, if it holds one, for all of them.
proof fn lemma_first_named_split(values: Seq<JsonView>, i: int, keys: Seq<Seq<char>>)
    requires
        0 <= i < values.len(),
        first_named(all_nodes(values.take(i)), keys) is None,
    ensures
        first_named(all_nodes(values.take(i + 1)), keys) == first_named(nodes(values[i]), keys),
        first_named(nodes(values[i]), keys) is Some ==> first_named(all_nodes(values), keys)
            == first_named(nodes(values[i]), keys),
{
    assert(values.take(i + 1).drop_last() =~= values.take(i));
    lemma_first_named_concat(all_nodes(values.take(i)), nodes(values[i]), keys);
    lemma_first_named_prefix(values, i + 1, keys);
}

/// What the first values hold is what all of them hold, if they hold anything.
proof fn lemma_first_named_prefix(values: Seq<JsonView>, n: int, keys: Seq<Seq<char>>)
    requires
        0 <= n <= values.len(),
    ensures
        first_named(all_nodes(values.take(n)), keys) is Some ==> first_named(
            all_nodes(values),
            keys,
        ) == first_named(all_nodes(values.take(n)), keys),
    decreases values.len() - n,
{
    if n == values.len() {
        assert(values.take(n) =~= values);
    } else {
        lemma_first_named_prefix(values.drop_last(), n, keys);
        assert(values.drop_last().take(n) =~= values.take(n));
        lemma_first_named_concat(all_nodes(values.drop_last()), nodes(values.last()), keys);
    }
}

proof fn lemma_first_named_entry_split(
    entries: Seq<(Seq<char>, JsonView)>,
    i: int,
    keys: Seq<Seq<char>>,
)
    requires
        0 <= i < entries.len(),
        first_named(entry_nodes(entries.take(i)), keys) is None,
    ensures
        first_named(entry_nodes(entries.take(i + 1)), keys) == first_named(
            nodes(entries[i].1),
            keys,
        ),
        first_named(nodes(entries[i].1), keys) is Some ==> first_named(entry_nodes(entries), keys)
            == first_named(nodes(entries[i].1), keys),
{
    lemma_entry_nodes(entries);
    lemma_entry_nodes(entries.take(i));
    lemma_entry_nodes(entries.take(i + 1));
    let values = entry_values(entries);
    assert(entry_values(entries.take(i)) =~= values.take(i));
    assert(entry_values(entries.take(i + 1)) =~= values.take(i + 1));
    lemma_first_named_split(values, i, keys);
}

/// The values of entries, without their keys.
pub open spec fn entry_values(entries: Seq<(Seq<char>, JsonView)>) -> Seq<JsonView> {
    entries.map_values(|entry: (Seq<char>, JsonView)| entry.1)
}

pub(crate) proof fn lemma_entry_nodes(entries: Seq<(Seq<char>, JsonView)>)
    ensures
        entry_nodes(entries) == all_nodes(entry_values(entries)),
    decreases entries.len(),
{
    if entries.len() > 0 {
        lemma_entry_nodes(entries.drop_last());
        assert(entry_values(entries).drop_last() =~= entry_values(entries.drop_last()));
    }
}

/// One of the values has a text that is not empty under this key.
pub open spec fn any_text(values: Seq<JsonView>, key: Seq<char>) -> bool {
    exists|i: int| 0 <= i < values.len() && has_text(#[trigger] values[i], key)
}

/// A search for one key finds a text exactly if one of the values has a text that
/// is not empty under it.
pub proof fn search_finds_iff_present(values: Seq<JsonView>, key: Seq<char>)
    ensures
        first_named(values, seq![key]) is Some <==> any_text(values, key),
    decreases values.len(),
{
    if values.len() > 0 {
        let rest = values.drop_first();
        search_finds_iff_present(rest, key);
        reveal_with_fuel(named_text, 2);
        assert(seq![key].drop_first() =~= Seq::empty());
        if any_text(rest, key) {
            let i = choose|i: int| 0 <= i < rest.len() && has_text(#[trigger] rest[i], key);
            assert(has_text(values[i + 1], key));
        }
        if any_text(values, key) && !has_text(values[0], key) {
            let i = choose|i: int| 0 <= i < values.len() && has_text(#[trigger] values[i], key);
            assert(has_text(rest[i - 1], key));
        }
    }
}

/// What a search finds is never empty.
pub proof fn found_text_is_not_empty(values: Seq<JsonView>, keys: Seq<Seq<char>>)
    ensures
        first_named(values, keys) matches Some(text) ==> text.len() > 0,
    decreases values.len(),
{
    if values.len() > 0 {
        lemma_named_text_not_empty(values[0], keys);
        found_text_is_not_empty(values.drop_first(), keys);
    }
}

proof fn lemma_named_text_not_empty(value: JsonView, keys: Seq<Seq<char>>)
    ensures
        named_text(value, keys) matches Some(text) ==> text.len() > 0,
    decreases keys.len(),
{
    if keys.len() > 0 {
        lemma_named_text_not_empty(value, keys.drop_first());
    }
}

/// In a well-formed object every entry is found under its key, whatever comes
/// before it.
pub proof fn entry_is_found(entries: Seq<(Seq<char>, JsonView)>, i: int)
    requires
        well_formed(JsonView::Object(entries)),
        0 <= i < entries.len(),
    ensures
        field(JsonView::Object(entries), entries[i].0) == Some(entries[i].1),
{
    let value = JsonView::Object(entries);
    assert(nodes(value)[0] == value);
    assert(keys_ascend(value));
    assert forall|k: int| 0 <= k < i implies (#[trigger] entries[k]).0 != entries[i].0 by {
        assert(text_before(entries[k].0, entries[i].0));
        crate::text::text_order_is_total(entries[i].0, entries[i].0);
    }
    lemma_lookup_skip(entries, entries[i].0, i);
}

/// The first text that is not empty under one of the keys, in the values or
/// anywhere inside them.
pub fn find_string(values: &[&Json], keys: &[&str]) -> (found: Option<String>)
    ensures
        found.deep_view() == first_named(all_nodes(values.deep_view()), keys.deep_view()),
{
    let ghost views = values.deep_view();
    let ghost names = keys.deep_view();
    let mut i: usize = 0;
    assert(views.take(0) =~= Seq::empty());
    while i < values.len()
        invariant
            views == values.deep_view(),
            names == keys.deep_view(),
            i <= values@.len(),
            first_named(all_nodes(views.take(i as int)), names) is None,
        decreases values@.len() - i,
    {
        let found = find_string_recursive(values[i], keys);
        proof {
            lemma_first_named_split(views, i as int, names);
        }
        if found.is_some() {
            return found;
        }
        i += 1;
    }
    assert(views.take(i as int) =~= views);
    None
}

/// Tells whether the value, or anything inside it, has a text that is not empty
/// under this key.
pub fn has_nonempty_key(value: &Json, key: &str) -> (present: bool)
    ensures
        present == any_text(nodes(value.deep_view()), key@),
{
    let keys: [&str; 1] = [key];
    let found = find_string_recursive(value, &keys);
    proof {
        assert(keys.deep_view() =~= seq![key@]);
        search_finds_iff_present(nodes(value.deep_view()), key@);
    }
    found.is_some()
}

/// The value type of `serde_json`.
#[verifier::external_type_specification]
#[verifier::external_body]
pub struct ExValue(serde_json::Value);

/// What a `serde_json::Value` holds.
pub uninterp spec fn value_held(value: serde_json::Value) -> JsonView;

/// What `serde_json::from_str` reads from a text; nothing where it reports an
/// error.
pub uninterp spec fn json_document(text: Seq<char>) -> Option<JsonView>;

/// One level of a `serde_json::Value`.
enum Node {
    Null,
    Bool(bool),
    Number(String),
    Text(String),
    Array(Vec<serde_json::Value>),
    Object(Vec<(String, serde_json::Value)>),
}

/// What one level of a value says of the whole value.
spec fn opens(node: Node, value: serde_json::Value) -> bool {
    match node {
        Node::Null => value_held(value) == JsonView::Null,
        Node::Bool(flag) => value_held(value) == JsonView::Bool(flag),
        Node::Number(text) => value_held(value) == JsonView::Number(text@),
        Node::Text(text) => value_held(value) == JsonView::Text(text@),
        Node::Array(items) => value_held(value) == JsonView::Array(held_items(items@)),
        Node::Object(entries) => {
            &&& value_held(value) == JsonView::Object(held_entries(entries@))
            &&& keys_ascend(value_held(value))
        },
    }
}

spec fn held_items(items: Seq<serde_json::Value>) -> Seq<JsonView> {
    items.map_values(|item: serde_json::Value| value_held(item))
}

spec fn held_entries(entries: Seq<(String, serde_json::Value)>) -> Seq<(Seq<char>, JsonView)> {
    entries.map_values(|entry: (String, serde_json::Value)| (entry.0@, value_held(entry.1)))
}

/// Calls `serde_json::from_str` for a `serde_json::Value`. Claimed: whether it
/// succeeds, and what the value then holds, depends on the text alone.
#[verifier::external_body]
fn read_value(text: &str) -> (value: Option<serde_json::Value>)
    ensures
        match value {
            Some(value) => json_document(text@) == Some(value_held(value)),
            None => json_document(text@) is None,
        },
{
    serde_json::from_str(text).ok()
}

/// Opens a `serde_json::Value` by one level. Claimed: the level is that of the
/// value's variant, with a number as `Number` displays it and the entries of an
/// object in the order of `Map`'s iterator, which is that of a `BTreeMap`: by
/// ascending key.
#[verifier::external_body]
fn open_value(value: serde_json::Value) -> (node: Node)
    ensures
        opens(node, value),
{
    match value {
        serde_json::Value::Null => Node::Null,
        serde_json::Value::Bool(flag) => Node::Bool(flag),
        serde_json::Value::Number(number) => Node::Number(number.to_string()),
        serde_json::Value::String(text) => Node::Text(text),
        serde_json::Value::Array(items) => Node::Array(items),
        serde_json::Value::Object(map) => Node::Object(map.into_iter().collect()),
    }
}

/// Values that are well-formed have nodes whose keys ascend.
proof fn lemma_all_ascend(values: Seq<JsonView>)
    requires
        forall|i: int| 0 <= i < values.len() ==> well_formed(#[trigger] values[i]),
    ensures
        all_ascend(all_nodes(values)),
    decreases values.len(),
{
    if values.len() > 0 {
        assert forall|i: int| 0 <= i < values.drop_last().len() implies well_formed(
            #[trigger] values.drop_last()[i],
        ) by {
            assert(values.drop_last()[i] == values[i]);
        }
        lemma_all_ascend(values.drop_last());
        assert(well_formed(values.last()));
    }
}

/// A value is well-formed if what it holds is and, for an object, its keys ascend.
pub(crate) proof fn lemma_well_formed(value: JsonView)
    requires
        keys_ascend(value),
        value matches JsonView::Array(items) ==> forall|i: int|
            0 <= i < items.len() ==> well_formed(#[trigger] items[i]),
        value matches JsonView::Object(entries) ==> forall|i: int|
            0 <= i < entries.len() ==> well_formed((#[trigger] entries[i]).1),
    ensures
        well_formed(value),
{
    match value {
        JsonView::Array(items) => {
            lemma_all_ascend(items);
        },
        JsonView::Object(entries) => {
            lemma_entry_nodes(entries);
            lemma_all_ascend(entry_values(entries));
        },
        _ => {},
    }
}

/// The library's form of a `serde_json::Value`.
pub fn json_of(value: serde_json::Value) -> (json: Json)
    ensures
        json.deep_view() == value_held(value),
        well_formed(json.deep_view()),
    decreases value_held(value),
{
    let json = match open_value(value) {
        Node::Null => Json::Null,
        Node::Bool(flag) => Json::Bool(flag),
        Node::Number(text) => Json::Number(text),
        Node::Text(text) => Json::Text(text),
        Node::Array(items) => {
            let mut out: Vec<Json> = Vec::new();
            let ghost held = held_items(items@);
            for item in it: items.into_iter()
                invariant
                    it.seq() == items@,
                    held == held_items(items@),
                    value_held(value) == JsonView::Array(held),
                    items_view(out@) == held.take(it.index()),
                    forall|i: int| 0 <= i < it.index() ==> well_formed(#[trigger] held[i]),
            {
                assert(held[it.index()] == value_held(item));
                assert(decreases_to!(value_held(value) => value_held(value)->Array_0));
                let ghost before = out@;
                let json = json_of(item);
                out.push(json);
                assert(out@.drop_last() == before);
            }
            assert(held.take(held.len() as int) =~= held);
            Json::Array(out)
        },
        Node::Object(entries) => {
            let mut out: Vec<(String, Json)> = Vec::new();
            let ghost held = held_entries(entries@);
            for entry in it: entries.into_iter()
                invariant
                    it.seq() == entries@,
                    held == held_entries(entries@),
                    value_held(value) == JsonView::Object(held),
                    entries_view(out@) == held.take(it.index()),
                    forall|i: int| 0 <= i < it.index() ==> well_formed((#[trigger] held[i]).1),
            {
                assert(held[it.index()] == (entry.0@, value_held(entry.1)));
                assert(decreases_to!(value_held(value) => value_held(value)->Object_0));
                assert(decreases_to!(held => held[it.index()]));
                assert(decreases_to!(held[it.index()] => held[it.index()].1));
                let ghost before = out@;
                let (key, inner) = entry;
                let json = json_of(inner);
                out.push((key, json));
                assert(out@.drop_last() == before);
            }
            assert(held.take(held.len() as int) =~= held);
            Json::Object(out)
        },
    };
    proof {
        lemma_well_formed(json.deep_view());
    }
    json
}

/// Reads a JSON document.
pub fn parse_json(text: &str) -> (json: Option<Json>)
    ensures
        json.deep_view() == json_document(text@),
        json matches Some(json) ==> well_formed(json.deep_view()),
{
    match read_value(text) {
        Some(value) => Some(json_of(value)),
        None => None,
    }
}

} // verus!
