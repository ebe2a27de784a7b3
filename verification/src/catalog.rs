//! What Aside's configuration files say of models: which providers and models there
//! are, and which model is the default.

use crate::json::{
    array_field, entries_view, field, items_view, json_view, lemma_entries_view, lemma_items_view,
    text_field, Json, JsonView,
};
use crate::text::{holds_text, trim, trimmed, trimming_twice_is_trimming_once};
use vstd::prelude::*;

verus! {

/// A provider of a catalog: its id, its display name and its models' ids.
pub type ProviderView = (Seq<char>, Seq<char>, Seq<Seq<char>>);

/// A text without white space around it, unless nothing is left.
pub open spec fn filled(text: Option<Seq<char>>) -> Option<Seq<char>> {
    match text {
        Some(text) if trimmed(text).len() > 0 => Some(trimmed(text)),
        _ => None,
    }
}

/// The id under the first of the keys that holds one.
pub open spec fn first_id(entry: JsonView, keys: Seq<Seq<char>>) -> Option<Seq<char>>
    decreases keys.len(),
{
    if keys.len() == 0 {
        None
    } else if filled(text_field(entry, keys[0])) is Some {
        filled(text_field(entry, keys[0]))
    } else {
        first_id(entry, keys.drop_first())
    }
}

/// The keys that may hold a provider's id.
pub open spec fn provider_keys() -> Seq<Seq<char>> {
    seq!["id"@, "name"@]
}

/// The keys that may hold a model's id.
pub open spec fn model_keys() -> Seq<Seq<char>> {
    seq!["id"@, "modelId"@, "model"@, "name"@]
}

/// The id of a model in a list: the item itself if it is a text, else what the
/// object has as id.
pub open spec fn model_id(item: JsonView) -> Option<Seq<char>> {
    match item {
        JsonView::Text(text) => filled(Some(text)),
        JsonView::Object(_) => first_id(item, model_keys()),
        _ => None,
    }
}

/// The ids of the models in a list that have one, in order.
pub open spec fn model_ids(items: Seq<JsonView>) -> Seq<Seq<char>>
    decreases items.len(),
{
    if items.len() == 0 {
        Seq::empty()
    } else {
        let before = model_ids(items.drop_last());
        match model_id(items.last()) {
            Some(id) => before.push(id),
            None => before,
        }
    }
}

/// The texts without repetitions: each where it occurs first.
pub open spec fn distinct(texts: Seq<Seq<char>>) -> Seq<Seq<char>>
    decreases texts.len(),
{
    if texts.len() == 0 {
        Seq::empty()
    } else {
        let before = distinct(texts.drop_last());
        if before.contains(texts.last()) {
            before
        } else {
            before.push(texts.last())
        }
    }
}

/// The items of a provider's account catalog.
pub open spec fn account_items(entry: JsonView) -> Seq<JsonView> {
    match field(entry, "accountModelCatalog"@) {
        Some(JsonView::Array(items)) => items,
        Some(catalog) => array_field(catalog, "modelIds"@) + array_field(catalog, "model_ids"@)
            + array_field(catalog, "models"@),
        None => Seq::empty(),
    }
}

/// The ids of a provider's models, from its own list and its account catalog.
pub open spec fn collected_ids(entry: JsonView) -> Seq<Seq<char>> {
    distinct(model_ids(array_field(entry, "models"@) + account_items(entry)))
}

/// The display name of a provider: its `name`, or else its id.
pub open spec fn display_name(entry: JsonView, id: Seq<char>) -> Seq<char> {
    match filled(text_field(entry, "name"@)) {
        Some(name) => name,
        None => id,
    }
}

/// A provider, unless it has no models.
pub open spec fn provider_with(id: Seq<char>, display: Seq<char>, ids: Seq<Seq<char>>) -> Option<
    ProviderView,
> {
    if ids.len() > 0 {
        Some((id, display, ids))
    } else {
        None
    }
}

/// A provider in a list of providers, which has to carry its own id.
pub open spec fn listed_provider(provider: JsonView) -> Option<ProviderView> {
    match first_id(provider, provider_keys()) {
        Some(id) => provider_with(id, display_name(provider, id), collected_ids(provider)),
        None => None,
    }
}

/// A provider under a key: the key is its id, whatever the entry says.
pub open spec fn keyed_provider(key: Seq<char>, provider: JsonView) -> Option<ProviderView> {
    let id = trimmed(key);
    if id.len() == 0 {
        None
    } else {
        match provider {
            JsonView::Object(_) => provider_with(
                id,
                display_name(provider, id),
                collected_ids(provider),
            ),
            JsonView::Array(items) => provider_with(id, id, distinct(model_ids(items))),
            _ => None,
        }
    }
}

/// The providers of a list of providers, in order.
pub open spec fn listed_providers(providers: Seq<JsonView>) -> Seq<ProviderView>
    decreases providers.len(),
{
    if providers.len() == 0 {
        Seq::empty()
    } else {
        let before = listed_providers(providers.drop_last());
        match listed_provider(providers.last()) {
            Some(provider) => before.push(provider),
            None => before,
        }
    }
}

/// The providers of an object of providers, in order.
pub open spec fn keyed_providers(entries: Seq<(Seq<char>, JsonView)>) -> Seq<ProviderView>
    decreases entries.len(),
{
    if entries.len() == 0 {
        Seq::empty()
    } else {
        let before = keyed_providers(entries.drop_last());
        match keyed_provider(entries.last().0, entries.last().1) {
            Some(provider) => before.push(provider),
            None => before,
        }
    }
}

/// The providers that a `models.json` document describes.
pub open spec fn catalog_providers(value: JsonView) -> Seq<ProviderView> {
    match field(value, "providers"@) {
        Some(JsonView::Array(providers)) => listed_providers(providers),
        Some(JsonView::Object(entries)) => keyed_providers(entries),
        _ => Seq::empty(),
    }
}

/// The value under the first of the keys that is there.
pub open spec fn first_present(entry: JsonView, keys: Seq<Seq<char>>) -> Option<JsonView>
    decreases keys.len(),
{
    if keys.len() == 0 {
        None
    } else if field(entry, keys[0]) is Some {
        field(entry, keys[0])
    } else {
        first_present(entry, keys.drop_first())
    }
}

/// The text of a value, without white space around it and not empty.
pub open spec fn filled_text(value: Option<JsonView>) -> Option<Seq<char>> {
    match value {
        Some(JsonView::Text(text)) => filled(Some(text)),
        _ => None,
    }
}

/// The default model that a `settings.json` document names: provider and model.
pub open spec fn default_model(value: JsonView) -> Option<(Seq<char>, Seq<char>)> {
    match field(value, "defaultModel"@) {
        Some(JsonView::Object(entries)) => {
            let entry = JsonView::Object(entries);
            let provider = filled_text(first_present(entry, seq!["provider"@, "providerId"@]));
            let model = filled_text(first_present(entry, seq!["modelId"@, "model"@, "id"@]));
            match (provider, model) {
                (Some(provider), Some(model)) => Some((provider, model)),
                _ => None,
            }
        },
        _ => None,
    }
}

/// The text of a value, without white space around it and not empty.
fn id_text<'a>(value: Option<&'a Json>) -> (id: Option<&'a str>)
    ensures
        id.deep_view() == filled_text(value.deep_view()),
{
    match value {
        Some(Json::Text(text)) => {
            let id = trim(text.as_str());
            if id.is_empty() {
                None
            } else {
                Some(id)
            }
        },
        _ => None,
    }
}

/// The id under the first of the keys that holds one.
fn find_id(entry: &Json, keys: &[&str]) -> (id: Option<String>)
    ensures
        id.deep_view() == first_id(entry.deep_view(), keys.deep_view()),
{
    let ghost names = keys.deep_view();
    let mut i: usize = 0;
    assert(names.skip(0) =~= names);
    while i < keys.len()
        invariant
            i <= keys@.len(),
            names == keys.deep_view(),
            first_id(entry.deep_view(), names) == first_id(
                entry.deep_view(),
                names.skip(i as int),
            ),
        decreases keys@.len() - i,
    {
        assert(names.skip(i as int)[0] == keys@[i as int]@);
        assert(names.skip(i as int).drop_first() =~= names.skip(i + 1));
        if let Some(id) = id_text(entry.get(keys[i])) {
            return Some(id.to_owned());
        }
        i += 1;
    }
    None
}

/// A provider's id: what the entry has as id, or else the fallback.
pub fn provider_id_from(entry: &Json, fallback: Option<&str>) -> (id: Option<String>)
    ensures
        id.deep_view() == (match first_id(entry.deep_view(), provider_keys()) {
            Some(id) => Some(id),
            None => filled(fallback.deep_view()),
        }),
{
    let keys: [&str; 2] = ["id", "name"];
    assert(keys.deep_view() =~= provider_keys());
    if let Some(id) = find_id(entry, &keys) {
        return Some(id);
    }
    match fallback {
        Some(fallback) => {
            let id = trim(fallback);
            if id.is_empty() {
                None
            } else {
                Some(id.to_owned())
            }
        },
        None => None,
    }
}

/// A model's id: what the entry has as id.
pub fn model_id_from(entry: &Json) -> (id: Option<String>)
    ensures
        id.deep_view() == first_id(entry.deep_view(), model_keys()),
{
    let keys: [&str; 4] = ["id", "modelId", "model", "name"];
    assert(keys.deep_view() =~= model_keys());
    find_id(entry, &keys)
}

/// A provider's display name: its `name`, or else the fallback.
pub fn display_name_from_entry(entry: &Json, fallback: &str) -> (name: String)
    ensures
        name@ == display_name(entry.deep_view(), fallback@),
{
    match id_text(entry.get("name")) {
        Some(name) => name.to_owned(),
        None => fallback.to_owned(),
    }
}

/// Appends the id of a model in a list, if it has one.
pub fn push_model_ids_from_value(value: &Json, ids: &mut Vec<String>)
    ensures
        final(ids).deep_view() == (match model_id(value.deep_view()) {
            Some(id) => old(ids).deep_view().push(id),
            None => old(ids).deep_view(),
        }),
{
    let ghost before = ids.deep_view();
    let id = match value {
        Json::Text(_) => match id_text(Some(value)) {
            Some(id) => Some(id.to_owned()),
            None => None,
        },
        Json::Object(_) => model_id_from(value),
        _ => None,
    };
    assert(id.deep_view() == model_id(value.deep_view()));
    if let Some(id) = id {
        ids.push(id);
        assert(ids.deep_view() =~= before.push(id@));
    }
}

/// Drops repetitions: each id stays where it occurs first.
pub fn dedup_ids(ids: &mut Vec<String>)
    ensures
        final(ids).deep_view() == distinct(old(ids).deep_view()),
{
    let ghost all = ids.deep_view();
    let mut kept: Vec<String> = Vec::new();
    let mut i: usize = 0;
    while i < ids.len()
        invariant
            i <= ids@.len(),
            all == ids.deep_view(),
            kept.deep_view() == distinct(all.take(i as int)),
        decreases ids@.len() - i,
    {
        assert(all.take(i + 1).drop_last() =~= all.take(i as int));
        let ghost before = kept.deep_view();
        if !holds_text(kept.as_slice(), ids[i].as_str()) {
            kept.push(ids[i].clone());
            assert(kept.deep_view() =~= before.push(all[i as int]));
        }
        i += 1;
    }
    assert(all.take(i as int) =~= all);
    *ids = kept;
}

/// Appends the ids of the models in a list.
fn push_all(items: &Vec<Json>, ids: &mut Vec<String>)
    ensures
        final(ids).deep_view() == old(ids).deep_view() + model_ids(items_view(items@)),
{
    let ghost views = items_view(items@);
    let ghost before = ids.deep_view();
    proof {
        lemma_items_view(items@);
    }
    let mut i: usize = 0;
    while i < items.len()
        invariant
            i <= items@.len(),
            views.len() == items@.len(),
            forall|k: int| 0 <= k < views.len() ==> #[trigger] views[k] == json_view(items@[k]),
            ids.deep_view() == before + model_ids(views.take(i as int)),
        decreases items@.len() - i,
    {
        assert(views.take(i + 1).drop_last() =~= views.take(i as int));
        push_model_ids_from_value(&items[i], ids);
        assert(ids.deep_view() =~= before + model_ids(views.take(i + 1)));
        i += 1;
    }
    assert(views.take(i as int) =~= views);
}

/// Appends the ids of the models in the list under a key.
fn push_field(entry: &Json, key: &str, ids: &mut Vec<String>)
    ensures
        final(ids).deep_view() == old(ids).deep_view() + model_ids(
            array_field(entry.deep_view(), key@),
        ),
{
    let ghost before = ids.deep_view();
    if let Some(Json::Array(items)) = entry.get(key) {
        push_all(items, ids);
    } else {
        assert(before + Seq::empty() =~= before);
    }
}

/// The ids of two lists in a row are those of the first and then the second.
pub(crate) proof fn lemma_model_ids_concat(a: Seq<JsonView>, b: Seq<JsonView>)
    ensures
        model_ids(a + b) == model_ids(a) + model_ids(b),
    decreases b.len(),
{
    if b.len() == 0 {
        assert(a + b =~= a);
        assert(model_ids(a) + Seq::empty() =~= model_ids(a));
    } else {
        assert((a + b).drop_last() =~= a + b.drop_last());
        lemma_model_ids_concat(a, b.drop_last());
        assert(model_ids(a + b) =~= model_ids(a) + model_ids(b));
    }
}

/// The ids of a provider's models, from its own list and its account catalog.
pub fn collect_model_ids(entry: &Json) -> (ids: Vec<String>)
    ensures
        ids.deep_view() == collected_ids(entry.deep_view()),
{
    let ghost view = entry.deep_view();
    let ghost own = array_field(view, "models"@);
    let mut ids: Vec<String> = Vec::new();
    push_field(entry, "models", &mut ids);
    assert(ids.deep_view() =~= model_ids(own));
    match entry.get("accountModelCatalog") {
        Some(Json::Array(items)) => {
            push_all(items, &mut ids);
        },
        Some(catalog) => {
            push_field(catalog, "modelIds", &mut ids);
            push_field(catalog, "model_ids", &mut ids);
            push_field(catalog, "models", &mut ids);
            proof {
                let c = catalog.deep_view();
                let x = array_field(c, "modelIds"@);
                let y = array_field(c, "model_ids"@);
                let z = array_field(c, "models"@);
                lemma_model_ids_concat(x, y);
                lemma_model_ids_concat(x + y, z);
                assert(ids.deep_view() =~= model_ids(own) + model_ids(x + y + z));
            }
        },
        None => {
            assert(model_ids(own) + Seq::empty() =~= model_ids(own));
        },
    }
    proof {
        lemma_model_ids_concat(own, account_items(view));
    }
    dedup_ids(&mut ids);
    ids
}

/// A provider in a list of providers.
fn read_listed(provider: &Json) -> (row: Option<(String, String, Vec<String>)>)
    ensures
        row.deep_view() == listed_provider(provider.deep_view()),
{
    match provider_id_from(provider, None) {
        Some(id) => {
            let display = display_name_from_entry(provider, id.as_str());
            let ids = collect_model_ids(provider);
            if ids.is_empty() {
                None
            } else {
                Some((id, display, ids))
            }
        },
        None => None,
    }
}

/// A provider under a key.
fn read_keyed(key: &str, provider: &Json) -> (row: Option<(String, String, Vec<String>)>)
    ensures
        row.deep_view() == keyed_provider(key@, provider.deep_view()),
{
    let id = trim(key);
    if id.is_empty() {
        return None;
    }
    match provider {
        Json::Object(_) => {
            let display = display_name_from_entry(provider, id);
            let ids = collect_model_ids(provider);
            if ids.is_empty() {
                None
            } else {
                Some((id.to_owned(), display, ids))
            }
        },
        Json::Array(items) => {
            let mut ids: Vec<String> = Vec::new();
            push_all(items, &mut ids);
            assert(ids.deep_view() =~= model_ids(items_view(items@)));
            dedup_ids(&mut ids);
            if ids.is_empty() {
                None
            } else {
                Some((id.to_owned(), id.to_owned(), ids))
            }
        },
        _ => None,
    }
}

/// Reads a `models.json` document: the providers that have models, each with its
/// id, its display name and its models' ids. Other fields are not read.
pub fn parse_catalog_with_display(value: &Json) -> (catalog: Vec<(String, String, Vec<String>)>)
    ensures
        catalog.deep_view() == catalog_providers(value.deep_view()),
{
    let mut catalog: Vec<(String, String, Vec<String>)> = Vec::new();
    match value.get("providers") {
        Some(Json::Array(providers)) => {
            let ghost views = items_view(providers@);
            proof {
                lemma_items_view(providers@);
            }
            let mut i: usize = 0;
            while i < providers.len()
                invariant
                    i <= providers@.len(),
                    views.len() == providers@.len(),
                    forall|k: int|
                        0 <= k < views.len() ==> #[trigger] views[k] == json_view(providers@[k]),
                    catalog.deep_view() == listed_providers(views.take(i as int)),
                decreases providers@.len() - i,
            {
                assert(views.take(i + 1).drop_last() =~= views.take(i as int));
                let ghost before = catalog.deep_view();
                if let Some(row) = read_listed(&providers[i]) {
                    catalog.push(row);
                    assert(catalog.deep_view() =~= before.push(row.deep_view()));
                }
                i += 1;
            }
            assert(views.take(i as int) =~= views);
        },
        Some(Json::Object(entries)) => {
            let ghost views = entries_view(entries@);
            proof {
                lemma_entries_view(entries@);
            }
            let mut i: usize = 0;
            while i < entries.len()
                invariant
                    i <= entries@.len(),
                    views.len() == entries@.len(),
                    forall|k: int|
                        0 <= k < views.len() ==> #[trigger] views[k] == (
                            entries@[k].0@,
                            json_view(entries@[k].1),
                        ),
                    catalog.deep_view() == keyed_providers(views.take(i as int)),
                decreases entries@.len() - i,
            {
                assert(views.take(i + 1).drop_last() =~= views.take(i as int));
                let ghost before = catalog.deep_view();
                if let Some(row) = read_keyed(entries[i].0.as_str(), &entries[i].1) {
                    catalog.push(row);
                    assert(catalog.deep_view() =~= before.push(row.deep_view()));
                }
                i += 1;
            }
            assert(views.take(i as int) =~= views);
        },
        _ => {},
    }
    catalog
}

/// Reads a `models.json` document: the providers that have models, each with its id
/// and its models' ids.
pub fn parse_models_catalog(value: &Json) -> (catalog: Vec<(String, Vec<String>)>)
    ensures
        catalog.deep_view() == catalog_providers(value.deep_view()).map_values(
            |provider: ProviderView| (provider.0, provider.2),
        ),
{
    let rows = parse_catalog_with_display(value);
    let ghost views = rows.deep_view();
    let ghost short = |provider: ProviderView| (provider.0, provider.2);
    let mut catalog: Vec<(String, Vec<String>)> = Vec::new();
    for row in it: rows.into_iter()
        invariant
            it.seq() == rows@,
            views == rows.deep_view(),
            short == (|provider: ProviderView| (provider.0, provider.2)),
            catalog.deep_view() == views.take(it.index()).map_values(short),
    {
        let ghost i = it.index();
        let ghost before = catalog.deep_view();
        let (id, _display, ids) = row;
        catalog.push((id, ids));
        assert(catalog.deep_view() =~= before.push(short(views[i])));
        assert(views.take(i + 1).map_values(short) =~= before.push(short(views[i])));
    }
    assert(views.take(views.len() as int) =~= views);
    catalog
}

/// The value under the first of the keys that is there.
fn find_present<'a>(entry: &'a Json, keys: &[&str]) -> (found: Option<&'a Json>)
    ensures
        found.deep_view() == first_present(entry.deep_view(), keys.deep_view()),
{
    let ghost names = keys.deep_view();
    let mut i: usize = 0;
    assert(names.skip(0) =~= names);
    while i < keys.len()
        invariant
            i <= keys@.len(),
            names == keys.deep_view(),
            first_present(entry.deep_view(), names) == first_present(
                entry.deep_view(),
                names.skip(i as int),
            ),
        decreases keys@.len() - i,
    {
        assert(names.skip(i as int)[0] == keys@[i as int]@);
        assert(names.skip(i as int).drop_first() =~= names.skip(i + 1));
        let found = entry.get(keys[i]);
        if found.is_some() {
            return found;
        }
        i += 1;
    }
    None
}

/// Reads a `settings.json` document: the default model's provider and id.
pub fn parse_default_model(value: &Json) -> (default: Option<(String, String)>)
    ensures
        default.deep_view() == default_model(value.deep_view()),
{
    let entry = match value.get("defaultModel") {
        Some(entry) => entry,
        None => return None,
    };
    if let Json::Object(_) = entry {
        let provider_names: [&str; 2] = ["provider", "providerId"];
        assert(provider_names.deep_view() =~= seq!["provider"@, "providerId"@]);
        let model_names: [&str; 3] = ["modelId", "model", "id"];
        assert(model_names.deep_view() =~= seq!["modelId"@, "model"@, "id"@]);
        match (
            id_text(find_present(entry, &provider_names)),
            id_text(find_present(entry, &model_names)),
        ) {
            (Some(provider), Some(model)) => Some((provider.to_owned(), model.to_owned())),
            _ => None,
        }
    } else {
        None
    }
}

/// Dropping repetitions drops nothing else: no text is left twice, and every text is
/// still there.
pub proof fn distinct_keeps_each_once(texts: Seq<Seq<char>>)
    ensures
        distinct(texts).no_duplicates(),
        forall|text: Seq<char>| distinct(texts).contains(text) <==> texts.contains(text),
    decreases texts.len(),
{
    if texts.len() > 0 {
        let rest = texts.drop_last();
        distinct_keeps_each_once(rest);
        assert(texts =~= rest.push(texts.last()));
        assert forall|text: Seq<char>| distinct(texts).contains(text) <==> texts.contains(text) by {
            lemma_push_contains(rest, texts.last(), text);
            lemma_push_contains(distinct(rest), texts.last(), text);
        }
    }
}

proof fn lemma_push_contains(texts: Seq<Seq<char>>, last: Seq<char>, text: Seq<char>)
    ensures
        texts.push(last).contains(text) <==> texts.contains(text) || text == last,
{
    let all = texts.push(last);
    if texts.contains(text) {
        let i = choose|i: int| 0 <= i < texts.len() && texts[i] == text;
        assert(all[i] == text);
    }
    if text == last {
        assert(all[texts.len() as int] == text);
    }
    if all.contains(text) && text != last {
        let i = choose|i: int| 0 <= i < all.len() && all[i] == text;
        assert(texts[i] == text);
    }
}

/// A text that is not empty and has no white space around it.
pub open spec fn tidy(text: Seq<char>) -> bool {
    text.len() > 0 && trimmed(text) == text
}

proof fn lemma_filled_is_tidy(text: Option<Seq<char>>)
    ensures
        filled(text) matches Some(id) ==> tidy(id),
{
    if let Some(text) = text {
        trimming_twice_is_trimming_once(text);
    }
}

/// The ids in a list of models are tidy.
proof fn lemma_model_ids_tidy(items: Seq<JsonView>)
    ensures
        forall|i: int| 0 <= i < model_ids(items).len() ==> tidy(#[trigger] model_ids(items)[i]),
    decreases items.len(),
{
    if items.len() > 0 {
        lemma_model_ids_tidy(items.drop_last());
        lemma_first_id_tidy(items.last(), model_keys());
        if let JsonView::Text(text) = items.last() {
            lemma_filled_is_tidy(Some(text));
        }
        let before = model_ids(items.drop_last());
        assert forall|i: int| 0 <= i < model_ids(items).len() implies tidy(
            #[trigger] model_ids(items)[i],
        ) by {
            if i < before.len() {
                assert(model_ids(items)[i] == before[i]);
            }
        }
    }
}

proof fn lemma_first_id_tidy(entry: JsonView, keys: Seq<Seq<char>>)
    ensures
        first_id(entry, keys) matches Some(id) ==> tidy(id),
    decreases keys.len(),
{
    if keys.len() > 0 {
        lemma_filled_is_tidy(text_field(entry, keys[0]));
        lemma_first_id_tidy(entry, keys.drop_first());
    }
}

/// A provider of a catalog is complete: it has an id, a name to show and at least one
/// model; no model occurs twice, and every model has an id. None of these texts is empty
/// or has white space around it.
pub open spec fn complete(provider: ProviderView) -> bool {
    &&& tidy(provider.0)
    &&& tidy(provider.1)
    &&& provider.2.len() > 0
    &&& provider.2.no_duplicates()
    &&& forall|i: int| 0 <= i < provider.2.len() ==> tidy(#[trigger] provider.2[i])
}

proof fn lemma_complete(id: Seq<char>, display: Seq<char>, items: Seq<JsonView>)
    requires
        tidy(id),
        tidy(display),
    ensures
        provider_with(id, display, distinct(model_ids(items))) matches Some(provider) ==> complete(
            provider,
        ),
{
    let ids = model_ids(items);
    lemma_model_ids_tidy(items);
    distinct_keeps_each_once(ids);
    assert forall|i: int| 0 <= i < distinct(ids).len() implies tidy(#[trigger] distinct(ids)[i]) by {
        assert(distinct(ids).contains(distinct(ids)[i]));
        assert(ids.contains(distinct(ids)[i]));
        let j = choose|j: int| 0 <= j < ids.len() && ids[j] == distinct(ids)[i];
        assert(tidy(ids[j]));
    }
}

/// Every provider of a catalog is complete, whatever the document holds.
pub proof fn providers_are_complete(value: JsonView)
    ensures
        forall|i: int|
            0 <= i < catalog_providers(value).len() ==> complete(
                #[trigger] catalog_providers(value)[i],
            ),
{
    match field(value, "providers"@) {
        Some(JsonView::Array(providers)) => lemma_listed_complete(providers),
        Some(JsonView::Object(entries)) => lemma_keyed_complete(entries),
        _ => {},
    }
}

proof fn lemma_listed_complete(providers: Seq<JsonView>)
    ensures
        forall|i: int|
            0 <= i < listed_providers(providers).len() ==> complete(
                #[trigger] listed_providers(providers)[i],
            ),
    decreases providers.len(),
{
    if providers.len() > 0 {
        let before = listed_providers(providers.drop_last());
        let last = providers.last();
        lemma_listed_complete(providers.drop_last());
        lemma_first_id_tidy(last, provider_keys());
        lemma_filled_is_tidy(text_field(last, "name"@));
        if let Some(id) = first_id(last, provider_keys()) {
            lemma_complete(
                id,
                display_name(last, id),
                array_field(last, "models"@) + account_items(last),
            );
        }
        assert forall|i: int| 0 <= i < listed_providers(providers).len() implies complete(
            #[trigger] listed_providers(providers)[i],
        ) by {
            if i < before.len() {
                assert(listed_providers(providers)[i] == before[i]);
            }
        }
    }
}

proof fn lemma_keyed_complete(entries: Seq<(Seq<char>, JsonView)>)
    ensures
        forall|i: int|
            0 <= i < keyed_providers(entries).len() ==> complete(
                #[trigger] keyed_providers(entries)[i],
            ),
    decreases entries.len(),
{
    if entries.len() > 0 {
        let before = keyed_providers(entries.drop_last());
        let id = trimmed(entries.last().0);
        let last = entries.last().1;
        lemma_keyed_complete(entries.drop_last());
        lemma_filled_is_tidy(text_field(last, "name"@));
        trimming_twice_is_trimming_once(entries.last().0);
        if id.len() > 0 {
            lemma_complete(
                id,
                display_name(last, id),
                array_field(last, "models"@) + account_items(last),
            );
            if let JsonView::Array(items) = last {
                lemma_complete(id, id, items);
            }
        }
        assert forall|i: int| 0 <= i < keyed_providers(entries).len() implies complete(
            #[trigger] keyed_providers(entries)[i],
        ) by {
            if i < before.len() {
                assert(keyed_providers(entries)[i] == before[i]);
            }
        }
    }
}

/// Where providers stand under keys, the key is the id of the provider, whatever id or
/// name the entry has.
pub proof fn key_is_the_id(key: Seq<char>, provider: JsonView)
    ensures
        keyed_provider(key, provider) matches Some(row) ==> row.0 == trimmed(key),
{
}

/// Two values have the same under these keys.
pub open spec fn agree(a: JsonView, b: JsonView, keys: Seq<Seq<char>>) -> bool {
    forall|i: int| 0 <= i < keys.len() ==> field(a, #[trigger] keys[i]) == field(b, keys[i])
}

/// Two values are the same, as far as a model in a list is read.
pub open spec fn same_model(a: JsonView, b: JsonView) -> bool {
    a == b || (a is Object && b is Object && agree(a, b, model_keys()))
}

/// Two lists are the same, as far as the models in them are read.
pub open spec fn same_models(a: Seq<JsonView>, b: Seq<JsonView>) -> bool {
    a.len() == b.len() && forall|i: int| 0 <= i < a.len() ==> same_model(#[trigger] a[i], b[i])
}

/// Two values are the same, as far as a provider's account catalog is read.
pub open spec fn same_account_catalog(a: Option<JsonView>, b: Option<JsonView>) -> bool {
    match (a, b) {
        (None, None) => true,
        (Some(JsonView::Array(x)), Some(JsonView::Array(y))) => same_models(x, y),
        (Some(JsonView::Object(x)), Some(JsonView::Object(y))) => {
            let x = JsonView::Object(x);
            let y = JsonView::Object(y);
            &&& same_models(array_field(x, "modelIds"@), array_field(y, "modelIds"@))
            &&& same_models(array_field(x, "model_ids"@), array_field(y, "model_ids"@))
            &&& same_models(array_field(x, "models"@), array_field(y, "models"@))
        },
        _ => a == b,
    }
}

/// Two values are the same, as far as a provider is read: its id, its name, its models
/// and its account catalog.
pub open spec fn same_provider(a: JsonView, b: JsonView) -> bool {
    match (a, b) {
        (JsonView::Object(_), JsonView::Object(_)) => {
            &&& agree(a, b, provider_keys())
            &&& same_models(array_field(a, "models"@), array_field(b, "models"@))
            &&& same_account_catalog(
                field(a, "accountModelCatalog"@),
                field(b, "accountModelCatalog"@),
            )
        },
        (JsonView::Array(x), JsonView::Array(y)) => same_models(x, y),
        _ => a == b,
    }
}

/// Two documents are the same, as far as a catalog is read.
pub open spec fn same_catalog(a: JsonView, b: JsonView) -> bool {
    match (field(a, "providers"@), field(b, "providers"@)) {
        (Some(JsonView::Array(x)), Some(JsonView::Array(y))) => x.len() == y.len() && forall|i: int|
            0 <= i < x.len() ==> same_provider(#[trigger] x[i], y[i]),
        (Some(JsonView::Object(x)), Some(JsonView::Object(y))) => x.len() == y.len() && forall|
            i: int,
        |
            0 <= i < x.len() ==> (#[trigger] x[i]).0 == y[i].0 && same_provider(x[i].1, y[i].1),
        (x, y) => x == y,
    }
}

proof fn lemma_agree_first_id(a: JsonView, b: JsonView, keys: Seq<Seq<char>>)
    requires
        agree(a, b, keys),
    ensures
        first_id(a, keys) == first_id(b, keys),
    decreases keys.len(),
{
    if keys.len() > 0 {
        assert(field(a, keys[0]) == field(b, keys[0]));
        assert forall|i: int| 0 <= i < keys.drop_first().len() implies field(
            a,
            #[trigger] keys.drop_first()[i],
        ) == field(b, keys.drop_first()[i]) by {
            assert(keys.drop_first()[i] == keys[i + 1]);
        }
        lemma_agree_first_id(a, b, keys.drop_first());
    }
}

proof fn lemma_same_models(a: Seq<JsonView>, b: Seq<JsonView>)
    requires
        same_models(a, b),
    ensures
        model_ids(a) == model_ids(b),
    decreases a.len(),
{
    if a.len() > 0 {
        assert forall|i: int| 0 <= i < a.drop_last().len() implies same_model(
            #[trigger] a.drop_last()[i],
            b.drop_last()[i],
        ) by {
            assert(same_model(a[i], b[i]));
        }
        lemma_same_models(a.drop_last(), b.drop_last());
        assert(same_model(a[a.len() - 1], b[a.len() - 1]));
        if agree(a.last(), b.last(), model_keys()) {
            lemma_agree_first_id(a.last(), b.last(), model_keys());
        }
    }
}

proof fn lemma_same_entry(a: JsonView, b: JsonView)
    requires
        same_provider(a, b),
        a is Object,
        b is Object,
    ensures
        first_id(a, provider_keys()) == first_id(b, provider_keys()),
        forall|id: Seq<char>| #[trigger] display_name(a, id) == display_name(b, id),
        collected_ids(a) == collected_ids(b),
{
    lemma_agree_first_id(a, b, provider_keys());
    assert(provider_keys()[1] == "name"@);
    assert(field(a, "name"@) == field(b, "name"@));
    lemma_same_models(array_field(a, "models"@), array_field(b, "models"@));
    lemma_model_ids_concat(array_field(a, "models"@), account_items(a));
    lemma_model_ids_concat(array_field(b, "models"@), account_items(b));
    match (field(a, "accountModelCatalog"@), field(b, "accountModelCatalog"@)) {
        (Some(JsonView::Array(x)), Some(JsonView::Array(y))) => {
            lemma_same_models(x, y);
        },
        (Some(JsonView::Object(x)), Some(JsonView::Object(y))) => {
            let x = JsonView::Object(x);
            let y = JsonView::Object(y);
            let x1 = array_field(x, "modelIds"@);
            let x2 = array_field(x, "model_ids"@);
            let x3 = array_field(x, "models"@);
            let y1 = array_field(y, "modelIds"@);
            let y2 = array_field(y, "model_ids"@);
            let y3 = array_field(y, "models"@);
            lemma_same_models(x1, y1);
            lemma_same_models(x2, y2);
            lemma_same_models(x3, y3);
            lemma_model_ids_concat(x1, x2);
            lemma_model_ids_concat(y1, y2);
            lemma_model_ids_concat(x1 + x2, x3);
            lemma_model_ids_concat(y1 + y2, y3);
        },
        _ => {},
    }
}

proof fn lemma_same_listed(a: JsonView, b: JsonView)
    requires
        same_provider(a, b),
    ensures
        listed_provider(a) == listed_provider(b),
{
    match (a, b) {
        (JsonView::Object(_), JsonView::Object(_)) => lemma_same_entry(a, b),
        (JsonView::Array(_), JsonView::Array(_)) => {
            lemma_first_id_of_other(a, provider_keys());
            lemma_first_id_of_other(b, provider_keys());
        },
        _ => {},
    }
}

proof fn lemma_first_id_of_other(entry: JsonView, keys: Seq<Seq<char>>)
    requires
        !(entry is Object),
    ensures
        first_id(entry, keys) is None,
    decreases keys.len(),
{
    if keys.len() > 0 {
        lemma_first_id_of_other(entry, keys.drop_first());
    }
}

proof fn lemma_same_keyed(key: Seq<char>, a: JsonView, b: JsonView)
    requires
        same_provider(a, b),
    ensures
        keyed_provider(key, a) == keyed_provider(key, b),
{
    match (a, b) {
        (JsonView::Object(_), JsonView::Object(_)) => lemma_same_entry(a, b),
        (JsonView::Array(x), JsonView::Array(y)) => lemma_same_models(x, y),
        _ => {},
    }
}

proof fn lemma_same_listed_providers(a: Seq<JsonView>, b: Seq<JsonView>)
    requires
        a.len() == b.len(),
        forall|i: int| 0 <= i < a.len() ==> same_provider(#[trigger] a[i], b[i]),
    ensures
        listed_providers(a) == listed_providers(b),
    decreases a.len(),
{
    if a.len() > 0 {
        assert forall|i: int| 0 <= i < a.drop_last().len() implies same_provider(
            #[trigger] a.drop_last()[i],
            b.drop_last()[i],
        ) by {
            assert(same_provider(a[i], b[i]));
        }
        lemma_same_listed_providers(a.drop_last(), b.drop_last());
        assert(same_provider(a[a.len() - 1], b[a.len() - 1]));
        lemma_same_listed(a.last(), b.last());
    }
}

proof fn lemma_same_keyed_providers(
    a: Seq<(Seq<char>, JsonView)>,
    b: Seq<(Seq<char>, JsonView)>,
)
    requires
        a.len() == b.len(),
        forall|i: int|
            0 <= i < a.len() ==> (#[trigger] a[i]).0 == b[i].0 && same_provider(a[i].1, b[i].1),
    ensures
        keyed_providers(a) == keyed_providers(b),
    decreases a.len(),
{
    if a.len() > 0 {
        assert forall|i: int| 0 <= i < a.drop_last().len() implies (
        #[trigger] a.drop_last()[i]).0 == b.drop_last()[i].0 && same_provider(
            a.drop_last()[i].1,
            b.drop_last()[i].1,
        ) by {
            assert(a.drop_last()[i] == a[i]);
            assert(b.drop_last()[i] == b[i]);
        }
        lemma_same_keyed_providers(a.drop_last(), b.drop_last());
        assert(a[a.len() - 1].0 == b[a.len() - 1].0);
        lemma_same_keyed(a.last().0, a.last().1, b.last().1);
    }
}

/// Nothing but ids, names and model lists is read from a catalog: two documents that
/// are the same in these give the same providers, whatever else they hold. Keys,
/// headers and addresses of a provider are among what is not read.
pub proof fn other_fields_are_not_read(a: JsonView, b: JsonView)
    requires
        same_catalog(a, b),
    ensures
        catalog_providers(a) == catalog_providers(b),
{
    match (field(a, "providers"@), field(b, "providers"@)) {
        (Some(JsonView::Array(x)), Some(JsonView::Array(y))) => lemma_same_listed_providers(x, y),
        (Some(JsonView::Object(x)), Some(JsonView::Object(y))) => lemma_same_keyed_providers(x, y),
        _ => {},
    }
}

/// The keys that may name the default model.
pub open spec fn default_keys() -> Seq<Seq<char>> {
    seq!["provider"@, "providerId"@, "modelId"@, "model"@, "id"@]
}

/// Nothing but provider and model is read from the settings: two documents whose
/// default models agree on these name the same default model.
pub proof fn other_settings_are_not_read(a: JsonView, b: JsonView)
    requires
        match (field(a, "defaultModel"@), field(b, "defaultModel"@)) {
            (Some(x), Some(y)) => x is Object && y is Object && agree(x, y, default_keys()),
            (x, y) => x == y,
        },
    ensures
        default_model(a) == default_model(b),
{
    match (field(a, "defaultModel"@), field(b, "defaultModel"@)) {
        (Some(x), Some(y)) => {
            let keys = default_keys();
            assert(field(x, keys[0]) == field(y, keys[0]));
            assert(field(x, keys[1]) == field(y, keys[1]));
            assert(field(x, keys[2]) == field(y, keys[2]));
            assert(field(x, keys[3]) == field(y, keys[3]));
            assert(field(x, keys[4]) == field(y, keys[4]));
            let providers = seq!["provider"@, "providerId"@];
            let models = seq!["modelId"@, "model"@, "id"@];
            assert(agree(x, y, providers));
            assert(agree(x, y, models));
            lemma_agree_first_present(x, y, providers);
            lemma_agree_first_present(x, y, models);
        },
        _ => {},
    }
}

proof fn lemma_agree_first_present(a: JsonView, b: JsonView, keys: Seq<Seq<char>>)
    requires
        agree(a, b, keys),
    ensures
        first_present(a, keys) == first_present(b, keys),
    decreases keys.len(),
{
    if keys.len() > 0 {
        assert(field(a, keys[0]) == field(b, keys[0]));
        assert forall|i: int| 0 <= i < keys.drop_first().len() implies field(
            a,
            #[trigger] keys.drop_first()[i],
        ) == field(b, keys.drop_first()[i]) by {
            assert(keys.drop_first()[i] == keys[i + 1]);
        }
        lemma_agree_first_present(a, b, keys.drop_first());
    }
}

/// A default model has both a provider and a model, and neither is empty or has white
/// space around it.
pub proof fn default_model_is_complete(value: JsonView)
    ensures
        default_model(value) matches Some((provider, model)) ==> tidy(provider) && tidy(model),
{
    if let Some(JsonView::Object(entries)) = field(value, "defaultModel"@) {
        let entry = JsonView::Object(entries);
        if let Some(JsonView::Text(text)) = first_present(
            entry,
            seq!["provider"@, "providerId"@],
        ) {
            lemma_filled_is_tidy(Some(text));
        }
        if let Some(JsonView::Text(text)) = first_present(
            entry,
            seq!["modelId"@, "model"@, "id"@],
        ) {
            lemma_filled_is_tidy(Some(text));
        }
    }
}

} // verus!
