//! What a catalog and the settings are read as.

use crate::catalog::{
    account_items, catalog_providers, collected_ids, default_model, display_name, distinct,
    distinct_keeps_each_once, filled, first_id, first_present, keyed_provider, keyed_providers,
    lemma_model_ids_concat, listed_provider, listed_providers, model_id, model_ids, model_keys,
    provider_keys,
};
use crate::json::{field, JsonView};
use crate::text::trimmed;
use vstd::prelude::*;

verus! {

/// The text under a key without white space around it, if there is one that is not blank.
pub open spec fn filled_in(value: JsonView, key: Seq<char>) -> Option<Seq<char>> {
    match field(value, key) {
        Some(JsonView::Text(text)) => if trimmed(text).len() > 0 {
            Some(trimmed(text))
        } else {
            None
        },
        _ => None,
    }
}

/// The items of the list under a key.
pub open spec fn list_under(value: JsonView, key: Seq<char>) -> Seq<JsonView> {
    match field(value, key) {
        Some(JsonView::Array(items)) => items,
        _ => Seq::empty(),
    }
}

/// All items of a provider that may be models: its own list, and then its account
/// catalog, which is a list itself or holds up to three.
pub open spec fn all_items(entry: JsonView) -> Seq<JsonView> {
    list_under(entry, "models"@) + match field(entry, "accountModelCatalog"@) {
        Some(JsonView::Array(items)) => items,
        Some(catalog) => list_under(catalog, "modelIds"@) + list_under(catalog, "model_ids"@)
            + list_under(catalog, "models"@),
        None => Seq::empty(),
    }
}

/// A model in a list is named by the item itself, if it is a text that is not blank, or by
/// the first of `id`, `modelId`, `model` and `name` that holds one, always without the
/// white space around it; anything else names no model.
pub proof fn models_are_named_by_text_or_id(item: JsonView)
    ensures
        model_id(item) == match item {
            JsonView::Text(text) => if trimmed(text).len() > 0 {
                Some(trimmed(text))
            } else {
                None
            },
            JsonView::Object(_) => if filled_in(item, "id"@) is Some {
                filled_in(item, "id"@)
            } else if filled_in(item, "modelId"@) is Some {
                filled_in(item, "modelId"@)
            } else if filled_in(item, "model"@) is Some {
                filled_in(item, "model"@)
            } else {
                filled_in(item, "name"@)
            },
            _ => None,
        },
{
    let keys = model_keys();
    reveal_with_fuel(first_id, 5);
    assert(keys.drop_first() =~= seq!["modelId"@, "model"@, "name"@]);
    assert(keys.drop_first().drop_first() =~= seq!["model"@, "name"@]);
    assert(keys.drop_first().drop_first().drop_first() =~= seq!["name"@]);
    assert(keys.drop_first().drop_first().drop_first().drop_first() =~= Seq::empty());
}

/// The ids of a list are those of its items, in order, with nothing for an item that names
/// no model.
pub proof fn every_model_of_a_list_is_named(a: Seq<JsonView>, b: Seq<JsonView>, item: JsonView)
    ensures
        model_ids(a + b) == model_ids(a) + model_ids(b),
        model_ids(seq![item]) == match model_id(item) {
            Some(id) => seq![id],
            None => Seq::empty(),
        },
        model_ids(Seq::empty()).len() == 0,
{
    lemma_model_ids_concat(a, b);
    assert(seq![item].drop_last() =~= Seq::empty());
    assert(model_ids(seq![item].drop_last()) =~= Seq::empty());
    if let Some(id) = model_id(item) {
        assert(model_ids(seq![item]) =~= seq![id]);
    }
}

/// Repetitions are dropped where they come later: what is left of the first texts stays in
/// front, whatever follows; no text is left twice and none is lost.
pub proof fn first_occurrences_stay_in_order(a: Seq<Seq<char>>, b: Seq<Seq<char>>)
    ensures
        distinct(a).len() <= distinct(a + b).len(),
        distinct(a + b).take(distinct(a).len() as int) == distinct(a),
        distinct(a + b).no_duplicates(),
        forall|text: Seq<char>|
            #[trigger] distinct(a + b).contains(text) <==> (a + b).contains(text),
    decreases b.len(),
{
    distinct_keeps_each_once(a + b);
    if b.len() == 0 {
        assert(a + b =~= a);
        assert(distinct(a).take(distinct(a).len() as int) =~= distinct(a));
    } else {
        first_occurrences_stay_in_order(a, b.drop_last());
        assert((a + b).drop_last() =~= a + b.drop_last());
        let before = distinct(a + b.drop_last());
        let n = distinct(a).len() as int;
        assert(distinct(a + b).take(n) =~= before.take(n));
    }
}

/// The models of a provider are all that its lists name, from its own list and from its
/// account catalog, without repetitions.
pub proof fn all_lists_of_a_provider_count(entry: JsonView)
    ensures
        collected_ids(entry) == distinct(model_ids(all_items(entry))),
        collected_ids(entry).no_duplicates(),
        forall|id: Seq<char>|
            #[trigger] collected_ids(entry).contains(id) <==> exists|i: int|
                0 <= i < all_items(entry).len() && model_id(#[trigger] all_items(entry)[i]) == Some(
                    id,
                ),
{
    let items = all_items(entry);
    assert(account_items(entry) =~= match field(entry, "accountModelCatalog"@) {
        Some(JsonView::Array(items)) => items,
        Some(catalog) => list_under(catalog, "modelIds"@) + list_under(catalog, "model_ids"@)
            + list_under(catalog, "models"@),
        None => Seq::empty(),
    });
    distinct_keeps_each_once(model_ids(items));
    assert forall|id: Seq<char>| #[trigger] collected_ids(entry).contains(id) <==> exists|i: int|
        0 <= i < items.len() && model_id(#[trigger] items[i]) == Some(id) by {
        lemma_model_ids_contain(items, id);
    }
}

proof fn lemma_model_ids_contain(items: Seq<JsonView>, id: Seq<char>)
    ensures
        model_ids(items).contains(id) <==> exists|i: int|
            0 <= i < items.len() && model_id(#[trigger] items[i]) == Some(id),
    decreases items.len(),
{
    if items.len() > 0 {
        let rest = items.drop_last();
        let before = model_ids(rest);
        let all = model_ids(items);
        lemma_model_ids_contain(rest, id);
        if all.contains(id) {
            let k = choose|k: int| 0 <= k < all.len() && all[k] == id;
            if k < before.len() {
                assert(before[k] == id);
                let i = choose|i: int| 0 <= i < rest.len() && model_id(#[trigger] rest[i]) == Some(
                    id,
                );
                assert(model_id(items[i]) == Some(id));
            } else {
                assert(model_id(items[items.len() - 1]) == Some(id));
            }
        }
        if exists|i: int| 0 <= i < items.len() && model_id(#[trigger] items[i]) == Some(id) {
            let i = choose|i: int| 0 <= i < items.len() && model_id(#[trigger] items[i]) == Some(
                id,
            );
            if i < rest.len() {
                assert(model_id(rest[i]) == Some(id));
                let k = choose|k: int| 0 <= k < before.len() && before[k] == id;
                assert(all[k] == id);
            } else {
                assert(all[before.len() as int] == id);
            }
        }
    }
}

/// A provider in a list goes by its `id`, if that is not blank, whatever its `name`; only
/// without one does the `name` count. It is shown by its `name`, or else by its id. It is
/// there exactly if it has an id and at least one model, and it has all of its models.
pub proof fn listed_provider_goes_by_its_id(provider: JsonView)
    ensures
        ({
            let id = filled_in(provider, "id"@);
            let name = filled_in(provider, "name"@);
            let models = distinct(model_ids(all_items(provider)));
            listed_provider(provider) == if (id is None && name is None) || models.len() == 0 {
                None
            } else {
                Some(
                    (
                        if id is Some {
                            id->0
                        } else {
                            name->0
                        },
                        if name is Some {
                            name->0
                        } else {
                            id->0
                        },
                        models,
                    ),
                )
            }
        }),
{
    let keys = provider_keys();
    reveal_with_fuel(first_id, 3);
    assert(keys.drop_first() =~= seq!["name"@]);
    assert(keys.drop_first().drop_first() =~= Seq::empty());
    all_lists_of_a_provider_count(provider);
}

/// A model's entry is named by the first of `id`, `modelId`, `model` and `name` that is not
/// blank. A provider's own id is its `id` or else its `name`, a fallback counts where it is
/// not blank, and a provider is shown by its `name` or else by the fallback.
pub proof fn entry_names_itself(entry: JsonView, text: Option<Seq<char>>, fallback: Seq<char>)
    ensures
        first_id(entry, provider_keys()) == if filled_in(entry, "id"@) is Some {
            filled_in(entry, "id"@)
        } else {
            filled_in(entry, "name"@)
        },
        first_id(entry, model_keys()) == if filled_in(entry, "id"@) is Some {
            filled_in(entry, "id"@)
        } else if filled_in(entry, "modelId"@) is Some {
            filled_in(entry, "modelId"@)
        } else if filled_in(entry, "model"@) is Some {
            filled_in(entry, "model"@)
        } else {
            filled_in(entry, "name"@)
        },
        filled(text) == match text {
            Some(text) => if trimmed(text).len() > 0 {
                Some(trimmed(text))
            } else {
                None
            },
            None => None,
        },
        display_name(entry, fallback) == if filled_in(entry, "name"@) is Some {
            filled_in(entry, "name"@)->0
        } else {
            fallback
        },
{
    let keys = provider_keys();
    reveal_with_fuel(first_id, 5);
    assert(keys.drop_first() =~= seq!["name"@]);
    assert(keys.drop_first().drop_first() =~= Seq::empty());
    let names = model_keys();
    assert(names.drop_first() =~= seq!["modelId"@, "model"@, "name"@]);
    assert(names.drop_first().drop_first() =~= seq!["model"@, "name"@]);
    assert(names.drop_first().drop_first().drop_first() =~= seq!["name"@]);
    assert(names.drop_first().drop_first().drop_first().drop_first() =~= Seq::empty());
}

/// A provider under a key goes by the key without the white space around it, whatever the
/// entry says. It is shown by its `name`, or else by the key; a list of models is shown by
/// the key. It is there exactly if the key is not blank and it has at least one model.
pub proof fn keyed_provider_goes_by_its_key(key: Seq<char>, provider: JsonView)
    ensures
        ({
            let id = trimmed(key);
            let name = filled_in(provider, "name"@);
            let models = match provider {
                JsonView::Object(_) => distinct(model_ids(all_items(provider))),
                JsonView::Array(items) => distinct(model_ids(items)),
                _ => Seq::empty(),
            };
            keyed_provider(key, provider) == if id.len() == 0 || models.len() == 0 {
                None
            } else {
                Some(
                    (
                        id,
                        if provider is Object && name is Some {
                            name->0
                        } else {
                            id
                        },
                        models,
                    ),
                )
            }
        }),
{
    all_lists_of_a_provider_count(provider);
}

/// The providers of a document are those of its `providers`, a list or an object: every
/// one that is there, in order.
pub proof fn every_provider_is_read(
    value: JsonView,
    a: Seq<JsonView>,
    b: Seq<JsonView>,
    x: Seq<(Seq<char>, JsonView)>,
    y: Seq<(Seq<char>, JsonView)>,
)
    ensures
        catalog_providers(value) == match field(value, "providers"@) {
            Some(JsonView::Array(providers)) => listed_providers(providers),
            Some(JsonView::Object(entries)) => keyed_providers(entries),
            _ => Seq::empty(),
        },
        listed_providers(a + b) == listed_providers(a) + listed_providers(b),
        keyed_providers(x + y) == keyed_providers(x) + keyed_providers(y),
{
    lemma_listed_concat(a, b);
    lemma_keyed_concat(x, y);
}

/// One provider alone is read as what it is.
pub proof fn one_provider_is_read(key: Seq<char>, provider: JsonView)
    ensures
        listed_providers(seq![provider]) == match listed_provider(provider) {
            Some(row) => seq![row],
            None => Seq::empty(),
        },
        keyed_providers(seq![(key, provider)]) == match keyed_provider(key, provider) {
            Some(row) => seq![row],
            None => Seq::empty(),
        },
        listed_providers(Seq::empty()).len() == 0,
        keyed_providers(Seq::empty()).len() == 0,
{
    let list = seq![provider];
    let entries = seq![(key, provider)];
    assert(list.drop_last() =~= Seq::empty());
    assert(entries.drop_last() =~= Seq::empty());
    assert(listed_providers(list.drop_last()) =~= Seq::empty());
    assert(keyed_providers(entries.drop_last()) =~= Seq::empty());
    if let Some(row) = listed_provider(provider) {
        assert(listed_providers(list) =~= seq![row]);
    }
    if let Some(row) = keyed_provider(key, provider) {
        assert(keyed_providers(entries) =~= seq![row]);
    }
}

proof fn lemma_listed_concat(a: Seq<JsonView>, b: Seq<JsonView>)
    ensures
        listed_providers(a + b) == listed_providers(a) + listed_providers(b),
    decreases b.len(),
{
    if b.len() == 0 {
        assert(a + b =~= a);
        assert(listed_providers(a) + listed_providers(b) =~= listed_providers(a));
    } else {
        assert((a + b).drop_last() =~= a + b.drop_last());
        lemma_listed_concat(a, b.drop_last());
        assert(listed_providers(a + b) =~= listed_providers(a) + listed_providers(b));
    }
}

proof fn lemma_keyed_concat(a: Seq<(Seq<char>, JsonView)>, b: Seq<(Seq<char>, JsonView)>)
    ensures
        keyed_providers(a + b) == keyed_providers(a) + keyed_providers(b),
    decreases b.len(),
{
    if b.len() == 0 {
        assert(a + b =~= a);
        assert(keyed_providers(a) + keyed_providers(b) =~= keyed_providers(a));
    } else {
        assert((a + b).drop_last() =~= a + b.drop_last());
        lemma_keyed_concat(a, b.drop_last());
        assert(keyed_providers(a + b) =~= keyed_providers(a) + keyed_providers(b));
    }
}

/// The text of the value that stands under the first of these keys that is there; a key
/// that is there counts even if what it holds does not.
pub open spec fn first_there(
    entry: JsonView,
    a: Seq<char>,
    b: Seq<char>,
    c: Seq<char>,
) -> Option<Seq<char>> {
    if field(entry, a) is Some {
        filled_in(entry, a)
    } else if field(entry, b) is Some {
        filled_in(entry, b)
    } else {
        filled_in(entry, c)
    }
}

/// The default model is what the settings have as provider and model under `defaultModel`,
/// each without the white space around it; there is none unless both are there.
pub proof fn default_model_is_what_the_settings_name(value: JsonView)
    ensures
        default_model(value) == match field(value, "defaultModel"@) {
            Some(JsonView::Object(entries)) => {
                let entry = JsonView::Object(entries);
                let provider = first_there(entry, "provider"@, "providerId"@, "providerId"@);
                let model = first_there(entry, "modelId"@, "model"@, "id"@);
                if provider is Some && model is Some {
                    Some((provider->0, model->0))
                } else {
                    None
                }
            },
            _ => None,
        },
{
    reveal_with_fuel(first_present, 4);
    let providers = seq!["provider"@, "providerId"@];
    let models = seq!["modelId"@, "model"@, "id"@];
    assert(providers.drop_first() =~= seq!["providerId"@]);
    assert(providers.drop_first().drop_first() =~= Seq::empty());
    assert(models.drop_first() =~= seq!["model"@, "id"@]);
    assert(models.drop_first().drop_first() =~= seq!["id"@]);
    assert(models.drop_first().drop_first().drop_first() =~= Seq::empty());
}

} // verus!
