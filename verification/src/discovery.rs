//! The discovered part of the model catalog: the models of all signed-in accounts, in
//! order and without repetitions, with the default model in front.

use crate::catalog::{
    catalog_providers, default_model, parse_catalog_with_display, parse_default_model, ProviderView,
};
use crate::json::{json_document, parse_json, Json, JsonView};
use crate::models::{
    account_view, catalog_view, discovered_row, discovered_view, effort_view, full_catalog, ladder,
    permission_view, row_id, static_models, static_rows,
};
use crate::protocol::{Model, ModelView};
use crate::text::{
    comes_before, same_text, text_before, text_order_is_total, text_order_is_transitive,
};
use vstd::prelude::*;
use vstd::string::StringExecFns;

verus! {

/// The text of an account's configuration files, as far as they could be read.
#[derive(Debug, PartialEq, Eq)]
pub struct AccountFiles {
    pub models: Option<String>,
    pub settings: Option<String>,
}

/// An account's configuration documents, as far as they could be read.
#[derive(Debug, PartialEq, Eq)]
pub struct AccountDocuments {
    pub models: Option<Json>,
    pub settings: Option<Json>,
}

/// What [`AccountDocuments`] stand for.
pub struct DocumentsView {
    pub models: Option<JsonView>,
    pub settings: Option<JsonView>,
}

impl DeepView for AccountDocuments {
    type V = DocumentsView;

    open spec fn deep_view(&self) -> DocumentsView {
        DocumentsView { models: self.models.deep_view(), settings: self.settings.deep_view() }
    }
}

/// A model of a provider: the provider's id, the model's id and the provider's
/// display name.
pub type PairView = (Seq<char>, Seq<char>, Seq<char>);

/// What a text reads as, if there is one and it is JSON.
pub open spec fn document(text: Option<String>) -> Option<JsonView> {
    match text {
        Some(text) => json_document(text@),
        None => None,
    }
}

/// The documents in an account's files.
pub open spec fn documents(files: AccountFiles) -> DocumentsView {
    DocumentsView { models: document(files.models), settings: document(files.settings) }
}

/// The models of a provider.
pub open spec fn provider_pairs(provider: ProviderView) -> Seq<PairView> {
    provider.2.map_values(|model_id: Seq<char>| (provider.0, model_id, provider.1))
}

/// The models of several providers, one provider after the other.
pub open spec fn pairs_of(providers: Seq<ProviderView>) -> Seq<PairView>
    decreases providers.len(),
{
    if providers.len() == 0 {
        Seq::empty()
    } else {
        pairs_of(providers.drop_last()) + provider_pairs(providers.last())
    }
}

/// The models of an account.
pub open spec fn account_pairs(account: DocumentsView) -> Seq<PairView> {
    match account.models {
        Some(models) => pairs_of(catalog_providers(models)),
        None => Seq::empty(),
    }
}

/// The models of several accounts, one account after the other.
pub open spec fn all_pairs(accounts: Seq<DocumentsView>) -> Seq<PairView>
    decreases accounts.len(),
{
    if accounts.len() == 0 {
        Seq::empty()
    } else {
        all_pairs(accounts.drop_last()) + account_pairs(accounts.last())
    }
}

/// The default model of an account. The settings of an account without a catalog
/// do not count.
pub open spec fn account_default(account: DocumentsView) -> Option<(Seq<char>, Seq<char>)> {
    match (account.models, account.settings) {
        (Some(_), Some(settings)) => default_model(settings),
        _ => None,
    }
}

/// The default model of the first account that has one.
pub open spec fn first_default(accounts: Seq<DocumentsView>) -> Option<(Seq<char>, Seq<char>)>
    decreases accounts.len(),
{
    if accounts.len() == 0 {
        None
    } else {
        let before = first_default(accounts.drop_last());
        if before is Some {
            before
        } else {
            account_default(accounts.last())
        }
    }
}

/// Two models have the same provider and the same id.
pub open spec fn same_pair(a: PairView, b: PairView) -> bool {
    a.0 == b.0 && a.1 == b.1
}

/// A model comes before another: by provider, then by id. The display name plays no
/// part.
pub open spec fn pair_before(a: PairView, b: PairView) -> bool {
    text_before(a.0, b.0) || (a.0 == b.0 && text_before(a.1, b.1))
}

/// A model put in its place, unless it is there already.
pub open spec fn placed(pairs: Seq<PairView>, pair: PairView) -> Seq<PairView>
    decreases pairs.len(),
{
    if pairs.len() == 0 {
        seq![pair]
    } else if same_pair(pairs[0], pair) {
        pairs
    } else if pair_before(pair, pairs[0]) {
        seq![pair] + pairs
    } else {
        seq![pairs[0]] + placed(pairs.drop_first(), pair)
    }
}

/// The models in order, each once, with the display name it has where it comes
/// first.
pub open spec fn ordered(pairs: Seq<PairView>) -> Seq<PairView>
    decreases pairs.len(),
{
    if pairs.len() == 0 {
        Seq::empty()
    } else {
        placed(ordered(pairs.drop_last()), pairs.last())
    }
}

/// The catalog row of a model.
pub open spec fn pair_row(pair: PairView) -> ModelView {
    discovered_view(pair.0, pair.2, pair.1)
}

/// One of the rows has this id.
pub open spec fn has_row(rows: Seq<ModelView>, id: Seq<char>) -> bool {
    exists|i: int| 0 <= i < rows.len() && (#[trigger] rows[i]).id == id
}

/// The rows of models, in order; of several rows with one id the first.
pub open spec fn rows_of(pairs: Seq<PairView>) -> Seq<ModelView>
    decreases pairs.len(),
{
    if pairs.len() == 0 {
        Seq::empty()
    } else {
        let before = rows_of(pairs.drop_last());
        let row = pair_row(pairs.last());
        if has_row(before, row.id) {
            before
        } else {
            before.push(row)
        }
    }
}

/// Where the first row with this id stands; the number of rows if there is none.
pub open spec fn row_index(rows: Seq<ModelView>, id: Seq<char>) -> int
    decreases rows.len(),
{
    if rows.len() == 0 || rows[0].id == id {
        0
    } else {
        1 + row_index(rows.drop_first(), id)
    }
}

/// The rows with that of the default model moved to the front, if it is among them.
pub open spec fn promoted(
    rows: Seq<ModelView>,
    default: Option<(Seq<char>, Seq<char>)>,
) -> Seq<ModelView> {
    match default {
        Some((provider, model_id)) => {
            let i = row_index(rows, row_id(provider, model_id));
            if i < rows.len() {
                seq![rows[i]] + rows.remove(i)
            } else {
                rows
            }
        },
        None => rows,
    }
}

/// The rows that the accounts' documents describe.
pub open spec fn discovered_rows(accounts: Seq<DocumentsView>) -> Seq<ModelView> {
    promoted(rows_of(ordered(all_pairs(accounts))), first_default(accounts))
}

/// Appends the models of a provider.
fn push_provider(
    provider: &(String, String, Vec<String>),
    pairs: &mut Vec<(String, String, String)>,
)
    ensures
        final(pairs).deep_view() == old(pairs).deep_view() + provider_pairs(provider.deep_view()),
{
    let ghost before = pairs.deep_view();
    let ghost all = provider_pairs(provider.deep_view());
    let mut i: usize = 0;
    while i < provider.2.len()
        invariant
            i <= provider.2@.len(),
            all == provider_pairs(provider.deep_view()),
            pairs.deep_view() == before + all.take(i as int),
        decreases provider.2@.len() - i,
    {
        let ghost sofar = pairs.deep_view();
        pairs.push((provider.0.clone(), provider.2[i].clone(), provider.1.clone()));
        assert(pairs.deep_view() =~= sofar.push(all[i as int]));
        assert(before + all.take(i + 1) =~= sofar.push(all[i as int]));
        i += 1;
    }
    assert(all.take(i as int) =~= all);
}

/// Appends the models of an account, in the order of its catalog.
fn push_account(models: &Json, pairs: &mut Vec<(String, String, String)>)
    ensures
        final(pairs).deep_view() == old(pairs).deep_view() + pairs_of(
            catalog_providers(models.deep_view()),
        ),
{
    let providers = parse_catalog_with_display(models);
    let ghost views = providers.deep_view();
    let ghost before = pairs.deep_view();
    let mut i: usize = 0;
    assert(before + Seq::empty() =~= before);
    while i < providers.len()
        invariant
            i <= providers@.len(),
            views == providers.deep_view(),
            pairs.deep_view() == before + pairs_of(views.take(i as int)),
        decreases providers@.len() - i,
    {
        assert(views.take(i + 1).drop_last() =~= views.take(i as int));
        push_provider(&providers[i], pairs);
        assert(before + pairs_of(views.take(i as int)) + provider_pairs(views[i as int]) =~= before
            + pairs_of(views.take(i + 1)));
        i += 1;
    }
    assert(views.take(i as int) =~= views);
}

/// Puts a model in its place, unless it is there already.
fn place(pairs: &mut Vec<(String, String, String)>, pair: (String, String, String))
    ensures
        final(pairs).deep_view() == placed(old(pairs).deep_view(), pair.deep_view()),
{
    let ghost all = pairs.deep_view();
    let ghost new = pair.deep_view();
    let mut i: usize = 0;
    assert(all.skip(0) =~= all);
    assert(all.take(0) + placed(all, new) =~= placed(all, new));
    while i < pairs.len()
        invariant
            i <= pairs@.len(),
            all == old(pairs).deep_view(),
            all == pairs.deep_view(),
            new == pair.deep_view(),
            placed(all, new) == all.take(i as int) + placed(all.skip(i as int), new),
        decreases pairs@.len() - i,
    {
        let ghost rest = all.skip(i as int);
        assert(rest[0] == pairs@[i as int].deep_view());
        assert(rest.drop_first() =~= all.skip(i + 1));
        let same_provider = same_text(pairs[i].0.as_str(), pair.0.as_str());
        if same_provider && same_text(pairs[i].1.as_str(), pair.1.as_str()) {
            assert(all.take(i as int) + rest =~= all);
            return;
        }
        if comes_before(pair.0.as_str(), pairs[i].0.as_str()) || (same_provider && comes_before(
            pair.1.as_str(),
            pairs[i].1.as_str(),
        )) {
            pairs.insert(i, pair);
            assert(pairs.deep_view() =~= all.take(i as int) + (seq![new] + rest));
            return;
        }
        assert(all.take(i as int) + (seq![rest[0]] + placed(rest.drop_first(), new)) =~= all.take(
            i + 1,
        ) + placed(all.skip(i + 1), new));
        i += 1;
    }
    pairs.push(pair);
    assert(all.skip(i as int) =~= Seq::empty());
    assert(pairs.deep_view() =~= all.take(i as int) + seq![new]);
}

/// The models in order, each once.
fn order_pairs(pairs: Vec<(String, String, String)>) -> (sorted: Vec<(String, String, String)>)
    ensures
        sorted.deep_view() == ordered(pairs.deep_view()),
{
    let ghost views = pairs.deep_view();
    let mut sorted: Vec<(String, String, String)> = Vec::new();
    assert(sorted.deep_view() =~= ordered(views.take(0)));
    for pair in it: pairs.into_iter()
        invariant
            it.seq() == pairs@,
            views == pairs.deep_view(),
            sorted.deep_view() == ordered(views.take(it.index())),
    {
        assert(views.take(it.index() + 1).drop_last() =~= views.take(it.index()));
        place(&mut sorted, pair);
    }
    assert(views.take(views.len() as int) =~= views);
    sorted
}

/// Where the first row with this id stands.
fn find_row(rows: &Vec<Model>, id: &str) -> (index: usize)
    ensures
        index <= rows@.len(),
        index == row_index(rows.deep_view(), id@),
        index < rows@.len() <==> has_row(rows.deep_view(), id@),
{
    let ghost views = rows.deep_view();
    let mut i: usize = 0;
    assert(views.skip(0) =~= views);
    while i < rows.len()
        invariant
            i <= rows@.len(),
            views == rows.deep_view(),
            row_index(views, id@) == i + row_index(views.skip(i as int), id@),
            forall|k: int| 0 <= k < i ==> (#[trigger] views[k]).id != id@,
        decreases rows@.len() - i,
    {
        assert(views.skip(i as int)[0] == rows@[i as int].deep_view());
        assert(views.skip(i as int).drop_first() =~= views.skip(i + 1));
        if same_text(rows[i].id.as_str(), id) {
            assert(views[i as int].id == id@);
            return i;
        }
        i += 1;
    }
    i
}

/// The rows of models that are in order.
fn make_rows(pairs: &Vec<(String, String, String)>) -> (rows: Vec<Model>)
    ensures
        rows.deep_view() == rows_of(pairs.deep_view()),
{
    let ghost views = pairs.deep_view();
    let mut rows: Vec<Model> = Vec::new();
    let mut i: usize = 0;
    while i < pairs.len()
        invariant
            i <= pairs@.len(),
            views == pairs.deep_view(),
            rows.deep_view() == rows_of(views.take(i as int)),
        decreases pairs@.len() - i,
    {
        assert(views.take(i + 1).drop_last() =~= views.take(i as int));
        let row = discovered_row(pairs[i].0.as_str(), pairs[i].2.as_str(), pairs[i].1.as_str());
        let ghost before = rows.deep_view();
        if find_row(&rows, row.id.as_str()) == rows.len() {
            rows.push(row);
            assert(rows.deep_view() =~= before.push(row.deep_view()));
        }
        i += 1;
    }
    assert(views.take(i as int) =~= views);
    rows
}

/// Moves the row of the default model to the front, if it is among the rows.
pub fn promote(rows: Vec<Model>, default: &Option<(String, String)>) -> (moved: Vec<Model>)
    ensures
        moved.deep_view() == promoted(rows.deep_view(), default.deep_view()),
{
    let ghost views = rows.deep_view();
    let mut rows = rows;
    if let Some((provider, model_id)) = default {
        let id = provider.clone().concat("/").concat(model_id.as_str());
        let index = find_row(&rows, id.as_str());
        if index < rows.len() {
            let row = rows.remove(index);
            rows.insert(0, row);
            assert(rows.deep_view() =~= seq![views[index as int]] + views.remove(index as int));
        }
    }
    rows
}

/// The rows that the accounts' documents describe: sorted by provider and model,
/// each once, with that of the default model in front.
pub fn discovered_models(accounts: &Vec<AccountDocuments>) -> (rows: Vec<Model>)
    ensures
        rows.deep_view() == discovered_rows(accounts.deep_view()),
{
    let ghost views = accounts.deep_view();
    let mut pairs: Vec<(String, String, String)> = Vec::new();
    let mut default: Option<(String, String)> = None;
    let mut i: usize = 0;
    assert(pairs.deep_view() =~= all_pairs(views.take(0)));
    while i < accounts.len()
        invariant
            i <= accounts@.len(),
            views == accounts.deep_view(),
            pairs.deep_view() == all_pairs(views.take(i as int)),
            default.deep_view() == first_default(views.take(i as int)),
        decreases accounts@.len() - i,
    {
        assert(views.take(i + 1).drop_last() =~= views.take(i as int));
        let ghost before = pairs.deep_view();
        if let Some(models) = &accounts[i].models {
            push_account(models, &mut pairs);
            if default.is_none() {
                if let Some(settings) = &accounts[i].settings {
                    default = parse_default_model(settings);
                }
            }
        } else {
            assert(before + Seq::empty() =~= before);
        }
        i += 1;
    }
    assert(views.take(i as int) =~= views);
    let sorted = order_pairs(pairs);
    let rows = make_rows(&sorted);
    promote(rows, &default)
}

/// Reads the documents in an account's files.
pub fn read_documents(files: &AccountFiles) -> (account: AccountDocuments)
    ensures
        account.deep_view() == documents(*files),
{
    let models = match &files.models {
        Some(text) => parse_json(text.as_str()),
        None => None,
    };
    let settings = match &files.settings {
        Some(text) => parse_json(text.as_str()),
        None => None,
    };
    AccountDocuments { models, settings }
}

/// The rows that the accounts' files describe.
pub fn discover_catalog(files: &Vec<AccountFiles>) -> (rows: Vec<Model>)
    ensures
        rows.deep_view() == discovered_rows(
            files@.map_values(|files: AccountFiles| documents(files)),
        ),
{
    let ghost read = |files: AccountFiles| documents(files);
    let mut accounts: Vec<AccountDocuments> = Vec::new();
    let mut i: usize = 0;
    while i < files.len()
        invariant
            i <= files@.len(),
            read == (|files: AccountFiles| documents(files)),
            accounts.deep_view() == files@.take(i as int).map_values(read),
        decreases files@.len() - i,
    {
        let ghost before = accounts.deep_view();
        accounts.push(read_documents(&files[i]));
        assert(accounts.deep_view() =~= before.push(read(files@[i as int])));
        assert(files@.take(i + 1).map_values(read) =~= before.push(read(files@[i as int])));
        i += 1;
    }
    assert(files@.take(i as int) =~= files@);
    discovered_models(&accounts)
}

/// The catalog, given the signed-in accounts, if they are known, and the documents of
/// those accounts. Where no account is known to be signed in, it is the routing rows
/// alone.
pub open spec fn live_view(
    signed_in: Option<Seq<Seq<char>>>,
    accounts: Seq<DocumentsView>,
) -> Seq<ModelView> {
    match signed_in {
        Some(ids) if ids.len() > 0 => catalog_view(discovered_rows(accounts), ids),
        _ => static_rows(),
    }
}

/// The catalog, given the signed-in accounts, if they are known, and the files of those
/// accounts. A failed discovery is never an error.
pub fn live_catalog(signed_in: Option<&[String]>, files: &Vec<AccountFiles>) -> (catalog: Vec<
    Model,
>)
    ensures
        catalog.deep_view() == live_view(
            signed_in.deep_view(),
            files@.map_values(|files: AccountFiles| documents(files)),
        ),
{
    match signed_in {
        Some(ids) => {
            if ids.len() == 0 {
                static_models()
            } else {
                full_catalog(discover_catalog(files), ids)
            }
        },
        None => static_models(),
    }
}

/// The models ascend by provider and then by id; none occurs twice.
pub open spec fn ascending(pairs: Seq<PairView>) -> bool {
    forall|i: int, j: int|
        0 <= i < j < pairs.len() ==> pair_before(#[trigger] pairs[i], #[trigger] pairs[j])
}

/// The models hold one with this provider and id.
pub open spec fn has_pair(pairs: Seq<PairView>, pair: PairView) -> bool {
    exists|i: int| 0 <= i < pairs.len() && same_pair(#[trigger] pairs[i], pair)
}

/// The order of models is total and transitive.
proof fn lemma_pair_order(a: PairView, b: PairView, c: PairView)
    ensures
        !pair_before(a, a),
        same_pair(a, b) || pair_before(a, b) || pair_before(b, a),
        pair_before(a, b) ==> !same_pair(a, b) && !pair_before(b, a),
        pair_before(a, b) && pair_before(b, c) ==> pair_before(a, c),
{
    text_order_is_total(a.0, b.0);
    text_order_is_total(a.1, b.1);
    text_order_is_total(b.0, b.0);
    text_order_is_total(b.1, b.1);
    if text_before(a.0, b.0) && text_before(b.0, c.0) {
        text_order_is_transitive(a.0, b.0, c.0);
    }
    if text_before(a.1, b.1) && text_before(b.1, c.1) {
        text_order_is_transitive(a.1, b.1, c.1);
    }
    if text_before(a.0, b.0) && text_before(b.0, a.0) {
        text_order_is_transitive(a.0, b.0, a.0);
    }
    if text_before(a.1, b.1) && text_before(b.1, a.1) {
        text_order_is_transitive(a.1, b.1, a.1);
    }
}

/// Putting a model in its place keeps the order, drops nothing, and adds the model if it
/// was not there.
proof fn lemma_placed(pairs: Seq<PairView>, pair: PairView)
    requires
        ascending(pairs),
    ensures
        ascending(placed(pairs, pair)),
        forall|e: PairView|
            #[trigger] placed(pairs, pair).contains(e) <==> pairs.contains(e) || (e == pair
                && !has_pair(pairs, pair)),
    decreases pairs.len(),
{
    let all = placed(pairs, pair);
    if pairs.len() == 0 {
        assert(!has_pair(pairs, pair));
        assert(all[0] == pair);
    } else {
        let first = pairs[0];
        let rest = pairs.drop_first();
        lemma_pair_order(first, pair, first);
        assert(pairs =~= seq![first] + rest);
        if same_pair(first, pair) {
            assert(same_pair(pairs[0], pair));
        } else if pair_before(pair, first) {
            assert forall|i: int| 0 <= i < pairs.len() implies pair_before(
                pair,
                #[trigger] pairs[i],
            ) by {
                lemma_pair_order(pair, first, pairs[i]);
            }
            assert forall|i: int| 0 <= i < pairs.len() implies !same_pair(
                #[trigger] pairs[i],
                pair,
            ) by {
                lemma_pair_order(pair, pairs[i], pair);
            }
            assert(!has_pair(pairs, pair));
            assert forall|i: int, j: int| 0 <= i < j < all.len() implies pair_before(
                #[trigger] all[i],
                #[trigger] all[j],
            ) by {
                assert(all[j] == pairs[j - 1]);
                if i > 0 {
                    assert(all[i] == pairs[i - 1]);
                }
            }
            assert forall|e: PairView| all.contains(e) <==> pairs.contains(e) || e == pair by {
                lemma_cons_contains(pair, pairs, e);
            }
        } else {
            assert(ascending(rest)) by {
                assert forall|i: int, j: int| 0 <= i < j < rest.len() implies pair_before(
                    #[trigger] rest[i],
                    #[trigger] rest[j],
                ) by {
                    assert(rest[i] == pairs[i + 1]);
                    assert(rest[j] == pairs[j + 1]);
                }
            }
            lemma_placed(rest, pair);
            let inner = placed(rest, pair);
            assert(has_pair(pairs, pair) <==> has_pair(rest, pair)) by {
                if has_pair(pairs, pair) {
                    let i = choose|i: int| 0 <= i < pairs.len() && same_pair(
                        #[trigger] pairs[i],
                        pair,
                    );
                    assert(rest[i - 1] == pairs[i]);
                }
                if has_pair(rest, pair) {
                    let i = choose|i: int| 0 <= i < rest.len() && same_pair(
                        #[trigger] rest[i],
                        pair,
                    );
                    assert(pairs[i + 1] == rest[i]);
                }
            }
            assert forall|i: int, j: int| 0 <= i < j < all.len() implies pair_before(
                #[trigger] all[i],
                #[trigger] all[j],
            ) by {
                assert(all[j] == inner[j - 1]);
                if i > 0 {
                    assert(all[i] == inner[i - 1]);
                } else {
                    assert(inner.contains(inner[j - 1]));
                    if rest.contains(inner[j - 1]) {
                        let k = choose|k: int| 0 <= k < rest.len() && rest[k] == inner[j - 1];
                        assert(pairs[k + 1] == rest[k]);
                    }
                }
            }
            assert forall|e: PairView| all.contains(e) <==> pairs.contains(e) || (e == pair
                && !has_pair(pairs, pair)) by {
                lemma_cons_contains(first, inner, e);
                lemma_cons_contains(first, rest, e);
            }
        }
    }
}

proof fn lemma_cons_contains(first: PairView, rest: Seq<PairView>, e: PairView)
    ensures
        (seq![first] + rest).contains(e) <==> e == first || rest.contains(e),
{
    let all = seq![first] + rest;
    if e == first {
        assert(all[0] == e);
    }
    if rest.contains(e) {
        let i = choose|i: int| 0 <= i < rest.len() && rest[i] == e;
        assert(all[i + 1] == e);
    }
    if all.contains(e) && e != first {
        let i = choose|i: int| 0 <= i < all.len() && all[i] == e;
        assert(rest[i - 1] == e);
    }
}

/// Models put in order ascend by provider and then by id, and none occurs twice.
pub proof fn ordered_models_ascend(pairs: Seq<PairView>)
    ensures
        ascending(ordered(pairs)),
    decreases pairs.len(),
{
    if pairs.len() > 0 {
        ordered_models_ascend(pairs.drop_last());
        lemma_placed(ordered(pairs.drop_last()), pairs.last());
    }
}

/// A model that stands at this position is not among those before it.
pub open spec fn first_seen(pairs: Seq<PairView>, i: int) -> bool {
    0 <= i < pairs.len() && forall|k: int|
        0 <= k < i ==> !same_pair(#[trigger] pairs[k], pairs[i])
}

/// Putting models in order loses none of them, and keeps of each the one that was seen
/// first, with its display name.
pub proof fn ordered_keeps_what_was_seen_first(pairs: Seq<PairView>, pair: PairView)
    ensures
        ordered(pairs).contains(pair) <==> exists|i: int|
            #[trigger] first_seen(pairs, i) && pairs[i] == pair,
    decreases pairs.len(),
{
    if pairs.len() > 0 {
        let rest = pairs.drop_last();
        let last = pairs.last();
        ordered_models_ascend(rest);
        lemma_placed(ordered(rest), last);
        ordered_keeps_what_was_seen_first(rest, pair);
        lemma_ordered_has(rest, last);
        if ordered(rest).contains(pair) {
            let i = choose|i: int| #[trigger] first_seen(rest, i) && rest[i] == pair;
            assert forall|k: int| 0 <= k < i implies !same_pair(#[trigger] pairs[k], pairs[i]) by {
                assert(rest[k] == pairs[k]);
            }
            assert(first_seen(pairs, i) && pairs[i] == pair);
        }
        if pair == last && !has_pair(rest, last) {
            let i = pairs.len() - 1;
            assert forall|k: int| 0 <= k < i implies !same_pair(#[trigger] pairs[k], pairs[i]) by {
                assert(rest[k] == pairs[k]);
            }
            assert(first_seen(pairs, i) && pairs[i] == pair);
        }
        if exists|i: int| #[trigger] first_seen(pairs, i) && pairs[i] == pair {
            let i = choose|i: int| #[trigger] first_seen(pairs, i) && pairs[i] == pair;
            if i < rest.len() {
                assert forall|k: int| 0 <= k < i implies !same_pair(#[trigger] rest[k], rest[i]) by {
                    assert(rest[k] == pairs[k]);
                }
                assert(first_seen(rest, i) && rest[i] == pair);
            } else {
                assert(!has_pair(rest, last)) by {
                    if has_pair(rest, last) {
                        let k = choose|k: int| 0 <= k < rest.len() && same_pair(
                            #[trigger] rest[k],
                            last,
                        );
                        assert(same_pair(pairs[k], pairs[i]));
                    }
                }
            }
        }
    }
}

/// A model is among the ordered ones exactly if it was there before.
proof fn lemma_ordered_has(pairs: Seq<PairView>, pair: PairView)
    ensures
        has_pair(ordered(pairs), pair) <==> has_pair(pairs, pair),
    decreases pairs.len(),
{
    if pairs.len() > 0 {
        let rest = pairs.drop_last();
        let last = pairs.last();
        let before = ordered(rest);
        let all = ordered(pairs);
        ordered_models_ascend(rest);
        lemma_placed(before, last);
        lemma_ordered_has(rest, pair);
        lemma_ordered_has(rest, last);
        if has_pair(all, pair) {
            let i = choose|i: int| 0 <= i < all.len() && same_pair(#[trigger] all[i], pair);
            assert(all.contains(all[i]));
            if before.contains(all[i]) {
                let k = choose|k: int| 0 <= k < before.len() && before[k] == all[i];
                assert(same_pair(before[k], pair));
                let m = choose|m: int| 0 <= m < rest.len() && same_pair(#[trigger] rest[m], pair);
                assert(same_pair(pairs[m], pair));
            } else {
                assert(same_pair(pairs[pairs.len() - 1], pair));
            }
        }
        if has_pair(pairs, pair) {
            let i = choose|i: int| 0 <= i < pairs.len() && same_pair(#[trigger] pairs[i], pair);
            if i < rest.len() {
                assert(same_pair(rest[i], pair));
                let k = choose|k: int| 0 <= k < before.len() && same_pair(#[trigger] before[k], pair);
                assert(before.contains(before[k]));
                lemma_contained_pair(all, before[k], pair);
            } else if has_pair(before, last) {
                let k = choose|k: int| 0 <= k < before.len() && same_pair(#[trigger] before[k], last);
                assert(before.contains(before[k]));
                lemma_contained_pair(all, before[k], pair);
            } else {
                assert(placed(before, last).contains(last));
                lemma_contained_pair(all, last, pair);
            }
        }
    }
}

proof fn lemma_contained_pair(pairs: Seq<PairView>, held: PairView, pair: PairView)
    requires
        pairs.contains(held),
        same_pair(held, pair),
    ensures
        has_pair(pairs, pair),
{
    let i = choose|i: int| 0 <= i < pairs.len() && pairs[i] == held;
    assert(same_pair(pairs[i], pair));
}

/// Two lists hold the same models, perhaps under other display names.
pub open spec fn same_pairs(a: Seq<PairView>, b: Seq<PairView>) -> bool {
    a.len() == b.len() && forall|i: int| 0 <= i < a.len() ==> same_pair(#[trigger] a[i], b[i])
}

/// Display names play no part in the order of models, nor in which models there are.
pub proof fn display_names_do_not_matter(a: Seq<PairView>, b: Seq<PairView>)
    requires
        same_pairs(a, b),
    ensures
        same_pairs(ordered(a), ordered(b)),
    decreases a.len(),
{
    if a.len() > 0 {
        let x = a.drop_last();
        let y = b.drop_last();
        assert(same_pairs(x, y)) by {
            assert forall|i: int| 0 <= i < x.len() implies same_pair(#[trigger] x[i], y[i]) by {
                assert(same_pair(a[i], b[i]));
            }
        }
        display_names_do_not_matter(x, y);
        assert(same_pair(a[a.len() - 1], b[a.len() - 1]));
        lemma_same_placed(ordered(x), ordered(y), a.last(), b.last());
    }
}

proof fn lemma_same_placed(a: Seq<PairView>, b: Seq<PairView>, x: PairView, y: PairView)
    requires
        same_pairs(a, b),
        same_pair(x, y),
    ensures
        same_pairs(placed(a, x), placed(b, y)),
    decreases a.len(),
{
    if a.len() > 0 {
        assert(same_pair(a[0], b[0]));
        let p = a.drop_first();
        let q = b.drop_first();
        assert(same_pairs(p, q)) by {
            assert forall|i: int| 0 <= i < p.len() implies same_pair(#[trigger] p[i], q[i]) by {
                assert(same_pair(a[i + 1], b[i + 1]));
            }
        }
        lemma_same_placed(p, q, x, y);
        let all = placed(a, x);
        let other = placed(b, y);
        assert forall|i: int| 0 <= i < all.len() implies same_pair(#[trigger] all[i], other[i]) by {
            if same_pair(a[0], x) {
                assert(same_pair(a[i], b[i]));
            } else if pair_before(x, a[0]) {
                if i > 0 {
                    assert(same_pair(a[i - 1], b[i - 1]));
                }
            } else if i > 0 {
                assert(same_pair(placed(p, x)[i - 1], placed(q, y)[i - 1]));
            }
        }
    }
}

/// No two of the rows have one id.
pub open spec fn distinct_rows(rows: Seq<ModelView>) -> bool {
    forall|i: int, j: int|
        0 <= i < j < rows.len() ==> (#[trigger] rows[i]).id != (#[trigger] rows[j]).id
}

/// The rows of models have distinct ids.
pub proof fn rows_have_distinct_ids(pairs: Seq<PairView>)
    ensures
        distinct_rows(rows_of(pairs)),
    decreases pairs.len(),
{
    if pairs.len() > 0 {
        rows_have_distinct_ids(pairs.drop_last());
        let before = rows_of(pairs.drop_last());
        let rows = rows_of(pairs);
        assert forall|i: int, j: int| 0 <= i < j < rows.len() implies (#[trigger] rows[i]).id != (
        #[trigger] rows[j]).id by {
            assert(rows[i] == before[i]);
            if j < before.len() {
                assert(rows[j] == before[j]);
            }
        }
    }
}

/// Every model has a row with its id.
pub proof fn every_model_has_a_row(pairs: Seq<PairView>, i: int)
    requires
        0 <= i < pairs.len(),
    ensures
        has_row(rows_of(pairs), row_id(pairs[i].0, pairs[i].1)),
    decreases pairs.len(),
{
    let before = rows_of(pairs.drop_last());
    let rows = rows_of(pairs);
    let id = row_id(pairs[i].0, pairs[i].1);
    if i < pairs.len() - 1 {
        every_model_has_a_row(pairs.drop_last(), i);
        let k = choose|k: int| 0 <= k < before.len() && (#[trigger] before[k]).id == id;
        assert(rows[k] == before[k]);
    } else if !has_row(before, id) {
        assert(rows[before.len() as int].id == id);
    }
}

/// The row at a position is that of the model at another.
pub open spec fn row_of_pair(
    rows: Seq<ModelView>,
    i: int,
    pairs: Seq<PairView>,
    k: int,
) -> bool {
    0 <= i < rows.len() && 0 <= k < pairs.len() && rows[i] == pair_row(pairs[k])
}

/// Rows stand in the order of their models: of two rows the first is that of an earlier
/// model.
pub proof fn rows_follow_the_models(pairs: Seq<PairView>, i: int, j: int)
    requires
        0 <= i < j < rows_of(pairs).len(),
    ensures
        exists|p: int, q: int|
            p < q && #[trigger] row_of_pair(rows_of(pairs), i, pairs, p)
                && #[trigger] row_of_pair(rows_of(pairs), j, pairs, q),
    decreases pairs.len(),
{
    let rest = pairs.drop_last();
    let before = rows_of(rest);
    let rows = rows_of(pairs);
    if j < before.len() {
        rows_follow_the_models(rest, i, j);
        let (p, q) = choose|p: int, q: int|
            p < q && #[trigger] row_of_pair(before, i, rest, p) && #[trigger] row_of_pair(
                before,
                j,
                rest,
                q,
            );
        assert(row_of_pair(rows, i, pairs, p));
        assert(row_of_pair(rows, j, pairs, q));
    } else {
        lemma_row_has_a_model(rest, i);
        let p = choose|p: int| #[trigger] row_of_pair(before, i, rest, p);
        assert(row_of_pair(rows, i, pairs, p));
        assert(row_of_pair(rows, j, pairs, pairs.len() - 1));
    }
}

proof fn lemma_row_has_a_model(pairs: Seq<PairView>, i: int)
    requires
        0 <= i < rows_of(pairs).len(),
    ensures
        exists|k: int| #[trigger] row_of_pair(rows_of(pairs), i, pairs, k),
    decreases pairs.len(),
{
    let rest = pairs.drop_last();
    let before = rows_of(rest);
    if i < before.len() {
        lemma_row_has_a_model(rest, i);
        let k = choose|k: int| #[trigger] row_of_pair(before, i, rest, k);
        assert(row_of_pair(rows_of(pairs), i, pairs, k));
    } else {
        assert(row_of_pair(rows_of(pairs), i, pairs, pairs.len() - 1));
    }
}

proof fn lemma_row_index(rows: Seq<ModelView>, id: Seq<char>)
    ensures
        0 <= row_index(rows, id) <= rows.len(),
        row_index(rows, id) < rows.len() <==> has_row(rows, id),
        row_index(rows, id) < rows.len() ==> rows[row_index(rows, id)].id == id,
    decreases rows.len(),
{
    if rows.len() > 0 {
        let rest = rows.drop_first();
        lemma_row_index(rest, id);
        if rows[0].id == id {
            assert(has_row(rows, id));
        } else {
            if has_row(rest, id) {
                let i = choose|i: int| 0 <= i < rest.len() && (#[trigger] rest[i]).id == id;
                assert(rows[i + 1].id == id);
            }
            if has_row(rows, id) {
                let i = choose|i: int| 0 <= i < rows.len() && (#[trigger] rows[i]).id == id;
                assert(rest[i - 1].id == id);
            }
        }
    }
}

/// The default model comes first, if there is a row for it; the other rows keep their
/// order. Without a row for it nothing moves.
pub proof fn default_model_comes_first(
    rows: Seq<ModelView>,
    default: Option<(Seq<char>, Seq<char>)>,
)
    ensures
        match default {
            Some((provider, model_id)) if has_row(rows, row_id(provider, model_id)) => {
                let i = row_index(rows, row_id(provider, model_id));
                &&& 0 <= i < rows.len()
                &&& promoted(rows, default)[0].id == row_id(provider, model_id)
                &&& promoted(rows, default)[0] == rows[i]
                &&& promoted(rows, default).drop_first() == rows.take(i) + rows.skip(i + 1)
            },
            _ => promoted(rows, default) == rows,
        },
{
    if let Some((provider, model_id)) = default {
        let id = row_id(provider, model_id);
        lemma_row_index(rows, id);
        if has_row(rows, id) {
            let i = row_index(rows, id);
            assert(promoted(rows, default).drop_first() =~= rows.take(i) + rows.skip(i + 1));
        }
    }
}

/// Where a row of the promoted list comes from.
spec fn source(
    rows: Seq<ModelView>,
    default: Option<(Seq<char>, Seq<char>)>,
    i: int,
) -> int {
    match default {
        Some((provider, model_id)) if has_row(rows, row_id(provider, model_id)) => {
            let first = row_index(rows, row_id(provider, model_id));
            if i == 0 {
                first
            } else if i <= first {
                i - 1
            } else {
                i
            }
        },
        _ => i,
    }
}

proof fn lemma_promoted(rows: Seq<ModelView>, default: Option<(Seq<char>, Seq<char>)>)
    ensures
        promoted(rows, default).len() == rows.len(),
        forall|i: int|
            0 <= i < rows.len() ==> 0 <= source(rows, default, i) < rows.len() && (
            #[trigger] promoted(rows, default)[i]) == rows[source(rows, default, i)],
{
    if let Some((provider, model_id)) = default {
        lemma_row_index(rows, row_id(provider, model_id));
    }
}

/// The rows that are discovered have distinct ids.
pub proof fn discovered_rows_are_distinct(accounts: Seq<DocumentsView>)
    ensures
        distinct_rows(discovered_rows(accounts)),
{
    let rows = rows_of(ordered(all_pairs(accounts)));
    let default = first_default(accounts);
    rows_have_distinct_ids(ordered(all_pairs(accounts)));
    lemma_promoted(rows, default);
    let moved = promoted(rows, default);
    assert forall|i: int, j: int| 0 <= i < j < moved.len() implies (#[trigger] moved[i]).id != (
    #[trigger] moved[j]).id by {
        assert(source(rows, default, i) != source(rows, default, j));
        assert(moved[i] == rows[source(rows, default, i)]);
        assert(moved[j] == rows[source(rows, default, j)]);
        if source(rows, default, i) < source(rows, default, j) {
            assert(rows[source(rows, default, i)].id != rows[source(rows, default, j)].id);
        } else {
            assert(rows[source(rows, default, j)].id != rows[source(rows, default, i)].id);
        }
    }
}

/// A row that is discovered is that of a model.
proof fn lemma_discovered_row(accounts: Seq<DocumentsView>, i: int)
    requires
        0 <= i < discovered_rows(accounts).len(),
    ensures
        exists|pair: PairView| discovered_rows(accounts)[i] == #[trigger] pair_row(pair),
{
    let pairs = ordered(all_pairs(accounts));
    let rows = rows_of(pairs);
    let default = first_default(accounts);
    lemma_promoted(rows, default);
    assert(promoted(rows, default)[i] == rows[source(rows, default, i)]);
    lemma_row_has_a_model(pairs, source(rows, default, i));
    let k = choose|k: int| #[trigger] row_of_pair(rows, source(rows, default, i), pairs, k);
    assert(discovered_rows(accounts)[i] == pair_row(pairs[k]));
}

/// A model with this row id is among the models.
pub open spec fn describes(pairs: Seq<PairView>, id: Seq<char>) -> bool {
    exists|i: int| 0 <= i < pairs.len() && row_id((#[trigger] pairs[i]).0, pairs[i].1) == id
}

/// The rows that are discovered are those of the models that the accounts' documents
/// describe: all of them and no others.
pub proof fn rows_are_those_of_the_described_models(accounts: Seq<DocumentsView>, id: Seq<char>)
    ensures
        has_row(discovered_rows(accounts), id) <==> describes(all_pairs(accounts), id),
{
    let all = all_pairs(accounts);
    let pairs = ordered(all);
    let rows = rows_of(pairs);
    let default = first_default(accounts);
    let found = discovered_rows(accounts);
    lemma_promoted(rows, default);
    if has_row(found, id) {
        let i = choose|i: int| 0 <= i < found.len() && (#[trigger] found[i]).id == id;
        let j = source(rows, default, i);
        lemma_row_has_a_model(pairs, j);
        let k = choose|k: int| #[trigger] row_of_pair(rows, j, pairs, k);
        assert(same_pair(pairs[k], pairs[k]));
        lemma_ordered_has(all, pairs[k]);
        let m = choose|m: int| 0 <= m < all.len() && same_pair(#[trigger] all[m], pairs[k]);
        assert(row_id(all[m].0, all[m].1) == id);
    }
    if describes(all, id) {
        let m = choose|m: int|
            0 <= m < all.len() && row_id((#[trigger] all[m]).0, all[m].1) == id;
        assert(same_pair(all[m], all[m]));
        lemma_ordered_has(all, all[m]);
        let k = choose|k: int| 0 <= k < pairs.len() && same_pair(#[trigger] pairs[k], all[m]);
        every_model_has_a_row(pairs, k);
        lemma_promoted_has(rows, default, id);
    }
}

/// Moving a row to the front loses none.
proof fn lemma_promoted_has(
    rows: Seq<ModelView>,
    default: Option<(Seq<char>, Seq<char>)>,
    id: Seq<char>,
)
    requires
        has_row(rows, id),
    ensures
        has_row(promoted(rows, default), id),
{
    let moved = promoted(rows, default);
    let i = choose|i: int| 0 <= i < rows.len() && (#[trigger] rows[i]).id == id;
    default_model_comes_first(rows, default);
    if let Some((provider, model_id)) = default {
        if has_row(rows, row_id(provider, model_id)) {
            let first = row_index(rows, row_id(provider, model_id));
            if i == first {
                assert(moved[0] == rows[i]);
            } else if i < first {
                assert(moved[i + 1] == rows[i]);
            } else {
                assert(moved[i] == rows[i]);
            }
        }
    }
}

/// The id of a discovered row differs from those of the routing rows.
proof fn lemma_row_id_has_slash(pair: PairView)
    ensures
        pair_row(pair).id != "default"@,
        pair_row(pair).id != "fast"@,
{
    reveal_strlit("default");
    reveal_strlit("fast");
    reveal_strlit("/");
    let id = pair_row(pair).id;
    let slash = pair.0.len() as int;
    assert(slash < id.len() && id[slash] == '/');
    assert(0 <= slash < 7 ==> "default"@[slash] != '/');
    assert(0 <= slash < 4 ==> "fast"@[slash] != '/');
}

/// The whole catalog has distinct ids. The routing rows come first, `default` and then
/// `fast`; if the default model is discovered, its row comes right after them.
pub proof fn catalog_ids_are_distinct(accounts: Seq<DocumentsView>, signed_in: Seq<Seq<char>>)
    ensures
        ({
            let catalog = catalog_view(discovered_rows(accounts), signed_in);
            &&& distinct_rows(catalog)
            &&& catalog.len() == 2 + discovered_rows(accounts).len()
            &&& catalog[0].id == "default"@
            &&& catalog[1].id == "fast"@
            &&& first_default(accounts) matches Some((provider, model_id)) ==> has_row(
                discovered_rows(accounts),
                row_id(provider, model_id),
            ) ==> catalog[2].id == row_id(provider, model_id)
        }),
{
    let found = discovered_rows(accounts);
    let catalog = catalog_view(found, signed_in);
    discovered_rows_are_distinct(accounts);
    reveal_strlit("default");
    reveal_strlit("fast");
    assert("default"@.len() != "fast"@.len());
    assert forall|i: int| 2 <= i < catalog.len() implies (#[trigger] catalog[i]).id == found[i
        - 2].id && catalog[i].id != "default"@ && catalog[i].id != "fast"@ by {
        lemma_discovered_row(accounts, i - 2);
        let pair = choose|pair: PairView| found[i - 2] == #[trigger] pair_row(pair);
        lemma_row_id_has_slash(pair);
    }
    assert forall|i: int, j: int| 0 <= i < j < catalog.len() implies (#[trigger] catalog[i]).id != (
    #[trigger] catalog[j]).id by {
        if i >= 2 {
            assert(catalog[i].id == found[i - 2].id);
            assert(catalog[j].id == found[j - 2].id);
            assert(found[i - 2].id != found[j - 2].id);
        }
    }
    let rows = rows_of(ordered(all_pairs(accounts)));
    let default = first_default(accounts);
    if let Some((provider, model_id)) = default {
        let id = row_id(provider, model_id);
        if has_row(found, id) {
            lemma_promoted(rows, default);
            let i = choose|i: int| 0 <= i < found.len() && (#[trigger] found[i]).id == id;
            assert(rows[source(rows, default, i)].id == id);
            assert(has_row(rows, id));
            default_model_comes_first(rows, default);
            assert(catalog[2].id == found[0].id);
        }
    }
}

/// Whatever became of the discovery, the catalog starts with the routing rows and has
/// distinct ids.
pub proof fn every_catalog_has_the_routing_rows(
    signed_in: Option<Seq<Seq<char>>>,
    accounts: Seq<DocumentsView>,
)
    ensures
        ({
            let catalog = live_view(signed_in, accounts);
            &&& distinct_rows(catalog)
            &&& catalog.len() >= 2
            &&& catalog[0].id == "default"@
            &&& catalog[1].id == "fast"@
        }),
{
    match signed_in {
        Some(ids) if ids.len() > 0 => catalog_ids_are_distinct(accounts, ids),
        _ => {
            reveal_strlit("default");
            reveal_strlit("fast");
            assert("default"@.len() != "fast"@.len());
        },
    }
}

/// Every row of the catalog offers the same options: those for effort and permission,
/// and exactly if an account is signed in also that for the account. No row offers a
/// provider or a host. The discovered rows offer the reasoning ladder, and the routing
/// rows no reasoning level.
pub proof fn rows_offer_the_same_options(
    accounts: Seq<DocumentsView>,
    signed_in: Seq<Seq<char>>,
    i: int,
)
    requires
        0 <= i < catalog_view(discovered_rows(accounts), signed_in).len(),
    ensures
        ({
            let row = catalog_view(discovered_rows(accounts), signed_in)[i];
            &&& row.reasoning_levels == if i < 2 {
                Seq::empty()
            } else {
                ladder()
            }
            &&& row.options == if signed_in.len() > 0 {
                seq![effort_view(), permission_view(), account_view(signed_in)]
            } else {
                seq![effort_view(), permission_view()]
            }
            &&& forall|k: int|
                0 <= k < row.options.len() ==> (#[trigger] row.options[k]).id != "provider"@
                    && row.options[k].id != "host"@
        }),
{
    let found = discovered_rows(accounts);
    let row = catalog_view(found, signed_in)[i];
    if i >= 2 {
        lemma_discovered_row(accounts, i - 2);
    }
    let plain = seq![effort_view(), permission_view()];
    if signed_in.len() > 0 {
        assert(plain.push(account_view(signed_in)) =~= seq![
            effort_view(),
            permission_view(),
            account_view(signed_in),
        ]);
    }
    reveal_strlit("effort");
    reveal_strlit("permission");
    reveal_strlit("account");
    reveal_strlit("provider");
    reveal_strlit("host");
    assert("effort"@.len() == 6 && "permission"@.len() == 10 && "account"@.len() == 7);
    assert("provider"@.len() == 8 && "host"@.len() == 4);
}

/// Accounts whose documents describe no models add no rows.
pub proof fn nothing_discovered_adds_nothing(accounts: Seq<DocumentsView>)
    requires
        all_pairs(accounts).len() == 0,
    ensures
        discovered_rows(accounts).len() == 0,
{
    lemma_promoted(Seq::empty(), first_default(accounts));
    assert(rows_of(ordered(all_pairs(accounts))) =~= Seq::empty());
}

} // verus!
