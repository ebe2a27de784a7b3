//! Which rows a host sees, and what they offer.

use crate::args::level_flag;
use crate::catalog::{catalog_providers, default_model, ProviderView};
use crate::discovery::{
    account_default, account_pairs, all_pairs, discovered_rows, first_default, first_seen, has_row,
    live_view, ordered, ordered_keeps_what_was_seen_first, ordered_models_ascend, pair_before,
    pair_row, pairs_of, promoted, provider_pairs, row_index, rows_of, same_pair, DocumentsView,
    PairView,
};
use crate::models::{
    account_view, catalog_view, effort_view, ladder, permission_view, row_id, static_rows,
};
use crate::protocol::{ChoiceView, ModelView, ReasoningLevel};
use crate::text::text_before;
use vstd::prelude::*;

verus! {

/// The account option offers every account, each by its id, in order, and the first is the
/// default; over no accounts it offers nothing.
pub proof fn every_account_can_be_picked(ids: Seq<Seq<char>>)
    ensures
        ({
            let option = account_view(ids);
            &&& option.id == "account"@
            &&& option.label == "Account"@
            &&& option.choices.len() == ids.len()
            &&& forall|i: int|
                0 <= i < ids.len() ==> (#[trigger] option.choices[i]).id == ids[i]
                    && option.choices[i].label == ids[i]
            &&& option.default_choice == if ids.len() > 0 {
                ids[0]
            } else {
                Seq::empty()
            }
        }),
{
}

/// A choice has this id and this label.
pub open spec fn is_choice(choice: ChoiceView, id: Seq<char>, label: Seq<char>) -> bool {
    choice.id == id && choice.label == label
}

/// The effort option offers the default and every effort that the client knows, from none
/// to the most, and the default is the default.
pub proof fn every_effort_can_be_picked()
    ensures
        ({
            let option = effort_view();
            let choices = option.choices;
            &&& option.id == "effort"@
            &&& option.label == "Thinking Effort"@
            &&& option.default_choice == "default"@
            &&& choices.len() == 9
            &&& is_choice(choices[0], "default"@, "Default"@)
            &&& is_choice(choices[1], "off"@, "Off"@)
            &&& is_choice(choices[2], "minimal"@, "Minimal"@)
            &&& is_choice(choices[3], "low"@, "Low"@)
            &&& is_choice(choices[4], "medium"@, "Medium"@)
            &&& is_choice(choices[5], "high"@, "High"@)
            &&& is_choice(choices[6], "xhigh"@, "XHigh"@)
            &&& is_choice(choices[7], "max"@, "Max"@)
            &&& is_choice(choices[8], "ultrabrowse"@, "UltraBrowse"@)
        }),
{
}

/// Every level of the ladder that has a word can also be picked as an effort, by that
/// word, and the ladder ascends from none to the most.
pub proof fn levels_are_efforts(i: int)
    requires
        0 <= i < ladder().len(),
    ensures
        ladder().len() == 7,
        ladder()[0] == ReasoningLevel::Off,
        ladder()[1] == ReasoningLevel::Minimal,
        ladder()[2] == ReasoningLevel::Low,
        ladder()[3] == ReasoningLevel::Medium,
        ladder()[4] == ReasoningLevel::High,
        ladder()[5] == ReasoningLevel::XHigh,
        ladder()[6] == ReasoningLevel::Max,
        level_flag(ladder()[i]) matches Some(word) ==> effort_view().choices[i + 1].id
            == word,
{
}

/// The permission option offers to ask, to guard and full access, and guards by default.
pub proof fn every_permission_can_be_picked()
    ensures
        ({
            let option = permission_view();
            let choices = option.choices;
            &&& option.id == "permission"@
            &&& option.label == "Permission"@
            &&& option.default_choice == "guard"@
            &&& choices.len() == 3
            &&& is_choice(choices[0], "ask"@, "Ask"@)
            &&& is_choice(choices[1], "guard"@, "Guard"@)
            &&& is_choice(choices[2], "full-access"@, "Full Access"@)
        }),
{
}

/// The options that a row has on its own.
pub open spec fn has_plain_options(row: ModelView) -> bool {
    row.options.len() == 2 && row.options[0] == effort_view() && row.options[1]
        == permission_view()
}

/// A discovered row is named by provider and model with a slash between them, labelled by
/// the whole model id and described by the provider's display name.
pub proof fn discovered_row_names_its_model(pair: PairView)
    ensures
        ({
            let row = pair_row(pair);
            &&& row.id == pair.0 + seq!['/'] + pair.1
            &&& row.label == pair.1
            &&& row.description == Some(pair.2 + " via Aside"@)
            &&& row.reasoning_levels == ladder()
            &&& has_plain_options(row)
        }),
        forall|provider: Seq<char>, model: Seq<char>|
            #[trigger] row_id(provider, model) == provider + seq!['/'] + model,
{
    reveal_strlit("/");
    assert("/"@ =~= seq!['/']);
}

/// The routing rows, spelled out.
pub proof fn routing_rows_are_these()
    ensures
        ({
            let rows = static_rows();
            &&& rows.len() == 2
            &&& rows[0].id == "default"@
            &&& rows[0].label == "Default"@
            &&& rows[0].description == Some("Aside's default model routing"@)
            &&& rows[0].reasoning_levels.len() == 0
            &&& has_plain_options(rows[0])
            &&& rows[1].id == "fast"@
            &&& rows[1].label == "Fast"@
            &&& rows[1].description == Some("Aside's fast model routing"@)
            &&& rows[1].reasoning_levels.len() == 0
            &&& has_plain_options(rows[1])
        }),
{
}

/// A row as it is, with the account option behind its own options if any account is signed
/// in.
pub open spec fn extended(row: ModelView, plain: ModelView, signed_in: Seq<Seq<char>>) -> bool {
    &&& row.id == plain.id
    &&& row.label == plain.label
    &&& row.description == plain.description
    &&& row.reasoning_levels == plain.reasoning_levels
    &&& if signed_in.len() == 0 {
        row.options == plain.options
    } else {
        &&& row.options.len() == plain.options.len() + 1
        &&& row.options.drop_last() == plain.options
        &&& row.options.last() == account_view(signed_in)
    }
}

/// The catalog is the routing rows and then every row that was discovered, in order and
/// unchanged but for the account option, which every row has exactly if an account is
/// signed in.
pub proof fn catalog_has_every_row(discovered: Seq<ModelView>, signed_in: Seq<Seq<char>>)
    ensures
        ({
            let catalog = catalog_view(discovered, signed_in);
            &&& catalog.len() == 2 + discovered.len()
            &&& extended(catalog[0], static_rows()[0], signed_in)
            &&& extended(catalog[1], static_rows()[1], signed_in)
            &&& forall|i: int|
                0 <= i < discovered.len() ==> extended(
                    catalog[2 + i],
                    #[trigger] discovered[i],
                    signed_in,
                )
        }),
{
    let catalog = catalog_view(discovered, signed_in);
    let plain = static_rows() + discovered;
    assert forall|k: int| 0 <= k < plain.len() implies extended(
        #[trigger] catalog[k],
        plain[k],
        signed_in,
    ) by {
        if signed_in.len() > 0 {
            assert(catalog[k].options.drop_last() =~= plain[k].options);
        }
    }
    assert(extended(catalog[0], plain[0], signed_in));
    assert(extended(catalog[1], plain[1], signed_in));
    assert forall|i: int| 0 <= i < discovered.len() implies extended(
        catalog[2 + i],
        #[trigger] discovered[i],
        signed_in,
    ) by {
        assert(extended(catalog[2 + i], plain[2 + i], signed_in));
    }
}

/// With accounts signed in, every row of the catalog lets the host pick every one of them,
/// by its id, in order, and picks the first by default.
pub proof fn every_row_offers_every_account(
    discovered: Seq<ModelView>,
    signed_in: Seq<Seq<char>>,
    k: int,
)
    requires
        signed_in.len() > 0,
        0 <= k < catalog_view(discovered, signed_in).len(),
    ensures
        ({
            let options = catalog_view(discovered, signed_in)[k].options;
            &&& options.len() > 0
            &&& options.last().id == "account"@
            &&& options.last().choices.len() == signed_in.len()
            &&& forall|i: int|
                0 <= i < signed_in.len() ==> (#[trigger] options.last().choices[i]).id
                    == signed_in[i]
            &&& options.last().default_choice == signed_in[0]
        }),
{
    catalog_has_every_row(discovered, signed_in);
    every_account_can_be_picked(signed_in);
    if k > 1 {
        assert(extended(
            catalog_view(discovered, signed_in)[2 + (k - 2)],
            discovered[k - 2],
            signed_in,
        ));
    }
}

/// With accounts signed in the catalog has what their documents describe; where none is
/// known to be, it is the routing rows alone, as they are.
pub proof fn catalog_follows_the_accounts(
    signed_in: Option<Seq<Seq<char>>>,
    accounts: Seq<DocumentsView>,
)
    ensures
        ({
            let catalog = live_view(signed_in, accounts);
            if signed_in is Some && signed_in->0.len() > 0 {
                catalog == catalog_view(discovered_rows(accounts), signed_in->0)
            } else {
                catalog == static_rows()
            }
        }),
{
}

/// A provider offers each of its models under its own id and display name, in order; two
/// lists of providers offer those of the first and then of the second.
pub proof fn every_model_of_a_provider_is_offered(
    provider: ProviderView,
    a: Seq<ProviderView>,
    b: Seq<ProviderView>,
)
    ensures
        provider_pairs(provider).len() == provider.2.len(),
        forall|i: int|
            0 <= i < provider.2.len() ==> #[trigger] provider_pairs(provider)[i] == (
                provider.0,
                provider.2[i],
                provider.1,
            ),
        pairs_of(a + b) == pairs_of(a) + pairs_of(b),
        pairs_of(seq![provider]) == provider_pairs(provider),
        pairs_of(Seq::empty()).len() == 0,
{
    lemma_pairs_concat(a, b);
    assert(seq![provider].drop_last() =~= Seq::empty());
    assert(pairs_of(seq![provider].drop_last()) =~= Seq::empty());
    assert(pairs_of(seq![provider]) =~= provider_pairs(provider));
}

proof fn lemma_pairs_concat(a: Seq<ProviderView>, b: Seq<ProviderView>)
    ensures
        pairs_of(a + b) == pairs_of(a) + pairs_of(b),
    decreases b.len(),
{
    if b.len() == 0 {
        assert(a + b =~= a);
        assert(pairs_of(a) + pairs_of(b) =~= pairs_of(a));
    } else {
        assert((a + b).drop_last() =~= a + b.drop_last());
        lemma_pairs_concat(a, b.drop_last());
        assert(pairs_of(a + b) =~= pairs_of(a) + pairs_of(b));
    }
}

/// Every account counts, in order: accounts offer what the first ones offer and then what
/// the others do, and one account offers all that its catalog describes.
pub proof fn every_account_counts(
    a: Seq<DocumentsView>,
    b: Seq<DocumentsView>,
    account: DocumentsView,
)
    ensures
        all_pairs(a + b) == all_pairs(a) + all_pairs(b),
        all_pairs(seq![account]) == match account.models {
            Some(models) => pairs_of(catalog_providers(models)),
            None => Seq::empty(),
        },
        all_pairs(Seq::empty()).len() == 0,
{
    lemma_all_pairs_concat(a, b);
    assert(seq![account].drop_last() =~= Seq::empty());
    assert(all_pairs(seq![account].drop_last()) =~= Seq::empty());
    assert(all_pairs(seq![account]) =~= account_pairs(account));
}

proof fn lemma_all_pairs_concat(a: Seq<DocumentsView>, b: Seq<DocumentsView>)
    ensures
        all_pairs(a + b) == all_pairs(a) + all_pairs(b),
    decreases b.len(),
{
    if b.len() == 0 {
        assert(a + b =~= a);
        assert(all_pairs(a) + all_pairs(b) =~= all_pairs(a));
    } else {
        assert((a + b).drop_last() =~= a + b.drop_last());
        lemma_all_pairs_concat(a, b.drop_last());
        assert(all_pairs(a + b) =~= all_pairs(a) + all_pairs(b));
    }
}

/// What an account's settings name as default model, if the account has a catalog.
pub open spec fn named_default(account: DocumentsView) -> Option<(Seq<char>, Seq<char>)> {
    if account.models is Some && account.settings is Some {
        default_model(account.settings->0)
    } else {
        None
    }
}

/// The default model is that of the first account that has a catalog and names one.
pub proof fn first_account_with_a_default_decides(
    a: Seq<DocumentsView>,
    b: Seq<DocumentsView>,
    account: DocumentsView,
)
    ensures
        first_default(a + b) == if first_default(a) is Some {
            first_default(a)
        } else {
            first_default(b)
        },
        first_default(seq![account]) == named_default(account),
        first_default(Seq::empty()) is None,
    decreases b.len(),
{
    assert(seq![account].drop_last() =~= Seq::empty());
    assert(first_default(seq![account].drop_last()) is None);
    assert(account_default(account) == named_default(account));
    if b.len() == 0 {
        assert(a + b =~= a);
    } else {
        assert((a + b).drop_last() =~= a + b.drop_last());
        first_account_with_a_default_decides(a, b.drop_last(), account);
    }
}

/// A model comes before another by its provider or, with one provider, by its id.
pub open spec fn sorted_before(a: PairView, b: PairView) -> bool {
    text_before(a.0, b.0) || (a.0 == b.0 && text_before(a.1, b.1))
}

/// The model at this position is the first with its provider and id.
pub open spec fn seen_first(pairs: Seq<PairView>, i: int) -> bool {
    0 <= i < pairs.len() && forall|k: int|
        0 <= k < i ==> (#[trigger] pairs[k]).0 != pairs[i].0 || pairs[k].1 != pairs[i].1
}

/// Models are put in ascending order of provider and id, each once, and each as it was
/// seen first, with the display name it had there; none is lost and none is added.
pub proof fn models_are_sorted(pairs: Seq<PairView>, pair: PairView)
    ensures
        forall|i: int, j: int|
            0 <= i < j < ordered(pairs).len() ==> sorted_before(
                #[trigger] ordered(pairs)[i],
                #[trigger] ordered(pairs)[j],
            ),
        ordered(pairs).contains(pair) <==> exists|i: int| #[trigger]
            seen_first(pairs, i) && pairs[i] == pair,
{
    ordered_models_ascend(pairs);
    assert forall|i: int, j: int| 0 <= i < j < ordered(pairs).len() implies sorted_before(
        #[trigger] ordered(pairs)[i],
        #[trigger] ordered(pairs)[j],
    ) by {
        assert(pair_before(ordered(pairs)[i], ordered(pairs)[j]));
    }
    ordered_keeps_what_was_seen_first(pairs, pair);
    assert forall|i: int| #[trigger] seen_first(pairs, i) == first_seen(
        pairs,
        i,
    ) by {
        if seen_first(pairs, i) {
            assert forall|k: int| 0 <= k < i implies !same_pair(
                #[trigger] pairs[k],
                pairs[i],
            ) by {
                assert(pairs[k].0 != pairs[i].0 || pairs[k].1 != pairs[i].1);
            }
        }
        if first_seen(pairs, i) {
            assert forall|k: int| 0 <= k < i implies (#[trigger] pairs[k]).0 != pairs[i].0
                || pairs[k].1 != pairs[i].1 by {
                assert(!same_pair(pairs[k], pairs[i]));
            }
        }
    }
    if exists|i: int| #[trigger] first_seen(pairs, i) && pairs[i] == pair {
        let i = choose|i: int| #[trigger]
            first_seen(pairs, i) && pairs[i] == pair;
        assert(seen_first(pairs, i));
    }
    if exists|i: int| #[trigger] seen_first(pairs, i) && pairs[i] == pair {
        let i = choose|i: int| #[trigger] seen_first(pairs, i) && pairs[i] == pair;
        assert(first_seen(pairs, i));
    }
}

/// One of the rows has this id.
pub open spec fn has_id(rows: Seq<ModelView>, id: Seq<char>) -> bool {
    exists|i: int| 0 <= i < rows.len() && (#[trigger] rows[i]).id == id
}

/// Each model adds its row behind those of the models before it, unless one of these has
/// the same id already.
pub proof fn each_model_adds_its_row(pairs: Seq<PairView>, pair: PairView)
    ensures
        ({
            let before = rows_of(pairs);
            let rows = rows_of(pairs.push(pair));
            if has_id(before, pair.0 + seq!['/'] + pair.1) {
                rows == before
            } else {
                rows == before.push(pair_row(pair))
            }
        }),
        rows_of(Seq::empty()).len() == 0,
{
    assert(pairs.push(pair).drop_last() =~= pairs);
    discovered_row_names_its_model(pair);
    let before = rows_of(pairs);
    let id = pair_row(pair).id;
    assert(has_row(before, id) == has_id(before, id)) by {
        if has_row(before, id) {
            let i = choose|i: int| 0 <= i < before.len() && (#[trigger] before[i]).id == id;
            assert(before[i].id == id);
        }
        if has_id(before, id) {
            let i = choose|i: int| 0 <= i < before.len() && (#[trigger] before[i]).id == id;
            assert(before[i].id == id);
        }
    }
}

/// The row of the default model moves to the front, whole, and the others keep their
/// order; without a default model, or without a row for it, nothing moves.
pub proof fn default_row_moves_to_the_front(
    rows: Seq<ModelView>,
    provider: Seq<char>,
    model: Seq<char>,
    i: int,
)
    requires
        forall|k: int| 0 <= k < i && k < rows.len() ==> (#[trigger] rows[k]).id != provider + seq![
            '/',
        ] + model,
        0 <= i < rows.len() ==> rows[i].id == provider + seq!['/'] + model,
        0 <= i <= rows.len(),
    ensures
        promoted(rows, None) == rows,
        promoted(rows, Some((provider, model))) == if i < rows.len() {
            seq![rows[i]] + rows.take(i) + rows.skip(i + 1)
        } else {
            rows
        },
{
    reveal_strlit("/");
    assert("/"@ =~= seq!['/']);
    let id = row_id(provider, model);
    lemma_index(rows, id, i);
    if i < rows.len() {
        assert(promoted(rows, Some((provider, model))) =~= seq![rows[i]] + rows.take(i) + rows.skip(
            i + 1,
        ));
    }
}

proof fn lemma_index(rows: Seq<ModelView>, id: Seq<char>, i: int)
    requires
        0 <= i <= rows.len(),
        forall|k: int| 0 <= k < i ==> (#[trigger] rows[k]).id != id,
        i < rows.len() ==> rows[i].id == id,
    ensures
        row_index(rows, id) == i,
    decreases rows.len(),
{
    if i > 0 {
        let rest = rows.drop_first();
        assert(rows[0].id != id);
        assert forall|k: int| 0 <= k < i - 1 implies (#[trigger] rest[k]).id != id by {
            assert(rest[k] == rows[k + 1]);
        }
        lemma_index(rest, id, i - 1);
    }
}

/// The discovered rows are those of all models of all accounts, sorted, with that of the
/// default model in front.
pub proof fn discovery_sorts_and_promotes(accounts: Seq<DocumentsView>)
    ensures
        discovered_rows(accounts) == promoted(
            rows_of(ordered(all_pairs(accounts))),
            first_default(accounts),
        ),
{
}

} // verus!
