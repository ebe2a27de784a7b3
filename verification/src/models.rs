//! Catalog rows and their picker options.

use crate::protocol::{
    ChoiceView, Model, ModelOption, ModelOptionChoice, ModelView, OptionView, ReasoningLevel,
};
use vstd::prelude::*;
use vstd::string::StringExecFns;

verus! {

/// The id of the row that leaves the routing to Aside's settings.
pub const DEFAULT_MODEL: &'static str = "default";

/// The id of the row that asks for the fast route.
pub const FAST_MODEL: &'static str = "fast";

/// A choice with this id and label.
pub open spec fn choice(id: Seq<char>, label: Seq<char>) -> ChoiceView {
    ChoiceView { id, label }
}

/// The `effort` option.
pub open spec fn effort_view() -> OptionView {
    OptionView {
        id: "effort"@,
        label: "Thinking Effort"@,
        choices: seq![
            choice("default"@, "Default"@),
            choice("off"@, "Off"@),
            choice("minimal"@, "Minimal"@),
            choice("low"@, "Low"@),
            choice("medium"@, "Medium"@),
            choice("high"@, "High"@),
            choice("xhigh"@, "XHigh"@),
            choice("max"@, "Max"@),
            choice("ultrabrowse"@, "UltraBrowse"@),
        ],
        default_choice: "default"@,
    }
}

/// The `permission` option.
pub open spec fn permission_view() -> OptionView {
    OptionView {
        id: "permission"@,
        label: "Permission"@,
        choices: seq![
            choice("ask"@, "Ask"@),
            choice("guard"@, "Guard"@),
            choice("full-access"@, "Full Access"@),
        ],
        default_choice: "guard"@,
    }
}

/// The `account` option over these accounts, with the first as default.
pub open spec fn account_view(ids: Seq<Seq<char>>) -> OptionView {
    OptionView {
        id: "account"@,
        label: "Account"@,
        choices: ids.map_values(|id: Seq<char>| choice(id, id)),
        default_choice: if ids.len() > 0 {
            ids[0]
        } else {
            Seq::empty()
        },
    }
}

/// Every reasoning level that the client has a flag value for, in ascending order.
pub open spec fn ladder() -> Seq<ReasoningLevel> {
    seq![
        ReasoningLevel::Off,
        ReasoningLevel::Minimal,
        ReasoningLevel::Low,
        ReasoningLevel::Medium,
        ReasoningLevel::High,
        ReasoningLevel::XHigh,
        ReasoningLevel::Max,
    ]
}

/// A row with the options that every row has.
pub open spec fn plain_row(
    id: Seq<char>,
    label: Seq<char>,
    description: Seq<char>,
    reasoning_levels: Seq<ReasoningLevel>,
) -> ModelView {
    ModelView {
        id,
        label,
        description: Some(description),
        reasoning_levels,
        options: seq![effort_view(), permission_view()],
    }
}

/// The two routing rows. They offer no reasoning levels.
pub open spec fn static_rows() -> Seq<ModelView> {
    seq![
        plain_row("default"@, "Default"@, "Aside's default model routing"@, Seq::empty()),
        plain_row("fast"@, "Fast"@, "Aside's fast model routing"@, Seq::empty()),
    ]
}

/// The id of a discovered row.
pub open spec fn row_id(provider: Seq<char>, model_id: Seq<char>) -> Seq<char> {
    provider + "/"@ + model_id
}

/// The row of a model that was discovered. It offers the whole reasoning ladder.
pub open spec fn discovered_view(
    provider: Seq<char>,
    display: Seq<char>,
    model_id: Seq<char>,
) -> ModelView {
    plain_row(row_id(provider, model_id), model_id, display + " via Aside"@, ladder())
}

/// A row with one more option.
pub open spec fn with_option(row: ModelView, option: OptionView) -> ModelView {
    ModelView { options: row.options.push(option), ..row }
}

/// The catalog: the routing rows, then those discovered. If any account is signed
/// in, every row has the `account` option.
pub open spec fn catalog_view(discovered: Seq<ModelView>, signed_in: Seq<Seq<char>>) -> Seq<
    ModelView,
> {
    let rows = static_rows() + discovered;
    if signed_in.len() == 0 {
        rows
    } else {
        rows.map_values(|row: ModelView| with_option(row, account_view(signed_in)))
    }
}

/// Choices from ids and labels.
pub fn choices(values: &[(&str, &str)]) -> (made: Vec<ModelOptionChoice>)
    ensures
        made.deep_view() == values.deep_view().map_values(
            |value: (Seq<char>, Seq<char>)| choice(value.0, value.1),
        ),
{
    let ghost views = values.deep_view();
    let ghost make = |value: (Seq<char>, Seq<char>)| choice(value.0, value.1);
    let mut made: Vec<ModelOptionChoice> = Vec::new();
    let mut i: usize = 0;
    while i < values.len()
        invariant
            i <= values@.len(),
            views == values.deep_view(),
            make == (|value: (Seq<char>, Seq<char>)| choice(value.0, value.1)),
            made.deep_view() == views.take(i as int).map_values(make),
        decreases values@.len() - i,
    {
        let ghost before = made.deep_view();
        made.push(
            ModelOptionChoice { id: values[i].0.to_owned(), label: values[i].1.to_owned() },
        );
        assert(made.deep_view() =~= before.push(make(views[i as int])));
        assert(views.take(i + 1).map_values(make) =~= before.push(make(views[i as int])));
        i += 1;
    }
    assert(views.take(i as int) =~= views);
    made
}

/// The `effort` option.
pub fn effort_option() -> (option: ModelOption)
    ensures
        option.deep_view() == effort_view(),
{
    let values: [(&str, &str); 9] = [
        ("default", "Default"),
        ("off", "Off"),
        ("minimal", "Minimal"),
        ("low", "Low"),
        ("medium", "Medium"),
        ("high", "High"),
        ("xhigh", "XHigh"),
        ("max", "Max"),
        ("ultrabrowse", "UltraBrowse"),
    ];
    let option = ModelOption {
        id: "effort".to_owned(),
        label: "Thinking Effort".to_owned(),
        choices: choices(&values),
        default_choice: "default".to_owned(),
    };
    assert(option.deep_view() =~= effort_view());
    option
}

/// The `permission` option.
pub fn permission_option() -> (option: ModelOption)
    ensures
        option.deep_view() == permission_view(),
{
    let values: [(&str, &str); 3] = [
        ("ask", "Ask"),
        ("guard", "Guard"),
        ("full-access", "Full Access"),
    ];
    let option = ModelOption {
        id: "permission".to_owned(),
        label: "Permission".to_owned(),
        choices: choices(&values),
        default_choice: "guard".to_owned(),
    };
    assert(option.deep_view() =~= permission_view());
    option
}

/// The `account` option over these accounts.
pub fn account_option(ids: &[String]) -> (option: ModelOption)
    ensures
        option.deep_view() == account_view(ids.deep_view()),
        option.choices@.len() == ids@.len(),
        forall|i: int|
            0 <= i < ids@.len() ==> (#[trigger] option.choices@[i]).id@ == ids@[i]@
                && option.choices@[i].label@ == ids@[i]@,
        option.default_choice@ == if ids@.len() > 0 {
            ids@[0]@
        } else {
            Seq::empty()
        },
{
    let ghost views = ids.deep_view();
    let ghost make = |id: Seq<char>| choice(id, id);
    let mut made: Vec<ModelOptionChoice> = Vec::new();
    let mut i: usize = 0;
    while i < ids.len()
        invariant
            i <= ids@.len(),
            views == ids.deep_view(),
            make == (|id: Seq<char>| choice(id, id)),
            made.deep_view() == views.take(i as int).map_values(make),
        decreases ids@.len() - i,
    {
        let ghost before = made.deep_view();
        made.push(ModelOptionChoice { id: ids[i].clone(), label: ids[i].clone() });
        assert(made.deep_view() =~= before.push(make(views[i as int])));
        assert(views.take(i + 1).map_values(make) =~= before.push(make(views[i as int])));
        i += 1;
    }
    assert(views.take(i as int) =~= views);
    let default_choice = if ids.len() > 0 {
        ids[0].clone()
    } else {
        String::new()
    };
    assert forall|k: int| 0 <= k < ids@.len() implies (#[trigger] made@[k]).id@ == ids@[k]@
        && made@[k].label@ == ids@[k]@ by {
        assert(made.deep_view()[k] == choice(views[k], views[k]));
    }
    ModelOption {
        id: "account".to_owned(),
        label: "Account".to_owned(),
        choices: made,
        default_choice,
    }
}

/// Every reasoning level that the client has a flag value for.
pub fn full_reasoning_ladder() -> (levels: Vec<ReasoningLevel>)
    ensures
        levels@ == ladder(),
{
    let levels = vec![
        ReasoningLevel::Off,
        ReasoningLevel::Minimal,
        ReasoningLevel::Low,
        ReasoningLevel::Medium,
        ReasoningLevel::High,
        ReasoningLevel::XHigh,
        ReasoningLevel::Max,
    ];
    assert(levels@ =~= ladder());
    levels
}

/// A row with the options that every row has.
fn make_row(
    id: String,
    label: String,
    description: String,
    reasoning_levels: Vec<ReasoningLevel>,
) -> (row: Model)
    ensures
        row.deep_view() == plain_row(id@, label@, description@, reasoning_levels@),
{
    let row = Model {
        id,
        label,
        description: Some(description),
        reasoning_levels,
        options: vec![effort_option(), permission_option()],
    };
    assert(row.options.deep_view() =~= seq![effort_view(), permission_view()]);
    row
}

/// The two routing rows: Aside's own routing and the fast route. They offer no reasoning
/// levels: how much is thought is left to the `effort` option.
pub fn static_models() -> (rows: Vec<Model>)
    ensures
        rows.deep_view() == static_rows(),
{
    let rows = vec![
        make_row(
            DEFAULT_MODEL.to_owned(),
            "Default".to_owned(),
            "Aside's default model routing".to_owned(),
            Vec::new(),
        ),
        make_row(
            FAST_MODEL.to_owned(),
            "Fast".to_owned(),
            "Aside's fast model routing".to_owned(),
            Vec::new(),
        ),
    ];
    assert(rows.deep_view() =~= static_rows());
    rows
}

/// The row of a model that was discovered.
pub fn discovered_row(provider: &str, display: &str, model_id: &str) -> (row: Model)
    ensures
        row.deep_view() == discovered_view(provider@, display@, model_id@),
{
    let id = provider.to_owned().concat("/").concat(model_id);
    let description = display.to_owned().concat(" via Aside");
    make_row(id, model_id.to_owned(), description, full_reasoning_ladder())
}

/// The catalog: the routing rows, then those discovered, each with the `account`
/// option if any account is signed in.
pub fn full_catalog(discovered: Vec<Model>, signed_in: &[String]) -> (catalog: Vec<Model>)
    ensures
        catalog.deep_view() == catalog_view(discovered.deep_view(), signed_in.deep_view()),
{
    let ghost ids = signed_in.deep_view();
    let mut discovered = discovered;
    let ghost found = discovered.deep_view();
    let mut rows = static_models();
    rows.append(&mut discovered);
    assert(rows.deep_view() =~= static_rows() + found);
    if signed_in.len() == 0 {
        return rows;
    }
    let ghost before = rows.deep_view();
    let ghost extend = |row: ModelView| with_option(row, account_view(ids));
    let mut catalog: Vec<Model> = Vec::new();
    for row in it: rows.into_iter()
        invariant
            it.seq() == rows@,
            before == rows.deep_view(),
            ids == signed_in.deep_view(),
            extend == (|row: ModelView| with_option(row, account_view(ids))),
            catalog.deep_view() == before.take(it.index()).map_values(extend),
    {
        let ghost i = it.index();
        let ghost made = catalog.deep_view();
        let ghost old_row = row.deep_view();
        assert(old_row == before[i]);
        let mut row = row;
        row.options.push(account_option(signed_in));
        assert(row.deep_view() =~= extend(old_row));
        catalog.push(row);
        assert(catalog.deep_view() =~= made.push(extend(before[i])));
        assert(before.take(i + 1).map_values(extend) =~= made.push(extend(before[i])));
    }
    assert(before.take(before.len() as int) =~= before);
    catalog
}

} // verus!
