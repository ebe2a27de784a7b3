//! Values stand for what they hold: nothing is cut, changed or left out.

use crate::completion::MappedResult;
use crate::discovery::{documents, AccountDocuments, AccountFiles};
use crate::json::{json_document, lemma_entries_view, lemma_items_view, Json, JsonView};
use crate::protocol::{
    AgentEvent, EventView, Model, ModelOption, ModelOptionChoice, ReasoningLevel, RunRequest,
};
use crate::session::{Action, ActionView, Signal, SignalView, SteerOutcome};
use vstd::prelude::*;

verus! {

/// A text that may be missing stands for itself.
pub open spec fn same_text_or_none(text: Option<String>, view: Option<Seq<char>>) -> bool {
    match text {
        Some(text) => view == Some(text@),
        None => view is None,
    }
}

/// A JSON value stands for its kind and all that it holds, in order.
pub proof fn json_stands_for_itself(value: Json)
    ensures
        match (value, value.deep_view()) {
            (Json::Null, JsonView::Null) => true,
            (Json::Bool(flag), JsonView::Bool(view)) => view == flag,
            (Json::Number(text), JsonView::Number(view)) => view == text@,
            (Json::Text(text), JsonView::Text(view)) => view == text@,
            (Json::Array(items), JsonView::Array(views)) => {
                &&& views.len() == items@.len()
                &&& forall|i: int|
                    0 <= i < items@.len() ==> #[trigger] views[i] == items@[i].deep_view()
            },
            (Json::Object(entries), JsonView::Object(views)) => {
                &&& views.len() == entries@.len()
                &&& forall|i: int|
                    0 <= i < entries@.len() ==> (#[trigger] views[i]).0 == entries@[i].0@
                        && views[i].1 == entries@[i].1.deep_view()
            },
            _ => false,
        },
{
    match value {
        Json::Array(items) => lemma_items_view(items@),
        Json::Object(entries) => lemma_entries_view(entries@),
        _ => {},
    }
}

/// A request stands for all of its fields.
pub proof fn request_stands_for_itself(request: RunRequest)
    ensures
        ({
            let view = request.deep_view();
            &&& view.prompt == request.prompt@
            &&& same_text_or_none(request.model, view.model)
            &&& view.reasoning == request.reasoning
            &&& view.cwd == request.cwd@
            &&& same_text_or_none(request.resume, view.resume)
            &&& view.model_options.len() == request.model_options@.len()
            &&& forall|i: int|
                0 <= i < request.model_options@.len() ==> (#[trigger] view.model_options[i]).0
                    == request.model_options@[i].0@ && view.model_options[i].1
                    == request.model_options@[i].1.deep_view()
        }),
{
    lemma_entries_view(request.model_options@);
}

/// An event stands for its kind and all of its fields.
pub proof fn event_stands_for_itself(event: AgentEvent)
    ensures
        match (event, event.deep_view()) {
            (
                AgentEvent::SessionStarted {
                    harness,
                    model,
                    tools,
                    cwd,
                    session_id,
                    assistant_message_id,
                },
                EventView::SessionStarted {
                    harness: h,
                    model: m,
                    tools: t,
                    cwd: c,
                    session_id: s,
                    assistant_message_id: a,
                },
            ) => {
                &&& h == harness
                &&& m == model@
                &&& t.len() == tools@.len()
                &&& forall|i: int| 0 <= i < t.len() ==> #[trigger] t[i] == tools@[i]@
                &&& c == cwd@
                &&& s == session_id@
                &&& a == assistant_message_id@
            },
            (AgentEvent::TextDelta { text }, EventView::TextDelta { text: view }) => view == text@,
            (
                AgentEvent::AssistantMessageCompleted { assistant_message_id },
                EventView::AssistantMessageCompleted { assistant_message_id: view },
            ) => view == assistant_message_id@,
            (
                AgentEvent::Steered { assistant_message_id, next_assistant_message_id },
                EventView::Steered { assistant_message_id: a, next_assistant_message_id: n },
            ) => same_text_or_none(assistant_message_id, a) && same_text_or_none(
                next_assistant_message_id,
                n,
            ),
            (AgentEvent::Error { message }, EventView::Error { message: view }) => view
                == message@,
            (
                AgentEvent::Done { status, result, error, session_id },
                EventView::Done { status: t, result: r, error: e, session_id: s },
            ) => {
                &&& t == status
                &&& same_text_or_none(result, r)
                &&& same_text_or_none(error, e)
                &&& same_text_or_none(session_id, s)
            },
            (AgentEvent::Other { value }, EventView::Other { value: view }) => view
                == value.deep_view(),
            _ => false,
        },
{
}

/// A signal stands for its kind and all that it carries.
pub proof fn signal_stands_for_itself(signal: Signal)
    ensures
        match (signal, signal.deep_view()) {
            (Signal::Initialized, SignalView::Initialized) => true,
            (Signal::InitializeFailed(error), SignalView::InitializeFailed(view)) => view == error@,
            (Signal::Interrupted, SignalView::Interrupted) => true,
            (Signal::Steer(prompt), SignalView::Steer(view)) => view == prompt@,
            (
                Signal::SteerEnded(SteerOutcome::Exited { success }),
                SignalView::SteerExited(view),
            ) => view == success,
            (
                Signal::SteerEnded(SteerOutcome::Failed(error)),
                SignalView::SteerFailed(view),
            ) => view == error@,
            (
                Signal::Replied { response, decoded },
                SignalView::Replied { response: r, decoded: d },
            ) => {
                &&& r == response.deep_view()
                &&& d.len() == decoded@.len()
                &&& forall|i: int|
                    0 <= i < d.len() ==> match (decoded@[i], #[trigger] d[i]) {
                        (Some(event), Some(view)) => view == event.deep_view(),
                        (None, None) => true,
                        _ => false,
                    }
            },
            (Signal::CallFailed(error), SignalView::CallFailed(view)) => view == error@,
            (Signal::NoReply, SignalView::NoReply) => true,
            _ => false,
        },
{
}

/// An action stands for its kind and all that it carries.
pub proof fn action_stands_for_itself(action: Action)
    ensures
        match (action, action.deep_view()) {
            (Action::Request { method, params }, ActionView::Request { method: m, params: p }) => m
                == method@ && p == params.deep_view(),
            (Action::Notify { method }, ActionView::Notify { method: view }) => view == method@,
            (
                Action::RunSteer { session_id, prompt },
                ActionView::RunSteer { session_id: s, prompt: p },
            ) => s == session_id@ && p == prompt@,
            (Action::RunStop { session_id }, ActionView::RunStop { session_id: view }) => view
                == session_id@,
            (Action::AwaitGrace, ActionView::AwaitGrace) => true,
            (Action::Settle, ActionView::Settle) => true,
            (Action::Emit(event), ActionView::Emit(view)) => view == event.deep_view(),
            (Action::Shutdown, ActionView::Shutdown) => true,
            _ => false,
        },
{
}

/// A finished task stands for all of its fields.
pub proof fn task_stands_for_itself(task: MappedResult)
    ensures
        ({
            let view = task.deep_view();
            &&& view.events.len() == task.events@.len()
            &&& forall|i: int|
                0 <= i < view.events.len() ==> #[trigger] view.events[i]
                    == task.events@[i].deep_view()
            &&& view.status == task.status
            &&& same_text_or_none(task.result, view.result)
            &&& same_text_or_none(task.error, view.error)
            &&& same_text_or_none(task.session_id, view.session_id)
        }),
{
}

/// A choice, an option and a row of the catalog stand for all of their fields.
pub proof fn catalog_row_stands_for_itself(
    choice: ModelOptionChoice,
    option: ModelOption,
    row: Model,
)
    ensures
        choice.deep_view().id == choice.id@,
        choice.deep_view().label == choice.label@,
        ({
            let view = option.deep_view();
            &&& view.id == option.id@
            &&& view.label == option.label@
            &&& view.choices.len() == option.choices@.len()
            &&& forall|i: int|
                0 <= i < view.choices.len() ==> #[trigger] view.choices[i]
                    == option.choices@[i].deep_view()
            &&& view.default_choice == option.default_choice@
        }),
        ({
            let view = row.deep_view();
            &&& view.id == row.id@
            &&& view.label == row.label@
            &&& same_text_or_none(row.description, view.description)
            &&& view.reasoning_levels == row.reasoning_levels@
            &&& view.options.len() == row.options@.len()
            &&& forall|i: int|
                0 <= i < view.options.len() ==> #[trigger] view.options[i]
                    == row.options@[i].deep_view()
        }),
{
}

/// A reasoning level stands for itself.
pub proof fn level_stands_for_itself(level: ReasoningLevel)
    ensures
        level.deep_view() == level,
{
}

/// The documents of an account are what its files read as, each its own; a file that could
/// not be read is no document.
pub proof fn files_are_read_each_for_itself(files: AccountFiles, account: AccountDocuments)
    ensures
        documents(files).models == match files.models {
            Some(text) => json_document(text@),
            None => None,
        },
        documents(files).settings == match files.settings {
            Some(text) => json_document(text@),
            None => None,
        },
        account.deep_view().models == match account.models {
            Some(value) => Some(value.deep_view()),
            None => None,
        },
        account.deep_view().settings == match account.settings {
            Some(value) => Some(value.deep_view()),
            None => None,
        },
{
}

} // verus!
