//! The values that a harness and its host exchange: run requests, catalog rows,
//! events and errors.

use crate::json::{entries_view, Json, JsonView};
use vstd::prelude::*;

verus! {

/// How much a model is asked to reason.
#[derive(Debug, Clone, Copy, PartialEq, Eq, Structural)]
pub enum ReasoningLevel {
    Off,
    Minimal,
    Low,
    Medium,
    High,
    XHigh,
    Max,
    Ultrathink,
    Ultracode,
    Ultra,
}

impl DeepView for ReasoningLevel {
    type V = ReasoningLevel;

    open spec fn deep_view(&self) -> ReasoningLevel {
        *self
    }
}

/// The harness that runs a turn.
#[derive(Debug, Clone, Copy, PartialEq, Eq, Structural)]
pub enum HarnessId {
    Aside,
}

/// When a steering prompt takes effect.
#[derive(Debug, Clone, Copy, PartialEq, Eq, Structural)]
pub enum SteeringMode {
    /// At the next step: the current one is interrupted and replaced.
    StepBoundary,
}

/// How a turn ended.
#[derive(Debug, Clone, Copy, PartialEq, Eq, Structural)]
pub enum DoneStatus {
    Completed,
    Errored,
    Interrupted,
}

/// One choice of a picker option.
#[derive(Debug, PartialEq, Eq)]
pub struct ModelOptionChoice {
    pub id: String,
    pub label: String,
}

/// What a [`ModelOptionChoice`] stands for.
pub struct ChoiceView {
    pub id: Seq<char>,
    pub label: Seq<char>,
}

impl DeepView for ModelOptionChoice {
    type V = ChoiceView;

    open spec fn deep_view(&self) -> ChoiceView {
        ChoiceView { id: self.id@, label: self.label@ }
    }
}

/// A picker option of a catalog row.
#[derive(Debug, PartialEq, Eq)]
pub struct ModelOption {
    pub id: String,
    pub label: String,
    pub choices: Vec<ModelOptionChoice>,
    pub default_choice: String,
}

/// What a [`ModelOption`] stands for.
#[verifier::ext_equal]
pub struct OptionView {
    pub id: Seq<char>,
    pub label: Seq<char>,
    pub choices: Seq<ChoiceView>,
    pub default_choice: Seq<char>,
}

impl DeepView for ModelOption {
    type V = OptionView;

    open spec fn deep_view(&self) -> OptionView {
        OptionView {
            id: self.id@,
            label: self.label@,
            choices: self.choices.deep_view(),
            default_choice: self.default_choice@,
        }
    }
}

/// A row of the model catalog.
#[derive(Debug, PartialEq, Eq)]
pub struct Model {
    pub id: String,
    pub label: String,
    pub description: Option<String>,
    pub reasoning_levels: Vec<ReasoningLevel>,
    pub options: Vec<ModelOption>,
}

/// What a [`Model`] stands for.
#[verifier::ext_equal]
pub struct ModelView {
    pub id: Seq<char>,
    pub label: Seq<char>,
    pub description: Option<Seq<char>>,
    pub reasoning_levels: Seq<ReasoningLevel>,
    pub options: Seq<OptionView>,
}

impl DeepView for Model {
    type V = ModelView;

    open spec fn deep_view(&self) -> ModelView {
        ModelView {
            id: self.id@,
            label: self.label@,
            description: self.description.deep_view(),
            reasoning_levels: self.reasoning_levels@,
            options: self.options.deep_view(),
        }
    }
}

/// What the host asks a harness to run: one turn.
#[derive(Debug, PartialEq, Eq)]
pub struct RunRequest {
    /// The prompt of the turn.
    pub prompt: String,
    /// The catalog row to route to.
    pub model: Option<String>,
    /// The reasoning level that was picked.
    pub reasoning: Option<ReasoningLevel>,
    /// The picker options that were set, by option id.
    pub model_options: Vec<(String, Json)>,
    /// The working directory; empty for that of the host.
    pub cwd: String,
    /// The session to go on with.
    pub resume: Option<String>,
}

/// What a [`RunRequest`] stands for.
#[verifier::ext_equal]
pub struct RequestView {
    pub prompt: Seq<char>,
    pub model: Option<Seq<char>>,
    pub reasoning: Option<ReasoningLevel>,
    pub model_options: Seq<(Seq<char>, JsonView)>,
    pub cwd: Seq<char>,
    pub resume: Option<Seq<char>>,
}

impl DeepView for RunRequest {
    type V = RequestView;

    open spec fn deep_view(&self) -> RequestView {
        RequestView {
            prompt: self.prompt@,
            model: self.model.deep_view(),
            reasoning: self.reasoning,
            model_options: entries_view(self.model_options@),
            cwd: self.cwd@,
            resume: self.resume.deep_view(),
        }
    }
}

impl Clone for RunRequest {
    fn clone(&self) -> (copy: RunRequest)
        ensures
            copy.deep_view() == self.deep_view(),
    {
        let mut model_options: Vec<(String, Json)> = Vec::new();
        let ghost all = self.model_options@;
        let mut i: usize = 0;
        while i < self.model_options.len()
            invariant
                all == self.model_options@,
                i <= all.len(),
                entries_view(model_options@) == entries_view(all.take(i as int)),
            decreases all.len() - i,
        {
            let ghost before = model_options@;
            model_options.push(
                (self.model_options[i].0.clone(), self.model_options[i].1.clone()),
            );
            assert(model_options@.drop_last() == before);
            assert(all.take(i + 1).drop_last() =~= all.take(i as int));
            i += 1;
        }
        assert(all.take(i as int) =~= all);
        RunRequest {
            prompt: self.prompt.clone(),
            model: copy_text(&self.model),
            reasoning: self.reasoning,
            model_options,
            cwd: self.cwd.clone(),
            resume: copy_text(&self.resume),
        }
    }
}

/// An event of a running turn.
#[allow(inconsistent_fields)]
#[derive(Debug, PartialEq, Eq)]
pub enum AgentEvent {
    SessionStarted {
        harness: HarnessId,
        model: String,
        tools: Vec<String>,
        cwd: String,
        session_id: String,
        assistant_message_id: String,
    },
    TextDelta { text: String },
    AssistantMessageCompleted { assistant_message_id: String },
    Steered { assistant_message_id: Option<String>, next_assistant_message_id: Option<String> },
    Error { message: String },
    Done {
        status: DoneStatus,
        result: Option<String>,
        error: Option<String>,
        session_id: Option<String>,
    },
    /// Any other event, as it came.
    Other { value: Json },
}

/// What an [`AgentEvent`] stands for.
#[allow(inconsistent_fields)]
#[verifier::ext_equal]
pub enum EventView {
    SessionStarted {
        harness: HarnessId,
        model: Seq<char>,
        tools: Seq<Seq<char>>,
        cwd: Seq<char>,
        session_id: Seq<char>,
        assistant_message_id: Seq<char>,
    },
    TextDelta { text: Seq<char> },
    AssistantMessageCompleted { assistant_message_id: Seq<char> },
    Steered {
        assistant_message_id: Option<Seq<char>>,
        next_assistant_message_id: Option<Seq<char>>,
    },
    Error { message: Seq<char> },
    Done {
        status: DoneStatus,
        result: Option<Seq<char>>,
        error: Option<Seq<char>>,
        session_id: Option<Seq<char>>,
    },
    Other { value: JsonView },
}

impl DeepView for AgentEvent {
    type V = EventView;

    open spec fn deep_view(&self) -> EventView {
        match self {
            AgentEvent::SessionStarted {
                harness,
                model,
                tools,
                cwd,
                session_id,
                assistant_message_id,
            } => EventView::SessionStarted {
                harness: *harness,
                model: model@,
                tools: tools.deep_view(),
                cwd: cwd@,
                session_id: session_id@,
                assistant_message_id: assistant_message_id@,
            },
            AgentEvent::TextDelta { text } => EventView::TextDelta { text: text@ },
            AgentEvent::AssistantMessageCompleted { assistant_message_id } => {
                EventView::AssistantMessageCompleted { assistant_message_id: assistant_message_id@ }
            },
            AgentEvent::Steered { assistant_message_id, next_assistant_message_id } => {
                EventView::Steered {
                    assistant_message_id: assistant_message_id.deep_view(),
                    next_assistant_message_id: next_assistant_message_id.deep_view(),
                }
            },
            AgentEvent::Error { message } => EventView::Error { message: message@ },
            AgentEvent::Done { status, result, error, session_id } => EventView::Done {
                status: *status,
                result: result.deep_view(),
                error: error.deep_view(),
                session_id: session_id.deep_view(),
            },
            AgentEvent::Other { value } => EventView::Other { value: value.deep_view() },
        }
    }
}

/// Why a harness could not do what it was asked.
#[derive(Debug, PartialEq, Eq)]
pub enum HarnessError {
    /// The client is not installed: where it was looked for.
    NotInstalled(String),
    /// An input or output operation failed.
    Io(String),
    /// The client did not keep to its protocol.
    Protocol(String),
}

/// A copy of a text that may be missing.
pub(crate) fn copy_text(text: &Option<String>) -> (copy: Option<String>)
    ensures
        copy.deep_view() == text.deep_view(),
{
    match text {
        Some(text) => Some(text.clone()),
        None => None,
    }
}

} // verus!
