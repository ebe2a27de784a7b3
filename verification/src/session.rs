//! One turn of the Aside client, step by step: what to do next, given what happened.
//!
//! The host performs the actions and reports back what came of them as signals.

use crate::completion::{
    map_completed_result, mapped, reply_document, structured_part, MappedResult, MappedView,
};
use crate::json::{
    entries_view, json_view, lemma_entries_view, lemma_well_formed, well_formed, Json, JsonView,
};
use crate::models::DEFAULT_MODEL;
use crate::protocol::{
    copy_text, AgentEvent, DoneStatus, EventView, HarnessId, RequestView, RunRequest,
};
use crate::text::text_before;
use vstd::prelude::*;
use vstd::string::StringExecFns;

verus! {

/// The version of the tool protocol that the client is asked to speak.
pub const DEFAULT_PROTOCOL_VERSION: &'static str = "2025-03-26";

/// How far a turn has come.
#[derive(Debug, Clone, Copy, PartialEq, Eq, Structural)]
pub enum Phase {
    /// The client has been asked to introduce itself.
    Starting,
    /// The task runs.
    Running,
    /// The task was interrupted and may still answer.
    Interrupting,
    /// The turn is over.
    Finished,
}

/// A turn.
#[derive(Debug, PartialEq, Eq)]
pub struct Session {
    request: RunRequest,
    message_id: String,
    phase: Phase,
    /// The steering prompts that came before the task ran.
    waiting: Vec<String>,
}

/// What a [`Session`] stands for.
#[verifier::ext_equal]
pub struct SessionView {
    pub request: RequestView,
    pub message_id: Seq<char>,
    pub phase: Phase,
    pub waiting: Seq<Seq<char>>,
}

impl View for Session {
    type V = SessionView;

    closed spec fn view(&self) -> SessionView {
        SessionView {
            request: self.request.deep_view(),
            message_id: self.message_id@,
            phase: self.phase,
            waiting: self.waiting.deep_view(),
        }
    }
}

/// How a steering command ended.
#[derive(Debug, PartialEq, Eq)]
pub enum SteerOutcome {
    /// The command ran to its end.
    Exited { success: bool },
    /// The command could not be run, for this reason.
    Failed(String),
}

/// What happened.
#[derive(Debug, PartialEq, Eq)]
pub enum Signal {
    /// The client has introduced itself.
    Initialized,
    /// The client could not introduce itself, for this reason.
    InitializeFailed(String),
    /// The host wants the turn to stop.
    Interrupted,
    /// The host wants the turn to go on with this prompt. Before the task runs, the
    /// prompt waits for it.
    Steer(String),
    /// A steering command ended.
    SteerEnded(SteerOutcome),
    /// The task answered. There is one decoded event per event of the reply's
    /// structured part, empty where it did not decode.
    Replied { response: Json, decoded: Vec<Option<AgentEvent>> },
    /// The task could not be carried out, for this reason.
    CallFailed(String),
    /// The task will not answer any more.
    NoReply,
}

/// What a [`Signal`] stands for.
pub enum SignalView {
    Initialized,
    InitializeFailed(Seq<char>),
    Interrupted,
    Steer(Seq<char>),
    SteerExited(bool),
    SteerFailed(Seq<char>),
    Replied { response: JsonView, decoded: Seq<Option<EventView>> },
    CallFailed(Seq<char>),
    NoReply,
}

impl DeepView for Signal {
    type V = SignalView;

    open spec fn deep_view(&self) -> SignalView {
        match self {
            Signal::Initialized => SignalView::Initialized,
            Signal::InitializeFailed(error) => SignalView::InitializeFailed(error@),
            Signal::Interrupted => SignalView::Interrupted,
            Signal::Steer(prompt) => SignalView::Steer(prompt@),
            Signal::SteerEnded(SteerOutcome::Exited { success }) => SignalView::SteerExited(
                *success,
            ),
            Signal::SteerEnded(SteerOutcome::Failed(error)) => SignalView::SteerFailed(error@),
            Signal::Replied { response, decoded } => SignalView::Replied {
                response: response.deep_view(),
                decoded: decoded.deep_view(),
            },
            Signal::CallFailed(error) => SignalView::CallFailed(error@),
            Signal::NoReply => SignalView::NoReply,
        }
    }
}

/// What to do next.
#[derive(Debug, PartialEq, Eq)]
pub enum Action {
    /// Send a request to the client and report its answer.
    Request { method: String, params: Json },
    /// Send a notification to the client.
    Notify { method: String },
    /// Run `session steer` and report how it ended.
    RunSteer { session_id: String, prompt: String },
    /// Run `session stop`.
    RunStop { session_id: String },
    /// Wait for the reply, but no longer than the interrupt grace.
    AwaitGrace,
    /// Wait for the commands that still run, each no longer than the interrupt grace.
    Settle,
    /// Pass an event on to the host.
    Emit(AgentEvent),
    /// Shut the client down.
    Shutdown,
}

/// What an [`Action`] stands for.
#[verifier::ext_equal]
pub enum ActionView {
    Request { method: Seq<char>, params: JsonView },
    Notify { method: Seq<char> },
    RunSteer { session_id: Seq<char>, prompt: Seq<char> },
    RunStop { session_id: Seq<char> },
    AwaitGrace,
    Settle,
    Emit(EventView),
    Shutdown,
}

impl DeepView for Action {
    type V = ActionView;

    open spec fn deep_view(&self) -> ActionView {
        match self {
            Action::Request { method, params } => ActionView::Request {
                method: method@,
                params: params.deep_view(),
            },
            Action::Notify { method } => ActionView::Notify { method: method@ },
            Action::RunSteer { session_id, prompt } => ActionView::RunSteer {
                session_id: session_id@,
                prompt: prompt@,
            },
            Action::RunStop { session_id } => ActionView::RunStop { session_id: session_id@ },
            Action::AwaitGrace => ActionView::AwaitGrace,
            Action::Settle => ActionView::Settle,
            Action::Emit(event) => ActionView::Emit(event.deep_view()),
            Action::Shutdown => ActionView::Shutdown,
        }
    }
}

/// An object with these entries.
pub open spec fn object(entries: Seq<(Seq<char>, JsonView)>) -> JsonView {
    JsonView::Object(entries)
}

/// The parameters with which the client is asked to introduce itself.
pub open spec fn initialize_params_view(version: Seq<char>) -> JsonView {
    object(
        seq![
            ("capabilities"@, object(Seq::empty())),
            (
                "clientInfo"@,
                object(
                    seq![
                        ("name"@, JsonView::Text("zeron-aside"@)),
                        ("title"@, JsonView::Text("Zeron"@)),
                        ("version"@, JsonView::Text(version)),
                    ],
                ),
            ),
            ("protocolVersion"@, JsonView::Text("2025-03-26"@)),
        ],
    )
}

/// The arguments of the task: the prompt and the session to go on with.
pub open spec fn task_arguments(request: RequestView) -> Seq<(Seq<char>, JsonView)> {
    let prompt = seq![("prompt"@, JsonView::Text(request.prompt))];
    match request.resume {
        Some(session_id) => prompt.push(("session_id"@, JsonView::Text(session_id))),
        None => prompt,
    }
}

/// The parameters with which the task is started.
pub open spec fn call_params_view(request: RequestView) -> JsonView {
    object(
        seq![
            ("arguments"@, object(task_arguments(request))),
            ("name"@, JsonView::Text("exec"@)),
        ],
    )
}

/// The event that ends a turn.
pub open spec fn done(
    status: DoneStatus,
    error: Option<Seq<char>>,
    session_id: Option<Seq<char>>,
) -> EventView {
    EventView::Done { status, result: None, error, session_id }
}

/// The event that starts a session.
pub open spec fn started(
    request: RequestView,
    message_id: Seq<char>,
    session_id: Seq<char>,
) -> EventView {
    EventView::SessionStarted {
        harness: HarnessId::Aside,
        model: match request.model {
            Some(model) => model,
            None => "default"@,
        },
        tools: Seq::empty(),
        cwd: request.cwd,
        session_id,
        assistant_message_id: message_id,
    }
}

/// One of the events starts a session.
pub open spec fn has_start(events: Seq<EventView>) -> bool {
    exists|i: int| 0 <= i < events.len() && #[trigger] events[i] is SessionStarted
}

/// The error of a turn whose session nothing names.
pub open spec fn no_session_message() -> Seq<char> {
    "Aside did not report the session of this turn"@
}

/// The events of a finished task: the start of the session, unless the task reports
/// it itself, then what the task reports, then the end of the turn. A task whose session
/// is not known is an error and nothing else: its own, if it has one.
pub open spec fn reply_events(
    request: RequestView,
    message_id: Seq<char>,
    result: MappedView,
) -> Seq<EventView> {
    match result.session_id {
        Some(session_id) => {
            let start = if has_start(result.events) {
                Seq::empty()
            } else {
                seq![started(request, message_id, session_id)]
            };
            (start + result.events).push(
                EventView::Done {
                    status: result.status,
                    result: result.result,
                    error: result.error,
                    session_id: Some(session_id),
                },
            )
        },
        None => seq![
            done(
                DoneStatus::Errored,
                Some(
                    match result.error {
                        Some(error) => error,
                        None => no_session_message(),
                    },
                ),
                None,
            ),
        ],
    }
}

/// The actions that pass events on.
pub open spec fn emits(events: Seq<EventView>) -> Seq<ActionView> {
    events.map_values(|event: EventView| ActionView::Emit(event))
}

/// The actions that end a turn whose task was never started.
pub open spec fn ending(events: Seq<EventView>) -> Seq<ActionView> {
    emits(events).push(ActionView::Shutdown)
}

/// The actions that end a turn whose task was started.
pub open spec fn closing(events: Seq<EventView>) -> Seq<ActionView> {
    seq![ActionView::Settle] + ending(events)
}

/// The finished task that the reply to a request stands for.
pub open spec fn reply_result(
    request: RequestView,
    message_id: Seq<char>,
    response: JsonView,
    decoded: Seq<Option<EventView>>,
) -> MappedView {
    mapped(
        structured_part(response, reply_document(response)),
        response,
        request.resume,
        message_id,
        decoded,
    )
}

/// The session has come to this phase.
pub open spec fn at(session: SessionView, phase: Phase) -> SessionView {
    SessionView { phase, ..session }
}

/// What a steering prompt leads to once the task runs: a new session, whose id is not
/// known yet, cannot be steered.
pub open spec fn steering(resume: Option<Seq<char>>, prompt: Seq<char>) -> ActionView {
    match resume {
        Some(session_id) => ActionView::RunSteer { session_id, prompt },
        None => ActionView::Emit(
            EventView::Error {
                message: "Aside cannot steer a new MCP session until its session_id is known"@,
            },
        ),
    }
}

/// What several steering prompts lead to, in order.
pub open spec fn steerings(resume: Option<Seq<char>>, prompts: Seq<Seq<char>>) -> Seq<ActionView> {
    prompts.map_values(|prompt: Seq<char>| steering(resume, prompt))
}

/// The actions that start the task of a request.
pub open spec fn task_start(request: RequestView) -> Seq<ActionView> {
    seq![
        ActionView::Notify { method: "notifications/initialized"@ },
        ActionView::Request { method: "tools/call"@, params: call_params_view(request) },
    ]
}

/// What a signal leads to: where the turn then stands and what to do next.
pub open spec fn transition(session: SessionView, signal: SignalView) -> (
    SessionView,
    Seq<ActionView>,
) {
    let resume = session.request.resume;
    let nothing = (session, Seq::<ActionView>::empty());
    let interrupted = done(DoneStatus::Interrupted, None, resume);
    match (signal, session.phase) {
        (SignalView::Initialized, Phase::Starting) => (
            SessionView { phase: Phase::Running, waiting: Seq::empty(), ..session },
            task_start(session.request) + steerings(resume, session.waiting),
        ),
        (SignalView::InitializeFailed(error), Phase::Starting) => (
            at(session, Phase::Finished),
            ending(seq![done(DoneStatus::Errored, Some(error), None)]),
        ),
        (SignalView::Interrupted, Phase::Starting) => (
            at(session, Phase::Finished),
            ending(seq![interrupted]),
        ),
        (SignalView::Interrupted, Phase::Running) => (
            at(session, Phase::Interrupting),
            match resume {
                Some(session_id) => seq![
                    ActionView::RunStop { session_id },
                    ActionView::AwaitGrace,
                ],
                None => seq![ActionView::AwaitGrace],
            },
        ),
        (SignalView::Steer(prompt), Phase::Starting) => (
            SessionView { waiting: session.waiting.push(prompt), ..session },
            Seq::empty(),
        ),
        (SignalView::Steer(prompt), Phase::Running) => (session, seq![steering(resume, prompt)]),
        (SignalView::Replied { response, decoded }, Phase::Running) => (
            at(session, Phase::Finished),
            closing(
                reply_events(
                    session.request,
                    session.message_id,
                    reply_result(session.request, session.message_id, response, decoded),
                ),
            ),
        ),
        (SignalView::CallFailed(error), Phase::Running) => (
            at(session, Phase::Finished),
            closing(seq![done(DoneStatus::Errored, Some(error), resume)]),
        ),
        (SignalView::NoReply, Phase::Running) => (
            at(session, Phase::Finished),
            closing(
                seq![
                    done(
                        DoneStatus::Errored,
                        Some("Aside MCP session ended without a result"@),
                        resume,
                    ),
                ],
            ),
        ),
        (SignalView::Replied { .. }, Phase::Interrupting) => (
            at(session, Phase::Finished),
            closing(seq![interrupted]),
        ),
        (SignalView::CallFailed(_), Phase::Interrupting) => (
            at(session, Phase::Finished),
            closing(seq![interrupted]),
        ),
        (SignalView::NoReply, Phase::Interrupting) => (
            at(session, Phase::Finished),
            closing(seq![interrupted]),
        ),
        (SignalView::SteerExited(true), _) => (
            session,
            emits(
                seq![
                    EventView::Steered {
                        assistant_message_id: None,
                        next_assistant_message_id: None,
                    },
                ],
            ),
        ),
        (SignalView::SteerFailed(error), _) => (
            session,
            emits(seq![EventView::Error { message: error }]),
        ),
        _ => nothing,
    }
}

/// A random identifier in its usual text form: five groups of hexadecimal digits, with
/// the version and the variant in their places.
pub open spec fn uuid_text(text: Seq<char>) -> bool {
    &&& text.len() == 36
    &&& forall|i: int|
        0 <= i < 36 ==> if i == 8 || i == 13 || i == 18 || i == 23 {
            #[trigger] text[i] == '-'
        } else {
            hex_digit(text[i])
        }
    &&& text[14] == '4'
    &&& text[19] == '8' || text[19] == '9' || text[19] == 'a' || text[19] == 'b'
}

/// A hexadecimal digit in lower case.
pub open spec fn hex_digit(c: char) -> bool {
    '0' <= c <= '9' || 'a' <= c <= 'f'
}

/// A new id of an assistant message: a random identifier with a prefix.
pub open spec fn new_id(id: Seq<char>) -> bool {
    exists|unique: Seq<char>| #[trigger] uuid_text(unique) && id == "aside-"@ + unique
}

/// Calls `Uuid::new_v4` and displays what it returns. Claimed: the text is that of a
/// random (version 4) identifier. Which one is left to chance: that two calls differ is
/// not claimed. It panics where the operating system has no random bytes to give.
#[verifier::external_body]
fn random_uuid() -> (text: String)
    ensures
        uuid_text(text@),
{
    uuid::Uuid::new_v4().to_string()
}

/// The id of an assistant message, given a unique text.
pub fn message_id_of(unique: &str) -> (id: String)
    ensures
        id@ == "aside-"@ + unique@,
{
    "aside-".to_owned().concat(unique)
}

/// A new id for an assistant message, so that separate turns do not share one.
pub fn new_message_id() -> (id: String)
    ensures
        new_id(id@),
{
    let unique = random_uuid();
    message_id_of(unique.as_str())
}

/// The event that ends a turn without a result.
fn make_done(status: DoneStatus, error: Option<String>, session_id: Option<String>) -> (event:
    AgentEvent)
    ensures
        event.deep_view() == done(status, error.deep_view(), session_id.deep_view()),
{
    AgentEvent::Done { status, result: None, error, session_id }
}

/// Appends the actions that pass events on and then shut the client down.
fn end_with(actions: &mut Vec<Action>, events: Vec<AgentEvent>)
    ensures
        final(actions).deep_view() == old(actions).deep_view() + ending(events.deep_view()),
{
    let ghost views = events.deep_view();
    let ghost start = actions.deep_view();
    assert(start =~= start + emits(views.take(0)));
    for event in it: events.into_iter()
        invariant
            it.seq() == events@,
            views == events.deep_view(),
            actions.deep_view() == start + emits(views.take(it.index())),
    {
        let ghost i = it.index();
        let ghost before = actions.deep_view();
        actions.push(Action::Emit(event));
        assert(actions.deep_view() =~= before.push(ActionView::Emit(views[i])));
        assert(start + emits(views.take(i + 1)) =~= before.push(ActionView::Emit(views[i])));
    }
    assert(views.take(views.len() as int) =~= views);
    let ghost before = actions.deep_view();
    actions.push(Action::Shutdown);
    assert(actions.deep_view() =~= before.push(ActionView::Shutdown));
    assert(actions.deep_view() =~= start + ending(views));
}

/// The actions that end a turn with one event.
fn end_with_one(started: bool, event: AgentEvent) -> (actions: Vec<Action>)
    ensures
        actions.deep_view() == (if started {
            closing(seq![event.deep_view()])
        } else {
            ending(seq![event.deep_view()])
        }),
{
    let mut actions: Vec<Action> = Vec::new();
    if started {
        actions.push(Action::Settle);
        assert(actions.deep_view() =~= seq![ActionView::Settle]);
    }
    let events = vec![event];
    assert(events.deep_view() =~= seq![event.deep_view()]);
    end_with(&mut actions, events);
    assert(!started ==> actions.deep_view() =~= ending(seq![event.deep_view()]));
    actions
}

/// The action that passes one event on.
fn emit_one(event: AgentEvent) -> (actions: Vec<Action>)
    ensures
        actions.deep_view() == emits(seq![event.deep_view()]),
{
    let actions = vec![Action::Emit(event)];
    assert(actions.deep_view() =~= emits(seq![event.deep_view()]));
    actions
}

/// The events of a finished task. A task whose session is not known ends in an error.
pub fn finished_events(request: &RunRequest, message_id: &str, result: MappedResult) -> (events: Vec<
    AgentEvent,
>)
    ensures
        events.deep_view() == reply_events(
            request.deep_view(),
            message_id@,
            result.deep_view(),
        ),
{
    let ghost view = result.deep_view();
    let session_id = match result.session_id {
        Some(session_id) => session_id,
        None => {
            let error = match result.error {
                Some(error) => error,
                None => "Aside did not report the session of this turn".to_owned(),
            };
            let events = vec![make_done(DoneStatus::Errored, Some(error), None)];
            assert(events.deep_view() =~= reply_events(request.deep_view(), message_id@, view));
            return events;
        },
    };
    let mut reported = result.events;
    let ghost inner = reported.deep_view();
    let mut has_started = false;
    let mut i: usize = 0;
    while i < reported.len()
        invariant
            i <= reported@.len(),
            inner == reported.deep_view(),
            has_started ==> has_start(inner),
            !has_started ==> forall|k: int| 0 <= k < i ==> !(#[trigger] inner[k] is SessionStarted),
        decreases reported@.len() - i,
    {
        if let AgentEvent::SessionStarted { .. } = &reported[i] {
            has_started = true;
            assert(inner[i as int] is SessionStarted);
        } else {
            assert(!(inner[i as int] is SessionStarted));
        }
        i += 1;
    }
    let mut events: Vec<AgentEvent> = Vec::new();
    if !has_started {
        let model = match &request.model {
            Some(model) => model.clone(),
            None => DEFAULT_MODEL.to_owned(),
        };
        let start = AgentEvent::SessionStarted {
            harness: HarnessId::Aside,
            model,
            tools: Vec::new(),
            cwd: request.cwd.clone(),
            session_id: session_id.clone(),
            assistant_message_id: message_id.to_owned(),
        };
        assert(start.deep_view() =~= started(request.deep_view(), message_id@, session_id@));
        events.push(start);
        assert(events.deep_view() =~= seq![
            started(request.deep_view(), message_id@, session_id@),
        ]);
    } else {
        assert(events.deep_view() =~= Seq::empty());
    }
    let ghost first = events.deep_view();
    events.append(&mut reported);
    assert(events.deep_view() =~= first + inner);
    events.push(
        AgentEvent::Done {
            status: result.status,
            result: result.result,
            error: result.error,
            session_id: Some(session_id),
        },
    );
    assert(events.deep_view() =~= reply_events(request.deep_view(), message_id@, view));
    events
}

/// An entry that holds a text.
fn text_entry(key: &str, text: &str) -> (entry: (String, Json))
    ensures
        entry.0@ == key@,
        json_view(entry.1) == JsonView::Text(text@),
{
    (key.to_owned(), Json::Text(text.to_owned()))
}

/// The parameters with which the client is asked to introduce itself to a host of this
/// version.
pub fn initialize_params(version: &str) -> (params: Json)
    ensures
        params.deep_view() == initialize_params_view(version@),
        well_formed(params.deep_view()),
{
    let info: Vec<(String, Json)> = vec![
        text_entry("name", "zeron-aside"),
        text_entry("title", "Zeron"),
        text_entry("version", version),
    ];
    let none: Vec<(String, Json)> = Vec::new();
    let entries: Vec<(String, Json)> = vec![
        ("capabilities".to_owned(), Json::Object(none)),
        ("clientInfo".to_owned(), Json::Object(info)),
        text_entry("protocolVersion", DEFAULT_PROTOCOL_VERSION),
    ];
    proof {
        lemma_entries_view(info@);
        lemma_entries_view(entries@);
        assert(entries_view(info@) =~= seq![
            ("name"@, JsonView::Text("zeron-aside"@)),
            ("title"@, JsonView::Text("Zeron"@)),
            ("version"@, JsonView::Text(version@)),
        ]);
        assert(entries_view(entries@) =~= initialize_params_view(version@)->Object_0);
        reveal_strlit("name");
        reveal_strlit("title");
        reveal_strlit("version");
        reveal_strlit("capabilities");
        reveal_strlit("clientInfo");
        reveal_strlit("protocolVersion");
        reveal_with_fuel(text_before, 2);
        lemma_well_formed(JsonView::Object(entries_view(none@)));
        lemma_well_formed(JsonView::Object(entries_view(info@)));
        lemma_well_formed(JsonView::Object(entries_view(entries@)));
    }
    Json::Object(entries)
}

/// The parameters with which the task of a request is started.
pub fn call_params(request: &RunRequest) -> (params: Json)
    ensures
        params.deep_view() == call_params_view(request.deep_view()),
        well_formed(params.deep_view()),
{
    let mut arguments: Vec<(String, Json)> = vec![text_entry("prompt", request.prompt.as_str())];
    if let Some(session_id) = &request.resume {
        arguments.push(text_entry("session_id", session_id.as_str()));
    }
    let entries: Vec<(String, Json)> = vec![
        ("arguments".to_owned(), Json::Object(arguments)),
        text_entry("name", "exec"),
    ];
    proof {
        lemma_entries_view(arguments@);
        lemma_entries_view(entries@);
        assert(entries_view(arguments@) =~= task_arguments(request.deep_view()));
        assert(entries_view(entries@) =~= call_params_view(request.deep_view())->Object_0);
        reveal_strlit("prompt");
        reveal_strlit("session_id");
        reveal_strlit("arguments");
        reveal_strlit("name");
        lemma_well_formed(JsonView::Object(entries_view(arguments@)));
        lemma_well_formed(JsonView::Object(entries_view(entries@)));
    }
    Json::Object(entries)
}

impl Session {
    /// Starts a turn: the client is asked to introduce itself to a host of this
    /// version.
    pub fn start(request: RunRequest, message_id: String, version: &str) -> (turn: (
        Session,
        Vec<Action>,
    ))
        ensures
            turn.0@ == (SessionView {
                request: request.deep_view(),
                message_id: message_id@,
                phase: Phase::Starting,
                waiting: Seq::empty(),
            }),
            turn.1.deep_view() == seq![
                ActionView::Request {
                    method: "initialize"@,
                    params: initialize_params_view(version@),
                },
            ],
    {
        let actions = vec![
            Action::Request {
                method: "initialize".to_owned(),
                params: initialize_params(version),
            },
        ];
        assert(actions.deep_view() =~= seq![
            ActionView::Request {
                method: "initialize"@,
                params: initialize_params_view(version@),
            },
        ]);
        let waiting: Vec<String> = Vec::new();
        assert(waiting.deep_view() =~= Seq::empty());
        (Session { request, message_id, phase: Phase::Starting, waiting }, actions)
    }

    /// Starts a turn whose assistant message has a new id.
    pub fn open(request: RunRequest, version: &str) -> (turn: (Session, Vec<Action>))
        ensures
            turn.0@.request == request.deep_view(),
            turn.0@.phase == Phase::Starting,
            turn.0@.waiting.len() == 0,
            new_id(turn.0@.message_id),
            turn.1.deep_view() == seq![
                ActionView::Request {
                    method: "initialize"@,
                    params: initialize_params_view(version@),
                },
            ],
    {
        Self::start(request, new_message_id(), version)
    }

    /// How far the turn has come.
    pub fn phase(&self) -> (phase: Phase)
        ensures
            phase == self@.phase,
    {
        self.phase
    }

    /// What to do next, now that this happened.
    pub fn step(&mut self, signal: Signal) -> (actions: Vec<Action>)
        ensures
            (final(self)@, actions.deep_view()) == transition(old(self)@, signal.deep_view()),
    {
        let ghost before = self@;
        match signal {
            Signal::Initialized => {
                if let Phase::Starting = self.phase {
                    return self.begin();
                }
            },
            Signal::InitializeFailed(error) => {
                if let Phase::Starting = self.phase {
                    self.phase = Phase::Finished;
                    return end_with_one(false, make_done(DoneStatus::Errored, Some(error), None));
                }
            },
            Signal::Interrupted => {
                let resume = copy_text(&self.request.resume);
                match self.phase {
                    Phase::Starting => {
                        self.phase = Phase::Finished;
                        return end_with_one(
                            false,
                            make_done(DoneStatus::Interrupted, None, resume),
                        );
                    },
                    Phase::Running => {
                        self.phase = Phase::Interrupting;
                        let mut actions: Vec<Action> = Vec::new();
                        if let Some(session_id) = resume {
                            actions.push(Action::RunStop { session_id });
                        }
                        actions.push(Action::AwaitGrace);
                        assert(actions.deep_view() =~= transition(
                            before,
                            SignalView::Interrupted,
                        ).1);
                        return actions;
                    },
                    _ => {},
                }
            },
            Signal::Steer(prompt) => {
                match self.phase {
                    Phase::Starting => {
                        let ghost waiting = self.waiting.deep_view();
                        let ghost prompt_view = prompt@;
                        self.waiting.push(prompt);
                        assert(self.waiting.deep_view() =~= waiting.push(prompt_view));
                    },
                    Phase::Running => {
                        let actions = vec![self.steer(prompt.as_str())];
                        assert(actions.deep_view() =~= transition(
                            before,
                            SignalView::Steer(prompt@),
                        ).1);
                        return actions;
                    },
                    _ => {},
                }
            },
            Signal::SteerEnded(outcome) => {
                return steer_ended(outcome);
            },
            Signal::Replied { response, decoded } => {
                match self.phase {
                    Phase::Running => {
                        self.phase = Phase::Finished;
                        return self.finish(&response, decoded);
                    },
                    Phase::Interrupting => {
                        return self.finish_interrupted();
                    },
                    _ => {},
                }
            },
            Signal::CallFailed(error) => {
                match self.phase {
                    Phase::Running => {
                        self.phase = Phase::Finished;
                        let resume = copy_text(&self.request.resume);
                        return end_with_one(
                            true,
                            make_done(DoneStatus::Errored, Some(error), resume),
                        );
                    },
                    Phase::Interrupting => {
                        return self.finish_interrupted();
                    },
                    _ => {},
                }
            },
            Signal::NoReply => {
                match self.phase {
                    Phase::Running => {
                        self.phase = Phase::Finished;
                        let resume = copy_text(&self.request.resume);
                        let error = "Aside MCP session ended without a result".to_owned();
                        return end_with_one(
                            true,
                            make_done(DoneStatus::Errored, Some(error), resume),
                        );
                    },
                    Phase::Interrupting => {
                        return self.finish_interrupted();
                    },
                    _ => {},
                }
            },
        }
        let actions: Vec<Action> = Vec::new();
        assert(actions.deep_view() =~= Seq::empty());
        actions
    }

    /// How the task starts, with the prompts that wait for it.
    fn begin(&mut self) -> (actions: Vec<Action>)
        requires
            old(self)@.phase == Phase::Starting,
        ensures
            (final(self)@, actions.deep_view()) == transition(
                old(self)@,
                SignalView::Initialized,
            ),
    {
        let ghost before = self@;
        let ghost resume = before.request.resume;
        let ghost prompts = before.waiting;
        let mut actions = vec![
            Action::Notify { method: "notifications/initialized".to_owned() },
            Action::Request {
                method: "tools/call".to_owned(),
                params: call_params(&self.request),
            },
        ];
        let ghost start = task_start(before.request);
        assert(actions.deep_view() =~= start + steerings(resume, prompts.take(0)));
        let mut i: usize = 0;
        while i < self.waiting.len()
            invariant
                i <= self.waiting@.len(),
                self@ == before,
                resume == before.request.resume,
                prompts == self.waiting.deep_view(),
                actions.deep_view() == start + steerings(resume, prompts.take(i as int)),
            decreases self.waiting@.len() - i,
        {
            let ghost made = actions.deep_view();
            actions.push(self.steer(self.waiting[i].as_str()));
            assert(actions.deep_view() =~= made.push(steering(resume, prompts[i as int])));
            assert(start + steerings(resume, prompts.take(i + 1)) =~= made.push(
                steering(resume, prompts[i as int]),
            ));
            i += 1;
        }
        assert(prompts.take(i as int) =~= prompts);
        self.phase = Phase::Running;
        self.waiting = Vec::new();
        assert(self.waiting.deep_view() =~= Seq::empty());
        actions
    }

    /// What a steering prompt leads to while the task runs.
    fn steer(&self, prompt: &str) -> (action: Action)
        ensures
            action.deep_view() == steering(self@.request.resume, prompt@),
    {
        match &self.request.resume {
            Some(session_id) => Action::RunSteer {
                session_id: session_id.clone(),
                prompt: prompt.to_owned(),
            },
            None => Action::Emit(
                AgentEvent::Error {
                    message: "Aside cannot steer a new MCP session until its session_id is known".to_owned(),
                },
            ),
        }
    }

    /// How an interrupted turn ends.
    fn finish_interrupted(&mut self) -> (actions: Vec<Action>)
        ensures
            final(self)@ == at(old(self)@, Phase::Finished),
            actions.deep_view() == closing(
                seq![done(DoneStatus::Interrupted, None, old(self)@.request.resume)],
            ),
    {
        self.phase = Phase::Finished;
        let resume = copy_text(&self.request.resume);
        end_with_one(true, make_done(DoneStatus::Interrupted, None, resume))
    }

    /// How a turn ends whose task answered.
    fn finish(&self, response: &Json, decoded: Vec<Option<AgentEvent>>) -> (actions: Vec<Action>)
        ensures
            actions.deep_view() == closing(
                reply_events(
                    self@.request,
                    self@.message_id,
                    reply_result(
                        self@.request,
                        self@.message_id,
                        response.deep_view(),
                        decoded.deep_view(),
                    ),
                ),
            ),
    {
        let fallback: Option<&str> = match &self.request.resume {
            Some(session_id) => Some(session_id.as_str()),
            None => None,
        };
        let result = map_completed_result(response, fallback, self.message_id.as_str(), decoded);
        let events = finished_events(&self.request, self.message_id.as_str(), result);
        let mut actions = vec![Action::Settle];
        assert(actions.deep_view() =~= seq![ActionView::Settle]);
        end_with(&mut actions, events);
        actions
    }
}

/// What the end of a steering command leads to. A command that exits unsuccessfully
/// leads to nothing.
fn steer_ended(outcome: SteerOutcome) -> (actions: Vec<Action>)
    ensures
        forall|session: SessionView|
            (session, actions.deep_view()) == #[trigger] transition(
                session,
                Signal::SteerEnded(outcome).deep_view(),
            ),
{
    match outcome {
        SteerOutcome::Exited { success } => if success {
            emit_one(
                AgentEvent::Steered {
                    assistant_message_id: None,
                    next_assistant_message_id: None,
                },
            )
        } else {
            let actions: Vec<Action> = Vec::new();
            assert(actions.deep_view() =~= Seq::empty());
            actions
        },
        SteerOutcome::Failed(error) => emit_one(AgentEvent::Error { message: error }),
    }
}

} // verus!
