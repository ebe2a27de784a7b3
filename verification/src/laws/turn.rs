//! What each thing that happens in a turn leads to.

use crate::completion::{mapped, reply_document, structured_part, MappedView};
use crate::json::{field, lookup, JsonView};
use crate::protocol::{DoneStatus, EventView, HarnessId, RequestView};
use crate::session::{
    call_params_view, has_start, initialize_params_view, new_id, reply_events, transition,
    uuid_text, ActionView, Phase, SessionView, SignalView,
};
use crate::turns::follow_up_names_the_session;
use vstd::prelude::*;

verus! {

/// A steering prompt reaches a running session that was resumed unchanged, character for
/// character. A new session is told that it cannot be steered yet. Before the task runs
/// the prompt waits, behind those that wait already; after an interrupt or the end of the
/// turn it leads to nothing.
pub proof fn steering_carries_the_prompt(session: SessionView, prompt: Seq<char>)
    ensures
        transition(session, SignalView::Steer(prompt)) == match (
            session.phase,
            session.request.resume,
        ) {
            (Phase::Running, Some(id)) => (
                session,
                seq![ActionView::RunSteer { session_id: id, prompt }],
            ),
            (Phase::Running, None) => (
                session,
                seq![
                    ActionView::Emit(
                        EventView::Error {
                            message:
                                "Aside cannot steer a new MCP session until its session_id is known"@,
                        },
                    ),
                ],
            ),
            (Phase::Starting, _) => (
                SessionView { waiting: session.waiting.push(prompt), ..session },
                Seq::empty(),
            ),
            _ => (session, Seq::empty()),
        },
{
}

/// Once the client has introduced itself, it is told so and asked for the task, and every
/// prompt that waits is handed on, unchanged and in order. Later it is nothing new.
pub proof fn introduction_starts_the_task(session: SessionView)
    ensures
        ({
            let (next, actions) = transition(session, SignalView::Initialized);
            if session.phase == Phase::Starting {
                &&& next == (SessionView {
                    phase: Phase::Running,
                    waiting: Seq::empty(),
                    ..session
                })
                &&& actions.len() == 2 + session.waiting.len()
                &&& actions[0] == ActionView::Notify { method: "notifications/initialized"@ }
                &&& actions[1] matches ActionView::Request { method, .. } && method
                    == "tools/call"@
                &&& actions[1]->Request_params == call_params_view(session.request)
                &&& forall|i: int|
                    0 <= i < session.waiting.len() ==> #[trigger] actions[2 + i] == match
                        session.request.resume {
                        Some(id) => ActionView::RunSteer {
                            session_id: id,
                            prompt: session.waiting[i],
                        },
                        None => ActionView::Emit(
                            EventView::Error {
                                message:
                                    "Aside cannot steer a new MCP session until its session_id is known"@,
                            },
                        ),
                    }
            } else {
                next == session && actions.len() == 0
            }
        }),
{
}

/// An interrupt ends a turn whose task does not run yet. A running task of a resumed
/// session is stopped by that session's id and given time to answer; one of a new session
/// is only given time. After that it is nothing new.
pub proof fn interrupt_stops_the_resumed_session(session: SessionView)
    ensures
        transition(session, SignalView::Interrupted) == match (
            session.phase,
            session.request.resume,
        ) {
            (Phase::Starting, resume) => (
                SessionView { phase: Phase::Finished, ..session },
                seq![
                    ActionView::Emit(
                        EventView::Done {
                            status: DoneStatus::Interrupted,
                            result: None,
                            error: None,
                            session_id: resume,
                        },
                    ),
                    ActionView::Shutdown,
                ],
            ),
            (Phase::Running, Some(id)) => (
                SessionView { phase: Phase::Interrupting, ..session },
                seq![ActionView::RunStop { session_id: id }, ActionView::AwaitGrace],
            ),
            (Phase::Running, None) => (
                SessionView { phase: Phase::Interrupting, ..session },
                seq![ActionView::AwaitGrace],
            ),
            _ => (session, Seq::empty()),
        },
{
    assert(transition(session, SignalView::Interrupted).1 =~= match (
        session.phase,
        session.request.resume,
    ) {
        (Phase::Starting, resume) => seq![
            ActionView::Emit(
                EventView::Done {
                    status: DoneStatus::Interrupted,
                    result: None,
                    error: None,
                    session_id: resume,
                },
            ),
            ActionView::Shutdown,
        ],
        (Phase::Running, Some(id)) => seq![
            ActionView::RunStop { session_id: id },
            ActionView::AwaitGrace,
        ],
        (Phase::Running, None) => seq![ActionView::AwaitGrace],
        _ => Seq::empty(),
    });
}

/// A client that cannot introduce itself ends the turn with its own words as the error.
pub proof fn failed_introduction_is_reported(session: SessionView, error: Seq<char>)
    ensures
        ({
            let (next, actions) = transition(session, SignalView::InitializeFailed(error));
            if session.phase == Phase::Starting {
                &&& next == (SessionView { phase: Phase::Finished, ..session })
                &&& actions == seq![
                    ActionView::Emit(
                        EventView::Done {
                            status: DoneStatus::Errored,
                            result: None,
                            error: Some(error),
                            session_id: None,
                        },
                    ),
                    ActionView::Shutdown,
                ]
            } else {
                next == session && actions.len() == 0
            }
        }),
{
    if session.phase == Phase::Starting {
        assert(transition(session, SignalView::InitializeFailed(error)).1 =~= seq![
            ActionView::Emit(
                EventView::Done {
                    status: DoneStatus::Errored,
                    result: None,
                    error: Some(error),
                    session_id: None,
                },
            ),
            ActionView::Shutdown,
        ]);
    }
}

/// The actions that end a turn with a task that gave no result.
pub open spec fn ends_with(
    status: DoneStatus,
    error: Option<Seq<char>>,
    session_id: Option<Seq<char>>,
) -> Seq<ActionView> {
    seq![
        ActionView::Settle,
        ActionView::Emit(EventView::Done { status, result: None, error, session_id }),
        ActionView::Shutdown,
    ]
}

/// A task that cannot be carried out ends the turn with the words it failed with and the
/// session that was resumed; one that was interrupted ends it as interrupted.
pub proof fn failed_task_is_reported(session: SessionView, error: Seq<char>)
    ensures
        ({
            let (next, actions) = transition(session, SignalView::CallFailed(error));
            let resume = session.request.resume;
            match session.phase {
                Phase::Running => {
                    &&& next == (SessionView { phase: Phase::Finished, ..session })
                    &&& actions == ends_with(DoneStatus::Errored, Some(error), resume)
                },
                Phase::Interrupting => {
                    &&& next == (SessionView { phase: Phase::Finished, ..session })
                    &&& actions == ends_with(DoneStatus::Interrupted, None, resume)
                },
                _ => next == session && actions.len() == 0,
            }
        }),
{
    let actions = transition(session, SignalView::CallFailed(error)).1;
    let resume = session.request.resume;
    if session.phase == Phase::Running {
        assert(actions =~= ends_with(DoneStatus::Errored, Some(error), resume));
    } else if session.phase == Phase::Interrupting {
        assert(actions =~= ends_with(DoneStatus::Interrupted, None, resume));
    }
}

/// The same for a task that will not answer any more, which says so.
pub proof fn lost_task_is_reported(session: SessionView)
    ensures
        ({
            let (next, actions) = transition(session, SignalView::NoReply);
            let resume = session.request.resume;
            match session.phase {
                Phase::Running => {
                    &&& next == (SessionView { phase: Phase::Finished, ..session })
                    &&& actions == ends_with(
                        DoneStatus::Errored,
                        Some("Aside MCP session ended without a result"@),
                        resume,
                    )
                },
                Phase::Interrupting => {
                    &&& next == (SessionView { phase: Phase::Finished, ..session })
                    &&& actions == ends_with(DoneStatus::Interrupted, None, resume)
                },
                _ => next == session && actions.len() == 0,
            }
        }),
{
    let actions = transition(session, SignalView::NoReply).1;
    let resume = session.request.resume;
    if session.phase == Phase::Running {
        assert(actions =~= ends_with(
            DoneStatus::Errored,
            Some("Aside MCP session ended without a result"@),
            resume,
        ));
    } else if session.phase == Phase::Interrupting {
        assert(actions =~= ends_with(DoneStatus::Interrupted, None, resume));
    }
}

/// A steering command that went well is told as such, one that could not be run is told in
/// its own words, and one that ended badly is not told. The turn goes on as it was.
pub proof fn steering_outcome_is_told(session: SessionView, success: bool, error: Seq<char>)
    ensures
        transition(session, SignalView::SteerExited(success)) == (
            session,
            if success {
                seq![
                    ActionView::Emit(
                        EventView::Steered {
                            assistant_message_id: None,
                            next_assistant_message_id: None,
                        },
                    ),
                ]
            } else {
                Seq::empty()
            },
        ),
        transition(session, SignalView::SteerFailed(error)) == (
            session,
            seq![ActionView::Emit(EventView::Error { message: error })],
        ),
{
    assert(transition(session, SignalView::SteerExited(true)).1 =~= seq![
        ActionView::Emit(
            EventView::Steered { assistant_message_id: None, next_assistant_message_id: None },
        ),
    ]);
    assert(transition(session, SignalView::SteerFailed(error)).1 =~= seq![
        ActionView::Emit(EventView::Error { message: error }),
    ]);
}

/// The events of a task whose session is known: the start of that session, with the
/// request's model and directory and the message's id, unless the task starts one itself;
/// then every event of the task, unchanged and in order; then the end of the turn, with
/// the task's own status, result, error and session.
pub proof fn answered_turn_tells_everything(
    request: RequestView,
    message_id: Seq<char>,
    task: MappedView,
    id: Seq<char>,
)
    requires
        task.session_id == Some(id),
    ensures
        ({
            let events = reply_events(request, message_id, task);
            let starts: int = if exists|i: int|
                0 <= i < task.events.len() && #[trigger] task.events[i] is SessionStarted {
                0
            } else {
                1
            };
            &&& events.len() == starts + task.events.len() + 1
            &&& starts == 1 ==> events[0] == EventView::SessionStarted {
                harness: HarnessId::Aside,
                model: if request.model is Some {
                    request.model->0
                } else {
                    "default"@
                },
                tools: Seq::empty(),
                cwd: request.cwd,
                session_id: id,
                assistant_message_id: message_id,
            }
            &&& forall|i: int|
                0 <= i < task.events.len() ==> events[starts + i] == #[trigger] task.events[i]
            &&& events[events.len() - 1] == EventView::Done {
                status: task.status,
                result: task.result,
                error: task.error,
                session_id: Some(id),
            }
        }),
{
    let events = reply_events(request, message_id, task);
    if has_start(task.events) {
        assert forall|i: int| 0 <= i < task.events.len() implies events[i]
            == #[trigger] task.events[i] by {}
    } else {
        assert forall|i: int| 0 <= i < task.events.len() implies events[1 + i]
            == #[trigger] task.events[i] by {}
    }
}

/// A task whose session is not known is one error, its own or else a fixed one.
pub proof fn turn_without_a_session_is_one_error(
    request: RequestView,
    message_id: Seq<char>,
    task: MappedView,
)
    requires
        task.session_id is None,
    ensures
        reply_events(request, message_id, task) == seq![
            EventView::Done {
                status: DoneStatus::Errored,
                result: None,
                error: Some(
                    if task.error is Some {
                        task.error->0
                    } else {
                        "Aside did not report the session of this turn"@
                    },
                ),
                session_id: None,
            },
        ],
{
}

/// The answer to a running task waits for the commands that still run, then tells the host
/// every event of what the reply is turned into, with the session that was resumed and the
/// id of the turn's message, and then shuts the client down. After an interrupt the answer
/// no longer matters.
pub proof fn answer_is_told_and_ends_the_turn(
    session: SessionView,
    response: JsonView,
    decoded: Seq<Option<EventView>>,
)
    ensures
        ({
            let (next, actions) = transition(session, SignalView::Replied { response, decoded });
            let task = mapped(
                structured_part(response, reply_document(response)),
                response,
                session.request.resume,
                session.message_id,
                decoded,
            );
            let events = reply_events(session.request, session.message_id, task);
            match session.phase {
                Phase::Running => {
                    &&& next == (SessionView { phase: Phase::Finished, ..session })
                    &&& actions.len() == events.len() + 2
                    &&& actions[0] == ActionView::Settle
                    &&& forall|i: int|
                        0 <= i < events.len() ==> actions[1 + i] == ActionView::Emit(
                            #[trigger] events[i],
                        )
                    &&& actions[actions.len() - 1] == ActionView::Shutdown
                },
                Phase::Interrupting => {
                    &&& next == (SessionView { phase: Phase::Finished, ..session })
                    &&& actions == ends_with(
                        DoneStatus::Interrupted,
                        None,
                        session.request.resume,
                    )
                },
                _ => next == session && actions.len() == 0,
            }
        }),
{
    let actions = transition(session, SignalView::Replied { response, decoded }).1;
    if session.phase == Phase::Interrupting {
        assert(actions =~= ends_with(DoneStatus::Interrupted, None, session.request.resume));
    }
}

/// The client is asked to introduce itself in one version of the protocol, to a host that
/// gives its name and its version as it is, and without capabilities; nothing else is said.
pub proof fn introduction_names_the_host(version: Seq<char>)
    ensures
        ({
            let params = initialize_params_view(version);
            let info = field(params, "clientInfo"@);
            &&& params matches JsonView::Object(entries) && entries.len() == 3
            &&& field(params, "protocolVersion"@) == Some(JsonView::Text("2025-03-26"@))
            &&& field(params, "capabilities"@) == Some(JsonView::Object(Seq::empty()))
            &&& info matches Some(JsonView::Object(entries)) && entries.len() == 3
            &&& field(info->0, "name"@) == Some(JsonView::Text("zeron-aside"@))
            &&& field(info->0, "title"@) == Some(JsonView::Text("Zeron"@))
            &&& field(info->0, "version"@) == Some(JsonView::Text(version))
        }),
{
    reveal_with_fuel(lookup, 4);
    reveal_strlit("capabilities");
    reveal_strlit("clientInfo");
    reveal_strlit("protocolVersion");
    reveal_strlit("name");
    reveal_strlit("title");
    reveal_strlit("version");
    assert("capabilities"@.len() == 12 && "clientInfo"@.len() == 10);
    assert("protocolVersion"@.len() == 15);
    assert("name"@.len() == 4 && "title"@.len() == 5 && "version"@.len() == 7);
    let outer = initialize_params_view(version)->Object_0;
    assert(outer[0].0 == "capabilities"@);
    assert(outer.drop_first()[0] == outer[1]);
    assert(outer.drop_first().drop_first()[0] == outer[2]);
    assert(field(initialize_params_view(version), "clientInfo"@) == Some(outer[1].1));
    let info = outer[1].1->Object_0;
    assert(info[0].0 == "name"@);
    assert(info.drop_first()[0] == info[1]);
    assert(info.drop_first().drop_first()[0] == info[2]);
}

/// The task is the tool `exec` with the whole prompt and, in a turn that goes on with a
/// session, that session's id; nothing else is said.
pub proof fn task_gets_the_whole_prompt(request: RequestView)
    ensures
        ({
            let params = call_params_view(request);
            let arguments = field(params, "arguments"@);
            &&& params matches JsonView::Object(entries) && entries.len() == 2
            &&& field(params, "name"@) == Some(JsonView::Text("exec"@))
            &&& arguments matches Some(JsonView::Object(entries)) && entries.len() == (
            if request.resume is Some {
                2int
            } else {
                1int
            })
            &&& field(arguments->0, "prompt"@) == Some(JsonView::Text(request.prompt))
            &&& field(arguments->0, "session_id"@) == match request.resume {
                Some(id) => Some(JsonView::Text(id)),
                None => None,
            }
        }),
{
    follow_up_names_the_session(request);
    reveal_with_fuel(lookup, 3);
    reveal_strlit("arguments");
    reveal_strlit("name");
    assert("arguments"@.len() == 9 && "name"@.len() == 4);
    let outer = call_params_view(request)->Object_0;
    assert(outer[0].0 == "arguments"@);
    assert(outer.drop_first()[0] == outer[1]);
}

/// A new message id is `aside-` and the usual text of a random identifier: 32 lower-case
/// hexadecimal digits in groups of 8, 4, 4, 4 and 12, with the version 4 and the variant in
/// their places.
pub proof fn new_message_ids_look_like_this(id: Seq<char>)
    requires
        new_id(id),
    ensures
        id.len() == 42,
        id[0] == 'a' && id[1] == 's' && id[2] == 'i' && id[3] == 'd' && id[4] == 'e' && id[5]
            == '-',
        forall|i: int|
            6 <= i < 42 ==> if i == 14 || i == 19 || i == 24 || i == 29 {
                #[trigger] id[i] == '-'
            } else {
                '0' <= id[i] <= '9' || 'a' <= id[i] <= 'f'
            },
        id[20] == '4',
        id[25] == '8' || id[25] == '9' || id[25] == 'a' || id[25] == 'b',
{
    reveal_strlit("aside-");
    let unique = choose|unique: Seq<char>| #[trigger]
        uuid_text(unique) && id == "aside-"@ + unique;
    assert forall|i: int| 6 <= i < 42 implies if i == 14 || i == 19 || i == 24 || i == 29 {
        #[trigger] id[i] == '-'
    } else {
        '0' <= id[i] <= '9' || 'a' <= id[i] <= 'f'
    } by {
        assert(id[i] == unique[i - 6]);
    }
    assert(id[20] == unique[14]);
    assert(id[25] == unique[19]);
}

} // verus!
