//! Turns, step by step.

use aside::json::{parse_json, Json};
use aside::protocol::{AgentEvent, DoneStatus, HarnessId, RunRequest};
use aside::session::{
    call_params, finished_events, initialize_params, message_id_of, new_message_id, Action, Phase,
    Session, Signal, SteerOutcome,
};
use aside::completion::MappedResult;

fn json(text: &str) -> Json {
    parse_json(text).expect("a JSON document")
}

fn request(resume: Option<&str>) -> RunRequest {
    RunRequest {
        prompt: "open the page".into(),
        model: Some("fast".into()),
        reasoning: None,
        model_options: vec![],
        cwd: "/work".into(),
        resume: resume.map(|id| id.into()),
    }
}

fn running(resume: Option<&str>) -> Session {
    let (mut session, _) = Session::start(request(resume), "aside-id".into(), "1.2.3");
    session.step(Signal::Initialized);
    assert_eq!(session.phase(), Phase::Running);
    session
}

fn reply(text: &str) -> Signal {
    Signal::Replied { response: json(text), decoded: vec![] }
}

fn done(status: DoneStatus, error: Option<&str>, session_id: Option<&str>) -> Action {
    Action::Emit(AgentEvent::Done {
        status,
        result: None,
        error: error.map(|text| text.into()),
        session_id: session_id.map(|text| text.into()),
    })
}

#[test]
fn turn_starts_with_an_introduction() {
    let (session, actions) = Session::start(request(None), "id".into(), "1.2.3");
    assert_eq!(session.phase(), Phase::Starting);
    assert_eq!(
        actions,
        vec![Action::Request {
            method: "initialize".into(),
            params: json(
                r#"{
                    "protocolVersion": "2025-03-26",
                    "capabilities": {},
                    "clientInfo": {"name": "zeron-aside", "title": "Zeron", "version": "1.2.3"}
                }"#
            ),
        }]
    );
    assert_eq!(initialize_params("9").get("protocolVersion").unwrap().as_text(), Some("2025-03-26"));
}

#[test]
fn introduction_is_followed_by_the_task() {
    let (mut session, _) = Session::start(request(Some("ses-happy")), "id".into(), "1");
    assert_eq!(
        session.step(Signal::Initialized),
        vec![
            Action::Notify { method: "notifications/initialized".into() },
            Action::Request {
                method: "tools/call".into(),
                params: json(
                    r#"{"name": "exec", "arguments":
                        {"prompt": "open the page", "session_id": "ses-happy"}}"#
                ),
            },
        ]
    );
    assert_eq!(
        call_params(&request(None)),
        json(r#"{"name": "exec", "arguments": {"prompt": "open the page"}}"#)
    );
}

#[test]
fn failed_introduction_ends_the_turn() {
    let (mut session, _) = Session::start(request(Some("ses")), "id".into(), "1");
    assert_eq!(
        session.step(Signal::InitializeFailed("closed".into())),
        vec![done(DoneStatus::Errored, Some("closed"), None), Action::Shutdown]
    );
    assert_eq!(session.phase(), Phase::Finished);
}

#[test]
fn interrupt_before_the_task_ends_the_turn() {
    let (mut session, _) = Session::start(request(Some("ses")), "id".into(), "1");
    assert_eq!(
        session.step(Signal::Interrupted),
        vec![done(DoneStatus::Interrupted, None, Some("ses")), Action::Shutdown]
    );
    assert!(session.step(Signal::Initialized).is_empty());
}

#[test]
fn answer_starts_the_session_tells_the_result_and_ends_the_turn() {
    let mut session = running(None);
    let actions = session.step(reply(
        r#"{"structuredContent": {"session_id": "ses-happy", "result": "finished"}}"#,
    ));
    assert_eq!(
        actions,
        vec![
            Action::Settle,
            Action::Emit(AgentEvent::SessionStarted {
                harness: HarnessId::Aside,
                model: "fast".into(),
                tools: vec![],
                cwd: "/work".into(),
                session_id: "ses-happy".into(),
                assistant_message_id: "aside-id".into(),
            }),
            Action::Emit(AgentEvent::TextDelta { text: "finished".into() }),
            Action::Emit(AgentEvent::AssistantMessageCompleted {
                assistant_message_id: "aside-id".into(),
            }),
            Action::Emit(AgentEvent::Done {
                status: DoneStatus::Completed,
                result: Some("finished".into()),
                error: None,
                session_id: Some("ses-happy".into()),
            }),
            Action::Shutdown,
        ]
    );
    assert_eq!(session.phase(), Phase::Finished);
    assert!(session.step(reply("{}")).is_empty());
    assert!(session.step(Signal::Interrupted).is_empty());
    assert!(session.step(Signal::Steer("more".into())).is_empty());
    assert!(session.step(Signal::NoReply).is_empty());
}

#[test]
fn failed_task_ends_with_its_error() {
    let actions = running(None).step(reply(
        r#"{"isError": true, "content": [{"type": "text", "text": "agent failed"}]}"#,
    ));
    assert_eq!(
        actions,
        vec![
            Action::Settle,
            done(DoneStatus::Errored, Some("agent failed"), None),
            Action::Shutdown,
        ]
    );
}

#[test]
fn turn_without_a_session_is_a_loud_error() {
    let mut session = running(None);
    assert_eq!(
        session.step(reply(r#"{"result": "hi"}"#)),
        vec![
            Action::Settle,
            done(
                DoneStatus::Errored,
                Some("Aside did not report the session of this turn"),
                None
            ),
            Action::Shutdown,
        ]
    );
    // A resumed turn knows its session, even if the reply names none.
    let actions = running(Some("ses")).step(reply(r#"{"result": "hi"}"#));
    assert!(matches!(
        &actions[actions.len() - 2],
        Action::Emit(AgentEvent::Done { status: DoneStatus::Completed, session_id: Some(id), .. })
            if id == "ses"
    ));
}

#[test]
fn resumed_session_is_replaced_by_the_one_in_the_answer() {
    let actions = running(Some("ses-happy")).step(reply(
        r#"{"structuredContent": {"sessionId": "ses-resumed", "result": "r"}}"#,
    ));
    assert!(matches!(
        &actions[actions.len() - 2],
        Action::Emit(AgentEvent::Done { session_id: Some(id), .. }) if id == "ses-resumed"
    ));
}

#[test]
fn start_that_the_task_reports_is_not_repeated() {
    let reported = AgentEvent::SessionStarted {
        harness: HarnessId::Aside,
        model: "m".into(),
        tools: vec!["t".into()],
        cwd: String::new(),
        session_id: "own".into(),
        assistant_message_id: "a".into(),
    };
    let events = finished_events(
        &request(None),
        "id",
        MappedResult {
            events: vec![AgentEvent::TextDelta { text: "x".into() }, reported],
            status: DoneStatus::Completed,
            result: None,
            error: None,
            session_id: Some("own".into()),
        },
    );
    assert_eq!(events.len(), 3);
    assert_eq!(events[0], AgentEvent::TextDelta { text: "x".into() });
}

#[test]
fn start_without_a_model_names_the_default_one() {
    let mut plain = request(None);
    plain.model = None;
    let events = finished_events(
        &plain,
        "id",
        MappedResult {
            events: vec![],
            status: DoneStatus::Completed,
            result: None,
            error: None,
            session_id: Some("ses".into()),
        },
    );
    assert_eq!(
        events[0],
        AgentEvent::SessionStarted {
            harness: HarnessId::Aside,
            model: "default".into(),
            tools: vec![],
            cwd: "/work".into(),
            session_id: "ses".into(),
            assistant_message_id: "id".into(),
        }
    );
}

#[test]
fn resumed_turns_are_steered_and_stopped() {
    let mut session = running(Some("ses-live"));
    assert_eq!(
        session.step(Signal::Steer("change direction".into())),
        vec![Action::RunSteer {
            session_id: "ses-live".into(),
            prompt: "change direction".into(),
        }]
    );
    assert_eq!(
        session.step(Signal::SteerEnded(SteerOutcome::Exited { success: true })),
        vec![Action::Emit(AgentEvent::Steered {
            assistant_message_id: None,
            next_assistant_message_id: None,
        })]
    );
    assert_eq!(
        session.step(Signal::Interrupted),
        vec![Action::RunStop { session_id: "ses-live".into() }, Action::AwaitGrace]
    );
    assert_eq!(session.phase(), Phase::Interrupting);
    assert!(session.step(Signal::Interrupted).is_empty());
    assert!(session.step(Signal::Steer("again".into())).is_empty());
    assert_eq!(
        session.step(Signal::NoReply),
        vec![
            Action::Settle,
            done(DoneStatus::Interrupted, None, Some("ses-live")),
            Action::Shutdown,
        ]
    );
}

#[test]
fn interrupted_turn_ends_interrupted_whatever_the_task_answers() {
    for signal in [
        reply(r#"{"result": "late", "session_id": "other"}"#),
        Signal::CallFailed("late".into()),
        Signal::NoReply,
    ] {
        let mut session = running(Some("ses"));
        session.step(Signal::Interrupted);
        assert_eq!(
            session.step(signal),
            vec![
                Action::Settle,
                done(DoneStatus::Interrupted, None, Some("ses")),
                Action::Shutdown,
            ]
        );
    }
}

#[test]
fn new_sessions_are_neither_steered_nor_stopped() {
    let mut session = running(None);
    assert_eq!(
        session.step(Signal::Steer("p".into())),
        vec![Action::Emit(AgentEvent::Error {
            message: "Aside cannot steer a new MCP session until its session_id is known".into(),
        })]
    );
    assert_eq!(session.step(Signal::Interrupted), vec![Action::AwaitGrace]);
}

#[test]
fn steering_commands_report_failures_but_not_bad_exits() {
    let mut session = running(Some("ses"));
    assert!(session.step(Signal::SteerEnded(SteerOutcome::Exited { success: false })).is_empty());
    assert_eq!(
        session.step(Signal::SteerEnded(SteerOutcome::Failed("no client".into()))),
        vec![Action::Emit(AgentEvent::Error { message: "no client".into() })]
    );
}

#[test]
fn lost_tasks_end_with_an_error() {
    assert_eq!(
        running(Some("ses")).step(Signal::CallFailed("pipe closed".into())),
        vec![
            Action::Settle,
            done(DoneStatus::Errored, Some("pipe closed"), Some("ses")),
            Action::Shutdown,
        ]
    );
    assert_eq!(
        running(None).step(Signal::NoReply),
        vec![
            Action::Settle,
            done(DoneStatus::Errored, Some("Aside MCP session ended without a result"), None),
            Action::Shutdown,
        ]
    );
}

#[test]
fn turn_is_done_once() {
    let mut session = running(Some("ses"));
    let signals = vec![
        Signal::Steer("a".into()),
        reply(r#"{"result": "r"}"#),
        Signal::SteerEnded(SteerOutcome::Exited { success: true }),
        Signal::Interrupted,
        reply(r#"{"result": "again"}"#),
        Signal::CallFailed("late".into()),
    ];
    let actions: Vec<Action> =
        signals.into_iter().flat_map(|signal| session.step(signal)).collect();
    let dones = actions
        .iter()
        .filter(|action| matches!(action, Action::Emit(AgentEvent::Done { .. })))
        .count();
    assert_eq!(dones, 1);
    assert_eq!(actions.iter().filter(|action| **action == Action::Shutdown).count(), 1);
}

#[test]
fn message_ids_are_prefixed_and_random() {
    assert_eq!(message_id_of("x"), "aside-x");
    let id = new_message_id();
    let unique = id.strip_prefix("aside-").unwrap();
    assert_eq!(unique.len(), 36);
    for (i, c) in unique.chars().enumerate() {
        match i {
            8 | 13 | 18 | 23 => assert_eq!(c, '-'),
            14 => assert_eq!(c, '4'),
            19 => assert!("89ab".contains(c)),
            _ => assert!(c.is_ascii_digit() || ('a'..='f').contains(&c)),
        }
    }
    assert_ne!(id, new_message_id());
    let (_, actions) = Session::open(request(None), "1");
    assert_eq!(actions.len(), 1);
}

#[test]
fn prompts_that_come_early_wait_for_the_task() {
    let (mut session, _) = Session::start(request(Some("ses-live")), "id".into(), "1");
    assert!(session.step(Signal::Steer("one".into())).is_empty());
    assert!(session.step(Signal::Steer("two".into())).is_empty());
    let actions = session.step(Signal::Initialized);
    assert_eq!(actions.len(), 4);
    assert!(matches!(&actions[0], Action::Notify { .. }));
    assert!(matches!(&actions[1], Action::Request { .. }));
    assert_eq!(
        actions[2],
        Action::RunSteer { session_id: "ses-live".into(), prompt: "one".into() }
    );
    assert_eq!(
        actions[3],
        Action::RunSteer { session_id: "ses-live".into(), prompt: "two".into() }
    );
    assert_eq!(session.phase(), Phase::Running);
}

#[test]
fn early_prompt_for_a_new_session_is_refused_when_the_task_runs() {
    let (mut session, _) = Session::start(request(None), "id".into(), "1");
    session.step(Signal::Steer("one".into()));
    let actions = session.step(Signal::Initialized);
    assert_eq!(
        actions[2],
        Action::Emit(AgentEvent::Error {
            message: "Aside cannot steer a new MCP session until its session_id is known".into(),
        })
    );
}

#[test]
fn early_prompts_are_dropped_with_a_turn_that_never_runs() {
    let (mut session, _) = Session::start(request(Some("ses")), "id".into(), "1");
    session.step(Signal::Steer("one".into()));
    assert_eq!(
        session.step(Signal::Interrupted),
        vec![done(DoneStatus::Interrupted, None, Some("ses")), Action::Shutdown]
    );
}
