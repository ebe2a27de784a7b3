//! What holds of every turn, whatever happens in it and in whatever order.

use crate::completion::{
    reply_document, structured_part, task_events_do_not_end_the_turn, MappedView,
};
use crate::json::{field, JsonView};
use crate::protocol::{DoneStatus, EventView, RequestView};
use crate::session::{
    call_params_view, closing, done, emits, ending, has_start, reply_events, reply_result,
    started, steering, steerings, task_arguments, task_start, transition, ActionView, Phase, SessionView, SignalView,
};
use vstd::prelude::*;

verus! {

/// Where a turn stands after these signals, and everything that was to be done.
pub open spec fn run(session: SessionView, signals: Seq<SignalView>) -> (
    SessionView,
    Seq<ActionView>,
)
    decreases signals.len(),
{
    if signals.len() == 0 {
        (session, Seq::empty())
    } else {
        let before = run(session, signals.drop_last());
        let last = transition(before.0, signals.last());
        (last.0, before.1 + last.1)
    }
}

/// How many of the actions are of a kind.
pub open spec fn count(actions: Seq<ActionView>, kind: spec_fn(ActionView) -> bool) -> nat
    decreases actions.len(),
{
    if actions.len() == 0 {
        0
    } else {
        count(actions.drop_last(), kind) + if kind(actions.last()) {
            1nat
        } else {
            0nat
        }
    }
}

/// The action tells the host that the turn is done.
pub open spec fn tells_done(action: ActionView) -> bool {
    action matches ActionView::Emit(event) && event is Done
}

/// How often the host is told that the turn is done.
pub open spec fn done_count(actions: Seq<ActionView>) -> nat {
    count(actions, |action: ActionView| tells_done(action))
}

/// How often the client is shut down.
pub open spec fn shutdown_count(actions: Seq<ActionView>) -> nat {
    count(actions, |action: ActionView| action is Shutdown)
}

/// How many requests are sent to the client.
pub open spec fn request_count(actions: Seq<ActionView>) -> nat {
    count(actions, |action: ActionView| action is Request)
}

proof fn lemma_count_concat(
    a: Seq<ActionView>,
    b: Seq<ActionView>,
    kind: spec_fn(ActionView) -> bool,
)
    ensures
        count(a + b, kind) == count(a, kind) + count(b, kind),
    decreases b.len(),
{
    if b.len() == 0 {
        assert(a + b =~= a);
    } else {
        assert((a + b).drop_last() =~= a + b.drop_last());
        lemma_count_concat(a, b.drop_last(), kind);
    }
}

proof fn lemma_count_none(actions: Seq<ActionView>, kind: spec_fn(ActionView) -> bool)
    requires
        forall|i: int| 0 <= i < actions.len() ==> !kind(#[trigger] actions[i]),
    ensures
        count(actions, kind) == 0,
    decreases actions.len(),
{
    if actions.len() > 0 {
        lemma_count_none(actions.drop_last(), kind);
    }
}

/// Actions that end a turn with events of which only the last says so do it once.
proof fn lemma_ending(events: Seq<EventView>, last: EventView)
    requires
        forall|i: int| 0 <= i < events.len() ==> !(#[trigger] events[i] is Done),
        last is Done,
    ensures
        done_count(ending(events.push(last))) == 1,
        shutdown_count(ending(events.push(last))) == 1,
        request_count(ending(events.push(last))) == 0,
        done_count(closing(events.push(last))) == 1,
        shutdown_count(closing(events.push(last))) == 1,
        request_count(closing(events.push(last))) == 0,
{
    let dones = |action: ActionView| tells_done(action);
    let shutdowns = |action: ActionView| action is Shutdown;
    let requests = |action: ActionView| action is Request;
    let all = ending(events.push(last));
    let told = emits(events.push(last));
    assert(all.drop_last() =~= told);
    assert(told.drop_last() =~= emits(events));
    lemma_count_none(emits(events), dones);
    assert(count(told, dones) == 1);
    lemma_count_none(told, shutdowns);
    lemma_count_none(all, requests);
    let settle = seq![ActionView::Settle];
    lemma_count_none(settle, dones);
    lemma_count_none(settle, shutdowns);
    lemma_count_none(settle, requests);
    lemma_count_concat(settle, all, dones);
    lemma_count_concat(settle, all, shutdowns);
    lemma_count_concat(settle, all, requests);
}

/// The same for a turn that ends with one event.
proof fn lemma_ending_one(last: EventView)
    requires
        last is Done,
    ensures
        done_count(ending(seq![last])) == 1,
        shutdown_count(ending(seq![last])) == 1,
        request_count(ending(seq![last])) == 0,
        done_count(closing(seq![last])) == 1,
        shutdown_count(closing(seq![last])) == 1,
        request_count(closing(seq![last])) == 0,
{
    lemma_ending(Seq::empty(), last);
    assert(Seq::<EventView>::empty().push(last) =~= seq![last]);
}

/// The end of a turn whose task answered says once that the turn is done.
proof fn lemma_reply_ending(request: RequestView, message_id: Seq<char>, result: MappedView)
    requires
        forall|i: int| 0 <= i < result.events.len() ==> !(#[trigger] result.events[i] is Done),
    ensures
        done_count(closing(reply_events(request, message_id, result))) == 1,
        shutdown_count(closing(reply_events(request, message_id, result))) == 1,
        request_count(closing(reply_events(request, message_id, result))) == 0,
{
    let all = reply_events(request, message_id, result);
    if result.session_id is None {
        assert(all =~= seq![all[0]]);
        lemma_ending_one(all[0]);
    } else {
        assert forall|i: int| 0 <= i < all.drop_last().len() implies !(
        #[trigger] all.drop_last()[i] is Done) by {
            if !has_start(result.events) && i > 0 {
                assert(all.drop_last()[i] == result.events[i - 1]);
            } else if has_start(result.events) {
                assert(all.drop_last()[i] == result.events[i]);
            }
        }
        lemma_ending(all.drop_last(), all.last());
        assert(all.drop_last().push(all.last()) =~= all);
    }
}

/// A step ends the turn, says so and shuts the client down together or not at all, and
/// only the step that starts the task sends a request.
proof fn lemma_step_counts(session: SessionView, signal: SignalView)
    ensures
        ({
            let (next, actions) = transition(session, signal);
            let ends: nat = if session.phase != Phase::Finished && next.phase == Phase::Finished {
                1
            } else {
                0
            };
            let starts: nat = if session.phase == Phase::Starting && next.phase == Phase::Running {
                1
            } else {
                0
            };
            &&& done_count(actions) == ends
            &&& shutdown_count(actions) == ends
            &&& request_count(actions) == starts
            &&& session.phase == Phase::Finished ==> next == session
            &&& session.phase != Phase::Starting ==> next.phase != Phase::Starting
        }),
{
    let (next, actions) = transition(session, signal);
    let dones = |action: ActionView| tells_done(action);
    let shutdowns = |action: ActionView| action is Shutdown;
    let requests = |action: ActionView| action is Request;
    let resume = session.request.resume;
    if session.phase != Phase::Finished && next.phase == Phase::Finished {
        match signal {
            SignalView::Replied { response, decoded } if session.phase == Phase::Running => {
                task_events_do_not_end_the_turn(
                    structured_part(response, reply_document(response)),
                    response,
                    resume,
                    session.message_id,
                    decoded,
                );
                lemma_reply_ending(
                    session.request,
                    session.message_id,
                    reply_result(session.request, session.message_id, response, decoded),
                );
            },
            SignalView::InitializeFailed(error) => {
                lemma_ending_one(done(DoneStatus::Errored, Some(error), None));
            },
            SignalView::CallFailed(error) if session.phase == Phase::Running => {
                lemma_ending_one(done(DoneStatus::Errored, Some(error), resume));
            },
            SignalView::NoReply if session.phase == Phase::Running => {
                lemma_ending_one(
                    done(
                        DoneStatus::Errored,
                        Some("Aside MCP session ended without a result"@),
                        resume,
                    ),
                );
            },
            _ => {
                lemma_ending_one(done(DoneStatus::Interrupted, None, resume));
            },
        }
    } else {
        lemma_count_none(actions, dones);
        lemma_count_none(actions, shutdowns);
        if session.phase == Phase::Starting && next.phase == Phase::Running {
            let start = task_start(session.request);
            let steered = steerings(resume, session.waiting);
            assert(start.drop_last() =~= seq![start[0]]);
            lemma_count_none(start.drop_last(), requests);
            lemma_count_none(steered, requests);
            lemma_count_concat(start, steered, requests);
        } else {
            lemma_count_none(actions, requests);
        }
    }
}

/// A turn ends at most once: whatever happens, the host is told once that the turn is
/// done, and the client is shut down once, exactly if the turn has come to its end.
pub proof fn turn_ends_once(session: SessionView, signals: Seq<SignalView>)
    requires
        session.phase != Phase::Finished,
    ensures
        ({
            let (last, actions) = run(session, signals);
            let ends: nat = if last.phase == Phase::Finished {
                1
            } else {
                0
            };
            done_count(actions) == ends && shutdown_count(actions) == ends
        }),
    decreases signals.len(),
{
    if signals.len() > 0 {
        turn_ends_once(session, signals.drop_last());
        let before = run(session, signals.drop_last());
        let last = transition(before.0, signals.last());
        lemma_step_counts(before.0, signals.last());
        lemma_count_concat(before.1, last.1, |action: ActionView| tells_done(action));
        lemma_count_concat(before.1, last.1, |action: ActionView| action is Shutdown);
    }
}

/// A turn runs one task at most: after its start it sends one more request, if any.
pub proof fn turn_runs_one_task(session: SessionView, signals: Seq<SignalView>)
    ensures
        request_count(run(session, signals).1) <= 1,
        session.phase != Phase::Starting || run(session, signals).0.phase == Phase::Starting
            ==> request_count(run(session, signals).1) == 0,
        session.phase != Phase::Starting ==> run(session, signals).0.phase != Phase::Starting,
    decreases signals.len(),
{
    if signals.len() > 0 {
        turn_runs_one_task(session, signals.drop_last());
        let before = run(session, signals.drop_last());
        let last = transition(before.0, signals.last());
        lemma_step_counts(before.0, signals.last());
        lemma_count_concat(before.1, last.1, |action: ActionView| action is Request);
    }
}

/// A finished turn stays finished. All that may still come is how steering commands
/// ended.
pub proof fn finished_turn_stays_finished(session: SessionView, signal: SignalView)
    requires
        session.phase == Phase::Finished,
    ensures
        ({
            let (next, actions) = transition(session, signal);
            &&& next == session
            &&& forall|i: int|
                0 <= i < actions.len() ==> match #[trigger] actions[i] {
                    ActionView::Emit(event) => event is Steered || event is Error,
                    _ => false,
                }
        }),
{
}

/// Whatever becomes of the task, it ends the turn: an answer, a failure, or no answer
/// at all.
pub proof fn task_outcome_ends_the_turn(session: SessionView, signal: SignalView)
    requires
        session.phase == Phase::Running || session.phase == Phase::Interrupting,
        signal is Replied || signal is CallFailed || signal is NoReply,
    ensures
        transition(session, signal).0.phase == Phase::Finished,
{
}

/// What a turn is about does not change: its request, and with it its session, and the
/// id of its message.
pub proof fn turn_keeps_its_request(session: SessionView, signals: Seq<SignalView>)
    ensures
        run(session, signals).0.request == session.request,
        run(session, signals).0.message_id == session.message_id,
    decreases signals.len(),
{
    if signals.len() > 0 {
        turn_keeps_its_request(session, signals.drop_last());
    }
}

/// The session that a command is about.
pub open spec fn commanded(action: ActionView) -> Option<Seq<char>> {
    match action {
        ActionView::RunSteer { session_id, .. } => Some(session_id),
        ActionView::RunStop { session_id } => Some(session_id),
        _ => None,
    }
}

/// Only the session that the turn goes on with is ever steered or stopped; a new
/// session, whose id is not known yet, never is.
pub proof fn commands_name_the_resumed_session(session: SessionView, signals: Seq<SignalView>)
    ensures
        forall|i: int|
            0 <= i < run(session, signals).1.len() ==> commanded(
                #[trigger] run(session, signals).1[i],
            ) is None || commanded(run(session, signals).1[i]) == session.request.resume,
    decreases signals.len(),
{
    if signals.len() > 0 {
        commands_name_the_resumed_session(session, signals.drop_last());
        turn_keeps_its_request(session, signals.drop_last());
        let before = run(session, signals.drop_last());
        let last = transition(before.0, signals.last());
        let all = run(session, signals).1;
        assert forall|i: int| 0 <= i < all.len() implies commanded(#[trigger] all[i]) is None
            || commanded(all[i]) == session.request.resume by {
            if i < before.1.len() {
                assert(all[i] == before.1[i]);
            } else {
                let action = last.1[i - before.1.len()];
                assert(all[i] == action);
                lemma_step_commands(before.0, signals.last(), i - before.1.len());
            }
        }
    }
}

proof fn lemma_step_commands(session: SessionView, signal: SignalView, i: int)
    requires
        0 <= i < transition(session, signal).1.len(),
    ensures
        commanded(transition(session, signal).1[i]) is None || commanded(
            transition(session, signal).1[i],
        ) == session.request.resume,
{
    match signal {
        SignalView::Replied { response, decoded } if session.phase == Phase::Running => {
            let events = reply_events(
                session.request,
                session.message_id,
                reply_result(session.request, session.message_id, response, decoded),
            );
            assert(transition(session, signal).1 == closing(events));
        },
        _ => {},
    }
}

/// No steering prompt is lost for coming early: prompts that come before the task runs
/// wait for it, and once it runs they lead, in order, to what they would have led to
/// then.
pub proof fn early_prompts_wait_for_the_task(session: SessionView, prompts: Seq<Seq<char>>)
    requires
        session.phase == Phase::Starting,
    ensures
        ({
            let signals = prompts.map_values(|prompt: Seq<char>| SignalView::Steer(prompt));
            let (waiting, actions) = run(session, signals);
            let (running, begun) = transition(waiting, SignalView::Initialized);
            let all = session.waiting + prompts;
            &&& actions.len() == 0
            &&& running.phase == Phase::Running
            &&& running.waiting.len() == 0
            &&& begun.len() == 2 + all.len()
            &&& begun.take(2) == task_start(session.request)
            &&& forall|i: int|
                0 <= i < all.len() ==> seq![begun[2 + i]] == transition(
                    running,
                    SignalView::Steer(#[trigger] all[i]),
                ).1
        }),
{
    let signals = prompts.map_values(|prompt: Seq<char>| SignalView::Steer(prompt));
    lemma_prompts_wait(session, prompts);
    let waiting = run(session, signals).0;
    let (running, begun) = transition(waiting, SignalView::Initialized);
    assert(begun.take(2) =~= task_start(session.request));
    let all = session.waiting + prompts;
    assert forall|i: int| 0 <= i < all.len() implies seq![begun[2 + i]] == transition(
        running,
        SignalView::Steer(#[trigger] all[i]),
    ).1 by {
        assert(begun[2 + i] == steering(session.request.resume, all[i]));
    }
}

proof fn lemma_prompts_wait(session: SessionView, prompts: Seq<Seq<char>>)
    requires
        session.phase == Phase::Starting,
    ensures
        run(session, prompts.map_values(|prompt: Seq<char>| SignalView::Steer(prompt))) == (
            (SessionView { waiting: session.waiting + prompts, ..session }),
            Seq::<ActionView>::empty(),
        ),
    decreases prompts.len(),
{
    let signals = prompts.map_values(|prompt: Seq<char>| SignalView::Steer(prompt));
    if prompts.len() == 0 {
        assert(session.waiting + prompts =~= session.waiting);
    } else {
        let rest = prompts.drop_last();
        lemma_prompts_wait(session, rest);
        assert(signals.drop_last() =~= rest.map_values(
            |prompt: Seq<char>| SignalView::Steer(prompt),
        ));
        assert((session.waiting + rest).push(prompts.last()) =~= session.waiting + prompts);
        assert(run(session, signals).1 =~= Seq::empty());
    }
}

/// A turn that is interrupted before its task has answered ends as interrupted, with
/// the session that it went on with, whatever the task still answers.
pub proof fn interrupted_turn_ends_interrupted(session: SessionView, signals: Seq<SignalView>)
    requires
        session.phase == Phase::Starting || session.phase == Phase::Running,
    ensures
        ({
            let first = transition(session, SignalView::Interrupted);
            let (last, actions) = run(first.0, signals);
            let all = first.1 + actions;
            forall|i: int|
                0 <= i < all.len() && tells_done(#[trigger] all[i]) ==> all[i] == ActionView::Emit(
                    done(DoneStatus::Interrupted, None, session.request.resume),
                )
        }),
{
    let first = transition(session, SignalView::Interrupted);
    lemma_interrupted_run(first.0, signals);
    turn_keeps_its_request(first.0, signals);
    let actions = run(first.0, signals).1;
    let all = first.1 + actions;
    assert forall|i: int| 0 <= i < all.len() && tells_done(#[trigger] all[i]) implies all[i]
        == ActionView::Emit(done(DoneStatus::Interrupted, None, session.request.resume)) by {
        if i >= first.1.len() {
            assert(all[i] == actions[i - first.1.len()]);
        }
    }
}

proof fn lemma_interrupted_run(session: SessionView, signals: Seq<SignalView>)
    requires
        session.phase == Phase::Interrupting || session.phase == Phase::Finished,
    ensures
        ({
            let (last, actions) = run(session, signals);
            &&& last.phase == Phase::Interrupting || last.phase == Phase::Finished
            &&& forall|i: int|
                0 <= i < actions.len() && tells_done(#[trigger] actions[i]) ==> actions[i]
                    == ActionView::Emit(
                    done(DoneStatus::Interrupted, None, session.request.resume),
                )
        }),
    decreases signals.len(),
{
    if signals.len() > 0 {
        lemma_interrupted_run(session, signals.drop_last());
        turn_keeps_its_request(session, signals.drop_last());
        let before = run(session, signals.drop_last());
        let last = transition(before.0, signals.last());
        let all = run(session, signals).1;
        assert forall|i: int| 0 <= i < all.len() && tells_done(#[trigger] all[i]) implies all[i]
            == ActionView::Emit(done(DoneStatus::Interrupted, None, session.request.resume)) by {
            if i < before.1.len() {
                assert(all[i] == before.1[i]);
            } else {
                assert(all[i] == last.1[i - before.1.len()]);
            }
        }
    }
}

/// The session's id is in the event that starts it and in the event that ends the
/// turn, and the start comes first, unless the task reports the start itself.
pub proof fn start_and_end_name_the_session(
    request: RequestView,
    message_id: Seq<char>,
    result: MappedView,
)
    requires
        result.session_id is Some,
    ensures
        ({
            let events = reply_events(request, message_id, result);
            &&& events.len() > 0
            &&& events.last() == EventView::Done {
                status: result.status,
                result: result.result,
                error: result.error,
                session_id: result.session_id,
            }
            &&& !has_start(result.events) ==> {
                &&& events[0] == started(request, message_id, result.session_id->0)
                &&& events.subrange(1, events.len() - 1) == result.events
            }
            &&& has_start(result.events) ==> events.drop_last() == result.events
        }),
{
    let events = reply_events(request, message_id, result);
    if has_start(result.events) {
        assert(events.drop_last() =~= result.events);
    } else {
        assert(events.subrange(1, events.len() - 1) =~= result.events);
    }
}

/// A task whose session is not known is never passed off as a new session: nothing is
/// started, and the turn ends in an error that says why.
pub proof fn unknown_session_is_an_error(
    request: RequestView,
    message_id: Seq<char>,
    result: MappedView,
)
    requires
        result.session_id is None,
    ensures
        ({
            let events = reply_events(request, message_id, result);
            &&& !has_start(events)
            &&& events.len() == 1
            &&& events[0] matches EventView::Done { status, error: Some(_), .. } && status
                == DoneStatus::Errored
            &&& result.error matches Some(_) ==> events[0] == done(
                DoneStatus::Errored,
                result.error,
                None,
            )
        }),
{
}

/// The action does not say that a turn completed without naming its session.
pub open spec fn names_completed_session(action: ActionView) -> bool {
    action matches ActionView::Emit(EventView::Done { status, session_id, .. }) ==> status
        == DoneStatus::Completed ==> session_id is Some
}

/// A turn that completes names its session, whatever happens and in whatever order.
pub proof fn completed_turn_names_its_session(session: SessionView, signals: Seq<SignalView>)
    ensures
        forall|i: int|
            0 <= i < run(session, signals).1.len() ==> names_completed_session(
                #[trigger] run(session, signals).1[i],
            ),
    decreases signals.len(),
{
    if signals.len() > 0 {
        completed_turn_names_its_session(session, signals.drop_last());
        let before = run(session, signals.drop_last());
        let last = transition(before.0, signals.last());
        let all = run(session, signals).1;
        assert forall|i: int| 0 <= i < all.len() implies names_completed_session(
            #[trigger] all[i],
        ) by {
            if i < before.1.len() {
                assert(all[i] == before.1[i]);
            } else {
                assert(all[i] == last.1[i - before.1.len()]);
                lemma_step_names_session(before.0, signals.last(), i - before.1.len());
            }
        }
    }
}

proof fn lemma_step_names_session(session: SessionView, signal: SignalView, i: int)
    requires
        0 <= i < transition(session, signal).1.len(),
    ensures
        names_completed_session(transition(session, signal).1[i]),
{
    match signal {
        SignalView::Replied { response, decoded } if session.phase == Phase::Running => {
            let result = reply_result(session.request, session.message_id, response, decoded);
            let events = reply_events(session.request, session.message_id, result);
            task_events_do_not_end_the_turn(
                structured_part(response, reply_document(response)),
                response,
                session.request.resume,
                session.message_id,
                decoded,
            );
            assert(transition(session, signal).1 == closing(events));
            if result.session_id is Some && 0 < i <= events.len() {
                start_and_end_name_the_session(session.request, session.message_id, result);
                assert(closing(events)[i] == ActionView::Emit(events[i - 1]));
                if i < events.len() {
                    if has_start(result.events) {
                        assert(events.drop_last()[i - 1] == result.events[i - 1]);
                    } else if i > 1 {
                        assert(events.subrange(1, events.len() - 1)[i - 2] == result.events[i - 2]);
                    }
                }
            }
        },
        _ => {},
    }
}

/// A follow-up turn hands the session back to the task: the arguments name the session
/// to go on with exactly if there is one, and the prompt always.
pub proof fn follow_up_names_the_session(request: RequestView)
    ensures
        ({
            let arguments = field(call_params_view(request), "arguments"@);
            &&& arguments is Some
            &&& field(arguments->0, "prompt"@) == Some(JsonView::Text(request.prompt))
            &&& field(arguments->0, "session_id"@) == match request.resume {
                Some(session_id) => Some(JsonView::Text(session_id)),
                None => None,
            }
        }),
{
    let arguments = task_arguments(request);
    reveal_with_fuel(crate::json::lookup, 3);
    reveal_strlit("prompt");
    reveal_strlit("session_id");
    assert("prompt"@.len() != "session_id"@.len());
    assert(call_params_view(request)->Object_0[0].0 == "arguments"@);
    if request.resume is Some {
        assert(arguments.drop_first()[0] == arguments[1]);
    } else {
        assert(arguments.drop_first() =~= Seq::empty());
    }
}

} // verus!
