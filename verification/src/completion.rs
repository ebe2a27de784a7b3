//! What the reply to a finished task says: which events it stands for, how the
//! turn ended, and which session it belongs to.

use crate::json::{
    all_nodes, any_text, array_field, field, find_string, first_named, found_text_is_not_empty,
    has_nonempty_key, items_view, json_document, json_view, lemma_items_view, nodes, parse_json,
    text_field, Json, JsonView,
};
use crate::protocol::{AgentEvent, DoneStatus, EventView};
use crate::text::same_text;
use vstd::prelude::*;
use vstd::string::StringExecFns;

verus! {

/// A finished task, in the host's terms.
#[derive(Debug, PartialEq, Eq)]
pub struct MappedResult {
    pub events: Vec<AgentEvent>,
    pub status: DoneStatus,
    pub result: Option<String>,
    pub error: Option<String>,
    pub session_id: Option<String>,
}

/// What a [`MappedResult`] stands for.
#[verifier::ext_equal]
pub struct MappedView {
    pub events: Seq<EventView>,
    pub status: DoneStatus,
    pub result: Option<Seq<char>>,
    pub error: Option<Seq<char>>,
    pub session_id: Option<Seq<char>>,
}

impl DeepView for MappedResult {
    type V = MappedView;

    open spec fn deep_view(&self) -> MappedView {
        MappedView {
            events: self.events.deep_view(),
            status: self.status,
            result: self.result.deep_view(),
            error: self.error.deep_view(),
            session_id: self.session_id.deep_view(),
        }
    }
}

/// The items of the reply's `content`.
pub open spec fn content_items(response: JsonView) -> Seq<JsonView> {
    array_field(response, "content"@)
}

/// The events of the reply's structured part, before they are decoded.
pub open spec fn event_values(structured: JsonView) -> Seq<JsonView> {
    array_field(structured, "events"@)
}

/// The texts of those items that have one, in order.
pub open spec fn item_texts(items: Seq<JsonView>) -> Seq<Seq<char>>
    decreases items.len(),
{
    if items.len() == 0 {
        Seq::empty()
    } else {
        let before = item_texts(items.drop_last());
        match text_field(items.last(), "text"@) {
            Some(text) => before.push(text),
            None => before,
        }
    }
}

/// The texts one after the other, with a line feed in front of each that has
/// something in front of it.
pub open spec fn joined_lines(texts: Seq<Seq<char>>) -> Seq<char>
    decreases texts.len(),
{
    if texts.len() == 0 {
        Seq::empty()
    } else {
        let before = joined_lines(texts.drop_last());
        if before.len() == 0 {
            texts.last()
        } else {
            before + "\n"@ + texts.last()
        }
    }
}

/// The reply's text: that of its content items, unless all of it is empty.
pub open spec fn reply_text(response: JsonView) -> Option<Seq<char>> {
    let text = joined_lines(item_texts(content_items(response)));
    if text.len() > 0 {
        Some(text)
    } else {
        None
    }
}

/// The first document that is an object.
pub open spec fn first_object(documents: Seq<Option<JsonView>>) -> Option<JsonView>
    decreases documents.len(),
{
    if documents.len() == 0 {
        None
    } else if documents[0] matches Some(JsonView::Object(_)) {
        documents[0]
    } else {
        first_object(documents.drop_first())
    }
}

/// The JSON document in the reply's content: the first object that one of its
/// texts reads as.
pub open spec fn reply_document(response: JsonView) -> Option<JsonView> {
    first_object(
        item_texts(content_items(response)).map_values(|text: Seq<char>| json_document(text)),
    )
}

/// The reply's structured part, given the document in its content: its
/// `structuredContent` if that is an object, else the document, else the reply.
pub open spec fn structured_part(response: JsonView, document: Option<JsonView>) -> JsonView {
    match field(response, "structuredContent"@) {
        Some(JsonView::Object(entries)) => JsonView::Object(entries),
        _ => match document {
            Some(document) => document,
            None => response,
        },
    }
}

/// The events that decoded, without those that say that the turn is done.
pub open spec fn kept_events(decoded: Seq<Option<EventView>>) -> Seq<EventView>
    decreases decoded.len(),
{
    if decoded.len() == 0 {
        Seq::empty()
    } else {
        let before = kept_events(decoded.drop_last());
        match decoded.last() {
            Some(event) if !(event is Done) => before.push(event),
            _ => before,
        }
    }
}

/// The first text under one of the keys in the structured part or, failing that,
/// in the reply.
pub open spec fn said(structured: JsonView, response: JsonView, keys: Seq<Seq<char>>) -> Option<
    Seq<char>,
> {
    first_named(all_nodes(seq![structured, response]), keys)
}

/// A status that stands for a failure.
pub open spec fn failure_status(status: Seq<char>) -> bool {
    status == "error"@ || status == "errored"@ || status == "failed"@ || status == "failure"@
}

/// The reply reports that the task failed.
pub open spec fn reports_failure(structured: JsonView, response: JsonView) -> bool {
    ||| field(response, "isError"@) == Some(JsonView::Bool(true))
    ||| field(structured, "isError"@) == Some(JsonView::Bool(true))
    ||| any_text(nodes(structured), "error"@)
    ||| any_text(nodes(response), "error"@)
    ||| said(structured, response, seq!["status"@]) matches Some(status) && failure_status(status)
}

/// The error message of the reply.
pub open spec fn error_said(structured: JsonView, response: JsonView) -> Option<Seq<char>> {
    said(structured, response, seq!["error"@, "message"@])
}

/// The result of the reply.
pub open spec fn result_said(structured: JsonView, response: JsonView) -> Option<Seq<char>> {
    let named = said(structured, response, seq!["result"@, "output"@, "answer"@, "text"@]);
    if named is Some {
        named
    } else {
        reply_text(response)
    }
}

/// The session of the reply, or the one that was resumed.
pub open spec fn session_said(
    structured: JsonView,
    response: JsonView,
    fallback: Option<Seq<char>>,
) -> Option<Seq<char>> {
    let named = said(structured, response, seq!["session_id"@, "sessionId"@]);
    if named is Some {
        named
    } else {
        fallback
    }
}

/// The turn failed: the reply says so, or has an error message and no result.
pub open spec fn turn_failed(structured: JsonView, response: JsonView) -> bool {
    reports_failure(structured, response) || (error_said(structured, response) is Some
        && result_said(structured, response) is None)
}

/// The events of a completed turn: those of the reply or, without any, its result
/// as one text.
pub open spec fn completed_events(
    result: Option<Seq<char>>,
    message_id: Seq<char>,
    decoded: Seq<Option<EventView>>,
) -> Seq<EventView> {
    let kept = kept_events(decoded);
    if kept.len() > 0 {
        kept
    } else {
        match result {
            Some(text) if text.len() > 0 => seq![
                EventView::TextDelta { text },
                EventView::AssistantMessageCompleted { assistant_message_id: message_id },
            ],
            _ => Seq::empty(),
        }
    }
}

/// The finished task that a reply stands for.
pub open spec fn mapped(
    structured: JsonView,
    response: JsonView,
    fallback: Option<Seq<char>>,
    message_id: Seq<char>,
    decoded: Seq<Option<EventView>>,
) -> MappedView {
    let session_id = session_said(structured, response, fallback);
    let error = error_said(structured, response);
    let result = result_said(structured, response);
    if turn_failed(structured, response) {
        MappedView {
            events: Seq::empty(),
            status: DoneStatus::Errored,
            result: None,
            error: if error is Some {
                error
            } else if result is Some {
                result
            } else {
                Some("Aside MCP execution failed"@)
            },
            session_id,
        }
    } else {
        MappedView {
            events: completed_events(result, message_id, decoded),
            status: DoneStatus::Completed,
            result,
            error: None,
            session_id,
        }
    }
}

/// The texts of the reply's content items, in order.
pub fn content_texts(response: &Json) -> (texts: Vec<String>)
    ensures
        texts.deep_view() == item_texts(content_items(response.deep_view())),
{
    let mut texts: Vec<String> = Vec::new();
    if let Some(Json::Array(items)) = response.get("content") {
        let ghost views = items_view(items@);
        proof {
            lemma_items_view(items@);
        }
        let mut i: usize = 0;
        while i < items.len()
            invariant
                i <= items@.len(),
                views.len() == items@.len(),
                forall|k: int| 0 <= k < views.len() ==> #[trigger] views[k] == json_view(items@[k]),
                texts.deep_view() == item_texts(views.take(i as int)),
            decreases items@.len() - i,
        {
            assert(views.take(i + 1).drop_last() =~= views.take(i as int));
            assert(views.take(i + 1).last() == json_view(items@[i as int]));
            if let Some(text) = items[i].get_text("text") {
                let ghost before = texts.deep_view();
                texts.push(text.to_owned());
                assert(texts.deep_view() =~= before.push(text@));
            }
            i += 1;
        }
        assert(views.take(i as int) =~= views);
    }
    texts
}

/// The reply's text.
pub fn content_text(response: &Json) -> (text: Option<String>)
    ensures
        text.deep_view() == reply_text(response.deep_view()),
{
    let texts = content_texts(response);
    let ghost views = texts.deep_view();
    let mut text = String::new();
    let mut i: usize = 0;
    while i < texts.len()
        invariant
            i <= texts@.len(),
            views == texts.deep_view(),
            text@ == joined_lines(views.take(i as int)),
        decreases texts@.len() - i,
    {
        assert(views.take(i + 1).drop_last() =~= views.take(i as int));
        if !text.as_str().is_empty() {
            text.append("\n");
        } else {
            assert(text@ + texts@[i as int]@ =~= texts@[i as int]@);
        }
        text.append(texts[i].as_str());
        i += 1;
    }
    assert(views.take(i as int) =~= views);
    if text.as_str().is_empty() {
        None
    } else {
        Some(text)
    }
}

/// The first document that is an object.
pub fn pick_object(documents: Vec<Option<Json>>) -> (picked: Option<Json>)
    ensures
        picked.deep_view() == first_object(documents.deep_view()),
{
    let ghost views = documents.deep_view();
    let mut i: usize = 0;
    assert(views.skip(0) =~= views);
    while i < documents.len()
        invariant
            i <= documents@.len(),
            views == documents.deep_view(),
            first_object(views) == first_object(views.skip(i as int)),
        decreases documents@.len() - i,
    {
        assert(views.skip(i as int)[0] == documents@[i as int].deep_view());
        assert(views.skip(i as int).drop_first() =~= views.skip(i + 1));
        match &documents[i] {
            Some(Json::Object(entries)) => {
                return Some(documents[i].as_ref().unwrap().clone());
            },
            _ => {},
        }
        i += 1;
    }
    None
}

/// The JSON document in the reply's content.
pub fn content_json(response: &Json) -> (document: Option<Json>)
    ensures
        document.deep_view() == reply_document(response.deep_view()),
{
    let texts = content_texts(response);
    let ghost views = texts.deep_view();
    let ghost read = |text: Seq<char>| json_document(text);
    let mut documents: Vec<Option<Json>> = Vec::new();
    let mut i: usize = 0;
    while i < texts.len()
        invariant
            i <= texts@.len(),
            views == texts.deep_view(),
            read == (|text: Seq<char>| json_document(text)),
            documents.deep_view() == views.take(i as int).map_values(read),
        decreases texts@.len() - i,
    {
        let ghost before = documents.deep_view();
        let document = parse_json(texts[i].as_str());
        documents.push(document);
        assert(documents.deep_view() =~= before.push(document.deep_view()));
        assert(views.take(i + 1).map_values(read) =~= before.push(read(views[i as int])));
        i += 1;
    }
    assert(views.take(i as int) =~= views);
    pick_object(documents)
}

/// The reply's structured part, given the document in its content.
pub fn choose_structured(response: &Json, document: Option<Json>) -> (structured: Json)
    ensures
        structured.deep_view() == structured_part(response.deep_view(), document.deep_view()),
{
    if let Some(inner) = response.get("structuredContent") {
        if let Json::Object(_) = inner {
            return inner.clone();
        }
    }
    match document {
        Some(document) => document,
        None => response.clone(),
    }
}

/// The reply's structured part.
pub fn structured_content(response: &Json) -> (structured: Json)
    ensures
        structured.deep_view() == structured_part(
            response.deep_view(),
            reply_document(response.deep_view()),
        ),
{
    let document = content_json(response);
    choose_structured(response, document)
}

/// The events of the reply, for the host to decode.
pub fn reply_event_values(response: &Json) -> (values: Vec<Json>)
    ensures
        values.deep_view() == event_values(
            structured_part(response.deep_view(), reply_document(response.deep_view())),
        ),
{
    let structured = structured_content(response);
    let mut values: Vec<Json> = Vec::new();
    if let Some(Json::Array(items)) = structured.get("events") {
        let ghost views = items_view(items@);
        proof {
            lemma_items_view(items@);
        }
        let mut i: usize = 0;
        while i < items.len()
            invariant
                i <= items@.len(),
                views.len() == items@.len(),
                forall|k: int| 0 <= k < views.len() ==> #[trigger] views[k] == json_view(items@[k]),
                values.deep_view() == views.take(i as int),
            decreases items@.len() - i,
        {
            let ghost before = values.deep_view();
            values.push(items[i].clone());
            assert(values.deep_view() =~= before.push(views[i as int]));
            assert(views.take(i + 1) =~= before.push(views[i as int]));
            i += 1;
        }
        assert(views.take(i as int) =~= views);
    }
    values
}

/// Drops the events that did not decode and those that say that the turn is done.
pub fn keep_events(decoded: Vec<Option<AgentEvent>>) -> (kept: Vec<AgentEvent>)
    ensures
        kept.deep_view() == kept_events(decoded.deep_view()),
{
    let mut kept: Vec<AgentEvent> = Vec::new();
    let ghost views = decoded.deep_view();
    for event in it: decoded.into_iter()
        invariant
            it.seq() == decoded@,
            views == decoded.deep_view(),
            kept.deep_view() == kept_events(views.take(it.index())),
    {
        let ghost i = it.index();
        assert(views.take(i + 1).drop_last() =~= views.take(i));
        assert(views.take(i + 1).last() == event.deep_view());
        let ghost before = kept.deep_view();
        match event {
            None => {},
            Some(AgentEvent::Done { .. }) => {},
            Some(event) => {
                kept.push(event);
                assert(kept.deep_view() =~= before.push(event.deep_view()));
            },
        }
    }
    assert(views.take(views.len() as int) =~= views);
    kept
}

/// The text under one of the keys in the structured part or, failing that, in the
/// reply.
fn find_said(structured: &Json, response: &Json, keys: &[&str]) -> (found: Option<String>)
    ensures
        found.deep_view() == said(
            structured.deep_view(),
            response.deep_view(),
            keys.deep_view(),
        ),
{
    let values: [&Json; 2] = [structured, response];
    assert(values.deep_view() =~= seq![structured.deep_view(), response.deep_view()]);
    find_string(&values, keys)
}

/// Tells whether a status stands for a failure.
fn is_failure_status(status: &str) -> (failure: bool)
    ensures
        failure == failure_status(status@),
{
    same_text(status, "error") || same_text(status, "errored") || same_text(status, "failed")
        || same_text(status, "failure")
}

/// The finished task that a reply stands for, given its structured part and its
/// events: one entry per event of the structured part, empty where an event did not
/// decode.
pub fn map_structured_result(
    structured: &Json,
    response: &Json,
    fallback_session_id: Option<&str>,
    assistant_message_id: &str,
    decoded: Vec<Option<AgentEvent>>,
) -> (result: MappedResult)
    ensures
        result.deep_view() == mapped(
            structured.deep_view(),
            response.deep_view(),
            fallback_session_id.deep_view(),
            assistant_message_id@,
            decoded.deep_view(),
        ),
{
    let ghost s = structured.deep_view();
    let ghost r = response.deep_view();
    let session_keys: [&str; 2] = ["session_id", "sessionId"];
    assert(session_keys.deep_view() =~= seq!["session_id"@, "sessionId"@]);
    let session_id = match find_said(structured, response, &session_keys) {
        Some(id) => Some(id),
        None => match fallback_session_id {
            Some(id) => Some(id.to_owned()),
            None => None,
        },
    };
    let status_keys: [&str; 1] = ["status"];
    assert(status_keys.deep_view() =~= seq!["status"@]);
    let failed_status = match find_said(structured, response, &status_keys) {
        Some(status) => is_failure_status(status.as_str()),
        None => false,
    };
    let tool_error = response.is_true("isError") || structured.is_true("isError")
        || has_nonempty_key(structured, "error") || has_nonempty_key(response, "error")
        || failed_status;
    let error_keys: [&str; 2] = ["error", "message"];
    assert(error_keys.deep_view() =~= seq!["error"@, "message"@]);
    let error = find_said(structured, response, &error_keys);
    let result_keys: [&str; 4] = ["result", "output", "answer", "text"];
    assert(result_keys.deep_view() =~= seq!["result"@, "output"@, "answer"@, "text"@]);
    let result_text = match find_said(structured, response, &result_keys) {
        Some(text) => Some(text),
        None => content_text(response),
    };
    if tool_error || (error.is_some() && result_text.is_none()) {
        let error = match error {
            Some(error) => error,
            None => match result_text {
                Some(text) => text,
                None => "Aside MCP execution failed".to_owned(),
            },
        };
        let result = MappedResult {
            events: Vec::new(),
            status: DoneStatus::Errored,
            result: None,
            error: Some(error),
            session_id,
        };
        assert(result.events.deep_view() =~= Seq::empty());
        return result;
    }
    let mut events = keep_events(decoded);
    if events.is_empty() {
        if let Some(text) = &result_text {
            if !text.as_str().is_empty() {
                events.push(AgentEvent::TextDelta { text: text.clone() });
                events.push(
                    AgentEvent::AssistantMessageCompleted {
                        assistant_message_id: assistant_message_id.to_owned(),
                    },
                );
            }
        }
    }
    assert(events.deep_view() =~= completed_events(
        result_said(s, r),
        assistant_message_id@,
        decoded.deep_view(),
    ));
    MappedResult {
        events,
        status: DoneStatus::Completed,
        result: result_text,
        error: None,
        session_id,
    }
}

/// The finished task that a reply stands for. `decoded` has one entry per event of
/// the reply's structured part, empty where an event did not decode.
pub fn map_completed_result(
    response: &Json,
    fallback_session_id: Option<&str>,
    assistant_message_id: &str,
    decoded: Vec<Option<AgentEvent>>,
) -> (result: MappedResult)
    ensures
        result.deep_view() == mapped(
            structured_part(response.deep_view(), reply_document(response.deep_view())),
            response.deep_view(),
            fallback_session_id.deep_view(),
            assistant_message_id@,
            decoded.deep_view(),
        ),
{
    let structured = structured_content(response);
    map_structured_result(
        &structured,
        response,
        fallback_session_id,
        assistant_message_id,
        decoded,
    )
}

/// A finished task never carries an event that says that the turn is done: the reply
/// itself is what ends the turn.
pub proof fn task_events_do_not_end_the_turn(
    structured: JsonView,
    response: JsonView,
    fallback: Option<Seq<char>>,
    message_id: Seq<char>,
    decoded: Seq<Option<EventView>>,
)
    ensures
        ({
            let events = mapped(structured, response, fallback, message_id, decoded).events;
            forall|i: int| 0 <= i < events.len() ==> !(#[trigger] events[i] is Done)
        }),
{
    lemma_kept_events(decoded);
}

proof fn lemma_kept_events(decoded: Seq<Option<EventView>>)
    ensures
        forall|i: int|
            0 <= i < kept_events(decoded).len() ==> !(#[trigger] kept_events(decoded)[i] is Done),
    decreases decoded.len(),
{
    if decoded.len() > 0 {
        lemma_kept_events(decoded.drop_last());
        let before = kept_events(decoded.drop_last());
        assert forall|i: int| 0 <= i < kept_events(decoded).len() implies !(#[trigger] kept_events(
            decoded,
        )[i] is Done) by {
            if i < before.len() {
                assert(kept_events(decoded)[i] == before[i]);
            }
        }
    }
}

/// A task either failed or completed. A failed one says why, in words that are not
/// empty, and has neither a result nor events; a completed one has no error.
pub proof fn failed_task_says_why(
    structured: JsonView,
    response: JsonView,
    fallback: Option<Seq<char>>,
    message_id: Seq<char>,
    decoded: Seq<Option<EventView>>,
)
    ensures
        ({
            let task = mapped(structured, response, fallback, message_id, decoded);
            if turn_failed(structured, response) {
                &&& task.status == DoneStatus::Errored
                &&& task.error matches Some(error) && error.len() > 0
                &&& task.result is None
                &&& task.events.len() == 0
            } else {
                &&& task.status == DoneStatus::Completed
                &&& task.error is None
            }
        }),
{
    found_text_is_not_empty(all_nodes(seq![structured, response]), seq!["error"@, "message"@]);
    lemma_result_not_empty(structured, response);
    reveal_strlit("Aside MCP execution failed");
}

/// The result of a reply, if there is one, is not empty.
proof fn lemma_result_not_empty(structured: JsonView, response: JsonView)
    ensures
        result_said(structured, response) matches Some(text) ==> text.len() > 0,
{
    found_text_is_not_empty(
        all_nodes(seq![structured, response]),
        seq!["result"@, "output"@, "answer"@, "text"@],
    );
}

/// The result of a completed task that reports no events of its own becomes one text
/// and the end of one message; without a result there are no events.
pub proof fn result_becomes_one_text(
    structured: JsonView,
    response: JsonView,
    fallback: Option<Seq<char>>,
    message_id: Seq<char>,
    decoded: Seq<Option<EventView>>,
)
    requires
        !turn_failed(structured, response),
        kept_events(decoded).len() == 0,
    ensures
        ({
            let task = mapped(structured, response, fallback, message_id, decoded);
            task.events == match task.result {
                Some(text) => seq![
                    EventView::TextDelta { text },
                    EventView::AssistantMessageCompleted { assistant_message_id: message_id },
                ],
                None => Seq::empty(),
            }
        }),
{
    lemma_result_not_empty(structured, response);
}

/// A failure that is reported is a failure, whatever result comes with it.
pub proof fn reported_failure_wins(
    structured: JsonView,
    response: JsonView,
    fallback: Option<Seq<char>>,
    message_id: Seq<char>,
    decoded: Seq<Option<EventView>>,
)
    requires
        reports_failure(structured, response),
    ensures
        mapped(structured, response, fallback, message_id, decoded).status == DoneStatus::Errored,
{
}

/// A turn keeps its session: the one that the reply names or, if it names none, the
/// one that was resumed; so a resumed turn never loses its session.
pub proof fn task_keeps_its_session(
    structured: JsonView,
    response: JsonView,
    fallback: Option<Seq<char>>,
    message_id: Seq<char>,
    decoded: Seq<Option<EventView>>,
)
    ensures
        ({
            let named = said(structured, response, seq!["session_id"@, "sessionId"@]);
            let kept = mapped(structured, response, fallback, message_id, decoded).session_id;
            &&& named is Some ==> kept == named
            &&& named is None ==> kept == fallback
            &&& fallback is Some ==> kept is Some
        }),
{
}

} // verus!
