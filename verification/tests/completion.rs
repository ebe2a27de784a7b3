//! What the reply to a finished task says.

use aside::completion::{
    choose_structured, content_json, content_text, keep_events, map_completed_result,
    map_structured_result, pick_object, reply_event_values, MappedResult,
};
use aside::json::{parse_json, Json};
use aside::protocol::{AgentEvent, DoneStatus};

fn json(text: &str) -> Json {
    parse_json(text).expect("a JSON document")
}

fn map(text: &str, fallback: Option<&str>) -> MappedResult {
    map_completed_result(&json(text), fallback, "aside-test-message", vec![])
}

#[test]
fn maps_structured_completion_and_preserves_session_id() {
    let mapped = map(
        r#"{
            "structuredContent": {"session_id": "ses-1", "result": "finished"},
            "content": [{"type": "text", "text": "finished"}]
        }"#,
        None,
    );
    assert_eq!(mapped.session_id.as_deref(), Some("ses-1"));
    assert_eq!(mapped.status, DoneStatus::Completed);
    assert_eq!(mapped.result.as_deref(), Some("finished"));
    assert!(
        matches!(mapped.events.first(), Some(AgentEvent::TextDelta { text }) if text == "finished")
    );
}

#[test]
fn maps_json_encoded_completion_from_mcp_text_content() {
    let mapped = map(
        r#"{
            "content": [{
                "type": "text",
                "text": "{\"sessionId\":\"ses-json\",\"result\":\"json result\"}"
            }]
        }"#,
        None,
    );
    assert_eq!(mapped.session_id.as_deref(), Some("ses-json"));
    assert_eq!(mapped.result.as_deref(), Some("json result"));
}

#[test]
fn maps_mcp_tool_error() {
    let mapped = map(
        r#"{"isError": true, "content": [{"type": "text", "text": "not running"}]}"#,
        Some("ses-2"),
    );
    assert_eq!(mapped.status, DoneStatus::Errored);
    assert_eq!(mapped.session_id.as_deref(), Some("ses-2"));
    assert_eq!(mapped.error.as_deref(), Some("not running"));
}

#[test]
fn result_becomes_one_text_and_one_completed_message() {
    let mapped = map(r#"{"structuredContent": {"output": "done"}}"#, Some("ses"));
    assert_eq!(
        mapped,
        MappedResult {
            events: vec![
                AgentEvent::TextDelta { text: "done".to_owned() },
                AgentEvent::AssistantMessageCompleted {
                    assistant_message_id: "aside-test-message".to_owned(),
                },
            ],
            status: DoneStatus::Completed,
            result: Some("done".to_owned()),
            error: None,
            session_id: Some("ses".to_owned()),
        }
    );
}

#[test]
fn reply_without_a_result_completes_without_events() {
    let mapped = map("{}", None);
    assert_eq!(mapped.status, DoneStatus::Completed);
    assert!(mapped.events.is_empty());
    assert_eq!(mapped.result, None);
    assert_eq!(mapped.session_id, None);
}

#[test]
fn reported_failures_win_over_results() {
    for text in [
        r#"{"isError": true, "result": "r"}"#,
        r#"{"structuredContent": {"isError": true, "result": "r"}}"#,
        r#"{"structuredContent": {"result": "r", "error": "e"}}"#,
        r#"{"result": "r", "deep": [{"error": "e"}]}"#,
        r#"{"result": "r", "status": "error"}"#,
        r#"{"result": "r", "status": "errored"}"#,
        r#"{"result": "r", "status": "failed"}"#,
        r#"{"result": "r", "status": "failure"}"#,
    ] {
        let mapped = map(text, None);
        assert_eq!(mapped.status, DoneStatus::Errored, "{}", text);
        assert!(mapped.events.is_empty());
        assert_eq!(mapped.result, None);
    }
}

#[test]
fn what_is_no_failure_completes() {
    for text in [
        r#"{"isError": "true", "result": "r"}"#,
        r#"{"isError": false, "result": "r"}"#,
        r#"{"error": "", "result": "r"}"#,
        r#"{"error": {"code": 1}, "result": "r"}"#,
        r#"{"status": "Error", "result": "r"}"#,
        r#"{"message": "m", "result": "r"}"#,
    ] {
        assert_eq!(map(text, None).status, DoneStatus::Completed, "{}", text);
    }
}

#[test]
fn error_messages_come_from_the_error_then_the_result_then_a_default() {
    assert_eq!(
        map(r#"{"isError": true, "message": "m", "result": "r"}"#, None).error.as_deref(),
        Some("m")
    );
    assert_eq!(
        map(r#"{"isError": true, "result": "r"}"#, None).error.as_deref(),
        Some("r")
    );
    assert_eq!(
        map(r#"{"isError": true}"#, None).error.as_deref(),
        Some("Aside MCP execution failed")
    );
    // A message without any result is an error, too.
    let mapped = map(r#"{"message": "stopped"}"#, None);
    assert_eq!(mapped.status, DoneStatus::Errored);
    assert_eq!(mapped.error.as_deref(), Some("stopped"));
}

#[test]
fn structured_part_is_searched_before_the_reply() {
    let mapped = map(
        r#"{"answer": "outer", "session_id": "outer", "structuredContent":
            {"nested": {"text": "inner"}}}"#,
        None,
    );
    assert_eq!(mapped.result.as_deref(), Some("inner"));
    assert_eq!(mapped.session_id.as_deref(), Some("outer"));
}

#[test]
fn earlier_keys_win_within_one_object() {
    let mapped = map(
        r#"{"text": "t", "answer": "a", "output": "o", "sessionId": "s2", "session_id": "s1"}"#,
        None,
    );
    assert_eq!(mapped.result.as_deref(), Some("o"));
    assert_eq!(mapped.session_id.as_deref(), Some("s1"));
}

#[test]
fn content_texts_are_joined_by_line_feeds() {
    let reply = json(
        r#"{"content": [{"text": ""}, {"text": "a"}, {"type": "image"}, {"text": ""}, {"text": "b"}]}"#,
    );
    assert_eq!(content_text(&reply).as_deref(), Some("a\n\nb"));
    assert_eq!(content_text(&json(r#"{"content": [{"text": ""}]}"#)), None);
    assert_eq!(content_text(&json(r#"{"content": "a"}"#)), None);
}

#[test]
fn first_object_in_the_content_is_the_document() {
    let reply = json(
        r#"{"content": [{"text": "plain"}, {"text": "[1]"}, {"text": "{\"a\": 1}"}, {"text": "{}"}]}"#,
    );
    assert_eq!(content_json(&reply), Some(json(r#"{"a": 1}"#)));
    assert_eq!(content_json(&json(r#"{"content": [{"text": "1"}]}"#)), None);
    assert_eq!(pick_object(vec![None, Some(Json::Null), Some(json("{}"))]), Some(json("{}")));
}

#[test]
fn structured_part_falls_back_to_the_document_and_the_reply() {
    let structured = json(r#"{"structuredContent": {"x": 1}}"#);
    assert_eq!(choose_structured(&structured, Some(json(r#"{"y": 2}"#))), json(r#"{"x": 1}"#));
    let other = json(r#"{"structuredContent": [1]}"#);
    assert_eq!(choose_structured(&other, Some(json(r#"{"y": 2}"#))), json(r#"{"y": 2}"#));
    assert_eq!(choose_structured(&other, None), other);
}

#[test]
fn events_of_the_reply_replace_the_text_but_never_end_the_turn() {
    let reply = json(r#"{"structuredContent": {"result": "r", "events": [1, 2, 3]}}"#);
    assert_eq!(reply_event_values(&reply).len(), 3);
    assert!(reply_event_values(&json(r#"{"events": "none"}"#)).is_empty());
    let decoded = vec![
        Some(AgentEvent::Done {
            status: DoneStatus::Completed,
            result: None,
            error: None,
            session_id: None,
        }),
        None,
        Some(AgentEvent::TextDelta { text: "told".to_owned() }),
    ];
    let mapped = map_completed_result(&reply, None, "id", decoded);
    assert_eq!(mapped.events, vec![AgentEvent::TextDelta { text: "told".to_owned() }]);
    assert_eq!(mapped.result.as_deref(), Some("r"));
    assert!(keep_events(vec![None]).is_empty());
}

#[test]
fn events_of_a_failed_task_are_dropped() {
    let failed = json(r#"{"isError": true}"#);
    let decoded = vec![Some(AgentEvent::TextDelta { text: "told".to_owned() })];
    let mapped = map_structured_result(&failed, &failed, None, "id", decoded);
    assert!(mapped.events.is_empty());
}
