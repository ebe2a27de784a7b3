//! What the reply to a finished task is turned into.

use crate::completion::{
    content_items, event_values, first_object, item_texts, joined_lines, kept_events, mapped,
    reply_document, reply_text, structured_part,
};
use crate::json::{
    all_nodes, any_text, field, first_named, found_text_is_not_empty, has_text, json_document,
    nodes, JsonView,
};
use crate::laws::search::{
    first_entry, holds_some, lemma_node_of_one, lookup_gives_the_first_entry,
    search_fails_only_where_nothing_is, search_goes_all_the_way_down,
};
use crate::protocol::{DoneStatus, EventView};
use vstd::prelude::*;

verus! {

/// The structured part of a reply is its `structuredContent`, whole, if that is an object;
/// else the document in its content, if there is one; else the reply itself.
pub proof fn structured_part_is_taken_whole(response: JsonView, document: Option<JsonView>)
    ensures
        structured_part(response, document) == match (
            field(response, "structuredContent"@),
            document,
        ) {
            (Some(inner), _) if inner is Object => inner,
            (_, Some(document)) => document,
            (_, None) => response,
        },
{
}

/// The item holds a text that reads as an object.
pub open spec fn reads_as_object(item: JsonView) -> bool {
    field(item, "text"@) matches Some(JsonView::Text(text)) && json_document(text) matches Some(
        document,
    ) && document is Object
}

/// The item is the first whose text reads as an object, and it reads as this one.
pub open spec fn first_document(items: Seq<JsonView>, i: int, document: JsonView) -> bool {
    &&& 0 <= i < items.len()
    &&& reads_as_object(items[i])
    &&& field(items[i], "text"@) matches Some(JsonView::Text(text)) && json_document(text) == Some(
        document,
    )
    &&& forall|k: int| 0 <= k < i ==> !reads_as_object(#[trigger] items[k])
}

/// The document in a reply's content is the first object that one of its texts reads as;
/// there is none exactly if no text reads as an object.
pub proof fn first_object_in_the_content_counts(response: JsonView, items: Seq<JsonView>)
    requires
        field(response, "content"@) == Some(JsonView::Array(items)),
    ensures
        match reply_document(response) {
            Some(document) => exists|i: int| #[trigger] first_document(items, i, document),
            None => forall|i: int| 0 <= i < items.len() ==> !reads_as_object(#[trigger] items[i]),
        },
{
    assert(content_items(response) == items);
    lemma_first_document(items);
}

/// The first object among the documents of items' texts.
spec fn document_of(items: Seq<JsonView>) -> Option<JsonView> {
    first_object(item_texts(items).map_values(|text: Seq<char>| json_document(text)))
}

proof fn lemma_first_document(items: Seq<JsonView>)
    ensures
        match document_of(items) {
            Some(document) => exists|i: int| #[trigger] first_document(items, i, document),
            None => forall|i: int| 0 <= i < items.len() ==> !reads_as_object(#[trigger] items[i]),
        },
    decreases items.len(),
{
    let read = |text: Seq<char>| json_document(text);
    if items.len() == 0 {
        assert(item_texts(items).map_values(read) =~= Seq::empty());
    } else {
        let rest = items.drop_last();
        let last = items.last();
        lemma_first_document(rest);
        let before = item_texts(rest).map_values(read);
        match field(last, "text"@) {
            Some(JsonView::Text(text)) => {
                assert(item_texts(items) == item_texts(rest).push(text));
                assert(item_texts(items).map_values(read) =~= before + seq![json_document(text)]);
                lemma_first_object_concat(before, json_document(text));
            },
            _ => {
                assert(item_texts(items) == item_texts(rest));
            },
        }
        if document_of(rest) is Some {
            let document = document_of(rest)->0;
            let i = choose|i: int| #[trigger] first_document(rest, i, document);
            assert forall|k: int| 0 <= k < i implies !reads_as_object(#[trigger] items[k]) by {
                assert(items[k] == rest[k]);
            }
            assert(first_document(items, i, document));
        } else {
            assert forall|k: int| 0 <= k < rest.len() implies !reads_as_object(
                #[trigger] items[k],
            ) by {
                assert(items[k] == rest[k]);
            }
            if reads_as_object(last) {
                assert(first_document(items, items.len() - 1, document_of(items)->0));
            }
        }
    }
}

proof fn lemma_first_object_concat(documents: Seq<Option<JsonView>>, last: Option<JsonView>)
    ensures
        first_object(documents + seq![last]) == (if first_object(documents) is Some {
            first_object(documents)
        } else if last matches Some(JsonView::Object(_)) {
            last
        } else {
            None
        }),
    decreases documents.len(),
{
    let all = documents + seq![last];
    if documents.len() == 0 {
        assert(all.drop_first() =~= Seq::empty());
        assert(first_object(all.drop_first()) is None);
    } else {
        assert(all.drop_first() =~= documents.drop_first() + seq![last]);
        lemma_first_object_concat(documents.drop_first(), last);
    }
}

/// The document at this position is an object.
pub open spec fn object_at(documents: Seq<Option<JsonView>>, i: int) -> bool {
    0 <= i < documents.len() && documents[i] is Some && documents[i]->0 is Object
}

/// Of several documents the first that is an object is picked, whole; none is picked
/// exactly if none is an object.
pub proof fn first_object_is_picked(documents: Seq<Option<JsonView>>, i: int)
    ensures
        object_at(documents, i) ==> first_object(documents) is Some,
        object_at(documents, i) && (forall|k: int|
            0 <= k < i ==> !#[trigger] object_at(documents, k)) ==> first_object(documents)
            == documents[i],
        (forall|k: int| !#[trigger] object_at(documents, k)) ==> first_object(documents) is None,
    decreases documents.len(),
{
    if documents.len() > 0 {
        let rest = documents.drop_first();
        assert(object_at(documents, 0) == (documents[0] matches Some(JsonView::Object(_))));
        assert forall|k: int| #[trigger] object_at(rest, k) implies object_at(
            documents,
            k + 1,
        ) by {
            assert(documents[k + 1] == rest[k]);
        }
        if 0 < i < documents.len() {
            assert(documents[i] == rest[i - 1]);
        }
        first_object_is_picked(rest, i - 1);
    }
}

/// The texts of content items are those that stand under `text`, whole and in order.
pub proof fn every_content_text_is_read(a: Seq<JsonView>, b: Seq<JsonView>, item: JsonView)
    ensures
        item_texts(a + b) == item_texts(a) + item_texts(b),
        item_texts(seq![item]) == match field(item, "text"@) {
            Some(JsonView::Text(text)) => seq![text],
            _ => Seq::empty(),
        },
        item_texts(Seq::empty()).len() == 0,
    decreases b.len(),
{
    assert(seq![item].drop_last() =~= Seq::empty());
    assert(item_texts(seq![item].drop_last()) =~= Seq::empty());
    if let Some(JsonView::Text(text)) = field(item, "text"@) {
        assert(item_texts(seq![item]) =~= seq![text]);
    }
    if b.len() == 0 {
        assert(a + b =~= a);
        assert(item_texts(a) + item_texts(b) =~= item_texts(a));
    } else {
        assert((a + b).drop_last() =~= a + b.drop_last());
        every_content_text_is_read(a, b.drop_last(), item);
        assert(item_texts(a + b) =~= item_texts(a) + item_texts(b));
    }
}

/// The content of a reply is the list under `content`, all of it.
pub proof fn content_is_the_whole_list(response: JsonView)
    ensures
        content_items(response) == match field(response, "content"@) {
            Some(JsonView::Array(items)) => items,
            _ => Seq::empty(),
        },
{
}

/// A reply without a list of content has neither a document nor a text in it.
pub proof fn no_content_says_nothing(response: JsonView)
    requires
        !(field(response, "content"@) matches Some(content) && content is Array),
    ensures
        reply_document(response) is None,
        reply_text(response) is None,
{
    let read = |text: Seq<char>| json_document(text);
    assert(item_texts(content_items(response)) =~= Seq::empty());
    assert(item_texts(content_items(response)).map_values(read) =~= Seq::empty());
}

/// The text of a reply, empty if there is none.
pub open spec fn text_or_empty(response: JsonView) -> Seq<char> {
    match reply_text(response) {
        Some(text) => text,
        None => Seq::empty(),
    }
}

/// The text of a reply is that of its content items, whole and in order: one more item
/// with a text adds that text, on a line of its own if there is text before it, and an
/// item without one adds nothing.
pub proof fn each_content_text_is_added(
    shorter: JsonView,
    longer: JsonView,
    items: Seq<JsonView>,
    item: JsonView,
)
    requires
        field(shorter, "content"@) == Some(JsonView::Array(items)),
        field(longer, "content"@) == Some(JsonView::Array(items.push(item))),
    ensures
        text_or_empty(longer) == match field(item, "text"@) {
            Some(JsonView::Text(text)) => if text_or_empty(shorter).len() == 0 {
                text
            } else {
                text_or_empty(shorter) + seq!['\n'] + text
            },
            _ => text_or_empty(shorter),
        },
        reply_text(longer) matches Some(text) ==> text.len() > 0,
        items.len() == 0 ==> reply_text(shorter) is None,
{
    reveal_strlit("\n");
    assert("\n"@ =~= seq!['\n']);
    assert(items.push(item).drop_last() =~= items);
    let texts = item_texts(items);
    if let Some(JsonView::Text(text)) = field(item, "text"@) {
        assert(item_texts(items.push(item)) == texts.push(text));
        assert(texts.push(text).drop_last() =~= texts);
    }
    assert(joined_lines(texts).len() == 0 ==> joined_lines(texts) =~= Seq::empty());
    assert(joined_lines(item_texts(items.push(item))).len() == 0 ==> joined_lines(
        item_texts(items.push(item)),
    ) =~= Seq::empty());
}

/// What the structured part and then the reply say under one of the keys.
pub open spec fn found(
    structured: JsonView,
    response: JsonView,
    keys: Seq<Seq<char>>,
) -> Option<Seq<char>> {
    first_named(all_nodes(seq![structured, response]), keys)
}

/// A task failed exactly if the reply or its structured part says so, by a flag, by an
/// error that is not empty anywhere in it or by its status, or if there is a message and
/// nothing that could be a result.
pub proof fn task_fails_exactly_if_the_reply_says_so(
    structured: JsonView,
    response: JsonView,
    fallback: Option<Seq<char>>,
    message_id: Seq<char>,
    decoded: Seq<Option<EventView>>,
)
    ensures
        ({
            let task = mapped(structured, response, fallback, message_id, decoded);
            let status = found(structured, response, seq!["status"@]);
            let error = found(structured, response, seq!["error"@, "message"@]);
            let result = found(
                structured,
                response,
                seq!["result"@, "output"@, "answer"@, "text"@],
            );
            let failed = {
                ||| field(response, "isError"@) == Some(JsonView::Bool(true))
                ||| field(structured, "isError"@) == Some(JsonView::Bool(true))
                ||| exists|i: int|
                    0 <= i < nodes(structured).len() && #[trigger] holds_some(
                        nodes(structured)[i],
                        "error"@,
                    )
                ||| exists|i: int|
                    0 <= i < nodes(response).len() && #[trigger] holds_some(
                        nodes(response)[i],
                        "error"@,
                    )
                ||| status == Some("error"@)
                ||| status == Some("errored"@)
                ||| status == Some("failed"@)
                ||| status == Some("failure"@)
                ||| error is Some && result is None
            };
            task.status == if failed {
                DoneStatus::Errored
            } else {
                DoneStatus::Completed
            }
        }),
{
    lemma_content_is_searched(structured, response);
    let s = nodes(structured);
    let r = nodes(response);
    if exists|i: int| 0 <= i < s.len() && #[trigger] holds_some(s[i], "error"@) {
        let i = choose|i: int| 0 <= i < s.len() && #[trigger] holds_some(s[i], "error"@);
        assert(has_text(s[i], "error"@));
    }
    if any_text(s, "error"@) {
        let i = choose|i: int|
            0 <= i < s.len() && has_text(#[trigger] s[i], "error"@);
        assert(holds_some(s[i], "error"@));
    }
    if exists|i: int| 0 <= i < r.len() && #[trigger] holds_some(r[i], "error"@) {
        let i = choose|i: int| 0 <= i < r.len() && #[trigger] holds_some(r[i], "error"@);
        assert(has_text(r[i], "error"@));
    }
    if any_text(r, "error"@) {
        let i = choose|i: int|
            0 <= i < r.len() && has_text(#[trigger] r[i], "error"@);
        assert(holds_some(r[i], "error"@));
    }
}

/// A text in the content of a reply is also found by a search of the reply: the joined
/// content never adds a result where the search finds none.
proof fn lemma_content_is_searched(structured: JsonView, response: JsonView)
    ensures
        reply_text(response) is Some ==> found(
            structured,
            response,
            seq!["result"@, "output"@, "answer"@, "text"@],
        ) is Some,
{
    if reply_text(response) is Some {
        let items = content_items(response);
        let keys = seq!["result"@, "output"@, "answer"@, "text"@];
        let all = all_nodes(seq![structured, response]);
        lemma_joined_has_text(items);
        let i = choose|i: int| 0 <= i < items.len() && holds_some(#[trigger] items[i], "text"@);
        let entries = response->Object_0;
        let array = JsonView::Array(items);
        lookup_gives_the_first_entry(entries, "content"@);
        let e = choose|e: int| #[trigger]
            first_entry(entries, "content"@, e) && entries[e].1 == array;
        let values = entries.map_values(|entry: (Seq<char>, JsonView)| entry.1);
        search_goes_all_the_way_down(items[i]);
        assert(nodes(items[i]).contains(items[i]));
        lemma_node_of_one(items, i, items[i]);
        search_goes_all_the_way_down(array);
        lemma_contains_rest(nodes(array), items[i]);
        assert(values[e] == array);
        lemma_node_of_one(values, e, items[i]);
        search_goes_all_the_way_down(response);
        lemma_contains_rest(nodes(response), items[i]);
        lemma_node_of_one(seq![structured, response], 1, items[i]);
        let k = choose|k: int| 0 <= k < all.len() && all[k] == items[i];
        search_fails_only_where_nothing_is(all, keys);
        assert(keys[3] == "text"@);
        assert(holds_some(all[k], keys[3]));
    }
}

proof fn lemma_contains_rest(values: Seq<JsonView>, value: JsonView)
    requires
        values.len() > 0,
        values.drop_first().contains(value),
    ensures
        values.contains(value),
{
    let rest = values.drop_first();
    let i = choose|i: int| 0 <= i < rest.len() && rest[i] == value;
    assert(values[i + 1] == value);
}

/// If the texts of items joined are not empty, one of the items has a text.
proof fn lemma_joined_has_text(items: Seq<JsonView>)
    ensures
        joined_lines(item_texts(items)).len() > 0 ==> exists|i: int|
            0 <= i < items.len() && holds_some(#[trigger] items[i], "text"@),
    decreases items.len(),
{
    if items.len() > 0 && joined_lines(item_texts(items)).len() > 0 {
        let rest = items.drop_last();
        lemma_joined_has_text(rest);
        if joined_lines(item_texts(rest)).len() > 0 {
            let i = choose|i: int| 0 <= i < rest.len() && holds_some(#[trigger] rest[i], "text"@);
            assert(holds_some(items[i], "text"@));
        } else {
            if let Some(JsonView::Text(text)) = field(items.last(), "text"@) {
                assert(item_texts(items) == item_texts(rest).push(text));
                assert(item_texts(items).drop_last() =~= item_texts(rest));
            }
            assert(holds_some(items[items.len() - 1], "text"@));
        }
    }
}

/// The result of a completed task is, character for character, the text that the
/// structured part or the reply has under `result`, `output`, `answer` or `text`; without
/// one it is the text of the content, which is never there without one either.
pub proof fn result_is_the_text_that_is_found(
    structured: JsonView,
    response: JsonView,
    fallback: Option<Seq<char>>,
    message_id: Seq<char>,
    decoded: Seq<Option<EventView>>,
)
    ensures
        ({
            let task = mapped(structured, response, fallback, message_id, decoded);
            let named = first_named(
                all_nodes(seq![structured, response]),
                seq!["result"@, "output"@, "answer"@, "text"@],
            );
            task.status == DoneStatus::Completed ==> {
                &&& task.result == named
                &&& named is None ==> task.result == reply_text(response)
            }
        }),
{
    lemma_content_is_searched(structured, response);
}

/// A failed task has no result and no events, and its error is the text that is found
/// under `error` or `message`, else the one that would have been its result, else a fixed
/// one.
pub proof fn error_is_the_text_that_is_found(
    structured: JsonView,
    response: JsonView,
    fallback: Option<Seq<char>>,
    message_id: Seq<char>,
    decoded: Seq<Option<EventView>>,
)
    ensures
        ({
            let task = mapped(structured, response, fallback, message_id, decoded);
            let error = found(structured, response, seq!["error"@, "message"@]);
            let result = found(
                structured,
                response,
                seq!["result"@, "output"@, "answer"@, "text"@],
            );
            if task.status == DoneStatus::Errored {
                &&& task.result is None
                &&& task.events.len() == 0
                &&& task.error == if error is Some {
                    error
                } else if result is Some {
                    result
                } else {
                    Some("Aside MCP execution failed"@)
                }
            } else {
                &&& task.status == DoneStatus::Completed
                &&& task.error is None
            }
        }),
{
    lemma_content_is_searched(structured, response);
}

/// The session of a task is the text that is found under `session_id` or `sessionId`,
/// whole, or else the session that was resumed; whether the task failed or not.
pub proof fn session_is_the_text_that_is_found(
    structured: JsonView,
    response: JsonView,
    fallback: Option<Seq<char>>,
    message_id: Seq<char>,
    decoded: Seq<Option<EventView>>,
)
    ensures
        ({
            let task = mapped(structured, response, fallback, message_id, decoded);
            let named = found(structured, response, seq!["session_id"@, "sessionId"@]);
            task.session_id == if named is Some {
                named
            } else {
                fallback
            }
        }),
{
}

/// The event decoded and does not say that the turn is done.
pub open spec fn passed_on(event: Option<EventView>) -> bool {
    event is Some && !(event->0 is Done)
}

/// The events of a reply are passed on as they are and in order, all but those that did
/// not decode and those that say that the turn is done.
pub proof fn decoded_events_are_passed_on(decoded: Seq<Option<EventView>>)
    ensures
        kept_events(decoded) == decoded.filter(
            |event: Option<EventView>| passed_on(event),
        ).map_values(|event: Option<EventView>| event->0),
    decreases decoded.len(),
{
    let keep = |event: Option<EventView>| passed_on(event);
    let open = |event: Option<EventView>| event->0;
    reveal(Seq::filter);
    if decoded.len() == 0 {
        assert(decoded.filter(keep).map_values(open) =~= Seq::empty());
    } else {
        let rest = decoded.drop_last();
        let last = decoded.last();
        decoded_events_are_passed_on(rest);
        if passed_on(last) {
            assert(decoded.filter(keep) == rest.filter(keep).push(last));
            assert(rest.filter(keep).push(last).map_values(open) =~= rest.filter(keep).map_values(
                open,
            ).push(last->0));
        } else {
            assert(decoded.filter(keep) == rest.filter(keep));
        }
    }
}

/// The events of a completed task are those of the reply, if any is passed on; else its
/// result as one text, whole, and the end of the message with the given id; and none
/// where there is no result either.
pub proof fn completed_task_tells_its_events_or_its_result(
    structured: JsonView,
    response: JsonView,
    fallback: Option<Seq<char>>,
    message_id: Seq<char>,
    decoded: Seq<Option<EventView>>,
)
    ensures
        ({
            let task = mapped(structured, response, fallback, message_id, decoded);
            let own = decoded.filter(|event: Option<EventView>| passed_on(event)).map_values(
                |event: Option<EventView>| event->0,
            );
            let named = first_named(
                all_nodes(seq![structured, response]),
                seq!["result"@, "output"@, "answer"@, "text"@],
            );
            task.status == DoneStatus::Completed ==> task.events == if own.len() > 0 {
                own
            } else {
                match named {
                    Some(text) => seq![
                        EventView::TextDelta { text },
                        EventView::AssistantMessageCompleted { assistant_message_id: message_id },
                    ],
                    None => Seq::empty(),
                }
            }
        }),
{
    decoded_events_are_passed_on(decoded);
    lemma_content_is_searched(structured, response);
    found_text_is_not_empty(
        all_nodes(seq![structured, response]),
        seq!["result"@, "output"@, "answer"@, "text"@],
    );
}

/// The events that the host decodes are the items of the list under `events` in the
/// structured part, all of them and in order.
pub proof fn events_to_decode_are_those_of_the_structured_part(structured: JsonView)
    ensures
        event_values(structured) == match field(structured, "events"@) {
            Some(JsonView::Array(items)) => items,
            _ => Seq::empty(),
        },
{
}

} // verus!
