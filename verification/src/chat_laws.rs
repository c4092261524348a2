//! What a Chat Completions stream tells of the Responses stream that it is made from, in terms of
//! the events that arrived and of the chunks on the wire.

use vstd::prelude::*;
use crate::chat_chunk::{
    escaped, escaped_char, escaped_name, escaped_name_char, escaping_can_be_undone, unescaped,
};
use crate::chat_stream::{after_event, heading, open_call, without, Chatted, Draw, OpenV};
use crate::chat_stream_laws::arguments_add_up;
use crate::json::JsonV;
use crate::keys::lemma_event_names_differ;
use crate::responses_event::CallV;
use crate::text::decimal;
use crate::value::compact_text;

verus! {

/// What the chunks of a stream have in front: the identifier of the response, when it was created,
/// and the model.
pub struct Front {
    pub id: Seq<char>,
    pub created: u64,
    pub model: Seq<char>,
}

/// A chunk on the wire with one choice: its place, what it brings, and why it finishes.
pub open spec fn is_chunk(
    chunk: Seq<char>,
    front: Front,
    index: u32,
    delta: Seq<char>,
    why: Seq<char>,
) -> bool {
    chunk == "data: {\"id\":\"chatcmpl-"@ + front.id
        + "\",\"object\":\"chat.completion.chunk\",\"created\":"@ + decimal(front.created as nat)
        + ",\"model\":\""@ + front.model + "\",\"choices\":[{\"index\":"@ + decimal(index as nat)
        + ",\"delta\":{"@ + delta + "},\"finish_reason\":"@ + why + "}]}\n\n"@
}

/// Whether a reader of a JSON string reads all that is written and does not stop before: no quote and
/// no line feed stands in it that is not escaped, and nothing that escapes stands at its end.
pub open spec fn is_read_to_the_end(written: Seq<char>) -> bool
    decreases written.len(),
{
    if written.len() == 0 {
        true
    } else if written[0] == '\\' {
        written.len() > 1 && is_read_to_the_end(written.skip(2))
    } else {
        written[0] != '"' && written[0] != '\n' && is_read_to_the_end(written.skip(1))
    }
}

/// A text in a JSON string: what a reader makes of what is written.
pub open spec fn is_written(written: Seq<char>, text: Seq<char>) -> bool {
    is_read_to_the_end(written) && unescaped(written) == text
}

/// A chunk that brings a text, as a reader reads it.
pub open spec fn brings_text(chunk: Seq<char>, front: Front, text: Seq<char>) -> bool {
    exists|written: Seq<char>| #[trigger]
        is_written(written, text) && is_chunk(
            chunk,
            front,
            0,
            "\"content\":\""@ + written + "\""@,
            "null"@,
        )
}

/// A chunk that brings a call, as a reader reads it: its identifier, name and arguments.
pub open spec fn brings_call(chunk: Seq<char>, front: Front, call: CallV) -> bool {
    exists|name: Seq<char>, arguments: Seq<char>| #[trigger]
        is_written(name, call.name) && #[trigger] is_written(arguments, call.arguments) && is_chunk(
            chunk,
            front,
            call.index,
            "\"role\":\"assistant\",\"tool_calls\":[{\"index\":"@ + decimal(call.index as nat)
                + ",\"id\":\"tool_"@ + call.id
                + "\",\"type\":\"function\",\"function\":{\"name\":\""@ + name
                + "\",\"arguments\":\""@ + arguments + "\"}}]"@,
            "null"@,
        )
}

/// A chunk that brings the output of a call, as a reader reads it.
pub open spec fn brings_output(
    chunk: Seq<char>,
    front: Front,
    index: u32,
    call_id: Seq<char>,
    output: Seq<char>,
) -> bool {
    exists|written: Seq<char>| #[trigger]
        is_written(written, output) && is_chunk(
            chunk,
            front,
            index,
            "\"role\":\"tool\",\"tool_call_id\":\""@ + call_id + "\",\"content\":\""@ + written
                + "\""@,
            "null"@,
        )
}

/// A chunk that brings nothing: it opens the stream, or it finishes it for a reason.
pub open spec fn brings_nothing(chunk: Seq<char>, front: Front, why: Seq<char>) -> bool {
    is_chunk(chunk, front, 0, Seq::empty(), why)
}

/// What the chunks have in front at a time: what the response told of itself, and stand-ins for what
/// it did not tell.
pub open spec fn front_of(t: Chatted) -> Front {
    Front {
        id: match t.message_id {
            Some(id) => id,
            None => "chatcmpl-local"@,
        },
        created: t.created,
        model: match t.model {
            Some(model) => model,
            None => "unknown"@,
        },
    }
}

proof fn lemma_name_front(s: Seq<char>)
    requires
        s.len() > 0,
    ensures
        escaped_name(s) == escaped_name_char(s[0]) + escaped_name(s.skip(1)),
    decreases s.len(),
{
    if s.len() == 1 {
        assert(s.drop_last() =~= Seq::empty());
        assert(s.skip(1) =~= Seq::empty());
        assert(escaped_name(s) =~= escaped_name_char(s[0]) + escaped_name(s.skip(1)));
    } else {
        lemma_name_front(s.drop_last());
        assert(s.drop_last().skip(1) =~= s.skip(1).drop_last());
        assert(escaped_name(s) =~= escaped_name_char(s[0]) + escaped_name(s.skip(1)));
    }
}

proof fn lemma_escaped_front(s: Seq<char>)
    requires
        s.len() > 0,
    ensures
        escaped(s) == escaped_char(s[0]) + escaped(s.skip(1)),
    decreases s.len(),
{
    if s.len() == 1 {
        assert(s.drop_last() =~= Seq::empty());
        assert(s.skip(1) =~= Seq::empty());
        assert(escaped(s) =~= escaped_char(s[0]) + escaped(s.skip(1)));
    } else {
        lemma_escaped_front(s.drop_last());
        assert(s.drop_last().skip(1) =~= s.skip(1).drop_last());
        assert(escaped(s) =~= escaped_char(s[0]) + escaped(s.skip(1)));
    }
}

/// What is escaped stays inside of the string: a reader reads it to the end.
pub proof fn escaped_texts_are_read_to_the_end(s: Seq<char>)
    ensures
        is_read_to_the_end(escaped(s)),
        is_read_to_the_end(escaped_name(s)),
    decreases s.len(),
{
    if s.len() > 0 {
        let rest = s.skip(1);
        escaped_texts_are_read_to_the_end(rest);
        lemma_escaped_front(s);
        lemma_name_front(s);
        let a = escaped_char(s[0]);
        let b = escaped_name_char(s[0]);
        assert((a + escaped(rest)).skip(a.len() as int) =~= escaped(rest));
        assert((b + escaped_name(rest)).skip(b.len() as int) =~= escaped_name(rest));
    }
}

/// A name that is escaped can be had back.
pub proof fn escaping_a_name_can_be_undone(s: Seq<char>)
    ensures
        unescaped(escaped_name(s)) == s,
    decreases s.len(),
{
    if s.len() > 0 {
        let rest = escaped_name(s.skip(1));
        let piece = escaped_name_char(s[0]);
        lemma_name_front(s);
        escaping_a_name_can_be_undone(s.skip(1));
        assert((piece + rest).skip(piece.len() as int) =~= rest);
        assert(seq![s[0]] + s.skip(1) =~= s);
    }
}

proof fn lemma_empty()
    ensures
        ""@ == Seq::<char>::empty(),
{
    reveal_strlit("");
    assert(""@ =~= Seq::empty());
}

/// An event with a text sends exactly one chunk, and that brings the text as it is.
pub proof fn text_events_send_their_text(
    t: Chatted,
    name: Seq<char>,
    data: JsonV,
    draw: Draw,
    text: Seq<char>,
)
    requires
        name == "response.output_text.delta"@ || name == "output_text.delta"@,
        match data.get("delta"@) {
            Some(delta) => delta.str_at("text"@) == Some(text),
            None => data.get("text"@) matches Some(delta) && delta.str_at("text"@) == Some(text),
        },
    ensures
        ({
            let next = after_event(t, name, data, draw);
            &&& next.out.len() == t.out.len() + 1
            &&& next == (Chatted { out: t.out.push(next.out.last()), ..t })
            &&& brings_text(next.out.last(), front_of(t), text)
        }),
{
    lemma_event_names_differ();
    escaping_can_be_undone(text);
    escaped_texts_are_read_to_the_end(text);
    assert(is_written(escaped(text), text));
}

/// A response that is created opens the stream with what it tells of itself: what was told first
/// stays, and what is not told comes from the machine.
pub proof fn created_response_opens_the_stream(
    t: Chatted,
    data: JsonV,
    draw: Draw,
    response: JsonV,
)
    requires
        data.get("response"@) == Some(response) || (data.get("response"@) is None && data.get(
            "output"@,
        ) == Some(response)),
    ensures
        ({
            let next = after_event(t, "response.created"@, data, draw);
            let id = next.message_id;
            &&& t.message_id is Some ==> id == t.message_id
            &&& t.message_id is None ==> id == response.str_at("id"@)
            &&& t.model is Some ==> next.model == t.model
            &&& t.model is None ==> next.model == response.str_at("model"@)
            &&& t.created != 0 ==> next.created == t.created
            &&& t.created == 0 ==> next.created == match response.u64_at("created"@) {
                Some(n) => n,
                None => draw.now,
            }
            &&& next.out.len() == t.out.len() + 1
            &&& next.out.drop_last() == t.out
            &&& brings_nothing(
                next.out.last(),
                Front {
                    id: match id {
                        Some(id) => id,
                        None => "chatcmpl-"@ + draw.short,
                    },
                    ..front_of(next)
                },
                "null"@,
            )
        }),
{
    lemma_event_names_differ();
    lemma_empty();
    let next = after_event(t, "response.created"@, data, draw);
    assert(next.out.drop_last() =~= t.out);
}

/// What a call that an item begins is: under the identifier of the call, or else of the item.
pub open spec fn begins_as(item: JsonV, call: CallV, place: u32) -> bool {
    &&& call.id == match item.str_at("call_id"@) {
        Some(id) => id,
        None => match item.str_at("id"@) {
            Some(id) => id,
            None => Seq::empty(),
        },
    }
    &&& call.name == match item.str_at("name"@) {
        Some(name) => name,
        None => Seq::empty(),
    }
    &&& call.arguments.len() == 0
    &&& call.index == place
}

/// The identifier under which the events of an item come.
pub open spec fn item_id(value: JsonV, key: Seq<char>) -> Seq<char> {
    match value.str_at(key) {
        Some(id) => id,
        None => Seq::empty(),
    }
}

/// Without the call of an item, the other calls are open as before.
pub proof fn lemma_without_keeps(list: Seq<OpenV>, item: Seq<char>, other: Seq<char>)
    ensures
        open_call(without(list, item), other) == if other == item {
            None
        } else {
            open_call(list, other)
        },
    decreases list.len(),
{
    if list.len() > 0 {
        lemma_without_keeps(list.drop_last(), item, other);
        let rest = without(list.drop_last(), item);
        assert(rest.push(list.last()).drop_last() =~= rest);
    }
}

/// An item that calls a function or a custom tool begins a call at the next place, without
/// arguments. The other open calls stay as they are, and nothing is sent yet.
pub proof fn added_items_begin_calls(
    t: Chatted,
    data: JsonV,
    draw: Draw,
    item: JsonV,
    other: Seq<char>,
)
    requires
        data.get("item"@) == Some(item),
        item.str_at("type"@) == Some("function_call"@) || item.str_at("type"@) == Some(
            "custom_tool_call"@,
        ),
        t.count < u32::MAX,
    ensures
        ({
            let next = after_event(t, "response.output_item.added"@, data, draw);
            let id = item_id(item, "id"@);
            let function = item.str_at("type"@) == Some("function_call"@);
            &&& next.count == t.count + 1
            &&& next.out == t.out
            &&& next.places.contains_key(id) && next.places[id] == t.count
            &&& other != id ==> next.places.contains_key(other) == t.places.contains_key(other)
                && next.places[other] == t.places[other]
            &&& function ==> {
                &&& open_call(next.calls, id) matches Some(call) && begins_as(item, call, t.count)
                &&& other != id ==> open_call(next.calls, other) == open_call(t.calls, other)
                &&& next.custom == t.custom
            }
            &&& !function ==> {
                &&& open_call(next.custom, id) matches Some(call) && begins_as(item, call, t.count)
                &&& other != id ==> open_call(next.custom, other) == open_call(t.custom, other)
                &&& next.calls == t.calls
            }
        }),
{
    lemma_event_names_differ();
    lemma_empty();
    let next = after_event(t, "response.output_item.added"@, data, draw);
    let id = item_id(item, "id"@);
    lemma_without_keeps(t.calls, id, other);
    lemma_without_keeps(t.custom, id, other);
    if next.calls.len() > 0 {
        assert(next.calls.drop_last() =~= without(t.calls, id) || next.calls == t.calls);
    }
    if next.custom.len() > 0 {
        assert(next.custom.drop_last() =~= without(t.custom, id) || next.custom == t.custom);
    }
}

/// More arguments of a function are appended as they are to those of the open call that they are
/// for. Everything else stays, and nothing is sent yet.
pub proof fn arguments_are_appended(
    t: Chatted,
    name: Seq<char>,
    data: JsonV,
    draw: Draw,
    delta: JsonV,
    more: Seq<char>,
    other: Seq<char>,
)
    requires
        name == "response.function_call_arguments.delta"@ || name
            == "function_call_arguments.delta"@,
        data.get("delta"@) == Some(delta),
        delta.str_at("arguments"@) == Some(more),
    ensures
        ({
            let next = after_event(t, name, data, draw);
            let id = item_id(data, "item_id"@);
            &&& next == (Chatted { calls: next.calls, ..t })
            &&& open_call(next.calls, id) == match open_call(t.calls, id) {
                Some(call) => Some(CallV { arguments: call.arguments + more, ..call }),
                None => None,
            }
            &&& other != id ==> open_call(next.calls, other) == open_call(t.calls, other)
        }),
{
    lemma_event_names_differ();
    lemma_empty();
    arguments_add_up(t.calls, item_id(data, "item_id"@), more, other);
}

/// More input of a custom tool is appended to that of the open call that it is for: a text as it
/// is, and any other value as the JSON text of it. Everything else stays, and nothing is sent yet.
pub proof fn input_is_appended(
    t: Chatted,
    name: Seq<char>,
    data: JsonV,
    draw: Draw,
    delta: JsonV,
    input: JsonV,
    more: Seq<char>,
    other: Seq<char>,
)
    requires
        name == "response.custom_tool_call.delta"@ || name == "custom_tool_call.delta"@,
        data.get("delta"@) == Some(delta),
        delta.get("input"@) == Some(input),
        match input {
            JsonV::Str(s) => s == more,
            _ => compact_text(input) == Some(more),
        },
    ensures
        ({
            let next = after_event(t, name, data, draw);
            let id = item_id(data, "item_id"@);
            &&& next == (Chatted { custom: next.custom, ..t })
            &&& open_call(next.custom, id) == match open_call(t.custom, id) {
                Some(call) => Some(CallV { arguments: call.arguments + more, ..call }),
                None => None,
            }
            &&& other != id ==> open_call(next.custom, other) == open_call(t.custom, other)
        }),
{
    lemma_event_names_differ();
    lemma_empty();
    arguments_add_up(t.custom, item_id(data, "item_id"@), more, other);
}

proof fn lemma_call_is_brought(t: Chatted, call: CallV)
    ensures
        brings_call(crate::chat_chunk::call_chunk(heading(t), call), front_of(t), call),
{
    escaping_a_name_can_be_undone(call.name);
    escaping_can_be_undone(call.arguments);
    escaped_texts_are_read_to_the_end(call.name);
    escaped_texts_are_read_to_the_end(call.arguments);
    assert(is_written(escaped_name(call.name), call.name));
    assert(is_written(escaped(call.arguments), call.arguments));
}

/// A call of a function that is complete is sent whole, in exactly one chunk, and is open no
/// longer. The other open calls stay as they are.
pub proof fn complete_calls_are_sent(
    t: Chatted,
    name: Seq<char>,
    data: JsonV,
    draw: Draw,
    call: CallV,
    other: Seq<char>,
)
    requires
        name == "response.function_call_arguments.done"@ || name
            == "function_call_arguments.done"@,
        open_call(t.calls, item_id(data, "item_id"@)) == Some(call),
    ensures
        ({
            let next = after_event(t, name, data, draw);
            let id = item_id(data, "item_id"@);
            &&& next.out.len() == t.out.len() + 1
            &&& next == (Chatted { calls: next.calls, out: t.out.push(next.out.last()), ..t })
            &&& brings_call(next.out.last(), front_of(t), call)
            &&& open_call(next.calls, id) is None
            &&& other != id ==> open_call(next.calls, other) == open_call(t.calls, other)
        }),
{
    lemma_event_names_differ();
    lemma_empty();
    lemma_without_keeps(t.calls, item_id(data, "item_id"@), other);
    lemma_without_keeps(t.calls, item_id(data, "item_id"@), item_id(data, "item_id"@));
    lemma_call_is_brought(t, call);
}

/// A call of a custom tool that is complete is sent whole, in exactly one chunk, and is open no
/// longer. The other open calls stay as they are.
pub proof fn complete_custom_calls_are_sent(
    t: Chatted,
    name: Seq<char>,
    data: JsonV,
    draw: Draw,
    call: CallV,
    other: Seq<char>,
)
    requires
        name == "response.custom_tool_call.done"@ || name == "custom_tool_call.done"@,
        open_call(t.custom, item_id(data, "item_id"@)) == Some(call),
    ensures
        ({
            let next = after_event(t, name, data, draw);
            let id = item_id(data, "item_id"@);
            &&& next.out.len() == t.out.len() + 1
            &&& next == (Chatted { custom: next.custom, out: t.out.push(next.out.last()), ..t })
            &&& brings_call(next.out.last(), front_of(t), call)
            &&& open_call(next.custom, id) is None
            &&& other != id ==> open_call(next.custom, other) == open_call(t.custom, other)
        }),
{
    lemma_event_names_differ();
    lemma_empty();
    lemma_without_keeps(t.custom, item_id(data, "item_id"@), other);
    lemma_without_keeps(t.custom, item_id(data, "item_id"@), item_id(data, "item_id"@));
    lemma_call_is_brought(t, call);
}

/// The text of a member, where it is a text.
pub open spec fn text_or_empty(value: Option<JsonV>) -> Seq<char> {
    match value {
        Some(JsonV::Str(s)) => s,
        _ => Seq::empty(),
    }
}

/// The output of a call sends exactly one chunk, which brings the output as it is, for the call that
/// the event names and at the place of that call.
pub proof fn outputs_are_sent(t: Chatted, name: Seq<char>, data: JsonV, draw: Draw)
    requires
        name == "response.function_call_output"@ || name == "function_call_output"@ || name
            == "response.custom_tool_call_output"@ || name == "custom_tool_call_output"@,
    ensures
        ({
            let next = after_event(t, name, data, draw);
            let call_id = text_or_empty(
                if data.get("item_id"@) is Some {
                    data.get("item_id"@)
                } else {
                    data.get("call_id"@)
                },
            );
            let output = text_or_empty(
                if data.get("output"@) is Some {
                    data.get("output"@)
                } else {
                    data.get("result"@)
                },
            );
            let place = if t.places.contains_key(call_id) {
                t.places[call_id]
            } else {
                0
            };
            &&& next.out.len() == t.out.len() + 1
            &&& next == (Chatted { out: t.out.push(next.out.last()), ..t })
            &&& brings_output(next.out.last(), front_of(t), place, call_id, output)
        }),
{
    lemma_event_names_differ();
    lemma_empty();
    let output = text_or_empty(
        if data.get("output"@) is Some {
            data.get("output"@)
        } else {
            data.get("result"@)
        },
    );
    escaping_can_be_undone(output);
    escaped_texts_are_read_to_the_end(output);
    assert(is_written(escaped(output), output));
}

/// The completion of a response sends each call of a function that is open, whole and in order, and
/// then the reason to finish: the calls, or else what the response tells, or else that it stopped.
/// The marker of the end comes last.
pub proof fn completion_sends_the_rest(
    t: Chatted,
    name: Seq<char>,
    data: JsonV,
    draw: Draw,
)
    requires
        name == "response.completed"@ || name == "response.done"@,
    ensures
        ({
            let next = after_event(t, name, data, draw);
            let n = t.out.len() as int;
            let m = t.calls.len() as int;
            let why = if m > 0 {
                "tool_calls"@
            } else {
                match data.str_at("status"@) {
                    Some(status) => status,
                    None => "stop"@,
                }
            };
            &&& next == (Chatted { complete: true, calls: Seq::empty(), out: next.out, ..t })
            &&& next.out.len() == n + m + 2
            &&& next.out.take(n) == t.out
            &&& forall|i: int|
                0 <= i < m ==> brings_call(
                    next.out[n + i],
                    front_of(t),
                    (#[trigger] t.calls[i]).call,
                )
            &&& brings_nothing(next.out[n + m], front_of(t), "\""@ + why + "\""@)
            &&& next.out[n + m + 1] == "data: [DONE]\n\n"@
        }),
{
    lemma_event_names_differ();
    lemma_empty();
    let next = after_event(t, name, data, draw);
    let n = t.out.len() as int;
    assert(next.out.take(n) =~= t.out);
    assert forall|i: int| 0 <= i < t.calls.len() implies brings_call(
        next.out[n + i],
        front_of(t),
        (#[trigger] t.calls[i]).call,
    ) by {
        lemma_call_is_brought(t, t.calls[i].call);
        assert(next.out[n + i] == crate::chat_chunk::call_chunk(heading(t), t.calls[i].call));
    }
}

/// A response that is not complete when the bytes end is finished: because of calls that are open, or
/// else because it stopped; and the marker of the end follows.
pub proof fn broken_off_stream_is_finished(t: Chatted)
    requires
        !t.complete,
    ensures
        ({
            let last = crate::chat_stream::final_chunks(t);
            let why = if t.calls.len() > 0 {
                "tool_calls"@
            } else {
                "stop"@
            };
            &&& last.len() == 2
            &&& brings_nothing(last[0], front_of(t), "\""@ + why + "\""@)
            &&& last[1] == "data: [DONE]\n\n"@
        }),
{
    lemma_empty();
}

/// A response that is complete has nothing left to send.
pub proof fn complete_stream_has_nothing_left(t: Chatted)
    requires
        t.complete,
    ensures
        crate::chat_stream::final_chunks(t).len() == 0,
{
}

/// A response that is created without telling of itself opens the stream with what was told before,
/// and changes nothing else.
pub proof fn silent_response_opens_the_stream(t: Chatted, data: JsonV, draw: Draw)
    requires
        data.get("response"@) is None,
        data.get("output"@) is None,
    ensures
        ({
            let next = after_event(t, "response.created"@, data, draw);
            &&& next == (Chatted { out: t.out.push(next.out.last()), ..t })
            &&& brings_nothing(
                next.out.last(),
                Front {
                    id: match t.message_id {
                        Some(id) => id,
                        None => "chatcmpl-"@ + draw.short,
                    },
                    ..front_of(t)
                },
                "null"@,
            )
        }),
{
    lemma_event_names_differ();
    lemma_empty();
}

/// The names of the events that are taken in.
pub open spec fn taken_names() -> Set<Seq<char>> {
    set![
        "response.created"@,
        "response.output_item.added"@,
        "response.output_text.delta"@,
        "output_text.delta"@,
        "response.function_call_arguments.delta"@,
        "function_call_arguments.delta"@,
        "response.function_call_arguments.done"@,
        "function_call_arguments.done"@,
        "response.function_call_output"@,
        "function_call_output"@,
        "response.custom_tool_call.delta"@,
        "custom_tool_call.delta"@,
        "response.custom_tool_call.done"@,
        "custom_tool_call.done"@,
        "response.custom_tool_call_output"@,
        "custom_tool_call_output"@,
        "response.completed"@,
        "response.done"@,
    ]
}

/// An event of another name changes nothing.
pub proof fn other_events_change_nothing(t: Chatted, name: Seq<char>, data: JsonV, draw: Draw)
    requires
        !taken_names().contains(name),
    ensures
        after_event(t, name, data, draw) == t,
{
}

/// An event that lacks what it is to bring changes nothing: an item that is no call, a text event
/// without a text, more arguments or input without any, and the completion of a call that is not
/// open.
pub proof fn empty_events_change_nothing(t: Chatted, name: Seq<char>, data: JsonV, draw: Draw)
    requires
        ({
            ||| name == "response.output_item.added"@ && match data.get("item"@) {
                Some(item) => item.str_at("type"@) != Some("function_call"@) && item.str_at(
                    "type"@,
                ) != Some("custom_tool_call"@),
                None => true,
            }
            ||| (name == "response.output_text.delta"@ || name == "output_text.delta"@)
                && match data.get("delta"@) {
                Some(delta) => delta.str_at("text"@) is None,
                None => match data.get("text"@) {
                    Some(delta) => delta.str_at("text"@) is None,
                    None => true,
                },
            }
            ||| (name == "response.function_call_arguments.delta"@ || name
                == "function_call_arguments.delta"@) && match data.get("delta"@) {
                Some(delta) => delta.str_at("arguments"@) is None,
                None => true,
            }
            ||| (name == "response.custom_tool_call.delta"@ || name == "custom_tool_call.delta"@)
                && match data.get("delta"@) {
                Some(delta) => delta.get("input"@) is None,
                None => true,
            }
            ||| (name == "response.function_call_arguments.done"@ || name
                == "function_call_arguments.done"@) && open_call(
                t.calls,
                item_id(data, "item_id"@),
            ) is None
            ||| (name == "response.custom_tool_call.done"@ || name == "custom_tool_call.done"@)
                && open_call(t.custom, item_id(data, "item_id"@)) is None
        }),
    ensures
        after_event(t, name, data, draw) == t,
{
    lemma_event_names_differ();
    lemma_empty();
}

} // verus!
