//! What a whole Chat Completions stream tells of the Responses stream that it is made from.

use vstd::prelude::*;
use crate::chat_chunk::{call_chunk, finish_chunk, opening_chunk, output_chunk};
use crate::chat_laws::{
    added_items_begin_calls, arguments_are_appended, brings_text, completion_sends_the_rest,
    is_chunk, item_id, text_events_send_their_text, Front,
};
use crate::chat_stream::{
    after_blocks, after_bytes, after_event, block_event, call_chunks, calls_begun, completes,
    has_room, heading, is_completion, open_call, Chatted, Draw,
};
use crate::chat_stream_laws::run;
use crate::json::JsonV;
use crate::keys::lemma_event_names_differ;
use crate::responses_event::CallV;
use crate::sse::{
    behind_block, field_values, first_block, framed, framed_block_is_read, has_block, lossy_text,
    unended,
};
use crate::text::{decimal, join, trim};
use crate::value::{one_line, parsed};

verus! {

/// An event: its name and its data.
pub struct Told {
    pub name: Seq<char>,
    pub data: JsonV,
}

/// A block that is framed with a name and one line of JSON is read as an event with this name and
/// with this JSON.
pub proof fn framed_events_are_read(name: Seq<char>, data: Seq<char>, value: JsonV)
    requires
        one_line(name),
        one_line(data),
        parsed(data) == Some(value),
    ensures
        block_event(unended(framed(name, data))) == Some((trim(name), value)),
{
    framed_block_is_read(name, data);
    let values = field_values(unended(framed(name, data)), "data"@);
    assert(values =~= seq![data]);
    assert(join(seq![data], "\n"@) == data);
}

/// Whether an event completes the response.
pub open spec fn is_end(event: Told) -> bool {
    event.name == "response.completed"@ || event.name == "response.done"@
}

/// The events in the complete blocks of some bytes, up to one that completes the response.
pub open spec fn events_in(bytes: Seq<u8>) -> Seq<Told>
    decreases bytes.len(),
{
    if has_block(bytes) {
        proof {
            crate::sse::lemma_next_break(bytes, 0);
        }
        match block_event(lossy_text(first_block(bytes))) {
            Some((name, data)) => {
                let event = Told { name, data };
                if is_end(event) {
                    seq![event]
                } else {
                    seq![event] + events_in(behind_block(bytes))
                }
            },
            None => events_in(behind_block(bytes)),
        }
    } else {
        Seq::empty()
    }
}

/// The events that a stream has taken in with some chunks of bytes.
pub open spec fn events_of(chunks: Seq<Seq<u8>>, draws: Seq<Seq<Draw>>) -> Seq<Told>
    decreases chunks.len(),
{
    if chunks.len() == 0 {
        Seq::empty()
    } else {
        let before = run(chunks.drop_last(), draws.drop_last()).state;
        events_of(chunks.drop_last(), draws.drop_last()) + events_in(before.bytes + chunks.last())
    }
}

/// The text that an event brings, where it brings one.
pub open spec fn text_of(event: Told) -> Option<Seq<char>> {
    if event.name == "response.output_text.delta"@ || event.name == "output_text.delta"@ {
        match event.data.get("delta"@) {
            Some(delta) => delta.str_at("text"@),
            None => match event.data.get("text"@) {
                Some(delta) => delta.str_at("text"@),
                None => None,
            },
        }
    } else {
        None
    }
}

/// The texts that some events bring, in order.
pub open spec fn texts_of(events: Seq<Told>) -> Seq<Seq<char>>
    decreases events.len(),
{
    if events.len() == 0 {
        Seq::empty()
    } else {
        let before = texts_of(events.drop_last());
        match text_of(events.last()) {
            Some(text) => before.push(text),
            None => before,
        }
    }
}

/// A chunk that brings no text: it opens or finishes the stream, it speaks in the role of the
/// assistant or of a tool, or it is the marker of the end.
pub open spec fn brings_no_text(chunk: Seq<char>) -> bool {
    chunk == "data: [DONE]\n\n"@ || exists|front: Front, index: u32, delta: Seq<char>, why: Seq<char>|
     #[trigger]
        is_chunk(chunk, front, index, delta, why) && (delta.len() == 0 || "\"role\":\""@.is_prefix_of(
            delta,
        ))
}

/// Some chunks bring some texts: in the same order, one chunk for each text, and the other chunks
/// bring no text.
pub open spec fn bring_texts(chunks: Seq<Seq<char>>, texts: Seq<Seq<char>>) -> bool
    decreases chunks.len(),
{
    if chunks.len() == 0 {
        texts.len() == 0
    } else {
        ||| texts.len() > 0 && (exists|front: Front| #[trigger]
            brings_text(chunks.last(), front, texts.last())) && bring_texts(
            chunks.drop_last(),
            texts.drop_last(),
        )
        ||| brings_no_text(chunks.last()) && bring_texts(chunks.drop_last(), texts)
    }
}

proof fn lemma_one_more_text(
    chunks: Seq<Seq<char>>,
    texts: Seq<Seq<char>>,
    chunk: Seq<char>,
    front: Front,
    text: Seq<char>,
)
    requires
        bring_texts(chunks, texts),
        brings_text(chunk, front, text),
    ensures
        bring_texts(chunks.push(chunk), texts.push(text)),
{
    assert(chunks.push(chunk).drop_last() =~= chunks);
    assert(texts.push(text).drop_last() =~= texts);
    assert(brings_text(chunks.push(chunk).last(), front, texts.push(text).last()));
}

proof fn lemma_one_more(chunks: Seq<Seq<char>>, texts: Seq<Seq<char>>, chunk: Seq<char>)
    requires
        bring_texts(chunks, texts),
        brings_no_text(chunk),
    ensures
        bring_texts(chunks.push(chunk), texts),
{
    assert(chunks.push(chunk).drop_last() =~= chunks);
}

proof fn lemma_more(chunks: Seq<Seq<char>>, texts: Seq<Seq<char>>, more: Seq<Seq<char>>)
    requires
        bring_texts(chunks, texts),
        forall|i: int| 0 <= i < more.len() ==> brings_no_text(#[trigger] more[i]),
    ensures
        bring_texts(chunks + more, texts),
    decreases more.len(),
{
    if more.len() == 0 {
        assert(chunks + more =~= chunks);
    } else {
        let fewer = more.drop_last();
        assert forall|i: int| 0 <= i < fewer.len() implies brings_no_text(#[trigger] fewer[i]) by {
            assert(brings_no_text(more[i]));
        }
        lemma_more(chunks, texts, fewer);
        assert(brings_no_text(more[more.len() - 1]));
        lemma_one_more(chunks + fewer, texts, more.last());
        assert((chunks + fewer).push(more.last()) =~= chunks + more);
    }
}

proof fn lemma_together(
    a: Seq<Seq<char>>,
    x: Seq<Seq<char>>,
    b: Seq<Seq<char>>,
    y: Seq<Seq<char>>,
)
    requires
        bring_texts(a, x),
        bring_texts(b, y),
    ensures
        bring_texts(a + b, x + y),
    decreases b.len(),
{
    if b.len() == 0 {
        assert(a + b =~= a);
        assert(x + y =~= x);
    } else {
        let fewer = b.drop_last();
        assert((a + fewer).push(b.last()) =~= a + b);
        if y.len() > 0 && (exists|front: Front| #[trigger] brings_text(b.last(), front, y.last()))
            && bring_texts(fewer, y.drop_last()) {
            let front = choose|front: Front| #[trigger] brings_text(b.last(), front, y.last());
            lemma_together(a, x, fewer, y.drop_last());
            lemma_one_more_text(a + fewer, x + y.drop_last(), b.last(), front, y.last());
            assert((x + y.drop_last()).push(y.last()) =~= x + y);
        } else {
            lemma_together(a, x, fewer, y);
            lemma_one_more(a + fewer, x + y, b.last());
        }
    }
}

proof fn lemma_other_chunks(t: Chatted)
    ensures
        forall|h: crate::chat_chunk::Heading| brings_no_text(#[trigger] opening_chunk(h)),
        forall|h: crate::chat_chunk::Heading, call: CallV| brings_no_text(
            #[trigger] call_chunk(h, call),
        ),
        forall|
            h: crate::chat_chunk::Heading,
            index: u32,
            id: Seq<char>,
            output: Seq<char>,
        | brings_no_text(#[trigger] output_chunk(h, index, id, output)),
        forall|h: crate::chat_chunk::Heading, why: Seq<char>| brings_no_text(
            #[trigger] finish_chunk(h, why),
        ),
{
    reveal_strlit("");
    reveal_strlit("\"role\":\"");
    assert forall|h: crate::chat_chunk::Heading| brings_no_text(#[trigger] opening_chunk(h)) by {
        let front = Front { id: h.id, created: h.created, model: h.model };
        assert(is_chunk(opening_chunk(h), front, 0, ""@, "null"@));
    }
    assert forall|h: crate::chat_chunk::Heading, why: Seq<char>| brings_no_text(
        #[trigger] finish_chunk(h, why),
    ) by {
        let front = Front { id: h.id, created: h.created, model: h.model };
        assert(is_chunk(finish_chunk(h, why), front, 0, ""@, "\""@ + why + "\""@));
    }
    assert forall|h: crate::chat_chunk::Heading, call: CallV| brings_no_text(
        #[trigger] call_chunk(h, call),
    ) by {
        lemma_call_brings_no_text(h, call);
    }
    assert forall|
        h: crate::chat_chunk::Heading,
        index: u32,
        id: Seq<char>,
        output: Seq<char>,
    | brings_no_text(#[trigger] output_chunk(h, index, id, output)) by {
        lemma_output_brings_no_text(h, index, id, output);
    }
}

proof fn lemma_call_brings_no_text(h: crate::chat_chunk::Heading, call: CallV)
    ensures
        brings_no_text(call_chunk(h, call)),
{
    reveal_strlit("\"role\":\"");
    reveal_strlit("\"role\":\"assistant\",\"tool_calls\":[{\"index\":");
    let front = Front { id: h.id, created: h.created, model: h.model };
    let head = "\"role\":\"assistant\",\"tool_calls\":[{\"index\":"@;
    let delta = head + decimal(call.index as nat) + ",\"id\":\"tool_"@ + call.id
        + "\",\"type\":\"function\",\"function\":{\"name\":\""@ + crate::chat_chunk::escaped_name(
        call.name,
    ) + "\",\"arguments\":\""@ + crate::chat_chunk::escaped(call.arguments) + "\"}}]"@;
    assert(is_chunk(call_chunk(h, call), front, call.index, delta, "null"@));
    assert(delta.subrange(0, 8) =~= head.subrange(0, 8));
    assert(head.subrange(0, 8) =~= "\"role\":\""@);
    assert("\"role\":\""@.is_prefix_of(delta));
}

proof fn lemma_output_brings_no_text(
    h: crate::chat_chunk::Heading,
    index: u32,
    id: Seq<char>,
    output: Seq<char>,
)
    ensures
        brings_no_text(output_chunk(h, index, id, output)),
{
    reveal_strlit("\"role\":\"");
    reveal_strlit("\"role\":\"tool\",\"tool_call_id\":\"");
    let front = Front { id: h.id, created: h.created, model: h.model };
    let head = "\"role\":\"tool\",\"tool_call_id\":\""@;
    let delta = head + id + "\",\"content\":\""@ + crate::chat_chunk::escaped(output) + "\""@;
    assert(is_chunk(output_chunk(h, index, id, output), front, index, delta, "null"@));
    assert(delta.subrange(0, 8) =~= head.subrange(0, 8));
    assert(head.subrange(0, 8) =~= "\"role\":\""@);
    assert("\"role\":\""@.is_prefix_of(delta));
}

proof fn lemma_event_brings(t: Chatted, texts: Seq<Seq<char>>, event: Told, draw: Draw)
    requires
        bring_texts(t.out, texts),
    ensures
        bring_texts(
            after_event(t, event.name, event.data, draw).out,
            match text_of(event) {
                Some(text) => texts.push(text),
                None => texts,
            },
        ),
{
    let next = after_event(t, event.name, event.data, draw);
    lemma_other_chunks(t);
    lemma_event_names_differ();
    if let Some(text) = text_of(event) {
        text_events_send_their_text(t, event.name, event.data, draw, text);
        lemma_one_more_text(
            t.out,
            texts,
            next.out.last(),
            crate::chat_laws::front_of(t),
            text,
        );
    } else if is_completion(event.name) {
        let more = next.out.skip(t.out.len() as int);
        let calls = call_chunks(heading(t), t.calls);
        assert(next.out =~= t.out + more);
        assert forall|i: int| 0 <= i < more.len() implies brings_no_text(#[trigger] more[i]) by {
            if i < calls.len() {
                assert(more[i] == call_chunk(heading(t), t.calls[i].call));
            }
        }
        lemma_more(t.out, texts, more);
    } else if next.out.len() > t.out.len() {
        assert(next.out =~= t.out.push(next.out.last()));
        lemma_one_more(t.out, texts, next.out.last());
    } else {
        assert(next.out =~= t.out);
    }
}

proof fn lemma_texts_front(event: Told, rest: Seq<Told>)
    ensures
        texts_of(seq![event] + rest) == match text_of(event) {
            Some(text) => seq![text] + texts_of(rest),
            None => texts_of(rest),
        },
    decreases rest.len(),
{
    let all = seq![event] + rest;
    if rest.len() == 0 {
        assert(all.drop_last() =~= Seq::empty());
        assert(texts_of(all.drop_last()) =~= Seq::empty());
        assert(texts_of(all) =~= match text_of(event) {
            Some(text) => seq![text] + texts_of(rest),
            None => texts_of(rest),
        });
    } else {
        lemma_texts_front(event, rest.drop_last());
        assert(all.drop_last() =~= seq![event] + rest.drop_last());
        assert(texts_of(all) =~= match text_of(event) {
            Some(text) => seq![text] + texts_of(rest),
            None => texts_of(rest),
        });
    }
}

proof fn lemma_texts_together(a: Seq<Told>, b: Seq<Told>)
    ensures
        texts_of(a + b) == texts_of(a) + texts_of(b),
    decreases b.len(),
{
    if b.len() == 0 {
        assert(a + b =~= a);
        assert(texts_of(a) + texts_of(b) =~= texts_of(a));
    } else {
        lemma_texts_together(a, b.drop_last());
        assert((a + b).drop_last() =~= a + b.drop_last());
        assert(texts_of(a + b) =~= texts_of(a) + texts_of(b));
    }
}

proof fn lemma_blocks_bring(t: Chatted, texts: Seq<Seq<char>>, draws: Seq<Draw>)
    requires
        bring_texts(t.out, texts),
    ensures
        bring_texts(after_blocks(t, draws).out, texts + texts_of(events_in(t.bytes))),
    decreases t.bytes.len(),
{
    if has_block(t.bytes) {
        crate::sse::lemma_next_break(t.bytes, 0);
        let block = lossy_text(first_block(t.bytes));
        let rest = behind_block(t.bytes);
        let cut = Chatted { bytes: rest, ..t };
        match block_event(block) {
            Some((name, data)) => {
                let event = Told { name, data };
                let next = after_event(cut, name, data, draws.first());
                let more = match text_of(event) {
                    Some(text) => texts.push(text),
                    None => texts,
                };
                crate::chat_stream::lemma_event_keeps_bytes(cut, name, data, draws.first());
                lemma_event_brings(cut, texts, event, draws.first());
                lemma_texts_front(event, events_in(rest));
                if is_end(event) {
                    lemma_texts_front(event, Seq::empty());
                    assert(seq![event] + Seq::<Told>::empty() =~= seq![event]);
                    assert(texts_of(Seq::empty()) =~= Seq::empty());
                    assert(texts + texts_of(events_in(t.bytes)) =~= more);
                } else {
                    lemma_blocks_bring(next, more, draws.drop_first());
                    assert(texts + texts_of(events_in(t.bytes)) =~= more + texts_of(
                        events_in(rest),
                    ));
                }
            },
            None => {
                lemma_blocks_bring(cut, texts, draws.drop_first());
            },
        }
    } else {
        assert(texts + texts_of(events_in(t.bytes)) =~= texts);
    }
}

/// All the text that arrives is sent: the chunks of a stream bring exactly the texts of its events,
/// each one as it is and in the same order, and the other chunks bring none.
pub proof fn all_text_is_sent(chunks: Seq<Seq<u8>>, draws: Seq<Seq<Draw>>)
    ensures
        bring_texts(run(chunks, draws).sent, texts_of(events_of(chunks, draws))),
    decreases chunks.len(),
{
    if chunks.len() > 0 {
        let before = run(chunks.drop_last(), draws.drop_last());
        let bytes = before.state.bytes + chunks.last();
        let first = Chatted { bytes, ..before.state };
        let after = after_bytes(before.state, chunks.last(), draws.last());
        let none = Seq::<Seq<char>>::empty();
        all_text_is_sent(chunks.drop_last(), draws.drop_last());
        lemma_sent_is_taken_out(chunks.drop_last(), draws.drop_last());
        lemma_blocks_bring(first, none, draws.last());
        assert(none + texts_of(events_in(bytes)) =~= texts_of(events_in(bytes)));
        lemma_texts_together(events_of(chunks.drop_last(), draws.drop_last()), events_in(bytes));
        lemma_together(
            before.sent,
            texts_of(events_of(chunks.drop_last(), draws.drop_last())),
            after.out,
            texts_of(events_in(bytes)),
        );
    }
}

proof fn lemma_sent_is_taken_out(chunks: Seq<Seq<u8>>, draws: Seq<Seq<Draw>>)
    ensures
        run(chunks, draws).state.out == Seq::<Seq<char>>::empty(),
{
}

/// Whether an event begins a call of a function, or of a custom tool.
pub open spec fn begins(event: Told, kind: Seq<char>) -> bool {
    event.name == "response.output_item.added"@ && (event.data.get("item"@) matches Some(item)
        && item.str_at("type"@) == Some(kind))
}

/// How many calls some events begin.
pub open spec fn calls_in(events: Seq<Told>) -> nat
    decreases events.len(),
{
    if events.len() == 0 {
        0
    } else {
        calls_in(events.drop_last()) + if begins(events.last(), "function_call"@) || begins(
            events.last(),
            "custom_tool_call"@,
        ) {
            1nat
        } else {
            0nat
        }
    }
}

/// The arguments that an event brings for a call of a function.
pub open spec fn more_arguments(event: Told) -> Option<Seq<char>> {
    if event.name == "response.function_call_arguments.delta"@ || event.name
        == "function_call_arguments.delta"@ {
        match event.data.get("delta"@) {
            Some(delta) => delta.str_at("arguments"@),
            None => None,
        }
    } else {
        None
    }
}

/// Whether an event ends a call of a function: that call is complete, or all of them are sent.
pub open spec fn ends(event: Told, item: Seq<char>) -> bool {
    ||| is_end(event)
    ||| (event.name == "response.function_call_arguments.done"@ || event.name
        == "function_call_arguments.done"@) && item_id(event.data, "item_id"@) == item
}

/// The call of a function that some events have made so far for an item: it begins with the item,
/// and all the arguments that come for the item are appended to it until it ends.
pub open spec fn call_so_far(events: Seq<Told>, item: Seq<char>) -> Option<CallV>
    decreases events.len(),
{
    if events.len() == 0 {
        None
    } else {
        let before = call_so_far(events.drop_last(), item);
        let event = events.last();
        if begins(event, "function_call"@) && item_id(event.data.get("item"@)->Some_0, "id"@)
            == item {
            let begun = event.data.get("item"@)->Some_0;
            Some(
                CallV {
                    id: match begun.str_at("call_id"@) {
                        Some(id) => id,
                        None => item,
                    },
                    name: item_id(begun, "name"@),
                    arguments: Seq::empty(),
                    index: calls_in(events.drop_last()) as u32,
                },
            )
        } else if ends(event, item) {
            None
        } else {
            match (before, more_arguments(event)) {
                (Some(call), Some(more)) => if item_id(event.data, "item_id"@) == item {
                    Some(CallV { arguments: call.arguments + more, ..call })
                } else {
                    before
                },
                _ => before,
            }
        }
    }
}

spec fn keeps_calls(t: Chatted, events: Seq<Told>) -> bool {
    &&& t.count == calls_in(events)
    &&& forall|item: Seq<char>| #[trigger]
        open_call(t.calls, item) == call_so_far(events, item)
}

proof fn lemma_event_keeps_calls(t: Chatted, events: Seq<Told>, event: Told, draw: Draw)
    requires
        keeps_calls(t, events),
        calls_in(events.push(event)) <= u32::MAX,
    ensures
        keeps_calls(after_event(t, event.name, event.data, draw), events.push(event)),
{
    let all = events.push(event);
    let next = after_event(t, event.name, event.data, draw);
    assert(all.drop_last() =~= events);
    assert(all.last() == event);
    lemma_event_names_differ();
    crate::keys::lemma_keys_differ();
    reveal_strlit("");
    assert(""@ =~= Seq::empty());
    assert forall|item: Seq<char>| #[trigger] open_call(next.calls, item) == call_so_far(
        all,
        item,
    ) by {
        assert(open_call(t.calls, item) == call_so_far(events, item));
        let own = item_id(event.data, "item_id"@);
        assert(open_call(t.calls, own) == call_so_far(events, own));
        if begins(event, "function_call"@) || begins(event, "custom_tool_call"@) {
            let begun = event.data.get("item"@)->Some_0;
            added_items_begin_calls(t, event.data, draw, begun, item);
            if let Some(call) = open_call(next.calls, item) {
                if call.arguments.len() == 0 {
                    assert(call.arguments =~= Seq::empty());
                }
            }
        } else if let Some(more) = more_arguments(event) {
            let delta = event.data.get("delta"@)->Some_0;
            arguments_are_appended(t, event.name, event.data, draw, delta, more, item);
        } else if is_end(event) {
            completion_sends_the_rest(t, event.name, event.data, draw);
        } else if ends(event, item) {
            crate::chat_laws::lemma_without_keeps(t.calls, own, item);
        } else {
            crate::chat_laws::lemma_without_keeps(t.calls, own, item);
        }
    }
}

proof fn lemma_calls_in_grows(events: Seq<Told>, more: Seq<Told>)
    ensures
        calls_in(events) <= calls_in(events + more),
    decreases more.len(),
{
    if more.len() == 0 {
        assert(events + more =~= events);
    } else {
        lemma_calls_in_grows(events, more.drop_last());
        assert((events + more).drop_last() =~= events + more.drop_last());
    }
}

proof fn lemma_blocks_keep_calls(t: Chatted, events: Seq<Told>, draws: Seq<Draw>)
    requires
        keeps_calls(t, events),
        calls_in(events + events_in(t.bytes)) <= u32::MAX,
    ensures
        keeps_calls(after_blocks(t, draws), events + events_in(t.bytes)),
    decreases t.bytes.len(),
{
    if has_block(t.bytes) {
        crate::sse::lemma_next_break(t.bytes, 0);
        let block = lossy_text(first_block(t.bytes));
        let rest = behind_block(t.bytes);
        let cut = Chatted { bytes: rest, ..t };
        match block_event(block) {
            Some((name, data)) => {
                let event = Told { name, data };
                let next = after_event(cut, name, data, draws.first());
                crate::chat_stream::lemma_event_keeps_bytes(cut, name, data, draws.first());
                if is_end(event) {
                    assert(events + events_in(t.bytes) =~= events.push(event));
                    lemma_event_keeps_calls(cut, events, event, draws.first());
                } else {
                    assert(events + events_in(t.bytes) =~= events.push(event) + events_in(rest));
                    lemma_calls_in_grows(events.push(event), events_in(rest));
                    lemma_event_keeps_calls(cut, events, event, draws.first());
                    lemma_blocks_keep_calls(next, events.push(event), draws.drop_first());
                }
            },
            None => {
                lemma_blocks_keep_calls(cut, events, draws.drop_first());
            },
        }
    } else {
        assert(events + events_in(t.bytes) =~= events);
    }
}

/// The calls that are open at any time of a stream are those that its events have made so far: each
/// one with its identifier, its name, its place, and all the arguments that came for it.
pub proof fn open_calls_are_made_of_events(chunks: Seq<Seq<u8>>, draws: Seq<Seq<Draw>>)
    requires
        calls_in(events_of(chunks, draws)) <= u32::MAX,
    ensures
        forall|item: Seq<char>| #[trigger]
            open_call(run(chunks, draws).state.calls, item) == call_so_far(
                events_of(chunks, draws),
                item,
            ),
        run(chunks, draws).state.count == calls_in(events_of(chunks, draws)),
{
    lemma_run_keeps_calls(chunks, draws);
}

proof fn lemma_run_keeps_calls(chunks: Seq<Seq<u8>>, draws: Seq<Seq<Draw>>)
    requires
        calls_in(events_of(chunks, draws)) <= u32::MAX,
    ensures
        keeps_calls(run(chunks, draws).state, events_of(chunks, draws)),
    decreases chunks.len(),
{
    if chunks.len() > 0 {
        let before = run(chunks.drop_last(), draws.drop_last());
        let events = events_of(chunks.drop_last(), draws.drop_last());
        let bytes = before.state.bytes + chunks.last();
        lemma_calls_in_grows(events, events_in(bytes));
        lemma_run_keeps_calls(chunks.drop_last(), draws.drop_last());
        lemma_blocks_keep_calls(Chatted { bytes, ..before.state }, events, draws.last());
    }
}

/// Whether an event begins a call.
pub open spec fn is_beginning(event: Told) -> bool {
    event.name == "response.output_item.added"@ && (event.data.get("item"@) matches Some(item) && (
    item.str_at("type"@) == Some("function_call"@) || item.str_at("type"@) == Some(
        "custom_tool_call"@,
    )))
}

/// How many of some events begin a call.
pub open spec fn beginnings(events: Seq<Told>) -> nat
    decreases events.len(),
{
    if events.len() == 0 {
        0
    } else {
        beginnings(events.drop_first()) + if is_beginning(events.first()) {
            1nat
        } else {
            0nat
        }
    }
}

proof fn lemma_beginnings(bytes: Seq<u8>)
    ensures
        calls_begun(bytes) == beginnings(events_in(bytes)),
    decreases bytes.len(),
{
    lemma_event_names_differ();
    if has_block(bytes) {
        crate::sse::lemma_next_break(bytes, 0);
        lemma_beginnings(behind_block(bytes));
        if let Some((name, data)) = block_event(lossy_text(first_block(bytes))) {
            let event = Told { name, data };
            let rest = events_in(behind_block(bytes));
            assert((seq![event] + rest).drop_first() =~= rest);
            assert(seq![event].drop_first() =~= Seq::empty());
            assert(beginnings(Seq::<Told>::empty()) == 0);
        }
    }
}

/// There is room for some more bytes where the calls so far and those that the events in the bytes
/// begin can all be counted.
pub proof fn room_is_for_the_calls_that_begin(t: Chatted, chunk: Seq<u8>)
    ensures
        has_room(t, chunk) <==> t.count + beginnings(events_in(t.bytes + chunk)) <= u32::MAX,
{
    lemma_beginnings(t.bytes + chunk);
}

} // verus!
