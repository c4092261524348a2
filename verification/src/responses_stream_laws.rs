//! What holds of every Responses stream that is made from a Chat Completions stream.

use vstd::prelude::*;
use crate::json::{or_default, JsonV};
use crate::responses_event::{CallV, EventV};
use crate::responses_stream::{
    after_blocks, after_bytes, after_choices, after_content, after_delta, after_details,
    after_reasoning, after_text, announces_end, call_at, call_events, call_part, completed_call,
    ending_events, final_events, first_call_place, merged, placed_part, reframed, sending, settled,
    some_text, started, unknown_call, usage_in, with_part, with_parts, Turned,
};
use crate::sse::{blocks, last_value, leftover, lossy_text};
use crate::text::trim;
use crate::thinking::{filtered, settled_text, unfiltered, without_thinking};
use crate::value::parsed;

verus! {

/// The state after some chunks.
pub open spec fn after_chunks(t: Turned, chunks: Seq<Seq<u8>>) -> Turned
    decreases chunks.len(),
{
    if chunks.len() == 0 {
        t
    } else {
        after_bytes(after_chunks(t, chunks.drop_last()), chunks.last())
    }
}

/// All the events of a stream.
pub open spec fn transcript(id: Seq<char>, chunks: Seq<Seq<u8>>) -> Seq<EventV> {
    let t = after_chunks(started(id), chunks);
    t.out + final_events(t)
}

/// The bytes of some chunks.
pub open spec fn all_bytes(chunks: Seq<Seq<u8>>) -> Seq<u8>
    decreases chunks.len(),
{
    if chunks.len() == 0 {
        Seq::empty()
    } else {
        all_bytes(chunks.drop_last()) + chunks.last()
    }
}

proof fn lemma_blocks_in_turn(t: Turned, a: Seq<Seq<u8>>, b: Seq<Seq<u8>>)
    ensures
        after_blocks(t, a + b) == after_blocks(after_blocks(t, a), b),
    decreases b.len(),
{
    if b.len() == 0 {
        assert(a + b =~= a);
    } else {
        assert((a + b).drop_last() =~= a + b.drop_last());
        lemma_blocks_in_turn(t, a, b.drop_last());
    }
}

/// It makes no difference whether bytes arrive together or one part after the other.
pub proof fn parts_make_no_difference(t: Turned, a: Seq<u8>, b: Seq<u8>)
    ensures
        after_bytes(after_bytes(t, a), b) == after_bytes(t, a + b),
{
    let none = Seq::<EventV>::empty();
    let first = t.bytes + a;
    let middle = after_bytes(t, a);
    let plain = after_blocks(t, blocks(first));
    crate::sse::lemma_blocks_of_parts(first, b);
    assert(t.bytes + (a + b) =~= first + b);
    lemma_blocks_in_turn(t, blocks(first), blocks(leftover(first) + b));
    assert(none + plain.out =~= plain.out);
    assert(middle == reframed(plain, leftover(first), none));
    crate::responses_stream::lemma_blocks_reframed(
        plain,
        leftover(first),
        none,
        blocks(leftover(first) + b),
    );
    let last = after_blocks(plain, blocks(leftover(first) + b));
    assert(none + last.out =~= last.out);
}

/// How a stream is cut into chunks makes no difference to its events.
pub proof fn chunks_make_no_difference(id: Seq<char>, chunks: Seq<Seq<u8>>)
    ensures
        transcript(id, chunks) == transcript(id, seq![all_bytes(chunks)]),
{
    lemma_chunks_joined(id, chunks);
    let one = seq![all_bytes(chunks)];
    assert(one.drop_last() =~= Seq::empty());
    assert(after_chunks(started(id), one) == after_bytes(started(id), all_bytes(chunks))) by {
        reveal_with_fuel(after_chunks, 2);
    }
}

/// Chunks one after the other do what their bytes do at once.
pub proof fn lemma_chunks_joined(id: Seq<char>, chunks: Seq<Seq<u8>>)
    ensures
        after_chunks(started(id), chunks) == after_bytes(started(id), all_bytes(chunks)),
    decreases chunks.len(),
{
    if chunks.len() == 0 {
        let t = started(id);
        assert(t.bytes + Seq::<u8>::empty() =~= Seq::empty());
        assert(blocks(Seq::<u8>::empty()) =~= Seq::empty());
        assert(leftover(Seq::<u8>::empty()) =~= Seq::empty());
    } else {
        lemma_chunks_joined(id, chunks.drop_last());
        parts_make_no_difference(started(id), all_bytes(chunks.drop_last()), chunks.last());
    }
}

/// A state whose events have been sent.
pub open spec fn drained(t: Turned) -> Turned {
    Turned { out: Seq::empty(), ..t }
}

/// The events that are sent for some chunks one after the other, and at the end.
pub open spec fn sent_in_turn(t: Turned, chunks: Seq<Seq<u8>>) -> Seq<EventV>
    decreases chunks.len(),
{
    if chunks.len() == 0 {
        final_events(t)
    } else {
        let next = after_bytes(t, chunks.first());
        next.out + sent_in_turn(drained(next), chunks.drop_first())
    }
}

proof fn lemma_bytes_drained(t: Turned, chunk: Seq<u8>)
    ensures
        after_bytes(t, chunk) == reframed(
            after_bytes(drained(t), chunk),
            leftover(t.bytes + chunk),
            t.out,
        ),
{
    let list = blocks(t.bytes + chunk);
    assert(t.out + Seq::<EventV>::empty() =~= t.out);
    assert(t == reframed(drained(t), t.bytes, t.out));
    crate::responses_stream::lemma_blocks_reframed(drained(t), t.bytes, t.out, list);
}

proof fn lemma_chunks_from_first(t: Turned, chunks: Seq<Seq<u8>>)
    requires
        chunks.len() > 0,
    ensures
        after_chunks(t, chunks) == after_chunks(
            after_bytes(t, chunks.first()),
            chunks.drop_first(),
        ),
    decreases chunks.len(),
{
    if chunks.len() == 1 {
        assert(chunks.drop_last() =~= Seq::empty());
        assert(chunks.drop_first() =~= Seq::empty());
    } else {
        lemma_chunks_from_first(t, chunks.drop_last());
        assert(chunks.drop_last().drop_first() =~= chunks.drop_first().drop_last());
    }
}

proof fn lemma_sent_in_turn(t: Turned, chunks: Seq<Seq<u8>>)
    ensures
        ({
            let last = after_chunks(t, chunks);
            last.out + final_events(last) == t.out + sent_in_turn(drained(t), chunks)
        }),
    decreases chunks.len(),
{
    if chunks.len() > 0 {
        let next = after_bytes(t, chunks.first());
        let apart = after_bytes(drained(t), chunks.first());
        lemma_bytes_drained(t, chunks.first());
        lemma_chunks_from_first(t, chunks);
        lemma_sent_in_turn(next, chunks.drop_first());
        assert(drained(next) == drained(apart));
        assert(next.out + sent_in_turn(drained(next), chunks.drop_first()) =~= t.out + (apart.out
            + sent_in_turn(drained(apart), chunks.drop_first())));
    } else {
        assert(final_events(t) == final_events(drained(t)));
    }
}

/// What is sent for the chunks one after the other is the whole stream.
pub proof fn sent_events_are_the_transcript(id: Seq<char>, chunks: Seq<Seq<u8>>)
    ensures
        transcript(id, chunks) == started(id).out + sent_in_turn(drained(started(id)), chunks),
{
    lemma_sent_in_turn(started(id), chunks);
}

/// The text that some events bring, put together.
pub open spec fn text_of(events: Seq<EventV>) -> Seq<char>
    decreases events.len(),
{
    if events.len() == 0 {
        Seq::empty()
    } else {
        let before = text_of(events.drop_last());
        match events.last() {
            EventV::TextDelta { delta } => before + delta,
            _ => before,
        }
    }
}

/// Before any text, the item for the text has begun.
pub open spec fn text_has_item(events: Seq<EventV>) -> bool {
    forall|i: int|
        0 <= i < events.len() && (#[trigger] events[i]) is TextDelta ==> events.take(i).contains(
            EventV::TextAdded,
        )
}

/// Before any reasoning, the item for it has begun at the same place.
pub open spec fn reasoning_has_item(events: Seq<EventV>) -> bool {
    forall|i: int|
        0 <= i < events.len() ==> ((#[trigger] events[i]) matches EventV::ReasoningDelta {
            place,
            ..
        } ==> events.take(i).contains(EventV::ReasoningAdded { place }))
}

/// The item for the text begins at most once, and the first text follows it directly.
pub open spec fn text_item_begins_once(events: Seq<EventV>) -> bool {
    &&& forall|i: int|
        0 <= i < events.len() && (#[trigger] events[i]) is TextAdded ==> i + 1 < events.len()
            && events[i + 1] is TextDelta
    &&& forall|i: int, j: int|
        0 <= i < j < events.len() && (#[trigger] events[i]) is TextAdded ==> !((
        #[trigger] events[j]) is TextAdded)
}

/// The item for the reasoning begins at most once, and the first reasoning follows it directly.
pub open spec fn reasoning_item_begins_once(events: Seq<EventV>) -> bool {
    &&& forall|i: int|
        0 <= i < events.len() && (#[trigger] events[i]) is ReasoningAdded ==> i + 1 < events.len()
            && events[i + 1] is ReasoningDelta
    &&& forall|i: int, j: int|
        0 <= i < j < events.len() && (#[trigger] events[i]) is ReasoningAdded ==> !((
        #[trigger] events[j]) is ReasoningAdded)
}

/// An event that ends a stream.
pub open spec fn is_terminal(event: EventV) -> bool {
    event is Completed || event is Failed || event is Done
}

/// An event that completes an item.
pub open spec fn is_completion(event: EventV) -> bool {
    event is TextDone || event is ReasoningDone || event is CallAdded || event is ArgumentsDone
        || event is CallDone
}

/// The indices of some calls increase.
pub open spec fn increasing(calls: Seq<CallV>) -> bool {
    forall|i: int, j: int|
        0 <= i < j < calls.len() ==> (#[trigger] calls[i]).index < (#[trigger] calls[j]).index
}

/// Every call has an identifier.
pub open spec fn identified(calls: Seq<CallV>) -> bool {
    forall|i: int| 0 <= i < calls.len() ==> (#[trigger] calls[i]).id.len() > 0
}

/// What holds of the state at any time.
#[verifier::opaque]
pub open spec fn consistent(t: Turned) -> bool {
    &&& t.out.len() >= 2
    &&& t.out[0] == (EventV::Created { id: t.id })
    &&& t.out[1] == (EventV::InProgress { id: t.id })
    &&& text_of(t.out) == or_default(t.text, Seq::empty())
    &&& (t.text is Some ==> t.out.contains(EventV::TextAdded))
    &&& (t.text is None ==> forall|i: int|
        0 <= i < t.out.len() ==> !((#[trigger] t.out[i]) is TextAdded))
    &&& text_has_item(t.out)
    &&& text_item_begins_once(t.out)
    &&& (t.reasoning is None ==> forall|i: int|
        0 <= i < t.out.len() ==> !((#[trigger] t.out[i]) is ReasoningAdded))
    &&& reasoning_item_begins_once(t.out)
    &&& (t.reasoning matches Some(place) ==> t.out.contains(EventV::ReasoningAdded { place }))
    &&& reasoning_has_item(t.out)
    &&& forall|i: int|
        0 <= i < t.out.len() ==> !is_terminal(#[trigger] t.out[i]) && !is_completion(t.out[i])
    &&& increasing(t.calls)
    &&& identified(t.calls)
}

proof fn lemma_still_consistent(t: Turned, next: Turned)
    requires
        consistent(t),
        next.id == t.id,
        next.out == t.out,
        next.text == t.text,
        next.reasoning == t.reasoning,
        next.calls == t.calls || (increasing(next.calls) && identified(next.calls)),
    ensures
        consistent(next),
{
    reveal(consistent);
}

proof fn lemma_sending(t: Turned, event: EventV)
    requires
        text_has_item(t.out),
        reasoning_has_item(t.out),
        event is TextDelta ==> t.out.contains(EventV::TextAdded),
        event matches EventV::ReasoningDelta { place, .. } ==> t.out.contains(
            EventV::ReasoningAdded { place },
        ),
    ensures
        text_has_item(sending(t, event).out),
        reasoning_has_item(sending(t, event).out),
        sending(t, event).out.contains(event),
        t.out.contains(EventV::TextAdded) ==> sending(t, event).out.contains(EventV::TextAdded),
        forall|place: u64|
            t.out.contains(EventV::ReasoningAdded { place }) ==> #[trigger] sending(
                t,
                event,
            ).out.contains(EventV::ReasoningAdded { place }),
        text_of(sending(t, event).out) == match event {
            EventV::TextDelta { delta } => text_of(t.out) + delta,
            _ => text_of(t.out),
        },
{
    let out = t.out;
    let next = sending(t, event).out;
    assert(next.drop_last() =~= out);
    assert(next[out.len() as int] == event);
    assert forall|e: EventV| out.contains(e) implies #[trigger] next.contains(e) by {
        let j = choose|j: int| 0 <= j < out.len() && out[j] == e;
        assert(next[j] == e);
    }
    assert forall|i: int| 0 <= i < next.len() && (#[trigger] next[i]) is TextDelta implies next.take(
        i,
    ).contains(EventV::TextAdded) by {
        assert(next.take(i) =~= out.take(i));
        if i < out.len() {
            assert(out[i] is TextDelta);
        } else {
            assert(out.take(i) =~= out);
        }
    }
    assert forall|i: int| 0 <= i < next.len() implies ((
    #[trigger] next[i]) matches EventV::ReasoningDelta { place, .. } ==> next.take(i).contains(
        EventV::ReasoningAdded { place },
    )) by {
        assert(next.take(i) =~= out.take(i));
        if i < out.len() {
            assert(out[i] == next[i]);
        } else {
            assert(out.take(i) =~= out);
        }
    }
}

proof fn lemma_text_consistent(t: Turned, delta: Seq<char>)
    requires
        consistent(t),
    ensures
        consistent(after_text(t, delta)),
{
    reveal(consistent);
    let open = if t.text is Some {
        t
    } else {
        sending(t, EventV::TextAdded)
    };
    let spoken = Turned { text: Some(or_default(t.text, Seq::empty()) + delta), ..open };
    lemma_sending(t, EventV::TextAdded);
    lemma_sending(spoken, EventV::TextDelta { delta });
    let next = after_text(t, delta).out;
    let n = t.out.len();
    assert forall|i: int| 0 <= i < n implies #[trigger] next[i] == t.out[i] by {}
    assert(next.last() is TextDelta);
}

proof fn lemma_content_consistent(t: Turned, content: Seq<char>)
    requires
        consistent(t),
    ensures
        consistent(after_content(t, content)),
{
    reveal(consistent);
    let f = filtered(t.thinking, content);
    if f.text.len() > 0 {
        lemma_text_consistent(Turned { thinking: f.at, ..t }, f.text);
    }
}

proof fn lemma_reasoning_consistent(t: Turned, delta: Seq<char>)
    requires
        consistent(t),
    ensures
        consistent(after_reasoning(t, delta)),
{
    reveal(consistent);
    let place = or_default(
        t.reasoning,
        if t.text is Some {
            1u64
        } else {
            0u64
        },
    );
    let open = if t.reasoning is Some {
        t
    } else {
        sending(t, EventV::ReasoningAdded { place })
    };
    let reasoned = Turned { reasoning: Some(place), ..open };
    lemma_sending(t, EventV::ReasoningAdded { place });
    lemma_sending(reasoned, EventV::ReasoningDelta { place, delta });
    let next = after_reasoning(t, delta).out;
    let n = t.out.len();
    assert forall|i: int| 0 <= i < n implies #[trigger] next[i] == t.out[i] by {}
    assert(next.last() is ReasoningDelta);
}

proof fn lemma_details_consistent(t: Turned, details: Seq<JsonV>)
    requires
        consistent(t),
    ensures
        consistent(after_details(t, details)),
    decreases details.len(),
{
    if details.len() > 0 {
        lemma_details_consistent(t, details.drop_last());
        if let Some(delta) = some_text(details.last().str_at("text"@)) {
            lemma_reasoning_consistent(after_details(t, details.drop_last()), delta);
        }
    }
}

proof fn lemma_placed_increasing(calls: Seq<CallV>, part: CallV)
    requires
        increasing(calls),
    ensures
        increasing(placed_part(calls, part)),
        placed_part(calls, part).len() > 0,
        placed_part(calls, part).last().index == part.index || (calls.len() > 0 && placed_part(
            calls,
            part,
        ).last().index == calls.last().index),
        placed_part(calls, part).last().index >= part.index,
    decreases calls.len(),
{
    let next = placed_part(calls, part);
    if calls.len() == 0 {
    } else {
        let shorter = calls.drop_last();
        assert(increasing(shorter)) by {
            assert forall|i: int, j: int| 0 <= i < j < shorter.len() implies (
            #[trigger] shorter[i]).index < (#[trigger] shorter[j]).index by {
                assert(calls[i].index < calls[j].index);
            }
        }
        if calls.last().index < part.index {
            assert forall|i: int, j: int| 0 <= i < j < next.len() implies (
            #[trigger] next[i]).index < (#[trigger] next[j]).index by {
                if j < calls.len() {
                    assert(calls[i].index < calls[j].index);
                } else if i < calls.len() - 1 {
                    assert(calls[i].index < calls[calls.len() - 1].index);
                }
            }
        } else if calls.last().index == part.index {
            assert forall|i: int, j: int| 0 <= i < j < next.len() implies (
            #[trigger] next[i]).index < (#[trigger] next[j]).index by {
                assert(calls[i].index < calls[j].index);
            }
        } else {
            lemma_placed_increasing(shorter, part);
            let front = placed_part(shorter, part);
            if shorter.len() > 0 {
                assert(calls[shorter.len() - 1].index < calls[calls.len() - 1].index);
            }
            assert(front.last().index < calls.last().index);
            assert forall|i: int, j: int| 0 <= i < j < next.len() implies (
            #[trigger] next[i]).index < (#[trigger] next[j]).index by {
                if j < front.len() {
                    assert(front[i].index < front[j].index);
                } else if i < front.len() - 1 {
                    assert(front[i].index < front[front.len() - 1].index);
                }
            }
        }
    }
}

proof fn lemma_shorter_increasing(calls: Seq<CallV>)
    requires
        increasing(calls),
        calls.len() > 0,
    ensures
        increasing(calls.drop_last()),
        calls.len() > 1 ==> calls.drop_last().last().index < calls.last().index,
{
    let shorter = calls.drop_last();
    assert forall|i: int, j: int| 0 <= i < j < shorter.len() implies (#[trigger] shorter[i]).index < (
    #[trigger] shorter[j]).index by {
        assert(calls[i].index < calls[j].index);
    }
    if calls.len() > 1 {
        assert(calls[calls.len() - 2].index < calls[calls.len() - 1].index);
    }
}

proof fn lemma_call_below(calls: Seq<CallV>, index: u32)
    requires
        increasing(calls),
        calls.len() > 0 ==> calls.last().index < index,
    ensures
        call_at(calls, index) is None,
    decreases calls.len(),
{
    if calls.len() > 0 {
        lemma_shorter_increasing(calls);
        lemma_call_below(calls.drop_last(), index);
    }
}

proof fn lemma_placed_identified(calls: Seq<CallV>, part: CallV)
    requires
        increasing(calls),
        identified(calls),
        part.id.len() > 0 || call_at(calls, part.index) is Some,
    ensures
        identified(placed_part(calls, part)),
    decreases calls.len(),
{
    let next = placed_part(calls, part);
    if calls.len() == 0 || calls.last().index < part.index {
        lemma_call_below(calls, part.index);
        assert forall|i: int| 0 <= i < next.len() implies (#[trigger] next[i]).id.len() > 0 by {
            if i < calls.len() {
                assert(calls[i].id.len() > 0);
            }
        }
    } else {
        let shorter = calls.drop_last();
        lemma_shorter_increasing(calls);
        assert forall|i: int| 0 <= i < shorter.len() implies (
        #[trigger] shorter[i]).id.len() > 0 by {
            assert(calls[i].id.len() > 0);
        }
        assert(calls[calls.len() - 1].id.len() > 0);
        if calls.last().index == part.index {
            assert forall|i: int| 0 <= i < next.len() implies (#[trigger] next[i]).id.len() > 0 by {
                if i < shorter.len() {
                    assert(shorter[i].id.len() > 0);
                }
            }
        } else {
            lemma_placed_identified(shorter, part);
            let front = placed_part(shorter, part);
            assert forall|i: int| 0 <= i < next.len() implies (#[trigger] next[i]).id.len() > 0 by {
                if i < front.len() {
                    assert(front[i].id.len() > 0);
                }
            }
        }
    }
}

/// One more part keeps the order of the calls.
pub proof fn lemma_part_increasing(calls: Seq<CallV>, part: CallV)
    requires
        increasing(calls),
    ensures
        increasing(with_part(calls, part)),
{
    lemma_placed_increasing(calls, part);
}

proof fn lemma_parts_increasing(calls: Seq<CallV>, parts: Seq<JsonV>)
    requires
        increasing(calls),
        identified(calls),
    ensures
        increasing(with_parts(calls, parts)),
        identified(with_parts(calls, parts)),
    decreases parts.len(),
{
    if parts.len() > 0 {
        let before = with_parts(calls, parts.drop_last());
        let part = call_part(parts.last());
        lemma_parts_increasing(calls, parts.drop_last());
        lemma_placed_increasing(before, part);
        if part.id.len() > 0 || call_at(before, part.index) is Some {
            lemma_placed_identified(before, part);
        }
    }
}

proof fn lemma_delta_consistent(t: Turned, delta: JsonV)
    requires
        consistent(t),
    ensures
        consistent(after_delta(t, delta)),
{
    let content = delta.str_at("content"@);
    let reasoning = some_text(delta.str_at("reasoning_content"@));
    let spoken = match content {
        Some(text) => after_content(t, text),
        None => t,
    };
    let reasoned = match reasoning {
        Some(text) => after_reasoning(spoken, text),
        None => spoken,
    };
    let detailed = match delta.array_at("reasoning_details"@) {
        Some(details) => after_details(reasoned, details),
        None => reasoned,
    };
    if let Some(text) = content {
        lemma_content_consistent(t, text);
    }
    if let Some(text) = reasoning {
        lemma_reasoning_consistent(spoken, text);
    }
    if let Some(details) = delta.array_at("reasoning_details"@) {
        lemma_details_consistent(reasoned, details);
    }
    if let Some(parts) = delta.array_at("tool_calls"@) {
        lemma_calls_consistent(detailed, parts);
    }
}

proof fn lemma_calls_consistent(t: Turned, parts: Seq<JsonV>)
    requires
        consistent(t),
    ensures
        consistent(Turned { calls: with_parts(t.calls, parts), ..t }),
{
    assert(increasing(t.calls) && identified(t.calls)) by {
        reveal(consistent);
    }
    lemma_parts_increasing(t.calls, parts);
    lemma_still_consistent(t, Turned { calls: with_parts(t.calls, parts), ..t });
}

proof fn lemma_choices_consistent(t: Turned, choices: Seq<JsonV>)
    requires
        consistent(t),
    ensures
        consistent(after_choices(t, choices)),
    decreases choices.len(),
{
    if choices.len() > 0 {
        let before = after_choices(t, choices.drop_last());
        lemma_choices_consistent(t, choices.drop_last());
        if let Some(delta) = choices.last().get("delta"@) {
            let noted = Turned { ended: before.ended || announces_end(choices.last()), ..before };
            lemma_still_consistent(before, noted);
            lemma_delta_consistent(noted, delta);
        }
    }
}

proof fn lemma_blocks_consistent(t: Turned, list: Seq<Seq<u8>>)
    requires
        consistent(t),
    ensures
        consistent(after_blocks(t, list)),
    decreases list.len(),
{
    if list.len() > 0 {
        let before = after_blocks(t, list.drop_last());
        lemma_blocks_consistent(t, list.drop_last());
        lemma_still_consistent(before, Turned { ended: true, ..before });
        if let Some(data) = last_value(lossy_text(list.last()), "data"@) {
            if let Some(value) = parsed(data) {
                let counted = Turned {
                    usage: crate::json::either(before.usage, usage_in(value)),
                    ..before
                };
                lemma_still_consistent(before, counted);
                if let Some(choices) = value.array_at("choices"@) {
                    lemma_choices_consistent(counted, choices);
                }
            }
        }
    }
}

/// Bytes keep the state consistent.
pub proof fn bytes_keep_consistent(t: Turned, chunk: Seq<u8>)
    requires
        consistent(t),
    ensures
        consistent(after_bytes(t, chunk)),
{
    let list = blocks(t.bytes + chunk);
    lemma_blocks_consistent(t, list);
    lemma_still_consistent(after_blocks(t, list), after_bytes(t, chunk));
}

/// The state is consistent at any time.
pub proof fn always_consistent(id: Seq<char>, chunks: Seq<Seq<u8>>)
    ensures
        consistent(after_chunks(started(id), chunks)),
    decreases chunks.len(),
{
    if chunks.len() == 0 {
        let t = started(id);
        reveal(consistent);
        assert(text_of(t.out) =~= Seq::empty()) by {
            reveal_with_fuel(text_of, 3);
        }
    } else {
        always_consistent(id, chunks.drop_last());
        bytes_keep_consistent(after_chunks(started(id), chunks.drop_last()), chunks.last());
    }
}

proof fn lemma_announcement_stays(id: Seq<char>, chunks: Seq<Seq<u8>>)
    ensures
        after_chunks(started(id), chunks).id == id,
    decreases chunks.len(),
{
    reveal(consistent);
    always_consistent(id, chunks);
    if chunks.len() > 0 {
        let before = after_chunks(started(id), chunks.drop_last());
        lemma_announcement_stays(id, chunks.drop_last());
        always_consistent(id, chunks.drop_last());
        lemma_bytes_drained(before, chunks.last());
        assert(after_chunks(started(id), chunks).out[0] == before.out[0]);
    }
}

/// The state at the end of a stream.
pub open spec fn at_end(id: Seq<char>, chunks: Seq<Seq<u8>>) -> Turned {
    settled(after_chunks(started(id), chunks))
}

proof fn lemma_settled(t: Turned)
    requires
        consistent(t),
    ensures
        consistent(settled(t)),
        settled(t).id == t.id,
        settled(t).ended == t.ended,
        settled(t).usage == t.usage,
{
    reveal(consistent);
    let held = settled_text(t.thinking);
    if held.len() > 0 {
        lemma_text_consistent(t, held);
    }
}

proof fn lemma_settled_apart(t: Turned)
    ensures
        t.out + final_events(t) == settled(t).out + ending_events(settled(t)),
{
    let held = settled_text(t.thinking);
    let apart = settled(drained(t));
    assert(t.out + Seq::<EventV>::empty() =~= t.out);
    assert(t == reframed(drained(t), t.bytes, t.out));
    crate::responses_stream::lemma_text_reframed(drained(t), t.bytes, t.out, held);
    assert(settled(t) == reframed(apart, t.bytes, t.out));
    assert(ending_events(apart) == ending_events(settled(t)));
    assert(t.out + (apart.out + ending_events(apart)) =~= (t.out + apart.out) + ending_events(
        apart,
    ));
}

/// What holds at the end of a stream.
pub proof fn lemma_at_end(id: Seq<char>, chunks: Seq<Seq<u8>>)
    ensures
        consistent(at_end(id, chunks)),
        at_end(id, chunks).id == id,
        at_end(id, chunks).ended == after_chunks(started(id), chunks).ended,
        at_end(id, chunks).usage == after_chunks(started(id), chunks).usage,
        transcript(id, chunks) == at_end(id, chunks).out + ending_events(at_end(id, chunks)),
{
    let t = after_chunks(started(id), chunks);
    always_consistent(id, chunks);
    lemma_announcement_stays(id, chunks);
    lemma_settled(t);
    lemma_settled_apart(t);
}

/// A stream begins with the creation of the response and with its being in progress, under the same
/// identifier.
pub proof fn stream_begins_with_announcement(id: Seq<char>, chunks: Seq<Seq<u8>>)
    ensures
        transcript(id, chunks).len() > 2,
        transcript(id, chunks)[0] == (EventV::Created { id }),
        transcript(id, chunks)[1] == (EventV::InProgress { id }),
{
    reveal(consistent);
    lemma_at_end(id, chunks);
    lemma_ending_events(at_end(id, chunks));
}

/// The place in a list of call events for each call: three events, all with the same call, and
/// with consecutive places.
pub proof fn calls_are_reported_in_turn(calls: Seq<CallV>, base: int, k: int)
    requires
        0 <= k < calls.len(),
    ensures
        call_events(calls, base).len() == 3 * calls.len(),
        ({
            let place = (base + k) as u64;
            let call = completed_call(calls[k]);
            &&& call_events(calls, base)[3 * k] == (EventV::CallAdded { place, call })
            &&& call_events(calls, base)[3 * k + 1] == (EventV::ArgumentsDone { place, call })
            &&& call_events(calls, base)[3 * k + 2] == (EventV::CallDone { place, call })
        }),
    decreases calls.len(),
{
    lemma_call_events(calls.drop_last(), base);
    if k < calls.len() - 1 {
        calls_are_reported_in_turn(calls.drop_last(), base, k);
    }
}

proof fn lemma_call_events(calls: Seq<CallV>, base: int)
    ensures
        call_events(calls, base).len() == 3 * calls.len(),
        forall|i: int|
            0 <= i < call_events(calls, base).len() ==> {
                let event = #[trigger] call_events(calls, base)[i];
                event is CallAdded || event is ArgumentsDone || event is CallDone
            },
    decreases calls.len(),
{
    if calls.len() > 0 {
        lemma_call_events(calls.drop_last(), base);
    }
}

/// A call is never reported with empty arguments.
pub proof fn arguments_are_never_empty(call: CallV)
    ensures
        completed_call(call).arguments.len() > 0,
{
    reveal_strlit("{}");
}

/// What the events at the end of a stream are.
pub proof fn lemma_ending_events(t: Turned)
    ensures
        ending_events(t).len() > 0,
        t.ended ==> ending_events(t).last() == (EventV::Completed { id: t.id, usage: t.usage }),
        t.ended ==> forall|i: int|
            0 <= i < ending_events(t).len() - 1 ==> is_completion(#[trigger] ending_events(t)[i]),
        forall|i: int|
            0 <= i < ending_events(t).len() ==> (#[trigger] ending_events(t)[i] matches EventV::TextDone {
                text,
            } ==> t.text == Some(text)),
{
    lemma_call_events(t.calls, first_call_place(t));
}

proof fn lemma_text_of_closed(events: Seq<EventV>, more: Seq<EventV>)
    requires
        forall|i: int|
            0 <= i < more.len() ==> is_terminal(#[trigger] more[i]) || is_completion(more[i]),
    ensures
        text_of(events + more) == text_of(events),
    decreases more.len(),
{
    if more.len() == 0 {
        assert(events + more =~= events);
    } else {
        assert((events + more).drop_last() =~= events + more.drop_last());
        assert(is_terminal(more[more.len() - 1]) || is_completion(more[more.len() - 1]));
        assert forall|i: int| 0 <= i < more.drop_last().len() implies is_terminal(
            #[trigger] more.drop_last()[i],
        ) || is_completion(more.drop_last()[i]) by {
            assert(more[i] == more.drop_last()[i]);
        }
        lemma_text_of_closed(events, more.drop_last());
    }
}

/// Before any text is sent, the item for the text has begun; before any reasoning is sent, the
/// item for it has begun at the same place. Each item begins at most once, and its first content
/// follows directly.
pub proof fn items_begin_before_their_content(id: Seq<char>, chunks: Seq<Seq<u8>>)
    ensures
        text_has_item(transcript(id, chunks)),
        text_item_begins_once(transcript(id, chunks)),
        reasoning_has_item(transcript(id, chunks)),
        reasoning_item_begins_once(transcript(id, chunks)),
{
    reveal(consistent);
    let t = at_end(id, chunks);
    let all = transcript(id, chunks);
    lemma_at_end(id, chunks);
    lemma_ending_events(t);
    let n = t.out.len() as int;
    assert forall|i: int| 0 <= i < all.len() implies #[trigger] all[i] == if i < n {
        t.out[i]
    } else {
        ending_events(t)[i - n]
    } by {}
    assert forall|i: int| n <= i < all.len() implies is_terminal(#[trigger] all[i])
        || is_completion(all[i]) by {
        if t.ended && i < all.len() - 1 {
            assert(is_completion(ending_events(t)[i - n]));
        }
    }
    assert forall|i: int| 0 <= i < all.len() && (#[trigger] all[i]) is TextDelta implies all.take(
        i,
    ).contains(EventV::TextAdded) by {
        if i < t.out.len() {
            assert(t.out[i] is TextDelta);
            assert(all.take(i) =~= t.out.take(i));
        } else {
            assert(all[i] == ending_events(t)[i - t.out.len()]);
        }
    }
    assert forall|i: int| 0 <= i < all.len() implies ((
    #[trigger] all[i]) matches EventV::ReasoningDelta { place, .. } ==> all.take(i).contains(
        EventV::ReasoningAdded { place },
    )) by {
        if i < t.out.len() {
            assert(t.out[i] == all[i]);
            assert(all.take(i) =~= t.out.take(i));
        } else {
            assert(all[i] == ending_events(t)[i - t.out.len()]);
        }
    }
}

/// The item for the text is completed with all the text that was sent.
pub proof fn completed_text_is_all_text(id: Seq<char>, chunks: Seq<Seq<u8>>)
    ensures
        forall|i: int|
            0 <= i < transcript(id, chunks).len() ==> (#[trigger] transcript(
                id,
                chunks,
            )[i] matches EventV::TextDone { text } ==> text == text_of(transcript(id, chunks))),
{
    reveal(consistent);
    let t = at_end(id, chunks);
    let all = transcript(id, chunks);
    let last = ending_events(t);
    lemma_at_end(id, chunks);
    lemma_ending_events(t);
    assert forall|i: int| 0 <= i < last.len() implies is_terminal(#[trigger] last[i])
        || is_completion(last[i]) by {
        if t.ended && i < last.len() - 1 {
            assert(is_completion(ending_events(t)[i]));
        }
    }
    lemma_text_of_closed(t.out, last);
    assert forall|i: int| 0 <= i < all.len() implies (#[trigger] all[i] matches EventV::TextDone {
        text,
    } ==> text == text_of(all)) by {
        if i < t.out.len() {
            assert(t.out[i] == all[i]);
        } else {
            assert(all[i] == ending_events(t)[i - t.out.len()]);
        }
    }
}

/// A stream whose end was announced ends with the completion of the response, and no other event
/// ends it.
pub proof fn announced_end_completes(id: Seq<char>, chunks: Seq<Seq<u8>>)
    requires
        after_chunks(started(id), chunks).ended,
    ensures
        ({
            let t = after_chunks(started(id), chunks);
            let all = transcript(id, chunks);
            &&& all.last() == (EventV::Completed { id, usage: t.usage })
            &&& forall|i: int| 0 <= i < all.len() - 1 ==> !is_terminal(#[trigger] all[i])
        }),
{
    reveal(consistent);
    let t = at_end(id, chunks);
    let all = transcript(id, chunks);
    lemma_at_end(id, chunks);
    lemma_ending_events(t);
    assert forall|i: int| 0 <= i < all.len() - 1 implies !is_terminal(#[trigger] all[i]) by {
        if i < t.out.len() {
            assert(all[i] == t.out[i]);
        } else {
            assert(all[i] == ending_events(t)[i - t.out.len()]);
            assert(is_completion(ending_events(t)[i - t.out.len()]));
        }
    }
}

/// A stream that breaks off ends with a failure and the marker of the end, and nothing in it
/// completes the response or an item of it.
pub proof fn missing_end_fails(id: Seq<char>, chunks: Seq<Seq<u8>>)
    requires
        !after_chunks(started(id), chunks).ended,
    ensures
        ({
            let all = transcript(id, chunks);
            &&& all.len() >= 2
            &&& all[all.len() - 2] == (EventV::Failed { id })
            &&& all[all.len() - 1] == EventV::Done
            &&& forall|i: int| 0 <= i < all.len() - 2 ==> !is_terminal(#[trigger] all[i])
            &&& forall|i: int| 0 <= i < all.len() ==> !(#[trigger] all[i] is Completed)
            &&& forall|i: int| 0 <= i < all.len() ==> !is_completion(#[trigger] all[i])
        }),
{
    reveal(consistent);
    let t = at_end(id, chunks);
    let all = transcript(id, chunks);
    lemma_at_end(id, chunks);
    assert forall|i: int| 0 <= i < all.len() - 2 implies !is_terminal(#[trigger] all[i])
        && !is_completion(all[i]) by {
        assert(all[i] == t.out[i]);
    }
}

proof fn lemma_placed_by_index(calls: Seq<CallV>, part: CallV, index: u32)
    requires
        increasing(calls),
    ensures
        call_at(placed_part(calls, part), index) == if index == part.index {
            Some(merged(or_default(call_at(calls, index), unknown_call(index)), part))
        } else {
            call_at(calls, index)
        },
    decreases calls.len(),
{
    let next = placed_part(calls, part);
    if calls.len() == 0 || calls.last().index < part.index {
        assert(next.drop_last() =~= calls);
        lemma_call_below(calls, part.index);
    } else if calls.last().index == part.index {
        assert(next.drop_last() =~= calls.drop_last());
    } else {
        let shorter = calls.drop_last();
        lemma_shorter_increasing(calls);
        lemma_placed_by_index(shorter, part, index);
        assert(next.drop_last() =~= placed_part(shorter, part));
    }
}

/// A part of a call changes the call with its index and no other. A part without an identifier keeps
/// the identifier that the call had, and where there is no such call, it counts for nothing.
pub proof fn parts_belong_by_index(calls: Seq<CallV>, part: CallV, index: u32)
    requires
        increasing(calls),
    ensures
        call_at(with_part(calls, part), index) == if index == part.index && (part.id.len() > 0
            || call_at(calls, index) is Some) {
            Some(merged(or_default(call_at(calls, index), unknown_call(index)), part))
        } else {
            call_at(calls, index)
        },
        part.id.len() == 0 ==> (call_at(with_part(calls, part), index) matches Some(call) ==> call_at(
            calls,
            index,
        ) matches Some(before) && call.id == before.id),
        part.id.len() == 0 && call_at(calls, part.index) is None ==> with_part(calls, part) == calls,
{
    lemma_placed_by_index(calls, part, index);
}

/// Every call that is reported has an identifier.
pub proof fn calls_have_identifiers(id: Seq<char>, chunks: Seq<Seq<u8>>)
    ensures
        identified(after_chunks(started(id), chunks).calls),
{
    reveal(consistent);
    always_consistent(id, chunks);
}

/// The calls of a stream are kept, and so reported, in the order of their indices.
pub proof fn calls_are_in_order(id: Seq<char>, chunks: Seq<Seq<u8>>)
    ensures
        increasing(after_chunks(started(id), chunks).calls),
{
    reveal(consistent);
    always_consistent(id, chunks);
}

/// Some choice in a list announces the end.
pub open spec fn choices_announce(choices: Seq<JsonV>) -> bool {
    exists|i: int|
        0 <= i < choices.len() && announces_end(#[trigger] choices[i]) && choices[i].get("delta"@) is Some
}

/// A block announces the end: it is the marker, or one of its choices gives a reason to finish.
pub open spec fn block_announces(block: Seq<char>) -> bool {
    match last_value(block, "data"@) {
        Some(data) => trim(data) == "[DONE]"@ || match parsed(data) {
            Some(value) => match value.array_at("choices"@) {
                Some(choices) => choices_announce(choices),
                None => false,
            },
            None => false,
        },
        None => false,
    }
}

proof fn lemma_details_end(t: Turned, details: Seq<JsonV>)
    ensures
        after_details(t, details).ended == t.ended,
    decreases details.len(),
{
    if details.len() > 0 {
        lemma_details_end(t, details.drop_last());
    }
}

proof fn lemma_choices_end(t: Turned, choices: Seq<JsonV>)
    ensures
        after_choices(t, choices).ended == (t.ended || choices_announce(choices)),
    decreases choices.len(),
{
    if choices.len() > 0 {
        let shorter = choices.drop_last();
        let choice = choices.last();
        let before = after_choices(t, shorter);
        lemma_choices_end(t, shorter);
        if let Some(delta) = choice.get("delta"@) {
            let begun = Turned { ended: before.ended || announces_end(choice), ..before };
            let content = delta.str_at("content"@);
            let reasoning = some_text(delta.str_at("reasoning_content"@));
            let spoken = match content {
                Some(text) => after_content(begun, text),
                None => begun,
            };
            let reasoned = match reasoning {
                Some(text) => after_reasoning(spoken, text),
                None => spoken,
            };
            if let Some(details) = delta.array_at("reasoning_details"@) {
                lemma_details_end(reasoned, details);
            }
        }
        if choices_announce(choices) {
            let i = choose|i: int|
                0 <= i < choices.len() && announces_end(#[trigger] choices[i]) && choices[i].get(
                    "delta"@,
                ) is Some;
            if i < shorter.len() {
                assert(announces_end(shorter[i]));
            }
        }
        if choices_announce(shorter) {
            let i = choose|i: int|
                0 <= i < shorter.len() && announces_end(#[trigger] shorter[i]) && shorter[i].get(
                    "delta"@,
                ) is Some;
            assert(announces_end(choices[i]));
        }
        assert(choice == choices[choices.len() - 1]);
    }
}

proof fn lemma_blocks_end(t: Turned, list: Seq<Seq<u8>>)
    ensures
        after_blocks(t, list).ended == (t.ended || exists|i: int|
            0 <= i < list.len() && block_announces(lossy_text(#[trigger] list[i]))),
    decreases list.len(),
{
    if list.len() > 0 {
        let shorter = list.drop_last();
        let block = lossy_text(list.last());
        let before = after_blocks(t, shorter);
        lemma_blocks_end(t, shorter);
        if let Some(data) = last_value(block, "data"@) {
            if let Some(value) = parsed(data) {
                if let Some(choices) = value.array_at("choices"@) {
                    lemma_choices_end(
                        Turned {
                            usage: crate::json::either(before.usage, usage_in(value)),
                            ..before
                        },
                        choices,
                    );
                }
            }
        }
        assert(after_blocks(t, list).ended == (before.ended || block_announces(block)));
        if exists|i: int| 0 <= i < list.len() && block_announces(lossy_text(#[trigger] list[i])) {
            let i = choose|i: int|
                0 <= i < list.len() && block_announces(lossy_text(#[trigger] list[i]));
            if i < shorter.len() {
                assert(block_announces(lossy_text(shorter[i])));
            }
        }
        if exists|i: int|
            0 <= i < shorter.len() && block_announces(lossy_text(#[trigger] shorter[i])) {
            let i = choose|i: int|
                0 <= i < shorter.len() && block_announces(lossy_text(#[trigger] shorter[i]));
            assert(block_announces(lossy_text(list[i])));
        }
        assert(list[list.len() - 1] == list.last());
    }
}

/// The end of a stream is announced exactly where one of its blocks announces it.
pub proof fn end_is_announced_by_a_block(id: Seq<char>, chunks: Seq<Seq<u8>>)
    ensures
        after_chunks(started(id), chunks).ended == exists|i: int|
            0 <= i < blocks(all_bytes(chunks)).len() && block_announces(
                lossy_text(#[trigger] blocks(all_bytes(chunks))[i]),
            ),
{
    lemma_chunks_joined(id, chunks);
    assert(started(id).bytes + all_bytes(chunks) =~= all_bytes(chunks));
    lemma_blocks_end(started(id), blocks(all_bytes(chunks)));
}

/// The content that a choice brings.
pub open spec fn content_of_choice(choice: JsonV) -> Seq<char> {
    match choice.get("delta"@) {
        Some(delta) => delta.str_or("content"@, Seq::empty()),
        None => Seq::empty(),
    }
}

/// The content that some choices bring, put together.
pub open spec fn content_of_choices(choices: Seq<JsonV>) -> Seq<char>
    decreases choices.len(),
{
    if choices.len() == 0 {
        Seq::empty()
    } else {
        content_of_choices(choices.drop_last()) + content_of_choice(choices.last())
    }
}

/// The content that a block brings.
pub open spec fn content_of_block(block: Seq<char>) -> Seq<char> {
    match last_value(block, "data"@) {
        Some(data) => if trim(data) == "[DONE]"@ {
            Seq::empty()
        } else {
            match parsed(data) {
                Some(value) => content_of_choices(
                    or_default(value.array_at("choices"@), Seq::empty()),
                ),
                None => Seq::empty(),
            }
        },
        None => Seq::empty(),
    }
}

/// The content that some blocks bring, put together.
pub open spec fn content_of(list: Seq<Seq<u8>>) -> Seq<char>
    decreases list.len(),
{
    if list.len() == 0 {
        Seq::empty()
    } else {
        content_of(list.drop_last()) + content_of_block(lossy_text(list.last()))
    }
}

/// A state has come from another by some content: thinking was taken out of it, and the rest was
/// sent as text.
pub open spec fn content_was_sent(t: Turned, content: Seq<char>, next: Turned) -> bool {
    let f = filtered(t.thinking, content);
    next.thinking == f.at && text_of(next.out) == text_of(t.out) + f.text
}

proof fn lemma_text_of_push(events: Seq<EventV>, event: EventV)
    ensures
        text_of(events.push(event)) == match event {
            EventV::TextDelta { delta } => text_of(events) + delta,
            _ => text_of(events),
        },
{
    assert(events.push(event).drop_last() =~= events);
}

proof fn lemma_reasoning_keeps_text(t: Turned, delta: Seq<char>)
    ensures
        after_reasoning(t, delta).thinking == t.thinking,
        text_of(after_reasoning(t, delta).out) == text_of(t.out),
{
    let place = or_default(
        t.reasoning,
        if t.text is Some {
            1u64
        } else {
            0u64
        },
    );
    let added = EventV::ReasoningAdded { place };
    lemma_text_of_push(t.out, added);
    lemma_text_of_push(t.out, EventV::ReasoningDelta { place, delta });
    lemma_text_of_push(t.out.push(added), EventV::ReasoningDelta { place, delta });
}

proof fn lemma_details_keep_text(t: Turned, details: Seq<JsonV>)
    ensures
        after_details(t, details).thinking == t.thinking,
        text_of(after_details(t, details).out) == text_of(t.out),
    decreases details.len(),
{
    if details.len() > 0 {
        lemma_details_keep_text(t, details.drop_last());
        if let Some(delta) = some_text(details.last().str_at("text"@)) {
            lemma_reasoning_keeps_text(after_details(t, details.drop_last()), delta);
        }
    }
}

proof fn lemma_text_sent(t: Turned, delta: Seq<char>)
    ensures
        after_text(t, delta).thinking == t.thinking,
        text_of(after_text(t, delta).out) == text_of(t.out) + delta,
{
    lemma_text_of_push(t.out, EventV::TextAdded);
    lemma_text_of_push(t.out, EventV::TextDelta { delta });
    lemma_text_of_push(t.out.push(EventV::TextAdded), EventV::TextDelta { delta });
}

proof fn lemma_delta_sends_content(t: Turned, delta: JsonV)
    ensures
        content_was_sent(t, delta.str_or("content"@, Seq::empty()), after_delta(t, delta)),
{
    let none = Seq::<char>::empty();
    let content = delta.str_or("content"@, none);
    let f = filtered(t.thinking, content);
    let spoken = match delta.str_at("content"@) {
        Some(c) => after_content(t, c),
        None => t,
    };
    assert(text_of(t.out) + none =~= text_of(t.out));
    if f.text.len() > 0 {
        lemma_text_sent(Turned { thinking: f.at, ..t }, f.text);
    } else {
        assert(f.text =~= none);
    }
    assert(content_was_sent(t, content, spoken));
    let reasoning = some_text(delta.str_at("reasoning_content"@));
    let reasoned = match reasoning {
        Some(text) => after_reasoning(spoken, text),
        None => spoken,
    };
    if let Some(text) = reasoning {
        lemma_reasoning_keeps_text(spoken, text);
    }
    if let Some(details) = delta.array_at("reasoning_details"@) {
        lemma_details_keep_text(reasoned, details);
    }
}

proof fn lemma_content_in_turn(t: Turned, a: Seq<char>, middle: Turned, b: Seq<char>, next: Turned)
    requires
        content_was_sent(t, a, middle),
        content_was_sent(middle, b, next),
    ensures
        content_was_sent(t, a + b, next),
{
    crate::thinking::filtering_goes_on(t.thinking, a, b);
    let x = text_of(t.out);
    let y = filtered(t.thinking, a).text;
    let z = filtered(middle.thinking, b).text;
    assert((x + y) + z =~= x + (y + z));
}

proof fn lemma_nothing_sent(t: Turned)
    ensures
        content_was_sent(t, Seq::empty(), t),
{
    assert(text_of(t.out) + Seq::<char>::empty() =~= text_of(t.out));
}

proof fn lemma_choices_send_content(t: Turned, choices: Seq<JsonV>)
    ensures
        content_was_sent(t, content_of_choices(choices), after_choices(t, choices)),
    decreases choices.len(),
{
    if choices.len() == 0 {
        lemma_nothing_sent(t);
    } else {
        let before = after_choices(t, choices.drop_last());
        let choice = choices.last();
        lemma_choices_send_content(t, choices.drop_last());
        match choice.get("delta"@) {
            Some(delta) => {
                let begun = Turned { ended: before.ended || announces_end(choice), ..before };
                lemma_delta_sends_content(begun, delta);
            },
            None => {
                lemma_nothing_sent(before);
            },
        }
        lemma_content_in_turn(
            t,
            content_of_choices(choices.drop_last()),
            before,
            content_of_choice(choice),
            after_choices(t, choices),
        );
    }
}

proof fn lemma_blocks_send_content(t: Turned, list: Seq<Seq<u8>>)
    ensures
        content_was_sent(t, content_of(list), after_blocks(t, list)),
    decreases list.len(),
{
    if list.len() == 0 {
        lemma_nothing_sent(t);
    } else {
        let before = after_blocks(t, list.drop_last());
        let block = lossy_text(list.last());
        lemma_blocks_send_content(t, list.drop_last());
        lemma_nothing_sent(before);
        if let Some(data) = last_value(block, "data"@) {
            if let Some(value) = parsed(data) {
                let counted = Turned {
                    usage: crate::json::either(before.usage, usage_in(value)),
                    ..before
                };
                if let Some(choices) = value.array_at("choices"@) {
                    lemma_choices_send_content(counted, choices);
                }
            }
        }
        lemma_content_in_turn(
            t,
            content_of(list.drop_last()),
            before,
            content_of_block(block),
            after_blocks(t, list),
        );
    }
}

/// The text of a stream is the content that arrived, without the parts between thinking tags and
/// without the tags, wherever the content was cut.
pub proof fn text_is_content_without_thinking(id: Seq<char>, chunks: Seq<Seq<u8>>)
    ensures
        text_of(transcript(id, chunks)) == without_thinking(content_of(blocks(all_bytes(chunks)))),
{
    reveal(consistent);
    let first = started(id);
    let list = blocks(all_bytes(chunks));
    let t = after_chunks(first, chunks);
    let last = at_end(id, chunks);
    lemma_chunks_joined(id, chunks);
    assert(first.bytes + all_bytes(chunks) =~= all_bytes(chunks));
    lemma_blocks_send_content(first, list);
    assert(text_of(first.out) =~= Seq::empty()) by {
        reveal_with_fuel(text_of, 3);
    }
    let f = filtered(unfiltered(), content_of(list));
    assert(Seq::<char>::empty() + f.text =~= f.text);
    assert(text_of(t.out) == f.text && t.thinking == f.at);
    let held = settled_text(t.thinking);
    if held.len() > 0 {
        lemma_text_sent(t, held);
    } else {
        assert(f.text + held =~= f.text);
    }
    crate::thinking::filtering_takes_thinking_out(content_of(list));
    lemma_at_end(id, chunks);
    lemma_ending_events(last);
    let more = ending_events(last);
    assert forall|i: int| 0 <= i < more.len() implies is_terminal(#[trigger] more[i])
        || is_completion(more[i]) by {
        if last.ended && i < more.len() - 1 {
            assert(is_completion(ending_events(last)[i]));
        }
    }
    lemma_text_of_closed(last.out, more);
}

} // verus!
