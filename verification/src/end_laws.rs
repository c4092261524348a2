//! How a Responses stream ends, and where its items stand.

use vstd::prelude::*;
use crate::json::JsonV;
use crate::responses_event::EventV;
use crate::responses_stream::{
    after_blocks, after_choices, after_content, after_delta, after_details, after_reasoning,
    after_text, announces_end, closing_events, ending_events, some_text, started, Turned,
};
use crate::responses_stream_laws::{
    all_bytes, announced_end_completes, at_end, block_announces, choices_announce, consistent,
    end_is_announced_by_a_block, is_completion, is_terminal, lemma_at_end, lemma_chunks_joined,
    lemma_ending_events, missing_end_fails, text_of, transcript,
};
use crate::sse::{blocks, last_value, lossy_text};
use crate::text::trim;
use crate::text_laws::{blank_is_white, is_white};
use crate::thinking::{filtered, settled_text};
use crate::value::parsed;

verus! {

/// Whether a choice finishes: it brings a delta, and a reason that is more than white space.
pub open spec fn finishes(choice: JsonV) -> bool {
    choice.get("delta"@) is Some && (choice.str_at("finish_reason"@) matches Some(reason)
        && !is_white(reason))
}

/// Whether a block ends a stream: it is the marker of the end, or one of its choices finishes.
pub open spec fn ends_stream(block: Seq<u8>) -> bool {
    match last_value(lossy_text(block), "data"@) {
        Some(data) => {
            ||| trim(data) == "[DONE]"@
            ||| parsed(data) matches Some(value) && value.array_at("choices"@) matches Some(choices)
                && exists|i: int| 0 <= i < choices.len() && finishes(#[trigger] choices[i])
        },
        None => false,
    }
}

/// Whether one of the blocks of a stream ends it.
pub open spec fn is_ended(chunks: Seq<Seq<u8>>) -> bool {
    exists|i: int|
        0 <= i < blocks(all_bytes(chunks)).len() && ends_stream(
            #[trigger] blocks(all_bytes(chunks))[i],
        )
}

proof fn lemma_finishes(choices: Seq<JsonV>)
    ensures
        choices_announce(choices) <==> exists|i: int|
            0 <= i < choices.len() && finishes(#[trigger] choices[i]),
{
    assert forall|i: int| 0 <= i < choices.len() implies finishes(#[trigger] choices[i]) == (
    announces_end(choices[i]) && choices[i].get("delta"@) is Some) by {
        if let Some(reason) = choices[i].str_at("finish_reason"@) {
            blank_is_white(reason);
        }
    }
    if choices_announce(choices) {
        let i = choose|i: int|
            0 <= i < choices.len() && announces_end(#[trigger] choices[i]) && choices[i].get(
                "delta"@,
            ) is Some;
        assert(finishes(choices[i]));
    }
    if exists|i: int| 0 <= i < choices.len() && finishes(#[trigger] choices[i]) {
        let i = choose|i: int| 0 <= i < choices.len() && finishes(#[trigger] choices[i]);
        assert(announces_end(choices[i]));
    }
}

/// The end of a stream is noted exactly where one of its blocks ends it.
pub proof fn ends_are_noted(id: Seq<char>, chunks: Seq<Seq<u8>>)
    ensures
        at_end(id, chunks).ended == is_ended(chunks),
{
    let list = blocks(all_bytes(chunks));
    lemma_at_end(id, chunks);
    end_is_announced_by_a_block(id, chunks);
    assert forall|i: int| 0 <= i < list.len() implies ends_stream(#[trigger] list[i])
        == block_announces(lossy_text(list[i])) by {
        if let Some(data) = last_value(lossy_text(list[i]), "data"@) {
            if let Some(value) = parsed(data) {
                if let Some(choices) = value.array_at("choices"@) {
                    lemma_finishes(choices);
                }
            }
        }
    }
    if is_ended(chunks) {
        let i = choose|i: int| 0 <= i < list.len() && ends_stream(#[trigger] list[i]);
        assert(block_announces(lossy_text(list[i])));
    }
}

/// A stream that one of the blocks ends is completed, and by nothing before its last event; one that
/// breaks off fails, and the marker of the end follows.
pub proof fn streams_end_as_they_should(id: Seq<char>, chunks: Seq<Seq<u8>>)
    ensures
        ({
            let all = transcript(id, chunks);
            let n = all.len() as int;
            if is_ended(chunks) {
                &&& all.last() matches EventV::Completed { id: told, .. } && told == id
                &&& forall|i: int| 0 <= i < n - 1 ==> !is_terminal(#[trigger] all[i])
            } else {
                &&& n >= 2
                &&& all[n - 2] == (EventV::Failed { id })
                &&& all[n - 1] == EventV::Done
                &&& forall|i: int|
                    0 <= i < n - 2 ==> !is_terminal(#[trigger] all[i]) && !is_completion(all[i])
            }
        }),
{
    ends_are_noted(id, chunks);
    lemma_at_end(id, chunks);
    if is_ended(chunks) {
        announced_end_completes(id, chunks);
    } else {
        missing_end_fails(id, chunks);
    }
}

/// Whether one of some events is this one.
pub open spec fn tells(events: Seq<EventV>, event: EventV) -> bool {
    exists|i: int| 0 <= i < events.len() && #[trigger] events[i] == event
}

/// In a stream that one of the blocks ends, every item that begins is completed: the text with all
/// the text that was sent, and the reasoning at its place. Nothing is completed that did not begin.
pub proof fn begun_items_are_completed(id: Seq<char>, chunks: Seq<Seq<u8>>)
    requires
        is_ended(chunks),
    ensures
        ({
            let all = transcript(id, chunks);
            &&& tells(all, EventV::TextAdded) ==> tells(all, EventV::TextDone { text: text_of(all) })
            &&& !tells(all, EventV::TextAdded) ==> forall|i: int|
                0 <= i < all.len() ==> !(#[trigger] all[i] is TextDone)
            &&& forall|place: u64|
                tells(all, EventV::ReasoningAdded { place }) <==> #[trigger] tells(
                    all,
                    EventV::ReasoningDone { place },
                )
        }),
{
    reveal(consistent);
    ends_are_noted(id, chunks);
    lemma_at_end(id, chunks);
    crate::responses_stream_laws::completed_text_is_all_text(id, chunks);
    let t = at_end(id, chunks);
    let all = transcript(id, chunks);
    let last = ending_events(t);
    let n = t.out.len() as int;
    lemma_ending_events(t);
    assert forall|i: int| 0 <= i < all.len() implies #[trigger] all[i] == if i < n {
        t.out[i]
    } else {
        last[i - n]
    } by {}
    assert forall|i: int| n <= i < all.len() implies is_terminal(#[trigger] all[i])
        || is_completion(all[i]) by {
        if i < all.len() - 1 {
            assert(is_completion(ending_events(t)[i - n]));
        }
    }
    if tells(all, EventV::TextAdded) {
        let i = choose|i: int| 0 <= i < all.len() && #[trigger] all[i] == EventV::TextAdded;
        assert(i < n);
        assert(t.out[i] is TextAdded);
        assert(t.text is Some);
        assert(last[0] == (EventV::TextDone { text: t.text->Some_0 }));
        assert(all[n] == last[0]);
    } else {
        if t.text is Some {
            let i = choose|i: int| 0 <= i < t.out.len() && t.out[i] == EventV::TextAdded;
            assert(all[i] == EventV::TextAdded);
        }
        assert forall|i: int| 0 <= i < all.len() implies !(#[trigger] all[i] is TextDone) by {
            if i >= n {
                assert(all[i] == ending_events(t)[i - n]);
            } else {
                assert(!is_completion(t.out[i]));
            }
        }
    }
    assert forall|place: u64|
        tells(all, EventV::ReasoningAdded { place }) <==> #[trigger] tells(
            all,
            EventV::ReasoningDone { place },
        ) by {
        if tells(all, EventV::ReasoningAdded { place }) {
            let i = choose|i: int|
                0 <= i < all.len() && #[trigger] all[i] == (EventV::ReasoningAdded { place });
            assert(i < n);
            assert(t.out[i] is ReasoningAdded);
            assert(t.reasoning is Some);
            let own = t.reasoning->Some_0;
            let j = choose|j: int|
                0 <= j < t.out.len() && t.out[j] == (EventV::ReasoningAdded { place: own });
            assert(t.out[j] is ReasoningAdded);
            assert(i == j);
            let at = if t.text is Some {
                1int
            } else {
                0int
            };
            assert(last[at] == (EventV::ReasoningDone { place }));
            assert(all[n + at] == last[at]);
        }
        if tells(all, EventV::ReasoningDone { place }) {
            let i = choose|i: int|
                0 <= i < all.len() && #[trigger] all[i] == (EventV::ReasoningDone { place });
            if i < n {
                assert(is_completion(t.out[i]));
            }
            lemma_reasoning_done(t, i - n, place);
            let j = choose|j: int|
                0 <= j < t.out.len() && t.out[j] == (EventV::ReasoningAdded { place });
            assert(all[j] == (EventV::ReasoningAdded { place }));
        }
    }
}

proof fn lemma_reasoning_done(t: Turned, i: int, place: u64)
    requires
        t.ended,
        0 <= i < ending_events(t).len(),
        ending_events(t)[i] == (EventV::ReasoningDone { place }),
    ensures
        t.reasoning == Some(place),
{
    let base = crate::responses_stream::first_call_place(t);
    let front = match t.text {
        Some(text) => seq![EventV::TextDone { text }],
        None => Seq::empty(),
    } + match t.reasoning {
        Some(own) => seq![EventV::ReasoningDone { place: own }],
        None => Seq::empty(),
    };
    let calls = crate::responses_stream::call_events(t.calls, base);
    lemma_calls_only(t.calls, base);
    assert(closing_events(t) =~= front + calls + seq![
        EventV::Completed { id: t.id, usage: t.usage },
    ]);
    if i >= front.len() && i < front.len() + calls.len() {
        assert(ending_events(t)[i] == calls[i - front.len()]);
    }
}

proof fn lemma_calls_only(calls: Seq<crate::responses_event::CallV>, base: int)
    ensures
        forall|i: int|
            0 <= i < crate::responses_stream::call_events(calls, base).len() ==> !((
            #[trigger] crate::responses_stream::call_events(calls, base)[i]) is ReasoningDone),
    decreases calls.len(),
{
    if calls.len() > 0 {
        lemma_calls_only(calls.drop_last(), base);
    }
}

/// The place of the reasoning: behind the text where that has begun before, and else the first.
pub open spec fn is_placed(events: Seq<EventV>) -> bool {
    forall|i: int|
        0 <= i < events.len() ==> ((#[trigger] events[i]) matches EventV::ReasoningAdded {
            place,
        } ==> place == if events.take(i).contains(EventV::TextAdded) {
            1u64
        } else {
            0u64
        })
}

spec fn is_set(t: Turned) -> bool {
    &&& is_placed(t.out)
    &&& t.text is Some <==> t.out.contains(EventV::TextAdded)
}

proof fn lemma_placed_push(events: Seq<EventV>, event: EventV)
    requires
        is_placed(events),
        event matches EventV::ReasoningAdded { place } ==> place == if events.contains(
            EventV::TextAdded,
        ) {
            1u64
        } else {
            0u64
        },
    ensures
        is_placed(events.push(event)),
        events.push(event).contains(EventV::TextAdded) <==> events.contains(EventV::TextAdded)
            || event == EventV::TextAdded,
{
    let all = events.push(event);
    assert forall|i: int| 0 <= i < all.len() implies ((
    #[trigger] all[i]) matches EventV::ReasoningAdded { place } ==> place == if all.take(
        i,
    ).contains(EventV::TextAdded) {
        1u64
    } else {
        0u64
    }) by {
        if i < events.len() {
            assert(all[i] == events[i]);
            assert(all.take(i) =~= events.take(i));
        } else {
            assert(all.take(i) =~= events);
        }
    }
    if events.contains(EventV::TextAdded) {
        let i = choose|i: int| 0 <= i < events.len() && events[i] == EventV::TextAdded;
        assert(all[i] == EventV::TextAdded);
    }
    assert(all[events.len() as int] == event);
    if all.contains(EventV::TextAdded) && event != EventV::TextAdded {
        let i = choose|i: int| 0 <= i < all.len() && all[i] == EventV::TextAdded;
        assert(events[i] == EventV::TextAdded);
    }
}

proof fn lemma_text_set(t: Turned, delta: Seq<char>)
    requires
        is_set(t),
    ensures
        is_set(after_text(t, delta)),
{
    lemma_placed_push(t.out, EventV::TextAdded);
    lemma_placed_push(t.out, EventV::TextDelta { delta });
    lemma_placed_push(t.out.push(EventV::TextAdded), EventV::TextDelta { delta });
}

proof fn lemma_reasoning_set(t: Turned, delta: Seq<char>)
    requires
        is_set(t),
    ensures
        is_set(after_reasoning(t, delta)),
{
    let place = match t.reasoning {
        Some(place) => place,
        None => if t.text is Some {
            1u64
        } else {
            0u64
        },
    };
    lemma_placed_push(t.out, EventV::ReasoningDelta { place, delta });
    if t.reasoning is None {
        lemma_placed_push(t.out, EventV::ReasoningAdded { place });
        lemma_placed_push(
            t.out.push(EventV::ReasoningAdded { place }),
            EventV::ReasoningDelta { place, delta },
        );
    }
}

proof fn lemma_details_set(t: Turned, details: Seq<JsonV>)
    requires
        is_set(t),
    ensures
        is_set(after_details(t, details)),
    decreases details.len(),
{
    if details.len() > 0 {
        let before = after_details(t, details.drop_last());
        lemma_details_set(t, details.drop_last());
        if let Some(delta) = some_text(details.last().str_at("text"@)) {
            lemma_reasoning_set(before, delta);
        }
    }
}

proof fn lemma_delta_set(t: Turned, delta: JsonV)
    requires
        is_set(t),
    ensures
        is_set(after_delta(t, delta)),
{
    let spoken = match delta.str_at("content"@) {
        Some(content) => after_content(t, content),
        None => t,
    };
    if let Some(content) = delta.str_at("content"@) {
        let f = filtered(t.thinking, content);
        lemma_text_set(Turned { thinking: f.at, ..t }, f.text);
    }
    let reasoned = match some_text(delta.str_at("reasoning_content"@)) {
        Some(text) => after_reasoning(spoken, text),
        None => spoken,
    };
    if let Some(text) = some_text(delta.str_at("reasoning_content"@)) {
        lemma_reasoning_set(spoken, text);
    }
    if let Some(details) = delta.array_at("reasoning_details"@) {
        lemma_details_set(reasoned, details);
    }
}

proof fn lemma_choices_set(t: Turned, choices: Seq<JsonV>)
    requires
        is_set(t),
    ensures
        is_set(after_choices(t, choices)),
    decreases choices.len(),
{
    if choices.len() > 0 {
        let before = after_choices(t, choices.drop_last());
        let choice = choices.last();
        lemma_choices_set(t, choices.drop_last());
        if let Some(delta) = choice.get("delta"@) {
            lemma_delta_set(
                Turned { ended: before.ended || announces_end(choice), ..before },
                delta,
            );
        }
    }
}

proof fn lemma_blocks_set(t: Turned, list: Seq<Seq<u8>>)
    requires
        is_set(t),
    ensures
        is_set(after_blocks(t, list)),
    decreases list.len(),
{
    if list.len() > 0 {
        let before = after_blocks(t, list.drop_last());
        lemma_blocks_set(t, list.drop_last());
        if let Some(data) = last_value(lossy_text(list.last()), "data"@) {
            if let Some(value) = parsed(data) {
                if let Some(choices) = value.array_at("choices"@) {
                    lemma_choices_set(
                        Turned {
                            usage: crate::json::either(
                                before.usage,
                                crate::responses_stream::usage_in(value),
                            ),
                            ..before
                        },
                        choices,
                    );
                }
            }
        }
    }
}

/// The reasoning stands behind the text where that has begun before it, and else it comes first.
pub proof fn reasoning_stands_behind_the_text(id: Seq<char>, chunks: Seq<Seq<u8>>)
    ensures
        is_placed(transcript(id, chunks)),
{
    let list = blocks(all_bytes(chunks));
    let first = started(id);
    let last = crate::responses_stream_laws::after_chunks(first, chunks);
    let t = at_end(id, chunks);
    let all = transcript(id, chunks);
    lemma_chunks_joined(id, chunks);
    assert(first.bytes + all_bytes(chunks) =~= all_bytes(chunks));
    assert(first.out[0] == (EventV::Created { id }));
    assert(first.out[1] == (EventV::InProgress { id }));
    lemma_blocks_set(first, list);
    assert(last.out == after_blocks(first, list).out);
    assert(is_set(last));
    lemma_text_set(last, settled_text(last.thinking));
    assert(is_set(t));
    lemma_at_end(id, chunks);
    lemma_ending_events(t);
    let more = ending_events(t);
    assert forall|i: int| 0 <= i < all.len() implies ((
    #[trigger] all[i]) matches EventV::ReasoningAdded { place } ==> place == if all.take(
        i,
    ).contains(EventV::TextAdded) {
        1u64
    } else {
        0u64
    }) by {
        if i < t.out.len() {
            assert(all[i] == t.out[i]);
            assert(all.take(i) =~= t.out.take(i));
        } else {
            assert(all[i] == more[i - t.out.len()]);
            if t.ended && i < all.len() - 1 {
                assert(is_completion(ending_events(t)[i - t.out.len()]));
            }
        }
    }
}

} // verus!
