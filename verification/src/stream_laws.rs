//! What a Responses stream tells of the Chat Completions stream that it is made from, in terms of
//! the JSON that arrived.

use vstd::prelude::*;
use crate::json::JsonV;
use crate::responses_event::{CallV, EventV, UsageInfo};
use crate::responses_stream::{
    after_blocks, after_choices, after_content, after_data, after_delta, after_details,
    after_reasoning, after_text, announces_end, call_at, call_events, call_part, completed_call,
    ending_events, first_call_place, some_text, started, with_part, with_parts, Turned,
};
use crate::responses_stream_laws::{
    all_bytes, at_end, calls_are_reported_in_turn, consistent, increasing, lemma_at_end,
    lemma_chunks_joined, lemma_ending_events, parts_belong_by_index, transcript,
};
use crate::sse::{blocks, last_value, lossy_text};
use crate::text::trim;
use crate::value::parsed;

verus! {

/// The JSON values that some blocks carry; the marker of the end is none.
pub open spec fn values_in(list: Seq<Seq<u8>>) -> Seq<JsonV>
    decreases list.len(),
{
    if list.len() == 0 {
        Seq::empty()
    } else {
        let before = values_in(list.drop_last());
        match last_value(lossy_text(list.last()), "data"@) {
            Some(data) => if trim(data) == "[DONE]"@ {
                before
            } else {
                match parsed(data) {
                    Some(value) => before.push(value),
                    None => before,
                }
            },
            None => before,
        }
    }
}

/// The choices in some values that bring a delta.
pub open spec fn deltas_of(choices: Seq<JsonV>) -> Seq<JsonV>
    decreases choices.len(),
{
    if choices.len() == 0 {
        Seq::empty()
    } else {
        let before = deltas_of(choices.drop_last());
        match choices.last().get("delta"@) {
            Some(delta) => before.push(delta),
            None => before,
        }
    }
}

/// The deltas that some values bring, in order.
pub open spec fn deltas_in(values: Seq<JsonV>) -> Seq<JsonV>
    decreases values.len(),
{
    if values.len() == 0 {
        Seq::empty()
    } else {
        let before = deltas_in(values.drop_last());
        match values.last().array_at("choices"@) {
            Some(choices) => before + deltas_of(choices),
            None => before,
        }
    }
}

/// The parts of calls that some deltas bring, in order.
pub open spec fn parts_in(deltas: Seq<JsonV>) -> Seq<JsonV>
    decreases deltas.len(),
{
    if deltas.len() == 0 {
        Seq::empty()
    } else {
        let before = parts_in(deltas.drop_last());
        match deltas.last().array_at("tool_calls"@) {
            Some(parts) => before + parts,
            None => before,
        }
    }
}

/// The parts of calls in a stream of bytes.
pub open spec fn parts_of(chunks: Seq<Seq<u8>>) -> Seq<JsonV> {
    parts_in(deltas_in(values_in(blocks(all_bytes(chunks)))))
}

/// Whether a part belongs to the call with an index; a part without an index belongs to the first.
pub open spec fn belongs(part: JsonV, index: u32) -> bool {
    match part.u64_at("index"@) {
        Some(n) => n % 0x1_0000_0000 == index,
        None => index == 0,
    }
}

/// Whether a part names the identifier of its call.
pub open spec fn identifies(part: JsonV) -> bool {
    part.str_at("id"@) matches Some(id) && id.len() > 0
}

/// Whether one of some parts identifies the call with an index.
pub open spec fn is_begun(parts: Seq<JsonV>, index: u32) -> bool
    decreases parts.len(),
{
    parts.len() > 0 && (is_begun(parts.drop_last(), index) || (belongs(parts.last(), index)
        && identifies(parts.last())))
}

/// Whether the last of some parts counts for the call with an index: it belongs to it, and the call
/// has an identifier by then.
pub open spec fn last_counts(parts: Seq<JsonV>, index: u32) -> bool {
    belongs(parts.last(), index) && is_begun(parts, index)
}

/// The text of a member of the function that a part names.
pub open spec fn function_text(part: JsonV, key: Seq<char>) -> Option<Seq<char>> {
    match part.get("function"@) {
        Some(function) => function.str_at(key),
        None => None,
    }
}

/// All the arguments that came for the call with an index, one behind the other, character by
/// character.
pub open spec fn arguments_of(parts: Seq<JsonV>, index: u32) -> Seq<char>
    decreases parts.len(),
{
    if parts.len() == 0 {
        Seq::empty()
    } else {
        let before = arguments_of(parts.drop_last(), index);
        match function_text(parts.last(), "arguments"@) {
            Some(more) => if last_counts(parts, index) {
                before + more
            } else {
                before
            },
            None => before,
        }
    }
}

/// The last name that came for the call with an index; empty where none did.
pub open spec fn name_of(parts: Seq<JsonV>, index: u32) -> Seq<char>
    decreases parts.len(),
{
    if parts.len() == 0 {
        Seq::empty()
    } else {
        match function_text(parts.last(), "name"@) {
            Some(name) => if last_counts(parts, index) && name.len() > 0 {
                name
            } else {
                name_of(parts.drop_last(), index)
            },
            None => name_of(parts.drop_last(), index),
        }
    }
}

/// The last identifier that came for the call with an index.
pub open spec fn id_of(parts: Seq<JsonV>, index: u32) -> Seq<char>
    decreases parts.len(),
{
    if parts.len() == 0 {
        Seq::empty()
    } else if belongs(parts.last(), index) && identifies(parts.last()) {
        parts.last().str_at("id"@)->Some_0
    } else {
        id_of(parts.drop_last(), index)
    }
}

/// A call is what its parts say, and so far as they say it.
pub open spec fn is_made_of(call: CallV, parts: Seq<JsonV>) -> bool {
    &&& is_begun(parts, call.index)
    &&& call.id == id_of(parts, call.index)
    &&& call.name == name_of(parts, call.index)
    &&& call.arguments == arguments_of(parts, call.index)
}

spec fn all_made(calls: Seq<CallV>, parts: Seq<JsonV>) -> bool {
    &&& increasing(calls)
    &&& forall|index: u32| #[trigger]
        is_begun(parts, index) <==> call_at(calls, index) is Some
    &&& forall|index: u32| #[trigger]
        call_at(calls, index) matches Some(call) ==> call.index == index && is_made_of(call, parts)
}

proof fn lemma_call_part(part: JsonV, index: u32)
    ensures
        call_part(part).index == index <==> belongs(part, index),
        call_part(part).id.len() > 0 <==> identifies(part),
        identifies(part) ==> call_part(part).id == part.str_at("id"@)->Some_0,
        call_part(part).name == match function_text(part, "name"@) {
            Some(name) => name,
            None => Seq::empty(),
        },
        call_part(part).arguments == match function_text(part, "arguments"@) {
            Some(more) => more,
            None => Seq::empty(),
        },
{
    reveal_strlit("");
    assert(""@ =~= Seq::empty());
}

proof fn lemma_part_made(calls: Seq<CallV>, parts: Seq<JsonV>, part: JsonV)
    requires
        all_made(calls, parts),
    ensures
        all_made(with_part(calls, call_part(part)), parts.push(part)),
{
    let next = with_part(calls, call_part(part));
    let all = parts.push(part);
    assert(all.drop_last() =~= parts);
    assert(all.last() == part);
    crate::responses_stream_laws::lemma_part_increasing(calls, call_part(part));
    assert forall|index: u32| #[trigger] is_begun(all, index) <==> call_at(next, index) is Some by {
        lemma_call_part(part, index);
        parts_belong_by_index(calls, call_part(part), index);
        assert(is_begun(parts, index) <==> call_at(calls, index) is Some);
    }
    assert forall|index: u32|
        (#[trigger] call_at(next, index) matches Some(call) ==> call.index == index && is_made_of(
            call,
            all,
        )) by {
        lemma_call_part(part, index);
        parts_belong_by_index(calls, call_part(part), index);
        assert(is_begun(parts, index) <==> call_at(calls, index) is Some);
        assert(is_begun(all, index) <==> call_at(next, index) is Some);
        if call_at(calls, index) is None {
            lemma_nothing_yet(parts, index);
        }
        if let Some(call) = call_at(next, index) {
            assert(call.arguments =~= arguments_of(all, index));
        }
    }
}

proof fn lemma_nothing_yet(parts: Seq<JsonV>, index: u32)
    requires
        !is_begun(parts, index),
    ensures
        arguments_of(parts, index) == Seq::<char>::empty(),
        name_of(parts, index) == Seq::<char>::empty(),
        id_of(parts, index) == Seq::<char>::empty(),
    decreases parts.len(),
{
    if parts.len() > 0 {
        lemma_nothing_yet(parts.drop_last(), index);
    }
}

proof fn lemma_parts_made(calls: Seq<CallV>, parts: Seq<JsonV>, more: Seq<JsonV>)
    requires
        all_made(calls, parts),
    ensures
        all_made(with_parts(calls, more), parts + more),
    decreases more.len(),
{
    if more.len() == 0 {
        assert(parts + more =~= parts);
    } else {
        lemma_parts_made(calls, parts, more.drop_last());
        lemma_part_made(
            with_parts(calls, more.drop_last()),
            parts + more.drop_last(),
            more.last(),
        );
        assert((parts + more.drop_last()).push(more.last()) =~= parts + more);
    }
}

/// The reasoning that some structured details bring.
pub open spec fn reasoning_in_details(details: Seq<JsonV>) -> Seq<char>
    decreases details.len(),
{
    if details.len() == 0 {
        Seq::empty()
    } else {
        let before = reasoning_in_details(details.drop_last());
        match details.last().str_at("text"@) {
            Some(text) => before + text,
            None => before,
        }
    }
}

/// The reasoning that some deltas bring, one behind the other.
pub open spec fn reasoning_in(deltas: Seq<JsonV>) -> Seq<char>
    decreases deltas.len(),
{
    if deltas.len() == 0 {
        Seq::empty()
    } else {
        let delta = deltas.last();
        let before = reasoning_in(deltas.drop_last());
        let told = match delta.str_at("reasoning_content"@) {
            Some(text) => before + text,
            None => before,
        };
        match delta.array_at("reasoning_details"@) {
            Some(details) => told + reasoning_in_details(details),
            None => told,
        }
    }
}

/// The reasoning that some events bring, put together.
pub open spec fn reasoning_told(events: Seq<EventV>) -> Seq<char>
    decreases events.len(),
{
    if events.len() == 0 {
        Seq::empty()
    } else {
        let before = reasoning_told(events.drop_last());
        match events.last() {
            EventV::ReasoningDelta { delta, .. } => before + delta,
            _ => before,
        }
    }
}

proof fn lemma_told_push(events: Seq<EventV>, event: EventV)
    ensures
        reasoning_told(events.push(event)) == match event {
            EventV::ReasoningDelta { delta, .. } => reasoning_told(events) + delta,
            _ => reasoning_told(events),
        },
{
    assert(events.push(event).drop_last() =~= events);
}

proof fn lemma_text_tells_no_reasoning(t: Turned, delta: Seq<char>)
    ensures
        reasoning_told(after_text(t, delta).out) == reasoning_told(t.out),
{
    lemma_told_push(t.out, EventV::TextAdded);
    lemma_told_push(t.out, EventV::TextDelta { delta });
    lemma_told_push(t.out.push(EventV::TextAdded), EventV::TextDelta { delta });
}

proof fn lemma_content_tells_no_reasoning(t: Turned, content: Seq<char>)
    ensures
        reasoning_told(after_content(t, content).out) == reasoning_told(t.out),
        after_content(t, content).calls == t.calls,
        after_content(t, content).usage == t.usage,
{
    let f = crate::thinking::filtered(t.thinking, content);
    lemma_text_tells_no_reasoning(Turned { thinking: f.at, ..t }, f.text);
}

proof fn lemma_reasoning_is_told(t: Turned, delta: Seq<char>)
    ensures
        reasoning_told(after_reasoning(t, delta).out) == reasoning_told(t.out) + delta,
        after_reasoning(t, delta).calls == t.calls,
        after_reasoning(t, delta).usage == t.usage,
{
    let out = after_reasoning(t, delta).out;
    let last = out.last();
    let before = out.drop_last();
    assert(out =~= before.push(last));
    lemma_told_push(before, last);
    if t.reasoning is None {
        lemma_told_push(t.out, before.last());
        assert(before =~= t.out.push(before.last()));
    } else {
        assert(before =~= t.out);
    }
}

proof fn lemma_details_are_told(t: Turned, details: Seq<JsonV>)
    ensures
        reasoning_told(after_details(t, details).out) == reasoning_told(t.out)
            + reasoning_in_details(details),
        after_details(t, details).calls == t.calls,
        after_details(t, details).usage == t.usage,
    decreases details.len(),
{
    let none = Seq::<char>::empty();
    if details.len() == 0 {
        assert(reasoning_told(t.out) + none =~= reasoning_told(t.out));
    } else {
        let before = after_details(t, details.drop_last());
        let text = details.last().str_at("text"@);
        lemma_details_are_told(t, details.drop_last());
        if let Some(delta) = text {
            lemma_reasoning_is_told(before, delta);
            if delta.len() == 0 {
                assert(delta =~= none);
            }
        }
        assert(reasoning_told(after_details(t, details).out) =~= reasoning_told(t.out)
            + reasoning_in_details(details));
    }
}

/// What a state has taken in of some deltas: their calls and their reasoning.
spec fn has_taken(t: Turned, deltas: Seq<JsonV>) -> bool {
    all_made(t.calls, parts_in(deltas)) && reasoning_told(t.out) == reasoning_in(deltas)
}

proof fn lemma_delta_taken(t: Turned, deltas: Seq<JsonV>, delta: JsonV)
    requires
        has_taken(t, deltas),
    ensures
        has_taken(after_delta(t, delta), deltas.push(delta)),
        after_delta(t, delta).usage == t.usage,
{
    let all = deltas.push(delta);
    assert(all.drop_last() =~= deltas);
    assert(all.last() == delta);
    let none = Seq::<char>::empty();
    let spoken = match delta.str_at("content"@) {
        Some(content) => after_content(t, content),
        None => t,
    };
    if let Some(content) = delta.str_at("content"@) {
        lemma_content_tells_no_reasoning(t, content);
    }
    let given = delta.str_at("reasoning_content"@);
    let reasoned = match some_text(given) {
        Some(text) => after_reasoning(spoken, text),
        None => spoken,
    };
    if let Some(text) = given {
        lemma_reasoning_is_told(spoken, text);
        if text.len() == 0 {
            assert(text =~= none);
            assert(reasoning_in(deltas) + text =~= reasoning_in(deltas));
        }
    }
    let detailed = match delta.array_at("reasoning_details"@) {
        Some(details) => after_details(reasoned, details),
        None => reasoned,
    };
    if let Some(details) = delta.array_at("reasoning_details"@) {
        lemma_details_are_told(reasoned, details);
    }
    assert(reasoning_told(detailed.out) == reasoning_in(all));
    assert(detailed.calls == t.calls);
    if let Some(parts) = delta.array_at("tool_calls"@) {
        lemma_parts_made(t.calls, parts_in(deltas), parts);
    }
}

proof fn lemma_choices_taken(t: Turned, deltas: Seq<JsonV>, choices: Seq<JsonV>)
    requires
        has_taken(t, deltas),
    ensures
        has_taken(after_choices(t, choices), deltas + deltas_of(choices)),
        after_choices(t, choices).usage == t.usage,
    decreases choices.len(),
{
    if choices.len() == 0 {
        assert(deltas + deltas_of(choices) =~= deltas);
    } else {
        let before = after_choices(t, choices.drop_last());
        let choice = choices.last();
        let so_far = deltas + deltas_of(choices.drop_last());
        lemma_choices_taken(t, deltas, choices.drop_last());
        if let Some(delta) = choice.get("delta"@) {
            let noted = Turned { ended: before.ended || announces_end(choice), ..before };
            lemma_delta_taken(noted, so_far, delta);
            assert(so_far.push(delta) =~= deltas + deltas_of(choices));
        }
    }
}

proof fn lemma_deltas_next(values: Seq<JsonV>, value: JsonV)
    ensures
        deltas_in(values.push(value)) == match value.array_at("choices"@) {
            Some(choices) => deltas_in(values) + deltas_of(choices),
            None => deltas_in(values),
        },
{
    assert(values.push(value).drop_last() =~= values);
}

/// The token counts that a value tells, each one modulo the range of a 32-bit number; a missing
/// count is zero.
pub open spec fn tells_usage(value: JsonV, told: UsageInfo) -> bool {
    value.get("usage"@) matches Some(usage) && !(usage is Null) && {
        &&& told.prompt_tokens == wrapped_count(usage, "prompt_tokens"@)
        &&& told.completion_tokens == wrapped_count(usage, "completion_tokens"@)
        &&& told.total_tokens == wrapped_count(usage, "total_tokens"@)
    }
}

/// A count under a key modulo the range of a 32-bit number.
pub open spec fn wrapped_count(usage: JsonV, key: Seq<char>) -> int {
    match usage.u64_at(key) {
        Some(n) => n as int % 0x1_0000_0000,
        None => 0,
    }
}

/// Whether a value tells token counts.
pub open spec fn has_usage(value: JsonV) -> bool {
    value.get("usage"@) matches Some(usage) && !(usage is Null)
}

/// The token counts of a stream are those that are told first; there are none where none are told.
pub open spec fn is_first_usage(usage: Option<UsageInfo>, values: Seq<JsonV>) -> bool {
    match usage {
        Some(told) => exists|i: int|
            0 <= i < values.len() && tells_usage(#[trigger] values[i], told) && forall|j: int|
                0 <= j < i ==> !has_usage(#[trigger] values[j]),
        None => forall|i: int| 0 <= i < values.len() ==> !has_usage(#[trigger] values[i]),
    }
}

proof fn lemma_usage_next(t: Turned, values: Seq<JsonV>, value: JsonV)
    requires
        is_first_usage(t.usage, values),
    ensures
        is_first_usage(after_data(t, value).usage, values.push(value)),
{
    let all = values.push(value);
    let next = after_data(t, value);
    let counted = Turned {
        usage: crate::json::either(t.usage, crate::responses_stream::usage_in(value)),
        ..t
    };
    if let Some(choices) = value.array_at("choices"@) {
        lemma_choices_keep_usage(counted, choices);
    }
    assert(next.usage == counted.usage);
    match t.usage {
        Some(told) => {
            let i = choose|i: int|
                0 <= i < values.len() && tells_usage(#[trigger] values[i], told) && forall|j: int|
                    0 <= j < i ==> !has_usage(#[trigger] values[j]);
            assert(tells_usage(all[i], told));
            assert forall|j: int| 0 <= j < i implies !has_usage(#[trigger] all[j]) by {
                assert(!has_usage(values[j]));
            }
        },
        None => {
            assert forall|j: int| 0 <= j < values.len() implies !has_usage(#[trigger] all[j]) by {
                assert(!has_usage(values[j]));
            }
            let n = values.len() as int;
            assert(all[n] == value);
            if has_usage(value) {
                assert(tells_usage(all[n], next.usage->Some_0));
            }
        },
    }
}

proof fn lemma_choices_keep_usage(t: Turned, choices: Seq<JsonV>)
    ensures
        after_choices(t, choices).usage == t.usage,
    decreases choices.len(),
{
    if choices.len() > 0 {
        let before = after_choices(t, choices.drop_last());
        lemma_choices_keep_usage(t, choices.drop_last());
        if let Some(delta) = choices.last().get("delta"@) {
            let noted = Turned {
                ended: before.ended || announces_end(choices.last()),
                ..before
            };
            lemma_delta_keeps_usage(noted, delta);
        }
    }
}

proof fn lemma_delta_keeps_usage(t: Turned, delta: JsonV)
    ensures
        after_delta(t, delta).usage == t.usage,
{
    let spoken = match delta.str_at("content"@) {
        Some(content) => after_content(t, content),
        None => t,
    };
    if let Some(content) = delta.str_at("content"@) {
        lemma_content_tells_no_reasoning(t, content);
    }
    let reasoned = match some_text(delta.str_at("reasoning_content"@)) {
        Some(text) => after_reasoning(spoken, text),
        None => spoken,
    };
    if let Some(text) = some_text(delta.str_at("reasoning_content"@)) {
        lemma_reasoning_is_told(spoken, text);
    }
    if let Some(details) = delta.array_at("reasoning_details"@) {
        lemma_details_are_told(reasoned, details);
    }
}

proof fn lemma_blocks_taken(id: Seq<char>, list: Seq<Seq<u8>>)
    ensures
        has_taken(after_blocks(started(id), list), deltas_in(values_in(list))),
        is_first_usage(after_blocks(started(id), list).usage, values_in(list)),
    decreases list.len(),
{
    if list.len() == 0 {
        let t = started(id);
        assert(reasoning_told(t.out) =~= Seq::empty()) by {
            reveal_with_fuel(reasoning_told, 3);
        }
        assert(parts_in(Seq::empty()) =~= Seq::empty());
        assert(all_made(t.calls, Seq::empty()));
    } else {
        let shorter = list.drop_last();
        let before = after_blocks(started(id), shorter);
        let values = values_in(shorter);
        lemma_blocks_taken(id, shorter);
        if let Some(data) = last_value(lossy_text(list.last()), "data"@) {
            if let Some(value) = parsed(data) {
                let counted = Turned {
                    usage: crate::json::either(
                        before.usage,
                        crate::responses_stream::usage_in(value),
                    ),
                    ..before
                };
                lemma_deltas_next(values, value);
                lemma_usage_next(before, values, value);
                if let Some(choices) = value.array_at("choices"@) {
                    lemma_choices_taken(counted, deltas_in(values), choices);
                }
            }
        }
    }
}

/// The events that report some calls stand at the end of a stream, before its completion: for each
/// call its beginning, its arguments and its completion, at consecutive places from `base` on. No
/// other event reports a call.
pub open spec fn reports(events: Seq<EventV>, calls: Seq<CallV>, base: u64) -> bool {
    let n = events.len() - 1 - 3 * calls.len();
    &&& n >= 0
    &&& forall|k: int|
        #![trigger calls[k]]
        0 <= k < calls.len() ==> {
            let place = (base + k) as u64;
            let call = calls[k];
            &&& events[n + 3 * k] == (EventV::CallAdded { place, call })
            &&& events[n + 3 * k + 1] == (EventV::ArgumentsDone { place, call })
            &&& events[n + 3 * k + 2] == (EventV::CallDone { place, call })
        }
    &&& forall|i: int| 0 <= i < n ==> !reports_call(#[trigger] events[i])
}

/// Whether an event reports a call.
pub open spec fn reports_call(event: EventV) -> bool {
    event is CallAdded || event is ArgumentsDone || event is CallDone
}

/// A call is reported as its parts say: under its identifier and its name, with all of its arguments
/// as they came; where none came, with the empty object.
pub open spec fn is_reported_as(call: CallV, parts: Seq<JsonV>) -> bool {
    let given = arguments_of(parts, call.index);
    &&& is_begun(parts, call.index)
    &&& call.id == id_of(parts, call.index)
    &&& call.name == name_of(parts, call.index)
    &&& call.arguments == if given.len() > 0 {
        given
    } else {
        "{}"@
    }
}

/// Some calls are all those that some parts begin, in the order of their indices, and each one is
/// reported as its parts say.
pub open spec fn are_put_together(calls: Seq<CallV>, parts: Seq<JsonV>) -> bool {
    &&& increasing(calls)
    &&& forall|k: int| 0 <= k < calls.len() ==> is_reported_as(#[trigger] calls[k], parts)
    &&& forall|index: u32| #[trigger]
        is_begun(parts, index) ==> exists|k: int|
            0 <= k < calls.len() && (#[trigger] calls[k]).index == index
}

proof fn lemma_call_found(calls: Seq<CallV>, index: u32)
    ensures
        call_at(calls, index) matches Some(call) ==> exists|k: int|
            0 <= k < calls.len() && #[trigger] calls[k] == call,
    decreases calls.len(),
{
    if calls.len() > 0 {
        let shorter = calls.drop_last();
        lemma_call_found(shorter, index);
        if calls.last().index == index {
            assert(calls[calls.len() - 1] == calls.last());
        } else if let Some(call) = call_at(shorter, index) {
            let k = choose|k: int| 0 <= k < shorter.len() && #[trigger] shorter[k] == call;
            assert(calls[k] == call);
        }
    }
}

proof fn lemma_call_has_index(calls: Seq<CallV>, k: int)
    requires
        increasing(calls),
        0 <= k < calls.len(),
    ensures
        call_at(calls, calls[k].index) == Some(calls[k]),
    decreases calls.len(),
{
    let shorter = calls.drop_last();
    if k < shorter.len() {
        assert(calls[k].index < calls[calls.len() - 1].index);
        assert forall|i: int, j: int| 0 <= i < j < shorter.len() implies (
        #[trigger] shorter[i]).index < (#[trigger] shorter[j]).index by {
            assert(calls[i].index < calls[j].index);
        }
        lemma_call_has_index(shorter, k);
        assert(shorter[k] == calls[k]);
    }
}

/// Every call of a stream is put together from its parts and reported whole, and nothing else is
/// reported as a call: the arguments that are reported for an index are exactly the arguments in the
/// parts with this index, one behind the other, from the first part on that has an identifier.
pub proof fn calls_are_put_together(id: Seq<char>, chunks: Seq<Seq<u8>>)
    requires
        at_end(id, chunks).ended,
    ensures
        exists|calls: Seq<CallV>, base: u64|
            are_put_together(calls, parts_of(chunks)) && #[trigger] reports(
                transcript(id, chunks),
                calls,
                base,
            ) && base == place_behind(transcript(id, chunks)),
{
    let list = blocks(all_bytes(chunks));
    let t = at_end(id, chunks);
    let all = transcript(id, chunks);
    lemma_chunks_joined(id, chunks);
    assert(started(id).bytes + all_bytes(chunks) =~= all_bytes(chunks));
    lemma_blocks_taken(id, list);
    lemma_at_end(id, chunks);
    let calls = Seq::new(t.calls.len(), |k: int| completed_call(t.calls[k]));
    lemma_calls_reported(t, parts_of(chunks), calls);
    lemma_reports(t, all, calls);
    lemma_place_behind(t, all);
    assert(reports(all, calls, first_call_place(t) as u64));
}

proof fn lemma_reports(t: Turned, all: Seq<EventV>, calls: Seq<CallV>)
    requires
        consistent(t),
        t.ended,
        all == t.out + ending_events(t),
        calls == Seq::new(t.calls.len(), |k: int| completed_call(t.calls[k])),
    ensures
        reports(all, calls, first_call_place(t) as u64),
{
    let base = first_call_place(t);
    let events = call_events(t.calls, base);
    let ending = ending_events(t);
    let m = t.calls.len() as int;
    if m > 0 {
        calls_are_reported_in_turn(t.calls, base, 0);
    }
    assert(events.len() == 3 * m);
    let n = all.len() - 1 - 3 * m;
    let front = n - t.out.len();
    assert(ending.subrange(front, ending.len() - 1) =~= events);
    assert forall|i: int| 0 <= i < n implies !reports_call(#[trigger] all[i]) by {
        if i < t.out.len() {
            reveal(consistent);
            assert(all[i] == t.out[i]);
        } else {
            assert(all[i] == ending[i - t.out.len()]);
        }
    }
    assert forall|k: int| #![trigger calls[k]] 0 <= k < calls.len() implies {
        let place = (base + k) as u64;
        let call = calls[k];
        &&& all[n + 3 * k] == (EventV::CallAdded { place, call })
        &&& all[n + 3 * k + 1] == (EventV::ArgumentsDone { place, call })
        &&& all[n + 3 * k + 2] == (EventV::CallDone { place, call })
    } by {
        calls_are_reported_in_turn(t.calls, base, k);
        assert(all[n + 3 * k] == events[3 * k]);
        assert(all[n + 3 * k + 1] == events[3 * k + 1]);
        assert(all[n + 3 * k + 2] == events[3 * k + 2]);
    }
}

/// The place behind the text and the reasoning of a stream: the second where there is any of them,
/// and the first otherwise.
pub open spec fn place_behind(events: Seq<EventV>) -> u64 {
    if exists|i: int|
        0 <= i < events.len() && ((#[trigger] events[i]) is TextAdded
            || events[i] is ReasoningAdded) {
        1
    } else {
        0
    }
}

proof fn lemma_place_behind(t: Turned, all: Seq<EventV>)
    requires
        consistent(t),
        t.ended,
        all == t.out + ending_events(t),
    ensures
        place_behind(all) == first_call_place(t),
{
    reveal(consistent);
    let ending = ending_events(t);
    lemma_ending_events(t);
    if t.text is Some {
        let i = choose|i: int| 0 <= i < t.out.len() && t.out[i] == EventV::TextAdded;
        assert(all[i] is TextAdded);
    } else if t.reasoning is Some {
        let added = EventV::ReasoningAdded { place: t.reasoning->Some_0 };
        let i = choose|i: int| 0 <= i < t.out.len() && t.out[i] == added;
        assert(all[i] is ReasoningAdded);
    } else {
        assert forall|i: int| 0 <= i < all.len() implies !((#[trigger] all[i]) is TextAdded)
            && !(all[i] is ReasoningAdded) by {
            if i < t.out.len() {
                assert(all[i] == t.out[i]);
            } else {
                assert(all[i] == ending[i - t.out.len()]);
                if i < all.len() - 1 {
                    assert(crate::responses_stream_laws::is_completion(ending[i - t.out.len()]));
                }
            }
        }
    }
}

proof fn lemma_calls_reported(t: Turned, parts: Seq<JsonV>, calls: Seq<CallV>)
    requires
        all_made(t.calls, parts),
        calls == Seq::new(t.calls.len(), |k: int| completed_call(t.calls[k])),
    ensures
        are_put_together(calls, parts),
{
    assert forall|i: int, j: int| 0 <= i < j < calls.len() implies (#[trigger] calls[i]).index < (
    #[trigger] calls[j]).index by {
        assert(t.calls[i].index < t.calls[j].index);
    }
    assert forall|k: int| 0 <= k < calls.len() implies is_reported_as(#[trigger] calls[k], parts) by {
        lemma_call_has_index(t.calls, k);
        assert(call_at(t.calls, t.calls[k].index) is Some);
    }
    assert forall|index: u32| #[trigger] is_begun(parts, index) implies exists|k: int|
        0 <= k < calls.len() && (#[trigger] calls[k]).index == index by {
        assert(call_at(t.calls, index) is Some);
        lemma_call_found(t.calls, index);
        let call = call_at(t.calls, index)->Some_0;
        let k = choose|k: int| 0 <= k < t.calls.len() && #[trigger] t.calls[k] == call;
        assert(calls[k].index == index);
    }
}

/// All the reasoning that arrives is told, one piece behind the other, and nothing else is told as
/// reasoning.
pub proof fn reasoning_is_told(id: Seq<char>, chunks: Seq<Seq<u8>>)
    ensures
        reasoning_told(transcript(id, chunks)) == reasoning_in(
            deltas_in(values_in(blocks(all_bytes(chunks)))),
        ),
{
    let list = blocks(all_bytes(chunks));
    let t = at_end(id, chunks);
    lemma_chunks_joined(id, chunks);
    assert(started(id).bytes + all_bytes(chunks) =~= all_bytes(chunks));
    lemma_blocks_taken(id, list);
    let last = crate::responses_stream_laws::after_chunks(started(id), chunks);
    lemma_text_tells_no_reasoning(last, crate::thinking::settled_text(last.thinking));
    lemma_at_end(id, chunks);
    lemma_ending_events(t);
    lemma_nothing_told(t.out, ending_events(t));
}

proof fn lemma_nothing_told(events: Seq<EventV>, more: Seq<EventV>)
    requires
        forall|i: int| 0 <= i < more.len() ==> !((#[trigger] more[i]) is ReasoningDelta),
    ensures
        reasoning_told(events + more) == reasoning_told(events),
    decreases more.len(),
{
    if more.len() == 0 {
        assert(events + more =~= events);
    } else {
        assert((events + more).drop_last() =~= events + more.drop_last());
        assert(!(more[more.len() - 1] is ReasoningDelta));
        assert forall|i: int| 0 <= i < more.drop_last().len() implies !((
        #[trigger] more.drop_last()[i]) is ReasoningDelta) by {
            assert(!(more[i] is ReasoningDelta));
        }
        lemma_nothing_told(events, more.drop_last());
    }
}

/// The completion of a response tells the token counts that were told first in the stream.
pub proof fn first_usage_is_told(id: Seq<char>, chunks: Seq<Seq<u8>>)
    requires
        at_end(id, chunks).ended,
    ensures
        transcript(id, chunks).last() matches EventV::Completed { id: told, usage } && told == id
            && is_first_usage(usage, values_in(blocks(all_bytes(chunks)))),
{
    let list = blocks(all_bytes(chunks));
    let t = at_end(id, chunks);
    lemma_chunks_joined(id, chunks);
    assert(started(id).bytes + all_bytes(chunks) =~= all_bytes(chunks));
    lemma_blocks_taken(id, list);
    lemma_at_end(id, chunks);
    lemma_ending_events(t);
    assert(transcript(id, chunks).last() == ending_events(t).last());
}

} // verus!
