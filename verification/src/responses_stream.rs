//! Turning a Chat Completions stream into a Responses stream.

use vstd::prelude::*;
use crate::json::{items_view, or_default, Json, JsonV};
use crate::machine::{fresh_short_id, is_short_id};
use crate::responses_event::{
    events_view, CallV, EventV, ResponsesEvent, ToolCallBuffer, UsageInfo,
};
use crate::responses_response::{function_member, function_name};
use crate::sse::{
    blocks, first_block, is_read_as_utf8, last_sse_value, last_value, leftover, lossy_text,
    take_sse_block,
};
use crate::text::{chars_of, concat, is_blank, str_eq, string_of, trim, trimmed};
use crate::thinking::{filtered, settled_text, unfiltered, ThinkFilter, Thinking};
use crate::value::parsed;

verus! {

broadcast use {crate::json::group_json, crate::responses_event::lemma_events_push};

/// The state of a stream that is being turned: the identifier of the response, the bytes of an
/// incomplete block, how far thinking was taken out, the text so far once its item has begun, the
/// place of the reasoning item once it has begun, the calls so far in the order of their indices,
/// whether the end was announced, the token counts, and the events to send.
pub struct Turned {
    pub id: Seq<char>,
    pub bytes: Seq<u8>,
    pub thinking: Thinking,
    pub text: Option<Seq<char>>,
    pub reasoning: Option<u64>,
    pub calls: Seq<CallV>,
    pub ended: bool,
    pub usage: Option<UsageInfo>,
    pub out: Seq<EventV>,
}

/// The lower half of a 64-bit number.
pub open spec fn low_half(n: u64) -> u32 {
    (n % 0x1_0000_0000) as u32
}

/// The lower half of a number under a key; a missing number is zero.
pub open spec fn count_at(value: JsonV, key: Seq<char>) -> u32 {
    low_half(or_default(value.u64_at(key), 0))
}

/// The token counts that a chunk reports.
pub open spec fn usage_in(data: JsonV) -> Option<UsageInfo> {
    match data.get("usage"@) {
        Some(JsonV::Null) => None,
        Some(usage) => Some(
            UsageInfo {
                prompt_tokens: count_at(usage, "prompt_tokens"@),
                completion_tokens: count_at(usage, "completion_tokens"@),
                total_tokens: count_at(usage, "total_tokens"@),
            },
        ),
        None => None,
    }
}

/// A text, unless it is missing or empty.
pub open spec fn some_text(text: Option<Seq<char>>) -> Option<Seq<char>> {
    match text {
        Some(t) => if t.len() > 0 {
            text
        } else {
            None
        },
        None => None,
    }
}

/// The state with one more event to send.
pub open spec fn sending(t: Turned, event: EventV) -> Turned {
    Turned { out: t.out.push(event), ..t }
}

/// The state after some text. The item for the text begins before the first of it.
pub open spec fn after_text(t: Turned, delta: Seq<char>) -> Turned {
    let open = if t.text is Some {
        t
    } else {
        sending(t, EventV::TextAdded)
    };
    sending(
        Turned { text: Some(or_default(t.text, Seq::empty()) + delta), ..open },
        EventV::TextDelta { delta },
    )
}

/// The state after some content: what is to be seen of it is text.
pub open spec fn after_content(t: Turned, content: Seq<char>) -> Turned {
    let f = filtered(t.thinking, content);
    let next = Turned { thinking: f.at, ..t };
    if f.text.len() > 0 {
        after_text(next, f.text)
    } else {
        next
    }
}

/// The state after some reasoning. The item for the reasoning begins before the first of it, behind
/// the item for the text where that has begun.
pub open spec fn after_reasoning(t: Turned, delta: Seq<char>) -> Turned {
    let place = or_default(
        t.reasoning,
        if t.text is Some {
            1u64
        } else {
            0u64
        },
    );
    let open = if t.reasoning is Some {
        t
    } else {
        sending(t, EventV::ReasoningAdded { place })
    };
    sending(
        Turned { reasoning: Some(place), ..open },
        EventV::ReasoningDelta { place, delta },
    )
}

/// The state after the structured reasoning of a chunk.
pub open spec fn after_details(t: Turned, details: Seq<JsonV>) -> Turned
    decreases details.len(),
{
    if details.len() == 0 {
        t
    } else {
        let before = after_details(t, details.drop_last());
        match some_text(details.last().str_at("text"@)) {
            Some(delta) => after_reasoning(before, delta),
            None => before,
        }
    }
}

/// A call with the parts of it that a chunk brings: an identifier and a name replace the ones
/// before unless they are empty, and arguments are appended.
pub open spec fn merged(call: CallV, part: CallV) -> CallV {
    CallV {
        id: if part.id.len() > 0 {
            part.id
        } else {
            call.id
        },
        name: if part.name.len() > 0 {
            part.name
        } else {
            call.name
        },
        arguments: call.arguments + part.arguments,
        index: call.index,
    }
}

/// A call of which nothing is known yet.
pub open spec fn unknown_call(index: u32) -> CallV {
    CallV { id: Seq::empty(), name: Seq::empty(), arguments: Seq::empty(), index }
}

/// The call with an index.
pub open spec fn call_at(calls: Seq<CallV>, index: u32) -> Option<CallV>
    decreases calls.len(),
{
    if calls.len() == 0 {
        None
    } else if calls.last().index == index {
        Some(calls.last())
    } else {
        call_at(calls.drop_last(), index)
    }
}

/// The calls with one more part, which belongs to the call with the same index. A part without an
/// identifier needs a call that has one.
pub open spec fn with_part(calls: Seq<CallV>, part: CallV) -> Seq<CallV> {
    if part.id.len() == 0 && call_at(calls, part.index) is None {
        calls
    } else {
        placed_part(calls, part)
    }
}

/// The calls with one more part in its place.
pub open spec fn placed_part(calls: Seq<CallV>, part: CallV) -> Seq<CallV>
    decreases calls.len(),
{
    if calls.len() == 0 || calls.last().index < part.index {
        calls.push(merged(unknown_call(part.index), part))
    } else if calls.last().index == part.index {
        calls.drop_last().push(merged(calls.last(), part))
    } else {
        placed_part(calls.drop_last(), part).push(calls.last())
    }
}

/// The arguments that a part of a call brings.
pub open spec fn part_arguments(call: JsonV) -> Seq<char> {
    match function_member(call, "arguments"@) {
        Some(JsonV::Str(s)) => s,
        _ => ""@,
    }
}

/// A part of a call as a chunk has it.
pub open spec fn call_part(call: JsonV) -> CallV {
    CallV {
        id: call.str_or("id"@, ""@),
        name: function_name(call),
        arguments: part_arguments(call),
        index: count_at(call, "index"@),
    }
}

/// The calls after the parts that a chunk brings.
pub open spec fn with_parts(calls: Seq<CallV>, parts: Seq<JsonV>) -> Seq<CallV>
    decreases parts.len(),
{
    if parts.len() == 0 {
        calls
    } else {
        with_part(with_parts(calls, parts.drop_last()), call_part(parts.last()))
    }
}

/// Whether a choice announces the end.
pub open spec fn announces_end(choice: JsonV) -> bool {
    match choice.str_at("finish_reason"@) {
        Some(reason) => trim(reason).len() > 0,
        None => false,
    }
}

/// The state after what a choice brings.
pub open spec fn after_delta(t: Turned, delta: JsonV) -> Turned {
    let spoken = match delta.str_at("content"@) {
        Some(content) => after_content(t, content),
        None => t,
    };
    let reasoned = match some_text(delta.str_at("reasoning_content"@)) {
        Some(text) => after_reasoning(spoken, text),
        None => spoken,
    };
    let detailed = match delta.array_at("reasoning_details"@) {
        Some(details) => after_details(reasoned, details),
        None => reasoned,
    };
    match delta.array_at("tool_calls"@) {
        Some(parts) => Turned { calls: with_parts(detailed.calls, parts), ..detailed },
        None => detailed,
    }
}

/// The state after one more choice; a choice without a delta counts for nothing.
pub open spec fn after_choice(t: Turned, choice: JsonV) -> Turned {
    match choice.get("delta"@) {
        Some(delta) => after_delta(Turned { ended: t.ended || announces_end(choice), ..t }, delta),
        None => t,
    }
}

/// The state after some choices.
pub open spec fn after_choices(t: Turned, choices: Seq<JsonV>) -> Turned
    decreases choices.len(),
{
    if choices.len() == 0 {
        t
    } else {
        after_choice(after_choices(t, choices.drop_last()), choices.last())
    }
}

/// The state after a chunk that was read as JSON.
pub open spec fn after_data(t: Turned, data: JsonV) -> Turned {
    let counted = Turned { usage: crate::json::either(t.usage, usage_in(data)), ..t };
    match data.array_at("choices"@) {
        Some(choices) => after_choices(counted, choices),
        None => counted,
    }
}

/// The state after one more block. The marker of the end is noted; a block without data, and data
/// that is not JSON, count for nothing.
pub open spec fn after_block(t: Turned, block: Seq<char>) -> Turned {
    match last_value(block, "data"@) {
        Some(data) => if trim(data) == "[DONE]"@ {
            Turned { ended: true, ..t }
        } else {
            match parsed(data) {
                Some(value) => after_data(t, value),
                None => t,
            }
        },
        None => t,
    }
}

/// The state after some blocks.
pub open spec fn after_blocks(t: Turned, list: Seq<Seq<u8>>) -> Turned
    decreases list.len(),
{
    if list.len() == 0 {
        t
    } else {
        after_block(after_blocks(t, list.drop_last()), lossy_text(list.last()))
    }
}

/// The state after some more bytes.
pub open spec fn after_bytes(t: Turned, chunk: Seq<u8>) -> Turned {
    let all = t.bytes + chunk;
    Turned { bytes: leftover(all), ..after_blocks(t, blocks(all)) }
}

/// The state before the first byte: the response is announced.
pub open spec fn started(id: Seq<char>) -> Turned {
    Turned {
        id,
        bytes: Seq::empty(),
        thinking: unfiltered(),
        text: None,
        reasoning: None,
        calls: Seq::empty(),
        ended: false,
        usage: None,
        out: seq![EventV::Created { id }, EventV::InProgress { id }],
    }
}

/// A call whose arguments are never empty text.
pub open spec fn completed_call(call: CallV) -> CallV {
    if call.arguments.len() == 0 {
        CallV { arguments: "{}"@, ..call }
    } else {
        call
    }
}

/// The events that report some calls, the first of them at the place `base`.
pub open spec fn call_events(calls: Seq<CallV>, base: int) -> Seq<EventV>
    decreases calls.len(),
{
    if calls.len() == 0 {
        Seq::empty()
    } else {
        let place = (base + calls.len() - 1) as u64;
        let call = completed_call(calls.last());
        call_events(calls.drop_last(), base) + seq![
            EventV::CallAdded { place, call },
            EventV::ArgumentsDone { place, call },
            EventV::CallDone { place, call },
        ]
    }
}

/// The place of the first call: behind the text or the reasoning, where there is any.
pub open spec fn first_call_place(t: Turned) -> int {
    if t.text is Some || t.reasoning is Some {
        1
    } else {
        0
    }
}

/// The events that end a stream whose end was announced.
pub open spec fn closing_events(t: Turned) -> Seq<EventV> {
    let text = match t.text {
        Some(text) => seq![EventV::TextDone { text }],
        None => Seq::empty(),
    };
    let reasoning = match t.reasoning {
        Some(place) => seq![EventV::ReasoningDone { place }],
        None => Seq::empty(),
    };
    text + reasoning + call_events(t.calls, first_call_place(t)) + seq![
        EventV::Completed { id: t.id, usage: t.usage },
    ]
}

/// The state at the end of the bytes: what was held back of the content was no tag.
pub open spec fn settled(t: Turned) -> Turned {
    let held = settled_text(t.thinking);
    if held.len() > 0 {
        after_text(t, held)
    } else {
        t
    }
}

/// The events that end a stream.
pub open spec fn ending_events(t: Turned) -> Seq<EventV> {
    if t.ended {
        closing_events(t)
    } else {
        seq![EventV::Failed { id: t.id }, EventV::Done]
    }
}

/// The events at the end of the bytes: what was held back, and then the end.
pub open spec fn final_events(t: Turned) -> Seq<EventV> {
    let last = settled(Turned { out: Seq::empty(), ..t });
    last.out + ending_events(last)
}

/// A state with other bytes left over and with more events sent before.
pub open spec fn reframed(t: Turned, bytes: Seq<u8>, sent: Seq<EventV>) -> Turned {
    Turned { bytes, out: sent + t.out, ..t }
}

proof fn lemma_sending_reframed(t: Turned, bytes: Seq<u8>, sent: Seq<EventV>, event: EventV)
    ensures
        sending(reframed(t, bytes, sent), event) == reframed(sending(t, event), bytes, sent),
{
    assert((sent + t.out).push(event) =~= sent + t.out.push(event));
}

/// Text does the same whatever bytes are left over and whatever was sent before.
pub proof fn lemma_text_reframed(t: Turned, bytes: Seq<u8>, sent: Seq<EventV>, delta: Seq<char>)
    ensures
        after_text(reframed(t, bytes, sent), delta) == reframed(after_text(t, delta), bytes, sent),
{
    let open = if t.text is Some {
        t
    } else {
        sending(t, EventV::TextAdded)
    };
    let spoken = Turned { text: Some(or_default(t.text, Seq::empty()) + delta), ..open };
    lemma_sending_reframed(t, bytes, sent, EventV::TextAdded);
    lemma_sending_reframed(spoken, bytes, sent, EventV::TextDelta { delta });
}

proof fn lemma_content_reframed(t: Turned, bytes: Seq<u8>, sent: Seq<EventV>, content: Seq<char>)
    ensures
        after_content(reframed(t, bytes, sent), content) == reframed(
            after_content(t, content),
            bytes,
            sent,
        ),
{
    let f = filtered(t.thinking, content);
    lemma_text_reframed(Turned { thinking: f.at, ..t }, bytes, sent, f.text);
}

proof fn lemma_reasoning_reframed(t: Turned, bytes: Seq<u8>, sent: Seq<EventV>, delta: Seq<char>)
    ensures
        after_reasoning(reframed(t, bytes, sent), delta) == reframed(
            after_reasoning(t, delta),
            bytes,
            sent,
        ),
{
    let place = or_default(
        t.reasoning,
        if t.text is Some {
            1u64
        } else {
            0u64
        },
    );
    let open = if t.reasoning is Some {
        t
    } else {
        sending(t, EventV::ReasoningAdded { place })
    };
    let reasoned = Turned { reasoning: Some(place), ..open };
    lemma_sending_reframed(t, bytes, sent, EventV::ReasoningAdded { place });
    lemma_sending_reframed(reasoned, bytes, sent, EventV::ReasoningDelta { place, delta });
}

proof fn lemma_details_reframed(t: Turned, bytes: Seq<u8>, sent: Seq<EventV>, details: Seq<JsonV>)
    ensures
        after_details(reframed(t, bytes, sent), details) == reframed(
            after_details(t, details),
            bytes,
            sent,
        ),
    decreases details.len(),
{
    if details.len() > 0 {
        lemma_details_reframed(t, bytes, sent, details.drop_last());
        if let Some(delta) = some_text(details.last().str_at("text"@)) {
            lemma_reasoning_reframed(after_details(t, details.drop_last()), bytes, sent, delta);
        }
    }
}

proof fn lemma_delta_reframed(t: Turned, bytes: Seq<u8>, sent: Seq<EventV>, delta: JsonV)
    ensures
        after_delta(reframed(t, bytes, sent), delta) == reframed(after_delta(t, delta), bytes, sent),
{
    let content = delta.str_at("content"@);
    let reasoning = some_text(delta.str_at("reasoning_content"@));
    let spoken = match content {
        Some(text) => after_content(t, text),
        None => t,
    };
    let reasoned = match reasoning {
        Some(text) => after_reasoning(spoken, text),
        None => spoken,
    };
    if let Some(text) = content {
        lemma_content_reframed(t, bytes, sent, text);
    }
    if let Some(text) = reasoning {
        lemma_reasoning_reframed(spoken, bytes, sent, text);
    }
    if let Some(details) = delta.array_at("reasoning_details"@) {
        lemma_details_reframed(reasoned, bytes, sent, details);
    }
}

proof fn lemma_choices_reframed(t: Turned, bytes: Seq<u8>, sent: Seq<EventV>, choices: Seq<JsonV>)
    ensures
        after_choices(reframed(t, bytes, sent), choices) == reframed(
            after_choices(t, choices),
            bytes,
            sent,
        ),
    decreases choices.len(),
{
    if choices.len() > 0 {
        let choice = choices.last();
        let before = after_choices(t, choices.drop_last());
        lemma_choices_reframed(t, bytes, sent, choices.drop_last());
        if let Some(delta) = choice.get("delta"@) {
            lemma_delta_reframed(
                Turned { ended: before.ended || announces_end(choice), ..before },
                bytes,
                sent,
                delta,
            );
        }
    }
}

proof fn lemma_block_reframed(t: Turned, bytes: Seq<u8>, sent: Seq<EventV>, block: Seq<char>)
    ensures
        after_block(reframed(t, bytes, sent), block) == reframed(after_block(t, block), bytes, sent),
{
    if let Some(data) = last_value(block, "data"@) {
        if let Some(value) = parsed(data) {
            if let Some(choices) = value.array_at("choices"@) {
                let counted = Turned { usage: crate::json::either(t.usage, usage_in(value)), ..t };
                lemma_choices_reframed(counted, bytes, sent, choices);
            }
        }
    }
}

/// Blocks do the same whatever bytes are left over and whatever was sent before.
pub proof fn lemma_blocks_reframed(t: Turned, bytes: Seq<u8>, sent: Seq<EventV>, list: Seq<Seq<u8>>)
    ensures
        after_blocks(reframed(t, bytes, sent), list) == reframed(
            after_blocks(t, list),
            bytes,
            sent,
        ),
    decreases list.len(),
{
    if list.len() > 0 {
        lemma_blocks_reframed(t, bytes, sent, list.drop_last());
        lemma_block_reframed(
            after_blocks(t, list.drop_last()),
            bytes,
            sent,
            lossy_text(list.last()),
        );
    }
}

/// A stream that is being turned.
pub struct ResponsesStream {
    id: String,
    bytes: Vec<u8>,
    thinking: ThinkFilter,
    text: Option<String>,
    reasoning: Option<u64>,
    calls: Vec<ToolCallBuffer>,
    ended: bool,
    usage: Option<UsageInfo>,
    out: Vec<ResponsesEvent>,
}

/// What a list of calls stands for.
pub open spec fn calls_view(calls: Seq<ToolCallBuffer>) -> Seq<CallV> {
    Seq::new(calls.len(), |i: int| calls[i]@)
}

impl View for ResponsesStream {
    type V = Turned;

    closed spec fn view(&self) -> Turned {
        Turned {
            id: self.id@,
            bytes: self.bytes@,
            thinking: self.thinking@,
            text: match self.text {
                Some(s) => Some(s@),
                None => None,
            },
            reasoning: self.reasoning,
            calls: calls_view(self.calls@),
            ended: self.ended,
            usage: self.usage,
            out: events_view(self.out@),
        }
    }
}

fn low_half_of(n: u64) -> (r: u32)
    ensures
        r == low_half(n),
{
    (n % 0x1_0000_0000) as u32
}

fn count_of(value: &Json, key: &str) -> (r: u32)
    ensures
        r == count_at(value@, key@),
{
    match value.u64_at(key) {
        Some(n) => low_half_of(n),
        None => low_half_of(0),
    }
}

fn read_usage(data: &Json) -> (r: Option<UsageInfo>)
    ensures
        r == usage_in(data@),
{
    match data.get("usage") {
        Some(usage) => match usage {
            Json::Null => None,
            _ => Some(
                UsageInfo {
                    prompt_tokens: count_of(usage, "prompt_tokens"),
                    completion_tokens: count_of(usage, "completion_tokens"),
                    total_tokens: count_of(usage, "total_tokens"),
                },
            ),
        },
        None => None,
    }
}

fn read_text<'a>(value: &'a Json, key: &str) -> (r: Option<&'a str>)
    ensures
        crate::json::opt_text(r) == some_text(value@.str_at(key@)),
{
    match value.str_at(key) {
        Some(s) => if s.is_empty() {
            None
        } else {
            Some(s)
        },
        None => None,
    }
}

fn read_part(call: &Json) -> (r: ToolCallBuffer)
    ensures
        r@ == call_part(call@),
{
    let name = match call.get("function") {
        Some(f) => f.str_or("name", ""),
        None => "",
    };
    let arguments = match call.get("function") {
        Some(f) => f.str_or("arguments", ""),
        None => "",
    };
    ToolCallBuffer {
        id: call.str_or("id", "").to_owned(),
        name: name.to_owned(),
        arguments: arguments.to_owned(),
        index: count_of(call, "index"),
    }
}

fn merge(call: &ToolCallBuffer, part: ToolCallBuffer) -> (r: ToolCallBuffer)
    ensures
        r@ == merged(call@, part@),
{
    ToolCallBuffer {
        id: if part.id.as_str().is_empty() {
            call.id.clone()
        } else {
            part.id
        },
        name: if part.name.as_str().is_empty() {
            call.name.clone()
        } else {
            part.name
        },
        arguments: concat(call.arguments.as_str(), part.arguments.as_str()),
        index: call.index,
    }
}

fn has_call_at(calls: &Vec<ToolCallBuffer>, index: u32) -> (r: bool)
    ensures
        r == (call_at(calls_view(calls@), index) is Some),
{
    let ghost list = calls_view(calls@);
    let mut i: usize = 0;
    while i < calls.len()
        invariant
            i <= calls@.len(),
            list == calls_view(calls@),
            call_at(list.take(i as int), index) is None,
        decreases calls@.len() - i,
    {
        assert(list.take(i + 1).drop_last() =~= list.take(i as int));
        if calls[i].index == index {
            proof {
                lemma_call_found(list, i as int);
            }
            return true;
        }
        i += 1;
    }
    assert(list.take(i as int) =~= list);
    false
}

proof fn lemma_call_found(calls: Seq<CallV>, i: int)
    requires
        0 <= i < calls.len(),
    ensures
        call_at(calls, calls[i].index) is Some,
    decreases calls.len(),
{
    if i < calls.len() - 1 {
        lemma_call_found(calls.drop_last(), i);
    }
}

proof fn lemma_placed_part_at(calls: Seq<CallV>, part: CallV, k: int)
    requires
        0 <= k <= calls.len(),
        forall|j: int| k <= j < calls.len() ==> (#[trigger] calls[j]).index > part.index,
    ensures
        placed_part(calls, part) == placed_part(calls.take(k), part) + calls.skip(k),
    decreases calls.len(),
{
    if k < calls.len() {
        let shorter = calls.drop_last();
        assert(calls.last().index > part.index);
        assert forall|j: int| k <= j < shorter.len() implies (#[trigger] shorter[j]).index
            > part.index by {
            assert(calls[j].index > part.index);
        }
        lemma_placed_part_at(shorter, part, k);
        assert(shorter.take(k) =~= calls.take(k));
        assert(shorter.skip(k).push(calls.last()) =~= calls.skip(k));
        assert(placed_part(calls, part) =~= placed_part(calls.take(k), part) + calls.skip(k));
    } else {
        assert(calls.take(k) =~= calls);
        assert(placed_part(calls, part) =~= placed_part(calls, part) + calls.skip(k));
    }
}

fn add_part(calls: &mut Vec<ToolCallBuffer>, part: ToolCallBuffer)
    ensures
        calls_view(final(calls)@) == with_part(calls_view(old(calls)@), part@),
{
    let ghost before = calls_view(calls@);
    let ghost p = part@;
    if part.id.as_str().is_empty() && !has_call_at(calls, part.index) {
        return;
    }
    let mut k: usize = calls.len();
    while k > 0 && calls[k - 1].index > part.index
        invariant
            k <= calls@.len(),
            before == calls_view(calls@),
            calls@ == old(calls)@,
            p == part@,
            forall|j: int| k <= j < before.len() ==> (#[trigger] before[j]).index > p.index,
        decreases k,
    {
        k -= 1;
    }
    proof {
        lemma_placed_part_at(before, p, k as int);
        if k > 0 {
            assert(before.take(k as int).last() == before[k - 1]);
        }
    }
    if k > 0 && calls[k - 1].index == part.index {
        let call = merge(&calls[k - 1], part);
        calls.set(k - 1, call);
        assert(calls_view(calls@) =~= before.take(k as int).drop_last().push(
            merged(before[k - 1], p),
        ) + before.skip(k as int));
    } else {
        let unknown = ToolCallBuffer {
            id: String::new(),
            name: String::new(),
            arguments: String::new(),
            index: part.index,
        };
        let call = merge(&unknown, part);
        assert(unknown@ == unknown_call(p.index));
        calls.insert(k, call);
        assert(calls_view(calls@) =~= before.take(k as int).push(merged(unknown_call(p.index), p))
            + before.skip(k as int));
    }
}

fn push_call_events(out: &mut Vec<ResponsesEvent>, calls: &Vec<ToolCallBuffer>, base: u64)
    requires
        base <= 1,
    ensures
        events_view(final(out)@) == events_view(old(out)@) + call_events(
            calls_view(calls@),
            base as int,
        ),
{
    let ghost before = events_view(out@);
    let ghost list = calls_view(calls@);
    let mut i: usize = 0;
    assert(before =~= before + call_events(list.take(0), base as int));
    while i < calls.len()
        invariant
            i <= calls@.len(),
            base <= 1,
            list == calls_view(calls@),
            events_view(out@) == before + call_events(list.take(i as int), base as int),
        decreases calls@.len() - i,
    {
        assert(list.take(i + 1).drop_last() =~= list.take(i as int));
        assert(i < calls.len());
        let place = base + i as u64;
        let arguments = if calls[i].arguments.as_str().is_empty() {
            "{}".to_owned()
        } else {
            calls[i].arguments.clone()
        };
        let call = ToolCallBuffer { arguments, ..calls[i].copy() };
        assert(call@ == completed_call(list[i as int]));
        out.push(ResponsesEvent::CallAdded { place, call: call.copy() });
        out.push(ResponsesEvent::ArgumentsDone { place, call: call.copy() });
        out.push(ResponsesEvent::CallDone { place, call });
        i += 1;
        assert(events_view(out@) =~= before + call_events(list.take(i as int), base as int));
    }
    assert(list.take(i as int) =~= list);
}

fn is_done_marker(data: &str) -> (r: bool)
    ensures
        r == (trim(data@) == "[DONE]"@),
{
    let t = trimmed(&chars_of(data));
    assert(t@.subrange(0, t@.len() as int) =~= t@);
    str_eq(string_of(&t, 0, t.len()).as_str(), "[DONE]")
}

impl ResponsesStream {
    /// The invariant of a stream between two calls: nothing waits to be sent.
    pub closed spec fn wf(&self) -> bool {
        self.out@.len() == 0 && self.inv()
    }

    closed spec fn inv(&self) -> bool {
        self.thinking.wf()
    }

    fn text(&mut self, delta: &str)
        requires
            old(self).inv(),
        ensures
            final(self).inv(),
            final(self)@ == after_text(old(self)@, delta@),
    {
        let text = match &self.text {
            Some(text) => concat(text.as_str(), delta),
            None => {
                self.out.push(ResponsesEvent::TextAdded);
                let text = delta.to_owned();
                assert(text@ =~= Seq::empty() + delta@);
                text
            },
        };
        self.text = Some(text);
        self.out.push(ResponsesEvent::TextDelta { delta: delta.to_owned() });
    }

    fn content(&mut self, content: &str)
        requires
            old(self).inv(),
        ensures
            final(self).inv(),
            final(self)@ == after_content(old(self)@, content@),
    {
        let text = self.thinking.filter(content);
        if !text.as_str().is_empty() {
            self.text(text.as_str());
        }
    }

    fn reasoning(&mut self, delta: &str)
        requires
            old(self).inv(),
        ensures
            final(self).inv(),
            final(self)@ == after_reasoning(old(self)@, delta@),
    {
        let place: u64 = match self.reasoning {
            Some(place) => place,
            None => {
                let place: u64 = if self.text.is_some() {
                    1
                } else {
                    0
                };
                self.out.push(ResponsesEvent::ReasoningAdded { place });
                place
            },
        };
        self.reasoning = Some(place);
        self.out.push(ResponsesEvent::ReasoningDelta { place, delta: delta.to_owned() });
    }

    fn details(&mut self, details: &Vec<Json>)
        requires
            old(self).inv(),
        ensures
            final(self).inv(),
            final(self)@ == after_details(old(self)@, items_view(details@)),
    {
        let ghost list = items_view(details@);
        let mut i: usize = 0;
        while i < details.len()
            invariant
                i <= details@.len(),
                list == items_view(details@),
                self.inv(),
                self@ == after_details(old(self)@, list.take(i as int)),
            decreases details@.len() - i,
        {
            assert(list.take(i + 1).drop_last() =~= list.take(i as int));
            if let Some(delta) = read_text(&details[i], "text") {
                self.reasoning(delta);
            }
            i += 1;
        }
        assert(list.take(i as int) =~= list);
    }

    fn parts(&mut self, parts: &Vec<Json>)
        requires
            old(self).inv(),
        ensures
            final(self).inv(),
            final(self)@ == (Turned {
                calls: with_parts(old(self)@.calls, items_view(parts@)),
                ..old(self)@
            }),
    {
        let ghost list = items_view(parts@);
        let mut i: usize = 0;
        while i < parts.len()
            invariant
                i <= parts@.len(),
                list == items_view(parts@),
                self.inv(),
                self@ == (Turned {
                    calls: with_parts(old(self)@.calls, list.take(i as int)),
                    ..old(self)@
                }),
            decreases parts@.len() - i,
        {
            assert(list.take(i + 1).drop_last() =~= list.take(i as int));
            add_part(&mut self.calls, read_part(&parts[i]));
            i += 1;
        }
        assert(list.take(i as int) =~= list);
    }

    fn choice(&mut self, choice: &Json)
        requires
            old(self).inv(),
        ensures
            final(self).inv(),
            final(self)@ == after_choice(old(self)@, choice@),
    {
        if let Some(delta) = choice.get("delta") {
            if let Some(reason) = choice.str_at("finish_reason") {
                if !is_blank(reason) {
                    self.ended = true;
                }
            }
            if let Some(content) = delta.str_at("content") {
                self.content(content);
            }
            if let Some(text) = read_text(delta, "reasoning_content") {
                self.reasoning(text);
            }
            if let Some(details) = delta.array_at("reasoning_details") {
                self.details(details);
            }
            if let Some(parts) = delta.array_at("tool_calls") {
                self.parts(parts);
            }
        }
    }

    fn data(&mut self, data: &Json)
        requires
            old(self).inv(),
        ensures
            final(self).inv(),
            final(self)@ == after_data(old(self)@, data@),
    {
        if self.usage.is_none() {
            self.usage = read_usage(data);
        }
        let ghost counted = self@;
        if let Some(choices) = data.array_at("choices") {
            let ghost list = items_view(choices@);
            let mut i: usize = 0;
            while i < choices.len()
                invariant
                    i <= choices@.len(),
                    list == items_view(choices@),
                    self.inv(),
                    self@ == after_choices(counted, list.take(i as int)),
                decreases choices@.len() - i,
            {
                assert(list.take(i + 1).drop_last() =~= list.take(i as int));
                self.choice(&choices[i]);
                i += 1;
            }
            assert(list.take(i as int) =~= list);
        }
    }

    fn block(&mut self, block: &str)
        requires
            old(self).inv(),
        ensures
            final(self).inv(),
            final(self)@ == after_block(old(self)@, block@),
    {
        if let Some(data) = last_sse_value(block, "data") {
            if is_done_marker(data.as_str()) {
                self.ended = true;
            } else if let Some(value) = Json::parse(data.as_str()) {
                self.data(&value);
            }
        }
    }

    /// Begins a stream for a response with the given identifier, and returns the events that
    /// announce it.
    pub fn start_with_id(id: String) -> (r: (ResponsesStream, Vec<ResponsesEvent>))
        ensures
            r.0.wf(),
            r.0@ == (Turned { out: Seq::empty(), ..started(id@) }),
            events_view(r.1@) == started(id@).out,
    {
        let mut events: Vec<ResponsesEvent> = Vec::new();
        events.push(ResponsesEvent::Created { id: id.clone() });
        events.push(ResponsesEvent::InProgress { id: id.clone() });
        let stream = ResponsesStream {
            id,
            bytes: Vec::new(),
            thinking: ThinkFilter::new(),
            text: None,
            reasoning: None,
            calls: Vec::new(),
            ended: false,
            usage: None,
            out: Vec::new(),
        };
        assert(events_view(events@) =~= started(id@).out);
        assert(stream@.calls =~= Seq::empty());
        assert(stream@.out =~= Seq::empty());
        (stream, events)
    }

    /// Begins a stream for a response with a random identifier, and returns the events that
    /// announce it.
    pub fn start() -> (r: (ResponsesStream, Vec<ResponsesEvent>))
        ensures
            r.0.wf(),
            exists|short: Seq<char>| #[trigger]
                is_short_id(short) && r.0@ == (Turned {
                    out: Seq::empty(),
                    ..started("resp_"@ + short)
                }) && events_view(r.1@) == started("resp_"@ + short).out,
    {
        let short = fresh_short_id();
        Self::start_with_id(concat("resp_", short.as_str()))
    }

    fn drain(&mut self) -> (r: Vec<ResponsesEvent>)
        requires
            old(self).inv(),
        ensures
            final(self).wf(),
            final(self)@ == (Turned { out: Seq::empty(), ..old(self)@ }),
            events_view(r@) == old(self)@.out,
    {
        let mut events: Vec<ResponsesEvent> = Vec::new();
        std::mem::swap(&mut events, &mut self.out);
        assert(self@.out =~= Seq::empty());
        events
    }

    /// Takes a chunk that was read as JSON, and returns the events to send for it.
    pub fn take_data(&mut self, data: &Json) -> (r: Vec<ResponsesEvent>)
        requires
            old(self).wf(),
        ensures
            final(self).wf(),
            final(self)@ == (Turned { out: Seq::empty(), ..after_data(old(self)@, data@) }),
            events_view(r@) == after_data(old(self)@, data@).out,
    {
        self.data(data);
        self.drain()
    }

    /// Takes a block in text form, and returns the events to send for it.
    pub fn take_block(&mut self, block: &str) -> (r: Vec<ResponsesEvent>)
        requires
            old(self).wf(),
        ensures
            final(self).wf(),
            final(self)@ == (Turned { out: Seq::empty(), ..after_block(old(self)@, block@) }),
            events_view(r@) == after_block(old(self)@, block@).out,
    {
        self.block(block);
        self.drain()
    }

    /// Takes the next bytes of the stream, and returns the events to send for them. Blocks of valid
    /// UTF-8 are read as the text that they encode.
    pub fn feed(&mut self, chunk: &[u8]) -> (r: Vec<ResponsesEvent>)
        requires
            old(self).wf(),
        ensures
            final(self).wf(),
            final(self)@ == (Turned { out: Seq::empty(), ..after_bytes(old(self)@, chunk@) }),
            events_view(r@) == after_bytes(old(self)@, chunk@).out,
            forall|i: int|
                0 <= i < blocks(old(self)@.bytes + chunk@).len() ==> is_read_as_utf8(
                    #[trigger] blocks(old(self)@.bytes + chunk@)[i],
                ),
    {
        let ghost first = self@;
        let ghost all = first.bytes + chunk@;
        self.bytes.extend_from_slice(chunk);
        assert(self@.bytes =~= all);
        let ghost mut done: Seq<Seq<u8>> = Seq::empty();
        loop
            invariant_except_break
                self.inv(),
                self@ == (Turned { bytes: self@.bytes, ..after_blocks(first, done) }),
                blocks(all) == done + blocks(self@.bytes),
                leftover(all) == leftover(self@.bytes),
                forall|i: int| 0 <= i < done.len() ==> is_read_as_utf8(#[trigger] done[i]),
            ensures
                self.inv(),
                self@ == (Turned { bytes: leftover(all), ..after_blocks(first, blocks(all)) }),
                forall|i: int|
                    0 <= i < blocks(all).len() ==> is_read_as_utf8(#[trigger] blocks(all)[i]),
            decreases self.bytes@.len(),
        {
            let ghost before = self@;
            proof {
                crate::sse::lemma_next_break(before.bytes, 0);
            }
            match take_sse_block(&mut self.bytes) {
                Some(block) => {
                    let ghost cut = first_block(before.bytes);
                    let ghost taken = self@;
                    self.block(block.as_str());
                    proof {
                        let last = after_blocks(first, done);
                        let none = Seq::<EventV>::empty();
                        assert(none + last.out =~= last.out);
                        assert(taken == reframed(last, taken.bytes, none));
                        lemma_block_reframed(last, taken.bytes, none, block@);
                        assert(none + after_block(last, block@).out =~= after_block(
                            last,
                            block@,
                        ).out);
                        assert(done.push(cut).drop_last() =~= done);
                        assert(done.push(cut) + blocks(self@.bytes) =~= blocks(all));
                        done = done.push(cut);
                    }
                },
                None => {
                    assert(done =~= blocks(all));
                    break;
                },
            }
        }
        self.drain()
    }

    /// Ends the stream, and returns the last events.
    pub fn finish(&self) -> (r: Vec<ResponsesEvent>)
        ensures
            events_view(r@) == final_events(self@),
    {
        let ghost last = settled(Turned { out: Seq::empty(), ..self@ });
        let mut events: Vec<ResponsesEvent> = Vec::new();
        let mut text: Option<String> = self.text.clone();
        assert(events_view(events@) =~= Seq::empty());
        let held = self.thinking.settle();
        if !held.as_str().is_empty() {
            let before = match &self.text {
                Some(text) => text.clone(),
                None => {
                    events.push(ResponsesEvent::TextAdded);
                    String::new()
                },
            };
            text = Some(concat(before.as_str(), held.as_str()));
            events.push(ResponsesEvent::TextDelta { delta: held });
        }
        assert(events_view(events@) == last.out);
        if !self.ended {
            events.push(ResponsesEvent::Failed { id: self.id.clone() });
            events.push(ResponsesEvent::Done);
            assert(events_view(events@) =~= final_events(self@));
            return events;
        }
        let base: u64 = if text.is_some() || self.reasoning.is_some() {
            1
        } else {
            0
        };
        if let Some(text) = text {
            events.push(ResponsesEvent::TextDone { text });
        }
        if let Some(place) = self.reasoning {
            events.push(ResponsesEvent::ReasoningDone { place });
        }
        push_call_events(&mut events, &self.calls, base);
        events.push(ResponsesEvent::Completed { id: self.id.clone(), usage: self.usage });
        assert(events_view(events@) =~= final_events(self@));
        events
    }
}

} // verus!
