//! What the events of a Responses stream tell whoever reads them.

use vstd::prelude::*;
use crate::json::JsonV;
use crate::keys::lemma_keys_differ;
use crate::responses_event::{CallV, EventV, UsageInfo};
use crate::text::decimal;
use crate::tool_laws::has_only;

verus! {

broadcast use crate::json::group_members;

/// A list with one part: a text of a kind.
pub open spec fn is_one_text(parts: Option<Seq<JsonV>>, kind: Seq<char>, text: Seq<char>) -> bool {
    parts matches Some(list) && list.len() == 1 && list[0].str_at("type"@) == Some(kind)
        && list[0].str_at("text"@) == Some(text)
}

/// A member that is an item with the assistant's text.
pub open spec fn has_text_item(payload: JsonV, text: Seq<char>) -> bool {
    payload.get("item"@) matches Some(item) && item.str_at("type"@) == Some("message"@)
        && item.str_at("role"@) == Some("assistant"@) && is_one_text(
        item.array_at("content"@),
        "output_text"@,
        text,
    )
}

/// A member that is an item with a call.
pub open spec fn has_call_item(payload: JsonV, call: CallV) -> bool {
    payload.get("item"@) matches Some(item) && item.str_at("type"@) == Some("function_call"@)
        && item.str_at("name"@) == Some(call.name) && item.str_at("arguments"@) == Some(
        call.arguments,
    ) && item.str_at("call_id"@) == Some(call.id)
}

/// A member that is a response with an identifier.
pub open spec fn has_response(payload: JsonV, id: Seq<char>) -> bool {
    payload.get("response"@) matches Some(response) && response.str_at("id"@) == Some(id)
}

/// A member of the response that tells the token counts, each number as it was counted; nothing
/// where nothing was counted.
pub open spec fn has_usage(payload: JsonV, usage: Option<UsageInfo>) -> bool {
    payload.get("response"@) matches Some(response) && (response.get("usage"@) matches Some(told)
        && match usage {
        Some(u) => {
            &&& told.u64_at("input_tokens"@) == Some(u.prompt_tokens as u64)
            &&& told.u64_at("output_tokens"@) == Some(u.completion_tokens as u64)
            &&& told.u64_at("total_tokens"@) == Some(u.total_tokens as u64)
            &&& told.get("input_tokens_details"@) == Some(JsonV::Null)
            &&& told.get("output_tokens_details"@) == Some(JsonV::Null)
        },
        None => told is Null,
    })
}

/// What an event carries has the name of the event as its type.
pub proof fn events_tell_their_type(event: EventV)
    ensures
        event.payload().str_at("type"@) == Some(event.name()),
{
    lemma_keys_differ();
}

/// The beginning of a response tells its identifier.
pub proof fn beginning_tells_the_response(id: Seq<char>)
    ensures
        (EventV::Created { id }).name() == "response.created"@,
        has_response((EventV::Created { id }).payload(), id),
        (EventV::InProgress { id }).name() == "response.in_progress"@,
        has_response((EventV::InProgress { id }).payload(), id),
{
    lemma_keys_differ();
}

/// The events of the text tell the text: it begins empty at the first place, grows by what is sent,
/// and is told whole at the end.
pub proof fn text_events_tell_the_text(text: Seq<char>)
    ensures
        (EventV::TextAdded).name() == "response.output_item.added"@,
        has_text_item((EventV::TextAdded).payload(), Seq::empty()),
        (EventV::TextAdded).payload().u64_at("output_index"@) == Some(0u64),
        (EventV::TextDelta { delta: text }).name() == "response.output_text.delta"@,
        (EventV::TextDelta { delta: text }).payload().str_at("delta"@) == Some(text),
        (EventV::TextDone { text }).name() == "response.output_item.done"@,
        has_text_item((EventV::TextDone { text }).payload(), text),
{
    lemma_keys_differ();
    reveal_strlit("");
    assert(""@ =~= Seq::empty());
}

/// The events of the reasoning tell the reasoning, all under one identifier and at one place.
pub proof fn reasoning_events_tell_the_reasoning(place: u64, delta: Seq<char>)
    ensures
        ({
            let id = decimal(place as nat) + "_reasoning"@;
            let added = EventV::ReasoningAdded { place };
            let more = EventV::ReasoningDelta { place, delta };
            let done = EventV::ReasoningDone { place };
            &&& added.name() == "response.output_item.added"@
            &&& added.payload().u64_at("output_index"@) == Some(place)
            &&& added.payload().get("item"@) matches Some(item) && item.str_at("type"@) == Some(
                "reasoning"@,
            ) && item.str_at("id"@) == Some(id) && is_one_text(
                item.array_at("summary"@),
                "summary_text"@,
                Seq::empty(),
            )
            &&& more.name() == "response.reasoning_summary_text.delta"@
            &&& more.payload().str_at("item_id"@) == Some(id)
            &&& more.payload().u64_at("output_index"@) == Some(place)
            &&& more.payload().u64_at("summary_index"@) == Some(0u64)
            &&& more.payload().str_at("delta"@) == Some(delta)
            &&& done.name() == "response.reasoning_summary_text.done"@
            &&& done.payload().str_at("item_id"@) == Some(id)
        }),
{
    lemma_keys_differ();
    reveal_strlit("");
    assert(""@ =~= Seq::empty());
}

/// The events of a call tell the whole call: its identifier, its name, its arguments character by
/// character, and its place.
pub proof fn call_events_tell_the_call(place: u64, call: CallV)
    ensures
        ({
            let added = EventV::CallAdded { place, call };
            let arguments = EventV::ArgumentsDone { place, call };
            let done = EventV::CallDone { place, call };
            &&& added.name() == "response.output_item.added"@
            &&& added.payload().u64_at("output_index"@) == Some(place)
            &&& has_call_item(added.payload(), call)
            &&& arguments.name() == "response.function_call_arguments.done"@
            &&& arguments.payload().str_at("item_id"@) == Some(call.id)
            &&& arguments.payload().u64_at("output_index"@) == Some(place)
            &&& arguments.payload().str_at("arguments"@) == Some(call.arguments)
            &&& done.name() == "response.output_item.done"@
            &&& done.payload().u64_at("output_index"@) == Some(place)
            &&& has_call_item(done.payload(), call)
        }),
{
    lemma_keys_differ();
}

/// The end of a response tells its identifier, and either the token counts or what went wrong.
pub proof fn end_tells_the_outcome(id: Seq<char>, usage: Option<UsageInfo>)
    ensures
        ({
            let completed = EventV::Completed { id, usage };
            let failed = EventV::Failed { id };
            &&& completed.name() == "response.completed"@
            &&& has_response(completed.payload(), id)
            &&& has_usage(completed.payload(), usage)
            &&& failed.name() == "response.failed"@
            &&& has_response(failed.payload(), id)
            &&& failed.payload().get("response"@) matches Some(response) && (response.get(
                "error"@,
            ) matches Some(error) && error.str_at("code"@) == Some("upstream_stream_incomplete"@)
                && error.str_at("message"@) == Some(
                "upstream stream ended before terminal marker"@,
            ))
            &&& (EventV::Done).wire() == "data: [DONE]\n\n"@
        }),
{
    lemma_keys_differ();
}

/// The members that an event carries.
pub open spec fn members_of(event: EventV) -> Set<Seq<char>> {
    match event {
        EventV::Created { .. } | EventV::InProgress { .. } | EventV::Completed { .. }
        | EventV::Failed { .. } => set!["type"@, "response"@],
        EventV::TextAdded => set!["type"@, "output_index"@, "item"@],
        EventV::ReasoningAdded { .. } => set!["type"@, "output_index"@, "item"@],
        EventV::CallAdded { .. } | EventV::CallDone { .. } => set![
            "type"@,
            "output_index"@,
            "item"@,
        ],
        EventV::TextDelta { .. } => set!["type"@, "delta"@],
        EventV::ReasoningDelta { .. } => set![
            "type"@,
            "item_id"@,
            "output_index"@,
            "summary_index"@,
            "delta"@,
        ],
        EventV::TextDone { .. } => set!["type"@, "item"@],
        EventV::ReasoningDone { .. } => set!["type"@, "item_id"@],
        EventV::ArgumentsDone { .. } => set!["type"@, "item_id"@, "output_index"@, "arguments"@],
        EventV::Done => set!["type"@],
    }
}

/// An event carries no other members.
pub proof fn events_carry_nothing_else(event: EventV)
    ensures
        has_only(event.payload(), members_of(event)),
{
}

} // verus!
