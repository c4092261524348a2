//! The events of a Responses stream and their form on the wire.

use vstd::prelude::*;
use crate::input_items::text_part;
use crate::json::{num, Json, JsonV};
use crate::sse::{carries, done_text, event_text, sse_event};
use crate::text::{concat, decimal, decimal_text};
use crate::value::{one_line, plain};

verus! {

/// The token counts that a stream reports.
#[derive(Clone, Copy, Debug)]
pub struct UsageInfo {
    pub prompt_tokens: u32,
    pub completion_tokens: u32,
    pub total_tokens: u32,
}

/// A call of a tool, put together from the parts that arrive.
#[derive(Debug)]
pub struct ToolCallBuffer {
    pub id: String,
    pub name: String,
    pub arguments: String,
    pub index: u32,
}

/// The model of a call.
pub struct CallV {
    pub id: Seq<char>,
    pub name: Seq<char>,
    pub arguments: Seq<char>,
    pub index: u32,
}

impl View for ToolCallBuffer {
    type V = CallV;

    open spec fn view(&self) -> CallV {
        CallV { id: self.id@, name: self.name@, arguments: self.arguments@, index: self.index }
    }
}

impl ToolCallBuffer {
    /// A copy of a call.
    pub fn copy(&self) -> (r: ToolCallBuffer)
        ensures
            r@ == self@,
    {
        ToolCallBuffer {
            id: self.id.clone(),
            name: self.name.clone(),
            arguments: self.arguments.clone(),
            index: self.index,
        }
    }
}

/// An event of a Responses stream.
#[derive(Debug)]
pub enum ResponsesEvent {
    /// The response has an identifier.
    Created { id: String },
    /// The response is being made.
    InProgress { id: String },
    /// The item for the text begins.
    TextAdded,
    /// More text.
    TextDelta { delta: String },
    /// The item for the reasoning begins.
    ReasoningAdded { place: u64 },
    /// More reasoning.
    ReasoningDelta { place: u64, delta: String },
    /// The item for the text is complete.
    TextDone { text: String },
    /// The reasoning is complete.
    ReasoningDone { place: u64 },
    /// The item for a call begins.
    CallAdded { place: u64, call: ToolCallBuffer },
    /// The arguments of a call are complete.
    ArgumentsDone { place: u64, call: ToolCallBuffer },
    /// The item for a call is complete.
    CallDone { place: u64, call: ToolCallBuffer },
    /// The response is complete.
    Completed { id: String, usage: Option<UsageInfo> },
    /// The response broke off.
    Failed { id: String },
    /// The marker that ends a stream.
    Done,
}

/// The model of an event.
pub enum EventV {
    Created { id: Seq<char> },
    InProgress { id: Seq<char> },
    TextAdded,
    TextDelta { delta: Seq<char> },
    ReasoningAdded { place: u64 },
    ReasoningDelta { place: u64, delta: Seq<char> },
    TextDone { text: Seq<char> },
    ReasoningDone { place: u64 },
    CallAdded { place: u64, call: CallV },
    ArgumentsDone { place: u64, call: CallV },
    CallDone { place: u64, call: CallV },
    Completed { id: Seq<char>, usage: Option<UsageInfo> },
    Failed { id: Seq<char> },
    Done,
}

impl View for ResponsesEvent {
    type V = EventV;

    open spec fn view(&self) -> EventV {
        match self {
            ResponsesEvent::Created { id } => EventV::Created { id: id@ },
            ResponsesEvent::InProgress { id } => EventV::InProgress { id: id@ },
            ResponsesEvent::TextAdded => EventV::TextAdded,
            ResponsesEvent::TextDelta { delta } => EventV::TextDelta { delta: delta@ },
            ResponsesEvent::ReasoningAdded { place } => EventV::ReasoningAdded { place: *place },
            ResponsesEvent::ReasoningDelta { place, delta } => EventV::ReasoningDelta {
                place: *place,
                delta: delta@,
            },
            ResponsesEvent::TextDone { text } => EventV::TextDone { text: text@ },
            ResponsesEvent::ReasoningDone { place } => EventV::ReasoningDone { place: *place },
            ResponsesEvent::CallAdded { place, call } => EventV::CallAdded {
                place: *place,
                call: call@,
            },
            ResponsesEvent::ArgumentsDone { place, call } => EventV::ArgumentsDone {
                place: *place,
                call: call@,
            },
            ResponsesEvent::CallDone { place, call } => EventV::CallDone {
                place: *place,
                call: call@,
            },
            ResponsesEvent::Completed { id, usage } => EventV::Completed { id: id@, usage: *usage },
            ResponsesEvent::Failed { id } => EventV::Failed { id: id@ },
            ResponsesEvent::Done => EventV::Done,
        }
    }
}

/// What a list of events stands for.
pub open spec fn events_view(events: Seq<ResponsesEvent>) -> Seq<EventV> {
    Seq::new(events.len(), |i: int| events[i]@)
}

/// One more event.
pub broadcast proof fn lemma_events_push(events: Seq<ResponsesEvent>, event: ResponsesEvent)
    ensures
        #[trigger] events_view(events.push(event)) == events_view(events).push(event@),
{
    assert(events_view(events.push(event)) =~= events_view(events).push(event@));
}

/// The name of the reasoning item at a place.
pub open spec fn reasoning_id(place: u64) -> Seq<char> {
    decimal(place as nat) + "_reasoning"@
}

/// The part of an event that names the response.
pub open spec fn response_with_id(id: Seq<char>) -> JsonV {
    JsonV::object().set("id"@, JsonV::Str(id))
}

/// The item for the text.
pub open spec fn text_item(text: Seq<char>) -> JsonV {
    JsonV::object().set("type"@, JsonV::Str("message"@)).set(
        "role"@,
        JsonV::Str("assistant"@),
    ).set("content"@, JsonV::Arr(seq![text_part("output_text"@, text)]))
}

/// The item for the reasoning.
pub open spec fn reasoning_item(place: u64) -> JsonV {
    JsonV::object().set("type"@, JsonV::Str("reasoning"@)).set(
        "id"@,
        JsonV::Str(reasoning_id(place)),
    ).set("summary"@, JsonV::Arr(seq![text_part("summary_text"@, ""@)]))
}

/// The item for a call.
pub open spec fn call_item(call: CallV) -> JsonV {
    JsonV::object().set("type"@, JsonV::Str("function_call"@)).set(
        "name"@,
        JsonV::Str(call.name),
    ).set("arguments"@, JsonV::Str(call.arguments)).set("call_id"@, JsonV::Str(call.id))
}

/// The usage of a response.
pub open spec fn usage_value(usage: Option<UsageInfo>) -> JsonV {
    match usage {
        Some(u) => JsonV::object().set("input_tokens"@, num(u.prompt_tokens as u64)).set(
            "input_tokens_details"@,
            JsonV::Null,
        ).set("output_tokens"@, num(u.completion_tokens as u64)).set(
            "output_tokens_details"@,
            JsonV::Null,
        ).set("total_tokens"@, num(u.total_tokens as u64)),
        None => JsonV::Null,
    }
}

/// What is told of a response that broke off.
pub open spec fn incomplete_error() -> JsonV {
    JsonV::object().set("code"@, JsonV::Str("upstream_stream_incomplete"@)).set(
        "message"@,
        JsonV::Str("upstream stream ended before terminal marker"@),
    )
}

impl EventV {
    /// The name of an event; the marker that ends a stream has none.
    pub open spec fn name(self) -> Seq<char> {
        match self {
            EventV::Created { .. } => "response.created"@,
            EventV::InProgress { .. } => "response.in_progress"@,
            EventV::TextAdded => "response.output_item.added"@,
            EventV::TextDelta { .. } => "response.output_text.delta"@,
            EventV::ReasoningAdded { .. } => "response.output_item.added"@,
            EventV::ReasoningDelta { .. } => "response.reasoning_summary_text.delta"@,
            EventV::TextDone { .. } => "response.output_item.done"@,
            EventV::ReasoningDone { .. } => "response.reasoning_summary_text.done"@,
            EventV::CallAdded { .. } => "response.output_item.added"@,
            EventV::ArgumentsDone { .. } => "response.function_call_arguments.done"@,
            EventV::CallDone { .. } => "response.output_item.done"@,
            EventV::Completed { .. } => "response.completed"@,
            EventV::Failed { .. } => "response.failed"@,
            EventV::Done => ""@,
        }
    }

    /// What an event carries besides its type.
    pub open spec fn details(self, typed: JsonV) -> JsonV {
        match self {
            EventV::Created { id } => typed.set("response"@, response_with_id(id)),
            EventV::InProgress { id } => typed.set("response"@, response_with_id(id)),
            EventV::TextAdded => typed.set("output_index"@, num(0)).set("item"@, text_item(""@)),
            EventV::TextDelta { delta } => typed.set("delta"@, JsonV::Str(delta)),
            EventV::ReasoningAdded { place } => typed.set("output_index"@, num(place)).set(
                "item"@,
                reasoning_item(place),
            ),
            EventV::ReasoningDelta { place, delta } => typed.set(
                "item_id"@,
                JsonV::Str(reasoning_id(place)),
            ).set("output_index"@, num(place)).set("summary_index"@, num(0)).set(
                "delta"@,
                JsonV::Str(delta),
            ),
            EventV::TextDone { text } => typed.set("item"@, text_item(text)),
            EventV::ReasoningDone { place } => typed.set(
                "item_id"@,
                JsonV::Str(reasoning_id(place)),
            ),
            EventV::CallAdded { place, call } => typed.set("output_index"@, num(place)).set(
                "item"@,
                call_item(call),
            ),
            EventV::ArgumentsDone { place, call } => typed.set("item_id"@, JsonV::Str(call.id)).set(
                "output_index"@,
                num(place),
            ).set("arguments"@, JsonV::Str(call.arguments)),
            EventV::CallDone { place, call } => typed.set("output_index"@, num(place)).set(
                "item"@,
                call_item(call),
            ),
            EventV::Completed { id, usage } => typed.set(
                "response"@,
                response_with_id(id).set("usage"@, usage_value(usage)),
            ),
            EventV::Failed { id } => typed.set(
                "response"@,
                response_with_id(id).set("error"@, incomplete_error()),
            ),
            EventV::Done => typed,
        }
    }

    /// What an event carries.
    pub open spec fn payload(self) -> JsonV {
        self.details(JsonV::object().set("type"@, JsonV::Str(self.name())))
    }

    /// An event on the wire.
    pub open spec fn wire(self) -> Seq<char> {
        match self {
            EventV::Done => done_text(),
            _ => event_text(self.name(), self.payload()),
        }
    }
}

broadcast proof fn lemma_plain_set(v: JsonV, key: Seq<char>, value: JsonV, depth: nat)
    requires
        v is Obj,
        plain(v, depth),
        plain(value, (depth - 1) as nat),
    ensures
        #[trigger] plain(v.set(key, value), depth),
{
}

proof fn lemma_name_is_one_line(event: EventV)
    ensures
        one_line(event.name()),
{
    reveal_strlit("response.created");
    reveal_strlit("response.in_progress");
    reveal_strlit("response.output_item.added");
    reveal_strlit("response.output_text.delta");
    reveal_strlit("response.reasoning_summary_text.delta");
    reveal_strlit("response.output_item.done");
    reveal_strlit("response.reasoning_summary_text.done");
    reveal_strlit("response.function_call_arguments.done");
    reveal_strlit("response.completed");
    reveal_strlit("response.failed");
    reveal_strlit("");
}

proof fn lemma_payload_is_plain(event: EventV)
    ensures
        plain(event.payload(), 127),
{
    broadcast use lemma_plain_set;

    assert forall|d: nat| d > 0 implies #[trigger] plain(JsonV::object(), d) by {}
    assert forall|kind: Seq<char>, text: Seq<char>, d: nat| d >= 2 implies #[trigger] plain(
        JsonV::Arr(seq![text_part(kind, text)]),
        d,
    ) by {
        assert(plain(text_part(kind, text), (d - 1) as nat));
    }
    assert forall|text: Seq<char>| plain(#[trigger] text_item(text), 126) by {}
    assert forall|place: u64| plain(#[trigger] reasoning_item(place), 126) by {}
    assert forall|call: CallV| plain(#[trigger] call_item(call), 126) by {}
    assert forall|id: Seq<char>| plain(#[trigger] response_with_id(id), 126) by {}
    assert forall|usage: Option<UsageInfo>| plain(#[trigger] usage_value(usage), 125) by {}
    assert(plain(incomplete_error(), 125));
    let typed = JsonV::object().set("type"@, JsonV::Str(event.name()));
    assert(plain(typed, 127));
}

fn build_reasoning_id(place: u64) -> (r: Json)
    ensures
        r@ == JsonV::Str(reasoning_id(place)),
{
    let number = decimal_text(place);
    Json::Str(concat(number.as_str(), "_reasoning"))
}

fn build_text_part(kind: &str, text: &str) -> (r: Json)
    ensures
        r@ == JsonV::Arr(seq![text_part(kind@, text@)]),
{
    Json::single(Json::object().set("type", Json::text(kind)).set("text", Json::text(text)))
}

fn build_text_item(text: &str) -> (r: Json)
    ensures
        r@ == text_item(text@),
{
    Json::object().set("type", Json::text("message")).set("role", Json::text("assistant")).set(
        "content",
        build_text_part("output_text", text),
    )
}

fn build_call_item(call: &ToolCallBuffer) -> (r: Json)
    ensures
        r@ == call_item(call@),
{
    Json::object().set("type", Json::text("function_call")).set(
        "name",
        Json::text(call.name.as_str()),
    ).set("arguments", Json::text(call.arguments.as_str())).set(
        "call_id",
        Json::text(call.id.as_str()),
    )
}

fn build_usage(usage: &Option<UsageInfo>) -> (r: Json)
    ensures
        r@ == usage_value(*usage),
{
    match usage {
        Some(u) => Json::object().set(
            "input_tokens",
            Json::number(u.prompt_tokens as u64),
        ).set("input_tokens_details", Json::Null).set(
            "output_tokens",
            Json::number(u.completion_tokens as u64),
        ).set("output_tokens_details", Json::Null).set(
            "total_tokens",
            Json::number(u.total_tokens as u64),
        ),
        None => Json::Null,
    }
}

fn build_response(id: &str) -> (r: Json)
    ensures
        r@ == response_with_id(id@),
{
    Json::object().set("id", Json::text(id))
}

impl ResponsesEvent {
    /// The name of an event; the marker that ends a stream has none.
    pub fn name(&self) -> (r: &'static str)
        ensures
            r@ == self@.name(),
    {
        match self {
            ResponsesEvent::Created { .. } => "response.created",
            ResponsesEvent::InProgress { .. } => "response.in_progress",
            ResponsesEvent::TextAdded => "response.output_item.added",
            ResponsesEvent::TextDelta { .. } => "response.output_text.delta",
            ResponsesEvent::ReasoningAdded { .. } => "response.output_item.added",
            ResponsesEvent::ReasoningDelta { .. } => "response.reasoning_summary_text.delta",
            ResponsesEvent::TextDone { .. } => "response.output_item.done",
            ResponsesEvent::ReasoningDone { .. } => "response.reasoning_summary_text.done",
            ResponsesEvent::CallAdded { .. } => "response.output_item.added",
            ResponsesEvent::ArgumentsDone { .. } => "response.function_call_arguments.done",
            ResponsesEvent::CallDone { .. } => "response.output_item.done",
            ResponsesEvent::Completed { .. } => "response.completed",
            ResponsesEvent::Failed { .. } => "response.failed",
            ResponsesEvent::Done => "",
        }
    }

    /// What an event carries.
    pub fn payload(&self) -> (r: Json)
        ensures
            r@ == self@.payload(),
    {
        let typed = Json::object().set("type", Json::text(self.name()));
        match self {
            ResponsesEvent::Created { id } => typed.set("response", build_response(id.as_str())),
            ResponsesEvent::InProgress { id } => typed.set(
                "response",
                build_response(id.as_str()),
            ),
            ResponsesEvent::TextAdded => typed.set("output_index", Json::number(0)).set(
                "item",
                build_text_item(""),
            ),
            ResponsesEvent::TextDelta { delta } => typed.set("delta", Json::text(delta.as_str())),
            ResponsesEvent::ReasoningAdded { place } => typed.set(
                "output_index",
                Json::number(*place),
            ).set(
                "item",
                Json::object().set("type", Json::text("reasoning")).set(
                    "id",
                    build_reasoning_id(*place),
                ).set("summary", build_text_part("summary_text", "")),
            ),
            ResponsesEvent::ReasoningDelta { place, delta } => typed.set(
                "item_id",
                build_reasoning_id(*place),
            ).set("output_index", Json::number(*place)).set(
                "summary_index",
                Json::number(0),
            ).set("delta", Json::text(delta.as_str())),
            ResponsesEvent::TextDone { text } => typed.set("item", build_text_item(text.as_str())),
            ResponsesEvent::ReasoningDone { place } => typed.set(
                "item_id",
                build_reasoning_id(*place),
            ),
            ResponsesEvent::CallAdded { place, call } => typed.set(
                "output_index",
                Json::number(*place),
            ).set("item", build_call_item(call)),
            ResponsesEvent::ArgumentsDone { place, call } => typed.set(
                "item_id",
                Json::text(call.id.as_str()),
            ).set("output_index", Json::number(*place)).set(
                "arguments",
                Json::text(call.arguments.as_str()),
            ),
            ResponsesEvent::CallDone { place, call } => typed.set(
                "output_index",
                Json::number(*place),
            ).set("item", build_call_item(call)),
            ResponsesEvent::Completed { id, usage } => typed.set(
                "response",
                build_response(id.as_str()).set("usage", build_usage(usage)),
            ),
            ResponsesEvent::Failed { id } => typed.set(
                "response",
                build_response(id.as_str()).set(
                    "error",
                    Json::object().set("code", Json::text("upstream_stream_incomplete")).set(
                        "message",
                        Json::text("upstream stream ended before terminal marker"),
                    ),
                ),
            ),
            ResponsesEvent::Done => typed,
        }
    }

    /// An event on the wire. Whoever reads it there gets its name and what it carries.
    pub fn to_wire(&self) -> (r: String)
        ensures
            r@ == self@.wire(),
            !(self@ is Done) ==> carries(r@, self@.name(), self@.payload()),
    {
        proof {
            lemma_name_is_one_line(self@);
            lemma_payload_is_plain(self@);
        }
        match self {
            ResponsesEvent::Done => "data: [DONE]\n\n".to_owned(),
            _ => sse_event(self.name(), &self.payload()),
        }
    }
}

} // verus!
