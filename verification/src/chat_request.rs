//! Turning a Responses request into a Chat Completions request.

use vstd::prelude::*;
use crate::chat_messages::{
    are_encoded_once, chat_messages, convert_input_with_ids,
    convert_responses_input_to_chat_messages, drawn_for, ids_needed, no_pending_call,
    system_message, text_message,
};
use crate::error::ProxyError;
use crate::json::{either, gather, items_view, opt_str, or_default, owned_view, Json, JsonV};
use crate::responses_request::{reasoning_of, reasoning_setting};
use crate::text::{concat, decimal, decimal_text, str_eq, texts};
use crate::value::parsed;

verus! {

broadcast use crate::json::group_json;

/// The input items of a request.
pub open spec fn input_list(body: JsonV) -> Seq<JsonV> {
    or_default(body.array_at("input"@), Seq::empty())
}

/// The instructions of a request as a system message; empty instructions give none.
pub open spec fn opening(body: JsonV) -> Seq<JsonV> {
    let instructions = body.str_or("instructions"@, ""@);
    if instructions.len() > 0 {
        seq![text_message("system"@, instructions)]
    } else {
        Seq::empty()
    }
}

/// The parameters of a tool, which may be given as an object or as JSON text.
pub open spec fn tool_parameters(tool: JsonV) -> JsonV {
    match tool.get("arguments"@) {
        Some(JsonV::Obj(m)) => JsonV::Obj(m),
        Some(JsonV::Str(s)) => or_default(parsed(s), JsonV::object()),
        _ => JsonV::object(),
    }
}

/// A tool of a Chat Completions request; only functions have one.
pub open spec fn chat_tool(tool: JsonV) -> Option<JsonV> {
    if tool.str_or("type"@, "function"@) == "function"@ {
        Some(
            JsonV::object().set("type"@, JsonV::Str("function"@)).set(
                "function"@,
                JsonV::object().set("name"@, JsonV::Str(tool.str_or("name"@, ""@))).set(
                    "description"@,
                    or_default(tool.get("description"@), JsonV::Null),
                ).set("parameters"@, tool_parameters(tool)),
            ),
        )
    } else {
        None
    }
}

/// The functions among the tools of a request.
pub open spec fn chat_tools(tools: Seq<JsonV>) -> Seq<JsonV> {
    gather(tools, |tool: JsonV| chat_tool(tool))
}

/// The tools of a request.
pub open spec fn tool_list(body: JsonV) -> Seq<JsonV> {
    or_default(body.array_at("tools"@), Seq::empty())
}

/// Whether a request has tools and none of them is a function.
pub open spec fn only_unsupported(body: JsonV) -> bool {
    tool_list(body).len() > 0 && chat_tools(tool_list(body)).len() == 0
}

/// The message of the error for a request with unsupported tools only.
pub open spec fn unsupported_tools(count: nat) -> Seq<char> {
    "No supported tools: MiniMax only accepts 'function' type, but got "@ + decimal(count)
        + " tool(s) of other types"@
}

/// A list, unless it is empty.
pub open spec fn unless_empty(items: Seq<JsonV>) -> Option<JsonV> {
    if items.len() > 0 {
        Some(JsonV::Arr(items))
    } else {
        None
    }
}

/// The Chat Completions request with the given messages and tools.
pub open spec fn request_with(body: JsonV, messages: Seq<JsonV>, tools: Seq<JsonV>) -> JsonV {
    JsonV::object()
        .set_opt("model"@, opt_str(body.str_at("model"@)))
        .set_opt("stream"@, body.get("stream"@))
        .set_opt("temperature"@, body.get("temperature"@))
        .set_opt("top_p"@, body.get("top_p"@))
        .set_opt("max_tokens"@, either(body.get("max_tokens"@), body.get("max_output_tokens"@)))
        .set_opt("reasoning"@, reasoning_of(body))
        .set_opt("messages"@, unless_empty(messages))
        .set_opt("tools"@, unless_empty(tools))
}

/// The Chat Completions request with the messages for the input of a Responses request, or the
/// message of the error with which it is refused where its tools are all unsupported.
pub open spec fn request_for(body: JsonV, messages: Seq<JsonV>) -> Result<JsonV, Seq<char>> {
    if only_unsupported(body) {
        Err(unsupported_tools(tool_list(body).len()))
    } else {
        Ok(request_with(body, opening(body) + messages, chat_tools(tool_list(body))))
    }
}

/// The Chat Completions request for a Responses request, or the message of the error with which
/// it is refused: an output without a call comes first, then tools that are all unsupported.
pub open spec fn chat_request(body: JsonV, fresh: Seq<Seq<char>>) -> Result<JsonV, Seq<char>> {
    match chat_messages(input_list(body), fresh) {
        Some(messages) => request_for(body, messages),
        None => Err(no_pending_call()),
    }
}

/// An outcome of a conversion is the expected one.
pub open spec fn is_outcome(r: Result<Json, ProxyError>, expected: Result<JsonV, Seq<char>>) -> bool {
    match r {
        Ok(value) => expected == Ok::<JsonV, Seq<char>>(value@),
        Err(e) => expected == Err::<JsonV, Seq<char>>(e.text()),
    }
}

fn build_tool_parameters(tool: &Json) -> (r: Json)
    ensures
        r@ == tool_parameters(tool@),
{
    match tool.get("arguments") {
        Some(arguments) => match arguments {
            Json::Obj(_) => arguments.copy(),
            Json::Str(s) => match Json::parse(s.as_str()) {
                Some(v) => v,
                None => Json::object(),
            },
            _ => Json::object(),
        },
        None => Json::object(),
    }
}

fn build_tool(tool: &Json) -> (r: Option<Json>)
    ensures
        owned_view(r) == chat_tool(tool@),
{
    if !str_eq(tool.str_or("type", "function"), "function") {
        return None;
    }
    let description = match tool.get("description") {
        Some(v) => v.copy(),
        None => Json::Null,
    };
    let function = Json::object().set("name", Json::text(tool.str_or("name", ""))).set(
        "description",
        description,
    ).set("parameters", build_tool_parameters(tool));
    Some(Json::object().set("type", Json::text("function")).set("function", function))
}

fn build_tools(tools: &Vec<Json>) -> (r: Vec<Json>)
    ensures
        items_view(r@) == chat_tools(items_view(tools@)),
{
    let ghost list = items_view(tools@);
    let mut kept: Vec<Json> = Vec::new();
    let mut i: usize = 0;
    while i < tools.len()
        invariant
            i <= tools@.len(),
            list == items_view(tools@),
            items_view(kept@) == gather(list.take(i as int), |tool: JsonV| chat_tool(tool)),
        decreases tools@.len() - i,
    {
        proof {
            crate::json::lemma_gather_next(list, i as int, |tool: JsonV| chat_tool(tool));
        }
        if let Some(tool) = build_tool(&tools[i]) {
            kept.push(tool);
        }
        i += 1;
    }
    assert(list.take(i as int) =~= list);
    kept
}

fn list_unless_empty(items: Vec<Json>) -> (r: Option<Json>)
    ensures
        owned_view(r) == unless_empty(items_view(items@)),
{
    if items.len() > 0 {
        Some(Json::Arr(items))
    } else {
        None
    }
}

/// The messages of a request: its instructions, and behind them the messages for its items.
fn build_messages(body: &Json, messages: Vec<Json>) -> (r: Vec<Json>)
    ensures
        items_view(r@) == opening(body@) + items_view(messages@),
{
    let mut messages = messages;
    let ghost before = items_view(messages@);
    let instructions = body.str_or("instructions", "");
    if !instructions.is_empty() {
        messages.insert(0, system_message(instructions));
        assert(items_view(messages@) =~= seq![text_message("system"@, instructions@)] + before);
    } else {
        assert(items_view(messages@) =~= Seq::empty() + before);
    }
    messages
}

fn build_request(body: &Json, messages: Vec<Json>, tools: Vec<Json>) -> (r: Json)
    ensures
        r@ == request_with(body@, items_view(messages@), items_view(tools@)),
{
    let max_tokens = match body.get_copy("max_tokens") {
        Some(v) => Some(v),
        None => body.get_copy("max_output_tokens"),
    };
    Json::object()
        .set_opt("model", body.get_text("model"))
        .set_opt("stream", body.get_copy("stream"))
        .set_opt("temperature", body.get_copy("temperature"))
        .set_opt("top_p", body.get_copy("top_p"))
        .set_opt("max_tokens", max_tokens)
        .set_opt("reasoning", reasoning_setting(body))
        .set_opt("messages", list_unless_empty(messages))
        .set_opt("tools", list_unless_empty(tools))
}

fn unsupported_tools_error(count: usize) -> (r: ProxyError)
    ensures
        r.text() == unsupported_tools(count as nat),
{
    let number = decimal_text(count as u64);
    let head = concat(
        "No supported tools: MiniMax only accepts 'function' type, but got ",
        number.as_str(),
    );
    ProxyError::TransformError(concat(head.as_str(), " tool(s) of other types"))
}

/// Makes the Chat Completions request with the messages for the input of a Responses request.
pub fn request_with_messages(body: &Json, converted: Vec<Json>) -> (r: Result<Json, ProxyError>)
    ensures
        is_outcome(r, request_for(body@, items_view(converted@))),
{
    let mut tools: Vec<Json> = Vec::new();
    if let Some(given) = body.array_at("tools") {
        tools = build_tools(given);
        if given.len() > 0 && tools.len() == 0 {
            return Err(unsupported_tools_error(given.len()));
        }
    }
    let messages = build_messages(body, converted);
    Ok(build_request(body, messages, tools))
}

/// Turns a Responses request into a Chat Completions request, where calls that name no identifier
/// get the fresh ones in turn. The arguments of functions are encoded once.
pub fn request_with_ids(body: &Json, fresh: &Vec<String>) -> (r: Result<Json, ProxyError>)
    requires
        fresh@.len() >= ids_needed(input_list(body@)),
    ensures
        is_outcome(r, chat_request(body@, texts(fresh@))),
        r is Ok ==> are_encoded_once(input_list(body@)),
{
    let none: Vec<Json> = Vec::new();
    let input = match body.array_at("input") {
        Some(input) => input,
        None => &none,
    };
    match convert_input_with_ids(input, fresh) {
        Ok(messages) => request_with_messages(body, messages),
        Err(e) => Err(e),
    }
}

/// Turns a Responses request into a Chat Completions request. Calls that name no identifier get
/// random ones. The arguments of functions are encoded once. The request is refused where an output
/// belongs to no call, and where it has tools of which none is a function.
pub fn responses_to_chat_completions_request(body: Json) -> (r: Result<Json, ProxyError>)
    ensures
        exists|fresh: Seq<Seq<char>>| #[trigger]
            drawn_for(input_list(body@), fresh) && is_outcome(r, chat_request(body@, fresh)),
        r is Ok ==> are_encoded_once(input_list(body@)),
{
    let none: Vec<Json> = Vec::new();
    let input = match body.array_at("input") {
        Some(input) => input,
        None => &none,
    };
    assert(items_view(input@) == input_list(body@));
    let converted = convert_responses_input_to_chat_messages(input);
    let ghost fresh = choose|fresh: Seq<Seq<char>>| #[trigger]
        drawn_for(items_view(input@), fresh) && match converted {
            Ok(messages) => chat_messages(items_view(input@), fresh) == Some(
                items_view(messages@),
            ),
            Err(e) => chat_messages(items_view(input@), fresh) is None && e.text()
                == no_pending_call(),
        };
    assert(drawn_for(input_list(body@), fresh));
    match converted {
        Ok(messages) => request_with_messages(&body, messages),
        Err(e) => Err(e),
    }
}

} // verus!
