//! Turning a Chat Completions request into a Responses request.

use vstd::prelude::*;
use crate::error::ProxyError;
use crate::input_items::{convert_chat_messages_to_input, input_items, role_of};
use crate::json::{either, gather, items_view, opt_str, or_default, owned_view, Json, JsonV};
use crate::schema::{clean_schema, cleaned};
use crate::text::{join, join_strings, str_eq, texts};

verus! {

broadcast use {crate::json::group_json, crate::text::lemma_texts_push};

/// The texts of a system message.
pub open spec fn message_texts(message: JsonV) -> Seq<Seq<char>> {
    match message.get("content"@) {
        Some(JsonV::Str(text)) => seq![text],
        Some(JsonV::Arr(blocks)) => gather(blocks, |block: JsonV| block.str_at("text"@)),
        _ => Seq::empty(),
    }
}

/// The texts of the system messages in a list, in order.
pub open spec fn system_texts(messages: Seq<JsonV>) -> Seq<Seq<char>>
    decreases messages.len(),
{
    if messages.len() == 0 {
        Seq::empty()
    } else if role_of(messages.last()) == "system"@ {
        system_texts(messages.drop_last()) + message_texts(messages.last())
    } else {
        system_texts(messages.drop_last())
    }
}

/// A message that is not a system message.
pub open spec fn not_system(message: JsonV) -> Option<JsonV> {
    if role_of(message) == "system"@ {
        None
    } else {
        Some(message)
    }
}

/// The messages in a list that are not system messages.
pub open spec fn other_messages(messages: Seq<JsonV>) -> Seq<JsonV> {
    gather(messages, |message: JsonV| not_system(message))
}

/// The instructions of a request: the texts of its system messages, with an empty line between
/// each two. They are empty where there is no system message, and missing without messages.
pub open spec fn instructions_of(body: JsonV) -> Option<JsonV> {
    match body.array_at("messages"@) {
        Some(messages) => Some(JsonV::Str(join(system_texts(messages), "\n\n"@))),
        None => None,
    }
}

/// The input of a request: the items for its other messages, where there are any.
pub open spec fn input_of(body: JsonV) -> Option<JsonV> {
    match body.array_at("messages"@) {
        Some(messages) => if other_messages(messages).len() > 0 {
            Some(JsonV::Arr(input_items(other_messages(messages))))
        } else {
            None
        },
        None => None,
    }
}

/// The reasoning setting of a request, which may be given as an object or as a bare text.
pub open spec fn reasoning_of(body: JsonV) -> Option<JsonV> {
    match body.get("reasoning"@) {
        Some(JsonV::Obj(m)) => match JsonV::Obj(m).get("effort"@) {
            Some(effort) => Some(JsonV::object().set("effort"@, effort)),
            None => None,
        },
        Some(JsonV::Str(s)) => Some(JsonV::object().set("effort"@, JsonV::Str(s))),
        _ => None,
    }
}

/// A tool of a Responses request; batch tools have none.
pub open spec fn responses_tool(tool: JsonV) -> Option<JsonV> {
    if tool.str_at("type"@) == Some("BatchTool"@) {
        None
    } else {
        Some(
            JsonV::object().set("type"@, JsonV::Str("function"@)).set(
                "name"@,
                JsonV::Str(tool.str_or("name"@, ""@)),
            ).set("description"@, or_default(tool.get("description"@), JsonV::Null)).set(
                "parameters"@,
                cleaned(
                    or_default(
                        either(tool.get("parameters"@), tool.get("input_schema"@)),
                        JsonV::object(),
                    ),
                ),
            ),
        )
    }
}

/// The tools of a request, which it lists as functions or as tools; missing where none are left.
pub open spec fn responses_tools(body: JsonV) -> Option<JsonV> {
    match either(body.get("functions"@), body.get("tools"@)) {
        Some(JsonV::Arr(tools)) => {
            let kept = gather(tools, |tool: JsonV| responses_tool(tool));
            if kept.len() > 0 {
                Some(JsonV::Arr(kept))
            } else {
                None
            }
        },
        _ => None,
    }
}

/// The choice of a tool: a function that is chosen by name loses its wrapping.
pub open spec fn responses_tool_choice(choice: JsonV) -> JsonV {
    match choice.get("function"@) {
        Some(JsonV::Obj(f)) => JsonV::object().set("type"@, JsonV::Str("function"@)).set(
            "name"@,
            JsonV::Str(JsonV::Obj(f).str_or("name"@, ""@)),
        ),
        _ => choice,
    }
}

/// The choice of a tool in a request.
pub open spec fn tool_choice_of(body: JsonV) -> Option<JsonV> {
    match body.get("tool_choice"@) {
        Some(choice) => Some(responses_tool_choice(choice)),
        None => None,
    }
}

/// The text settings for a response format; only an object sets any.
pub open spec fn text_settings(body: JsonV) -> Option<JsonV> {
    match body.get("response_format"@) {
        Some(JsonV::Obj(m)) => {
            let format = JsonV::Obj(m);
            let kept = if format.str_at("type"@) == Some("json_schema"@) {
                JsonV::object().set("type"@, JsonV::Str("json_object"@)).set(
                    "schema"@,
                    or_default(
                        either(format.get("json_schema"@), format.get("schema"@)),
                        JsonV::object(),
                    ),
                )
            } else {
                format
            };
            Some(JsonV::object().set("format"@, kept))
        },
        _ => None,
    }
}

/// The Responses request for a Chat Completions request.
pub open spec fn responses_request(body: JsonV) -> JsonV {
    JsonV::object()
        .set_opt("model"@, opt_str(body.str_at("model"@)))
        .set_opt("instructions"@, instructions_of(body))
        .set_opt("input"@, input_of(body))
        .set_opt("max_output_tokens"@, body.get("max_tokens"@))
        .set_opt("temperature"@, body.get("temperature"@))
        .set_opt("top_p"@, body.get("top_p"@))
        .set_opt("stream"@, body.get("stream"@))
        .set_opt("reasoning"@, reasoning_of(body))
        .set_opt("tools"@, responses_tools(body))
        .set_opt("tool_choice"@, tool_choice_of(body))
        .set_opt("parallel_tool_calls"@, body.get("parallel_tool_calls"@))
        .set_opt("seed"@, body.get("seed"@))
        .set_opt("text"@, text_settings(body))
}

fn push_message_texts(list: &mut Vec<String>, message: &Json)
    ensures
        texts(final(list)@) == texts(old(list)@) + message_texts(message@),
{
    let ghost before = texts(list@);
    if let Some(content) = message.get("content") {
        match content {
            Json::Str(text) => {
                list.push(text.clone());
                assert(texts(list@) =~= before + seq![text@]);
            },
            Json::Arr(blocks) => {
                let ghost parts = items_view(blocks@);
                let mut i: usize = 0;
                while i < blocks.len()
                    invariant
                        i <= blocks@.len(),
                        parts == items_view(blocks@),
                        texts(list@) == before + gather(
                            parts.take(i as int),
                            |block: JsonV| block.str_at("text"@),
                        ),
                    decreases blocks@.len() - i,
                {
                    proof {
                        crate::json::lemma_gather_next(
                            parts,
                            i as int,
                            |block: JsonV| block.str_at("text"@),
                        );
                    }
                    if let Some(text) = blocks[i].str_at("text") {
                        list.push(text.to_owned());
                    }
                    i += 1;
                    assert(texts(list@) =~= before + gather(
                        parts.take(i as int),
                        |block: JsonV| block.str_at("text"@),
                    ));
                }
                assert(parts.take(i as int) =~= parts);
            },
            _ => {
                assert(texts(list@) =~= before + Seq::<Seq<char>>::empty());
            },
        }
    } else {
        assert(texts(list@) =~= before + Seq::<Seq<char>>::empty());
    }
}

/// The reasoning setting of a request.
pub fn reasoning_setting(body: &Json) -> (r: Option<Json>)
    ensures
        owned_view(r) == reasoning_of(body@),
{
    match body.get("reasoning") {
        Some(reasoning) => match reasoning {
            Json::Obj(_) => match reasoning.get("effort") {
                Some(effort) => Some(Json::object().set("effort", effort.copy())),
                None => None,
            },
            Json::Str(s) => Some(Json::object().set("effort", Json::text(s.as_str()))),
            _ => None,
        },
        None => None,
    }
}

fn build_tool(tool: &Json) -> (r: Option<Json>)
    ensures
        owned_view(r) == responses_tool(tool@),
{
    if let Some(kind) = tool.str_at("type") {
        if str_eq(kind, "BatchTool") {
            return None;
        }
    }
    let description = match tool.get("description") {
        Some(v) => v.copy(),
        None => Json::Null,
    };
    let given = match tool.get("parameters") {
        Some(v) => Some(v),
        None => tool.get("input_schema"),
    };
    let parameters = match given {
        Some(v) => clean_schema(v),
        None => clean_schema(&Json::object()),
    };
    Some(
        Json::object().set("type", Json::text("function")).set(
            "name",
            Json::text(tool.str_or("name", "")),
        ).set("description", description).set("parameters", parameters),
    )
}

fn build_tools(body: &Json) -> (r: Option<Json>)
    ensures
        owned_view(r) == responses_tools(body@),
{
    let given = match body.get("functions") {
        Some(v) => Some(v),
        None => body.get("tools"),
    };
    match given {
        Some(Json::Arr(tools)) => {
            let ghost list = items_view(tools@);
            let mut kept: Vec<Json> = Vec::new();
            let mut i: usize = 0;
            while i < tools.len()
                invariant
                    i <= tools@.len(),
                    list == items_view(tools@),
                    items_view(kept@) == gather(
                        list.take(i as int),
                        |tool: JsonV| responses_tool(tool),
                    ),
                decreases tools@.len() - i,
            {
                proof {
                    crate::json::lemma_gather_next(
                        list,
                        i as int,
                        |tool: JsonV| responses_tool(tool),
                    );
                }
                if let Some(tool) = build_tool(&tools[i]) {
                    kept.push(tool);
                }
                i += 1;
            }
            assert(list.take(i as int) =~= list);
            if kept.len() > 0 {
                Some(Json::Arr(kept))
            } else {
                None
            }
        },
        _ => None,
    }
}

/// The choice of a tool for a Responses request.
pub fn map_tool_choice_to_responses(tool_choice: &Json) -> (r: Json)
    ensures
        r@ == responses_tool_choice(tool_choice@),
{
    match tool_choice.get("function") {
        Some(function) => match function {
            Json::Obj(_) => Json::object().set("type", Json::text("function")).set(
                "name",
                Json::text(function.str_or("name", "")),
            ),
            _ => tool_choice.copy(),
        },
        None => tool_choice.copy(),
    }
}

fn build_tool_choice(body: &Json) -> (r: Option<Json>)
    ensures
        owned_view(r) == tool_choice_of(body@),
{
    match body.get("tool_choice") {
        Some(choice) => Some(map_tool_choice_to_responses(choice)),
        None => None,
    }
}

fn build_text_settings(body: &Json) -> (r: Option<Json>)
    ensures
        owned_view(r) == text_settings(body@),
{
    match body.get("response_format") {
        Some(format) => match format {
            Json::Obj(_) => {
                let is_schema = match format.str_at("type") {
                    Some(kind) => str_eq(kind, "json_schema"),
                    None => false,
                };
                let kept = if is_schema {
                    let given = match format.get("json_schema") {
                        Some(v) => Some(v),
                        None => format.get("schema"),
                    };
                    let schema = match given {
                        Some(v) => v.copy(),
                        None => Json::object(),
                    };
                    Json::object().set("type", Json::text("json_object")).set("schema", schema)
                } else {
                    format.copy()
                };
                Some(Json::object().set("format", kept))
            },
            _ => None,
        },
        None => None,
    }
}

/// The instructions and the input of a request.
fn build_instructions_and_input(body: &Json) -> (r: (Option<Json>, Option<Json>))
    ensures
        owned_view(r.0) == instructions_of(body@),
        owned_view(r.1) == input_of(body@),
{
    match body.array_at("messages") {
        Some(messages) => {
            let ghost list = items_view(messages@);
            let mut system: Vec<String> = Vec::new();
            let mut others: Vec<Json> = Vec::new();
            let mut i: usize = 0;
            assert(texts(system@) =~= system_texts(list.take(0)));
            while i < messages.len()
                invariant
                    i <= messages@.len(),
                    list == items_view(messages@),
                    texts(system@) == system_texts(list.take(i as int)),
                    items_view(others@) == gather(
                        list.take(i as int),
                        |message: JsonV| not_system(message),
                    ),
                decreases messages@.len() - i,
            {
                proof {
                    assert(list.take(i + 1).drop_last() =~= list.take(i as int));
                    crate::json::lemma_gather_next(
                        list,
                        i as int,
                        |message: JsonV| not_system(message),
                    );
                }
                let message = &messages[i];
                if str_eq(message.str_or("role", "user"), "system") {
                    push_message_texts(&mut system, message);
                } else {
                    others.push(message.copy());
                }
                i += 1;
            }
            assert(list.take(i as int) =~= list);
            let joined = join_strings(&system, "\n\n");
            let input = if others.len() > 0 {
                Some(Json::Arr(convert_chat_messages_to_input(&others)))
            } else {
                None
            };
            (Some(Json::Str(joined)), input)
        },
        None => (None, None),
    }
}

/// Turns a Chat Completions request into a Responses request. Every request can be converted.
pub fn chat_completions_to_responses(body: Json) -> (r: Result<Json, ProxyError>)
    ensures
        r matches Ok(request) && request@ == responses_request(body@),
{
    let (instructions, input) = build_instructions_and_input(&body);
    let result = Json::object()
        .set_opt("model", body.get_text("model"))
        .set_opt("instructions", instructions)
        .set_opt("input", input)
        .set_opt("max_output_tokens", body.get_copy("max_tokens"))
        .set_opt("temperature", body.get_copy("temperature"))
        .set_opt("top_p", body.get_copy("top_p"))
        .set_opt("stream", body.get_copy("stream"))
        .set_opt("reasoning", reasoning_setting(&body))
        .set_opt("tools", build_tools(&body))
        .set_opt("tool_choice", build_tool_choice(&body))
        .set_opt("parallel_tool_calls", body.get_copy("parallel_tool_calls"))
        .set_opt("seed", body.get_copy("seed"))
        .set_opt("text", build_text_settings(&body));
    Ok(result)
}

} // verus!
