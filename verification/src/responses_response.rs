//! Turning a Chat Completions response into a Responses response.

use vstd::prelude::*;
use crate::chat_response::{
    build_cached_details, cached_details, cached_tokens, token_count, tokens,
};
use crate::error::ProxyError;
use crate::json::{items_view, num, opt_str, or_default, owned_view, Json, JsonV};

verus! {

broadcast use crate::json::group_json;

/// The output item for a text.
pub open spec fn text_item(text: Seq<char>) -> JsonV {
    JsonV::object().set("type"@, JsonV::Str("output_text"@)).set("text"@, JsonV::Str(text))
}

/// A member of the function that a call names.
pub open spec fn function_member(call: JsonV, key: Seq<char>) -> Option<JsonV> {
    match call.get("function"@) {
        Some(f) => f.get(key),
        None => None,
    }
}

/// The name of the function that a call names.
pub open spec fn function_name(call: JsonV) -> Seq<char> {
    match function_member(call, "name"@) {
        Some(JsonV::Str(name)) => name,
        _ => ""@,
    }
}

/// The output item for a call.
pub open spec fn function_item(call: JsonV) -> JsonV {
    JsonV::object().set("type"@, JsonV::Str("function_call"@)).set(
        "call_id"@,
        JsonV::Str(call.str_or("id"@, ""@)),
    ).set("name"@, JsonV::Str(function_name(call))).set(
        "arguments"@,
        or_default(function_member(call, "arguments"@), JsonV::Str("{}"@)),
    )
}

/// The output items for a list of calls.
pub open spec fn function_items(calls: Seq<JsonV>) -> Seq<JsonV> {
    Seq::new(calls.len(), |i: int| function_item(calls[i]))
}

/// The output items for a choice: its text first, then its calls.
pub open spec fn choice_items(choice: JsonV) -> Seq<JsonV> {
    match choice.get("message"@) {
        Some(message) => {
            let text = match message.str_at("content"@) {
                Some(text) => seq![text_item(text)],
                None => Seq::empty(),
            };
            text + function_items(or_default(message.array_at("tool_calls"@), Seq::empty()))
        },
        None => Seq::empty(),
    }
}

/// The output items for a list of choices.
pub open spec fn output_items(choices: Seq<JsonV>) -> Seq<JsonV>
    decreases choices.len(),
{
    if choices.len() == 0 {
        Seq::empty()
    } else {
        output_items(choices.drop_last()) + choice_items(choices.last())
    }
}

/// The output of a response, where it has choices.
pub open spec fn output_of(body: JsonV) -> Option<JsonV> {
    match body.array_at("choices"@) {
        Some(choices) => Some(JsonV::Arr(output_items(choices))),
        None => None,
    }
}

/// The usage of a Responses response for that of a Chat Completions response.
pub open spec fn responses_usage(usage: JsonV) -> JsonV {
    JsonV::object().set("input_tokens"@, num(tokens(Some(usage), "prompt_tokens"@))).set(
        "output_tokens"@,
        num(tokens(Some(usage), "completion_tokens"@)),
    ).set_opt(
        "input_tokens_details"@,
        cached_details(cached_tokens(Some(usage), "prompt_tokens_details"@)),
    )
}

/// The usage of a response, where it has one.
pub open spec fn usage_of(body: JsonV) -> Option<JsonV> {
    match body.get("usage"@) {
        Some(usage) => Some(responses_usage(usage)),
        None => None,
    }
}

/// The time at which a response was created, where it tells it.
pub open spec fn created_of(body: JsonV) -> Option<JsonV> {
    match body.u64_at("created"@) {
        Some(n) => Some(num(n)),
        None => None,
    }
}

/// The Responses response for a Chat Completions response.
pub open spec fn responses_response(body: JsonV) -> JsonV {
    JsonV::object()
        .set("id"@, JsonV::Str(body.str_or("id"@, "resp-default"@)))
        .set_opt("model"@, opt_str(body.str_at("model"@)))
        .set_opt("created"@, created_of(body))
        .set_opt("system_fingerprint"@, opt_str(body.str_at("system_fingerprint"@)))
        .set_opt("output"@, output_of(body))
        .set_opt("usage"@, usage_of(body))
        .set("status"@, JsonV::Str("completed"@))
}

fn build_function_item(call: &Json) -> (r: Json)
    ensures
        r@ == function_item(call@),
{
    let name = match call.get("function") {
        Some(f) => f.str_or("name", ""),
        None => "",
    };
    let given = match call.get("function") {
        Some(f) => f.get("arguments"),
        None => None,
    };
    let arguments = match given {
        Some(v) => v.copy(),
        None => Json::text("{}"),
    };
    Json::object().set("type", Json::text("function_call")).set(
        "call_id",
        Json::text(call.str_or("id", "")),
    ).set("name", Json::text(name)).set("arguments", arguments)
}

fn push_choice_items(output: &mut Vec<Json>, choice: &Json)
    ensures
        items_view(final(output)@) == items_view(old(output)@) + choice_items(choice@),
{
    let ghost before = items_view(output@);
    match choice.get("message") {
        Some(message) => {
            if let Some(text) = message.str_at("content") {
                output.push(
                    Json::object().set("type", Json::text("output_text")).set(
                        "text",
                        Json::text(text),
                    ),
                );
            }
            let ghost middle = items_view(output@);
            if let Some(calls) = message.array_at("tool_calls") {
                let ghost list = items_view(calls@);
                let mut i: usize = 0;
                assert(middle =~= middle + function_items(list).take(0));
                while i < calls.len()
                    invariant
                        i <= calls@.len(),
                        list == items_view(calls@),
                        items_view(output@) == middle + function_items(list).take(i as int),
                    decreases calls@.len() - i,
                {
                    output.push(build_function_item(&calls[i]));
                    i += 1;
                    assert(items_view(output@) =~= middle + function_items(list).take(i as int));
                }
                assert(function_items(list).take(i as int) =~= function_items(list));
            } else {
                assert(middle =~= middle + function_items(Seq::empty()));
            }
            assert(items_view(output@) =~= before + choice_items(choice@));
        },
        None => {
            assert(before =~= before + Seq::<JsonV>::empty());
        },
    }
}

fn build_output(body: &Json) -> (r: Option<Json>)
    ensures
        owned_view(r) == output_of(body@),
{
    match body.array_at("choices") {
        Some(choices) => {
            let ghost list = items_view(choices@);
            let mut output: Vec<Json> = Vec::new();
            let mut i: usize = 0;
            while i < choices.len()
                invariant
                    i <= choices@.len(),
                    list == items_view(choices@),
                    items_view(output@) == output_items(list.take(i as int)),
                decreases choices@.len() - i,
            {
                assert(list.take(i + 1).drop_last() =~= list.take(i as int));
                push_choice_items(&mut output, &choices[i]);
                i += 1;
            }
            assert(list.take(i as int) =~= list);
            Some(Json::Arr(output))
        },
        None => None,
    }
}

fn build_usage(body: &Json) -> (r: Option<Json>)
    ensures
        owned_view(r) == usage_of(body@),
{
    match body.get("usage") {
        Some(usage) => Some(
            Json::object().set(
                "input_tokens",
                Json::number(token_count(Some(usage), "prompt_tokens")),
            ).set(
                "output_tokens",
                Json::number(token_count(Some(usage), "completion_tokens")),
            ).set_opt(
                "input_tokens_details",
                build_cached_details(Some(usage), "prompt_tokens_details"),
            ),
        ),
        None => None,
    }
}

/// Turns a Chat Completions response into a Responses response. Every response can be converted.
pub fn chat_completions_to_responses_response(body: Json) -> (r: Result<Json, ProxyError>)
    ensures
        r matches Ok(response) && response@ == responses_response(body@),
{
    let created = match body.u64_at("created") {
        Some(n) => Some(Json::number(n)),
        None => None,
    };
    let result = Json::object()
        .set("id", Json::text(body.str_or("id", "resp-default")))
        .set_opt("model", body.get_text("model"))
        .set_opt("created", created)
        .set_opt("system_fingerprint", body.get_text("system_fingerprint"))
        .set_opt("output", build_output(&body))
        .set_opt("usage", build_usage(&body))
        .set("status", Json::text("completed"));
    Ok(result)
}

} // verus!
