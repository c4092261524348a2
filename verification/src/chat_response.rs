//! Turning a Responses response into a Chat Completions response.

use vstd::prelude::*;
use crate::arguments::{normal_arguments, normalize_tool_arguments};
use crate::chat_messages::{build_chat_call, chat_call, text_message};
use crate::error::ProxyError;
use crate::json::{
    gather, items_view, num, opt_str, opt_view, or_default, owned_view, Json, JsonV,
};
use crate::machine::unix_time;
use crate::text::{join, join_strings, str_eq, texts};

verus! {

broadcast use {crate::json::group_json, crate::text::lemma_texts_push};

/// What the output items of a response have given so far: the text of the assistant's message, the
/// status of the last message that has one, and the calls of tools.
pub struct Reply {
    pub content: Seq<char>,
    pub status: Option<Seq<char>>,
    pub calls: Seq<JsonV>,
}

/// The text of a message item, where it has any text parts.
pub open spec fn item_text(item: JsonV) -> Option<Seq<char>> {
    match item.array_at("content"@) {
        Some(parts) => {
            let list = gather(parts, |part: JsonV| part.str_at("text"@));
            if list.len() > 0 {
                Some(join(list, ""@))
            } else {
                None
            }
        },
        None => None,
    }
}

/// The call in a chat for a call item.
pub open spec fn item_call(item: JsonV) -> JsonV {
    let name = item.str_or("name"@, ""@);
    chat_call(
        item.str_or("call_id"@, ""@),
        name,
        normal_arguments(name, or_default(item.get("arguments"@), JsonV::Str("{}"@))),
    )
}

/// The reply after one more output item.
pub open spec fn after_output_item(reply: Reply, item: JsonV) -> Reply {
    let kind = item.str_or("type"@, ""@);
    if kind == "message"@ {
        Reply {
            content: or_default(item_text(item), reply.content),
            status: crate::json::either(item.str_at("status"@), reply.status),
            ..reply
        }
    } else if kind == "output_text"@ {
        Reply { content: or_default(item.str_at("text"@), reply.content), ..reply }
    } else if kind == "function_call"@ {
        Reply { calls: reply.calls.push(item_call(item)), ..reply }
    } else {
        reply
    }
}

/// The reply after some output items.
pub open spec fn reply_of(items: Seq<JsonV>) -> Reply
    decreases items.len(),
{
    if items.len() == 0 {
        Reply { content: Seq::empty(), status: None, calls: Seq::empty() }
    } else {
        after_output_item(reply_of(items.drop_last()), items.last())
    }
}

/// Why a reply ended: with calls of tools, or else with the status of its message.
pub open spec fn finish_reason(reply: Reply) -> Seq<char> {
    if reply.calls.len() > 0 {
        "tool_calls"@
    } else {
        or_default(reply.status, "stop"@)
    }
}

/// The assistant's message for a reply.
pub open spec fn reply_message(reply: Reply) -> JsonV {
    text_message("assistant"@, reply.content).set_opt(
        "tool_calls"@,
        if reply.calls.len() > 0 {
            Some(JsonV::Arr(reply.calls))
        } else {
            None
        },
    )
}

/// The choice of a Chat Completions response for a reply.
pub open spec fn reply_choice(reply: Reply) -> JsonV {
    JsonV::object().set("message"@, reply_message(reply)).set(
        "finish_reason"@,
        JsonV::Str(finish_reason(reply)),
    ).set("index"@, num(0))
}

/// The token count under a key; missing counts are zero.
pub open spec fn tokens(usage: Option<JsonV>, key: Seq<char>) -> u64 {
    match usage {
        Some(u) => or_default(u.u64_at(key), 0),
        None => 0,
    }
}

/// The number of cached tokens, where the details under a key tell it.
pub open spec fn cached_tokens(usage: Option<JsonV>, details: Seq<char>) -> Option<u64> {
    match usage {
        Some(u) => match u.get(details) {
            Some(d) => d.u64_at("cached_tokens"@),
            None => None,
        },
        None => None,
    }
}

/// The details that tell the number of cached tokens.
pub open spec fn cached_details(cached: Option<u64>) -> Option<JsonV> {
    match cached {
        Some(n) => Some(JsonV::object().set("cached_tokens"@, num(n))),
        None => None,
    }
}

/// The total of the token counts can be told.
pub open spec fn usage_fits(usage: Option<JsonV>) -> bool {
    tokens(usage, "input_tokens"@) + tokens(usage, "output_tokens"@) <= u64::MAX
}

/// The usage of a Chat Completions response for that of a Responses response.
pub open spec fn chat_usage(usage: Option<JsonV>) -> JsonV {
    let prompt = tokens(usage, "input_tokens"@);
    let completion = tokens(usage, "output_tokens"@);
    JsonV::object().set("prompt_tokens"@, num(prompt)).set(
        "completion_tokens"@,
        num(completion),
    ).set("total_tokens"@, num((prompt + completion) as u64)).set_opt(
        "prompt_tokens_details"@,
        cached_details(cached_tokens(usage, "input_tokens_details"@)),
    )
}

/// The output items of a response.
pub open spec fn output_list(body: JsonV) -> Seq<JsonV> {
    or_default(body.array_at("output"@), Seq::empty())
}

/// The Chat Completions response for a Responses response that is converted at the time `now`.
pub open spec fn chat_response(body: JsonV, now: u64) -> JsonV {
    JsonV::object()
        .set("id"@, JsonV::Str(body.str_or("id"@, "chatcmpl-default"@)))
        .set_opt("model"@, opt_str(body.str_at("model"@)))
        .set("created"@, num(or_default(body.u64_at("created"@), now)))
        .set_opt("system_fingerprint"@, opt_str(body.str_at("system_fingerprint"@)))
        .set("choices"@, JsonV::Arr(seq![reply_choice(reply_of(output_list(body)))]))
        .set("usage"@, chat_usage(body.get("usage"@)))
        .set("object"@, JsonV::Str("chat.completion"@))
}

struct Replying {
    content: String,
    status: Option<String>,
    calls: Vec<Json>,
}

impl View for Replying {
    type V = Reply;

    closed spec fn view(&self) -> Reply {
        Reply {
            content: self.content@,
            status: match self.status {
                Some(s) => Some(s@),
                None => None,
            },
            calls: items_view(self.calls@),
        }
    }
}

fn text_of_item(item: &Json) -> (r: Option<String>)
    ensures
        match r {
            Some(text) => item_text(item@) == Some(text@),
            None => item_text(item@) is None,
        },
{
    match item.array_at("content") {
        Some(parts) => {
            let ghost list = items_view(parts@);
            let mut found: Vec<String> = Vec::new();
            let mut i: usize = 0;
            while i < parts.len()
                invariant
                    i <= parts@.len(),
                    list == items_view(parts@),
                    texts(found@) == gather(
                        list.take(i as int),
                        |part: JsonV| part.str_at("text"@),
                    ),
                decreases parts@.len() - i,
            {
                proof {
                    crate::json::lemma_gather_next(
                        list,
                        i as int,
                        |part: JsonV| part.str_at("text"@),
                    );
                }
                if let Some(text) = parts[i].str_at("text") {
                    found.push(text.to_owned());
                }
                i += 1;
            }
            assert(list.take(i as int) =~= list);
            if found.len() > 0 {
                Some(join_strings(&found, ""))
            } else {
                None
            }
        },
        None => None,
    }
}

impl Replying {
    fn item(&mut self, item: &Json)
        ensures
            final(self)@ == after_output_item(old(self)@, item@),
    {
        let kind = item.str_or("type", "");
        if str_eq(kind, "message") {
            if let Some(text) = text_of_item(item) {
                self.content = text;
            }
            if let Some(status) = item.str_at("status") {
                self.status = Some(status.to_owned());
            }
        } else if str_eq(kind, "output_text") {
            if let Some(text) = item.str_at("text") {
                self.content = text.to_owned();
            }
        } else if str_eq(kind, "function_call") {
            let name = item.str_or("name", "");
            let arguments = match item.get("arguments") {
                Some(raw) => normalize_tool_arguments(name, raw),
                None => normalize_tool_arguments(name, &Json::text("{}")),
            };
            self.calls.push(build_chat_call(item.str_or("call_id", ""), name, arguments));
        }
    }
}

/// The choices of a Chat Completions response for the output items of a Responses response: always
/// one.
pub fn convert_responses_output_to_choices(output: Option<&Vec<Json>>) -> (r: Vec<Json>)
    ensures
        items_view(r@) == seq![
            reply_choice(
                reply_of(
                    match output {
                        Some(items) => items_view(items@),
                        None => Seq::empty(),
                    },
                ),
            ),
        ],
{
    let mut reply = Replying { content: String::new(), status: None, calls: Vec::new() };
    if let Some(items) = output {
        let ghost list = items_view(items@);
        let mut i: usize = 0;
        while i < items.len()
            invariant
                i <= items@.len(),
                list == items_view(items@),
                reply@ == reply_of(list.take(i as int)),
            decreases items@.len() - i,
        {
            assert(list.take(i + 1).drop_last() =~= list.take(i as int));
            reply.item(&items[i]);
            i += 1;
        }
        assert(list.take(i as int) =~= list);
    }
    let ghost done = reply@;
    let reason = if reply.calls.len() > 0 {
        Json::text("tool_calls")
    } else {
        match &reply.status {
            Some(status) => Json::text(status.as_str()),
            None => Json::text("stop"),
        }
    };
    let calls = if reply.calls.len() > 0 {
        Some(Json::Arr(reply.calls))
    } else {
        None
    };
    let message = Json::object().set("role", Json::text("assistant")).set(
        "content",
        Json::Str(reply.content),
    ).set_opt("tool_calls", calls);
    let choice = Json::object().set("message", message).set("finish_reason", reason).set(
        "index",
        Json::number(0),
    );
    assert(choice@ == reply_choice(done));
    let mut choices: Vec<Json> = Vec::new();
    choices.push(choice);
    assert(items_view(choices@) =~= seq![reply_choice(done)]);
    choices
}

/// The token count under a key; missing counts are zero.
pub fn token_count(usage: Option<&Json>, key: &str) -> (r: u64)
    ensures
        r == tokens(opt_view(usage), key@),
{
    match usage {
        Some(u) => match u.u64_at(key) {
            Some(n) => n,
            None => 0,
        },
        None => 0,
    }
}

/// The details that tell the number of cached tokens, where the details under a key tell it.
pub fn build_cached_details(usage: Option<&Json>, details: &str) -> (r: Option<Json>)
    ensures
        owned_view(r) == cached_details(cached_tokens(opt_view(usage), details@)),
{
    let cached = match usage {
        Some(u) => match u.get(details) {
            Some(d) => d.u64_at("cached_tokens"),
            None => None,
        },
        None => None,
    };
    match cached {
        Some(n) => Some(Json::object().set("cached_tokens", Json::number(n))),
        None => None,
    }
}

/// Whether the total of the token counts can be told.
pub fn usage_adds_up(usage: Option<&Json>) -> (r: bool)
    ensures
        r == usage_fits(opt_view(usage)),
{
    let prompt = token_count(usage, "input_tokens");
    let completion = token_count(usage, "output_tokens");
    prompt <= u64::MAX - completion
}

/// The usage of a Chat Completions response for that of a Responses response.
pub fn build_chat_completions_usage(usage: Option<&Json>) -> (r: Json)
    requires
        usage_fits(opt_view(usage)),
    ensures
        r@ == chat_usage(opt_view(usage)),
{
    let prompt = token_count(usage, "input_tokens");
    let completion = token_count(usage, "output_tokens");
    Json::object().set("prompt_tokens", Json::number(prompt)).set(
        "completion_tokens",
        Json::number(completion),
    ).set("total_tokens", Json::number(prompt + completion)).set_opt(
        "prompt_tokens_details",
        build_cached_details(usage, "input_tokens_details"),
    )
}

/// Turns a Responses response into a Chat Completions response at the time `now`, which stands in
/// for a missing time of creation. Every response can be converted.
pub fn chat_response_at(body: &Json, now: u64) -> (r: Json)
    requires
        usage_fits(body@.get("usage"@)),
    ensures
        r@ == chat_response(body@, now),
{
    let created = match body.u64_at("created") {
        Some(n) => n,
        None => now,
    };
    let choices = convert_responses_output_to_choices(body.array_at("output"));
    Json::object()
        .set("id", Json::text(body.str_or("id", "chatcmpl-default")))
        .set_opt("model", body.get_text("model"))
        .set("created", Json::number(created))
        .set_opt("system_fingerprint", body.get_text("system_fingerprint"))
        .set("choices", Json::Arr(choices))
        .set("usage", build_chat_completions_usage(body.get("usage")))
        .set("object", Json::text("chat.completion"))
}

/// Turns a Responses response into a Chat Completions response. A response that does not tell when
/// it was created counts as created now. Every response can be converted whose token counts add
/// up to a 64-bit number.
pub fn responses_to_chat_completions(body: Json) -> (r: Result<Json, ProxyError>)
    requires
        usage_fits(body@.get("usage"@)),
    ensures
        r is Ok,
        exists|now: u64|
            now <= i64::MAX && r->Ok_0@ == #[trigger] chat_response(body@, now),
{
    let now = unix_time();
    let response = chat_response_at(&body, now);
    assert(response@ == chat_response(body@, now));
    Ok(response)
}

} // verus!
