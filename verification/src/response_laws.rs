//! What holds of every response that is converted.

use vstd::prelude::*;
use crate::chat_response::{
    chat_response, chat_usage, finish_reason, item_call, output_list, reply_choice, reply_message,
    reply_of, tokens, usage_fits, Reply,
};
use crate::json::{or_default, JsonV};
use crate::responses_response::{
    choice_items, function_item, function_items, function_name, output_items, output_of,
    responses_response, text_item, usage_of,
};

verus! {

broadcast use crate::json::group_members;

/// The total of a usage is the sum of its parts.
pub proof fn total_is_the_sum(usage: Option<JsonV>)
    requires
        usage_fits(usage),
    ensures
        ({
            let u = chat_usage(usage);
            &&& u.u64_at("prompt_tokens"@) == Some(tokens(usage, "input_tokens"@))
            &&& u.u64_at("completion_tokens"@) == Some(tokens(usage, "output_tokens"@))
            &&& u.u64_at("total_tokens"@) matches Some(total) && total == tokens(
                usage,
                "input_tokens"@,
            ) + tokens(usage, "output_tokens"@)
        }),
{
    lemma_usage_keys();
}

proof fn lemma_usage_keys()
    ensures
        "prompt_tokens"@.len() == 13,
        "completion_tokens"@.len() == 17,
        "total_tokens"@.len() == 12,
        "prompt_tokens_details"@.len() == 21,
        "input_tokens"@.len() == 12,
        "output_tokens"@.len() == 13,
        "input_tokens_details"@.len() == 20,
{
    reveal_strlit("prompt_tokens");
    reveal_strlit("completion_tokens");
    reveal_strlit("total_tokens");
    reveal_strlit("prompt_tokens_details");
    reveal_strlit("input_tokens");
    reveal_strlit("output_tokens");
    reveal_strlit("input_tokens_details");
}

/// A reply with calls finishes because of them and lists them; a reply without calls lists none.
pub proof fn calls_decide_the_finish(reply: Reply)
    ensures
        ({
            let choice = reply_choice(reply);
            let message = reply_message(reply);
            &&& choice.get("message"@) == Some(message)
            &&& message.str_at("role"@) == Some("assistant"@)
            &&& message.str_at("content"@) == Some(reply.content)
            &&& reply.calls.len() > 0 ==> {
                &&& choice.str_at("finish_reason"@) == Some("tool_calls"@)
                &&& message.array_at("tool_calls"@) == Some(reply.calls)
            }
            &&& reply.calls.len() == 0 ==> {
                &&& choice.str_at("finish_reason"@) == Some(or_default(reply.status, "stop"@))
                &&& message.get("tool_calls"@) is None
            }
        }),
{
    reveal_strlit("message");
    reveal_strlit("finish_reason");
    reveal_strlit("index");
    reveal_strlit("role");
    reveal_strlit("content");
    reveal_strlit("tool_calls");
    assert("message"@.len() == 7);
    assert("finish_reason"@.len() == 13);
    assert("index"@.len() == 5);
    assert("role"@.len() == 4);
    assert("content"@.len() == 7);
    assert("tool_calls"@.len() == 10);
}

proof fn lemma_response_keys()
    ensures
        "id"@.len() == 2,
        "model"@.len() == 5,
        "created"@.len() == 7,
        "system_fingerprint"@.len() == 18,
        "output"@.len() == 6,
        "usage"@.len() == 5,
        "status"@.len() == 6,
        "choices"@.len() == 7,
        "object"@.len() == 6,
        "model"@ != "usage"@,
        "output"@ != "status"@,
        "created"@ != "choices"@,
{
    reveal_strlit("id");
    reveal_strlit("model");
    reveal_strlit("created");
    reveal_strlit("system_fingerprint");
    reveal_strlit("output");
    reveal_strlit("usage");
    reveal_strlit("status");
    reveal_strlit("choices");
    reveal_strlit("object");
    assert("model"@[0] != "usage"@[0]);
    assert("output"@[0] != "status"@[0]);
    assert("created"@[1] != "choices"@[1]);
}

proof fn lemma_there(body: JsonV)
    ensures
        ({
            let there = responses_response(body);
            &&& there.str_at("id"@) == Some(body.str_or("id"@, "resp-default"@))
            &&& there.str_at("model"@) == body.str_at("model"@)
            &&& there.u64_at("created"@) == body.u64_at("created"@)
            &&& there.str_at("system_fingerprint"@) == body.str_at("system_fingerprint"@)
            &&& there.get("output"@) == output_of(body)
            &&& there.get("usage"@) == usage_of(body)
            &&& there.str_at("status"@) == Some("completed"@)
        }),
{
    lemma_response_keys();
}

proof fn lemma_back(body: JsonV, now: u64)
    ensures
        ({
            let back = chat_response(body, now);
            &&& back.str_at("id"@) == Some(body.str_or("id"@, "chatcmpl-default"@))
            &&& back.str_at("model"@) == body.str_at("model"@)
            &&& back.u64_at("created"@) == Some(or_default(body.u64_at("created"@), now))
            &&& back.str_at("system_fingerprint"@) == body.str_at("system_fingerprint"@)
            &&& back.get("choices"@) == Some(
                JsonV::Arr(seq![reply_choice(reply_of(output_list(body)))]),
            )
            &&& back.get("usage"@) == Some(chat_usage(body.get("usage"@)))
        }),
{
    lemma_response_keys();
    reveal_strlit("object");
    reveal_strlit("output");
    assert("object"@.len() == 6);
}

/// The calls of a chat, once they have been calls of a response.
pub open spec fn returned_calls(calls: Seq<JsonV>) -> Seq<JsonV> {
    Seq::new(calls.len(), |i: int| item_call(function_item(calls[i])))
}

proof fn lemma_reply_of_items(text: Seq<char>, calls: Seq<JsonV>)
    ensures
        reply_of(seq![text_item(text)] + function_items(calls)) == (Reply {
            content: text,
            status: None,
            calls: returned_calls(calls),
        }),
    decreases calls.len(),
{
    reveal_strlit("type");
    reveal_strlit("text");
    reveal_strlit("message");
    reveal_strlit("output_text");
    reveal_strlit("function_call");
    reveal_strlit("call_id");
    reveal_strlit("name");
    reveal_strlit("arguments");
    assert("type"@[1] != "text"@[1]);
    assert("message"@.len() == 7);
    assert("output_text"@.len() == 11);
    assert("function_call"@.len() == 13);
    assert("call_id"@.len() == 7);
    assert("type"@[0] != "name"@[0]);
    assert("arguments"@.len() == 9);
    let items = seq![text_item(text)] + function_items(calls);
    if calls.len() == 0 {
        let nothing = Reply { content: Seq::empty(), status: None, calls: Seq::empty() };
        assert(items.drop_last() =~= Seq::empty());
        assert(reply_of(items.drop_last()) == nothing);
        assert(items.last() == text_item(text));
        assert(items.last().str_at("type"@) == Some("output_text"@));
        assert(items.last().str_at("text"@) == Some(text));
        assert(returned_calls(calls) =~= Seq::empty());
    } else {
        let shorter = calls.drop_last();
        lemma_reply_of_items(text, shorter);
        assert(items.drop_last() =~= seq![text_item(text)] + function_items(shorter));
        assert(items.last() == function_item(calls.last()));
        assert(items.last().str_at("type"@) == Some("function_call"@));
        assert(returned_calls(calls) =~= returned_calls(shorter).push(
            item_call(function_item(calls.last())),
        ));
    }
}

/// A call keeps its identifier and its name on the way to a response and back.
pub proof fn call_survives_round_trip(call: JsonV)
    ensures
        item_call(function_item(call)).str_at("id"@) == Some(call.str_or("id"@, ""@)),
        function_name(item_call(function_item(call))) == function_name(call),
{
    reveal_strlit("type");
    reveal_strlit("call_id");
    reveal_strlit("name");
    reveal_strlit("arguments");
    reveal_strlit("id");
    reveal_strlit("function");
    assert("type"@[0] != "name"@[0]);
    assert("call_id"@.len() == 7);
    assert("name"@.len() == 4);
    assert("arguments"@.len() == 9);
    assert("id"@.len() == 2);
    assert("function"@.len() == 8);
}

/// A Chat Completions response with one choice keeps what it says on the way to a Responses response
/// and back: its identifier, model and time, its text, its calls and its token counts.
pub proof fn chat_response_survives_round_trip(
    body: JsonV,
    choice: JsonV,
    message: JsonV,
    text: Seq<char>,
    now: u64,
)
    requires
        body.array_at("choices"@) == Some(seq![choice]),
        choice.get("message"@) == Some(message),
        message.str_at("content"@) == Some(text),
    ensures
        ({
            let back = chat_response(responses_response(body), now);
            let calls = or_default(message.array_at("tool_calls"@), Seq::empty());
            let reply = Reply { content: text, status: None, calls: returned_calls(calls) };
            &&& back.str_at("id"@) == Some(body.str_or("id"@, "resp-default"@))
            &&& back.str_at("model"@) == body.str_at("model"@)
            &&& back.u64_at("created"@) == Some(or_default(body.u64_at("created"@), now))
            &&& back.str_at("system_fingerprint"@) == body.str_at("system_fingerprint"@)
            &&& back.array_at("choices"@) == Some(seq![reply_choice(reply)])
            &&& back.get("usage"@) is Some
            &&& tokens(back.get("usage"@), "prompt_tokens"@) == tokens(
                body.get("usage"@),
                "prompt_tokens"@,
            )
            &&& tokens(back.get("usage"@), "completion_tokens"@) == tokens(
                body.get("usage"@),
                "completion_tokens"@,
            )
        }),
{
    let there = responses_response(body);
    let calls = or_default(message.array_at("tool_calls"@), Seq::empty());
    lemma_there(body);
    lemma_back(there, now);
    lemma_reply_of_items(text, calls);
    assert(output_items(seq![choice]) =~= choice_items(choice)) by {
        assert(seq![choice].drop_last() =~= Seq::empty());
        reveal_with_fuel(output_items, 2);
    }
    assert(output_list(there) =~= seq![text_item(text)] + function_items(calls));
    lemma_usage_keys();
    reveal_strlit("input_tokens");
    reveal_strlit("total_tokens");
    reveal_strlit("prompt_tokens");
    reveal_strlit("output_tokens");
    assert("input_tokens"@[0] != "total_tokens"@[0]);
    assert("prompt_tokens"@[0] != "output_tokens"@[0]);
}

} // verus!
