//! What a converted response tells of the response that was given.

use vstd::prelude::*;
use crate::argument_laws::{are_normal, arguments_are_normalised};
use crate::chat_response::{
    after_output_item, cached_details, chat_response, chat_usage, item_call, item_text, output_list,
    reply_choice, reply_message, reply_of, usage_fits, Reply,
};
use crate::item_laws::text_at;
use crate::json::{gather, JsonV};
use crate::keys::lemma_keys_differ;
use crate::responses_response::{
    choice_items, function_item, function_items, output_items, output_of, responses_response,
    responses_usage, text_item, usage_of,
};
use crate::setting_laws::{joining_puts_together, put_together};
use crate::text::join;
use crate::tool_laws::has_only;

verus! {

broadcast use crate::json::group_members;

/// The number under a key of an optional value; zero where there is none.
pub open spec fn count_at(value: Option<JsonV>, key: Seq<char>) -> int {
    match value {
        Some(v) => match v.u64_at(key) {
            Some(n) => n as int,
            None => 0,
        },
        None => 0,
    }
}

/// The number of cached tokens that the details of a usage tell.
pub open spec fn cached_in(usage: Option<JsonV>, details: Seq<char>) -> Option<u64> {
    match usage {
        Some(u) => match u.get(details) {
            Some(d) => d.u64_at("cached_tokens"@),
            None => None,
        },
        None => None,
    }
}

/// Details tell a number of cached tokens, and there are none where there is no such number.
pub open spec fn tell_cached(details: Option<JsonV>, cached: Option<u64>) -> bool {
    match cached {
        Some(n) => details matches Some(d) && d.u64_at("cached_tokens"@) == Some(n) && has_only(
            d,
            set!["cached_tokens"@],
        ),
        None => details is None,
    }
}

/// The texts of the parts of a message, one behind the other.
pub open spec fn text_in(parts: Seq<JsonV>) -> Seq<char>
    decreases parts.len(),
{
    if parts.len() == 0 {
        Seq::empty()
    } else {
        match parts.last().str_at("text"@) {
            Some(text) => text_in(parts.drop_last()) + text,
            None => text_in(parts.drop_last()),
        }
    }
}

/// Whether one of the parts of a message has a text.
pub open spec fn any_text_in(parts: Seq<JsonV>) -> bool {
    exists|i: int| 0 <= i < parts.len() && (#[trigger] parts[i]).str_at("text"@) is Some
}

/// The text that an output item tells, where it tells one.
pub open spec fn told_text(item: JsonV) -> Option<Seq<char>> {
    if item.str_at("type"@) == Some("message"@) {
        match item.array_at("content"@) {
            Some(parts) => if any_text_in(parts) {
                Some(text_in(parts))
            } else {
                None
            },
            None => None,
        }
    } else if item.str_at("type"@) == Some("output_text"@) {
        item.str_at("text"@)
    } else {
        None
    }
}

/// The text that some output items tell: that of the last one that tells one.
pub open spec fn last_text(items: Seq<JsonV>) -> Seq<char>
    decreases items.len(),
{
    if items.len() == 0 {
        Seq::empty()
    } else {
        match told_text(items.last()) {
            Some(text) => text,
            None => last_text(items.drop_last()),
        }
    }
}

/// The status that some output items tell: that of the last message that has one.
pub open spec fn last_status(items: Seq<JsonV>) -> Option<Seq<char>>
    decreases items.len(),
{
    if items.len() == 0 {
        None
    } else if items.last().str_at("type"@) == Some("message"@) && items.last().str_at(
        "status"@,
    ) is Some {
        items.last().str_at("status"@)
    } else {
        last_status(items.drop_last())
    }
}

/// The output items that are calls.
pub open spec fn call_items(items: Seq<JsonV>) -> Seq<JsonV>
    decreases items.len(),
{
    if items.len() == 0 {
        Seq::empty()
    } else if items.last().str_at("type"@) == Some("function_call"@) {
        call_items(items.drop_last()).push(items.last())
    } else {
        call_items(items.drop_last())
    }
}

/// A member, or else the text of an empty object.
pub open spec fn member_or_braces(value: Option<JsonV>) -> JsonV {
    match value {
        Some(member) => member,
        None => JsonV::Str(seq!['{', '}']),
    }
}

/// A call in a chat tells an identifier, a name and the normalised form of some arguments.
pub open spec fn tells_call(
    call: JsonV,
    id: Seq<char>,
    name: Seq<char>,
    arguments: JsonV,
) -> bool {
    &&& call.str_at("id"@) == Some(id)
    &&& call.str_at("type"@) == Some("function"@)
    &&& has_only(call, set!["id"@, "type"@, "function"@])
    &&& call.get("function"@) matches Some(function) && {
        &&& function.str_at("name"@) == Some(name)
        &&& function.get("arguments"@) matches Some(value) && are_normal(value, name, arguments)
        &&& has_only(function, set!["name"@, "arguments"@])
    }
}

/// Some calls in a chat tell the calls of some output items: as many, and in the same order.
pub open spec fn tell_calls(calls: Seq<JsonV>, items: Seq<JsonV>) -> bool {
    &&& calls.len() == items.len()
    &&& forall|i: int|
        0 <= i < calls.len() ==> tells_call(
            #[trigger] calls[i],
            text_at(items[i], "call_id"@),
            text_at(items[i], "name"@),
            member_or_braces(items[i].get("arguments"@)),
        )
}

proof fn lemma_item_call(item: JsonV)
    ensures
        tells_call(
            item_call(item),
            text_at(item, "call_id"@),
            text_at(item, "name"@),
            member_or_braces(item.get("arguments"@)),
        ),
{
    lemma_keys_differ();
    reveal_strlit("");
    assert(""@ =~= Seq::empty());
    reveal_strlit("{}");
    assert("{}"@ =~= seq!['{', '}']);
    let call = item_call(item);
    let function = call.get("function"@)->Some_0;
    arguments_are_normalised(
        text_at(item, "name"@),
        member_or_braces(item.get("arguments"@)),
    );
    assert(has_only(call, set!["id"@, "type"@, "function"@]));
    assert(has_only(function, set!["name"@, "arguments"@]));
}

proof fn lemma_joined_without_gap(parts: Seq<Seq<char>>)
    ensures
        put_together(parts, Seq::empty()) == if parts.len() == 0 {
            Seq::empty()
        } else {
            put_together(parts.drop_last(), Seq::empty()) + parts.last()
        },
{
    let none = Seq::<char>::empty();
    if parts.len() == 1 {
        assert(put_together(parts.drop_last(), none) =~= none);
        assert(none + parts.last() =~= parts[0]);
    } else if parts.len() > 1 {
        assert(none + parts.last() =~= parts.last());
    }
}

proof fn lemma_text_in(parts: Seq<JsonV>)
    ensures
        ({
            let list = gather(parts, |part: JsonV| part.str_at("text"@));
            &&& put_together(list, Seq::empty()) == text_in(parts)
            &&& list.len() > 0 <==> any_text_in(parts)
        }),
    decreases parts.len(),
{
    let list = gather(parts, |part: JsonV| part.str_at("text"@));
    lemma_joined_without_gap(list);
    if parts.len() > 0 {
        let shorter = parts.drop_last();
        let before = gather(shorter, |part: JsonV| part.str_at("text"@));
        lemma_text_in(shorter);
        if any_text_in(shorter) {
            let i = choose|i: int|
                0 <= i < shorter.len() && (#[trigger] shorter[i]).str_at("text"@) is Some;
            assert(parts[i].str_at("text"@) is Some);
        }
        if any_text_in(parts) {
            let i = choose|i: int|
                0 <= i < parts.len() && (#[trigger] parts[i]).str_at("text"@) is Some;
            if i < shorter.len() {
                assert(shorter[i].str_at("text"@) is Some);
            }
        }
        if let Some(text) = parts.last().str_at("text"@) {
            assert(list.drop_last() =~= before);
            assert(parts[parts.len() - 1].str_at("text"@) is Some);
        }
    }
}

proof fn lemma_told_text(item: JsonV)
    requires
        item.str_at("type"@) == Some("message"@),
    ensures
        item_text(item) == told_text(item),
{
    reveal_strlit("");
    assert(""@ =~= Seq::empty());
    if let Some(parts) = item.array_at("content"@) {
        let list = gather(parts, |part: JsonV| part.str_at("text"@));
        lemma_text_in(parts);
        joining_puts_together(list, Seq::empty());
        assert(item_text(item) == if list.len() > 0 {
            Some(join(list, ""@))
        } else {
            None
        });
    }
}

proof fn lemma_reply(items: Seq<JsonV>)
    ensures
        ({
            let reply = reply_of(items);
            &&& reply.content == last_text(items)
            &&& reply.status == last_status(items)
            &&& tell_calls(reply.calls, call_items(items))
        }),
    decreases items.len(),
{
    lemma_keys_differ();
    reveal_strlit("");
    assert(""@.len() == 0);
    if items.len() > 0 {
        let item = items.last();
        let before = reply_of(items.drop_last());
        let after = reply_of(items);
        assert(after == after_output_item(before, item));
        lemma_reply(items.drop_last());
        if item.str_at("type"@) == Some("message"@) {
            lemma_told_text(item);
        }
        if item.str_at("type"@) == Some("function_call"@) {
            lemma_item_call(item);
            let all = call_items(items);
            assert forall|i: int| 0 <= i < after.calls.len() implies tells_call(
                #[trigger] after.calls[i],
                text_at(all[i], "call_id"@),
                text_at(all[i], "name"@),
                member_or_braces(all[i].get("arguments"@)),
            ) by {
                if i < before.calls.len() {
                    assert(after.calls[i] == before.calls[i]);
                }
            }
        }
    }
}

/// The message of a Chat Completions response tells what the output items of the Responses response
/// tell: their text, and their calls in the same order, each with its identifier, its name and its
/// normalised arguments.
pub proof fn replies_tell_the_output(body: JsonV, now: u64)
    ensures
        ({
            let items = match body.array_at("output"@) {
                Some(items) => items,
                None => Seq::empty(),
            };
            let calls = call_items(items);
            &&& chat_response(body, now).array_at("choices"@) matches Some(choices)
            &&& choices.len() == 1
            &&& choices[0].u64_at("index"@) == Some(0u64)
            &&& choices[0].str_at("finish_reason"@) == Some(
                if calls.len() > 0 {
                    "tool_calls"@
                } else {
                    match last_status(items) {
                        Some(status) => status,
                        None => "stop"@,
                    }
                },
            )
            &&& has_only(choices[0], set!["index"@, "finish_reason"@, "message"@])
            &&& choices[0].get("message"@) matches Some(message)
            &&& message.str_at("role"@) == Some("assistant"@)
            &&& message.str_at("content"@) == Some(last_text(items))
            &&& if calls.len() > 0 {
                message.array_at("tool_calls"@) matches Some(list) && tell_calls(list, calls)
            } else {
                message.get("tool_calls"@) is None
            }
            &&& has_only(message, set!["role"@, "content"@, "tool_calls"@])
        }),
{
    lemma_keys_differ();
    let items = match body.array_at("output"@) {
        Some(items) => items,
        None => Seq::empty(),
    };
    assert(output_list(body) == items);
    lemma_reply(items);
    let reply = reply_of(items);
    let choice = reply_choice(reply);
    assert(chat_response(body, now).array_at("choices"@) == Some(seq![choice]));
    lemma_choice(reply);
}

proof fn lemma_choice(reply: Reply)
    ensures
        ({
            let choice = reply_choice(reply);
            let message = reply_message(reply);
            &&& choice.u64_at("index"@) == Some(0u64)
            &&& choice.get("message"@) == Some(message)
            &&& choice.str_at("finish_reason"@) == Some(
                if reply.calls.len() > 0 {
                    "tool_calls"@
                } else {
                    match reply.status {
                        Some(status) => status,
                        None => "stop"@,
                    }
                },
            )
            &&& has_only(choice, set!["index"@, "finish_reason"@, "message"@])
            &&& message.str_at("role"@) == Some("assistant"@)
            &&& message.str_at("content"@) == Some(reply.content)
            &&& message.get("tool_calls"@) == if reply.calls.len() > 0 {
                Some(JsonV::Arr(reply.calls))
            } else {
                None
            }
            &&& has_only(message, set!["role"@, "content"@, "tool_calls"@])
        }),
{
    lemma_keys_differ();
    assert(has_only(reply_choice(reply), set!["index"@, "finish_reason"@, "message"@]));
    assert(has_only(reply_message(reply), set!["role"@, "content"@, "tool_calls"@]));
}

proof fn lemma_chat_usage(usage: Option<JsonV>)
    ensures
        ({
            let told = chat_usage(usage);
            let all = count_at(usage, "input_tokens"@) + count_at(usage, "output_tokens"@);
            &&& told.u64_at("prompt_tokens"@) is Some
            &&& told.u64_at("completion_tokens"@) is Some
            &&& told.u64_at("total_tokens"@) is Some
            &&& count_at(Some(told), "prompt_tokens"@) == count_at(usage, "input_tokens"@)
            &&& count_at(Some(told), "completion_tokens"@) == count_at(usage, "output_tokens"@)
            &&& all <= u64::MAX ==> count_at(Some(told), "total_tokens"@) == all
            &&& tell_cached(
                told.get("prompt_tokens_details"@),
                cached_in(usage, "input_tokens_details"@),
            )
            &&& has_only(
                told,
                set![
                    "prompt_tokens"@,
                    "completion_tokens"@,
                    "total_tokens"@,
                    "prompt_tokens_details"@,
                ],
            )
        }),
{
    lemma_keys_differ();
    let cached = cached_in(usage, "input_tokens_details"@);
    if cached is Some {
        assert(has_only(cached_details(cached)->Some_0, set!["cached_tokens"@]));
    }
}

/// A Chat Completions response tells whose answer it is, and when and at what cost it was made, as
/// the Responses response does: its identifier, model, time and fingerprint, and how many tokens
/// were used. The time of the conversion stands in for a missing time.
pub proof fn chat_responses_tell_the_rest(body: JsonV, now: u64)
    ensures
        ({
            let told = chat_response(body, now);
            let usage = body.get("usage"@);
            let all = count_at(usage, "input_tokens"@) + count_at(usage, "output_tokens"@);
            &&& told.str_at("id"@) == Some(
                match body.str_at("id"@) {
                    Some(id) => id,
                    None => "chatcmpl-default"@,
                },
            )
            &&& told.str_at("model"@) == body.str_at("model"@)
            &&& told.u64_at("created"@) == Some(
                match body.u64_at("created"@) {
                    Some(time) => time,
                    None => now,
                },
            )
            &&& told.str_at("system_fingerprint"@) == body.str_at("system_fingerprint"@)
            &&& told.str_at("object"@) == Some("chat.completion"@)
            &&& told.get("usage"@) matches Some(cost)
            &&& count_at(Some(cost), "prompt_tokens"@) == count_at(usage, "input_tokens"@)
            &&& count_at(Some(cost), "completion_tokens"@) == count_at(usage, "output_tokens"@)
            &&& all <= u64::MAX ==> cost.u64_at("total_tokens"@) == Some(all as u64)
            &&& tell_cached(
                cost.get("prompt_tokens_details"@),
                cached_in(usage, "input_tokens_details"@),
            )
            &&& has_only(
                told,
                set![
                    "id"@,
                    "model"@,
                    "created"@,
                    "system_fingerprint"@,
                    "choices"@,
                    "usage"@,
                    "object"@,
                ],
            )
        }),
{
    lemma_keys_differ();
    lemma_chat_usage(body.get("usage"@));
}

/// Something that the message of a chat tells: a text, or a call.
pub enum Thing {
    Text(Seq<char>),
    Call(JsonV),
}

/// What the message of a choice tells: its text first, and then its calls.
pub open spec fn things_told(choice: JsonV) -> Seq<Thing> {
    match choice.get("message"@) {
        Some(message) => {
            let calls = match message.array_at("tool_calls"@) {
                Some(calls) => Seq::new(calls.len(), |i: int| Thing::Call(calls[i])),
                None => Seq::empty(),
            };
            match message.str_at("content"@) {
                Some(text) => seq![Thing::Text(text)] + calls,
                None => calls,
            }
        },
        None => Seq::empty(),
    }
}

/// What the messages of some choices tell, in order.
pub open spec fn all_things(choices: Seq<JsonV>) -> Seq<Thing>
    decreases choices.len(),
{
    if choices.len() == 0 {
        Seq::empty()
    } else {
        all_things(choices.drop_last()) + things_told(choices.last())
    }
}

/// The member under a key of the function that a call names.
pub open spec fn function_at(call: JsonV, key: Seq<char>) -> Option<JsonV> {
    match call.get("function"@) {
        Some(function) => function.get(key),
        None => None,
    }
}

/// The name of the function that a call names; empty where it has none.
pub open spec fn called_name(call: JsonV) -> Seq<char> {
    match function_at(call, "name"@) {
        Some(JsonV::Str(name)) => name,
        _ => Seq::empty(),
    }
}

/// An output item tells a text, or a call with its identifier, its name and its arguments as they
/// are.
pub open spec fn tells(item: JsonV, thing: Thing) -> bool {
    match thing {
        Thing::Text(text) => {
            &&& item.str_at("type"@) == Some("output_text"@)
            &&& item.str_at("text"@) == Some(text)
            &&& has_only(item, set!["type"@, "text"@])
        },
        Thing::Call(call) => {
            &&& item.str_at("type"@) == Some("function_call"@)
            &&& item.str_at("call_id"@) == Some(text_at(call, "id"@))
            &&& item.str_at("name"@) == Some(called_name(call))
            &&& item.get("arguments"@) == Some(member_or_braces(function_at(call, "arguments"@)))
            &&& has_only(item, set!["type"@, "call_id"@, "name"@, "arguments"@])
        },
    }
}

/// Some output items tell some things: as many, and in the same order.
pub open spec fn all_tell(items: Seq<JsonV>, things: Seq<Thing>) -> bool {
    &&& items.len() == things.len()
    &&& forall|i: int| 0 <= i < items.len() ==> tells(#[trigger] items[i], things[i])
}

proof fn lemma_function_item(call: JsonV)
    ensures
        tells(function_item(call), Thing::Call(call)),
{
    lemma_keys_differ();
    reveal_strlit("");
    assert(""@ =~= Seq::empty());
    reveal_strlit("{}");
    assert("{}"@ =~= seq!['{', '}']);
    assert(has_only(function_item(call), set!["type"@, "call_id"@, "name"@, "arguments"@]));
}

proof fn lemma_choice_items(choice: JsonV)
    ensures
        all_tell(choice_items(choice), things_told(choice)),
{
    lemma_keys_differ();
    let items = choice_items(choice);
    let things = things_told(choice);
    assert forall|i: int| 0 <= i < items.len() && items.len() == things.len() implies tells(
        #[trigger] items[i],
        things[i],
    ) by {
        let message = choice.get("message"@)->Some_0;
        let calls = match message.array_at("tool_calls"@) {
            Some(calls) => calls,
            None => Seq::empty(),
        };
        match message.str_at("content"@) {
            Some(text) => {
                if i == 0 {
                    assert(has_only(text_item(text), set!["type"@, "text"@]));
                    assert(items[i] == text_item(text));
                } else {
                    lemma_function_item(calls[i - 1]);
                    assert(items[i] == function_items(calls)[i - 1]);
                }
            },
            None => {
                lemma_function_item(calls[i]);
                assert(items[i] == function_items(calls)[i]);
            },
        }
    }
}

proof fn lemma_output_items(choices: Seq<JsonV>)
    ensures
        all_tell(output_items(choices), all_things(choices)),
    decreases choices.len(),
{
    if choices.len() > 0 {
        lemma_output_items(choices.drop_last());
        lemma_choice_items(choices.last());
    }
}

/// The output items of a Responses response tell what the messages of the Chat Completions response
/// tell: each text and each call, in the same order, and nothing else. There is no output where
/// there are no choices.
pub proof fn output_tells_the_messages(body: JsonV)
    ensures
        match body.array_at("choices"@) {
            Some(choices) => responses_response(body).array_at("output"@) matches Some(items)
                && all_tell(items, all_things(choices)),
            None => responses_response(body).get("output"@) is None,
        },
{
    lemma_keys_differ();
    assert(responses_response(body).get("output"@) == output_of(body));
    if let Some(choices) = body.array_at("choices"@) {
        lemma_output_items(choices);
    }
}

proof fn lemma_responses_usage(usage: JsonV)
    ensures
        ({
            let told = responses_usage(usage);
            &&& told.u64_at("input_tokens"@) is Some
            &&& told.u64_at("output_tokens"@) is Some
            &&& count_at(Some(told), "input_tokens"@) == count_at(Some(usage), "prompt_tokens"@)
            &&& count_at(Some(told), "output_tokens"@) == count_at(
                Some(usage),
                "completion_tokens"@,
            )
            &&& tell_cached(
                told.get("input_tokens_details"@),
                cached_in(Some(usage), "prompt_tokens_details"@),
            )
            &&& has_only(
                told,
                set!["input_tokens"@, "output_tokens"@, "input_tokens_details"@],
            )
        }),
{
    lemma_keys_differ();
    let cached = cached_in(Some(usage), "prompt_tokens_details"@);
    if cached is Some {
        assert(has_only(cached_details(cached)->Some_0, set!["cached_tokens"@]));
    }
}

/// A Responses response tells whose answer it is, and when and at what cost it was made, as the Chat
/// Completions response does; it is completed.
pub proof fn responses_tell_the_rest(body: JsonV)
    ensures
        ({
            let told = responses_response(body);
            &&& told.str_at("id"@) == Some(
                match body.str_at("id"@) {
                    Some(id) => id,
                    None => "resp-default"@,
                },
            )
            &&& told.str_at("model"@) == body.str_at("model"@)
            &&& told.u64_at("created"@) == body.u64_at("created"@)
            &&& told.str_at("system_fingerprint"@) == body.str_at("system_fingerprint"@)
            &&& told.str_at("status"@) == Some("completed"@)
            &&& told.get("usage"@) is Some <==> body.get("usage"@) is Some
            &&& body.get("usage"@) is Some ==> {
                &&& told.get("usage"@)->Some_0.u64_at("input_tokens"@) is Some
                &&& told.get("usage"@)->Some_0.u64_at("output_tokens"@) is Some
                &&& count_at(told.get("usage"@), "input_tokens"@) == count_at(
                    body.get("usage"@),
                    "prompt_tokens"@,
                )
                &&& count_at(told.get("usage"@), "output_tokens"@) == count_at(
                    body.get("usage"@),
                    "completion_tokens"@,
                )
                &&& tell_cached(
                    told.get("usage"@)->Some_0.get("input_tokens_details"@),
                    cached_in(body.get("usage"@), "prompt_tokens_details"@),
                )
            }
            &&& has_only(
                told,
                set![
                    "id"@,
                    "model"@,
                    "created"@,
                    "system_fingerprint"@,
                    "output"@,
                    "usage"@,
                    "status"@,
                ],
            )
        }),
{
    lemma_keys_differ();
    assert(responses_response(body).get("usage"@) == usage_of(body));
    if let Some(usage) = body.get("usage"@) {
        lemma_responses_usage(usage);
    }
}

/// The calls that the messages of some choices make, in order.
pub open spec fn calls_made(choices: Seq<JsonV>) -> Seq<JsonV>
    decreases choices.len(),
{
    if choices.len() == 0 {
        Seq::empty()
    } else {
        calls_made(choices.drop_last()) + match choices.last().get("message"@) {
            Some(message) => match message.array_at("tool_calls"@) {
                Some(calls) => calls,
                None => Seq::empty(),
            },
            None => Seq::empty(),
        }
    }
}

proof fn lemma_call_items_apart(a: Seq<JsonV>, b: Seq<JsonV>)
    ensures
        call_items(a + b) == call_items(a) + call_items(b),
    decreases b.len(),
{
    if b.len() == 0 {
        assert(a + b =~= a);
        assert(call_items(a) + call_items(b) =~= call_items(a));
    } else {
        lemma_call_items_apart(a, b.drop_last());
        assert((a + b).drop_last() =~= a + b.drop_last());
        assert((a + b).last() == b.last());
        assert(call_items(a + b) =~= call_items(a) + call_items(b));
    }
}

proof fn lemma_function_items(calls: Seq<JsonV>)
    ensures
        call_items(function_items(calls)) == function_items(calls),
    decreases calls.len(),
{
    if calls.len() == 0 {
        assert(function_items(calls) =~= Seq::empty());
    } else {
        let shorter = calls.drop_last();
        lemma_function_items(shorter);
        lemma_function_item(calls.last());
        assert(function_items(calls).drop_last() =~= function_items(shorter));
        assert(function_items(calls) =~= function_items(shorter).push(
            function_item(calls.last()),
        ));
    }
}

proof fn lemma_calls_there(choices: Seq<JsonV>)
    ensures
        call_items(output_items(choices)) == function_items(calls_made(choices)),
    decreases choices.len(),
{
    lemma_keys_differ();
    if choices.len() == 0 {
        assert(function_items(calls_made(choices)) =~= Seq::empty());
    } else {
        let shorter = choices.drop_last();
        let own = match choices.last().get("message"@) {
            Some(message) => match message.array_at("tool_calls"@) {
                Some(calls) => calls,
                None => Seq::empty(),
            },
            None => Seq::empty(),
        };
        lemma_calls_there(shorter);
        lemma_function_items(own);
        lemma_call_items_apart(output_items(shorter), choice_items(choices.last()));
        if let Some(message) = choices.last().get("message"@) {
            let front = match message.str_at("content"@) {
                Some(text) => seq![text_item(text)],
                None => Seq::empty(),
            };
            lemma_call_items_apart(front, function_items(own));
            assert(call_items(front) =~= Seq::empty()) by {
                if front.len() > 0 {
                    assert(front.drop_last() =~= Seq::empty());
                    assert(call_items(front.drop_last()) == Seq::<JsonV>::empty());
                    assert(front.last().str_at("type"@) == Some("output_text"@));
                }
            }
            assert(call_items(choice_items(choices.last())) =~= function_items(own));
        } else {
            assert(function_items(own) =~= Seq::empty());
        }
        assert(function_items(calls_made(choices)) =~= function_items(calls_made(shorter))
            + function_items(own));
    }
}

/// On the way from a Chat Completions response to a Responses response and back no call is lost and
/// none is added: each one keeps its identifier and its name, and its arguments come back in
/// normalised form.
pub proof fn calls_come_back(body: JsonV, choices: Seq<JsonV>, now: u64)
    requires
        body.array_at("choices"@) == Some(choices),
    ensures
        ({
            let back = chat_response(responses_response(body), now);
            let calls = calls_made(choices);
            &&& back.array_at("choices"@) matches Some(list)
            &&& list.len() == 1
            &&& list[0].get("message"@) matches Some(message)
            &&& if calls.len() == 0 {
                message.get("tool_calls"@) is None
            } else {
                &&& message.array_at("tool_calls"@) matches Some(returned)
                &&& returned.len() == calls.len()
                &&& forall|i: int|
                    0 <= i < returned.len() ==> tells_call(
                        #[trigger] returned[i],
                        text_at(calls[i], "id"@),
                        called_name(calls[i]),
                        member_or_braces(function_at(calls[i], "arguments"@)),
                    )
            }
        }),
{
    lemma_keys_differ();
    let there = responses_response(body);
    let items = output_items(choices);
    let calls = calls_made(choices);
    assert(there.array_at("output"@) == Some(items));
    replies_tell_the_output(there, now);
    lemma_calls_there(choices);
    assert forall|i: int| 0 <= i < calls.len() implies {
        let item = #[trigger] call_items(items)[i];
        &&& text_at(item, "call_id"@) == text_at(calls[i], "id"@)
        &&& text_at(item, "name"@) == called_name(calls[i])
        &&& item.get("arguments"@) == Some(
            member_or_braces(function_at(calls[i], "arguments"@)),
        )
    } by {
        lemma_function_item(calls[i]);
        assert(call_items(items)[i] == function_item(calls[i]));
    }
}

/// Every usage can be told whose token counts add up to a 64-bit number.
pub proof fn counts_that_add_up_can_be_told(usage: Option<JsonV>)
    ensures
        usage_fits(usage) <==> count_at(usage, "input_tokens"@) + count_at(usage, "output_tokens"@)
            <= u64::MAX,
{
}

} // verus!
