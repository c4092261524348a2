//! What holds of every request that is converted.

use vstd::prelude::*;
use crate::chat_messages::{
    after_call, after_item, after_items, after_output, answered, call_arguments, call_message,
    chat_messages, chat_role, ids_needed, is_call, is_call_of, is_called, is_taken, item_kind,
    lemma_message_is_no_call, lemma_outputs_stand, lemma_places_fit, message_text, named_call,
    needs_id, no_turns, opt_output_text, outputs_by_call, places_fit, resolved, text_message,
    tool_message, without_call, Turns, Unanswered,
};
use crate::chat_request::{
    chat_request, chat_tool, chat_tools, input_list, only_unsupported, opening, tool_list,
    unless_empty, unsupported_tools,
};
use crate::content::{content_lines, content_part, item_lines};
use crate::input_items::{
    after_block, after_blocks, after_content, after_message, after_messages, all_blocks, answers,
    block_kind, blocks_of, call_item, first_draft, flushed, input_items, is_tool_message,
    lemma_blocks_so_far, message_item, output_item, role_of, text_kind, text_part, tool_block,
    Draft,
};
use crate::input_laws::{lemma_blocks_done, other_results_are_listed};
use crate::json::{either, gather, or_default, JsonV};
use crate::responses_request::{
    input_of, instructions_of, not_system, other_messages, reasoning_of, responses_request,
    responses_tool, responses_tools, system_texts, text_settings, tool_choice_of,
};
use crate::text::{join, trim};

verus! {

broadcast use crate::json::group_members;

/// The settings of a Chat Completions request reach the Responses request unchanged, under the same
/// names but for the limit on tokens.
pub proof fn settings_reach_responses(body: JsonV)
    ensures
        ({
            let request = responses_request(body);
            &&& request.str_at("model"@) == body.str_at("model"@)
            &&& request.get("max_output_tokens"@) == body.get("max_tokens"@)
            &&& request.get("temperature"@) == body.get("temperature"@)
            &&& request.get("top_p"@) == body.get("top_p"@)
            &&& request.get("stream"@) == body.get("stream"@)
            &&& request.get("seed"@) == body.get("seed"@)
            &&& request.get("parallel_tool_calls"@) == body.get("parallel_tool_calls"@)
            &&& request.get("instructions"@) == instructions_of(body)
            &&& request.get("input"@) == input_of(body)
            &&& request.get("reasoning"@) == reasoning_of(body)
            &&& request.get("tools"@) == responses_tools(body)
            &&& request.get("tool_choice"@) == tool_choice_of(body)
            &&& request.get("text"@) == text_settings(body)
        }),
{
    reveal_strlit("model");
    reveal_strlit("instructions");
    reveal_strlit("input");
    reveal_strlit("max_output_tokens");
    reveal_strlit("temperature");
    reveal_strlit("top_p");
    reveal_strlit("stream");
    reveal_strlit("reasoning");
    reveal_strlit("tools");
    reveal_strlit("tool_choice");
    reveal_strlit("parallel_tool_calls");
    reveal_strlit("seed");
    reveal_strlit("text");
    assert("model"@[0] != "input"@[0]);
    assert("model"@[0] != "top_p"@[0]);
    assert("model"@[0] != "tools"@[0]);
    assert("input"@[0] != "top_p"@[0]);
    assert("input"@[0] != "tools"@[0]);
    assert("top_p"@[2] != "tools"@[2]);
    assert("temperature"@[1] != "tool_choice"@[1]);
    assert("seed"@[0] != "text"@[0]);
    assert("model"@.len() == 5);
    assert("instructions"@.len() == 12);
    assert("input"@.len() == 5);
    assert("max_output_tokens"@.len() == 17);
    assert("temperature"@.len() == 11);
    assert("top_p"@.len() == 5);
    assert("stream"@.len() == 6);
    assert("reasoning"@.len() == 9);
    assert("tools"@.len() == 5);
    assert("tool_choice"@.len() == 11);
    assert("parallel_tool_calls"@.len() == 19);
    assert("seed"@.len() == 4);
    assert("text"@.len() == 4);
}

/// The settings of a Responses request reach the Chat Completions request unchanged, under the same
/// names but for the limit on tokens; its messages and its functions are all there is besides.
pub proof fn settings_reach_chat(body: JsonV, fresh: Seq<Seq<char>>)
    requires
        chat_request(body, fresh) is Ok,
    ensures
        ({
            let request = chat_request(body, fresh)->Ok_0;
            &&& request.str_at("model"@) == body.str_at("model"@)
            &&& request.get("stream"@) == body.get("stream"@)
            &&& request.get("temperature"@) == body.get("temperature"@)
            &&& request.get("top_p"@) == body.get("top_p"@)
            &&& request.get("max_tokens"@) == either(
                body.get("max_tokens"@),
                body.get("max_output_tokens"@),
            )
            &&& request.get("reasoning"@) == reasoning_of(body)
            &&& request.get("messages"@) == unless_empty(
                opening(body) + chat_messages(input_list(body), fresh)->Some_0,
            )
            &&& request.get("tools"@) == unless_empty(chat_tools(tool_list(body)))
        }),
{
    reveal_strlit("model");
    reveal_strlit("stream");
    reveal_strlit("temperature");
    reveal_strlit("top_p");
    reveal_strlit("max_tokens");
    reveal_strlit("reasoning");
    reveal_strlit("messages");
    reveal_strlit("tools");
    assert("model"@[0] != "top_p"@[0]);
    assert("model"@[0] != "tools"@[0]);
    assert("top_p"@[2] != "tools"@[2]);
    assert("model"@.len() == 5);
    assert("stream"@.len() == 6);
    assert("temperature"@.len() == 11);
    assert("top_p"@.len() == 5);
    assert("max_tokens"@.len() == 10);
    assert("reasoning"@.len() == 9);
    assert("messages"@.len() == 8);
    assert("tools"@.len() == 5);
}

/// Instructions that are not empty become the first message, from the system.
pub proof fn instructions_come_first(body: JsonV, fresh: Seq<Seq<char>>)
    requires
        chat_request(body, fresh) is Ok,
        body.str_or("instructions"@, ""@).len() > 0,
    ensures
        ({
            let messages = chat_request(body, fresh)->Ok_0.array_at("messages"@);
            &&& messages is Some
            &&& messages->Some_0.len() > 0
            &&& messages->Some_0[0].str_at("role"@) == Some("system"@)
            &&& messages->Some_0[0].str_at("content"@) == Some(body.str_or("instructions"@, ""@))
        }),
{
    settings_reach_chat(body, fresh);
    reveal_strlit("role");
    reveal_strlit("content");
    assert("role"@.len() == 4);
    assert("content"@.len() == 7);
}

proof fn lemma_tools_are_functions(tools: Seq<JsonV>)
    ensures
        forall|i: int|
            0 <= i < chat_tools(tools).len() ==> (#[trigger] chat_tools(tools)[i]).str_at("type"@)
                == Some("function"@),
        chat_tools(tools).len() <= tools.len(),
    decreases tools.len(),
{
    reveal_strlit("type");
    reveal_strlit("function");
    assert("type"@.len() == 4);
    assert("function"@.len() == 8);
    if tools.len() > 0 {
        lemma_tools_are_functions(tools.drop_last());
    }
}

/// A Chat Completions request has only functions as tools, and never an empty list of tools.
pub proof fn only_functions_are_sent(body: JsonV, fresh: Seq<Seq<char>>)
    requires
        chat_request(body, fresh) is Ok,
    ensures
        chat_request(body, fresh)->Ok_0.get("tools"@) matches Some(tools) ==> {
            &&& tools is Arr
            &&& tools->Arr_0.len() > 0
            &&& forall|i: int|
                0 <= i < tools->Arr_0.len() ==> (#[trigger] tools->Arr_0[i]).str_at("type"@)
                    == Some("function"@)
        },
{
    settings_reach_chat(body, fresh);
    lemma_tools_are_functions(tool_list(body));
}

/// A request with tools of which none is a function is refused, with the number of its tools.
pub proof fn unsupported_tools_are_refused(body: JsonV, fresh: Seq<Seq<char>>)
    requires
        chat_messages(input_list(body), fresh) is Some,
        tool_list(body).len() > 0,
        forall|i: int|
            0 <= i < tool_list(body).len() ==> (#[trigger] tool_list(body)[i]).str_or(
                "type"@,
                "function"@,
            ) != "function"@,
    ensures
        chat_request(body, fresh) == Err::<JsonV, Seq<char>>(
            unsupported_tools(tool_list(body).len()),
        ),
{
    lemma_no_functions(tool_list(body));
}

proof fn lemma_no_functions(tools: Seq<JsonV>)
    requires
        forall|i: int|
            0 <= i < tools.len() ==> (#[trigger] tools[i]).str_or("type"@, "function"@)
                != "function"@,
    ensures
        chat_tools(tools).len() == 0,
    decreases tools.len(),
{
    if tools.len() > 0 {
        let shorter = tools.drop_last();
        assert forall|i: int| 0 <= i < shorter.len() implies (#[trigger] shorter[i]).str_or(
            "type"@,
            "function"@,
        ) != "function"@ by {
            assert(tools[i] == shorter[i]);
        }
        lemma_no_functions(shorter);
        assert(chat_tool(tools[tools.len() - 1]) is None);
    }
}

/// A message that no developer sends.
pub open spec fn not_from_developer(message: JsonV) -> bool {
    message.str_at("role"@) != Some("developer"@)
}

proof fn lemma_no_developers()
    ensures
        forall|id: Seq<char>, name: Seq<char>, arguments: JsonV| not_from_developer(
            #[trigger] call_message(id, name, arguments),
        ),
        forall|item: JsonV, text: Seq<char>| not_from_developer(
            #[trigger] text_message(chat_role(item), text),
        ),
        forall|id: Seq<char>, text: Seq<char>| not_from_developer(#[trigger] tool_message(id, text)),
{
    reveal_strlit("role");
    reveal_strlit("content");
    reveal_strlit("tool_calls");
    reveal_strlit("tool_call_id");
    reveal_strlit("user");
    reveal_strlit("developer");
    reveal_strlit("assistant");
    reveal_strlit("tool");
    assert("role"@.len() == 4);
    assert("content"@.len() == 7);
    assert("tool_calls"@.len() == 10);
    assert("tool_call_id"@.len() == 12);
    assert("user"@.len() == 4);
    assert("developer"@.len() == 9);
    assert("developer"@[0] != "assistant"@[0]);
    assert("tool"@.len() == 4);
}

proof fn lemma_items_without_developers(items: Seq<JsonV>, n: nat, fresh: Seq<Seq<char>>)
    ensures
        after_items(items, n, fresh) matches Some(t) ==> forall|i: int|
            0 <= i < t.messages.len() ==> not_from_developer(#[trigger] t.messages[i]),
    decreases n,
{
    lemma_no_developers();
    if n > 0 {
        lemma_items_without_developers(items, (n - 1) as nat, fresh);
    }
}

proof fn lemma_answered_without_developers(messages: Seq<JsonV>, list: Seq<Unanswered>)
    requires
        places_fit(list, messages.len()),
        forall|i: int| 0 <= i < messages.len() ==> not_from_developer(#[trigger] messages[i]),
    ensures
        forall|i: int|
            0 <= i < answered(messages, list).len() ==> not_from_developer(
                #[trigger] answered(messages, list)[i],
            ),
    decreases list.len(),
{
    if list.len() > 0 {
        lemma_no_developers();
        let call = list.last();
        let more = messages.insert(call.place as int, tool_message(call.id, Seq::empty()));
        assert forall|i: int| 0 <= i < more.len() implies not_from_developer(#[trigger] more[i]) by {
            if i < call.place {
                assert(more[i] == messages[i]);
            } else if i > call.place {
                assert(more[i] == messages[i - 1]);
            }
        }
        lemma_answered_without_developers(more, list.drop_last());
        assert(answered(messages, list) == answered(more, list.drop_last()));
    }
}

/// No message of a chat comes from a developer: what a developer says, the user says.
pub proof fn developers_become_users(items: Seq<JsonV>, fresh: Seq<Seq<char>>)
    ensures
        chat_messages(items, fresh) matches Some(messages) ==> forall|i: int|
            0 <= i < messages.len() ==> not_from_developer(#[trigger] messages[i]),
{
    lemma_items_without_developers(items, items.len(), fresh);
    lemma_places_fit(items, items.len(), fresh);
    if let Some(t) = after_items(items, items.len(), fresh) {
        lemma_answered_without_developers(t.messages, t.unanswered);
    }
}

/// An item that tells a role and no kind becomes a message of that role, with the text of its
/// content.
pub proof fn role_makes_a_message(items: Seq<JsonV>, k: int, t: Turns, fresh: Seq<Seq<char>>)
    requires
        0 <= k < items.len(),
        items[k].get("type"@) is None,
        items[k].get("role"@) is Some,
        trim(message_text(items[k])).len() > 0,
    ensures
        after_item(items, t, k, fresh) == Some(
            Turns {
                messages: t.messages.push(
                    text_message(chat_role(items[k]), message_text(items[k])),
                ),
                ..t
            },
        ),
{
}

/// A text that a chat message says goes into a Responses request and comes back: the item that it
/// becomes gives the same chat message.
pub proof fn messages_come_back(
    items: Seq<JsonV>,
    k: int,
    t: Turns,
    fresh: Seq<Seq<char>>,
    role: Seq<char>,
    text: Seq<char>,
)
    requires
        0 <= k < items.len(),
        items[k] == message_item(role, seq![text_part(text_kind(role), text)]),
        role != "developer"@,
        trim(text).len() > 0,
    ensures
        after_item(items, t, k, fresh) == Some(
            Turns { messages: t.messages.push(text_message(role, text)), ..t },
        ),
{
    reveal_strlit("type");
    reveal_strlit("role");
    reveal_strlit("content");
    reveal_strlit("text");
    reveal_strlit("input_text");
    reveal_strlit("output_text");
    assert("type"@.len() == 4);
    assert("role"@.len() == 4);
    assert("type"@[0] != "role"@[0]);
    assert("text"@.len() == 4);
    assert("type"@[1] != "text"@[1]);
    assert("content"@.len() == 7);
    let part = text_part(text_kind(role), text);
    let item = items[k];
    assert(item.get("type"@) is None);
    assert(item.array_at("content"@) == Some(seq![part]));
    assert(seq![part].drop_last() =~= Seq::empty());
    assert(part.str_at("type"@) == Some(text_kind(role)));
    assert(part.str_at("text"@) == Some(text));
    assert(text.len() > 0);
    assert(content_part(part) == Some(text));
    assert(item_lines(part) == seq![text]);
    assert(content_lines(seq![part]) =~= seq![text]) by {
        assert(content_lines(seq![part].drop_last()) == Seq::<Seq<char>>::empty());
    }
    assert(message_text(item) =~= text);
}

/// A message of a chat that says a text, which is not blank; no developer says it.
pub open spec fn says_text(message: JsonV) -> bool {
    let role = role_of(message);
    let text = message.str_or("content"@, ""@);
    message == text_message(role, text) && role != "developer"@ && trim(text).len() > 0
}

/// The item that a message becomes that says a text.
pub open spec fn said_item(message: JsonV) -> JsonV {
    let role = role_of(message);
    message_item(role, seq![text_part(text_kind(role), message.str_or("content"@, ""@))])
}

proof fn lemma_says_text(message: JsonV)
    requires
        says_text(message),
    ensures
        message.get("content"@) == Some(JsonV::Str(message.str_or("content"@, ""@))),
        message.get("tool_call_id"@) is None,
        message.get("function_call"@) is None,
        blocks_of(message).len() == 0,
{
    reveal_strlit("role");
    reveal_strlit("content");
    reveal_strlit("tool_call_id");
    reveal_strlit("function_call");
    assert("role"@.len() == 4);
    assert("content"@.len() == 7);
    assert("tool_call_id"@.len() == 12);
    assert("function_call"@.len() == 13);
    reveal_strlit("");
    assert(trim(""@).len() == 0);
}

proof fn lemma_said_items(blocks: Seq<JsonV>, d: Draft, messages: Seq<JsonV>)
    requires
        forall|i: int| 0 <= i < messages.len() ==> says_text(#[trigger] messages[i]),
    ensures
        after_messages(blocks, d, messages).input == d.input + Seq::new(
            messages.len(),
            |i: int| said_item(messages[i]),
        ),
    decreases messages.len(),
{
    if messages.len() > 0 {
        let shorter = messages.drop_last();
        assert forall|i: int| 0 <= i < shorter.len() implies says_text(#[trigger] shorter[i]) by {
            assert(messages[i] == shorter[i]);
        }
        lemma_said_items(blocks, d, shorter);
        assert(says_text(messages[messages.len() - 1]));
        lemma_says_text(messages.last());
    }
    assert(after_messages(blocks, d, messages).input =~= d.input + Seq::new(
        messages.len(),
        |i: int| said_item(messages[i]),
    ));
}

proof fn lemma_said_messages(
    items: Seq<JsonV>,
    messages: Seq<JsonV>,
    n: nat,
    fresh: Seq<Seq<char>>,
)
    requires
        n <= messages.len(),
        items == Seq::new(messages.len(), |i: int| said_item(messages[i])),
        forall|i: int| 0 <= i < messages.len() ==> says_text(#[trigger] messages[i]),
    ensures
        after_items(items, n, fresh) == Some(
            Turns { messages: messages.take(n as int), ..no_turns() },
        ),
    decreases n,
{
    if n > 0 {
        lemma_said_messages(items, messages, (n - 1) as nat, fresh);
        let message = messages[n - 1];
        let t = after_items(items, (n - 1) as nat, fresh)->Some_0;
        assert(says_text(message));
        messages_come_back(
            items,
            n - 1,
            t,
            fresh,
            role_of(message),
            message.str_or("content"@, ""@),
        );
        assert(messages.take(n as int) =~= messages.take(n - 1).push(message));
    } else {
        assert(messages.take(0) =~= Seq::empty());
    }
}

/// A chat of texts goes into a Responses request and comes back: the items that it becomes give the
/// same messages, in the same order.
pub proof fn chats_come_back(messages: Seq<JsonV>, fresh: Seq<Seq<char>>)
    requires
        forall|i: int| 0 <= i < messages.len() ==> says_text(#[trigger] messages[i]),
    ensures
        chat_messages(input_items(messages), fresh) == Some(messages),
{
    let blocks = all_blocks(messages);
    let items = Seq::new(messages.len(), |i: int| said_item(messages[i]));
    lemma_said_items(blocks, first_draft(blocks), messages);
    assert(input_items(messages) =~= items);
    lemma_said_messages(items, messages, messages.len(), fresh);
    assert(messages.take(messages.len() as int) =~= messages);
}

/// Where the output of a call is known, it follows the call at once, under the same identifier.
pub proof fn output_follows_its_call(items: Seq<JsonV>, k: int, t: Turns, fresh: Seq<Seq<char>>)
    requires
        0 <= k < items.len(),
        is_call(items[k]),
        named_call(items[k]) matches Some(id) && outputs_by_call(items).contains_key(id),
    ensures
        ({
            let item = items[k];
            let id = named_call(item)->Some_0;
            let output = items[outputs_by_call(items)[id] as int];
            after_item(items, t, k, fresh) == Some(
                Turns {
                    messages: t.messages.push(
                        call_message(id, item.str_or("name"@, ""@), call_arguments(item)),
                    ).push(tool_message(id, opt_output_text(output.get("output"@)))),
                    unanswered: without_call(t.unanswered, id),
                    ..t
                },
            )
        }),
{
    lemma_outputs_stand(items, named_call(items[k])->Some_0);
    lemma_message_is_no_call(items[k]);
}

/// The output of a function that its call took stands behind the call only: where it stands in
/// the input, it adds nothing.
pub proof fn taken_output_adds_nothing(items: Seq<JsonV>, k: int, t: Turns, fresh: Seq<Seq<char>>)
    requires
        0 <= k < items.len(),
        item_kind(items[k]) == "function_call_output"@,
        is_taken(items, k),
    ensures
        after_item(items, t, k, fresh) == Some(t),
{
    lemma_kinds();
}

/// The output of a function that names a call and that no call took becomes the message of a tool
/// where it stands: no output is lost.
pub proof fn other_output_is_a_message(items: Seq<JsonV>, k: int, t: Turns, fresh: Seq<Seq<char>>)
    requires
        0 <= k < items.len(),
        item_kind(items[k]) == "function_call_output"@,
        named_call(items[k]) is Some,
        !is_taken(items, k),
    ensures
        after_item(items, t, k, fresh) == Some(
            Turns {
                messages: t.messages.push(
                    tool_message(
                        named_call(items[k])->Some_0,
                        opt_output_text(items[k].get("output"@)),
                    ),
                ),
                unanswered: without_call(t.unanswered, named_call(items[k])->Some_0),
                ..t
            },
        ),
{
    lemma_kinds();
}

proof fn lemma_kinds()
    ensures
        "function_call_output"@ != "message"@,
        "function_call_output"@ != "function_call"@,
        "function_call_output"@ != "custom_tool_call"@,
{
    reveal_strlit("message");
    reveal_strlit("function_call");
    reveal_strlit("custom_tool_call");
    reveal_strlit("function_call_output");
    assert("message"@.len() == 7);
    assert("function_call"@.len() == 13);
    assert("custom_tool_call"@.len() == 16);
    assert("function_call_output"@.len() == 20);
}

/// Whether a message has the output of a call.
pub open spec fn is_output_of(message: JsonV, id: Seq<char>) -> bool {
    message.str_at("role"@) == Some("tool"@) && message.str_at("tool_call_id"@) == Some(id)
}

/// Whether one of the messages has the output of a call.
pub open spec fn has_output_of(messages: Seq<JsonV>, id: Seq<char>) -> bool {
    exists|i: int| 0 <= i < messages.len() && is_output_of(#[trigger] messages[i], id)
}

spec fn awaits(list: Seq<Unanswered>, id: Seq<char>) -> bool {
    exists|i: int| 0 <= i < list.len() && (#[trigger] list[i]).id == id
}

proof fn lemma_tool_message(id: Seq<char>, text: Seq<char>)
    ensures
        is_output_of(tool_message(id, text), id),
{
    reveal_strlit("role");
    reveal_strlit("tool_call_id");
    reveal_strlit("content");
    assert("role"@.len() == 4);
    assert("tool_call_id"@.len() == 12);
    assert("content"@.len() == 7);
}

proof fn lemma_still_awaited(list: Seq<Unanswered>, other: Seq<char>, id: Seq<char>)
    requires
        awaits(list, id),
        other != id,
    ensures
        awaits(without_call(list, other), id),
    decreases list.len(),
{
    let rest = without_call(list.drop_last(), other);
    if list.last().id == id {
        assert(without_call(list, other) == rest.push(list.last()));
        assert(rest.push(list.last())[rest.len() as int].id == id);
    } else {
        let i = choose|i: int| 0 <= i < list.len() && (#[trigger] list[i]).id == id;
        assert(list.drop_last()[i].id == id);
        lemma_still_awaited(list.drop_last(), other, id);
        let j = choose|j: int| 0 <= j < rest.len() && (#[trigger] rest[j]).id == id;
        assert(rest.push(list.last())[j] == rest[j]);
    }
}

spec fn cared_for(t: Turns, id: Seq<char>) -> bool {
    has_output_of(t.messages, id) || awaits(t.unanswered, id)
}

proof fn lemma_output_kept(messages: Seq<JsonV>, message: JsonV, id: Seq<char>)
    ensures
        has_output_of(messages, id) || is_output_of(message, id) ==> has_output_of(
            messages.push(message),
            id,
        ),
{
    let more = messages.push(message);
    assert(more[messages.len() as int] == message);
    if has_output_of(messages, id) {
        let i = choose|i: int| 0 <= i < messages.len() && is_output_of(#[trigger] messages[i], id);
        assert(more[i] == messages[i]);
    }
}

proof fn lemma_output_cares(t: Turns, item: JsonV, text: Seq<char>, id: Seq<char>)
    requires
        cared_for(t, id) || named_call(item) == Some(id),
    ensures
        after_output(t, item, text) matches Some(next) ==> cared_for(next, id),
{
    if let Some((other, _)) = resolved(item, t.pending) {
        lemma_tool_message(other, text);
        lemma_output_kept(t.messages, tool_message(other, text), id);
        if other != id && awaits(t.unanswered, id) {
            lemma_still_awaited(t.unanswered, other, id);
        }
    }
}

proof fn lemma_call_cares(
    items: Seq<JsonV>,
    t: Turns,
    item: JsonV,
    fresh: Seq<Seq<char>>,
    id: Seq<char>,
)
    requires
        is_call(item),
        cared_for(t, id) || (item_kind(item) == "custom_tool_call"@ && named_call(item) == Some(
            id,
        )),
    ensures
        after_call(items, t, item, fresh) matches Some(next) ==> cared_for(next, id),
{
    let own = or_default(named_call(item), fresh[t.used as int]);
    let message = call_message(own, item.str_or("name"@, ""@), call_arguments(item));
    let called = Turns {
        messages: t.messages.push(message),
        used: if needs_id(item) {
            t.used + 1
        } else {
            t.used
        },
        ..t
    };
    lemma_output_kept(t.messages, message, id);
    lemma_outputs_stand(items, own);
    if outputs_by_call(items).contains_key(own) {
        let output = items[outputs_by_call(items)[own] as int];
        if !cared_for(called, id) {
            assert(own == id);
            assert(named_call(output) == Some(id));
        }
        lemma_output_cares(called, output, opt_output_text(output.get("output"@)), id);
    } else {
        let more = t.unanswered.push(Unanswered { id: own, place: called.messages.len() });
        assert(more[t.unanswered.len() as int].id == own);
        if awaits(t.unanswered, id) {
            let i = choose|i: int|
                0 <= i < t.unanswered.len() && (#[trigger] t.unanswered[i]).id == id;
            assert(more[i].id == id);
        }
    }
}

proof fn lemma_item_cares(
    items: Seq<JsonV>,
    k: int,
    t: Turns,
    fresh: Seq<Seq<char>>,
    id: Seq<char>,
)
    requires
        0 <= k < items.len(),
        cared_for(t, id) || (item_kind(items[k]) == "custom_tool_call"@ && is_call_of(
            items[k],
            id,
        )),
    ensures
        after_item(items, t, k, fresh) matches Some(next) ==> cared_for(next, id),
{
    let item = items[k];
    lemma_message_is_no_call(item);
    if is_call(item) {
        lemma_call_cares(items, t, item, fresh, id);
    } else {
        lemma_output_kept(t.messages, text_message(chat_role(item), message_text(item)), id);
        lemma_output_cares(t, item, opt_output_text(item.get("output"@)), id);
        lemma_output_cares(
            t,
            item,
            opt_output_text(either(item.get("output"@), item.get("result"@))),
            id,
        );
    }
}

proof fn lemma_items_care(
    items: Seq<JsonV>,
    k: int,
    n: nat,
    fresh: Seq<Seq<char>>,
    id: Seq<char>,
)
    requires
        0 <= k < n <= items.len(),
        item_kind(items[k]) == "custom_tool_call"@,
        is_call_of(items[k], id),
    ensures
        after_items(items, n, fresh) matches Some(t) ==> cared_for(t, id),
    decreases n,
{
    if k < n - 1 {
        lemma_items_care(items, k, (n - 1) as nat, fresh, id);
    }
    if let Some(t) = after_items(items, (n - 1) as nat, fresh) {
        lemma_item_cares(items, n - 1, t, fresh, id);
    }
}

proof fn lemma_answered(messages: Seq<JsonV>, list: Seq<Unanswered>, id: Seq<char>)
    requires
        places_fit(list, messages.len()),
        has_output_of(messages, id) || awaits(list, id),
    ensures
        has_output_of(answered(messages, list), id),
    decreases list.len(),
{
    if list.len() > 0 {
        let call = list.last();
        let at = call.place as int;
        let output = tool_message(call.id, Seq::empty());
        let more = messages.insert(at, output);
        assert(more[at] == output);
        lemma_tool_message(call.id, Seq::empty());
        if has_output_of(messages, id) {
            let i = choose|i: int|
                0 <= i < messages.len() && is_output_of(#[trigger] messages[i], id);
            assert(more[if i < at {
                i
            } else {
                i + 1
            }] == messages[i]);
        } else if call.id != id {
            let i = choose|i: int| 0 <= i < list.len() && (#[trigger] list[i]).id == id;
            assert(list.drop_last()[i].id == id);
        }
        lemma_answered(more, list.drop_last(), id);
    }
}

/// Every call of a custom tool has its output among the messages.
pub proof fn custom_calls_have_outputs(
    items: Seq<JsonV>,
    k: int,
    fresh: Seq<Seq<char>>,
    id: Seq<char>,
)
    requires
        0 <= k < items.len(),
        item_kind(items[k]) == "custom_tool_call"@,
        is_call_of(items[k], id),
    ensures
        chat_messages(items, fresh) matches Some(messages) ==> has_output_of(messages, id),
{
    lemma_items_care(items, k, items.len(), fresh, id);
    lemma_places_fit(items, items.len(), fresh);
    if let Some(t) = after_items(items, items.len(), fresh) {
        lemma_answered(t.messages, t.unanswered, id);
    }
}

/// Whether an item tells what the model thought.
pub open spec fn is_reasoning(item: JsonV) -> bool {
    item_kind(item) == "reasoning"@
}

/// The items but for those that tell what the model thought.
pub open spec fn without_reasoning(items: Seq<JsonV>) -> Seq<JsonV>
    decreases items.len(),
{
    if items.len() == 0 {
        items
    } else if is_reasoning(items.last()) {
        without_reasoning(items.drop_last())
    } else {
        without_reasoning(items.drop_last()).push(items.last())
    }
}

spec fn rank(items: Seq<JsonV>, k: int) -> nat {
    without_reasoning(items.take(k)).len()
}

proof fn lemma_rank_next(items: Seq<JsonV>, k: int)
    requires
        0 <= k < items.len(),
    ensures
        rank(items, k + 1) == rank(items, k) + if is_reasoning(items[k]) {
            0nat
        } else {
            1nat
        },
{
    assert(items.take(k + 1).drop_last() =~= items.take(k));
}

proof fn lemma_rank_grows(items: Seq<JsonV>, j: int, k: int)
    requires
        0 <= j <= k <= items.len(),
    ensures
        rank(items, j) <= rank(items, k),
        j < k && !is_reasoning(items[j]) ==> rank(items, j) < rank(items, k),
    decreases k - j,
{
    if j < k {
        lemma_rank_grows(items, j + 1, k);
        lemma_rank_next(items, j);
    }
}

proof fn lemma_kept(items: Seq<JsonV>, k: int)
    requires
        0 <= k < items.len(),
        !is_reasoning(items[k]),
    ensures
        rank(items, k) < without_reasoning(items).len(),
        without_reasoning(items)[rank(items, k) as int] == items[k],
    decreases items.len(),
{
    let shorter = items.drop_last();
    assert(items.take(items.len() as int) =~= items);
    if k < shorter.len() {
        lemma_kept(shorter, k);
        assert(shorter.take(k) =~= items.take(k));
    } else {
        assert(items.take(k) =~= shorter);
    }
}

proof fn lemma_kept_from(items: Seq<JsonV>, j: int) -> (k: int)
    requires
        0 <= j < without_reasoning(items).len(),
    ensures
        0 <= k < items.len(),
        without_reasoning(items)[j] == items[k],
    decreases items.len(),
{
    let shorter = items.drop_last();
    if j < without_reasoning(shorter).len() {
        lemma_kept_from(shorter, j)
    } else {
        items.len() - 1
    }
}

proof fn lemma_reasoning_kind(item: JsonV)
    requires
        is_reasoning(item),
    ensures
        item_kind(item) != "message"@,
        item_kind(item) != "function_call_output"@,
        item_kind(item) != "custom_tool_call_output"@,
        item_kind(item) != "tool_result"@,
        !is_call(item),
{
    reveal_strlit("reasoning");
    reveal_strlit("message");
    reveal_strlit("function_call");
    reveal_strlit("custom_tool_call");
    reveal_strlit("function_call_output");
    reveal_strlit("custom_tool_call_output");
    reveal_strlit("tool_result");
    assert("reasoning"@.len() == 9);
    assert("message"@.len() == 7);
    assert("function_call"@.len() == 13);
    assert("custom_tool_call"@.len() == 16);
    assert("function_call_output"@.len() == 20);
    assert("custom_tool_call_output"@.len() == 23);
    assert("tool_result"@.len() == 11);
}

proof fn lemma_same_outputs(items: Seq<JsonV>, id: Seq<char>)
    ensures
        outputs_by_call(without_reasoning(items)).contains_key(id) == outputs_by_call(
            items,
        ).contains_key(id),
        outputs_by_call(items).contains_key(id) ==> {
            let k = outputs_by_call(items)[id] as int;
            &&& k < items.len()
            &&& !is_reasoning(items[k])
            &&& outputs_by_call(without_reasoning(items))[id] == rank(items, k)
        },
    decreases items.len(),
{
    if items.len() > 0 {
        let shorter = items.drop_last();
        let item = items.last();
        let kept = without_reasoning(items);
        lemma_same_outputs(shorter, id);
        lemma_outputs_stand(shorter, id);
        if is_reasoning(item) {
            lemma_reasoning_kind(item);
        } else {
            assert(kept.drop_last() =~= without_reasoning(shorter));
        }
        assert(items.take(items.len() - 1) =~= shorter);
        if outputs_by_call(shorter).contains_key(id) {
            let k = outputs_by_call(shorter)[id] as int;
            assert(shorter.take(k) =~= items.take(k));
        }
    }
}

proof fn lemma_same_calls(items: Seq<JsonV>, id: Seq<char>)
    ensures
        is_called(without_reasoning(items), id) == is_called(items, id),
{
    let kept = without_reasoning(items);
    if is_called(items, id) {
        let k = choose|k: int| 0 <= k < items.len() && is_call_of(#[trigger] items[k], id);
        if is_reasoning(items[k]) {
            lemma_reasoning_kind(items[k]);
        }
        lemma_kept(items, k);
        assert(is_call_of(kept[rank(items, k) as int], id));
    }
    if is_called(kept, id) {
        let j = choose|j: int| 0 <= j < kept.len() && is_call_of(#[trigger] kept[j], id);
        let k = lemma_kept_from(items, j);
        assert(is_call_of(items[k], id));
    }
}

proof fn lemma_same_call(items: Seq<JsonV>, t: Turns, item: JsonV, fresh: Seq<Seq<char>>)
    ensures
        after_call(without_reasoning(items), t, item, fresh) == after_call(items, t, item, fresh),
{
    let id = or_default(named_call(item), fresh[t.used as int]);
    lemma_same_outputs(items, id);
    if outputs_by_call(items).contains_key(id) {
        lemma_kept(items, outputs_by_call(items)[id] as int);
    }
}

proof fn lemma_same_item(items: Seq<JsonV>, t: Turns, k: int, fresh: Seq<Seq<char>>)
    requires
        0 <= k < items.len(),
        !is_reasoning(items[k]),
    ensures
        after_item(without_reasoning(items), t, rank(items, k) as int, fresh) == after_item(
            items,
            t,
            k,
            fresh,
        ),
{
    let item = items[k];
    let id = item.str_or("call_id"@, ""@);
    lemma_kept(items, k);
    lemma_same_call(items, t, item, fresh);
    lemma_same_outputs(items, id);
    lemma_same_calls(items, id);
    if outputs_by_call(items).contains_key(id) {
        let at = outputs_by_call(items)[id] as int;
        if at < k {
            lemma_rank_grows(items, at, k);
        } else if k < at {
            lemma_rank_grows(items, k, at);
        }
    }
}

proof fn lemma_same_items(items: Seq<JsonV>, n: nat, fresh: Seq<Seq<char>>)
    requires
        n <= items.len(),
    ensures
        after_items(without_reasoning(items), rank(items, n as int), fresh) == after_items(
            items,
            n,
            fresh,
        ),
    decreases n,
{
    if n == 0 {
        assert(items.take(0) =~= Seq::empty());
    } else {
        lemma_same_items(items, (n - 1) as nat, fresh);
        lemma_rank_next(items, n - 1);
        if is_reasoning(items[n - 1]) {
            lemma_reasoning_kind(items[n - 1]);
        } else if let Some(t) = after_items(items, (n - 1) as nat, fresh) {
            lemma_same_item(items, t, n - 1, fresh);
        }
    }
}

proof fn lemma_same_needs(items: Seq<JsonV>)
    ensures
        ids_needed(without_reasoning(items)) == ids_needed(items),
    decreases items.len(),
{
    if items.len() > 0 {
        lemma_same_needs(items.drop_last());
        if is_reasoning(items.last()) {
            lemma_reasoning_kind(items.last());
        } else {
            assert(without_reasoning(items).drop_last() =~= without_reasoning(items.drop_last()));
        }
    }
}

/// What the model thought goes nowhere and affects nothing: without the items that tell it, an
/// input needs as many new identifiers, and gives the same messages or is refused as well.
pub proof fn reasoning_affects_nothing(items: Seq<JsonV>, fresh: Seq<Seq<char>>)
    ensures
        chat_messages(without_reasoning(items), fresh) == chat_messages(items, fresh),
        ids_needed(without_reasoning(items)) == ids_needed(items),
{
    lemma_same_items(items, items.len(), fresh);
    lemma_same_needs(items);
    assert(items.take(items.len() as int) =~= items);
}

/// An item that no input is refused for: a message, a call, or an output that names its call.
pub open spec fn is_accepted(item: JsonV) -> bool {
    let kind = item_kind(item);
    ||| kind == "message"@
    ||| kind == "function_call"@
    ||| kind == "function_call_output"@ && named_call(item) is Some
}

proof fn lemma_accepted_item(items: Seq<JsonV>, t: Turns, k: int, fresh: Seq<Seq<char>>)
    requires
        0 <= k < items.len(),
        forall|i: int| 0 <= i < items.len() ==> is_accepted(#[trigger] items[i]),
    ensures
        after_item(items, t, k, fresh) is Some,
{
    let item = items[k];
    assert(is_accepted(items[k]));
    lemma_message_is_no_call(item);
    lemma_kinds();
    reveal_strlit("function_call");
    reveal_strlit("tool_result");
    reveal_strlit("message");
    reveal_strlit("custom_tool_call_output");
    assert("function_call"@.len() == 13);
    assert("tool_result"@.len() == 11);
    assert("message"@.len() == 7);
    assert("custom_tool_call_output"@.len() == 23);
    if is_call(item) {
        let id = or_default(named_call(item), fresh[t.used as int]);
        lemma_outputs_stand(items, id);
        if outputs_by_call(items).contains_key(id) {
            assert(is_accepted(items[outputs_by_call(items)[id] as int]));
        }
    }
}

proof fn lemma_accepted_items(items: Seq<JsonV>, n: nat, fresh: Seq<Seq<char>>)
    requires
        n <= items.len(),
        forall|i: int| 0 <= i < items.len() ==> is_accepted(#[trigger] items[i]),
    ensures
        after_items(items, n, fresh) is Some,
    decreases n,
{
    if n > 0 {
        lemma_accepted_items(items, (n - 1) as nat, fresh);
        let t = after_items(items, (n - 1) as nat, fresh)->Some_0;
        lemma_accepted_item(items, t, n - 1, fresh);
    }
}

/// Whether a message says a plain text.
pub open spec fn has_text(message: JsonV) -> bool {
    message.str_at("content"@) is Some
}

/// Whether every message of a chat says a plain text.
pub open spec fn is_plain_chat(body: JsonV) -> bool {
    body.array_at("messages"@) matches Some(messages) ==> forall|i: int|
        0 <= i < messages.len() ==> has_text(#[trigger] messages[i])
}

spec fn is_named_result(block: JsonV) -> bool {
    block_kind(block) == "tool_result"@ && trim(answers(block)).len() > 0
}

proof fn lemma_tool_block(message: JsonV)
    requires
        is_tool_message(message),
    ensures
        is_named_result(tool_block(message)),
{
    reveal_strlit("type");
    reveal_strlit("tool_use_id");
    reveal_strlit("tool_call_id");
    reveal_strlit("content");
    reveal_strlit("");
    assert("type"@.len() == 4);
    assert("tool_use_id"@.len() == 11);
    assert("tool_call_id"@.len() == 12);
    assert("content"@.len() == 7);
    assert(trim(""@).len() == 0);
}

proof fn lemma_text_blocks(messages: Seq<JsonV>)
    requires
        forall|i: int| 0 <= i < messages.len() ==> has_text(#[trigger] messages[i]),
    ensures
        forall|k: int|
            0 <= k < all_blocks(messages).len() ==> is_named_result(
                #[trigger] all_blocks(messages)[k],
            ),
    decreases messages.len(),
{
    if messages.len() > 0 {
        let shorter = messages.drop_last();
        let message = messages.last();
        assert forall|i: int| 0 <= i < shorter.len() implies has_text(#[trigger] shorter[i]) by {
            assert(messages[i] == shorter[i]);
        }
        lemma_text_blocks(shorter);
        assert(has_text(messages[messages.len() - 1]));
        if is_tool_message(message) {
            lemma_tool_block(message);
        }
        let front = all_blocks(shorter);
        let all = all_blocks(messages);
        assert forall|k: int| 0 <= k < all.len() implies is_named_result(#[trigger] all[k]) by {
            if k < front.len() {
                assert(all[k] == front[k]);
            } else {
                assert(all[k] == blocks_of(message)[k - front.len()]);
            }
        }
    }
}

proof fn lemma_items_accepted()
    ensures
        forall|role: Seq<char>, content: Seq<JsonV>| is_accepted(
            #[trigger] message_item(role, content),
        ),
        forall|id: Seq<char>, name: Seq<char>, arguments: JsonV| is_accepted(
            #[trigger] call_item(id, name, arguments),
        ),
        forall|id: Seq<char>, block: JsonV|
            trim(id).len() > 0 ==> is_accepted(#[trigger] output_item(id, block)),
{
    reveal_strlit("role");
    reveal_strlit("content");
    reveal_strlit("type");
    reveal_strlit("call_id");
    reveal_strlit("name");
    reveal_strlit("arguments");
    reveal_strlit("output");
    assert("role"@.len() == 4);
    assert("content"@.len() == 7);
    assert("type"@.len() == 4);
    assert("role"@[0] != "type"@[0]);
    assert("call_id"@.len() == 7);
    assert("name"@.len() == 4);
    assert("type"@[0] != "name"@[0]);
    assert("arguments"@.len() == 9);
    assert("output"@.len() == 6);
    assert forall|role: Seq<char>, content: Seq<JsonV>| is_accepted(
        #[trigger] message_item(role, content),
    ) by {}
    assert forall|id: Seq<char>, name: Seq<char>, arguments: JsonV| is_accepted(
        #[trigger] call_item(id, name, arguments),
    ) by {}
    assert forall|id: Seq<char>, block: JsonV| trim(id).len() > 0 implies is_accepted(
        #[trigger] output_item(id, block),
    ) by {}
}

spec fn all_accepted(items: Seq<JsonV>) -> bool {
    forall|i: int| 0 <= i < items.len() ==> is_accepted(#[trigger] items[i])
}

proof fn lemma_message_accepted(blocks: Seq<JsonV>, d: Draft, message: JsonV)
    requires
        has_text(message),
        d.seen + blocks_of(message).len() <= blocks.len(),
        forall|k: int| 0 <= k < blocks.len() ==> is_named_result(#[trigger] blocks[k]),
        all_accepted(d.input),
    ensures
        all_accepted(after_message(blocks, d, message).input),
{
    let role = role_of(message);
    lemma_items_accepted();
    assert(all_accepted(flushed(d, role).input));
    if is_tool_message(message) {
        assert(is_named_result(blocks[d.seen as int]));
        other_results_are_listed(blocks, d, role);
        let next = after_block(blocks, d, role);
        assert(all_accepted(next.input));
        assert(after_blocks(blocks, d, role, 0) == d);
        assert(after_blocks(blocks, d, role, 1) == next);
        assert(all_accepted(flushed(next, role).input));
    }
    assert(all_accepted(after_content(blocks, d, message).input));
}

proof fn lemma_messages_accepted(messages: Seq<JsonV>, k: int)
    requires
        0 <= k <= messages.len(),
        forall|i: int| 0 <= i < messages.len() ==> has_text(#[trigger] messages[i]),
    ensures
        all_accepted(
            after_messages(
                all_blocks(messages),
                first_draft(all_blocks(messages)),
                messages.take(k),
            ).input,
        ),
    decreases k,
{
    let blocks = all_blocks(messages);
    if k == 0 {
        assert(messages.take(0) =~= Seq::empty());
    } else {
        lemma_messages_accepted(messages, k - 1);
        lemma_blocks_done(messages, k - 1);
        lemma_blocks_so_far(messages, k);
        lemma_text_blocks(messages);
        assert(messages.take(k).drop_last() =~= messages.take(k - 1));
        assert(has_text(messages[k - 1]));
        let before = after_messages(blocks, first_draft(blocks), messages.take(k - 1));
        lemma_message_accepted(blocks, before, messages[k - 1]);
    }
}

proof fn lemma_others(messages: Seq<JsonV>)
    requires
        forall|i: int| 0 <= i < messages.len() ==> has_text(#[trigger] messages[i]),
    ensures
        forall|i: int|
            0 <= i < other_messages(messages).len() ==> has_text(
                #[trigger] other_messages(messages)[i],
            ),
    decreases messages.len(),
{
    if messages.len() > 0 {
        let shorter = messages.drop_last();
        assert forall|i: int| 0 <= i < shorter.len() implies has_text(#[trigger] shorter[i]) by {
            assert(messages[i] == shorter[i]);
        }
        lemma_others(shorter);
        assert(has_text(messages[messages.len() - 1]));
        assert(other_messages(messages) == match not_system(messages.last()) {
            Some(message) => other_messages(shorter).push(message),
            None => other_messages(shorter),
        });
    }
}

proof fn lemma_tools_accepted(tools: Seq<JsonV>)
    ensures
        ({
            let kept = gather(tools, |tool: JsonV| responses_tool(tool));
            kept.len() > 0 ==> chat_tool(kept.last()) is Some
        }),
    decreases tools.len(),
{
    reveal_strlit("type");
    reveal_strlit("name");
    reveal_strlit("description");
    reveal_strlit("parameters");
    assert("type"@.len() == 4);
    assert("type"@[0] != "name"@[0]);
    assert("description"@.len() == 11);
    assert("parameters"@.len() == 10);
    if tools.len() > 0 {
        lemma_tools_accepted(tools.drop_last());
        if let Some(tool) = responses_tool(tools.last()) {
            assert(tool.str_at("type"@) == Some("function"@));
        }
    }
}

/// The system's text in a chat: what its system messages say, with an empty line between each two.
pub open spec fn system_text(body: JsonV) -> Seq<char> {
    match body.array_at("messages"@) {
        Some(messages) => join(system_texts(messages), "\n\n"@),
        None => Seq::empty(),
    }
}

proof fn lemma_there(body: JsonV)
    ensures
        ({
            let there = responses_request(body);
            &&& there.get("max_tokens"@) is None
            &&& there.str_or("instructions"@, ""@) == system_text(body)
            &&& !only_unsupported(there)
            &&& input_list(there) == match body.array_at("messages"@) {
                Some(messages) => input_items(other_messages(messages)),
                None => Seq::empty(),
            }
        }),
{
    let there = responses_request(body);
    settings_reach_responses(body);
    reveal_strlit("");
    assert(""@ =~= Seq::empty());
    assert(there.get("max_tokens"@) is None) by {
        lemma_no_limit(body);
    }
    if let Some(messages) = body.array_at("messages"@) {
        let others = other_messages(messages);
        if others.len() == 0 {
            assert(others =~= Seq::empty());
            assert(all_blocks(others) == Seq::<JsonV>::empty());
            assert(input_items(others) == Seq::<JsonV>::empty());
        }
    }
    if let Some(JsonV::Arr(tools)) = either(body.get("functions"@), body.get("tools"@)) {
        let kept = gather(tools, |tool: JsonV| responses_tool(tool));
        lemma_tools_accepted(tools);
        if kept.len() > 0 {
            assert(tool_list(there) == kept);
            assert(chat_tools(kept) == gather(kept.drop_last(), |tool: JsonV| chat_tool(tool)).push(
                chat_tool(kept.last())->Some_0,
            ));
        }
    }
}

proof fn lemma_no_limit(body: JsonV)
    ensures
        responses_request(body).get("max_tokens"@) is None,
{
    reveal_strlit("max_tokens");
    reveal_strlit("model");
    reveal_strlit("instructions");
    reveal_strlit("input");
    reveal_strlit("max_output_tokens");
    reveal_strlit("temperature");
    reveal_strlit("top_p");
    reveal_strlit("stream");
    reveal_strlit("reasoning");
    reveal_strlit("tools");
    reveal_strlit("tool_choice");
    reveal_strlit("parallel_tool_calls");
    reveal_strlit("seed");
    reveal_strlit("text");
    assert("max_tokens"@.len() == 10);
    assert("model"@.len() == 5);
    assert("instructions"@.len() == 12);
    assert("input"@.len() == 5);
    assert("max_output_tokens"@.len() == 17);
    assert("temperature"@.len() == 11);
    assert("top_p"@.len() == 5);
    assert("stream"@.len() == 6);
    assert("reasoning"@.len() == 9);
    assert("tools"@.len() == 5);
    assert("tool_choice"@.len() == 11);
    assert("parallel_tool_calls"@.len() == 19);
    assert("seed"@.len() == 4);
    assert("text"@.len() == 4);
}

/// A chat of plain texts goes into a Responses request and comes back: the request is never
/// refused, its settings are kept, and the system's texts stand first.
pub proof fn requests_come_back(body: JsonV, fresh: Seq<Seq<char>>)
    requires
        is_plain_chat(body),
    ensures
        ({
            let back = chat_request(responses_request(body), fresh);
            &&& back is Ok
            &&& back->Ok_0.str_at("model"@) == body.str_at("model"@)
            &&& back->Ok_0.get("stream"@) == body.get("stream"@)
            &&& back->Ok_0.get("temperature"@) == body.get("temperature"@)
            &&& back->Ok_0.get("top_p"@) == body.get("top_p"@)
            &&& back->Ok_0.get("max_tokens"@) == body.get("max_tokens"@)
            &&& system_text(body).len() > 0 ==> {
                let messages = back->Ok_0.array_at("messages"@);
                &&& messages is Some
                &&& messages->Some_0.len() > 0
                &&& messages->Some_0[0] == text_message("system"@, system_text(body))
            }
        }),
{
    let there = responses_request(body);
    settings_reach_responses(body);
    lemma_there(body);
    if let Some(messages) = body.array_at("messages"@) {
        let others = other_messages(messages);
        lemma_others(messages);
        lemma_messages_accepted(others, others.len() as int);
        assert(others.take(others.len() as int) =~= others);
    }
    lemma_accepted_items(input_list(there), input_list(there).len(), fresh);
    settings_reach_chat(there, fresh);
}

/// A chat in which the system may say a text and everyone else says one comes back whole: behind the
/// system's texts stand the other messages, the same and in the same order.
pub proof fn text_requests_come_back(
    body: JsonV,
    messages: Seq<JsonV>,
    fresh: Seq<Seq<char>>,
)
    requires
        is_plain_chat(body),
        body.array_at("messages"@) == Some(messages),
        forall|i: int|
            0 <= i < other_messages(messages).len() ==> says_text(
                #[trigger] other_messages(messages)[i],
            ),
    ensures
        ({
            let back = chat_request(responses_request(body), fresh);
            let system = if system_text(body).len() > 0 {
                seq![text_message("system"@, system_text(body))]
            } else {
                Seq::empty()
            };
            &&& back is Ok
            &&& back->Ok_0.get("messages"@) == unless_empty(system + other_messages(messages))
        }),
{
    let there = responses_request(body);
    requests_come_back(body, fresh);
    lemma_there(body);
    chats_come_back(other_messages(messages), fresh);
    settings_reach_chat(there, fresh);
}

} // verus!
