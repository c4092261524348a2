//! What the messages of a chat tell of the input items that they are made from.

use vstd::prelude::*;
use crate::argument_laws::{are_normal, arguments_are_normalised};
use crate::chat_messages::{
    after_call, after_item, after_items, after_output, answered, call_arguments, call_message,
    chat_messages, chat_role, is_call, item_kind, lemma_places_fit, message_text, named_call,
    normal_call_arguments, no_turns, opt_output_text, places_fit, text_message, tool_message, Turns,
    Unanswered,
};
use crate::content::{
    arguments_text, content_lines, content_part, item_lines, output_part, output_text,
};
use crate::item_laws::text_at;
use crate::json::{gather, JsonV};
use crate::keys::lemma_keys_differ;
use crate::setting_laws::{joining_puts_together, put_together};
use crate::text_laws::{blank_is_white, is_white};
use crate::tool_laws::has_only;
use crate::value::compact_text;

verus! {

broadcast use crate::json::group_members;

/// The kind that an item tells; one that tells a role and no kind is a message.
pub open spec fn kind_told(item: JsonV) -> Seq<char> {
    if item.get("type"@) is None && item.get("role"@) is Some {
        "message"@
    } else {
        text_at(item, "type"@)
    }
}

/// The call that an item names; white space names none.
pub open spec fn names(item: JsonV) -> Option<Seq<char>> {
    match item.str_at("call_id"@) {
        Some(id) => if is_white(id) {
            None
        } else {
            Some(id)
        },
        None => None,
    }
}

/// The line that a part of a message tells: its text unless that is empty, or the name of a picture
/// or a file.
pub open spec fn line_told(part: JsonV) -> Option<Seq<char>> {
    let kind = text_at(part, "type"@);
    if kind == "input_text"@ || kind == "output_text"@ || kind == "summary_text"@ {
        match part.str_at("text"@) {
            Some(text) => if text.len() > 0 {
                Some(text)
            } else {
                None
            },
            None => None,
        }
    } else if kind == "input_image"@ {
        match part.str_at("image_url"@) {
            Some(url) => Some("[input_image] "@ + url),
            None => Some("[input_image]"@),
        }
    } else if kind == "input_file"@ {
        match part.str_at("file_id"@) {
            Some(id) => Some("[input_file] file_id="@ + id),
            None => match part.str_at("file_data"@) {
                Some(data) => Some("[input_file] file_data="@ + data),
                None => Some("[input_file]"@),
            },
        }
    } else {
        None
    }
}

/// The lines that a value tells; a list tells those of its parts.
pub open spec fn lines_told(value: JsonV) -> Seq<Seq<char>>
    decreases value,
{
    match value {
        JsonV::Arr(parts) => all_lines(parts),
        _ => match line_told(value) {
            Some(line) => seq![line],
            None => Seq::empty(),
        },
    }
}

/// The lines that some parts tell, in order.
pub open spec fn all_lines(parts: Seq<JsonV>) -> Seq<Seq<char>>
    decreases parts,
{
    if parts.len() == 0 {
        Seq::empty()
    } else {
        all_lines(parts.drop_last()) + lines_told(parts.last())
    }
}

/// What an item says: who says it, and the text.
pub struct Speech {
    pub role: Seq<char>,
    pub text: Seq<char>,
}

/// What an item says, where it is a message that says more than white space. What a developer says,
/// the user says.
pub open spec fn speech_of(item: JsonV) -> Option<Speech> {
    let text = match item.array_at("content"@) {
        Some(parts) => put_together(all_lines(parts), seq!['\n']),
        None => Seq::empty(),
    };
    if kind_told(item) == "message"@ && !is_white(text) {
        Some(
            Speech {
                role: match item.str_at("role"@) {
                    Some(role) => if role == "developer"@ {
                        "user"@
                    } else {
                        role
                    },
                    None => "user"@,
                },
                text,
            },
        )
    } else {
        None
    }
}

/// What some items say, in order.
pub open spec fn speeches(items: Seq<JsonV>) -> Seq<Speech>
    decreases items.len(),
{
    if items.len() == 0 {
        Seq::empty()
    } else {
        match speech_of(items.last()) {
            Some(speech) => speeches(items.drop_last()).push(speech),
            None => speeches(items.drop_last()),
        }
    }
}

/// A message that neither calls a tool nor has the output of one.
pub open spec fn is_speech(message: JsonV) -> bool {
    message.get("tool_calls"@) is None && message.get("tool_call_id"@) is None
}

/// The messages that neither call tools nor have their outputs.
pub open spec fn spoken(messages: Seq<JsonV>) -> Seq<JsonV> {
    messages.filter(|message: JsonV| is_speech(message))
}

/// A message says what an item says.
pub open spec fn says(message: JsonV, speech: Speech) -> bool {
    &&& message.str_at("role"@) == Some(speech.role)
    &&& message.str_at("content"@) == Some(speech.text)
    &&& has_only(message, set!["role"@, "content"@])
}

/// Some messages say what some items say: as many, and in the same order.
pub open spec fn all_say(messages: Seq<JsonV>, list: Seq<Speech>) -> bool {
    &&& messages.len() == list.len()
    &&& forall|i: int| 0 <= i < messages.len() ==> says(#[trigger] messages[i], list[i])
}

/// Whether an item calls a tool: a function or a custom tool, by its name.
pub open spec fn makes_call(item: JsonV) -> bool {
    (kind_told(item) == "function_call"@ || kind_told(item) == "custom_tool_call"@) && text_at(
        item,
        "name"@,
    ).len() > 0
}

/// How many of the items call a tool and name no call.
pub open spec fn unnamed_calls(items: Seq<JsonV>) -> nat
    decreases items.len(),
{
    if items.len() == 0 {
        0
    } else {
        unnamed_calls(items.drop_last()) + if makes_call(items.last()) && names(
            items.last(),
        ) is None {
            1nat
        } else {
            0nat
        }
    }
}

/// A call that an item makes, and the identifier that it has.
pub struct Calling {
    pub item: JsonV,
    pub id: Seq<char>,
}

/// The calls that some items make, in order. A call that names no identifier has the next of the
/// fresh ones.
pub open spec fn callings(items: Seq<JsonV>, fresh: Seq<Seq<char>>) -> Seq<Calling>
    decreases items.len(),
{
    if items.len() == 0 {
        Seq::empty()
    } else {
        let before = callings(items.drop_last(), fresh);
        let item = items.last();
        if makes_call(item) {
            before.push(
                Calling {
                    item,
                    id: match names(item) {
                        Some(id) => id,
                        None => fresh[unnamed_calls(items.drop_last()) as int],
                    },
                },
            )
        } else {
            before
        }
    }
}

/// A message that calls a tool.
pub open spec fn is_calling(message: JsonV) -> bool {
    message.get("tool_calls"@) is Some
}

/// The messages that call tools.
pub open spec fn called(messages: Seq<JsonV>) -> Seq<JsonV> {
    messages.filter(|message: JsonV| is_calling(message))
}

/// The compact JSON text of a value, or that of an empty object where it has none.
pub open spec fn written(value: JsonV) -> Seq<char> {
    match compact_text(value) {
        Some(text) => text,
        None => seq!['{', '}'],
    }
}

/// Arguments are the JSON text of the normalised form of given ones.
pub open spec fn are_written_for(arguments: JsonV, name: Seq<char>, given: JsonV) -> bool {
    exists|value: JsonV| #[trigger]
        are_normal(value, name, given) && arguments == JsonV::Str(written(value))
}

/// The arguments that are sent for a call: the normalised form of those that it has, written as JSON
/// for a function, and as they are for a custom tool, whose input counts before its arguments.
pub open spec fn are_sent_for(arguments: JsonV, item: JsonV) -> bool {
    let name = text_at(item, "name"@);
    if kind_told(item) == "function_call"@ {
        let given = match item.get("arguments"@) {
            Some(given) => given,
            None => JsonV::Null,
        };
        are_written_for(arguments, name, given)
    } else {
        let given = match item.get("input"@) {
            Some(input) => input,
            None => match item.get("arguments"@) {
                Some(given) => given,
                None => JsonV::Null,
            },
        };
        are_normal(arguments, name, given)
    }
}

/// A message makes a call: it is the assistant's, has no text, and lists one call, with the
/// identifier, the name and the arguments of the call.
pub open spec fn calls_for(message: JsonV, calling: Calling) -> bool {
    &&& message.str_at("role"@) == Some("assistant"@)
    &&& message.str_at("content"@) == Some(Seq::<char>::empty())
    &&& has_only(message, set!["role"@, "content"@, "tool_calls"@])
    &&& message.array_at("tool_calls"@) matches Some(calls) && calls.len() == 1 && {
        let call = calls[0];
        &&& call.str_at("id"@) == Some(calling.id)
        &&& call.str_at("type"@) == Some("function"@)
        &&& has_only(call, set!["id"@, "type"@, "function"@])
        &&& call.get("function"@) matches Some(function) && {
            &&& function.str_at("name"@) == Some(text_at(calling.item, "name"@))
            &&& function.get("arguments"@) matches Some(arguments) && are_sent_for(
                arguments,
                calling.item,
            )
            &&& has_only(function, set!["name"@, "arguments"@])
        }
    }
}

/// Some messages make some calls: as many, and in the same order.
pub open spec fn all_call(messages: Seq<JsonV>, list: Seq<Calling>) -> bool {
    &&& messages.len() == list.len()
    &&& forall|i: int| 0 <= i < messages.len() ==> calls_for(#[trigger] messages[i], list[i])
}

/// The text of the output of a tool: a text as it is, a list with one line for each part, and any
/// other value as its compact JSON text.
pub open spec fn told_output(output: Option<JsonV>) -> Seq<char> {
    match output {
        Some(JsonV::Str(text)) => text,
        Some(JsonV::Arr(parts)) => put_together(
            Seq::new(
                parts.len(),
                |i: int|
                    match parts[i].str_at("text"@) {
                        Some(text) => text,
                        None => match compact_text(parts[i]) {
                            Some(text) => text,
                            None => Seq::empty(),
                        },
                    },
            ),
            seq!['\n'],
        ),
        Some(value) => match compact_text(value) {
            Some(text) => text,
            None => Seq::empty(),
        },
        None => Seq::empty(),
    }
}

/// A message has the output of a call.
pub open spec fn answers_call(message: JsonV, id: Seq<char>, text: Seq<char>) -> bool {
    &&& message.str_at("role"@) == Some("tool"@)
    &&& message.str_at("tool_call_id"@) == Some(id)
    &&& message.str_at("content"@) == Some(text)
    &&& has_only(message, set!["role"@, "tool_call_id"@, "content"@])
}

proof fn lemma_empty_text()
    ensures
        ""@ == Seq::<char>::empty(),
        "\n"@ == seq!['\n'],
        "{}"@ == seq!['{', '}'],
{
    reveal_strlit("");
    reveal_strlit("\n");
    reveal_strlit("{}");
    assert(""@ =~= Seq::empty());
    assert("\n"@ =~= seq!['\n']);
    assert("{}"@ =~= seq!['{', '}']);
}

/// The readings of an item here and in the conversion are the same.
pub proof fn lemma_readings(item: JsonV)
    ensures
        kind_told(item) == item_kind(item),
        names(item) == named_call(item),
        makes_call(item) == is_call(item),
{
    lemma_keys_differ();
    lemma_empty_text();
    if let Some(id) = item.str_at("call_id"@) {
        blank_is_white(id);
    }
}

proof fn lemma_lines(value: JsonV)
    ensures
        item_lines(value) == lines_told(value),
    decreases value,
{
    lemma_keys_differ();
    lemma_empty_text();
    if let JsonV::Arr(parts) = value {
        lemma_all_lines(parts);
    } else {
        assert(content_part(value) == line_told(value));
    }
}

proof fn lemma_all_lines(parts: Seq<JsonV>)
    ensures
        content_lines(parts) == all_lines(parts),
    decreases parts,
{
    if parts.len() > 0 {
        lemma_all_lines(parts.drop_last());
        lemma_lines(parts.last());
    }
}

/// A message item becomes a message that says what it says.
pub proof fn lemma_speech(item: JsonV)
    requires
        kind_told(item) == "message"@,
    ensures
        speech_of(item) is Some <==> crate::text::trim(message_text(item)).len() > 0,
        speech_of(item) matches Some(speech) ==> says(
            text_message(chat_role(item), message_text(item)),
            speech,
        ),
{
    lemma_keys_differ();
    lemma_empty_text();
    blank_is_white(message_text(item));
    if let Some(parts) = item.array_at("content"@) {
        lemma_all_lines(parts);
        joining_puts_together(all_lines(parts), "\n"@);
        assert(message_text(item) == put_together(all_lines(parts), seq!['\n']));
    }
    assert(has_only(
        text_message(chat_role(item), message_text(item)),
        set!["role"@, "content"@],
    ));
}

/// The message for a call makes the call.
pub proof fn lemma_call_message(item: JsonV, id: Seq<char>)
    requires
        is_call(item),
    ensures
        calls_for(
            call_message(id, item.str_or("name"@, ""@), call_arguments(item)),
            Calling { item, id },
        ),
{
    lemma_keys_differ();
    lemma_empty_text();
    lemma_readings(item);
    let name = text_at(item, "name"@);
    let arguments = call_arguments(item);
    let message = call_message(id, item.str_or("name"@, ""@), arguments);
    let call = message.array_at("tool_calls"@)->Some_0[0];
    let function = call.get("function"@)->Some_0;
    let given = if kind_told(item) == "function_call"@ {
        match item.get("arguments"@) {
            Some(given) => given,
            None => JsonV::Null,
        }
    } else {
        match item.get("input"@) {
            Some(input) => input,
            None => match item.get("arguments"@) {
                Some(given) => given,
                None => JsonV::Null,
            },
        }
    };
    arguments_are_normalised(name, given);
    let value = normal_call_arguments(item);
    assert(are_normal(value, name, given));
    assert(are_sent_for(arguments, item));
    assert(has_only(message, set!["role"@, "content"@, "tool_calls"@]));
    assert(has_only(call, set!["id"@, "type"@, "function"@]));
    assert(has_only(function, set!["name"@, "arguments"@]));
}

proof fn lemma_output_lines(parts: Seq<JsonV>)
    ensures
        gather(parts, |part: JsonV| Some(output_part(part))) == Seq::new(
            parts.len(),
            |i: int| output_part(parts[i]),
        ),
    decreases parts.len(),
{
    let f = |part: JsonV| Some(output_part(part));
    if parts.len() > 0 {
        lemma_output_lines(parts.drop_last());
        assert(gather(parts, f) =~= Seq::new(parts.len(), |i: int| output_part(parts[i])));
    } else {
        assert(gather(parts, f) =~= Seq::new(parts.len(), |i: int| output_part(parts[i])));
    }
}

/// The text of an output here and in the conversion is the same.
pub proof fn lemma_told_output(output: Option<JsonV>)
    ensures
        opt_output_text(output) == told_output(output),
{
    lemma_empty_text();
    if let Some(JsonV::Arr(parts)) = output {
        let lines = gather(parts, |part: JsonV| Some(output_part(part)));
        lemma_output_lines(parts);
        joining_puts_together(lines, "\n"@);
        let told = Seq::new(
            parts.len(),
            |i: int|
                match parts[i].str_at("text"@) {
                    Some(text) => text,
                    None => match compact_text(parts[i]) {
                        Some(text) => text,
                        None => Seq::empty(),
                    },
                },
        );
        assert(lines =~= told);
    }
}

/// The message of a tool has the output of its call.
pub proof fn lemma_tool_message(id: Seq<char>, text: Seq<char>)
    ensures
        answers_call(tool_message(id, text), id, text),
{
    lemma_keys_differ();
    assert(has_only(tool_message(id, text), set!["role"@, "tool_call_id"@, "content"@]));
}

proof fn lemma_message_kinds()
    ensures
        forall|role: Seq<char>, text: Seq<char>|
            is_speech(#[trigger] text_message(role, text)) && !is_calling(text_message(role, text)),
        forall|id: Seq<char>, name: Seq<char>, arguments: JsonV|
            {
                let message = #[trigger] call_message(id, name, arguments);
                is_calling(message) && !is_speech(message)
            },
        forall|id: Seq<char>, text: Seq<char>|
            {
                let message = #[trigger] tool_message(id, text);
                !is_calling(message) && !is_speech(message)
            },
{
    lemma_keys_differ();
    assert forall|role: Seq<char>, text: Seq<char>|
        is_speech(#[trigger] text_message(role, text)) && !is_calling(text_message(role, text)) by {}
    assert forall|id: Seq<char>, name: Seq<char>, arguments: JsonV|
        {
            let message = #[trigger] call_message(id, name, arguments);
            is_calling(message) && !is_speech(message)
        } by {}
    assert forall|id: Seq<char>, text: Seq<char>|
        {
            let message = #[trigger] tool_message(id, text);
            !is_calling(message) && !is_speech(message)
        } by {}
}

proof fn lemma_one_more(messages: Seq<JsonV>, message: JsonV)
    ensures
        spoken(messages.push(message)) == if is_speech(message) {
            spoken(messages).push(message)
        } else {
            spoken(messages)
        },
        called(messages.push(message)) == if is_calling(message) {
            called(messages).push(message)
        } else {
            called(messages)
        },
{
    reveal(Seq::filter);
    assert(messages.push(message).drop_last() =~= messages);
}

proof fn lemma_one_between(messages: Seq<JsonV>, place: int, message: JsonV)
    requires
        0 <= place <= messages.len(),
        !is_speech(message),
        !is_calling(message),
    ensures
        spoken(messages.insert(place, message)) == spoken(messages),
        called(messages.insert(place, message)) == called(messages),
{
    let front = messages.take(place);
    let back = messages.skip(place);
    let f = |m: JsonV| is_speech(m);
    let g = |m: JsonV| is_calling(m);
    lemma_one_more(front, message);
    assert(messages.insert(place, message) =~= front.push(message) + back);
    assert(messages =~= front + back);
    Seq::filter_distributes_over_add(front.push(message), back, f);
    Seq::filter_distributes_over_add(front, back, f);
    Seq::filter_distributes_over_add(front.push(message), back, g);
    Seq::filter_distributes_over_add(front, back, g);
}

proof fn lemma_answered_same(messages: Seq<JsonV>, list: Seq<Unanswered>)
    requires
        places_fit(list, messages.len()),
    ensures
        spoken(answered(messages, list)) == spoken(messages),
        called(answered(messages, list)) == called(messages),
    decreases list.len(),
{
    if list.len() > 0 {
        lemma_message_kinds();
        let call = list.last();
        let message = tool_message(call.id, Seq::empty());
        let more = messages.insert(call.place as int, message);
        assert(list[list.len() - 1].place <= messages.len());
        lemma_one_between(messages, call.place as int, message);
        assert(places_fit(list.drop_last(), more.len()));
        lemma_answered_same(more, list.drop_last());
    }
}

/// What the conversion has told after some items.
pub open spec fn tells_so_far(t: Turns, items: Seq<JsonV>, fresh: Seq<Seq<char>>) -> bool {
    &&& all_say(spoken(t.messages), speeches(items))
    &&& all_call(called(t.messages), callings(items, fresh))
    &&& t.used == unnamed_calls(items)
}

proof fn lemma_output_told(t: Turns, item: JsonV, text: Seq<char>)
    ensures
        after_output(t, item, text) matches Some(next) ==> {
            &&& spoken(next.messages) == spoken(t.messages)
            &&& called(next.messages) == called(t.messages)
            &&& next.used == t.used
        },
{
    lemma_message_kinds();
    if let Some((id, pending)) = crate::chat_messages::resolved(item, t.pending) {
        lemma_one_more(t.messages, tool_message(id, text));
    }
}

proof fn lemma_call_told(
    items: Seq<JsonV>,
    t: Turns,
    k: int,
    fresh: Seq<Seq<char>>,
)
    requires
        0 <= k < items.len(),
        is_call(items[k]),
        tells_so_far(t, items.take(k), fresh),
    ensures
        after_call(items, t, items[k], fresh) matches Some(next) ==> tells_so_far(
            next,
            items.take(k + 1),
            fresh,
        ),
{
    let item = items[k];
    let more = items.take(k + 1);
    assert(more.drop_last() =~= items.take(k));
    assert(more.last() == item);
    lemma_keys_differ();
    lemma_message_kinds();
    lemma_readings(item);
    let id = match named_call(item) {
        Some(id) => id,
        None => fresh[t.used as int],
    };
    let message = call_message(id, item.str_or("name"@, ""@), call_arguments(item));
    lemma_call_message(item, id);
    lemma_one_more(t.messages, message);
    let list = called(t.messages).push(message);
    let all = callings(more, fresh);
    assert(speeches(more) == speeches(items.take(k)));
    assert(all == callings(items.take(k), fresh).push(Calling { item, id }));
    assert forall|i: int| 0 <= i < list.len() implies calls_for(#[trigger] list[i], all[i]) by {
        if i < list.len() - 1 {
            assert(list[i] == called(t.messages)[i]);
        }
    }
    let sent = Turns { messages: t.messages.push(message), used: unnamed_calls(more), ..t };
    assert(tells_so_far(sent, more, fresh));
    let outputs = crate::chat_messages::outputs_by_call(items);
    if outputs.contains_key(id) {
        let output = items[outputs[id] as int];
        lemma_output_told(sent, output, opt_output_text(output.get("output"@)));
    }
}

proof fn lemma_item_told(items: Seq<JsonV>, t: Turns, k: int, fresh: Seq<Seq<char>>)
    requires
        0 <= k < items.len(),
        tells_so_far(t, items.take(k), fresh),
    ensures
        after_item(items, t, k, fresh) matches Some(next) ==> tells_so_far(
            next,
            items.take(k + 1),
            fresh,
        ),
{
    let item = items[k];
    let more = items.take(k + 1);
    assert(more.drop_last() =~= items.take(k));
    assert(more.last() == item);
    lemma_keys_differ();
    lemma_empty_text();
    lemma_message_kinds();
    lemma_readings(item);
    if kind_told(item) == "message"@ {
        lemma_speech(item);
        let message = text_message(chat_role(item), message_text(item));
        lemma_one_more(t.messages, message);
        if let Some(speech) = speech_of(item) {
            let list = spoken(t.messages).push(message);
            let all = speeches(more);
            assert(all == speeches(items.take(k)).push(speech));
            assert forall|i: int| 0 <= i < list.len() implies says(#[trigger] list[i], all[i]) by {
                if i < list.len() - 1 {
                    assert(list[i] == spoken(t.messages)[i]);
                }
            }
        }
    } else if is_call(item) {
        lemma_call_told(items, t, k, fresh);
    } else {
        lemma_output_told(t, item, opt_output_text(item.get("output"@)));
        lemma_output_told(
            t,
            item,
            opt_output_text(crate::json::either(item.get("output"@), item.get("result"@))),
        );
    }
}

proof fn lemma_items_told(items: Seq<JsonV>, n: nat, fresh: Seq<Seq<char>>)
    requires
        n <= items.len(),
    ensures
        after_items(items, n, fresh) matches Some(t) ==> tells_so_far(
            t,
            items.take(n as int),
            fresh,
        ),
    decreases n,
{
    if n == 0 {
        reveal(Seq::filter);
        assert(items.take(0) =~= Seq::empty());
        assert(no_turns().messages =~= Seq::empty());
    } else {
        lemma_items_told(items, (n - 1) as nat, fresh);
        if let Some(t) = after_items(items, (n - 1) as nat, fresh) {
            lemma_item_told(items, t, n - 1, fresh);
        }
    }
}

/// Everything that the items say is in the chat: each message that says something is one message of
/// the chat, of the same role and with the same lines, in the same order, and nothing else is said.
pub proof fn everything_said_is_in_the_chat(items: Seq<JsonV>, fresh: Seq<Seq<char>>)
    ensures
        chat_messages(items, fresh) matches Some(messages) ==> all_say(
            spoken(messages),
            speeches(items),
        ),
{
    lemma_items_told(items, items.len(), fresh);
    lemma_places_fit(items, items.len(), fresh);
    assert(items.take(items.len() as int) =~= items);
    if let Some(t) = after_items(items, items.len(), fresh) {
        lemma_answered_same(t.messages, t.unanswered);
    }
}

/// Every call that the items make is in the chat: each is one message of the chat, with the same
/// identifier and name and with the normalised arguments, in the same order, and there are no other
/// calls.
pub proof fn every_call_is_in_the_chat(items: Seq<JsonV>, fresh: Seq<Seq<char>>)
    ensures
        chat_messages(items, fresh) matches Some(messages) ==> all_call(
            called(messages),
            callings(items, fresh),
        ),
{
    lemma_items_told(items, items.len(), fresh);
    lemma_places_fit(items, items.len(), fresh);
    assert(items.take(items.len() as int) =~= items);
    if let Some(t) = after_items(items, items.len(), fresh) {
        lemma_answered_same(t.messages, t.unanswered);
    }
}

/// Arguments are told as text: a text as it is, and any other value as its compact JSON text.
pub proof fn arguments_are_told_as_text(value: JsonV)
    ensures
        match value {
            JsonV::Str(text) => arguments_text(value) == text,
            _ => compact_text(value) matches Some(text) ==> arguments_text(value) == text,
        },
{
}

} // verus!
