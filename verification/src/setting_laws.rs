//! What a converted request tells besides its tools: settings, instructions and input.

use vstd::prelude::*;
use crate::chat_messages::chat_messages;
use crate::chat_request::{chat_request, input_list};
use crate::item_laws::{
    all_called, all_said, called_in, every_call_is_in_the_input, everything_said_is_in_the_input,
    items_show, speaker, text_at,
};
use crate::json::{gather, JsonV};
use crate::keys::lemma_keys_differ;
use crate::responses_request::{
    input_of, instructions_of, not_system, other_messages, reasoning_of, responses_request,
    responses_tool_choice, system_texts, text_settings, tool_choice_of,
};
use crate::text::join;
use crate::tool_laws::has_only;

verus! {

broadcast use crate::json::group_members;

/// A reasoning setting keeps the effort of the given one, which may be an object or a bare text, and
/// there is none where no effort is told.
pub open spec fn keeps_effort(told: Option<JsonV>, given: Option<JsonV>) -> bool {
    let effort = match given {
        Some(JsonV::Str(s)) => Some(JsonV::Str(s)),
        Some(JsonV::Obj(m)) => JsonV::Obj(m).get("effort"@),
        _ => None,
    };
    match effort {
        Some(_) => told matches Some(setting) && setting.get("effort"@) == effort && has_only(
            setting,
            set!["effort"@],
        ),
        None => told is None,
    }
}

/// A choice of a tool keeps the given one; a function that is chosen by name loses its wrapping.
pub open spec fn keeps_choice(told: Option<JsonV>, given: Option<JsonV>) -> bool {
    match given {
        Some(choice) => match choice.get("function"@) {
            Some(JsonV::Obj(m)) => told matches Some(kept) && kept.str_at("type"@) == Some(
                "function"@,
            ) && kept.str_at("name"@) == Some(text_at(JsonV::Obj(m), "name"@)) && has_only(
                kept,
                set!["type"@, "name"@],
            ),
            _ => told == given,
        },
        None => told is None,
    }
}

/// Text settings keep a response format, where that is an object: a JSON schema is the schema of a
/// JSON object, and any other format stays as it is.
pub open spec fn keeps_format(told: Option<JsonV>, given: Option<JsonV>) -> bool {
    match given {
        Some(JsonV::Obj(m)) => {
            let format = JsonV::Obj(m);
            &&& told matches Some(settings) && has_only(settings, set!["format"@]) && if format.str_at(
                "type"@,
            ) == Some("json_schema"@) {
                settings.get("format"@) matches Some(kept) && kept.str_at("type"@) == Some(
                    "json_object"@,
                ) && kept.get("schema"@) == (match format.get("json_schema"@) {
                    Some(schema) => Some(schema),
                    None => match format.get("schema"@) {
                        Some(schema) => Some(schema),
                        None => Some(JsonV::Obj(Map::empty())),
                    },
                }) && has_only(kept, set!["type"@, "schema"@])
            } else {
                settings.get("format"@) == Some(format)
            }
        },
        _ => told is None,
    }
}

proof fn lemma_effort(body: JsonV)
    ensures
        keeps_effort(reasoning_of(body), body.get("reasoning"@)),
{
    lemma_keys_differ();
    if let Some(setting) = reasoning_of(body) {
        assert(has_only(setting, set!["effort"@]));
    }
}

proof fn lemma_choice(body: JsonV)
    ensures
        keeps_choice(tool_choice_of(body), body.get("tool_choice"@)),
{
    lemma_keys_differ();
    reveal_strlit("");
    assert(""@ =~= Seq::empty());
    if let Some(choice) = body.get("tool_choice"@) {
        if let Some(JsonV::Obj(m)) = choice.get("function"@) {
            assert(has_only(responses_tool_choice(choice), set!["type"@, "name"@]));
        }
    }
}

proof fn lemma_format(body: JsonV)
    ensures
        keeps_format(text_settings(body), body.get("response_format"@)),
{
    lemma_keys_differ();
    if let Some(settings) = text_settings(body) {
        assert(has_only(settings, set!["format"@]));
        let kept = settings.get("format"@)->Some_0;
        if body.get("response_format"@)->Some_0.str_at("type"@) == Some("json_schema"@) {
            assert(has_only(kept, set!["type"@, "schema"@]));
        }
    }
}

/// The settings of a Chat Completions request are those of the Responses request, and it has no
/// others.
pub proof fn responses_requests_keep_the_settings(body: JsonV)
    ensures
        ({
            let request = responses_request(body);
            &&& request.str_at("model"@) == body.str_at("model"@)
            &&& request.get("max_output_tokens"@) == body.get("max_tokens"@)
            &&& request.get("temperature"@) == body.get("temperature"@)
            &&& request.get("top_p"@) == body.get("top_p"@)
            &&& request.get("stream"@) == body.get("stream"@)
            &&& request.get("seed"@) == body.get("seed"@)
            &&& request.get("parallel_tool_calls"@) == body.get("parallel_tool_calls"@)
            &&& keeps_effort(request.get("reasoning"@), body.get("reasoning"@))
            &&& keeps_choice(request.get("tool_choice"@), body.get("tool_choice"@))
            &&& keeps_format(request.get("text"@), body.get("response_format"@))
            &&& has_only(
                request,
                set![
                    "model"@,
                    "instructions"@,
                    "input"@,
                    "max_output_tokens"@,
                    "temperature"@,
                    "top_p"@,
                    "stream"@,
                    "reasoning"@,
                    "tools"@,
                    "tool_choice"@,
                    "parallel_tool_calls"@,
                    "seed"@,
                    "text"@,
                ],
            )
        }),
{
    lemma_keys_differ();
    lemma_effort(body);
    lemma_choice(body);
    lemma_format(body);
}

/// The settings of a Responses request are those of the Chat Completions request, and it has no
/// others. A limit on tokens under the name of a chat counts before that of a response.
pub proof fn chat_requests_keep_the_settings(body: JsonV, fresh: Seq<Seq<char>>)
    requires
        chat_request(body, fresh) is Ok,
    ensures
        ({
            let request = chat_request(body, fresh)->Ok_0;
            &&& request.str_at("model"@) == body.str_at("model"@)
            &&& request.get("temperature"@) == body.get("temperature"@)
            &&& request.get("top_p"@) == body.get("top_p"@)
            &&& request.get("stream"@) == body.get("stream"@)
            &&& request.get("max_tokens"@) == match body.get("max_tokens"@) {
                Some(limit) => Some(limit),
                None => body.get("max_output_tokens"@),
            }
            &&& keeps_effort(request.get("reasoning"@), body.get("reasoning"@))
            &&& has_only(
                request,
                set![
                    "model"@,
                    "stream"@,
                    "temperature"@,
                    "top_p"@,
                    "max_tokens"@,
                    "reasoning"@,
                    "messages"@,
                    "tools"@,
                ],
            )
        }),
{
    lemma_keys_differ();
    lemma_effort(body);
}

/// The instructions of a Responses request are a message of the system in front of the messages for
/// its input; there is no such message where they are empty or missing.
pub proof fn instructions_precede_the_input(body: JsonV, fresh: Seq<Seq<char>>)
    requires
        chat_request(body, fresh) is Ok,
    ensures
        ({
            let request = chat_request(body, fresh)->Ok_0;
            let items = match body.array_at("input"@) {
                Some(items) => items,
                None => Seq::empty(),
            };
            &&& chat_messages(items, fresh) matches Some(rest) && match body.str_at(
                "instructions"@,
            ) {
                Some(text) if text.len() > 0 => request.array_at("messages"@) matches Some(all)
                    && all.len() == rest.len() + 1 && all[0].str_at("role"@) == Some("system"@)
                    && all[0].str_at("content"@) == Some(text) && has_only(
                    all[0],
                    set!["role"@, "content"@],
                ) && all.skip(1) == rest,
                _ => if rest.len() == 0 {
                    request.get("messages"@) is None
                } else {
                    request.array_at("messages"@) == Some(rest)
                },
            }
        }),
{
    lemma_keys_differ();
    reveal_strlit("");
    assert(""@ =~= Seq::empty());
    let request = chat_request(body, fresh)->Ok_0;
    let items = match body.array_at("input"@) {
        Some(items) => items,
        None => Seq::empty(),
    };
    assert(input_list(body) == items);
    let rest = chat_messages(items, fresh)->Some_0;
    match body.str_at("instructions"@) {
        Some(text) if text.len() > 0 => {
            let all = request.array_at("messages"@)->Some_0;
            assert(has_only(all[0], set!["role"@, "content"@]));
            assert(all.skip(1) =~= rest);
        },
        _ => {
            assert(Seq::<JsonV>::empty() + rest =~= rest);
        },
    }
}

/// The texts of some blocks, in order.
pub open spec fn block_texts(blocks: Seq<JsonV>) -> Seq<Seq<char>>
    decreases blocks.len(),
{
    if blocks.len() == 0 {
        Seq::empty()
    } else {
        match blocks.last().str_at("text"@) {
            Some(text) => block_texts(blocks.drop_last()).push(text),
            None => block_texts(blocks.drop_last()),
        }
    }
}

/// What the system says in some messages, text by text.
pub open spec fn system_says(messages: Seq<JsonV>) -> Seq<Seq<char>>
    decreases messages.len(),
{
    if messages.len() == 0 {
        Seq::empty()
    } else {
        let message = messages.last();
        let before = system_says(messages.drop_last());
        if speaker(message) != "system"@ {
            before
        } else {
            match message.get("content"@) {
                Some(JsonV::Str(text)) => before.push(text),
                Some(JsonV::Arr(blocks)) => before + block_texts(blocks),
                _ => before,
            }
        }
    }
}

/// The messages that the system does not send.
pub open spec fn others_in(messages: Seq<JsonV>) -> Seq<JsonV>
    decreases messages.len(),
{
    if messages.len() == 0 {
        Seq::empty()
    } else if speaker(messages.last()) == "system"@ {
        others_in(messages.drop_last())
    } else {
        others_in(messages.drop_last()).push(messages.last())
    }
}

/// Some texts one behind the other, with a text between each two.
pub open spec fn put_together(parts: Seq<Seq<char>>, between: Seq<char>) -> Seq<char>
    decreases parts.len(),
{
    if parts.len() == 0 {
        Seq::empty()
    } else if parts.len() == 1 {
        parts[0]
    } else {
        put_together(parts.drop_last(), between) + (between + parts.last())
    }
}

/// Joining texts puts them together.
pub proof fn joining_puts_together(parts: Seq<Seq<char>>, between: Seq<char>)
    ensures
        join(parts, between) == put_together(parts, between),
    decreases parts.len(),
{
    if parts.len() > 1 {
        joining_puts_together(parts.drop_last(), between);
        assert(join(parts, between) =~= put_together(parts, between));
    }
}

proof fn lemma_block_texts(blocks: Seq<JsonV>)
    ensures
        gather(blocks, |block: JsonV| block.str_at("text"@)) == block_texts(blocks),
    decreases blocks.len(),
{
    if blocks.len() > 0 {
        lemma_block_texts(blocks.drop_last());
    }
}

proof fn lemma_system_says(messages: Seq<JsonV>)
    ensures
        system_texts(messages) == system_says(messages),
    decreases messages.len(),
{
    lemma_keys_differ();
    if messages.len() > 0 {
        let message = messages.last();
        lemma_system_says(messages.drop_last());
        let before = system_says(messages.drop_last());
        match message.get("content"@) {
            Some(JsonV::Str(text)) => {
                assert(before + seq![text] =~= before.push(text));
            },
            Some(JsonV::Arr(blocks)) => {
                lemma_block_texts(blocks);
            },
            _ => {
                assert(before + Seq::<Seq<char>>::empty() =~= before);
            },
        }
    }
}

proof fn lemma_others(messages: Seq<JsonV>)
    ensures
        other_messages(messages) == others_in(messages),
    decreases messages.len(),
{
    lemma_keys_differ();
    if messages.len() > 0 {
        lemma_others(messages.drop_last());
        let f = |message: JsonV| not_system(message);
        assert(other_messages(messages) == gather(messages, f));
        assert(other_messages(messages.drop_last()) == gather(messages.drop_last(), f));
    }
}

/// What the system says in a chat are the instructions of the Responses request, with an empty line
/// between each two texts; what everybody else says, and the calls that they make, are its input.
pub proof fn messages_become_instructions_and_input(body: JsonV, messages: Seq<JsonV>)
    requires
        body.array_at("messages"@) == Some(messages),
    ensures
        ({
            let request = responses_request(body);
            let others = others_in(messages);
            &&& request.str_at("instructions"@) == Some(
                put_together(system_says(messages), seq!['\n', '\n']),
            )
            &&& others.len() == 0 ==> request.get("input"@) is None
            &&& others.len() > 0 ==> {
                &&& request.array_at("input"@) matches Some(items)
                &&& items_show(items, all_said(others))
                &&& called_in(items) == all_called(others)
            }
        }),
{
    lemma_keys_differ();
    reveal_strlit("\n\n");
    assert("\n\n"@ =~= seq!['\n', '\n']);
    lemma_system_says(messages);
    lemma_others(messages);
    joining_puts_together(system_says(messages), "\n\n"@);
    everything_said_is_in_the_input(others_in(messages));
    every_call_is_in_the_input(others_in(messages));
    let request = responses_request(body);
    assert(request.get("instructions"@) == instructions_of(body));
    assert(request.get("input"@) == input_of(body));
}

/// A chat without messages has neither instructions nor input.
pub proof fn without_messages_there_is_no_input(body: JsonV)
    requires
        body.array_at("messages"@) is None,
    ensures
        responses_request(body).get("instructions"@) is None,
        responses_request(body).get("input"@) is None,
{
    lemma_keys_differ();
}

} // verus!
