//! In which order things stand that were converted.

use vstd::prelude::*;
use crate::chat_messages::{
    after_call, after_item, after_items, after_output, answered, call_arguments, call_message,
    chat_messages, chat_role, is_call, lemma_places_fit, message_text, named_call, no_turns,
    opt_output_text, outputs_by_call, places_fit, resolved, text_message, tool_message, Turns,
    Unanswered,
};
use crate::input_items::{
    after_block, after_blocks, after_content, after_message, after_messages, all_blocks, answers,
    block_call, block_kind, blocks_of, first_draft, flushed, input_items, is_tool_message,
    lifted_call, message_item, output_item, role_of, text_kind, text_part, tool_block, Draft,
};
use crate::input_laws::lemma_blocks_done;
use crate::item_laws::{
    is_result, lemma_blocks_of_one, lemma_item_types, lemma_items, lemma_roles, member_or_object,
    said_by_block, shows, speaker, text_at, Called, Said,
};
use crate::json::JsonV;
use crate::keys::lemma_keys_differ;
use crate::message_laws::{
    calls_for, kind_told, lemma_call_message, lemma_readings, lemma_speech, makes_call, names, says,
    speech_of, unnamed_calls, Calling, Speech,
};
use crate::responses_event::EventV;
use crate::responses_stream::{
    after_content as after_spoken, after_delta, after_details, after_reasoning, ending_events,
    some_text, Turned,
};

verus! {

broadcast use crate::json::group_members;

/// What is done in a chat: something is said, or a tool is called.
pub enum Deed {
    Says(Said),
    Calls(Called),
}

/// What some blocks of a message do, in order.
pub open spec fn deeds_of_blocks(role: Seq<char>, blocks: Seq<JsonV>) -> Seq<Deed>
    decreases blocks.len(),
{
    if blocks.len() == 0 {
        Seq::empty()
    } else {
        let before = deeds_of_blocks(role, blocks.drop_last());
        let block = blocks.last();
        if block.str_at("type"@) == Some("tool_use"@) {
            before.push(
                Deed::Calls(
                    Called {
                        id: text_at(block, "id"@),
                        name: text_at(block, "name"@),
                        arguments: member_or_object(block, "input"@),
                    },
                ),
            )
        } else {
            match said_by_block(role, block) {
                Some(said) => before.push(Deed::Says(said)),
                None => before,
            }
        }
    }
}

/// What a message does: what it says and calls, block by block, and then the function that it calls.
pub open spec fn deeds_of(message: JsonV) -> Seq<Deed> {
    let done = if is_result(message) {
        Seq::empty()
    } else {
        match message.get("content"@) {
            Some(JsonV::Str(text)) => seq![
                Deed::Says(Said::Text { role: speaker(message), text }),
            ],
            Some(JsonV::Arr(blocks)) => deeds_of_blocks(speaker(message), blocks),
            _ => Seq::empty(),
        }
    };
    match message.get("function_call"@) {
        Some(JsonV::Obj(m)) => done.push(
            Deed::Calls(
                Called {
                    id: Seq::empty(),
                    name: text_at(JsonV::Obj(m), "name"@),
                    arguments: member_or_object(JsonV::Obj(m), "arguments"@),
                },
            ),
        ),
        _ => done,
    }
}

/// What some messages do, in order.
pub open spec fn all_deeds(messages: Seq<JsonV>) -> Seq<Deed>
    decreases messages.len(),
{
    if messages.len() == 0 {
        Seq::empty()
    } else {
        all_deeds(messages.drop_last()) + deeds_of(messages.last())
    }
}

/// A part says what was said.
pub open spec fn part_tells(part: JsonV, role: Seq<char>, deed: Deed) -> bool {
    deed is Says && shows(part, role, deed->Says_0)
}

/// Some parts say what was said: as many, and in the same order.
pub open spec fn parts_tell(parts: Seq<JsonV>, role: Seq<char>, deeds: Seq<Deed>) -> bool {
    &&& parts.len() == deeds.len()
    &&& forall|i: int| 0 <= i < parts.len() ==> part_tells(#[trigger] parts[i], role, deeds[i])
}

/// Some items tell what was done, in the same order: the items of messages what was said, and those of
/// calls what was called. The other items are outputs.
pub open spec fn items_tell(items: Seq<JsonV>, deeds: Seq<Deed>) -> bool
    decreases items.len(),
{
    if items.len() == 0 {
        deeds.len() == 0
    } else {
        let item = items.last();
        match item.array_at("content"@) {
            Some(parts) => {
                &&& item.str_at("role"@) is Some
                &&& parts.len() <= deeds.len()
                &&& parts_tell(
                    parts,
                    item.str_at("role"@)->Some_0,
                    deeds.skip(deeds.len() - parts.len()),
                )
                &&& items_tell(items.drop_last(), deeds.take(deeds.len() - parts.len()))
            },
            None => if item.str_at("type"@) == Some("function_call"@) {
                &&& deeds.len() > 0
                &&& deeds.last() == Deed::Calls(
                    Called {
                        id: text_at(item, "call_id"@),
                        name: text_at(item, "name"@),
                        arguments: member_or_object(item, "arguments"@),
                    },
                )
                &&& items_tell(items.drop_last(), deeds.drop_last())
            } else {
                &&& item.str_at("type"@) == Some("function_call_output"@)
                &&& items_tell(items.drop_last(), deeds)
            },
        }
    }
}

proof fn lemma_told_message(items: Seq<JsonV>, done: Seq<Deed>, item: JsonV, more: Seq<Deed>)
    requires
        items_tell(items, done),
        item.str_at("role"@) is Some,
        item.array_at("content"@) matches Some(parts) && parts_tell(
            parts,
            item.str_at("role"@)->Some_0,
            more,
        ),
    ensures
        items_tell(items.push(item), done + more),
{
    let all = items.push(item);
    let both = done + more;
    assert(all.drop_last() =~= items);
    assert(both.skip(both.len() - more.len()) =~= more);
    assert(both.take(both.len() - more.len()) =~= done);
}

proof fn lemma_told_call(items: Seq<JsonV>, done: Seq<Deed>, item: JsonV, call: Called)
    requires
        items_tell(items, done),
        item.get("content"@) is None,
        item.str_at("type"@) == Some("function_call"@),
        text_at(item, "call_id"@) == call.id,
        text_at(item, "name"@) == call.name,
        member_or_object(item, "arguments"@) == call.arguments,
    ensures
        items_tell(items.push(item), done.push(Deed::Calls(call))),
{
    assert(items.push(item).drop_last() =~= items);
    assert(done.push(Deed::Calls(call)).drop_last() =~= done);
}

proof fn lemma_told_output(items: Seq<JsonV>, done: Seq<Deed>, item: JsonV)
    requires
        items_tell(items, done),
        item.get("content"@) is None,
        item.str_at("type"@) == Some("function_call_output"@),
    ensures
        items_tell(items.push(item), done),
{
    lemma_keys_differ();
    assert(items.push(item).drop_last() =~= items);
}

spec fn draft_tells(d: Draft, done: Seq<Deed>, role: Seq<char>, since: Seq<Deed>) -> bool {
    items_tell(d.input, done) && parts_tell(d.content, role, since)
}

proof fn lemma_flushed_tells(d: Draft, done: Seq<Deed>, role: Seq<char>, since: Seq<Deed>)
    requires
        draft_tells(d, done, role, since),
    ensures
        draft_tells(flushed(d, role), done + since, role, Seq::empty()),
{
    lemma_items();
    if d.content.len() > 0 {
        lemma_told_message(d.input, done, message_item(role, d.content), since);
    } else {
        assert(since =~= Seq::empty());
        assert(done + since =~= done);
    }
}

proof fn lemma_part_tells(parts: Seq<JsonV>, role: Seq<char>, done: Seq<Deed>, part: JsonV, said: Said)
    requires
        parts_tell(parts, role, done),
        shows(part, role, said),
    ensures
        parts_tell(parts.push(part), role, done.push(Deed::Says(said))),
{
    let all = parts.push(part);
    let deeds = done.push(Deed::Says(said));
    assert forall|i: int| 0 <= i < all.len() implies part_tells(
        #[trigger] all[i],
        role,
        deeds[i],
    ) by {
        if i < parts.len() {
            assert(part_tells(parts[i], role, done[i]));
        }
    }
}

proof fn lemma_block_tells(
    blocks: Seq<JsonV>,
    d: Draft,
    role: Seq<char>,
    done: Seq<Deed>,
    since: Seq<Deed>,
) -> (next: (Seq<Deed>, Seq<Deed>))
    requires
        d.seen < blocks.len(),
        draft_tells(d, done, role, since),
    ensures
        draft_tells(after_block(blocks, d, role), next.0, role, next.1),
        ({
            let block = blocks[d.seen as int];
            next.0 + next.1 == if block.str_at("type"@) == Some("tool_use"@) {
                (done + since).push(
                    Deed::Calls(
                        Called {
                            id: text_at(block, "id"@),
                            name: text_at(block, "name"@),
                            arguments: member_or_object(block, "input"@),
                        },
                    ),
                )
            } else {
                match said_by_block(role, block) {
                    Some(said) => (done + since).push(Deed::Says(said)),
                    None => done + since,
                }
            }
        }),
{
    lemma_keys_differ();
    lemma_items();
    lemma_item_types();
    reveal_strlit("");
    assert(""@ =~= Seq::empty());
    let block = blocks[d.seen as int];
    let after = after_block(blocks, d, role);
    let none = Seq::<Deed>::empty();
    let f = flushed(d, role);
    lemma_flushed_tells(d, done, role, since);
    if block_kind(block) == "tool_use"@ {
        let call = block_call(block);
        let id = block.str_or("id"@, ""@);
        let called = Called {
            id: text_at(block, "id"@),
            name: text_at(block, "name"@),
            arguments: member_or_object(block, "input"@),
        };
        let all = (done + since).push(Deed::Calls(called));
        lemma_told_call(f.input, done + since, call, called);
        if f.waiting.contains_key(id) {
            lemma_told_output(
                f.input.push(call),
                all,
                output_item(id, blocks[f.waiting[id] as int]),
            );
        }
        assert(all + none =~= all);
        (all, none)
    } else if block_kind(block) == "tool_result"@ {
        lemma_told_output(f.input, done + since, output_item(answers(block), block));
        assert((done + since) + none =~= done + since);
        (done + since, none)
    } else {
        match said_by_block(role, block) {
            Some(said) => {
                assert(after.content =~= d.content.push(after.content.last()));
                assert(shows(after.content.last(), role, said));
                lemma_part_tells(d.content, role, since, after.content.last(), said);
                assert(done + since.push(Deed::Says(said)) =~= (done + since).push(
                    Deed::Says(said),
                ));
                (done, since.push(Deed::Says(said)))
            },
            None => (done, since),
        }
    }
}

proof fn lemma_blocks_tell(
    blocks: Seq<JsonV>,
    d: Draft,
    role: Seq<char>,
    own: Seq<JsonV>,
    done: Seq<Deed>,
) -> (next: (Seq<Deed>, Seq<Deed>))
    requires
        d.seen + own.len() <= blocks.len(),
        forall|i: int| 0 <= i < own.len() ==> #[trigger] own[i] == blocks[d.seen + i],
        draft_tells(d, done, role, Seq::empty()),
    ensures
        after_blocks(blocks, d, role, own.len()).seen == d.seen + own.len(),
        draft_tells(after_blocks(blocks, d, role, own.len()), next.0, role, next.1),
        next.0 + next.1 == done + deeds_of_blocks(role, own),
    decreases own.len(),
{
    let none = Seq::<Deed>::empty();
    if own.len() == 0 {
        assert(done + none =~= done + deeds_of_blocks(role, own));
        (done, none)
    } else {
        let fewer = own.drop_last();
        assert forall|i: int| 0 <= i < fewer.len() implies #[trigger] fewer[i] == blocks[d.seen
            + i] by {
            assert(own[i] == blocks[d.seen + i]);
        }
        let (a, b) = lemma_blocks_tell(blocks, d, role, fewer, done);
        let before = after_blocks(blocks, d, role, fewer.len());
        assert(own[own.len() - 1] == blocks[before.seen as int]);
        let next = lemma_block_tells(blocks, before, role, a, b);
        assert(next.0 + next.1 =~= done + deeds_of_blocks(role, own));
        next
    }
}

proof fn lemma_tool_does_nothing(role: Seq<char>, message: JsonV)
    ensures
        deeds_of_blocks(role, seq![tool_block(message)]) == Seq::<Deed>::empty(),
{
    lemma_keys_differ();
    let own = seq![tool_block(message)];
    assert(own.drop_last() =~= Seq::empty());
    assert(deeds_of_blocks(role, own.drop_last()) == Seq::<Deed>::empty());
    assert(own.last() == tool_block(message));
    assert(own.last().str_at("type"@) == Some("tool_result"@));
}

proof fn lemma_message_tells(blocks: Seq<JsonV>, d: Draft, message: JsonV, done: Seq<Deed>)
    requires
        d.content.len() == 0,
        d.seen + blocks_of(message).len() <= blocks.len(),
        forall|i: int|
            0 <= i < blocks_of(message).len() ==> #[trigger] blocks_of(message)[i] == blocks[d.seen
                + i],
        items_tell(d.input, done),
    ensures
        after_message(blocks, d, message).content.len() == 0,
        items_tell(after_message(blocks, d, message).input, done + deeds_of(message)),
{
    lemma_keys_differ();
    lemma_items();
    lemma_item_types();
    lemma_roles(message);
    reveal_strlit("");
    assert(""@ =~= Seq::empty());
    let role = role_of(message);
    let own = blocks_of(message);
    let none = Seq::<Deed>::empty();
    let content = after_content(blocks, d, message);
    let told = if is_result(message) {
        none
    } else {
        match message.get("content"@) {
            Some(JsonV::Str(text)) => seq![Deed::Says(Said::Text { role, text })],
            Some(JsonV::Arr(list)) => deeds_of_blocks(role, list),
            _ => none,
        }
    };
    let next = lemma_blocks_tell(blocks, d, role, own, done);
    lemma_flushed_tells(after_blocks(blocks, d, role, own.len()), next.0, role, next.1);
    if is_tool_message(message) {
        lemma_tool_does_nothing(role, message);
        assert(done + deeds_of_blocks(role, own) =~= done + told);
    } else {
        match message.get("content"@) {
            Some(JsonV::Str(text)) => {
                let part = text_part(text_kind(role), text);
                let said = Said::Text { role, text };
                assert(shows(part, role, said));
                assert(part_tells(part, role, told[0]));
                assert(parts_tell(seq![part], role, told));
                lemma_told_message(d.input, done, message_item(role, seq![part]), told);
            },
            Some(JsonV::Arr(list)) => {},
            _ => {
                assert(done + deeds_of_blocks(role, own) =~= done + told);
            },
        }
    }
    assert(content.content.len() == 0);
    assert(items_tell(content.input, done + told));
    if let Some(JsonV::Obj(m)) = message.get("function_call"@) {
        let called = Called {
            id: Seq::empty(),
            name: text_at(JsonV::Obj(m), "name"@),
            arguments: member_or_object(JsonV::Obj(m), "arguments"@),
        };
        lemma_told_call(content.input, done + told, lifted_call(JsonV::Obj(m)), called);
        assert((done + told).push(Deed::Calls(called)) =~= done + deeds_of(message));
    }
}

proof fn lemma_messages_tell(messages: Seq<JsonV>, k: int)
    requires
        0 <= k <= messages.len(),
    ensures
        ({
            let blocks = all_blocks(messages);
            let d = after_messages(blocks, first_draft(blocks), messages.take(k));
            d.content.len() == 0 && items_tell(d.input, all_deeds(messages.take(k)))
        }),
    decreases k,
{
    let blocks = all_blocks(messages);
    if k == 0 {
        assert(messages.take(0) =~= Seq::empty());
    } else {
        let before = after_messages(blocks, first_draft(blocks), messages.take(k - 1));
        lemma_messages_tell(messages, k - 1);
        lemma_blocks_done(messages, k - 1);
        lemma_blocks_of_one(messages, k - 1);
        assert(messages.take(k).drop_last() =~= messages.take(k - 1));
        assert(messages.take(k).last() == messages[k - 1]);
        lemma_message_tells(blocks, before, messages[k - 1], all_deeds(messages.take(k - 1)));
    }
}

/// The input tells what is said and what is called in a chat in the order in which it is done: what
/// is said before a call stands before it, and what is said behind it stands behind it.
pub proof fn input_keeps_the_order(messages: Seq<JsonV>)
    ensures
        items_tell(input_items(messages), all_deeds(messages)),
{
    lemma_messages_tell(messages, messages.len() as int);
    assert(messages.take(messages.len() as int) =~= messages);
}

/// What an item of an input does in a chat: it says something, or it calls a tool.
pub enum Doing {
    Says(Speech),
    Calls(Calling),
}

/// What some items do, in order.
pub open spec fn doings(items: Seq<JsonV>, fresh: Seq<Seq<char>>) -> Seq<Doing>
    decreases items.len(),
{
    if items.len() == 0 {
        Seq::empty()
    } else {
        let before = doings(items.drop_last(), fresh);
        let item = items.last();
        if makes_call(item) {
            before.push(
                Doing::Calls(
                    Calling {
                        item,
                        id: match names(item) {
                            Some(id) => id,
                            None => fresh[unnamed_calls(items.drop_last()) as int],
                        },
                    },
                ),
            )
        } else {
            match speech_of(item) {
                Some(speech) => before.push(Doing::Says(speech)),
                None => before,
            }
        }
    }
}

/// A message that is not the output of a tool.
pub open spec fn is_no_output(message: JsonV) -> bool {
    message.get("tool_call_id"@) is None
}

/// The messages but for the outputs of tools.
pub open spec fn without_outputs(messages: Seq<JsonV>) -> Seq<JsonV> {
    messages.filter(|message: JsonV| is_no_output(message))
}

/// A message does what an item does.
pub open spec fn does(message: JsonV, doing: Doing) -> bool {
    match doing {
        Doing::Says(speech) => says(message, speech),
        Doing::Calls(calling) => calls_for(message, calling),
    }
}

/// Some messages do what some items do: as many, and in the same order.
pub open spec fn all_do(messages: Seq<JsonV>, list: Seq<Doing>) -> bool {
    &&& messages.len() == list.len()
    &&& forall|i: int| 0 <= i < messages.len() ==> does(#[trigger] messages[i], list[i])
}

proof fn lemma_one_more(messages: Seq<JsonV>, message: JsonV)
    ensures
        without_outputs(messages.push(message)) == if is_no_output(message) {
            without_outputs(messages).push(message)
        } else {
            without_outputs(messages)
        },
{
    reveal(Seq::filter);
    assert(messages.push(message).drop_last() =~= messages);
}

proof fn lemma_answered_same(messages: Seq<JsonV>, list: Seq<Unanswered>)
    requires
        places_fit(list, messages.len()),
    ensures
        without_outputs(answered(messages, list)) == without_outputs(messages),
    decreases list.len(),
{
    lemma_keys_differ();
    if list.len() > 0 {
        let call = list.last();
        let place = call.place as int;
        let message = tool_message(call.id, Seq::empty());
        let more = messages.insert(place, message);
        let front = messages.take(place);
        let back = messages.skip(place);
        let f = |m: JsonV| is_no_output(m);
        assert(list[list.len() - 1].place <= messages.len());
        assert(message.get("tool_call_id"@) is Some);
        lemma_one_more(front, message);
        assert(more =~= front.push(message) + back);
        assert(messages =~= front + back);
        Seq::filter_distributes_over_add(front.push(message), back, f);
        Seq::filter_distributes_over_add(front, back, f);
        assert(places_fit(list.drop_last(), more.len()));
        lemma_answered_same(more, list.drop_last());
    }
}

spec fn did_so_far(t: Turns, items: Seq<JsonV>, fresh: Seq<Seq<char>>) -> bool {
    all_do(without_outputs(t.messages), doings(items, fresh)) && t.used == unnamed_calls(items)
}

proof fn lemma_output_does_nothing(t: Turns, item: JsonV, text: Seq<char>)
    ensures
        after_output(t, item, text) matches Some(next) ==> without_outputs(next.messages)
            == without_outputs(t.messages) && next.used == t.used,
{
    lemma_keys_differ();
    if let Some((id, pending)) = resolved(item, t.pending) {
        assert(tool_message(id, text).get("tool_call_id"@) is Some);
        lemma_one_more(t.messages, tool_message(id, text));
    }
}

proof fn lemma_one_more_doing(messages: Seq<JsonV>, list: Seq<Doing>, message: JsonV, doing: Doing)
    requires
        all_do(messages, list),
        does(message, doing),
    ensures
        all_do(messages.push(message), list.push(doing)),
{
    let all = messages.push(message);
    assert forall|i: int| 0 <= i < all.len() implies does(
        #[trigger] all[i],
        list.push(doing)[i],
    ) by {
        if i < messages.len() {
            assert(does(messages[i], list[i]));
        }
    }
}

proof fn lemma_call_does(items: Seq<JsonV>, t: Turns, k: int, fresh: Seq<Seq<char>>)
    requires
        0 <= k < items.len(),
        is_call(items[k]),
        did_so_far(t, items.take(k), fresh),
    ensures
        after_call(items, t, items[k], fresh) matches Some(next) ==> did_so_far(
            next,
            items.take(k + 1),
            fresh,
        ),
{
    let item = items[k];
    let more = items.take(k + 1);
    assert(more.drop_last() =~= items.take(k));
    assert(more.last() == item);
    lemma_keys_differ();
    lemma_readings(item);
    let id = match named_call(item) {
        Some(id) => id,
        None => fresh[t.used as int],
    };
    let message = call_message(id, item.str_or("name"@, ""@), call_arguments(item));
    let doing = Doing::Calls(Calling { item, id });
    lemma_call_message(item, id);
    assert(message.get("tool_call_id"@) is None);
    lemma_one_more(t.messages, message);
    lemma_one_more_doing(
        without_outputs(t.messages),
        doings(items.take(k), fresh),
        message,
        doing,
    );
    assert(doings(more, fresh) == doings(items.take(k), fresh).push(doing));
    let sent = Turns { messages: t.messages.push(message), used: unnamed_calls(more), ..t };
    assert(did_so_far(sent, more, fresh));
    let outputs = outputs_by_call(items);
    if outputs.contains_key(id) {
        let output = items[outputs[id] as int];
        lemma_output_does_nothing(sent, output, opt_output_text(output.get("output"@)));
    }
}

proof fn lemma_item_does(items: Seq<JsonV>, t: Turns, k: int, fresh: Seq<Seq<char>>)
    requires
        0 <= k < items.len(),
        did_so_far(t, items.take(k), fresh),
    ensures
        after_item(items, t, k, fresh) matches Some(next) ==> did_so_far(
            next,
            items.take(k + 1),
            fresh,
        ),
{
    let item = items[k];
    let more = items.take(k + 1);
    assert(more.drop_last() =~= items.take(k));
    assert(more.last() == item);
    lemma_keys_differ();
    lemma_readings(item);
    if kind_told(item) == "message"@ {
        lemma_speech(item);
        let message = text_message(chat_role(item), message_text(item));
        assert(message.get("tool_call_id"@) is None);
        lemma_one_more(t.messages, message);
        if let Some(speech) = speech_of(item) {
            lemma_one_more_doing(
                without_outputs(t.messages),
                doings(items.take(k), fresh),
                message,
                Doing::Says(speech),
            );
        }
    } else if is_call(item) {
        lemma_call_does(items, t, k, fresh);
    } else {
        lemma_output_does_nothing(t, item, opt_output_text(item.get("output"@)));
        lemma_output_does_nothing(
            t,
            item,
            opt_output_text(crate::json::either(item.get("output"@), item.get("result"@))),
        );
    }
}

proof fn lemma_items_do(items: Seq<JsonV>, n: nat, fresh: Seq<Seq<char>>)
    requires
        n <= items.len(),
    ensures
        after_items(items, n, fresh) matches Some(t) ==> did_so_far(
            t,
            items.take(n as int),
            fresh,
        ),
    decreases n,
{
    if n == 0 {
        reveal(Seq::filter);
        assert(items.take(0) =~= Seq::empty());
        assert(no_turns().messages =~= Seq::empty());
    } else {
        lemma_items_do(items, (n - 1) as nat, fresh);
        if let Some(t) = after_items(items, (n - 1) as nat, fresh) {
            lemma_item_does(items, t, n - 1, fresh);
        }
    }
}

/// The chat says and calls what the items say and call in the same order; nothing but outputs stands
/// between.
pub proof fn chat_keeps_the_order(items: Seq<JsonV>, fresh: Seq<Seq<char>>)
    ensures
        chat_messages(items, fresh) matches Some(messages) ==> all_do(
            without_outputs(messages),
            doings(items, fresh),
        ),
{
    lemma_items_do(items, items.len(), fresh);
    lemma_places_fit(items, items.len(), fresh);
    assert(items.take(items.len() as int) =~= items);
    if let Some(t) = after_items(items, items.len(), fresh) {
        lemma_answered_same(t.messages, t.unanswered);
    }
}

/// Whether an event belongs to the text.
pub open spec fn is_of_text(event: EventV) -> bool {
    event is TextAdded || event is TextDelta
}

/// Whether an event belongs to the reasoning.
pub open spec fn is_of_reasoning(event: EventV) -> bool {
    event is ReasoningAdded || event is ReasoningDelta
}

spec fn adds_reasoning(t: Turned, next: Turned) -> bool {
    &&& t.out.len() <= next.out.len()
    &&& forall|i: int| 0 <= i < t.out.len() ==> #[trigger] next.out[i] == t.out[i]
    &&& forall|i: int|
        t.out.len() <= i < next.out.len() ==> is_of_reasoning(#[trigger] next.out[i])
}

proof fn lemma_details_add(t: Turned, details: Seq<JsonV>)
    ensures
        adds_reasoning(t, after_details(t, details)),
    decreases details.len(),
{
    if details.len() > 0 {
        let before = after_details(t, details.drop_last());
        lemma_details_add(t, details.drop_last());
        if let Some(delta) = some_text(details.last().str_at("text"@)) {
            let next = after_reasoning(before, delta);
            assert(adds_reasoning(before, next));
            assert forall|i: int| 0 <= i < t.out.len() implies #[trigger] next.out[i]
                == t.out[i] by {
                assert(next.out[i] == before.out[i]);
            }
            assert forall|i: int| t.out.len() <= i < next.out.len() implies is_of_reasoning(
                #[trigger] next.out[i],
            ) by {
                if i < before.out.len() {
                    assert(next.out[i] == before.out[i]);
                }
            }
        }
    }
}

/// Of what a chunk brings, the text comes first and the reasoning behind it.
pub proof fn text_comes_before_reasoning(t: Turned, delta: JsonV)
    ensures
        ({
            let out = after_delta(t, delta).out;
            let n = t.out.len() as int;
            &&& n <= out.len()
            &&& out.take(n) == t.out
            &&& forall|i: int|
                n <= i < out.len() ==> is_of_text(#[trigger] out[i]) || is_of_reasoning(out[i])
            &&& forall|i: int, j: int|
                n <= i < j < out.len() && is_of_reasoning(#[trigger] out[i])
                    ==> is_of_reasoning(#[trigger] out[j])
        }),
{
    let n = t.out.len() as int;
    let spoken = match delta.str_at("content"@) {
        Some(content) => after_spoken(t, content),
        None => t,
    };
    let m = spoken.out.len() as int;
    assert(m >= n);
    assert forall|i: int| 0 <= i < m implies if i < n {
        #[trigger] spoken.out[i] == t.out[i]
    } else {
        is_of_text(spoken.out[i])
    } by {}
    let reasoned = match some_text(delta.str_at("reasoning_content"@)) {
        Some(text) => after_reasoning(spoken, text),
        None => spoken,
    };
    assert(adds_reasoning(spoken, reasoned));
    if let Some(details) = delta.array_at("reasoning_details"@) {
        lemma_details_add(reasoned, details);
    }
    let out = after_delta(t, delta).out;
    assert forall|i: int| 0 <= i < out.len() implies if i < m {
        #[trigger] out[i] == spoken.out[i]
    } else {
        is_of_reasoning(out[i])
    } by {
        if i < reasoned.out.len() {
            assert(out[i] == reasoned.out[i]);
        }
    }
    assert(out.take(n) =~= t.out);
}

/// At the end the text is completed before the reasoning.
pub proof fn text_is_completed_before_reasoning(t: Turned, i: int, j: int)
    requires
        0 <= i < ending_events(t).len(),
        0 <= j < ending_events(t).len(),
        ending_events(t)[i] is TextDone,
        ending_events(t)[j] is ReasoningDone,
    ensures
        i < j,
{
    let base = crate::responses_stream::first_call_place(t);
    let calls = crate::responses_stream::call_events(t.calls, base);
    lemma_calls_alone(t.calls, base);
    let text = match t.text {
        Some(text) => seq![EventV::TextDone { text }],
        None => Seq::empty(),
    };
    let reasoning = match t.reasoning {
        Some(place) => seq![EventV::ReasoningDone { place }],
        None => Seq::empty(),
    };
    let last = seq![EventV::Completed { id: t.id, usage: t.usage }];
    if t.ended {
        let front = text + reasoning;
        let all = ending_events(t);
        assert(all =~= front + calls + last);
        assert forall|k: int| front.len() <= k < all.len() implies !((#[trigger] all[k]) is TextDone)
            && !(all[k] is ReasoningDone) by {
            if k < front.len() + calls.len() {
                assert(all[k] == calls[k - front.len()]);
            }
        }
        assert(all[i] == front[i]);
        assert(all[j] == front[j]);
    }
}

proof fn lemma_calls_alone(calls: Seq<crate::responses_event::CallV>, base: int)
    ensures
        forall|i: int|
            #![trigger crate::responses_stream::call_events(calls, base)[i]]
            0 <= i < crate::responses_stream::call_events(calls, base).len() ==> {
                let event = crate::responses_stream::call_events(calls, base)[i];
                !(event is ReasoningDone) && !(event is TextDone)
            },
    decreases calls.len(),
{
    if calls.len() > 0 {
        lemma_calls_alone(calls.drop_last(), base);
    }
}

} // verus!
