//! What holds of the input items that are made from chat messages.

use vstd::prelude::*;
use crate::input_items::{
    after_block, after_blocks, after_content, after_message, after_messages, all_blocks, answers,
    block_call, block_kind, blocks_of, call_item, calls_by, first_draft, flushed, input_items,
    is_called, is_paired, lemma_blocks_so_far, lifted_call, message_item, output_item, result_ref,
    results_by_call, role_of, text_kind, text_part, tool_block, Draft,
};
use crate::json::{or_default, JsonV};
use crate::responses_request::{not_system, other_messages};
use crate::text::trim;

verus! {

broadcast use crate::json::group_members;

/// Each tool result that waits among some blocks waits under the name of the call that it answers.
pub open spec fn waits_by_name(blocks: Seq<JsonV>, waiting: Map<Seq<char>, nat>) -> bool {
    forall|id: Seq<char>| #[trigger]
        waiting.contains_key(id) ==> {
            let k = waiting[id] as int;
            &&& k < blocks.len()
            &&& block_kind(blocks[k]) == "tool_result"@
            &&& result_ref(blocks[k]) == Some(id)
        }
}

proof fn lemma_index_named(blocks: Seq<JsonV>)
    ensures
        waits_by_name(blocks, results_by_call(blocks)),
    decreases blocks.len(),
{
    reveal_strlit("");
    assert(""@.len() == 0);
    if blocks.len() > 0 {
        let shorter = blocks.drop_last();
        lemma_index_named(shorter);
        assert forall|id: Seq<char>| #[trigger]
            results_by_call(blocks).contains_key(id) implies {
            let k = results_by_call(blocks)[id] as int;
            &&& k < blocks.len()
            &&& block_kind(blocks[k]) == "tool_result"@
            &&& result_ref(blocks[k]) == Some(id)
        } by {
            let k = results_by_call(blocks)[id] as int;
            if k < shorter.len() {
                assert(results_by_call(shorter).contains_key(id));
                assert(blocks[k] == shorter[k]);
            }
        }
    }
}

proof fn lemma_blocks_named(blocks: Seq<JsonV>, d: Draft, role: Seq<char>, n: nat)
    requires
        waits_by_name(blocks, d.waiting),
    ensures
        waits_by_name(blocks, after_blocks(blocks, d, role, n).waiting),
    decreases n,
{
    if n > 0 {
        lemma_blocks_named(blocks, d, role, (n - 1) as nat);
    }
}

/// At any time of the conversion, each tool result waits under the name of its call.
pub proof fn results_wait_by_name(messages: Seq<JsonV>, k: int)
    requires
        0 <= k <= messages.len(),
    ensures
        ({
            let blocks = all_blocks(messages);
            waits_by_name(
                blocks,
                after_messages(blocks, first_draft(blocks), messages.take(k)).waiting,
            )
        }),
    decreases k,
{
    let blocks = all_blocks(messages);
    if k == 0 {
        assert(messages.take(0) =~= Seq::empty());
        lemma_index_named(blocks);
    } else {
        results_wait_by_name(messages, k - 1);
        assert(messages.take(k).drop_last() =~= messages.take(k - 1));
        let before = after_messages(blocks, first_draft(blocks), messages.take(k - 1));
        let message = messages[k - 1];
        lemma_blocks_named(blocks, before, role_of(message), blocks_of(message).len());
    }
}

proof fn lemma_block_kinds()
    ensures
        "tool_use"@ != "text"@,
        "tool_use"@ != "image"@,
        "tool_result"@ != "text"@,
        "tool_result"@ != "image"@,
        "tool_result"@ != "tool_use"@,
{
    reveal_strlit("text");
    reveal_strlit("image");
    reveal_strlit("tool_use");
    reveal_strlit("tool_result");
    assert("text"@.len() == 4);
    assert("image"@.len() == 5);
    assert("tool_use"@.len() == 8);
    assert("tool_result"@.len() == 11);
}

/// Where the result of a call waits for it, it follows the call at once, under the same identifier,
/// and waits no longer.
pub proof fn result_follows_its_call(blocks: Seq<JsonV>, d: Draft, role: Seq<char>)
    requires
        d.seen < blocks.len(),
        block_kind(blocks[d.seen as int]) == "tool_use"@,
        d.waiting.contains_key(blocks[d.seen as int].str_or("id"@, ""@)),
    ensures
        ({
            let block = blocks[d.seen as int];
            let id = block.str_or("id"@, ""@);
            let output = output_item(id, blocks[d.waiting[id] as int]);
            let before = flushed(d, role).input;
            let after = after_block(blocks, d, role);
            &&& after.input == before.push(block_call(block)).push(output)
            &&& after.waiting == d.waiting.remove(id)
            &&& block_call(block).str_at("call_id"@) == Some(id)
            &&& output.str_at("call_id"@) == Some(id)
        }),
{
    lemma_block_kinds();
    reveal_strlit("type");
    reveal_strlit("call_id");
    reveal_strlit("name");
    reveal_strlit("arguments");
    reveal_strlit("output");
    assert("type"@.len() == 4);
    assert("call_id"@.len() == 7);
    assert("name"@.len() == 4);
    assert("arguments"@.len() == 9);
    assert("output"@.len() == 6);
}

/// Where a tool result stands, it is listed unless it is the one that is put behind its call.
pub proof fn other_results_are_listed(blocks: Seq<JsonV>, d: Draft, role: Seq<char>)
    requires
        d.seen < blocks.len(),
        block_kind(blocks[d.seen as int]) == "tool_result"@,
    ensures
        ({
            let block = blocks[d.seen as int];
            let before = flushed(d, role).input;
            let after = after_block(blocks, d, role);
            after.input == if is_paired(blocks, d.seen as int) {
                before
            } else {
                before.push(output_item(answers(block), block))
            }
        }),
{
    lemma_block_kinds();
}

/// An item that is not the system's.
pub open spec fn not_from_system(item: JsonV) -> bool {
    item.str_at("role"@) != Some("system"@)
}

/// No item of a list is the system's.
pub open spec fn without_system(items: Seq<JsonV>) -> bool {
    forall|i: int| 0 <= i < items.len() ==> not_from_system(#[trigger] items[i])
}

proof fn lemma_roles()
    ensures
        forall|role: Seq<char>, content: Seq<JsonV>|
            (#[trigger] message_item(role, content)).str_at("role"@) == Some(role),
        forall|id: Seq<char>, name: Seq<char>, arguments: JsonV| not_from_system(
            #[trigger] call_item(id, name, arguments),
        ),
        forall|id: Seq<char>, block: JsonV| not_from_system(#[trigger] output_item(id, block)),
{
    reveal_strlit("role");
    reveal_strlit("content");
    reveal_strlit("type");
    reveal_strlit("call_id");
    reveal_strlit("name");
    reveal_strlit("arguments");
    reveal_strlit("output");
    assert("role"@.len() == 4);
    assert("content"@.len() == 7);
    assert("role"@[0] != "type"@[0]);
    assert("call_id"@.len() == 7);
    assert("role"@[0] != "name"@[0]);
    assert("arguments"@.len() == 9);
    assert("output"@.len() == 6);
    assert forall|role: Seq<char>, content: Seq<JsonV>|
        (#[trigger] message_item(role, content)).str_at("role"@) == Some(role) by {}
    assert forall|id: Seq<char>, name: Seq<char>, arguments: JsonV| not_from_system(
        #[trigger] call_item(id, name, arguments),
    ) by {}
    assert forall|id: Seq<char>, block: JsonV| not_from_system(
        #[trigger] output_item(id, block),
    ) by {}
}

proof fn lemma_blocks_without_system(blocks: Seq<JsonV>, d: Draft, role: Seq<char>, n: nat)
    requires
        without_system(d.input),
        role != "system"@,
    ensures
        without_system(after_blocks(blocks, d, role, n).input),
    decreases n,
{
    if n > 0 {
        let before = after_blocks(blocks, d, role, (n - 1) as nat);
        lemma_blocks_without_system(blocks, d, role, (n - 1) as nat);
        lemma_roles();
        assert(without_system(flushed(before, role).input));
    }
}

proof fn lemma_messages_without_system(blocks: Seq<JsonV>, d: Draft, messages: Seq<JsonV>)
    requires
        without_system(d.input),
        forall|i: int| 0 <= i < messages.len() ==> role_of(#[trigger] messages[i]) != "system"@,
    ensures
        without_system(after_messages(blocks, d, messages).input),
    decreases messages.len(),
{
    if messages.len() > 0 {
        let shorter = messages.drop_last();
        let message = messages.last();
        assert forall|i: int| 0 <= i < shorter.len() implies role_of(#[trigger] shorter[i])
            != "system"@ by {
            assert(messages[i] == shorter[i]);
        }
        assert(message == messages[messages.len() - 1]);
        lemma_messages_without_system(blocks, d, shorter);
        let before = after_messages(blocks, d, shorter);
        lemma_roles();
        lemma_blocks_without_system(blocks, before, role_of(message), blocks_of(message).len());
        assert(without_system(after_content(blocks, before, message).input));
    }
}

proof fn lemma_others_not_system(messages: Seq<JsonV>)
    ensures
        forall|i: int|
            0 <= i < other_messages(messages).len() ==> role_of(
                #[trigger] other_messages(messages)[i],
            ) != "system"@,
    decreases messages.len(),
{
    if messages.len() > 0 {
        let before = other_messages(messages.drop_last());
        let all = other_messages(messages);
        lemma_others_not_system(messages.drop_last());
        assert(all == match not_system(messages.last()) {
            Some(message) => before.push(message),
            None => before,
        });
        assert forall|i: int| 0 <= i < all.len() implies role_of(#[trigger] all[i])
            != "system"@ by {
            if i < before.len() {
                assert(all[i] == before[i]);
            }
        }
    }
}

/// What the system says leaves the input: it is in the instructions.
pub proof fn system_messages_leave_the_input(messages: Seq<JsonV>)
    ensures
        without_system(input_items(other_messages(messages))),
{
    let others = other_messages(messages);
    lemma_others_not_system(messages);
    let blocks = all_blocks(others);
    lemma_messages_without_system(blocks, first_draft(blocks), others);
}

/// Whether an item is the output of a call.
pub open spec fn is_output(item: JsonV) -> bool {
    item.str_at("type"@) == Some("function_call_output"@)
}

/// How many items are outputs of calls.
pub open spec fn outputs_in(items: Seq<JsonV>) -> nat
    decreases items.len(),
{
    if items.len() == 0 {
        0
    } else {
        outputs_in(items.drop_last()) + if is_output(items.last()) {
            1nat
        } else {
            0nat
        }
    }
}

/// How many of the first blocks are tool results.
pub open spec fn results_in(blocks: Seq<JsonV>, n: nat) -> nat
    decreases n,
{
    if n == 0 {
        0
    } else {
        results_in(blocks, (n - 1) as nat) + if block_kind(blocks[n - 1]) == "tool_result"@ {
            1nat
        } else {
            0nat
        }
    }
}

spec fn paired_ids(blocks: Seq<JsonV>, n: nat) -> Seq<Seq<char>>
    decreases n,
{
    if n == 0 {
        Seq::empty()
    } else {
        let before = paired_ids(blocks, (n - 1) as nat);
        if block_kind(blocks[n - 1]) == "tool_result"@ && is_paired(blocks, n - 1) {
            before.push(answers(blocks[n - 1]))
        } else {
            before
        }
    }
}

spec fn called_ids(blocks: Seq<JsonV>, n: nat) -> Seq<Seq<char>>
    decreases n,
{
    if n == 0 {
        Seq::empty()
    } else {
        let before = called_ids(blocks, (n - 1) as nat);
        let id = blocks[n - 1].str_or("id"@, ""@);
        if block_kind(blocks[n - 1]) == "tool_use"@ && results_by_call(blocks).contains_key(id)
            && !before.contains(id) {
            before.push(id)
        } else {
            before
        }
    }
}

spec fn called_within(blocks: Seq<JsonV>, n: nat, id: Seq<char>) -> bool {
    exists|k: int| 0 <= k < n && calls_by(#[trigger] blocks[k], id)
}

proof fn lemma_paired_ids(blocks: Seq<JsonV>, n: nat)
    requires
        n <= blocks.len(),
    ensures
        paired_ids(blocks, n).no_duplicates(),
        forall|id: Seq<char>| #[trigger]
            paired_ids(blocks, n).contains(id) <==> {
                &&& is_called(blocks, id)
                &&& results_by_call(blocks).contains_key(id)
                &&& results_by_call(blocks)[id] < n
            },
    decreases n,
{
    broadcast use vstd::seq_lib::group_seq_properties;

    if n > 0 {
        let before = paired_ids(blocks, (n - 1) as nat);
        lemma_paired_ids(blocks, (n - 1) as nat);
        lemma_index_named(blocks);
        let own = answers(blocks[n - 1]);
        if is_paired(blocks, n - 1) {
            assert(!before.contains(own));
            assert forall|i: int, j: int|
                0 <= i < before.push(own).len() && 0 <= j < before.push(own).len() && i
                    != j implies before.push(own)[i] != before.push(own)[j] by {
                assert(i < before.len() ==> before.contains(before[i]));
                assert(j < before.len() ==> before.contains(before[j]));
            }
        }
        assert forall|id: Seq<char>| #[trigger]
            paired_ids(blocks, n).contains(id) <==> {
                &&& is_called(blocks, id)
                &&& results_by_call(blocks).contains_key(id)
                &&& results_by_call(blocks)[id] < n
            } by {
            if results_by_call(blocks).contains_key(id) && results_by_call(blocks)[id] == n - 1 {
                assert(own == id);
            }
            assert(before.push(own).contains(id) <==> before.contains(id) || own == id);
        }
    } else {
        assert(paired_ids(blocks, n) =~= Seq::empty());
    }
}

proof fn lemma_called_ids(blocks: Seq<JsonV>, n: nat)
    requires
        n <= blocks.len(),
    ensures
        called_ids(blocks, n).no_duplicates(),
        forall|id: Seq<char>| #[trigger]
            called_ids(blocks, n).contains(id) <==> {
                &&& results_by_call(blocks).contains_key(id)
                &&& called_within(blocks, n, id)
            },
    decreases n,
{
    broadcast use vstd::seq_lib::group_seq_properties;

    if n > 0 {
        let before = called_ids(blocks, (n - 1) as nat);
        lemma_called_ids(blocks, (n - 1) as nat);
        let own = blocks[n - 1].str_or("id"@, ""@);
        assert forall|id: Seq<char>| #[trigger]
            called_ids(blocks, n).contains(id) <==> {
                &&& results_by_call(blocks).contains_key(id)
                &&& called_within(blocks, n, id)
            } by {
            assert(before.push(own).contains(id) <==> before.contains(id) || own == id);
            if called_within(blocks, (n - 1) as nat, id) {
                let k = choose|k: int| 0 <= k < n - 1 && calls_by(#[trigger] blocks[k], id);
                assert(calls_by(blocks[k], id));
            }
            if calls_by(blocks[n - 1], id) {
                assert(called_within(blocks, n, id));
            }
        }
    } else {
        assert(called_ids(blocks, n) =~= Seq::empty());
    }
}

proof fn lemma_as_many_paired_as_called(blocks: Seq<JsonV>)
    ensures
        paired_ids(blocks, blocks.len()).len() == called_ids(blocks, blocks.len()).len(),
{
    let n = blocks.len();
    lemma_paired_ids(blocks, n);
    lemma_called_ids(blocks, n);
    lemma_index_named(blocks);
    let paired = paired_ids(blocks, n);
    let called = called_ids(blocks, n);
    assert forall|id: Seq<char>| paired.to_set().contains(id) == called.to_set().contains(id) by {
        assert(paired.to_set().contains(id) == paired.contains(id));
        assert(called.to_set().contains(id) == called.contains(id));
        assert(called_within(blocks, n, id) == is_called(blocks, id));
    }
    assert(paired.to_set() =~= called.to_set());
    paired.unique_seq_to_set();
    called.unique_seq_to_set();
}

proof fn lemma_item_kinds()
    ensures
        forall|role: Seq<char>, content: Seq<JsonV>| !is_output(
            #[trigger] message_item(role, content),
        ),
        forall|id: Seq<char>, name: Seq<char>, arguments: JsonV| !is_output(
            #[trigger] call_item(id, name, arguments),
        ),
        forall|id: Seq<char>, block: JsonV| is_output(#[trigger] output_item(id, block)),
{
    reveal_strlit("role");
    reveal_strlit("content");
    reveal_strlit("type");
    reveal_strlit("call_id");
    reveal_strlit("name");
    reveal_strlit("arguments");
    reveal_strlit("output");
    reveal_strlit("function_call");
    reveal_strlit("function_call_output");
    assert("role"@[0] != "type"@[0]);
    assert("content"@.len() == 7);
    assert("type"@.len() == 4);
    assert("call_id"@.len() == 7);
    assert("type"@[0] != "name"@[0]);
    assert("arguments"@.len() == 9);
    assert("output"@.len() == 6);
    assert("function_call"@.len() == 13);
    assert("function_call_output"@.len() == 20);
    assert forall|role: Seq<char>, content: Seq<JsonV>| !is_output(
        #[trigger] message_item(role, content),
    ) by {}
    assert forall|id: Seq<char>, name: Seq<char>, arguments: JsonV| !is_output(
        #[trigger] call_item(id, name, arguments),
    ) by {}
    assert forall|id: Seq<char>, block: JsonV| is_output(#[trigger] output_item(id, block)) by {}
}

proof fn lemma_outputs_push(items: Seq<JsonV>, item: JsonV)
    ensures
        outputs_in(items.push(item)) == outputs_in(items) + if is_output(item) {
            1nat
        } else {
            0nat
        },
{
    assert(items.push(item).drop_last() =~= items);
}

spec fn balanced(blocks: Seq<JsonV>, d: Draft) -> bool {
    &&& d.seen <= blocks.len()
    &&& outputs_in(d.input) + paired_ids(blocks, d.seen).len() == results_in(blocks, d.seen)
        + called_ids(blocks, d.seen).len()
    &&& forall|id: Seq<char>| #[trigger]
        d.waiting.contains_key(id) <==> results_by_call(blocks).contains_key(id) && !called_ids(
            blocks,
            d.seen,
        ).contains(id)
}

proof fn lemma_flushed_balanced(blocks: Seq<JsonV>, d: Draft, role: Seq<char>)
    requires
        balanced(blocks, d),
    ensures
        balanced(blocks, flushed(d, role)),
        flushed(d, role).seen == d.seen,
{
    lemma_item_kinds();
    lemma_outputs_push(d.input, message_item(role, d.content));
}

proof fn lemma_block_balanced(blocks: Seq<JsonV>, d: Draft, role: Seq<char>)
    requires
        balanced(blocks, d),
        d.seen < blocks.len(),
    ensures
        balanced(blocks, after_block(blocks, d, role)),
{
    let block = blocks[d.seen as int];
    let kind = block_kind(block);
    let f = flushed(d, role);
    let next = after_block(blocks, d, role);
    lemma_item_kinds();
    lemma_block_kinds();
    lemma_flushed_balanced(blocks, d, role);
    lemma_called_ids(blocks, d.seen);
    lemma_called_ids(blocks, d.seen + 1);
    if kind == "tool_use"@ {
        let id = block.str_or("id"@, ""@);
        let called = f.input.push(block_call(block));
        lemma_outputs_push(f.input, block_call(block));
        if f.waiting.contains_key(id) {
            lemma_outputs_push(called, output_item(id, blocks[f.waiting[id] as int]));
            let before = called_ids(blocks, d.seen);
            assert(called_ids(blocks, d.seen + 1) == before.push(id));
            assert forall|other: Seq<char>| before.push(id).contains(other) <==> before.contains(
                other,
            ) || other == id by {
                broadcast use vstd::seq_lib::group_seq_properties;

            }
        }
    } else if kind == "tool_result"@ {
        lemma_outputs_push(f.input, output_item(answers(block), block));
    }
}

proof fn lemma_blocks_balanced(blocks: Seq<JsonV>, d: Draft, role: Seq<char>, n: nat)
    requires
        balanced(blocks, d),
        d.seen + n <= blocks.len(),
    ensures
        balanced(blocks, after_blocks(blocks, d, role, n)),
        after_blocks(blocks, d, role, n).seen == d.seen + n,
    decreases n,
{
    if n > 0 {
        lemma_blocks_balanced(blocks, d, role, (n - 1) as nat);
        lemma_block_balanced(blocks, after_blocks(blocks, d, role, (n - 1) as nat), role);
    }
}

proof fn lemma_message_balanced(blocks: Seq<JsonV>, d: Draft, message: JsonV)
    requires
        balanced(blocks, d),
        d.seen + blocks_of(message).len() <= blocks.len(),
    ensures
        balanced(blocks, after_message(blocks, d, message)),
        after_message(blocks, d, message).seen == d.seen + blocks_of(message).len(),
{
    let role = role_of(message);
    let n = blocks_of(message).len();
    let said = after_content(blocks, d, message);
    lemma_item_kinds();
    lemma_blocks_balanced(blocks, d, role, n);
    lemma_flushed_balanced(blocks, after_blocks(blocks, d, role, n), role);
    if let Some(JsonV::Str(text)) = message.get("content"@) {
        lemma_outputs_push(d.input, message_item(role, seq![text_part(text_kind(role), text)]));
    }
    assert(balanced(blocks, said));
    if let Some(JsonV::Obj(call)) = message.get("function_call"@) {
        lemma_outputs_push(said.input, lifted_call(JsonV::Obj(call)));
    }
}

proof fn lemma_messages_balanced(messages: Seq<JsonV>, k: int)
    requires
        0 <= k <= messages.len(),
    ensures
        ({
            let blocks = all_blocks(messages);
            let d = after_messages(blocks, first_draft(blocks), messages.take(k));
            balanced(blocks, d) && d.seen == all_blocks(messages.take(k)).len()
        }),
    decreases k,
{
    let blocks = all_blocks(messages);
    if k == 0 {
        assert(messages.take(0) =~= Seq::empty());
    } else {
        lemma_messages_balanced(messages, k - 1);
        lemma_blocks_so_far(messages, k);
        assert(messages.take(k).drop_last() =~= messages.take(k - 1));
        let before = after_messages(blocks, first_draft(blocks), messages.take(k - 1));
        lemma_message_balanced(blocks, before, messages[k - 1]);
    }
}

/// After the first messages, so many blocks are done as they have.
pub proof fn lemma_blocks_done(messages: Seq<JsonV>, k: int)
    requires
        0 <= k <= messages.len(),
    ensures
        after_messages(
            all_blocks(messages),
            first_draft(all_blocks(messages)),
            messages.take(k),
        ).seen == all_blocks(messages.take(k)).len(),
{
    lemma_messages_balanced(messages, k);
}

/// Each tool result becomes exactly one output item: the input has as many outputs as the messages
/// have results.
pub proof fn one_output_for_each_result(messages: Seq<JsonV>)
    ensures
        outputs_in(input_items(messages)) == results_in(
            all_blocks(messages),
            all_blocks(messages).len(),
        ),
{
    lemma_messages_balanced(messages, messages.len() as int);
    assert(messages.take(messages.len() as int) =~= messages);
    lemma_as_many_paired_as_called(all_blocks(messages));
}

/// A function that a message calls becomes an item of its own, the last one of the message.
pub proof fn function_calls_are_lifted(
    blocks: Seq<JsonV>,
    d: Draft,
    message: JsonV,
    call: JsonV,
)
    requires
        message.get("function_call"@) == Some(call),
        call is Obj,
    ensures
        ({
            let item = after_message(blocks, d, message).input.last();
            &&& item.str_at("type"@) == Some("function_call"@)
            &&& item.str_at("name"@) == Some(call.str_or("name"@, ""@))
            &&& item.get("arguments"@) == Some(or_default(call.get("arguments"@), JsonV::object()))
        }),
{
    reveal_strlit("type");
    reveal_strlit("call_id");
    reveal_strlit("name");
    reveal_strlit("arguments");
    assert("type"@.len() == 4);
    assert("call_id"@.len() == 7);
    assert("type"@[0] != "name"@[0]);
    assert("arguments"@.len() == 9);
}

/// The message of a tool that names its call, unless it is put behind the call, becomes the output
/// of the call, with the text that it has.
pub proof fn tool_messages_are_outputs(
    blocks: Seq<JsonV>,
    d: Draft,
    id: Seq<char>,
    text: Seq<char>,
    message: JsonV,
)
    requires
        d.seen < blocks.len(),
        d.content.len() == 0,
        role_of(message) == "tool"@,
        message.str_at("tool_call_id"@) == Some(id),
        trim(id).len() > 0,
        message.str_at("content"@) == Some(text),
        message.get("function_call"@) is None,
        blocks[d.seen as int] == tool_block(message),
        !is_paired(blocks, d.seen as int),
    ensures
        ({
            let next = after_message(blocks, d, message);
            let item = next.input.last();
            &&& next.input.drop_last() == d.input
            &&& item.str_at("type"@) == Some("function_call_output"@)
            &&& item.str_at("call_id"@) == Some(id)
            &&& item.array_at("output"@) == Some(seq![text_part("output_text"@, text)])
        }),
{
    let block = tool_block(message);
    lemma_block_kinds();
    reveal_strlit("type");
    reveal_strlit("tool_use_id");
    reveal_strlit("tool_call_id");
    reveal_strlit("content");
    reveal_strlit("call_id");
    reveal_strlit("output");
    assert("type"@.len() == 4);
    assert("tool_use_id"@.len() == 11);
    assert("tool_call_id"@.len() == 12);
    assert("content"@.len() == 7);
    assert("call_id"@.len() == 7);
    assert("output"@.len() == 6);
    assert(blocks_of(message).len() == 1);
    assert(block_kind(block) == "tool_result"@);
    assert(answers(block) == id);
    assert(block.get("content"@) == Some(JsonV::Str(text)));
    other_results_are_listed(blocks, d, "tool"@);
    assert(after_blocks(blocks, d, "tool"@, 0) == d);
    assert(after_blocks(blocks, d, "tool"@, 1) == after_block(blocks, d, "tool"@));
    let next = after_message(blocks, d, message);
    assert(next.input == d.input.push(output_item(id, block)));
    assert(next.input.drop_last() =~= d.input);
}

} // verus!
