//! What holds of every Chat Completions stream that is made from a Responses stream.

use vstd::prelude::*;
use crate::chat_chunk::{call_chunk, chunk_text, finish_chunk, Heading};
use crate::chat_stream::{
    after_block, after_blocks, after_bytes, after_completed, after_event, begins_call,
    block_event, call_chunks, calls_begun, completes, final_chunks, has_room, heading,
    is_completion, open_call, reason, sending, started, with_arguments, without, Chatted, Draw,
    OpenV,
};
use crate::json::JsonV;
use crate::responses_event::CallV;
use crate::sse::{
    behind_block, blocks, done_text, field_values, first_block, has_block, leftover, lossy_text,
};
use crate::text::{decimal, join};
use crate::value::parsed;

verus! {

/// A state with other bytes left over and with more chunks sent before.
pub open spec fn reframed(t: Chatted, bytes: Seq<u8>, sent: Seq<Seq<char>>) -> Chatted {
    Chatted { bytes, out: sent + t.out, ..t }
}

proof fn lemma_sending_reframed(t: Chatted, bytes: Seq<u8>, sent: Seq<Seq<char>>, chunk: Seq<char>)
    ensures
        sending(reframed(t, bytes, sent), chunk) == reframed(sending(t, chunk), bytes, sent),
{
    assert((sent + t.out).push(chunk) =~= sent + t.out.push(chunk));
}

/// An event does the same whatever bytes are left over and whatever was sent before.
pub proof fn event_ignores_what_was_sent(
    t: Chatted,
    bytes: Seq<u8>,
    sent: Seq<Seq<char>>,
    name: Seq<char>,
    data: JsonV,
    draw: Draw,
)
    ensures
        after_event(reframed(t, bytes, sent), name, data, draw) == reframed(
            after_event(t, name, data, draw),
            bytes,
            sent,
        ),
{
    assert forall|u: Chatted, chunk: Seq<char>| #[trigger]
        sending(reframed(u, bytes, sent), chunk) == reframed(sending(u, chunk), bytes, sent) by {
        lemma_sending_reframed(u, bytes, sent, chunk);
    }
    let done = after_completed(t, data);
    assert(after_completed(reframed(t, bytes, sent), data).out =~= sent + done.out);
    let r = reframed(t, bytes, sent);
    assert(heading(r) == heading(t));
    if name == "response.created"@ {
        let response = crate::json::either(data.get("response"@), data.get("output"@));
        let next = match response {
            Some(v) => crate::chat_stream::told(t, v, draw.now),
            None => t,
        };
        let next2 = match response {
            Some(v) => crate::chat_stream::told(r, v, draw.now),
            None => r,
        };
        assert(next2 == reframed(next, bytes, sent));
        assert(heading(next2) == heading(next));
    } else {
        let item = data.str_or("item_id"@, ""@);
        let less = Chatted { calls: without(t.calls, item), ..t };
        let less2 = Chatted { calls: without(r.calls, item), ..r };
        assert(less2 == reframed(less, bytes, sent));
        let custom = Chatted { custom: without(t.custom, item), ..t };
        let custom2 = Chatted { custom: without(r.custom, item), ..r };
        assert(custom2 == reframed(custom, bytes, sent));
    }
}

proof fn lemma_block_reframed(
    t: Chatted,
    bytes: Seq<u8>,
    sent: Seq<Seq<char>>,
    block: Seq<char>,
    draw: Draw,
)
    ensures
        after_block(reframed(t, bytes, sent), block, draw) == reframed(
            after_block(t, block, draw),
            bytes,
            sent,
        ),
{
    if let Some((name, data)) = block_event(block) {
        event_ignores_what_was_sent(t, bytes, sent, name, data, draw);
    }
}

proof fn lemma_parts(t: Chatted, b: Seq<u8>, first: Seq<Draw>, second: Seq<Draw>)
    requires
        first.len() == blocks(t.bytes).len(),
        forall|i: int|
            0 <= i < blocks(t.bytes).len() ==> !completes(
                lossy_text(#[trigger] blocks(t.bytes)[i]),
            ),
    ensures
        ({
            let middle = after_blocks(t, first);
            after_blocks(Chatted { bytes: middle.bytes + b, ..middle }, second) == after_blocks(
                Chatted { bytes: t.bytes + b, ..t },
                first + second,
            )
        }),
    decreases t.bytes.len(),
{
    if has_block(t.bytes) {
        crate::sse::lemma_next_break(t.bytes, 0);
        crate::sse::lemma_first_block_stays(t.bytes, b);
        let block = lossy_text(first_block(t.bytes));
        let rest = behind_block(t.bytes);
        let list = blocks(t.bytes);
        assert(list[0] == first_block(t.bytes));
        assert(!completes(block));
        let cut = Chatted { bytes: rest, ..t };
        let next = after_block(cut, block, first.first());
        if let Some((name, data)) = block_event(block) {
            crate::chat_stream::lemma_event_keeps_bytes(cut, name, data, first.first());
        }
        assert(next.bytes == rest);
        assert forall|i: int| 0 <= i < blocks(next.bytes).len() implies !completes(
            lossy_text(#[trigger] blocks(next.bytes)[i]),
        ) by {
            assert(list[i + 1] == blocks(rest)[i]);
        }
        lemma_parts(next, b, first.drop_first(), second);
        let none = Seq::<Seq<char>>::empty();
        let long = Chatted { bytes: rest + b, ..t };
        assert(none + t.out =~= t.out);
        assert(long == reframed(cut, rest + b, none));
        lemma_block_reframed(cut, rest + b, none, block, first.first());
        assert(none + next.out =~= next.out);
        assert(after_block(long, block, first.first()) == (Chatted { bytes: rest + b, ..next }));
        assert((first + second).first() == first.first());
        assert((first + second).drop_first() =~= first.drop_first() + second);
    } else {
        assert(first + second =~= second);
    }
}

/// It makes no difference whether bytes arrive together or one part after the other, as long as the
/// first part does not complete the response.
pub proof fn parts_make_no_difference(
    t: Chatted,
    a: Seq<u8>,
    b: Seq<u8>,
    first: Seq<Draw>,
    second: Seq<Draw>,
)
    requires
        first.len() == blocks(t.bytes + a).len(),
        forall|i: int|
            0 <= i < blocks(t.bytes + a).len() ==> !completes(
                lossy_text(#[trigger] blocks(t.bytes + a)[i]),
            ),
    ensures
        after_bytes(after_bytes(t, a, first), b, second) == after_bytes(t, a + b, first + second),
{
    assert(t.bytes + (a + b) =~= (t.bytes + a) + b);
    lemma_parts(Chatted { bytes: t.bytes + a, ..t }, b, first, second);
}

/// The places of some open calls increase, and are below a limit.
pub open spec fn in_places(list: Seq<OpenV>, limit: u32) -> bool {
    &&& forall|i: int, j: int|
        0 <= i < j < list.len() ==> (#[trigger] list[i]).call.index < (
        #[trigger] list[j]).call.index
    &&& forall|i: int| 0 <= i < list.len() ==> (#[trigger] list[i]).call.index < limit
}

/// What holds of the state at any time: the open calls stand in the order of their places.
pub open spec fn consistent(t: Chatted) -> bool {
    in_places(t.calls, t.count) && in_places(t.custom, t.count)
}

proof fn lemma_without_in_places(list: Seq<OpenV>, item: Seq<char>, limit: u32)
    requires
        in_places(list, limit),
    ensures
        in_places(without(list, item), limit),
        forall|i: int|
            0 <= i < without(list, item).len() ==> list.len() > 0 && (#[trigger] without(
                list,
                item,
            )[i]).call.index <= list.last().call.index,
    decreases list.len(),
{
    if list.len() > 0 {
        let shorter = list.drop_last();
        let last = list[list.len() - 1];
        assert(in_places(shorter, limit)) by {
            assert forall|i: int, j: int| 0 <= i < j < shorter.len() implies (
            #[trigger] shorter[i]).call.index < (#[trigger] shorter[j]).call.index by {
                assert(list[i].call.index < list[j].call.index);
            }
            assert forall|i: int| 0 <= i < shorter.len() implies (
            #[trigger] shorter[i]).call.index < limit by {
                assert(list[i].call.index < limit);
            }
        }
        lemma_without_in_places(shorter, item, limit);
        let front = without(shorter, item);
        let all = without(list, item);
        assert forall|i: int| 0 <= i < front.len() implies (#[trigger] front[i]).call.index
            < last.call.index by {
            assert(list[shorter.len() - 1].call.index < list[list.len() - 1].call.index);
        }
        assert forall|i: int, j: int| 0 <= i < j < all.len() implies (
        #[trigger] all[i]).call.index < (#[trigger] all[j]).call.index by {
            if j < front.len() {
                assert(front[i].call.index < front[j].call.index);
            } else {
                assert(front[i].call.index < last.call.index);
            }
        }
        assert forall|i: int| 0 <= i < all.len() implies (#[trigger] all[i]).call.index < limit
            && all[i].call.index <= last.call.index by {
            if i < front.len() {
                assert(front[i].call.index < last.call.index);
            }
        }
    }
}

/// An event keeps the state consistent.
pub proof fn events_keep_consistent(t: Chatted, name: Seq<char>, data: JsonV, draw: Draw)
    requires
        consistent(t),
        begins_call(name, data) ==> t.count < u32::MAX,
    ensures
        consistent(after_event(t, name, data, draw)),
{
    assert forall|item: Seq<char>| in_places(#[trigger] without(t.calls, item), t.count) by {
        lemma_without_in_places(t.calls, item, t.count);
    }
    assert forall|item: Seq<char>| in_places(#[trigger] without(t.custom, item), t.count) by {
        lemma_without_in_places(t.custom, item, t.count);
    }
    if name == "response.output_item.added"@ {
        if let Some(item) = data.get("item"@) {
            let id = item.str_or("id"@, ""@);
            let calls = without(t.calls, id);
            let custom = without(t.custom, id);
            assert(in_places(calls, t.count) && in_places(custom, t.count));
        }
    }
}

proof fn lemma_blocks_keep_consistent(t: Chatted, draws: Seq<Draw>)
    requires
        consistent(t),
        t.count + calls_begun(t.bytes) <= u32::MAX,
    ensures
        consistent(after_blocks(t, draws)),
    decreases t.bytes.len(),
{
    if has_block(t.bytes) {
        crate::sse::lemma_next_break(t.bytes, 0);
        let block = lossy_text(first_block(t.bytes));
        let cut = Chatted { bytes: behind_block(t.bytes), ..t };
        if let Some((name, data)) = block_event(block) {
            crate::chat_stream::lemma_event_keeps_bytes(cut, name, data, draws.first());
            events_keep_consistent(cut, name, data, draws.first());
        }
        if !completes(block) {
            lemma_blocks_keep_consistent(
                after_block(cut, block, draws.first()),
                draws.drop_first(),
            );
        }
    }
}

/// Bytes keep the state consistent.
pub proof fn bytes_keep_consistent(t: Chatted, chunk: Seq<u8>, draws: Seq<Draw>)
    requires
        consistent(t),
        has_room(t, chunk),
    ensures
        consistent(after_bytes(t, chunk, draws)),
{
    lemma_blocks_keep_consistent(Chatted { bytes: t.bytes + chunk, ..t }, draws);
}

/// Whether a stream of events knows what an event with a name does.
pub open spec fn is_known_event(name: Seq<char>) -> bool {
    ||| name == "response.created"@
    ||| name == "response.output_item.added"@
    ||| name == "response.output_text.delta"@
    ||| name == "output_text.delta"@
    ||| name == "response.function_call_arguments.delta"@
    ||| name == "function_call_arguments.delta"@
    ||| name == "response.function_call_arguments.done"@
    ||| name == "function_call_arguments.done"@
    ||| name == "response.function_call_output"@
    ||| name == "function_call_output"@
    ||| name == "response.custom_tool_call.delta"@
    ||| name == "custom_tool_call.delta"@
    ||| name == "response.custom_tool_call.done"@
    ||| name == "custom_tool_call.done"@
    ||| name == "response.custom_tool_call_output"@
    ||| name == "custom_tool_call_output"@
    ||| is_completion(name)
}

/// Whether nothing is known of what a block does: it has no data, its data is not JSON, or its name
/// is not known.
pub open spec fn is_other_block(block: Seq<char>) -> bool {
    match block_event(block) {
        Some((name, _)) => !is_known_event(name),
        None => true,
    }
}

/// A block without data, one whose data is not JSON, and one with a name that is not known change
/// nothing, and complete nothing.
pub proof fn other_blocks_change_nothing(t: Chatted, block: Seq<char>, draw: Draw)
    requires
        is_other_block(block),
    ensures
        after_block(t, block, draw) == t,
        !completes(block),
{
}

/// Whether none of the complete blocks in some bytes completes the response.
pub open spec fn completes_nothing(bytes: Seq<u8>) -> bool {
    forall|i: int|
        0 <= i < blocks(bytes).len() ==> !completes(lossy_text(#[trigger] blocks(bytes)[i]))
}

proof fn lemma_left_over(t: Chatted, draws: Seq<Draw>)
    requires
        completes_nothing(t.bytes),
    ensures
        after_blocks(t, draws).bytes == leftover(t.bytes),
    decreases t.bytes.len(),
{
    if has_block(t.bytes) {
        crate::sse::lemma_next_break(t.bytes, 0);
        let block = lossy_text(first_block(t.bytes));
        let rest = behind_block(t.bytes);
        let list = blocks(t.bytes);
        assert(list[0] == first_block(t.bytes));
        let cut = Chatted { bytes: rest, ..t };
        if let Some((name, data)) = block_event(block) {
            crate::chat_stream::lemma_event_keeps_bytes(cut, name, data, draws.first());
        }
        assert forall|i: int| 0 <= i < blocks(rest).len() implies !completes(
            lossy_text(#[trigger] blocks(rest)[i]),
        ) by {
            assert(list[i + 1] == blocks(rest)[i]);
        }
        lemma_left_over(after_block(cut, block, draws.first()), draws.drop_first());
    }
}

/// Two streams of bytes that differ by one block of which nothing is known, before anything
/// completes the response, give the same chunks and leave the same state. The block stands between
/// two others, and the other blocks have the same draws.
pub proof fn other_blocks_can_be_left_out(
    t: Chatted,
    front: Seq<u8>,
    block: Seq<u8>,
    rest: Seq<u8>,
    first: Seq<Draw>,
    draw: Draw,
    second: Seq<Draw>,
)
    requires
        completes_nothing(t.bytes + front),
        leftover(t.bytes + front).len() == 0,
        first.len() == blocks(t.bytes + front).len(),
        has_block(block),
        behind_block(block).len() == 0,
        is_other_block(lossy_text(first_block(block))),
    ensures
        after_bytes(t, front + block + rest, first + seq![draw] + second) == after_bytes(
            t,
            front + rest,
            first + second,
        ),
{
    let middle = after_bytes(t, front, first);
    lemma_left_over(Chatted { bytes: t.bytes + front, ..t }, first);
    assert(middle.bytes =~= Seq::empty());
    parts_make_no_difference(t, front, block + rest, first, seq![draw] + second);
    parts_make_no_difference(t, front, rest, first, second);
    assert(front + (block + rest) =~= front + block + rest);
    assert(first + (seq![draw] + second) =~= first + seq![draw] + second);
    crate::sse::lemma_first_block_stays(block, rest);
    assert(middle.bytes + (block + rest) =~= block + rest);
    assert(middle.bytes + rest =~= rest);
    assert(behind_block(block + rest) =~= rest);
    assert((seq![draw] + second).first() == draw);
    assert((seq![draw] + second).drop_first() =~= second);
    let cut = Chatted { bytes: rest, ..middle };
    other_blocks_change_nothing(cut, lossy_text(first_block(block)), draw);
}

/// A block has no event exactly where it has no data, or where its data is not JSON.
pub proof fn blocks_without_events(block: Seq<char>)
    ensures
        block_event(block) is None <==> field_values(block, "data"@).len() == 0 || parsed(
            join(field_values(block, "data"@), "\n"@),
        ) is None,
{
}

/// More arguments are appended to those of the call that they are for, and to no other.
pub proof fn arguments_add_up(
    list: Seq<OpenV>,
    item: Seq<char>,
    more: Seq<char>,
    other: Seq<char>,
)
    ensures
        open_call(with_arguments(list, item, more), item) == match open_call(list, item) {
            Some(call) => Some(CallV { arguments: call.arguments + more, ..call }),
            None => None,
        },
        other != item ==> open_call(with_arguments(list, item, more), other) == open_call(
            list,
            other,
        ),
    decreases list.len(),
{
    let next = with_arguments(list, item, more);
    if list.len() > 0 {
        arguments_add_up(list.drop_last(), item, more, other);
        assert(next.drop_last() =~= with_arguments(list.drop_last(), item, more));
    }
}

/// The completion of a response sends every call of a function that is still open, in the order of
/// the places, and after them the reason to finish and the marker of the end.
pub proof fn completion_sends_open_calls(t: Chatted, data: JsonV)
    requires
        consistent(t),
    ensures
        ({
            let after = after_completed(t, data);
            let n = t.out.len() as int;
            &&& after.out.len() == n + t.calls.len() + 2
            &&& forall|i: int|
                0 <= i < t.calls.len() ==> after.out[n + i] == call_chunk(
                    heading(t),
                    (#[trigger] t.calls[i]).call,
                )
            &&& forall|i: int, j: int|
                0 <= i < j < t.calls.len() ==> (#[trigger] t.calls[i]).call.index < (
                #[trigger] t.calls[j]).call.index
            &&& after.out[n + t.calls.len()] == finish_chunk(
                heading(t),
                reason(t, data.str_or("status"@, "stop"@)),
            )
            &&& after.out.last() == done_text()
            &&& after.complete
            &&& after.calls.len() == 0
        }),
{
}

/// A stream is finished once: what is complete gets no more chunks at the end of the bytes, and
/// anything else gets a reason to finish and the marker of the end.
pub proof fn stream_is_finished(t: Chatted)
    ensures
        t.complete ==> final_chunks(t).len() == 0,
        !t.complete ==> final_chunks(t).len() == 2 && final_chunks(t)[0] == finish_chunk(
            heading(t),
            reason(t, "stop"@),
        ) && final_chunks(t)[1] == done_text(),
{
}

/// The state is consistent before the first byte.
pub proof fn start_is_consistent()
    ensures
        consistent(started()),
{
}

/// Whether a chunk gives a reason to finish.
pub open spec fn is_finish(chunk: Seq<char>) -> bool {
    exists|h: Heading, why: Seq<char>| chunk == #[trigger] finish_chunk(h, why)
}

/// Whether some chunks are finished: the last two are one with a reason to finish and the marker of
/// the end, and no other chunk is either.
pub open spec fn is_finished(chunks: Seq<Seq<char>>) -> bool {
    let n = chunks.len() as int;
    &&& n >= 2
    &&& is_finish(chunks[n - 2])
    &&& chunks[n - 1] == done_text()
    &&& forall|i: int|
        0 <= i < n - 2 ==> !is_finish(#[trigger] chunks[i]) && chunks[i] != done_text()
}

spec fn sign(chunk: Seq<char>) -> char {
    chunk[chunk.len() - 6]
}

proof fn lemma_sign(h: Heading, index: u32, delta: Seq<char>, why: Seq<char>)
    requires
        why.len() > 0,
    ensures
        sign(chunk_text(h, index, delta, why)) == why.last(),
{
    reveal_strlit("}]}\n\n");
    let front = "data: {\"id\":\"chatcmpl-"@ + h.id
        + "\",\"object\":\"chat.completion.chunk\",\"created\":"@ + decimal(h.created as nat)
        + ",\"model\":\""@ + h.model + "\",\"choices\":[{\"index\":"@ + decimal(index as nat)
        + ",\"delta\":{"@ + delta + "},\"finish_reason\":"@;
    let end = "}]}\n\n"@;
    assert(end.len() == 5);
    let chunk = chunk_text(h, index, delta, why);
    assert(chunk == front + why + end);
    assert(chunk[chunk.len() - 6] == why[why.len() - 1]);
}

proof fn lemma_finish_sign(h: Heading, why: Seq<char>)
    ensures
        sign(finish_chunk(h, why)) == '"',
{
    reveal_strlit("\"");
    let quoted = "\""@ + why + "\""@;
    assert(quoted.last() == '"');
    lemma_sign(h, 0, ""@, quoted);
}

spec fn is_between(chunk: Seq<char>) -> bool {
    sign(chunk) == 'l'
}

proof fn lemma_null_sign(h: Heading, index: u32, delta: Seq<char>)
    ensures
        is_between(chunk_text(h, index, delta, "null"@)),
{
    reveal_strlit("null");
    assert("null"@.last() == 'l');
    lemma_sign(h, index, delta, "null"@);
}

proof fn lemma_between(chunk: Seq<char>)
    requires
        is_between(chunk),
    ensures
        !is_finish(chunk),
        chunk != done_text(),
{
    reveal_strlit("data: [DONE]\n\n");
    assert(done_text().len() == 14);
    assert(done_text()[8] == 'O');
    if is_finish(chunk) {
        let (h, why) = choose|h: Heading, why: Seq<char>| chunk == #[trigger] finish_chunk(h, why);
        lemma_finish_sign(h, why);
    }
}

spec fn all_between(chunks: Seq<Seq<char>>) -> bool {
    forall|i: int| 0 <= i < chunks.len() ==> is_between(#[trigger] chunks[i])
}

proof fn lemma_event_between(t: Chatted, name: Seq<char>, data: JsonV, draw: Draw)
    requires
        all_between(t.out),
        !is_completion(name),
    ensures
        all_between(after_event(t, name, data, draw).out),
        after_event(t, name, data, draw).complete == t.complete,
{
    assert forall|h: Heading, index: u32, delta: Seq<char>| is_between(
        #[trigger] chunk_text(h, index, delta, "null"@),
    ) by {
        lemma_null_sign(h, index, delta);
    }
    assert forall|u: Chatted, chunk: Seq<char>|
        all_between(u.out) && is_between(chunk) implies all_between(
        (#[trigger] sending(u, chunk)).out,
    ) by {}
    let next = after_event(t, name, data, draw);
    assert(next.out == t.out || (next.out.len() == t.out.len() + 1 && next.out.drop_last()
        =~= t.out && is_between(next.out.last())));
}

proof fn lemma_completion_finishes(t: Chatted, data: JsonV)
    requires
        all_between(t.out),
    ensures
        is_finished(after_completed(t, data).out),
        after_completed(t, data).complete,
{
    let calls = call_chunks(heading(t), t.calls);
    let all = after_completed(t, data).out;
    let n = t.out.len() + calls.len();
    assert(all.len() == n + 2);
    assert(is_finish(all[n as int]));
    assert forall|i: int| 0 <= i < n implies !is_finish(#[trigger] all[i]) && all[i]
        != done_text() by {
        if i < t.out.len() {
            assert(all[i] == t.out[i]);
        } else {
            let call = t.calls[i - t.out.len()].call;
            assert(all[i] == call_chunk(heading(t), call));
            lemma_call_between(heading(t), call);
        }
        lemma_between(all[i]);
    }
}

proof fn lemma_call_between(h: Heading, call: CallV)
    ensures
        is_between(call_chunk(h, call)),
{
    assert forall|index: u32, delta: Seq<char>| is_between(
        #[trigger] chunk_text(h, index, delta, "null"@),
    ) by {
        lemma_null_sign(h, index, delta);
    }
}

spec fn on_course(t: Chatted) -> bool {
    if t.complete {
        is_finished(t.out)
    } else {
        all_between(t.out)
    }
}

proof fn lemma_blocks_on_course(t: Chatted, draws: Seq<Draw>)
    requires
        !t.complete,
        all_between(t.out),
    ensures
        on_course(after_blocks(t, draws)),
    decreases t.bytes.len(),
{
    if has_block(t.bytes) {
        crate::sse::lemma_next_break(t.bytes, 0);
        let block = lossy_text(first_block(t.bytes));
        let cut = Chatted { bytes: behind_block(t.bytes), ..t };
        let next = after_block(cut, block, draws.first());
        if let Some((name, data)) = block_event(block) {
            crate::chat_stream::lemma_event_keeps_bytes(cut, name, data, draws.first());
            if is_completion(name) {
                lemma_completion_is_last(cut, name, data, draws.first());
                lemma_completion_finishes(cut, data);
            } else {
                lemma_event_between(cut, name, data, draws.first());
            }
        }
        if !completes(block) {
            lemma_blocks_on_course(next, draws.drop_first());
        }
    }
}

proof fn lemma_completion_is_last(t: Chatted, name: Seq<char>, data: JsonV, draw: Draw)
    requires
        is_completion(name),
    ensures
        after_event(t, name, data, draw) == after_completed(t, data),
{
    reveal_strlit("response.completed");
    reveal_strlit("response.done");
    reveal_strlit("response.created");
    reveal_strlit("response.output_item.added");
    reveal_strlit("response.output_text.delta");
    reveal_strlit("output_text.delta");
    reveal_strlit("response.function_call_arguments.delta");
    reveal_strlit("function_call_arguments.delta");
    reveal_strlit("response.function_call_arguments.done");
    reveal_strlit("function_call_arguments.done");
    reveal_strlit("response.function_call_output");
    reveal_strlit("function_call_output");
    reveal_strlit("response.custom_tool_call.delta");
    reveal_strlit("custom_tool_call.delta");
    reveal_strlit("response.custom_tool_call.done");
    reveal_strlit("custom_tool_call.done");
    reveal_strlit("response.custom_tool_call_output");
    reveal_strlit("custom_tool_call_output");
    assert("response.completed"@.len() == 18);
    assert("response.done"@.len() == 13);
    assert("response.created"@.len() == 16);
    assert("response.output_item.added"@.len() == 26);
    assert("response.output_text.delta"@.len() == 26);
    assert("output_text.delta"@.len() == 17);
    assert("response.function_call_arguments.delta"@.len() == 38);
    assert("function_call_arguments.delta"@.len() == 29);
    assert("response.function_call_arguments.done"@.len() == 37);
    assert("function_call_arguments.done"@.len() == 28);
    assert("response.function_call_output"@.len() == 29);
    assert("function_call_output"@.len() == 20);
    assert("response.custom_tool_call.delta"@.len() == 31);
    assert("custom_tool_call.delta"@.len() == 22);
    assert("response.custom_tool_call.done"@.len() == 30);
    assert("custom_tool_call.done"@.len() == 21);
    assert("response.custom_tool_call_output"@.len() == 32);
    assert("custom_tool_call_output"@.len() == 23);
}

/// A stream so far: its state, from which the chunks that were sent are taken out, and these chunks.
pub struct Run {
    pub state: Chatted,
    pub sent: Seq<Seq<char>>,
}

/// The stream after some chunks of bytes, each with draws of its own.
pub open spec fn run(chunks: Seq<Seq<u8>>, draws: Seq<Seq<Draw>>) -> Run
    decreases chunks.len(),
{
    if chunks.len() == 0 {
        Run { state: started(), sent: Seq::empty() }
    } else {
        let before = run(chunks.drop_last(), draws.drop_last());
        let after = after_bytes(before.state, chunks.last(), draws.last());
        Run { state: Chatted { out: Seq::empty(), ..after }, sent: before.sent + after.out }
    }
}

/// Whether no complete block stands behind the completion of the response, in any of the chunks.
pub open spec fn nothing_follows(chunks: Seq<Seq<u8>>, draws: Seq<Seq<Draw>>) -> bool
    decreases chunks.len(),
{
    chunks.len() == 0 || {
        let before = run(chunks.drop_last(), draws.drop_last()).state;
        &&& nothing_follows(chunks.drop_last(), draws.drop_last())
        &&& before.complete ==> !has_block(before.bytes + chunks.last())
    }
}

proof fn lemma_run_on_course(chunks: Seq<Seq<u8>>, draws: Seq<Seq<Draw>>)
    requires
        nothing_follows(chunks, draws),
    ensures
        run(chunks, draws).state.out.len() == 0,
        on_course(Chatted { out: run(chunks, draws).sent, ..run(chunks, draws).state }),
    decreases chunks.len(),
{
    if chunks.len() > 0 {
        let before = run(chunks.drop_last(), draws.drop_last());
        let after = after_bytes(before.state, chunks.last(), draws.last());
        let next = run(chunks, draws);
        lemma_run_on_course(chunks.drop_last(), draws.drop_last());
        if before.state.complete {
            assert(after.out =~= Seq::empty());
            assert(next.sent =~= before.sent);
        } else {
            let bytes = before.state.bytes + chunks.last();
            lemma_blocks_on_course(Chatted { bytes, ..before.state }, draws.last());
            if after.complete {
                lemma_finished_behind(before.sent, after.out);
            } else {
                assert forall|i: int| 0 <= i < next.sent.len() implies is_between(
                    #[trigger] next.sent[i],
                ) by {
                    if i < before.sent.len() {
                        assert(next.sent[i] == before.sent[i]);
                    } else {
                        assert(next.sent[i] == after.out[i - before.sent.len()]);
                    }
                }
            }
        }
    }
}

proof fn lemma_finished_behind(front: Seq<Seq<char>>, chunks: Seq<Seq<char>>)
    requires
        all_between(front),
        is_finished(chunks),
    ensures
        is_finished(front + chunks),
{
    let all = front + chunks;
    let n = all.len() as int;
    assert(all[n - 2] == chunks[chunks.len() - 2]);
    assert(all[n - 1] == chunks[chunks.len() - 1]);
    assert forall|i: int| 0 <= i < n - 2 implies !is_finish(#[trigger] all[i]) && all[i]
        != done_text() by {
        if i < front.len() {
            assert(all[i] == front[i]);
            lemma_between(front[i]);
        } else {
            assert(all[i] == chunks[i - front.len()]);
        }
    }
}

/// A whole stream, from its start to its end, sends exactly one chunk with a reason to finish and
/// one marker of the end, and they come last. No block stands behind the completion of the
/// response.
pub proof fn streams_are_finished_once(chunks: Seq<Seq<u8>>, draws: Seq<Seq<Draw>>)
    requires
        nothing_follows(chunks, draws),
    ensures
        is_finished(run(chunks, draws).sent + final_chunks(run(chunks, draws).state)),
{
    let end = run(chunks, draws);
    lemma_run_on_course(chunks, draws);
    if end.state.complete {
        assert(end.sent + final_chunks(end.state) =~= end.sent);
    } else {
        assert(is_finish(final_chunks(end.state)[0]));
        lemma_finished_behind(end.sent, final_chunks(end.state));
    }
}

} // verus!
