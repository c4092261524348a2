//! What holds of blocks, lines and fields of server-sent events.

use vstd::prelude::*;
use crate::chat_stream::block_event;
use crate::json::gather;
use crate::responses_event::EventV;
use crate::setting_laws::{joining_puts_together, put_together};
use crate::sse::{
    behind_block, blocks, break_at, done_text, field, field_values, first_block, last_value,
    leftover, lemma_next_break, lines, next_break, pieces_by_line, unended,
};
use crate::text::trim;
use crate::value::{compact_text, parsed};

verus! {

/// Whether two line feeds stand at a place.
pub open spec fn feeds_at(s: Seq<u8>, i: int) -> bool {
    0 <= i && i + 2 <= s.len() && s[i] == 10 && s[i + 1] == 10
}

/// Whether two line feeds stand at a place, each behind a carriage return.
pub open spec fn returns_at(s: Seq<u8>, i: int) -> bool {
    0 <= i && i + 4 <= s.len() && s[i] == 13 && s[i + 1] == 10 && s[i + 2] == 13 && s[i + 3] == 10
}

/// Whether no empty line stands before a place.
pub open spec fn has_none_before(s: Seq<u8>, n: int) -> bool {
    forall|i: int| 0 <= i < n ==> !feeds_at(s, i) && !#[trigger] returns_at(s, i)
}

proof fn lemma_break(s: Seq<u8>, i: int)
    requires
        0 <= i,
    ensures
        break_at(s, i) > 0 <==> feeds_at(s, i) || returns_at(s, i),
        returns_at(s, i) ==> break_at(s, i) == 4,
        feeds_at(s, i) ==> break_at(s, i) == 2,
{
}

proof fn lemma_cut(s: Seq<u8>, at: int)
    requires
        0 <= at < s.len(),
        feeds_at(s, at) || returns_at(s, at),
        has_none_before(s, at),
    ensures
        next_break(s, 0) == at,
{
    lemma_next_break(s, 0);
    lemma_break(s, at);
    let found = next_break(s, 0);
    if found < at {
        lemma_break(s, found);
        assert(!feeds_at(s, found) && !returns_at(s, found));
    }
    if at < found {
        assert(break_at(s, at) == 0);
    }
}

/// An empty line ends a block: what stands before it is the first block, and what stands behind it is
/// cut on its own. The line may end with a line feed or with a carriage return and a line feed.
pub proof fn empty_lines_end_blocks(block: Seq<u8>, rest: Seq<u8>)
    ensures
        has_none_before(block + seq![10u8, 10u8] + rest, block.len() as int) ==> {
            let s = block + seq![10u8, 10u8] + rest;
            &&& blocks(s) == seq![block] + blocks(rest)
            &&& leftover(s) == leftover(rest)
        },
        has_none_before(block + seq![13u8, 10u8, 13u8, 10u8] + rest, block.len() as int) ==> {
            let s = block + seq![13u8, 10u8, 13u8, 10u8] + rest;
            &&& blocks(s) == seq![block] + blocks(rest)
            &&& leftover(s) == leftover(rest)
        },
{
    let n = block.len() as int;
    let a = block + seq![10u8, 10u8] + rest;
    if has_none_before(a, n) {
        assert(a[n] == 10 && a[n + 1] == 10);
        assert(feeds_at(a, n));
        lemma_cut(a, n);
        lemma_break(a, n);
        assert(first_block(a) =~= block);
        assert(behind_block(a) =~= rest);
    }
    let b = block + seq![13u8, 10u8, 13u8, 10u8] + rest;
    if has_none_before(b, n) {
        assert(b[n] == 13 && b[n + 1] == 10 && b[n + 2] == 13 && b[n + 3] == 10);
        assert(returns_at(b, n));
        lemma_cut(b, n);
        lemma_break(b, n);
        assert(first_block(b) =~= block);
        assert(behind_block(b) =~= rest);
    }
}

/// Bytes without an empty line hold no block, and wait for more.
pub proof fn unfinished_blocks_wait(s: Seq<u8>)
    requires
        has_none_before(s, s.len() as int),
    ensures
        blocks(s) == Seq::<Seq<u8>>::empty(),
        leftover(s) == s,
{
    lemma_next_break(s, 0);
    let at = next_break(s, 0);
    if at < s.len() {
        lemma_break(s, at);
        assert(!feeds_at(s, at) && !returns_at(s, at));
    }
}

/// A text without a line feed.
pub open spec fn has_no_feed(s: Seq<char>) -> bool {
    forall|i: int| 0 <= i < s.len() ==> #[trigger] s[i] != '\n'
}

proof fn lemma_one_piece(s: Seq<char>)
    requires
        has_no_feed(s),
    ensures
        pieces_by_line(s) == seq![s],
    decreases s.len(),
{
    if s.len() == 0 {
        assert(s =~= Seq::empty());
    } else {
        let before = s.drop_last();
        assert forall|i: int| 0 <= i < before.len() implies #[trigger] before[i] != '\n' by {
            assert(before[i] == s[i]);
        }
        lemma_one_piece(before);
        assert(s[s.len() - 1] != '\n');
        assert(before.push(s.last()) =~= s);
        assert(pieces_by_line(s) =~= seq![s]);
    }
}

proof fn lemma_pieces_apart(a: Seq<char>, b: Seq<char>)
    requires
        has_no_feed(a),
    ensures
        pieces_by_line(b).len() > 0,
        pieces_by_line(a.push('\n') + b) == seq![a] + pieces_by_line(b),
    decreases b.len(),
{
    let all = a.push('\n') + b;
    if b.len() == 0 {
        assert(all =~= a.push('\n'));
        assert(all.drop_last() =~= a);
        lemma_one_piece(a);
        assert(pieces_by_line(all) =~= seq![a] + pieces_by_line(b));
    } else {
        let shorter = b.drop_last();
        lemma_pieces_apart(a, shorter);
        assert(all.drop_last() =~= a.push('\n') + shorter);
        assert(all.last() == b.last());
        let back = pieces_by_line(shorter);
        assert((seq![a] + back).drop_last() =~= seq![a] + back.drop_last());
        assert((seq![a] + back).last() == back.last());
        assert(pieces_by_line(all) =~= seq![a] + pieces_by_line(b));
    }
}

/// A line feed ends a line: what stands before it is the first line, without the carriage return at
/// its end if it has one, and the rest has lines of its own.
pub proof fn line_feeds_end_lines(line: Seq<char>, rest: Seq<char>)
    requires
        has_no_feed(line),
    ensures
        line.len() > 0 && line.last() == '\r' ==> lines(line.push('\n') + rest) == seq![
            line.drop_last(),
        ] + lines(rest),
        !(line.len() > 0 && line.last() == '\r') ==> lines(line.push('\n') + rest) == seq![line]
            + lines(rest),
{
    lemma_pieces_apart(line, rest);
    let back = pieces_by_line(rest);
    let pieces = seq![line] + back;
    assert(pieces.last() == back.last());
    let first = if line.len() > 0 && line.last() == '\r' {
        line.drop_last()
    } else {
        line
    };
    assert(lines(line.push('\n') + rest) =~= seq![first] + lines(rest));
}

/// The last line needs no line feed; there is none behind the last line feed.
pub proof fn last_line_needs_no_feed(line: Seq<char>)
    requires
        has_no_feed(line),
    ensures
        lines(line) == if line.len() == 0 {
            Seq::empty()
        } else {
            seq![line]
        },
{
    lemma_one_piece(line);
    let none = Seq::<Seq<char>>::empty();
    assert(crate::sse::ended_lines(line) =~= none);
    assert(none.push(line) =~= seq![line]);
}

/// A line sets a field to a value: behind the name stand a colon and the value, with one blank
/// between them that does not count.
pub open spec fn sets(line: Seq<char>, name: Seq<char>, value: Seq<char>) -> bool {
    ||| line == name + seq![':', ' '] + value
    ||| line == name + seq![':'] + value && !(value.len() > 0 && value[0] == ' ')
}

/// The value of a field is the one that the line sets it to.
pub proof fn fields_have_their_values(line: Seq<char>, name: Seq<char>, value: Seq<char>)
    ensures
        field(line, name) == Some(value) <==> sets(line, name, value),
{
    reveal_strlit(": ");
    reveal_strlit(":");
    let n = name.len() as int;
    let long = name + ": "@;
    let short = name + ":"@;
    assert(": "@ =~= seq![':', ' ']);
    assert(":"@ =~= seq![':']);
    if sets(line, name, value) {
        if line == name + seq![':', ' '] + value {
            assert(line.subrange(0, n + 2) =~= long);
            assert(line.skip(n + 2) =~= value);
        } else {
            assert(line.subrange(0, n + 1) =~= short);
            assert(line.skip(n + 1) =~= value);
            if long.is_prefix_of(line) {
                assert(line.subrange(0, n + 2)[n + 1] == long[n + 1]);
                assert(line[n + 1] == ' ');
                assert(line[n + 1] == value[0]);
            }
        }
    }
    if field(line, name) == Some(value) {
        if long.is_prefix_of(line) {
            assert(line =~= name + seq![':', ' '] + value) by {
                assert(line =~= long + line.skip(n + 2));
            }
        } else {
            assert(line =~= short + line.skip(n + 1));
            assert(line =~= name + seq![':'] + value);
            if value.len() > 0 && value[0] == ' ' {
                assert(line.subrange(0, n + 2) =~= long);
            }
        }
    }
}

/// The values that some lines set a field to, in order.
pub open spec fn values_set(list: Seq<Seq<char>>, name: Seq<char>) -> Seq<Seq<char>>
    decreases list.len(),
{
    if list.len() == 0 {
        Seq::empty()
    } else {
        let before = values_set(list.drop_last(), name);
        if exists|value: Seq<char>| sets(list.last(), name, value) {
            before.push(choose|value: Seq<char>| sets(list.last(), name, value))
        } else {
            before
        }
    }
}

proof fn lemma_values_set(list: Seq<Seq<char>>, name: Seq<char>)
    ensures
        gather(list, |line: Seq<char>| field(line, name)) == values_set(list, name),
    decreases list.len(),
{
    if list.len() > 0 {
        let line = list.last();
        lemma_values_set(list.drop_last(), name);
        if let Some(value) = field(line, name) {
            fields_have_their_values(line, name, value);
        }
        if exists|value: Seq<char>| sets(line, name, value) {
            let value = choose|value: Seq<char>| sets(line, name, value);
            fields_have_their_values(line, name, value);
        }
    }
}

/// The values of a field of a block are those that its lines set it to, in order, and the last one of
/// them is its last value.
pub proof fn blocks_have_the_values_of_their_lines(block: Seq<char>, name: Seq<char>)
    ensures
        field_values(block, name) == values_set(lines(block), name),
        values_set(lines(block), name).len() == 0 ==> last_value(block, name) is None,
        values_set(lines(block), name).len() > 0 ==> last_value(block, name) == Some(
            values_set(lines(block), name).last(),
        ),
{
    lemma_values_set(lines(block), name);
}

/// A block is an event where the values of its data, one line for each, are JSON: the event has the
/// last name that the block tells, without white space at its ends, and this JSON.
pub proof fn blocks_are_events_with_their_data(block: Seq<char>)
    ensures
        ({
            let data = values_set(lines(block), "data"@);
            let read = parsed(put_together(data, seq!['\n']));
            let told = values_set(lines(block), "event"@);
            if data.len() == 0 || read is None {
                block_event(block) is None
            } else if told.len() == 0 {
                block_event(block) == Some((Seq::<char>::empty(), read->Some_0))
            } else {
                block_event(block) == Some((trim(told.last()), read->Some_0))
            }
        }),
{
    blocks_have_the_values_of_their_lines(block, "data"@);
    blocks_have_the_values_of_their_lines(block, "event"@);
    reveal_strlit("\n");
    reveal_strlit("");
    assert("\n"@ =~= seq!['\n']);
    joining_puts_together(field_values(block, "data"@), "\n"@);
    assert(trim(""@) =~= Seq::empty());
}

/// The marker that ends a stream is a block with the data `[DONE]` and without a name.
pub proof fn end_marker_is_read()
    ensures
        done_text() == unended(done_text()) + seq!['\n', '\n'],
        last_value(unended(done_text()), "data"@) == Some("[DONE]"@),
        last_value(unended(done_text()), "event"@) is None,
{
    reveal_strlit("data: [DONE]\n\n");
    reveal_strlit("[DONE]");
    reveal_strlit("data");
    reveal_strlit("event");
    let text = done_text();
    let line = unended(text);
    assert(text =~= line + seq!['\n', '\n']);
    assert(has_no_feed(line));
    last_line_needs_no_feed(line);
    assert(lines(line) == seq![line]);
    let list = seq![line];
    assert(list.drop_last() =~= Seq::empty());
    assert(sets(line, "data"@, "[DONE]"@)) by {
        assert(line =~= "data"@ + seq![':', ' '] + "[DONE]"@);
    }
    fields_have_their_values(line, "data"@, "[DONE]"@);
    if let Some(value) = field(line, "event"@) {
        fields_have_their_values(line, "event"@, value);
        assert(line[0] == 'd');
        assert("event"@[0] == 'e');
    }
    reveal_with_fuel(gather, 2);
    assert(gather(list, |l: Seq<char>| field(l, "data"@)) =~= seq!["[DONE]"@]);
    assert(gather(list, |l: Seq<char>| field(l, "event"@)) =~= Seq::empty());
}

/// An event goes over the wire as a block with its name and with its payload as compact JSON text;
/// the end of a stream goes over it as the marker of the end.
pub proof fn events_go_over_the_wire(event: EventV)
    ensures
        event is Done ==> event.wire() == "data: [DONE]\n\n"@,
        !(event is Done) ==> (compact_text(event.payload()) matches Some(text) ==> event.wire()
            == "event: "@ + event.name() + "\ndata: "@ + text + "\n\n"@),
        !(event is Done) && compact_text(event.payload()) is None ==> event.wire() == "event: "@
            + event.name() + "\ndata: "@
            + "{\"type\":\"response.failed\",\"response\":{\"error\":{\"message\":\"internal serialization error\"}}}"@
            + "\n\n"@,
{
}

} // verus!
