//! Server-sent events: cutting a stream of bytes into blocks, and reading the fields of a block.

use vstd::prelude::*;
use crate::json::{gather, Json, JsonV};
use crate::text::{chars_of, concat, string_of, texts};
use crate::value::{compact_or, one_line, parsed, plain};

verus! {

broadcast use crate::text::lemma_texts_push;

/// The length of the line break pair that stands at a place: an empty line ends a block, with line
/// feeds alone or with carriage returns before them. Zero where there is none.
pub open spec fn break_at(s: Seq<u8>, i: int) -> int {
    if i + 4 <= s.len() && s[i] == 13 && s[i + 1] == 10 && s[i + 2] == 13 && s[i + 3] == 10 {
        4
    } else if i + 2 <= s.len() && s[i] == 10 && s[i + 1] == 10 {
        2
    } else {
        0
    }
}

/// The first place from `i` on where a block ends; the length of the bytes where none ends.
pub open spec fn next_break(s: Seq<u8>, i: int) -> int
    decreases s.len() - i,
{
    if i >= s.len() {
        s.len() as int
    } else if break_at(s, i) > 0 {
        i
    } else {
        next_break(s, i + 1)
    }
}

/// Whether some bytes hold a complete block.
pub open spec fn has_block(s: Seq<u8>) -> bool {
    next_break(s, 0) < s.len()
}

/// The first complete block.
pub open spec fn first_block(s: Seq<u8>) -> Seq<u8> {
    s.take(next_break(s, 0))
}

/// What follows the first complete block.
pub open spec fn behind_block(s: Seq<u8>) -> Seq<u8> {
    let at = next_break(s, 0);
    s.skip(at + break_at(s, at))
}

/// The first place where a block ends is the first one with a break, and the break fits.
pub proof fn lemma_next_break(s: Seq<u8>, i: int)
    requires
        0 <= i <= s.len(),
    ensures
        i <= next_break(s, i) <= s.len(),
        next_break(s, i) < s.len() ==> {
            let at = next_break(s, i);
            break_at(s, at) > 0 && at + break_at(s, at) <= s.len()
        },
        forall|j: int| i <= j < next_break(s, i) ==> #[trigger] break_at(s, j) == 0,
    decreases s.len() - i,
{
    if i < s.len() && break_at(s, i) == 0 {
        lemma_next_break(s, i + 1);
    }
}

/// The complete blocks in some bytes.
pub open spec fn blocks(s: Seq<u8>) -> Seq<Seq<u8>>
    decreases s.len(),
{
    if has_block(s) {
        proof {
            lemma_next_break(s, 0);
        }
        seq![first_block(s)] + blocks(behind_block(s))
    } else {
        Seq::empty()
    }
}

/// What is left of some bytes behind the last complete block.
pub open spec fn leftover(s: Seq<u8>) -> Seq<u8>
    decreases s.len(),
{
    if has_block(s) {
        proof {
            lemma_next_break(s, 0);
        }
        leftover(behind_block(s))
    } else {
        s
    }
}

proof fn lemma_break_found(s: Seq<u8>, i: int, at: int)
    requires
        0 <= i <= at < s.len(),
        break_at(s, at) > 0,
        forall|j: int| i <= j < at ==> #[trigger] break_at(s, j) == 0,
    ensures
        next_break(s, i) == at,
    decreases at - i,
{
    if i < at {
        assert(break_at(s, i) == 0);
        lemma_break_found(s, i + 1, at);
    }
}

/// More bytes leave the first complete block as it is.
pub proof fn lemma_first_block_stays(a: Seq<u8>, b: Seq<u8>)
    requires
        has_block(a),
    ensures
        has_block(a + b),
        first_block(a + b) == first_block(a),
        behind_block(a + b) == behind_block(a) + b,
{
    let s = a + b;
    let at = next_break(a, 0);
    lemma_next_break(a, 0);
    let len = break_at(a, at);
    assert(break_at(s, at) == len);
    assert forall|j: int| 0 <= j < at implies #[trigger] break_at(s, j) == 0 by {
        assert(break_at(a, j) == 0);
        if break_at(s, j) == 4 && j + 4 > a.len() {
            assert(s[j + 2] == a[at + 1]);
        }
    }
    lemma_break_found(s, 0, at);
    assert(first_block(s) =~= first_block(a));
    assert(behind_block(s) =~= behind_block(a) + b);
}

/// Where a stream of bytes is cut into chunks makes no difference: the blocks of the whole are
/// those of the first part, followed by those of what it leaves over together with the second part.
pub proof fn lemma_blocks_of_parts(a: Seq<u8>, b: Seq<u8>)
    ensures
        blocks(a + b) == blocks(a) + blocks(leftover(a) + b),
        leftover(a + b) == leftover(leftover(a) + b),
    decreases a.len(),
{
    if has_block(a) {
        lemma_next_break(a, 0);
        lemma_first_block_stays(a, b);
        lemma_blocks_of_parts(behind_block(a), b);
        assert(blocks(a + b) =~= blocks(a) + blocks(leftover(a) + b));
    } else {
        assert(blocks(a + b) =~= blocks(a) + blocks(leftover(a) + b));
    }
}

/// The text that some bytes stand for, as `String::from_utf8_lossy` reads them.
pub uninterp spec fn lossy_text(bytes: Seq<u8>) -> Seq<char>;

/// `String::from_utf8_lossy`: what the text is depends on the bytes alone, and for valid UTF-8 it
/// is the text that the bytes encode. How invalid sequences are replaced is left unsaid.
#[verifier::external_body]
fn decode_lossy(bytes: &[u8]) -> (r: String)
    ensures
        r@ == lossy_text(bytes@),
        vstd::utf8::valid_utf8(bytes@) ==> r@ == vstd::utf8::decode_utf8(bytes@),
{
    String::from_utf8_lossy(bytes).into_owned()
}

/// Whether some bytes, where they are valid UTF-8, are read as the text that they encode.
pub open spec fn is_read_as_utf8(bytes: Seq<u8>) -> bool {
    vstd::utf8::valid_utf8(bytes) ==> lossy_text(bytes) == vstd::utf8::decode_utf8(bytes)
}

/// Takes the first complete block out of a buffer, and the line breaks that end it with it. A block
/// of valid UTF-8 is the text that its bytes encode.
pub fn take_sse_block(buffer: &mut Vec<u8>) -> (r: Option<String>)
    ensures
        match r {
            Some(block) => {
                &&& has_block(old(buffer)@)
                &&& block@ == lossy_text(first_block(old(buffer)@))
                &&& is_read_as_utf8(first_block(old(buffer)@))
                &&& final(buffer)@ == behind_block(old(buffer)@)
            },
            None => !has_block(old(buffer)@) && final(buffer)@ == old(buffer)@,
        },
{
    let ghost s = buffer@;
    let mut i: usize = 0;
    while i < buffer.len()
        invariant
            i <= buffer@.len(),
            buffer@ == s,
            s == old(buffer)@,
            forall|j: int| 0 <= j < i ==> #[trigger] break_at(s, j) == 0,
        decreases buffer@.len() - i,
    {
        let left = buffer.len() - i;
        let len: usize = if left >= 4 && buffer[i] == 13 && buffer[i + 1] == 10 && buffer[i + 2]
            == 13 && buffer[i + 3] == 10 {
            4
        } else if left >= 2 && buffer[i] == 10 && buffer[i + 1] == 10 {
            2
        } else {
            0
        };
        assert(len == break_at(s, i as int));
        if len > 0 {
            proof {
                lemma_break_found(s, 0, i as int);
            }
            let rest = buffer.split_off(i + len);
            let block = decode_lossy(vstd::slice::slice_subrange(buffer.as_slice(), 0, i));
            assert(s.take(i + len).subrange(0, i as int) =~= first_block(s));
            *buffer = rest;
            assert(buffer@ =~= behind_block(s));
            return Some(block);
        }
        i += 1;
    }
    proof {
        lemma_next_break(s, 0);
        if has_block(s) {
            assert(break_at(s, next_break(s, 0)) == 0);
        }
    }
    None
}

/// The pieces of a text between its line feeds.
pub open spec fn pieces_by_line(s: Seq<char>) -> Seq<Seq<char>>
    decreases s.len(),
{
    if s.len() == 0 {
        seq![Seq::empty()]
    } else {
        let before = pieces_by_line(s.drop_last());
        if s.last() == '\n' {
            before.push(Seq::empty())
        } else {
            before.drop_last().push(before.last().push(s.last()))
        }
    }
}

/// A line without the carriage return at its end.
pub open spec fn chomp(line: Seq<char>) -> Seq<char> {
    if line.len() > 0 && line.last() == '\r' {
        line.drop_last()
    } else {
        line
    }
}

/// The lines that end with a line feed, without their ends.
pub open spec fn ended_lines(s: Seq<char>) -> Seq<Seq<char>> {
    let pieces = pieces_by_line(s);
    Seq::new((pieces.len() - 1) as nat, |i: int| chomp(pieces[i]))
}

/// The lines of a text; the last one needs no line feed.
pub open spec fn lines(s: Seq<char>) -> Seq<Seq<char>> {
    let last = pieces_by_line(s).last();
    if last.len() > 0 {
        ended_lines(s).push(last)
    } else {
        ended_lines(s)
    }
}

/// The value of a field, where a line sets it: what follows the colon and at most one blank.
pub open spec fn field(line: Seq<char>, name: Seq<char>) -> Option<Seq<char>> {
    if (name + ": "@).is_prefix_of(line) {
        Some(line.skip(name.len() as int + 2))
    } else if (name + ":"@).is_prefix_of(line) {
        Some(line.skip(name.len() as int + 1))
    } else {
        None
    }
}

/// The values of a field, in order.
pub open spec fn field_values(block: Seq<char>, name: Seq<char>) -> Seq<Seq<char>> {
    gather(lines(block), |line: Seq<char>| field(line, name))
}

/// The last value of a field, where the block sets it.
pub open spec fn last_value(block: Seq<char>, name: Seq<char>) -> Option<Seq<char>> {
    let values = field_values(block, name);
    if values.len() > 0 {
        Some(values.last())
    } else {
        None
    }
}

fn chomped(line: &Vec<char>) -> (r: String)
    ensures
        r@ == chomp(line@),
{
    let n = line.len();
    if n > 0 && line[n - 1] == '\r' {
        assert(line@.subrange(0, n - 1) =~= line@.drop_last());
        string_of(line, 0, n - 1)
    } else {
        assert(line@.subrange(0, n as int) =~= line@);
        string_of(line, 0, n)
    }
}

/// The lines of a text.
pub fn lines_of(text: &str) -> (r: Vec<String>)
    ensures
        texts(r@) == lines(text@),
{
    let chars = chars_of(text);
    let mut out: Vec<String> = Vec::new();
    let mut current: Vec<char> = Vec::new();
    let mut i: usize = 0;
    assert(chars@.take(0) =~= Seq::empty());
    assert(texts(out@) =~= ended_lines(chars@.take(0)));
    while i < chars.len()
        invariant
            i <= chars@.len(),
            pieces_by_line(chars@.take(i as int)).len() > 0,
            current@ == pieces_by_line(chars@.take(i as int)).last(),
            texts(out@) == ended_lines(chars@.take(i as int)),
        decreases chars@.len() - i,
    {
        let ghost before = pieces_by_line(chars@.take(i as int));
        let c = chars[i];
        assert(chars@.take(i + 1).drop_last() =~= chars@.take(i as int));
        if c == '\n' {
            out.push(chomped(&current));
            current = Vec::new();
        } else {
            current.push(c);
        }
        i += 1;
        assert(current@ =~= pieces_by_line(chars@.take(i as int)).last());
        assert(texts(out@) =~= ended_lines(chars@.take(i as int)));
    }
    assert(chars@.take(i as int) =~= chars@);
    if current.len() > 0 {
        assert(current@.subrange(0, current@.len() as int) =~= current@);
        out.push(string_of(&current, 0, current.len()));
    }
    out
}

/// Whether a text starts with another one.
fn starts_with(s: &Vec<char>, prefix: &Vec<char>) -> (r: bool)
    ensures
        r == prefix@.is_prefix_of(s@),
{
    if prefix.len() > s.len() {
        return false;
    }
    let mut i: usize = 0;
    while i < prefix.len()
        invariant
            i <= prefix@.len() <= s@.len(),
            forall|j: int| 0 <= j < i ==> s@[j] == prefix@[j],
        decreases prefix@.len() - i,
    {
        if s[i] != prefix[i] {
            return false;
        }
        i += 1;
    }
    assert(prefix@ =~= s@.subrange(0, prefix@.len() as int));
    true
}

/// The value of a field, where a line sets it.
pub fn strip_sse_field(line: &str, name: &str) -> (r: Option<String>)
    ensures
        match r {
            Some(value) => field(line@, name@) == Some(value@),
            None => field(line@, name@) is None,
        },
{
    let chars = chars_of(line);
    let spaced = chars_of(concat(name, ": ").as_str());
    let plain = chars_of(concat(name, ":").as_str());
    proof {
        reveal_strlit(": ");
        reveal_strlit(":");
    }
    if starts_with(&chars, &spaced) {
        let value = string_of(&chars, spaced.len(), chars.len());
        assert(value@ =~= line@.skip(name@.len() as int + 2));
        Some(value)
    } else if starts_with(&chars, &plain) {
        let value = string_of(&chars, plain.len(), chars.len());
        assert(value@ =~= line@.skip(name@.len() as int + 1));
        Some(value)
    } else {
        None
    }
}

/// The values that a block sets a field to, in order.
pub fn sse_field_values(block: &str, name: &str) -> (r: Vec<String>)
    ensures
        texts(r@) == field_values(block@, name@),
{
    let list = lines_of(block);
    let ghost all = lines(block@);
    let mut out: Vec<String> = Vec::new();
    let mut i: usize = 0;
    assert(texts(out@) =~= gather(all.take(0), |line: Seq<char>| field(line, name@)));
    while i < list.len()
        invariant
            i <= list@.len(),
            all == texts(list@),
            texts(out@) == gather(all.take(i as int), |line: Seq<char>| field(line, name@)),
        decreases list@.len() - i,
    {
        proof {
            crate::json::lemma_gather_next(all, i as int, |line: Seq<char>| field(line, name@));
        }
        if let Some(value) = strip_sse_field(list[i].as_str(), name) {
            out.push(value);
        }
        i += 1;
    }
    assert(all.take(i as int) =~= all);
    out
}

/// The last value that a block sets a field to.
pub fn last_sse_value(block: &str, name: &str) -> (r: Option<String>)
    ensures
        match r {
            Some(value) => last_value(block@, name@) == Some(value@),
            None => last_value(block@, name@) is None,
        },
{
    let mut values = sse_field_values(block, name);
    assert(values@.len() == field_values(block@, name@).len());
    values.pop()
}

/// The payload that stands in for one that cannot be printed.
pub open spec fn unprintable_payload() -> Seq<char> {
    "{\"type\":\"response.failed\",\"response\":{\"error\":{\"message\":\"internal serialization error\"}}}"@
}

/// A block with a name and data.
pub open spec fn framed(name: Seq<char>, data: Seq<char>) -> Seq<char> {
    "event: "@ + name + "\ndata: "@ + data + "\n\n"@
}

/// An event on the wire.
pub open spec fn event_text(name: Seq<char>, payload: JsonV) -> Seq<char> {
    framed(name, compact_or(payload, unprintable_payload()))
}

/// The marker that ends a stream, on the wire.
pub open spec fn done_text() -> Seq<char> {
    "data: [DONE]\n\n"@
}

proof fn lemma_pieces_append(s: Seq<char>, t: Seq<char>)
    requires
        one_line(t),
    ensures
        pieces_by_line(s).len() > 0,
        pieces_by_line(s + t) == pieces_by_line(s).drop_last().push(pieces_by_line(s).last() + t),
    decreases t.len(),
{
    lemma_pieces_some(s);
    let before = pieces_by_line(s);
    if t.len() == 0 {
        assert(s + t =~= s);
        assert(before.last() + t =~= before.last());
        assert(before.drop_last().push(before.last()) =~= before);
    } else {
        let shorter = t.drop_last();
        assert(one_line(shorter)) by {
            assert forall|i: int| 0 <= i < shorter.len() implies #[trigger] shorter[i] != '\n'
                && shorter[i] != '\r' by {
                assert(t[i] == shorter[i]);
            }
        }
        lemma_pieces_append(s, shorter);
        assert((s + t).drop_last() =~= s + shorter);
        assert((s + t).last() == t[t.len() - 1]);
        let middle = pieces_by_line(s + shorter);
        assert(middle.drop_last() =~= before.drop_last());
        assert(middle.last().push(t.last()) =~= before.last() + t);
    }
}

proof fn lemma_pieces_some(s: Seq<char>)
    ensures
        pieces_by_line(s).len() > 0,
    decreases s.len(),
{
    if s.len() > 0 {
        lemma_pieces_some(s.drop_last());
    }
}

proof fn lemma_two_lines(a: Seq<char>, b: Seq<char>)
    requires
        one_line(a),
        one_line(b),
        b.len() > 0,
    ensures
        lines(a + seq!['\n'] + b) == seq![a, b],
{
    let none = Seq::<char>::empty();
    lemma_pieces_append(none, a);
    assert(none + a =~= a);
    assert(pieces_by_line(a) =~= seq![a]);
    let ended = a + seq!['\n'];
    assert(ended.drop_last() =~= a);
    assert(pieces_by_line(ended) =~= seq![a, none]);
    lemma_pieces_append(ended, b);
    let pieces = pieces_by_line(ended + b);
    assert(none + b =~= b);
    assert(pieces =~= seq![a, b]);
    assert(chomp(a) == a) by {
        if a.len() > 0 {
            assert(a[a.len() - 1] != '\r');
        }
    }
    assert(lines(ended + b) =~= seq![a, b]);
}

/// A block without the line breaks that end it.
pub open spec fn unended(text: Seq<char>) -> Seq<char> {
    text.take(text.len() - 2)
}

/// What is framed is read: the block has the name and the data, and no other.
pub proof fn framed_block_is_read(name: Seq<char>, data: Seq<char>)
    requires
        one_line(name),
        one_line(data),
    ensures
        last_value(unended(framed(name, data)), "event"@) == Some(name),
        field_values(unended(framed(name, data)), "data"@) == seq![data],
{
    reveal_strlit("event: ");
    reveal_strlit("\ndata: ");
    reveal_strlit("\n\n");
    reveal_strlit("event");
    reveal_strlit("data");
    reveal_strlit(": ");
    reveal_strlit(":");
    let a = "event: "@ + name;
    let b = "data"@ + ": "@ + data;
    assert(one_line(a)) by {
        assert forall|i: int| 0 <= i < a.len() implies #[trigger] a[i] != '\n' && a[i] != '\r' by {
            if i >= 7 {
                assert(a[i] == name[i - 7]);
            }
        }
    }
    assert(one_line(b)) by {
        assert forall|i: int| 0 <= i < b.len() implies #[trigger] b[i] != '\n' && b[i] != '\r' by {
            if i >= 6 {
                assert(b[i] == data[i - 6]);
            }
        }
    }
    lemma_two_lines(a, b);
    let block = unended(framed(name, data));
    assert(block =~= a + seq!['\n'] + b);
    let list = seq![a, b];
    let one = seq![a];
    assert(list.drop_last() =~= one);
    assert(one.drop_last() =~= Seq::empty());
    assert(("event"@ + ": "@).is_prefix_of(a)) by {
        assert(a.subrange(0, 7) =~= "event"@ + ": "@);
    }
    assert(a.skip(7) =~= name);
    assert(field(a, "event"@) == Some(name));
    assert(b[0] == 'd');
    assert(!("event"@ + ": "@).is_prefix_of(b)) by {
        assert(("event"@ + ": "@)[0] == 'e');
        if ("event"@ + ": "@).is_prefix_of(b) {
            assert(b.subrange(0, 7)[0] == b[0]);
        }
    }
    assert(!("event"@ + ":"@).is_prefix_of(b)) by {
        assert(("event"@ + ":"@)[0] == 'e');
        if ("event"@ + ":"@).is_prefix_of(b) {
            assert(b.subrange(0, 6)[0] == b[0]);
        }
    }
    assert(field(b, "event"@) is None);
    assert(("data"@ + ": "@).is_prefix_of(b)) by {
        assert(b.subrange(0, 6) =~= "data"@ + ": "@);
    }
    assert(b.skip(6) =~= data);
    assert(field(b, "data"@) == Some(data));
    assert(a[0] == 'e');
    assert(!("data"@ + ": "@).is_prefix_of(a)) by {
        assert(("data"@ + ": "@)[0] == 'd');
        if ("data"@ + ": "@).is_prefix_of(a) {
            assert(a.subrange(0, 6)[0] == a[0]);
        }
    }
    assert(!("data"@ + ":"@).is_prefix_of(a)) by {
        assert(("data"@ + ":"@)[0] == 'd');
        if ("data"@ + ":"@).is_prefix_of(a) {
            assert(a.subrange(0, 5)[0] == a[0]);
        }
    }
    assert(field(a, "data"@) is None);
    reveal_with_fuel(gather, 3);
    assert(gather(list, |line: Seq<char>| field(line, "event"@)) =~= seq![name]);
    assert(gather(list, |line: Seq<char>| field(line, "data"@)) =~= seq![data]);
}

/// A block on the wire carries an event: whoever reads it gets the name and the payload.
pub open spec fn carries(text: Seq<char>, name: Seq<char>, payload: JsonV) -> bool {
    &&& last_value(unended(text), "event"@) == Some(name)
    &&& field_values(unended(text), "data"@).len() == 1
    &&& parsed(field_values(unended(text), "data"@)[0]) == Some(payload)
}

/// Writes a block with a name and data.
pub fn frame_event(name: &str, data: &str) -> (r: String)
    ensures
        r@ == framed(name@, data@),
{
    let head = concat(concat("event: ", name).as_str(), "\ndata: ");
    concat(concat(head.as_str(), data).as_str(), "\n\n")
}

/// Writes an event.
pub fn sse_event(event_name: &str, payload: &Json) -> (r: String)
    ensures
        r@ == event_text(event_name@, payload@),
        one_line(event_name@) && plain(payload@, 127) ==> carries(r@, event_name@, payload@),
{
    let json_payload = payload.compact_or(
        "{\"type\":\"response.failed\",\"response\":{\"error\":{\"message\":\"internal serialization error\"}}}",
    );
    proof {
        if one_line(event_name@) && plain(payload@, 127) {
            framed_block_is_read(event_name@, json_payload@);
        }
    }
    frame_event(event_name, json_payload.as_str())
}

} // verus!
