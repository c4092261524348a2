//! The chunks of a Chat Completions stream on the wire.

use vstd::prelude::*;
use vstd::string::StringExecFns;
use crate::responses_event::{CallV, ToolCallBuffer};
use crate::text::{chars_of, decimal, decimal_text};

verus! {

/// A character inside of a JSON string that is written by hand.
pub open spec fn escaped_char(c: char) -> Seq<char> {
    if c == '\\' {
        seq!['\\', '\\']
    } else if c == '"' {
        seq!['\\', '"']
    } else if c == '\n' {
        seq!['\\', 'n']
    } else if c == '\r' {
        seq!['\\', 'r']
    } else if c == '\t' {
        seq!['\\', 't']
    } else {
        seq![c]
    }
}

/// A text inside of a JSON string that is written by hand.
pub open spec fn escaped(s: Seq<char>) -> Seq<char>
    decreases s.len(),
{
    if s.len() == 0 {
        Seq::empty()
    } else {
        escaped(s.drop_last()) + escaped_char(s.last())
    }
}

/// A character of a name inside of a JSON string: carriage returns and tabs stay.
pub open spec fn escaped_name_char(c: char) -> Seq<char> {
    if c == '\r' || c == '\t' {
        seq![c]
    } else {
        escaped_char(c)
    }
}

/// A name inside of a JSON string.
pub open spec fn escaped_name(s: Seq<char>) -> Seq<char>
    decreases s.len(),
{
    if s.len() == 0 {
        Seq::empty()
    } else {
        escaped_name(s.drop_last()) + escaped_name_char(s.last())
    }
}

/// What all chunks of a stream have in common.
pub struct Heading {
    pub id: Seq<char>,
    pub created: u64,
    pub model: Seq<char>,
}

/// A chunk with one choice.
pub open spec fn chunk_text(
    heading: Heading,
    index: u32,
    delta: Seq<char>,
    finish_reason: Seq<char>,
) -> Seq<char> {
    "data: {\"id\":\"chatcmpl-"@ + heading.id
        + "\",\"object\":\"chat.completion.chunk\",\"created\":"@ + decimal(heading.created as nat)
        + ",\"model\":\""@ + heading.model + "\",\"choices\":[{\"index\":"@ + decimal(index as nat)
        + ",\"delta\":{"@ + delta + "},\"finish_reason\":"@ + finish_reason + "}]}\n\n"@
}

/// The chunk that opens a stream.
pub open spec fn opening_chunk(heading: Heading) -> Seq<char> {
    chunk_text(heading, 0, ""@, "null"@)
}

/// A chunk with some text.
pub open spec fn text_chunk(heading: Heading, text: Seq<char>) -> Seq<char> {
    chunk_text(heading, 0, "\"content\":\""@ + escaped(text) + "\""@, "null"@)
}

/// A chunk with a call.
pub open spec fn call_chunk(heading: Heading, call: CallV) -> Seq<char> {
    chunk_text(
        heading,
        call.index,
        "\"role\":\"assistant\",\"tool_calls\":[{\"index\":"@ + decimal(call.index as nat)
            + ",\"id\":\"tool_"@ + call.id + "\",\"type\":\"function\",\"function\":{\"name\":\""@
            + escaped_name(call.name) + "\",\"arguments\":\""@ + escaped(call.arguments) + "\"}}]"@,
        "null"@,
    )
}

/// A chunk with the output of a call.
pub open spec fn output_chunk(
    heading: Heading,
    index: u32,
    call_id: Seq<char>,
    output: Seq<char>,
) -> Seq<char> {
    chunk_text(
        heading,
        index,
        "\"role\":\"tool\",\"tool_call_id\":\""@ + call_id + "\",\"content\":\""@ + escaped(output)
            + "\""@,
        "null"@,
    )
}

/// The chunk that gives the reason to finish.
pub open spec fn finish_chunk(heading: Heading, reason: Seq<char>) -> Seq<char> {
    chunk_text(heading, 0, ""@, "\""@ + reason + "\""@)
}

/// Appends an escaped text.
fn append_escaped(out: &mut String, text: &str, is_name: bool)
    ensures
        final(out)@ == old(out)@ + if is_name {
            escaped_name(text@)
        } else {
            escaped(text@)
        },
{
    let chars = chars_of(text);
    let ghost before = out@;
    let mut i: usize = 0;
    assert(chars@.take(0) =~= Seq::empty());
    assert(before =~= before + Seq::empty());
    while i < chars.len()
        invariant
            i <= chars@.len(),
            out@ == before + if is_name {
                escaped_name(chars@.take(i as int))
            } else {
                escaped(chars@.take(i as int))
            },
        decreases chars@.len() - i,
    {
        let c = chars[i];
        let ghost here = out@;
        assert(chars@.take(i + 1).drop_last() =~= chars@.take(i as int));
        if c == '\\' {
            out.push('\\');
            out.push('\\');
        } else if c == '"' {
            out.push('\\');
            out.push('"');
        } else if c == '\n' {
            out.push('\\');
            out.push('n');
        } else if c == '\r' && !is_name {
            out.push('\\');
            out.push('r');
        } else if c == '\t' && !is_name {
            out.push('\\');
            out.push('t');
        } else {
            out.push(c);
        }
        proof {
            let piece = if is_name {
                escaped_name_char(c)
            } else {
                escaped_char(c)
            };
            assert(out@ =~= here + piece);
        }
        i += 1;
        assert(out@ =~= before + if is_name {
            escaped_name(chars@.take(i as int))
        } else {
            escaped(chars@.take(i as int))
        });
    }
    assert(chars@.take(i as int) =~= chars@);
}

/// What all chunks of a stream have in common.
pub struct ChunkHeading {
    pub id: String,
    pub created: u64,
    pub model: String,
}

impl View for ChunkHeading {
    type V = Heading;

    open spec fn view(&self) -> Heading {
        Heading { id: self.id@, created: self.created, model: self.model@ }
    }
}

impl ChunkHeading {
    fn chunk(&self, index: u32, delta: &str, finish_reason: &str) -> (r: String)
        ensures
            r@ == chunk_text(self@, index, delta@, finish_reason@),
    {
        let mut out = "data: {\"id\":\"chatcmpl-".to_owned();
        out.append(self.id.as_str());
        out.append("\",\"object\":\"chat.completion.chunk\",\"created\":");
        out.append(decimal_text(self.created).as_str());
        out.append(",\"model\":\"");
        out.append(self.model.as_str());
        out.append("\",\"choices\":[{\"index\":");
        out.append(decimal_text(index as u64).as_str());
        out.append(",\"delta\":{");
        out.append(delta);
        out.append("},\"finish_reason\":");
        out.append(finish_reason);
        out.append("}]}\n\n");
        out
    }

    /// The chunk that opens a stream.
    pub fn opening(&self) -> (r: String)
        ensures
            r@ == opening_chunk(self@),
    {
        self.chunk(0, "", "null")
    }

    /// A chunk with some text.
    pub fn text(&self, text: &str) -> (r: String)
        ensures
            r@ == text_chunk(self@, text@),
    {
        let mut delta = "\"content\":\"".to_owned();
        append_escaped(&mut delta, text, false);
        delta.append("\"");
        self.chunk(0, delta.as_str(), "null")
    }

    /// A chunk with a call.
    pub fn call(&self, call: &ToolCallBuffer) -> (r: String)
        ensures
            r@ == call_chunk(self@, call@),
    {
        let mut delta = "\"role\":\"assistant\",\"tool_calls\":[{\"index\":".to_owned();
        delta.append(decimal_text(call.index as u64).as_str());
        delta.append(",\"id\":\"tool_");
        delta.append(call.id.as_str());
        delta.append("\",\"type\":\"function\",\"function\":{\"name\":\"");
        append_escaped(&mut delta, call.name.as_str(), true);
        delta.append("\",\"arguments\":\"");
        append_escaped(&mut delta, call.arguments.as_str(), false);
        delta.append("\"}}]");
        self.chunk(call.index, delta.as_str(), "null")
    }

    /// A chunk with the output of a call.
    pub fn output(&self, index: u32, call_id: &str, output: &str) -> (r: String)
        ensures
            r@ == output_chunk(self@, index, call_id@, output@),
    {
        let mut delta = "\"role\":\"tool\",\"tool_call_id\":\"".to_owned();
        delta.append(call_id);
        delta.append("\",\"content\":\"");
        append_escaped(&mut delta, output, false);
        delta.append("\"");
        self.chunk(index, delta.as_str(), "null")
    }

    /// The chunk that gives the reason to finish.
    pub fn finish(&self, reason: &str) -> (r: String)
        ensures
            r@ == finish_chunk(self@, reason@),
    {
        let mut quoted = "\"".to_owned();
        quoted.append(reason);
        quoted.append("\"");
        self.chunk(0, "", quoted.as_str())
    }
}

/// The text that an escaped text stands for.
pub open spec fn unescaped(s: Seq<char>) -> Seq<char>
    decreases s.len(),
{
    if s.len() == 0 {
        Seq::empty()
    } else if s[0] == '\\' && s.len() > 1 {
        let c = if s[1] == 'n' {
            '\n'
        } else if s[1] == 'r' {
            '\r'
        } else if s[1] == 't' {
            '\t'
        } else {
            s[1]
        };
        seq![c] + unescaped(s.skip(2))
    } else {
        seq![s[0]] + unescaped(s.skip(1))
    }
}

proof fn lemma_escaped_front(s: Seq<char>)
    requires
        s.len() > 0,
    ensures
        escaped(s) == escaped_char(s[0]) + escaped(s.skip(1)),
    decreases s.len(),
{
    if s.len() == 1 {
        assert(s.drop_last() =~= Seq::empty());
        assert(s.skip(1) =~= Seq::empty());
        assert(escaped(s) =~= escaped_char(s[0]) + escaped(s.skip(1)));
    } else {
        lemma_escaped_front(s.drop_last());
        assert(s.drop_last().skip(1) =~= s.skip(1).drop_last());
        assert(escaped(s) =~= escaped_char(s[0]) + escaped(s.skip(1)));
    }
}

/// Escaping loses nothing: every text can be had back.
pub proof fn escaping_can_be_undone(s: Seq<char>)
    ensures
        unescaped(escaped(s)) == s,
    decreases s.len(),
{
    if s.len() > 0 {
        let rest = escaped(s.skip(1));
        let piece = escaped_char(s[0]);
        lemma_escaped_front(s);
        escaping_can_be_undone(s.skip(1));
        assert((piece + rest).skip(piece.len() as int) =~= rest);
        assert(seq![s[0]] + s.skip(1) =~= s);
    }
}

/// An escaped text holds no line break and no tab, and every quotation mark in it has a backslash
/// before it.
pub proof fn escaped_text_stays_inside(s: Seq<char>)
    ensures
        forall|i: int|
            0 <= i < escaped(s).len() ==> {
                let c = #[trigger] escaped(s)[i];
                &&& c != '\n' && c != '\r' && c != '\t'
                &&& c == '"' ==> i > 0 && escaped(s)[i - 1] == '\\'
            },
    decreases s.len(),
{
    if s.len() > 0 {
        let front = escaped(s.drop_last());
        let piece = escaped_char(s.last());
        escaped_text_stays_inside(s.drop_last());
        assert forall|i: int| 0 <= i < escaped(s).len() implies {
            let c = #[trigger] escaped(s)[i];
            &&& c != '\n' && c != '\r' && c != '\t'
            &&& c == '"' ==> i > 0 && escaped(s)[i - 1] == '\\'
        } by {
            if i < front.len() {
                assert(escaped(s)[i] == front[i]);
            } else {
                assert(escaped(s)[i] == piece[i - front.len()]);
            }
        }
    }
}

/// A text on one line.
pub open spec fn is_one_line(s: Seq<char>) -> bool {
    forall|i: int| 0 <= i < s.len() ==> #[trigger] s[i] != '\n' && s[i] != '\r'
}

proof fn lemma_one_line(a: Seq<char>, b: Seq<char>)
    requires
        is_one_line(a),
        is_one_line(b),
    ensures
        is_one_line(a + b),
{
}

proof fn lemma_decimal_one_line(n: nat)
    ensures
        is_one_line(decimal(n)),
    decreases n,
{
    if n >= 10 {
        lemma_decimal_one_line(n / 10);
    }
}

proof fn lemma_escaped_one_line(s: Seq<char>)
    ensures
        is_one_line(escaped(s)),
        (forall|i: int| 0 <= i < s.len() ==> #[trigger] s[i] != '\r') ==> is_one_line(
            escaped_name(s),
        ),
    decreases s.len(),
{
    if s.len() > 0 {
        let shorter = s.drop_last();
        lemma_escaped_one_line(shorter);
        lemma_one_line(escaped(shorter), escaped_char(s.last()));
        if forall|i: int| 0 <= i < s.len() ==> #[trigger] s[i] != '\r' {
            assert forall|i: int| 0 <= i < shorter.len() implies #[trigger] shorter[i] != '\r' by {
                assert(s[i] != '\r');
            }
            assert(s[s.len() - 1] != '\r');
            lemma_one_line(escaped_name(shorter), escaped_name_char(s.last()));
        }
    }
}

/// A chunk that is one event on the wire: one line of data, and an empty line behind it.
pub open spec fn is_one_event(chunk: Seq<char>) -> bool {
    let n = chunk.len() as int;
    &&& n >= 8
    &&& chunk.take(6) == "data: "@
    &&& chunk.skip(n - 2) == "\n\n"@
    &&& is_one_line(chunk.take(n - 2))
}

proof fn lemma_one_event(h: Heading, index: u32, delta: Seq<char>, why: Seq<char>)
    requires
        is_one_line(h.id),
        is_one_line(h.model),
        is_one_line(delta),
        is_one_line(why),
    ensures
        is_one_event(chunk_text(h, index, delta, why)),
{
    reveal_strlit("data: ");
    reveal_strlit("\n\n");
    reveal_strlit("data: {\"id\":\"chatcmpl-");
    reveal_strlit("\",\"object\":\"chat.completion.chunk\",\"created\":");
    reveal_strlit(",\"model\":\"");
    reveal_strlit("\",\"choices\":[{\"index\":");
    reveal_strlit(",\"delta\":{");
    reveal_strlit("},\"finish_reason\":");
    reveal_strlit("}]}\n\n");
    lemma_decimal_one_line(h.created as nat);
    lemma_decimal_one_line(index as nat);
    let a = "data: {\"id\":\"chatcmpl-"@ + h.id;
    let b = a + "\",\"object\":\"chat.completion.chunk\",\"created\":"@ + decimal(
        h.created as nat,
    );
    let c = b + ",\"model\":\""@ + h.model;
    let d = c + "\",\"choices\":[{\"index\":"@ + decimal(index as nat);
    let e = d + ",\"delta\":{"@ + delta;
    let f = e + "},\"finish_reason\":"@ + why;
    assert(is_one_line(a));
    assert(is_one_line(b));
    assert(is_one_line(c));
    assert(is_one_line(d));
    assert(is_one_line(e));
    assert(is_one_line(f));
    let chunk = chunk_text(h, index, delta, why);
    let n = chunk.len() as int;
    assert(chunk == f + "}]}\n\n"@);
    assert(chunk.take(n - 2) =~= f + seq!['}', ']', '}']);
    assert(chunk.skip(n - 2) =~= "\n\n"@);
    assert(chunk.take(6) =~= "data: "@);
}

/// Each chunk is one event on the wire, whatever line breaks stand in its text, its arguments or its
/// output, as long as the identifiers, the model and the reason to finish are on one line and the
/// name of a function has no carriage return.
pub proof fn chunks_are_single_events(
    h: Heading,
    text: Seq<char>,
    call: CallV,
    call_id: Seq<char>,
    output: Seq<char>,
    index: u32,
    why: Seq<char>,
)
    requires
        is_one_line(h.id),
        is_one_line(h.model),
        is_one_line(call.id),
        is_one_line(call_id),
        is_one_line(why),
        forall|i: int| 0 <= i < call.name.len() ==> #[trigger] call.name[i] != '\r',
    ensures
        is_one_event(opening_chunk(h)),
        is_one_event(text_chunk(h, text)),
        is_one_event(call_chunk(h, call)),
        is_one_event(output_chunk(h, index, call_id, output)),
        is_one_event(finish_chunk(h, why)),
{
    reveal_strlit("");
    reveal_strlit("null");
    reveal_strlit("\"");
    reveal_strlit("\"content\":\"");
    lemma_one_event(h, 0, ""@, "null"@);
    lemma_one_event(h, 0, ""@, "\""@ + why + "\""@);
    lemma_escaped_one_line(text);
    lemma_one_event(h, 0, "\"content\":\""@ + escaped(text) + "\""@, "null"@);
    lemma_call_event(h, call);
    lemma_output_event(h, index, call_id, output);
}

proof fn lemma_call_event(h: Heading, call: CallV)
    requires
        is_one_line(h.id),
        is_one_line(h.model),
        is_one_line(call.id),
        forall|i: int| 0 <= i < call.name.len() ==> #[trigger] call.name[i] != '\r',
    ensures
        is_one_event(call_chunk(h, call)),
{
    reveal_strlit("null");
    reveal_strlit("\"role\":\"assistant\",\"tool_calls\":[{\"index\":");
    reveal_strlit(",\"id\":\"tool_");
    reveal_strlit("\",\"type\":\"function\",\"function\":{\"name\":\"");
    reveal_strlit("\",\"arguments\":\"");
    reveal_strlit("\"}}]");
    lemma_decimal_one_line(call.index as nat);
    lemma_escaped_one_line(call.name);
    lemma_escaped_one_line(call.arguments);
    let a = "\"role\":\"assistant\",\"tool_calls\":[{\"index\":"@ + decimal(call.index as nat)
        + ",\"id\":\"tool_"@ + call.id;
    let b = a + "\",\"type\":\"function\",\"function\":{\"name\":\""@ + escaped_name(call.name);
    let c = b + "\",\"arguments\":\""@ + escaped(call.arguments) + "\"}}]"@;
    assert(is_one_line(a));
    assert(is_one_line(b));
    assert(is_one_line(c));
    lemma_one_event(h, call.index, c, "null"@);
}

proof fn lemma_output_event(h: Heading, index: u32, call_id: Seq<char>, output: Seq<char>)
    requires
        is_one_line(h.id),
        is_one_line(h.model),
        is_one_line(call_id),
    ensures
        is_one_event(output_chunk(h, index, call_id, output)),
{
    reveal_strlit("null");
    reveal_strlit("\"role\":\"tool\",\"tool_call_id\":\"");
    reveal_strlit("\",\"content\":\"");
    reveal_strlit("\"");
    lemma_escaped_one_line(output);
    let delta = "\"role\":\"tool\",\"tool_call_id\":\""@ + call_id + "\",\"content\":\""@ + escaped(
        output,
    ) + "\""@;
    assert(is_one_line(delta));
    lemma_one_event(h, index, delta, "null"@);
}

} // verus!
