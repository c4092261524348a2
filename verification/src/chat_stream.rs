//! Turning a Responses stream into a Chat Completions stream.

use vstd::prelude::*;
use crate::chat_chunk::{
    call_chunk, finish_chunk, opening_chunk, output_chunk, text_chunk, ChunkHeading, Heading,
};
use crate::json::{either, or_default, Json, JsonV};
use crate::machine::{fresh_short_id, is_short_id, unix_time};
use crate::responses_event::{CallV, ToolCallBuffer};
use crate::sse::{
    behind_block, blocks, done_text, field_values, first_block, has_block, is_read_as_utf8,
    last_sse_value, last_value, lossy_text, sse_field_values, take_sse_block,
};
use crate::table::Table;
use crate::text::{chars_of, concat, join, join_strings, str_eq, string_of, texts, trim, trimmed};
use crate::value::{compact_text, parsed};

verus! {

broadcast use {crate::json::group_json, crate::text::lemma_texts_push};

/// A call that is open, under the identifier of its item.
pub struct OpenV {
    pub item: Seq<char>,
    pub call: CallV,
}

/// The state of a stream that is being turned: the bytes of an incomplete block, what the response
/// tells of itself, the places of the calls so far by their items, how many there were, the calls
/// of functions and of custom tools that are open, whether the response is complete, and the chunks
/// to send.
pub struct Chatted {
    pub bytes: Seq<u8>,
    pub message_id: Option<Seq<char>>,
    pub model: Option<Seq<char>>,
    pub created: u64,
    pub places: Map<Seq<char>, u32>,
    pub count: u32,
    pub calls: Seq<OpenV>,
    pub custom: Seq<OpenV>,
    pub complete: bool,
    pub out: Seq<Seq<char>>,
}

/// What an event may need from the machine: a random identifier and the time.
pub struct Draw {
    pub short: Seq<char>,
    pub now: u64,
}

/// The open calls without the one of an item.
pub open spec fn without(list: Seq<OpenV>, item: Seq<char>) -> Seq<OpenV>
    decreases list.len(),
{
    if list.len() == 0 {
        list
    } else if list.last().item == item {
        without(list.drop_last(), item)
    } else {
        without(list.drop_last(), item).push(list.last())
    }
}

/// The open call of an item.
pub open spec fn open_call(list: Seq<OpenV>, item: Seq<char>) -> Option<CallV>
    decreases list.len(),
{
    if list.len() == 0 {
        None
    } else if list.last().item == item {
        Some(list.last().call)
    } else {
        open_call(list.drop_last(), item)
    }
}

/// The open calls after more arguments for an item.
pub open spec fn with_arguments(
    list: Seq<OpenV>,
    item: Seq<char>,
    more: Seq<char>,
) -> Seq<OpenV> {
    Seq::new(
        list.len(),
        |i: int|
            if list[i].item == item {
                OpenV {
                    call: CallV { arguments: list[i].call.arguments + more, ..list[i].call },
                    ..list[i]
                }
            } else {
                list[i]
            },
    )
}

/// The heading of the chunks.
pub open spec fn heading(t: Chatted) -> Heading {
    Heading {
        id: or_default(t.message_id, "chatcmpl-local"@),
        created: t.created,
        model: or_default(t.model, "unknown"@),
    }
}

/// The state with one more chunk to send.
pub open spec fn sending(t: Chatted, chunk: Seq<char>) -> Chatted {
    Chatted { out: t.out.push(chunk), ..t }
}

/// The state after the response has told of itself: what was told first stays.
pub open spec fn told(t: Chatted, response: JsonV, now: u64) -> Chatted {
    Chatted {
        message_id: either(t.message_id, response.str_at("id"@)),
        model: either(t.model, response.str_at("model"@)),
        created: if t.created == 0 {
            or_default(response.u64_at("created"@), now)
        } else {
            t.created
        },
        ..t
    }
}

/// The state after the creation of the response, which opens the chat.
pub open spec fn after_created(t: Chatted, data: JsonV, draw: Draw) -> Chatted {
    let next = match either(data.get("response"@), data.get("output"@)) {
        Some(response) => told(t, response, draw.now),
        None => t,
    };
    let id = or_default(next.message_id, "chatcmpl-"@ + draw.short);
    sending(next, opening_chunk(Heading { id, ..heading(next) }))
}

/// A call that begins with an item.
pub open spec fn begun_call(item: JsonV, place: u32) -> CallV {
    CallV {
        id: item.str_or("call_id"@, item.str_or("id"@, ""@)),
        name: item.str_or("name"@, ""@),
        arguments: Seq::empty(),
        index: place,
    }
}

/// Whether an event begins a call.
pub open spec fn begins_call(name: Seq<char>, data: JsonV) -> bool {
    name == "response.output_item.added"@ && match data.get("item"@) {
        Some(item) => item.str_at("type"@) == Some("function_call"@) || item.str_at("type"@)
            == Some("custom_tool_call"@),
        None => false,
    }
}

/// The state after an item has begun. A call gets the next place.
pub open spec fn after_added(t: Chatted, data: JsonV) -> Chatted {
    match data.get("item"@) {
        Some(item) => {
            let id = item.str_or("id"@, ""@);
            let open = OpenV { item: id, call: begun_call(item, t.count) };
            let placed = Chatted {
                places: t.places.insert(id, t.count),
                count: (t.count + 1) as u32,
                ..t
            };
            if item.str_at("type"@) == Some("function_call"@) {
                Chatted { calls: without(t.calls, id).push(open), ..placed }
            } else if item.str_at("type"@) == Some("custom_tool_call"@) {
                Chatted { custom: without(t.custom, id).push(open), ..placed }
            } else {
                t
            }
        },
        None => t,
    }
}

/// The state after some text.
pub open spec fn after_text(t: Chatted, data: JsonV) -> Chatted {
    match either(data.get("delta"@), data.get("text"@)) {
        Some(delta) => match delta.str_at("text"@) {
            Some(text) => sending(t, text_chunk(heading(t), text)),
            None => t,
        },
        None => t,
    }
}

/// The state after some arguments of a call of a function.
pub open spec fn after_arguments(t: Chatted, data: JsonV) -> Chatted {
    match data.get("delta"@) {
        Some(delta) => match delta.str_at("arguments"@) {
            Some(more) => Chatted {
                calls: with_arguments(t.calls, data.str_or("item_id"@, ""@), more),
                ..t
            },
            None => t,
        },
        None => t,
    }
}

/// More input of a custom tool: text as it is, anything else as JSON text.
pub open spec fn more_input(delta: JsonV) -> Option<Seq<char>> {
    match delta.get("input"@) {
        Some(JsonV::Str(s)) => Some(s),
        Some(value) => compact_text(value),
        None => None,
    }
}

/// The state after some input of a custom tool.
pub open spec fn after_input(t: Chatted, data: JsonV) -> Chatted {
    match data.get("delta"@) {
        Some(delta) => match more_input(delta) {
            Some(more) => Chatted {
                custom: with_arguments(t.custom, data.str_or("item_id"@, ""@), more),
                ..t
            },
            None => t,
        },
        None => t,
    }
}

/// The state after a call of a function is complete: the call is sent and no longer open.
pub open spec fn after_call_done(t: Chatted, data: JsonV) -> Chatted {
    let item = data.str_or("item_id"@, ""@);
    match open_call(t.calls, item) {
        Some(call) => sending(
            Chatted { calls: without(t.calls, item), ..t },
            call_chunk(heading(t), call),
        ),
        None => t,
    }
}

/// The state after a call of a custom tool is complete: the call is sent and no longer open.
pub open spec fn after_custom_done(t: Chatted, data: JsonV) -> Chatted {
    let item = data.str_or("item_id"@, ""@);
    match open_call(t.custom, item) {
        Some(call) => sending(
            Chatted { custom: without(t.custom, item), ..t },
            call_chunk(heading(t), call),
        ),
        None => t,
    }
}

/// The text of the first of two members that is there, where it is a text.
pub open spec fn either_text(data: JsonV, first: Seq<char>, second: Seq<char>) -> Seq<char> {
    match either(data.get(first), data.get(second)) {
        Some(JsonV::Str(s)) => s,
        _ => ""@,
    }
}

/// The state after the output of a call.
pub open spec fn after_output(t: Chatted, data: JsonV) -> Chatted {
    let call_id = either_text(data, "item_id"@, "call_id"@);
    let output = either_text(data, "output"@, "result"@);
    let place = if t.places.contains_key(call_id) {
        t.places[call_id]
    } else {
        0
    };
    sending(t, output_chunk(heading(t), place, call_id, output))
}

/// The chunks for some open calls.
pub open spec fn call_chunks(h: Heading, list: Seq<OpenV>) -> Seq<Seq<char>> {
    Seq::new(list.len(), |i: int| call_chunk(h, list[i].call))
}

/// The reason to finish: open calls of functions, or else what the response says.
pub open spec fn reason(t: Chatted, status: Seq<char>) -> Seq<char> {
    if t.calls.len() > 0 {
        "tool_calls"@
    } else {
        status
    }
}

/// The state after the response is complete. The calls of functions that are still open are sent
/// first, in the order of their places.
pub open spec fn after_completed(t: Chatted, data: JsonV) -> Chatted {
    Chatted {
        complete: true,
        calls: Seq::empty(),
        out: t.out + call_chunks(heading(t), t.calls) + seq![
            finish_chunk(heading(t), reason(t, data.str_or("status"@, "stop"@))),
            done_text(),
        ],
        ..t
    }
}

/// Whether an event completes the response.
pub open spec fn is_completion(name: Seq<char>) -> bool {
    name == "response.completed"@ || name == "response.done"@
}

/// The state after an event.
pub open spec fn after_event(t: Chatted, name: Seq<char>, data: JsonV, draw: Draw) -> Chatted {
    if name == "response.created"@ {
        after_created(t, data, draw)
    } else if name == "response.output_item.added"@ {
        after_added(t, data)
    } else if name == "response.output_text.delta"@ || name == "output_text.delta"@ {
        after_text(t, data)
    } else if name == "response.function_call_arguments.delta"@ || name
        == "function_call_arguments.delta"@ {
        after_arguments(t, data)
    } else if name == "response.function_call_arguments.done"@ || name
        == "function_call_arguments.done"@ {
        after_call_done(t, data)
    } else if name == "response.function_call_output"@ || name == "function_call_output"@ {
        after_output(t, data)
    } else if name == "response.custom_tool_call.delta"@ || name == "custom_tool_call.delta"@ {
        after_input(t, data)
    } else if name == "response.custom_tool_call.done"@ || name == "custom_tool_call.done"@ {
        after_custom_done(t, data)
    } else if name == "response.custom_tool_call_output"@ || name == "custom_tool_call_output"@ {
        after_output(t, data)
    } else if is_completion(name) {
        after_completed(t, data)
    } else {
        t
    }
}

/// The event of a block: its name and its data. A block without data has none, and neither has one
/// whose data is not JSON.
pub open spec fn block_event(block: Seq<char>) -> Option<(Seq<char>, JsonV)> {
    let data = field_values(block, "data"@);
    let name = trim(or_default(last_value(block, "event"@), ""@));
    if data.len() == 0 {
        None
    } else {
        match parsed(join(data, "\n"@)) {
            Some(value) => Some((name, value)),
            None => None,
        }
    }
}

/// The state after one more block.
pub open spec fn after_block(t: Chatted, block: Seq<char>, draw: Draw) -> Chatted {
    match block_event(block) {
        Some((name, data)) => after_event(t, name, data, draw),
        None => t,
    }
}

/// Whether a block completes the response.
pub open spec fn completes(block: Seq<char>) -> bool {
    match block_event(block) {
        Some((name, _)) => is_completion(name),
        None => false,
    }
}

/// An event leaves the bytes as they are, and begins at most one call.
pub proof fn lemma_event_keeps_bytes(t: Chatted, name: Seq<char>, data: JsonV, draw: Draw)
    ensures
        after_event(t, name, data, draw).bytes == t.bytes,
        begins_call(name, data) ==> t.count < u32::MAX ==> after_event(t, name, data, draw).count
            <= t.count + 1,
        !begins_call(name, data) ==> after_event(t, name, data, draw).count == t.count,
{
}

/// The state after the complete blocks in the bytes at hand, up to one that completes the response;
/// what follows that one is left over. Each block has a draw of its own.
pub open spec fn after_blocks(t: Chatted, draws: Seq<Draw>) -> Chatted
    decreases t.bytes.len(),
{
    if has_block(t.bytes) {
        let block = lossy_text(first_block(t.bytes));
        let cut = Chatted { bytes: behind_block(t.bytes), ..t };
        proof {
            crate::sse::lemma_next_break(t.bytes, 0);
            if let Some((name, data)) = block_event(block) {
                lemma_event_keeps_bytes(cut, name, data, draws.first());
            }
        }
        if completes(block) {
            after_block(cut, block, draws.first())
        } else {
            after_blocks(after_block(cut, block, draws.first()), draws.drop_first())
        }
    } else {
        t
    }
}

/// The state after some more bytes.
pub open spec fn after_bytes(t: Chatted, chunk: Seq<u8>, draws: Seq<Draw>) -> Chatted {
    after_blocks(Chatted { bytes: t.bytes + chunk, ..t }, draws)
}

/// The state before the first byte.
pub open spec fn started() -> Chatted {
    Chatted {
        bytes: Seq::empty(),
        message_id: None,
        model: None,
        created: 0,
        places: Map::empty(),
        count: 0,
        calls: Seq::empty(),
        custom: Seq::empty(),
        complete: false,
        out: Seq::empty(),
    }
}

/// The chunks at the end of the bytes: a response that is not complete is finished.
pub open spec fn final_chunks(t: Chatted) -> Seq<Seq<char>> {
    if t.complete {
        Seq::empty()
    } else {
        seq![finish_chunk(heading(t), reason(t, "stop"@)), done_text()]
    }
}

/// How many calls begin in the complete blocks in some bytes, up to one that completes the response.
pub open spec fn calls_begun(bytes: Seq<u8>) -> nat
    decreases bytes.len(),
{
    if has_block(bytes) {
        proof {
            crate::sse::lemma_next_break(bytes, 0);
        }
        let block = lossy_text(first_block(bytes));
        let here = match block_event(block) {
            Some((name, data)) => if begins_call(name, data) {
                1nat
            } else {
                0nat
            },
            None => 0nat,
        };
        if completes(block) {
            here
        } else {
            here + calls_begun(behind_block(bytes))
        }
    } else {
        0
    }
}

/// Whether all the calls that begin with some more bytes can have a place.
pub open spec fn has_room(t: Chatted, chunk: Seq<u8>) -> bool {
    t.count + calls_begun(t.bytes + chunk) <= u32::MAX
}

struct OpenCall {
    item: String,
    call: ToolCallBuffer,
}

impl View for OpenCall {
    type V = OpenV;

    closed spec fn view(&self) -> OpenV {
        OpenV { item: self.item@, call: self.call@ }
    }
}

spec fn open_views(list: Seq<OpenCall>) -> Seq<OpenV> {
    Seq::new(list.len(), |i: int| list[i]@)
}

proof fn lemma_without_next(list: Seq<OpenV>, k: int, item: Seq<char>)
    requires
        0 <= k < list.len(),
    ensures
        without(list.take(k + 1), item) == if list[k].item == item {
            without(list.take(k), item)
        } else {
            without(list.take(k), item).push(list[k])
        },
        open_call(list.take(k + 1), item) == if list[k].item == item {
            Some(list[k].call)
        } else {
            open_call(list.take(k), item)
        },
{
    assert(list.take(k + 1).drop_last() =~= list.take(k));
}

fn take_open(list: &mut Vec<OpenCall>, item: &str) -> (r: Option<ToolCallBuffer>)
    ensures
        open_views(final(list)@) == without(open_views(old(list)@), item@),
        match r {
            Some(call) => open_call(open_views(old(list)@), item@) == Some(call@),
            None => open_call(open_views(old(list)@), item@) is None,
        },
{
    let ghost all = open_views(list@);
    let ghost mut k: int = 0;
    let mut found: Option<ToolCallBuffer> = None;
    let mut i: usize = 0;
    assert(all.take(0) =~= Seq::empty());
    assert(open_views(list@) =~= without(all.take(0), item@) + all.skip(0));
    while i < list.len()
        invariant
            all == open_views(old(list)@),
            0 <= k <= all.len(),
            i == without(all.take(k), item@).len(),
            open_views(list@) == without(all.take(k), item@) + all.skip(k),
            match found {
                Some(call) => open_call(all.take(k), item@) == Some(call@),
                None => open_call(all.take(k), item@) is None,
            },
        decreases all.len() - k,
    {
        assert(open_views(list@)[i as int] == all[k]);
        proof {
            lemma_without_next(all, k, item@);
        }
        let ghost before = open_views(list@);
        if str_eq(list[i].item.as_str(), item) {
            let open = list.remove(i);
            found = Some(open.call);
            assert(open_views(list@) =~= before.remove(i as int));
        } else {
            i += 1;
        }
        proof {
            assert(open_views(list@) =~= without(all.take(k + 1), item@) + all.skip(k + 1));
            k = k + 1;
        }
    }
    assert(k == all.len()) by {
        assert(open_views(list@).len() == i);
    }
    assert(all.take(k) =~= all);
    assert(open_views(list@) =~= without(all, item@));
    found
}

fn add_arguments(list: &mut Vec<OpenCall>, item: &str, more: &str)
    ensures
        open_views(final(list)@) == with_arguments(open_views(old(list)@), item@, more@),
{
    let ghost all = open_views(list@);
    let ghost done = with_arguments(all, item@, more@);
    let mut i: usize = 0;
    while i < list.len()
        invariant
            i <= list@.len(),
            list@.len() == all.len(),
            done == with_arguments(all, item@, more@),
            forall|j: int| 0 <= j < i ==> (#[trigger] list@[j])@ == done[j],
            forall|j: int| i <= j < all.len() ==> (#[trigger] list@[j])@ == all[j],
        decreases list@.len() - i,
    {
        assert(list@[i as int]@ == all[i as int]);
        if str_eq(list[i].item.as_str(), item) {
            let call = ToolCallBuffer {
                arguments: concat(list[i].call.arguments.as_str(), more),
                ..list[i].call.copy()
            };
            let item = list[i].item.clone();
            list.set(i, OpenCall { item, call });
        }
        i += 1;
    }
    assert(open_views(list@) =~= done);
}

/// A stream that is being turned.
pub struct ChatStream {
    bytes: Vec<u8>,
    message_id: Option<String>,
    model: Option<String>,
    created: u64,
    places: Table<u32>,
    count: u32,
    calls: Vec<OpenCall>,
    custom: Vec<OpenCall>,
    complete: bool,
    out: Vec<String>,
}

/// What an optional string stands for.
pub open spec fn opt_string(o: Option<String>) -> Option<Seq<char>> {
    match o {
        Some(s) => Some(s@),
        None => None,
    }
}

impl View for ChatStream {
    type V = Chatted;

    closed spec fn view(&self) -> Chatted {
        Chatted {
            bytes: self.bytes@,
            message_id: opt_string(self.message_id),
            model: opt_string(self.model),
            created: self.created,
            places: self.places@,
            count: self.count,
            calls: open_views(self.calls@),
            custom: open_views(self.custom@),
            complete: self.complete,
            out: texts(self.out@),
        }
    }
}

fn owned(o: Option<&str>) -> (r: Option<String>)
    ensures
        opt_string(r) == crate::json::opt_text(o),
{
    match o {
        Some(s) => Some(s.to_owned()),
        None => None,
    }
}

fn string_or(o: &Option<String>, default: &str) -> (r: String)
    ensures
        r@ == or_default(opt_string(*o), default@),
{
    match o {
        Some(s) => s.clone(),
        None => default.to_owned(),
    }
}

fn first_of<'a>(data: &'a Json, first: &str, second: &str) -> (r: Option<&'a Json>)
    ensures
        crate::json::opt_view(r) == either(data@.get(first@), data@.get(second@)),
{
    match data.get(first) {
        Some(v) => Some(v),
        None => data.get(second),
    }
}

fn first_text<'a>(data: &'a Json, first: &str, second: &str) -> (r: &'a str)
    ensures
        r@ == either_text(data@, first@, second@),
{
    match first_of(data, first, second) {
        Some(v) => match v.as_str() {
            Some(s) => s,
            None => "",
        },
        None => "",
    }
}

fn kind_is(item: &Json, kind: &str) -> (r: bool)
    ensures
        r == (item@.str_at("type"@) == Some(kind@)),
{
    match item.str_at("type") {
        Some(s) => str_eq(s, kind),
        None => false,
    }
}

impl ChatStream {
    /// The invariant of the state.
    pub closed spec fn wf(&self) -> bool {
        self.places.wf()
    }

    fn heading(&self) -> (r: ChunkHeading)
        ensures
            r@ == heading(self@),
    {
        ChunkHeading {
            id: string_or(&self.message_id, "chatcmpl-local"),
            created: self.created,
            model: string_or(&self.model, "unknown"),
        }
    }

    fn on_created(&mut self, data: &Json, short: &str, now: u64)
        requires
            old(self).wf(),
        ensures
            final(self).wf(),
            final(self)@ == after_created(old(self)@, data@, (Draw { short: short@, now })),
    {
        if let Some(response) = first_of(data, "response", "output") {
            if self.message_id.is_none() {
                self.message_id = owned(response.str_at("id"));
            }
            if self.model.is_none() {
                self.model = owned(response.str_at("model"));
            }
            if self.created == 0 {
                self.created = match response.u64_at("created") {
                    Some(n) => n,
                    None => now,
                };
            }
        }
        let fresh = concat("chatcmpl-", short);
        let heading = ChunkHeading {
            id: string_or(&self.message_id, fresh.as_str()),
            created: self.created,
            model: string_or(&self.model, "unknown"),
        };
        self.out.push(heading.opening());
    }

    fn on_added(&mut self, data: &Json)
        requires
            old(self).wf(),
            begins_call("response.output_item.added"@, data@) ==> old(self)@.count < u32::MAX,
        ensures
            final(self).wf(),
            final(self)@ == after_added(old(self)@, data@),
    {
        if let Some(item) = data.get("item") {
            let is_function = kind_is(item, "function_call");
            let is_custom = kind_is(item, "custom_tool_call");
            if is_function || is_custom {
                let id = item.str_or("id", "");
                let place = self.count;
                self.places.insert(id, place);
                self.count += 1;
                let call = ToolCallBuffer {
                    id: item.str_or("call_id", id).to_owned(),
                    name: item.str_or("name", "").to_owned(),
                    arguments: String::new(),
                    index: place,
                };
                let open = OpenCall { item: id.to_owned(), call };
                if is_function {
                    let _ = take_open(&mut self.calls, id);
                    let ghost before = open_views(self.calls@);
                    self.calls.push(open);
                    assert(open_views(self.calls@) =~= before.push(open@));
                } else {
                    let _ = take_open(&mut self.custom, id);
                    let ghost before = open_views(self.custom@);
                    self.custom.push(open);
                    assert(open_views(self.custom@) =~= before.push(open@));
                }
            }
        }
    }

    fn on_text(&mut self, data: &Json)
        requires
            old(self).wf(),
        ensures
            final(self).wf(),
            final(self)@ == after_text(old(self)@, data@),
    {
        if let Some(delta) = first_of(data, "delta", "text") {
            if let Some(text) = delta.str_at("text") {
                let chunk = self.heading().text(text);
                self.out.push(chunk);
            }
        }
    }

    fn on_arguments(&mut self, data: &Json)
        requires
            old(self).wf(),
        ensures
            final(self).wf(),
            final(self)@ == after_arguments(old(self)@, data@),
    {
        if let Some(delta) = data.get("delta") {
            if let Some(more) = delta.str_at("arguments") {
                add_arguments(&mut self.calls, data.str_or("item_id", ""), more);
            }
        }
    }

    fn on_input(&mut self, data: &Json)
        requires
            old(self).wf(),
        ensures
            final(self).wf(),
            final(self)@ == after_input(old(self)@, data@),
    {
        if let Some(delta) = data.get("delta") {
            let more = match delta.get("input") {
                Some(input) => match input {
                    Json::Str(s) => Some(s.clone()),
                    _ => input.compact(),
                },
                None => None,
            };
            if let Some(more) = more {
                add_arguments(&mut self.custom, data.str_or("item_id", ""), more.as_str());
            }
        }
    }

    fn on_call_done(&mut self, data: &Json)
        requires
            old(self).wf(),
        ensures
            final(self).wf(),
            final(self)@ == after_call_done(old(self)@, data@),
    {
        let ghost item = data@.str_or("item_id"@, ""@);
        proof {
            lemma_without_missing(old(self)@.calls, item);
        }
        if let Some(call) = take_open(&mut self.calls, data.str_or("item_id", "")) {
            let chunk = self.heading().call(&call);
            self.out.push(chunk);
        }
    }

    fn on_custom_done(&mut self, data: &Json)
        requires
            old(self).wf(),
        ensures
            final(self).wf(),
            final(self)@ == after_custom_done(old(self)@, data@),
    {
        let ghost item = data@.str_or("item_id"@, ""@);
        proof {
            lemma_without_missing(old(self)@.custom, item);
        }
        if let Some(call) = take_open(&mut self.custom, data.str_or("item_id", "")) {
            let chunk = self.heading().call(&call);
            self.out.push(chunk);
        }
    }

    fn on_output(&mut self, data: &Json)
        requires
            old(self).wf(),
        ensures
            final(self).wf(),
            final(self)@ == after_output(old(self)@, data@),
    {
        let call_id = first_text(data, "item_id", "call_id");
        let output = first_text(data, "output", "result");
        let place: u32 = match self.places.get(call_id) {
            Some(place) => *place,
            None => 0,
        };
        let chunk = self.heading().output(place, call_id, output);
        self.out.push(chunk);
    }

    fn on_completed(&mut self, data: &Json)
        requires
            old(self).wf(),
        ensures
            final(self).wf(),
            final(self)@ == after_completed(old(self)@, data@),
    {
        let top = self.heading();
        let ghost first = self@;
        let ghost chunks = call_chunks(heading(first), first.calls);
        let reason = if self.calls.len() > 0 {
            "tool_calls"
        } else {
            data.str_or("status", "stop")
        };
        self.complete = true;
        let mut i: usize = 0;
        assert(first.out =~= first.out + chunks.take(0));
        while i < self.calls.len()
            invariant
                self.wf(),
                i <= self.calls@.len(),
                top@ == heading(first),
                chunks == call_chunks(heading(first), first.calls),
                self@ == (Chatted {
                    complete: true,
                    out: first.out + chunks.take(i as int),
                    ..first
                }),
            decreases self.calls@.len() - i,
        {
            assert(first.calls[i as int] == self.calls@[i as int]@);
            let chunk = top.call(&self.calls[i].call);
            self.out.push(chunk);
            i += 1;
            assert(self@.out =~= first.out + chunks.take(i as int));
        }
        assert(chunks.take(i as int) =~= chunks);
        self.calls = Vec::new();
        assert(self@.calls =~= Seq::empty());
        self.out.push(top.finish(reason));
        self.out.push("data: [DONE]\n\n".to_owned());
        assert(self@.out =~= after_completed(first, data@).out);
    }

    fn on_event(&mut self, name: &str, data: &Json, short: &str, now: u64)
        requires
            old(self).wf(),
            begins_call(name@, data@) ==> old(self)@.count < u32::MAX,
        ensures
            final(self).wf(),
            final(self)@ == after_event(old(self)@, name@, data@, (Draw { short: short@, now })),
    {
        if str_eq(name, "response.created") {
            self.on_created(data, short, now);
        } else if str_eq(name, "response.output_item.added") {
            self.on_added(data);
        } else if str_eq(name, "response.output_text.delta") || str_eq(name, "output_text.delta") {
            self.on_text(data);
        } else if str_eq(name, "response.function_call_arguments.delta") || str_eq(
            name,
            "function_call_arguments.delta",
        ) {
            self.on_arguments(data);
        } else if str_eq(name, "response.function_call_arguments.done") || str_eq(
            name,
            "function_call_arguments.done",
        ) {
            self.on_call_done(data);
        } else if str_eq(name, "response.function_call_output") || str_eq(
            name,
            "function_call_output",
        ) {
            self.on_output(data);
        } else if str_eq(name, "response.custom_tool_call.delta") || str_eq(
            name,
            "custom_tool_call.delta",
        ) {
            self.on_input(data);
        } else if str_eq(name, "response.custom_tool_call.done") || str_eq(
            name,
            "custom_tool_call.done",
        ) {
            self.on_custom_done(data);
        } else if str_eq(name, "response.custom_tool_call_output") || str_eq(
            name,
            "custom_tool_call_output",
        ) {
            self.on_output(data);
        } else if str_eq(name, "response.completed") || str_eq(name, "response.done") {
            self.on_completed(data);
        }
    }
}

proof fn lemma_without_missing(list: Seq<OpenV>, item: Seq<char>)
    ensures
        open_call(list, item) is None ==> without(list, item) == list,
    decreases list.len(),
{
    if list.len() > 0 {
        lemma_without_missing(list.drop_last(), item);
        assert(list.drop_last().push(list.last()) =~= list);
    }
}

/// At most as many calls begin in some bytes as there are bytes.
pub proof fn lemma_calls_begun(bytes: Seq<u8>)
    ensures
        calls_begun(bytes) <= bytes.len(),
    decreases bytes.len(),
{
    if has_block(bytes) {
        crate::sse::lemma_next_break(bytes, 0);
        lemma_calls_begun(behind_block(bytes));
    }
}

/// Reads the event of a block: its name and its data.
pub fn read_block(block: &str) -> (r: Option<(String, Json)>)
    ensures
        match r {
            Some((name, data)) => block_event(block@) == Some((name@, data@)),
            None => block_event(block@) is None,
        },
{
    let data = sse_field_values(block, "data");
    assert(texts(data@).len() == data@.len());
    if data.len() == 0 {
        return None;
    }
    let given = match last_sse_value(block, "event") {
        Some(name) => name,
        None => String::new(),
    };
    proof {
        reveal_strlit("");
        assert(""@ =~= Seq::empty());
    }
    let name = trimmed(&chars_of(given.as_str()));
    assert(name@.subrange(0, name@.len() as int) =~= name@);
    match Json::parse(join_strings(&data, "\n").as_str()) {
        Some(value) => Some((string_of(&name, 0, name.len()), value)),
        None => None,
    }
}

fn starts_call(name: &str, data: &Json) -> (r: bool)
    ensures
        r == begins_call(name@, data@),
{
    str_eq(name, "response.output_item.added") && match data.get("item") {
        Some(item) => kind_is(item, "function_call") || kind_is(item, "custom_tool_call"),
        None => false,
    }
}

fn count_calls(bytes: Vec<u8>) -> (r: usize)
    ensures
        r == calls_begun(bytes@),
{
    let ghost all = bytes@;
    let ghost most: usize = bytes.len();
    proof {
        lemma_calls_begun(all);
    }
    let mut rest = bytes;
    let mut begun: usize = 0;
    loop
        invariant_except_break
            begun + calls_begun(rest@) == calls_begun(all),
            calls_begun(all) <= most,
        ensures
            begun == calls_begun(all),
        decreases rest@.len(),
    {
        proof {
            crate::sse::lemma_next_break(rest@, 0);
        }
        match take_sse_block(&mut rest) {
            Some(block) => {
                if let Some((name, data)) = read_block(block.as_str()) {
                    let complete = str_eq(name.as_str(), "response.completed") || str_eq(
                        name.as_str(),
                        "response.done",
                    );
                    if starts_call(name.as_str(), &data) {
                        begun += 1;
                    }
                    if complete {
                        break;
                    }
                }
            },
            None => {
                break;
            },
        }
    }
    begun
}

/// A draw that may come from the machine.
pub open spec fn is_draw(draw: Draw) -> bool {
    is_short_id(draw.short) && draw.now <= i64::MAX
}

/// How many of the complete blocks in some bytes are taken, up to one that completes the response.
pub open spec fn blocks_taken(bytes: Seq<u8>) -> nat
    decreases bytes.len(),
{
    if has_block(bytes) {
        proof {
            crate::sse::lemma_next_break(bytes, 0);
        }
        if completes(lossy_text(first_block(bytes))) {
            1
        } else {
            1 + blocks_taken(behind_block(bytes))
        }
    } else {
        0
    }
}

/// One draw for each block that is taken, and all of them may come from the machine.
pub open spec fn drawn(draws: Seq<Draw>, bytes: Seq<u8>) -> bool {
    &&& draws.len() == blocks_taken(bytes)
    &&& forall|i: int| 0 <= i < draws.len() ==> is_draw(#[trigger] draws[i])
}

impl ChatStream {
    /// Begins a stream.
    pub fn start() -> (r: ChatStream)
        ensures
            r.wf(),
            r@ == started(),
    {
        let stream = ChatStream {
            bytes: Vec::new(),
            message_id: None,
            model: None,
            created: 0,
            places: Table::new(),
            count: 0,
            calls: Vec::new(),
            custom: Vec::new(),
            complete: false,
            out: Vec::new(),
        };
        assert(stream@.calls =~= Seq::empty());
        assert(stream@.custom =~= Seq::empty());
        assert(stream@.out =~= Seq::empty());
        stream
    }

    fn drain(&mut self) -> (r: Vec<String>)
        requires
            old(self).wf(),
        ensures
            final(self).wf(),
            final(self)@ == (Chatted { out: Seq::empty(), ..old(self)@ }),
            texts(r@) == old(self)@.out,
    {
        let mut chunks: Vec<String> = Vec::new();
        std::mem::swap(&mut chunks, &mut self.out);
        assert(self@.out =~= Seq::empty());
        chunks
    }

    /// Takes one event, and returns the chunks to send. An identifier and the time stand ready for
    /// what the response does not tell of itself.
    pub fn event_with(&mut self, name: &str, data: &Json, short: &str, now: u64) -> (r: Vec<String>)
        requires
            old(self).wf(),
            begins_call(name@, data@) ==> old(self)@.count < u32::MAX,
        ensures
            final(self).wf(),
            ({
                let after = after_event(
                    old(self)@,
                    name@,
                    data@,
                    (Draw { short: short@, now }),
                );
                final(self)@ == (Chatted { out: Seq::empty(), ..after }) && texts(r@) == after.out
            }),
    {
        self.on_event(name, data, short, now);
        self.drain()
    }

    /// Whether all the calls that begin with some more bytes can have a place. Few bytes begin few
    /// calls; where there are many, the calls are counted.
    pub fn room_for(&self, chunk: &[u8]) -> (r: bool)
        ensures
            r == has_room(self@, chunk@),
    {
        proof {
            lemma_calls_begun(self@.bytes + chunk@);
        }
        let most = self.count as u128 + self.bytes.len() as u128 + chunk.len() as u128;
        if most <= u32::MAX as u128 {
            return true;
        }
        let mut bytes: Vec<u8> = Vec::new();
        bytes.extend_from_slice(self.bytes.as_slice());
        bytes.extend_from_slice(chunk);
        assert(bytes@ =~= self@.bytes + chunk@);
        let begun = count_calls(bytes);
        self.count as u128 + begun as u128 <= u32::MAX as u128
    }

    /// Takes the next bytes of the stream, and returns the chunks to send for them. Bytes behind
    /// the completion of the response wait for the next call. Blocks of valid UTF-8 are read as the
    /// text that they encode.
    pub fn feed(&mut self, chunk: &[u8]) -> (r: Vec<String>)
        requires
            old(self).wf(),
            has_room(old(self)@, chunk@),
        ensures
            final(self).wf(),
            exists|draws: Seq<Draw>| #[trigger]
                drawn(draws, old(self)@.bytes + chunk@) && {
                    let after = after_bytes(old(self)@, chunk@, draws);
                    final(self)@ == (Chatted { out: Seq::empty(), ..after }) && texts(r@)
                        == after.out
                },
            forall|i: int|
                0 <= i < blocks_taken(old(self)@.bytes + chunk@) ==> is_read_as_utf8(
                    #[trigger] blocks(old(self)@.bytes + chunk@)[i],
                ),
    {
        let ghost first = Chatted { bytes: self@.bytes + chunk@, ..self@ };
        self.bytes.extend_from_slice(chunk);
        assert(self@.bytes =~= first.bytes);
        let ghost mut draws: Seq<Draw> = Seq::empty();
        let ghost mut gone: Seq<Seq<u8>> = Seq::empty();
        assert(gone + blocks(first.bytes) =~= blocks(first.bytes));
        assert forall|more: Seq<Draw>| #[trigger]
            after_blocks(first, draws + more) == after_blocks(self@, more) by {
            assert(draws + more =~= more);
        }
        loop
            invariant_except_break
                self.wf(),
                draws.len() + blocks_taken(self@.bytes) == blocks_taken(first.bytes),
                forall|i: int| 0 <= i < draws.len() ==> is_draw(#[trigger] draws[i]),
                self@.count + calls_begun(self@.bytes) <= u32::MAX,
                gone.len() == draws.len(),
                blocks(first.bytes) == gone + blocks(self@.bytes),
                forall|i: int| 0 <= i < gone.len() ==> is_read_as_utf8(#[trigger] gone[i]),
                forall|more: Seq<Draw>| #[trigger]
                    after_blocks(first, draws + more) == after_blocks(self@, more),
            ensures
                self.wf(),
                drawn(draws, first.bytes),
                after_blocks(first, draws) == self@,
                forall|i: int|
                    0 <= i < blocks_taken(first.bytes) ==> is_read_as_utf8(
                        #[trigger] blocks(first.bytes)[i],
                    ),
            decreases self.bytes@.len(),
        {
            let ghost before = self@;
            proof {
                crate::sse::lemma_next_break(before.bytes, 0);
            }
            match take_sse_block(&mut self.bytes) {
                Some(block) => {
                    let ghost cut = self@;
                    proof {
                        let block = first_block(before.bytes);
                        assert(gone + blocks(before.bytes) =~= gone.push(block) + blocks(
                            cut.bytes,
                        ));
                        gone = gone.push(block);
                    }
                    let mut draw = (String::new(), 0u64);
                    let mut complete = false;
                    let ghost mut taken = Draw { short: Seq::new(12, |i: int| '0'), now: 0 };
                    assert(is_draw(taken));
                    if let Some((name, data)) = read_block(block.as_str()) {
                        if str_eq(name.as_str(), "response.created") {
                            draw = (fresh_short_id(), unix_time());
                            proof {
                                taken = Draw { short: draw.0@, now: draw.1 };
                            }
                        }
                        complete = str_eq(name.as_str(), "response.completed") || str_eq(
                            name.as_str(),
                            "response.done",
                        );
                        proof {
                            lemma_event_keeps_bytes(cut, name@, data@, taken);
                        }
                        self.on_event(name.as_str(), &data, draw.0.as_str(), draw.1);
                    }
                    proof {
                        assert(self@ == after_block(cut, block@, taken));
                        let one = seq![taken];
                        assert forall|more: Seq<Draw>| !complete implies #[trigger]
                            after_blocks(first, draws.push(taken) + more) == after_blocks(
                                self@,
                                more,
                            ) by {
                            assert(draws.push(taken) + more =~= draws + (one + more));
                            assert((one + more).drop_first() =~= more);
                            assert((one + more).first() == taken);
                        }
                        if complete {
                            assert(draws.push(taken) =~= draws + one);
                            assert(after_blocks(first, draws + one) == after_blocks(before, one));
                        }
                        draws = draws.push(taken);
                    }
                    if complete {
                        break;
                    }
                },
                None => {
                    assert(draws + Seq::empty() =~= draws);
                    break;
                },
            }
        }
        self.drain()
    }

    /// Takes the next bytes of the stream, and returns the chunks to send for them; nothing happens
    /// where there is not a place for each call that begins in them.
    pub fn try_feed(&mut self, chunk: &[u8]) -> (r: Option<Vec<String>>)
        requires
            old(self).wf(),
        ensures
            final(self).wf(),
            r is Some == has_room(old(self)@, chunk@),
            match r {
                Some(chunks) => exists|draws: Seq<Draw>| #[trigger]
                    drawn(draws, old(self)@.bytes + chunk@) && {
                        let after = after_bytes(old(self)@, chunk@, draws);
                        final(self)@ == (Chatted { out: Seq::empty(), ..after }) && texts(chunks@)
                            == after.out
                    },
                None => final(self)@ == old(self)@,
            },
            r is Some ==> forall|i: int|
                0 <= i < blocks_taken(old(self)@.bytes + chunk@) ==> is_read_as_utf8(
                    #[trigger] blocks(old(self)@.bytes + chunk@)[i],
                ),
    {
        if self.room_for(chunk) {
            Some(self.feed(chunk))
        } else {
            None
        }
    }

    /// Ends the stream, and returns the last chunks.
    pub fn finish(&self) -> (r: Vec<String>)
        ensures
            texts(r@) == final_chunks(self@),
    {
        let mut chunks: Vec<String> = Vec::new();
        if !self.complete {
            let reason = if self.calls.len() > 0 {
                "tool_calls"
            } else {
                "stop"
            };
            chunks.push(self.heading().finish(reason));
            chunks.push("data: [DONE]\n\n".to_owned());
        }
        assert(texts(chunks@) =~= final_chunks(self@));
        chunks
    }
}

} // verus!
