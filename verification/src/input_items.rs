//! Turning chat messages into the input items of a Responses request.

use vstd::prelude::*;
use crate::json::{either, items_view, or_default, Json, JsonV};
use crate::table::{Place, Table};
use crate::text::{concat, is_blank, str_eq, trim};

verus! {

broadcast use crate::json::group_json;

/// The role of a message; a message without one is the user's.
pub open spec fn role_of(message: JsonV) -> Seq<char> {
    message.str_or("role"@, "user"@)
}

/// The kind of text that a role produces.
pub open spec fn text_kind(role: Seq<char>) -> Seq<char> {
    if role == "assistant"@ {
        "output_text"@
    } else {
        "input_text"@
    }
}

/// A text part.
pub open spec fn text_part(kind: Seq<char>, text: Seq<char>) -> JsonV {
    JsonV::object().set("type"@, JsonV::Str(kind)).set("text"@, JsonV::Str(text))
}

/// An image part.
pub open spec fn image_part(url: Seq<char>) -> JsonV {
    JsonV::object().set("type"@, JsonV::Str("input_image"@)).set("image_url"@, JsonV::Str(url))
}

/// The data address of an image given by its source.
pub open spec fn data_url(source: JsonV) -> Seq<char> {
    "data:"@ + source.str_or("media_type"@, "image/png"@) + ";base64,"@ + source.str_or(
        "data"@,
        ""@,
    )
}

/// A message item.
pub open spec fn message_item(role: Seq<char>, content: Seq<JsonV>) -> JsonV {
    JsonV::object().set("role"@, JsonV::Str(role)).set("content"@, JsonV::Arr(content))
}

/// The item for a call of a tool.
pub open spec fn call_item(id: Seq<char>, name: Seq<char>, arguments: JsonV) -> JsonV {
    JsonV::object().set("type"@, JsonV::Str("function_call"@)).set("call_id"@, JsonV::Str(id)).set(
        "name"@,
        JsonV::Str(name),
    ).set("arguments"@, arguments)
}

/// The item for a block that calls a tool.
pub open spec fn block_call(block: JsonV) -> JsonV {
    call_item(
        block.str_or("id"@, ""@),
        block.str_or("name"@, ""@),
        or_default(block.get("input"@), JsonV::object()),
    )
}

/// The item for the call of a function that a message makes; such a call has no identifier.
pub open spec fn lifted_call(call: JsonV) -> JsonV {
    call_item(
        ""@,
        call.str_or("name"@, ""@),
        or_default(call.get("arguments"@), JsonV::object()),
    )
}

/// The call that a tool result answers, where the result names it.
pub open spec fn result_ref(block: JsonV) -> Option<Seq<char>> {
    match either(block.get("tool_use_id"@), block.get("tool_call_id"@)) {
        Some(v) => v.as_str(),
        None => None,
    }
}

/// The output of a tool result as a list of parts.
pub open spec fn result_parts(block: JsonV) -> JsonV {
    match block.get("content"@) {
        Some(JsonV::Str(text)) => JsonV::Arr(seq![text_part("output_text"@, text)]),
        Some(JsonV::Arr(parts)) => JsonV::Arr(parts),
        _ => JsonV::Arr(seq![text_part("output_text"@, ""@)]),
    }
}

/// The item for the output of a call.
pub open spec fn output_item(call_id: Seq<char>, block: JsonV) -> JsonV {
    JsonV::object().set("type"@, JsonV::Str("function_call_output"@)).set(
        "call_id"@,
        JsonV::Str(call_id),
    ).set("output"@, result_parts(block))
}

/// The kind of a block.
pub open spec fn block_kind(block: JsonV) -> Seq<char> {
    block.str_or("type"@, ""@)
}

/// Whether a message has the result of a tool: one of role `tool` that names its call. A blank name
/// is none.
pub open spec fn is_tool_message(message: JsonV) -> bool {
    role_of(message) == "tool"@ && trim(message.str_or("tool_call_id"@, ""@)).len() > 0
}

/// The message of a tool as a block.
pub open spec fn tool_block(message: JsonV) -> JsonV {
    JsonV::object().set("type"@, JsonV::Str("tool_result"@)).set_opt(
        "tool_call_id"@,
        message.get("tool_call_id"@),
    ).set_opt("content"@, message.get("content"@))
}

/// The blocks of a message.
pub open spec fn blocks_of(message: JsonV) -> Seq<JsonV> {
    if is_tool_message(message) {
        seq![tool_block(message)]
    } else {
        or_default(message.array_at("content"@), Seq::empty())
    }
}

/// The blocks of some messages.
pub open spec fn all_blocks(messages: Seq<JsonV>) -> Seq<JsonV>
    decreases messages.len(),
{
    if messages.len() == 0 {
        Seq::empty()
    } else {
        all_blocks(messages.drop_last()) + blocks_of(messages.last())
    }
}

/// The call that a tool result answers; empty where the result names none.
pub open spec fn answers(block: JsonV) -> Seq<char> {
    or_default(result_ref(block), ""@)
}

/// Where the tool results stand among some blocks, by the call they answer; the last one counts.
pub open spec fn results_by_call(blocks: Seq<JsonV>) -> Map<Seq<char>, nat>
    decreases blocks.len(),
{
    if blocks.len() == 0 {
        Map::empty()
    } else {
        let before = results_by_call(blocks.drop_last());
        let block = blocks.last();
        if block_kind(block) == "tool_result"@ && answers(block).len() > 0 {
            before.insert(answers(block), (blocks.len() - 1) as nat)
        } else {
            before
        }
    }
}

/// Whether a block calls a tool under an identifier.
pub open spec fn calls_by(block: JsonV, id: Seq<char>) -> bool {
    block_kind(block) == "tool_use"@ && block.str_or("id"@, ""@) == id
}

/// Whether one of some blocks calls a tool under an identifier.
pub open spec fn is_called(blocks: Seq<JsonV>, id: Seq<char>) -> bool {
    exists|k: int| 0 <= k < blocks.len() && calls_by(#[trigger] blocks[k], id)
}

/// Whether the tool result at a place is the one that is put behind its call.
pub open spec fn is_paired(blocks: Seq<JsonV>, k: int) -> bool {
    let id = answers(blocks[k]);
    &&& is_called(blocks, id)
    &&& results_by_call(blocks).contains_key(id)
    &&& results_by_call(blocks)[id] == k
}

/// The state of the conversion: the items so far, the parts of the message at hand that are not
/// in an item yet, where the tool results stand that wait for their calls, and how many blocks
/// are done.
pub struct Draft {
    pub input: Seq<JsonV>,
    pub content: Seq<JsonV>,
    pub waiting: Map<Seq<char>, nat>,
    pub seen: nat,
}

/// The parts at hand, if any, become a message item.
pub open spec fn flushed(d: Draft, role: Seq<char>) -> Draft {
    if d.content.len() > 0 {
        Draft { input: d.input.push(message_item(role, d.content)), content: Seq::empty(), ..d }
    } else {
        d
    }
}

/// A call, and behind it its result where that is waiting.
pub open spec fn after_call(blocks: Seq<JsonV>, d: Draft, block: JsonV) -> Draft {
    let id = block.str_or("id"@, ""@);
    let input = d.input.push(block_call(block));
    if d.waiting.contains_key(id) {
        Draft {
            input: input.push(output_item(id, blocks[d.waiting[id] as int])),
            waiting: d.waiting.remove(id),
            ..d
        }
    } else {
        Draft { input, ..d }
    }
}

/// A result where it stands; one that is put behind its call is left out here.
pub open spec fn after_result(blocks: Seq<JsonV>, d: Draft, block: JsonV) -> Draft {
    if is_paired(blocks, d.seen as int) {
        d
    } else {
        Draft { input: d.input.push(output_item(answers(block), block)), ..d }
    }
}

/// What one more block of a message does to the items.
pub open spec fn with_block(
    blocks: Seq<JsonV>,
    d: Draft,
    role: Seq<char>,
    block: JsonV,
) -> Draft {
    let kind = block_kind(block);
    if kind == "text"@ {
        match block.str_at("text"@) {
            Some(text) => Draft { content: d.content.push(text_part(text_kind(role), text)), ..d },
            None => d,
        }
    } else if kind == "image"@ {
        match block.get("source"@) {
            Some(source) => Draft { content: d.content.push(image_part(data_url(source))), ..d },
            None => d,
        }
    } else if kind == "tool_use"@ {
        after_call(blocks, flushed(d, role), block)
    } else if kind == "tool_result"@ {
        after_result(blocks, flushed(d, role), block)
    } else if kind == "input_image"@ {
        match block.str_at("image_url"@) {
            Some(url) => Draft { content: d.content.push(image_part(url)), ..d },
            None => d,
        }
    } else {
        d
    }
}

/// The state after the next of all blocks, which a role says.
pub open spec fn after_block(blocks: Seq<JsonV>, d: Draft, role: Seq<char>) -> Draft {
    Draft { seen: d.seen + 1, ..with_block(blocks, d, role, blocks[d.seen as int]) }
}

/// The state after the next `n` of all blocks, which a role says.
pub open spec fn after_blocks(blocks: Seq<JsonV>, d: Draft, role: Seq<char>, n: nat) -> Draft
    decreases n,
{
    if n == 0 {
        d
    } else {
        after_block(blocks, after_blocks(blocks, d, role, (n - 1) as nat), role)
    }
}

/// The state after what one more message says.
pub open spec fn after_content(blocks: Seq<JsonV>, d: Draft, message: JsonV) -> Draft {
    let role = role_of(message);
    match message.get("content"@) {
        Some(JsonV::Str(text)) if !is_tool_message(message) => Draft {
            input: d.input.push(message_item(role, seq![text_part(text_kind(role), text)])),
            ..d
        },
        _ => flushed(after_blocks(blocks, d, role, blocks_of(message).len()), role),
    }
}

/// The state after one more message: behind what it says stands the function that it calls.
pub open spec fn after_message(blocks: Seq<JsonV>, d: Draft, message: JsonV) -> Draft {
    let said = after_content(blocks, d, message);
    match message.get("function_call"@) {
        Some(JsonV::Obj(call)) => Draft {
            input: said.input.push(lifted_call(JsonV::Obj(call))),
            ..said
        },
        _ => said,
    }
}

/// The state after some messages.
pub open spec fn after_messages(blocks: Seq<JsonV>, d: Draft, messages: Seq<JsonV>) -> Draft
    decreases messages.len(),
{
    if messages.len() == 0 {
        d
    } else {
        after_message(blocks, after_messages(blocks, d, messages.drop_last()), messages.last())
    }
}

/// The state before the first message: every tool result waits for its call.
pub open spec fn first_draft(blocks: Seq<JsonV>) -> Draft {
    Draft {
        input: Seq::empty(),
        content: Seq::empty(),
        waiting: results_by_call(blocks),
        seen: 0,
    }
}

/// The input items for a list of messages.
pub open spec fn input_items(messages: Seq<JsonV>) -> Seq<JsonV> {
    let blocks = all_blocks(messages);
    after_messages(blocks, first_draft(blocks), messages).input
}

struct Drafting {
    input: Vec<Json>,
    content: Vec<Json>,
    waiting: Table<Place>,
    seen: usize,
}

impl View for Drafting {
    type V = Draft;

    closed spec fn view(&self) -> Draft {
        Draft {
            input: items_view(self.input@),
            content: items_view(self.content@),
            waiting: self.waiting@,
            seen: self.seen as nat,
        }
    }
}

fn build_text_part(kind: &str, text: &str) -> (r: Json)
    ensures
        r@ == text_part(kind@, text@),
{
    Json::object().set("type", Json::text(kind)).set("text", Json::text(text))
}

fn build_image_part(url: &str) -> (r: Json)
    ensures
        r@ == image_part(url@),
{
    Json::object().set("type", Json::text("input_image")).set("image_url", Json::text(url))
}

fn build_data_url(source: &Json) -> (r: String)
    ensures
        r@ == data_url(source@),
{
    let head = concat("data:", source.str_or("media_type", "image/png"));
    let head = concat(head.as_str(), ";base64,");
    concat(head.as_str(), source.str_or("data", ""))
}

fn build_message_item(role: &str, content: Vec<Json>) -> (r: Json)
    ensures
        r@ == message_item(role@, items_view(content@)),
{
    Json::object().set("role", Json::text(role)).set("content", Json::Arr(content))
}

fn build_call_item(id: &str, call: &Json, arguments: &str) -> (r: Json)
    ensures
        r@ == call_item(
            id@,
            call@.str_or("name"@, ""@),
            or_default(call@.get(arguments@), JsonV::object()),
        ),
{
    let arguments = match call.get(arguments) {
        Some(v) => v.copy(),
        None => Json::object(),
    };
    Json::object().set("type", Json::text("function_call")).set("call_id", Json::text(id)).set(
        "name",
        Json::text(call.str_or("name", "")),
    ).set("arguments", arguments)
}

fn answered_call(block: &Json) -> (r: &str)
    ensures
        r@ == answers(block@),
{
    let named = match block.get("tool_use_id") {
        Some(v) => Some(v),
        None => block.get("tool_call_id"),
    };
    match named {
        Some(v) => match v.as_str() {
            Some(s) => s,
            None => "",
        },
        None => "",
    }
}

fn build_output_item(call_id: &str, block: &Json) -> (r: Json)
    ensures
        r@ == output_item(call_id@, block@),
{
    let parts = match block.get("content") {
        Some(content) => match content {
            Json::Str(text) => Json::single(build_text_part("output_text", text.as_str())),
            Json::Arr(_) => content.copy(),
            _ => Json::single(build_text_part("output_text", "")),
        },
        None => Json::single(build_text_part("output_text", "")),
    };
    Json::object().set("type", Json::text("function_call_output")).set(
        "call_id",
        Json::text(call_id),
    ).set("output", parts)
}

impl Drafting {
    closed spec fn wf(&self, blocks: Seq<JsonV>) -> bool {
        &&& self.waiting.wf()
        &&& forall|id: Seq<char>| #[trigger]
            self.waiting@.contains_key(id) ==> self.waiting@[id] < blocks.len()
    }

    fn flush(&mut self, role: &str, Ghost(blocks): Ghost<Seq<JsonV>>)
        requires
            old(self).wf(blocks),
        ensures
            final(self).wf(blocks),
            final(self)@ == flushed(old(self)@, role@),
    {
        if self.content.len() > 0 {
            let mut content: Vec<Json> = Vec::new();
            std::mem::swap(&mut content, &mut self.content);
            self.input.push(build_message_item(role, content));
        }
    }

    fn call(&mut self, blocks: &Vec<Json>, block: &Json)
        requires
            old(self).wf(items_view(blocks@)),
        ensures
            final(self).wf(items_view(blocks@)),
            final(self)@ == after_call(items_view(blocks@), old(self)@, block@),
    {
        let id = block.str_or("id", "");
        self.input.push(build_call_item(id, block, "input"));
        if let Some(place) = self.waiting.remove(id) {
            let result = &blocks[place.at];
            assert(items_view(blocks@)[place@ as int] == result@);
            self.input.push(build_output_item(id, result));
        } else {
            assert(self.waiting@ =~= old(self).waiting@);
        }
    }

    fn result(&mut self, blocks: &Vec<Json>, results: &Table<Place>, block: &Json)
        requires
            results.wf(),
            results@ == results_by_call(items_view(blocks@)),
            old(self)@.seen < blocks@.len(),
            items_view(blocks@)[old(self)@.seen as int] == block@,
            old(self).wf(items_view(blocks@)),
        ensures
            final(self).wf(items_view(blocks@)),
            final(self)@ == after_result(items_view(blocks@), old(self)@, block@),
    {
        let call_id = answered_call(block);
        let paired = match results.get(call_id) {
            Some(place) => place.at == self.seen && has_call(blocks, call_id),
            None => false,
        };
        if !paired {
            self.input.push(build_output_item(call_id, block));
        }
    }

    fn block(&mut self, blocks: &Vec<Json>, results: &Table<Place>, role: &str)
        requires
            results.wf(),
            results@ == results_by_call(items_view(blocks@)),
            old(self)@.seen < blocks@.len(),
            old(self).wf(items_view(blocks@)),
        ensures
            final(self).wf(items_view(blocks@)),
            final(self)@ == after_block(items_view(blocks@), old(self)@, role@),
    {
        let block = &blocks[self.seen];
        assert(items_view(blocks@)[self.seen as int] == block@);
        let kind = block.str_or("type", "");
        if str_eq(kind, "text") {
            if let Some(text) = block.str_at("text") {
                self.content.push(build_text_part(kind_of_text(role), text));
            }
        } else if str_eq(kind, "image") {
            if let Some(source) = block.get("source") {
                let url = build_data_url(source);
                self.content.push(build_image_part(url.as_str()));
            }
        } else if str_eq(kind, "tool_use") {
            self.flush(role, Ghost(items_view(blocks@)));
            self.call(blocks, block);
        } else if str_eq(kind, "tool_result") {
            self.flush(role, Ghost(items_view(blocks@)));
            self.result(blocks, results, block);
        } else if str_eq(kind, "input_image") {
            if let Some(url) = block.str_at("image_url") {
                self.content.push(build_image_part(url));
            }
        }
        assert(self.seen < blocks.len());
        self.seen += 1;
    }

    fn content(&mut self, blocks: &Vec<Json>, results: &Table<Place>, message: &Json)
        requires
            results.wf(),
            results@ == results_by_call(items_view(blocks@)),
            old(self)@.seen + blocks_of(message@).len() <= blocks@.len(),
            old(self).wf(items_view(blocks@)),
        ensures
            final(self).wf(items_view(blocks@)),
            final(self)@ == after_content(items_view(blocks@), old(self)@, message@),
            final(self)@.seen == old(self)@.seen + blocks_of(message@).len(),
    {
        let role = message.str_or("role", "user");
        if !has_tool_result(message) {
            if let Some(text) = message.str_at("content") {
                let mut parts: Vec<Json> = Vec::new();
                parts.push(build_text_part(kind_of_text(role), text));
                assert(items_view(parts@) =~= seq![text_part(text_kind(role@), text@)]);
                self.input.push(build_message_item(role, parts));
                return;
            }
        }
        let count = block_count(message);
        let mut n: usize = 0;
        while n < count
            invariant
                n <= count,
                results.wf(),
                results@ == results_by_call(items_view(blocks@)),
                old(self)@.seen + count <= blocks@.len(),
                self.wf(items_view(blocks@)),
                self@ == after_blocks(items_view(blocks@), old(self)@, role@, n as nat),
                self@.seen == old(self)@.seen + n,
            decreases count - n,
        {
            self.block(blocks, results, role);
            n += 1;
        }
        self.flush(role, Ghost(items_view(blocks@)));
    }

    fn message(&mut self, blocks: &Vec<Json>, results: &Table<Place>, message: &Json)
        requires
            results.wf(),
            results@ == results_by_call(items_view(blocks@)),
            old(self)@.seen + blocks_of(message@).len() <= blocks@.len(),
            old(self).wf(items_view(blocks@)),
        ensures
            final(self).wf(items_view(blocks@)),
            final(self)@ == after_message(items_view(blocks@), old(self)@, message@),
            final(self)@.seen == old(self)@.seen + blocks_of(message@).len(),
    {
        self.content(blocks, results, message);
        if let Some(call) = message.get("function_call") {
            if let Json::Obj(_) = call {
                self.input.push(build_call_item("", call, "arguments"));
            }
        }
    }
}

fn kind_of_text(role: &str) -> (r: &'static str)
    ensures
        r@ == text_kind(role@),
{
    if str_eq(role, "assistant") {
        "output_text"
    } else {
        "input_text"
    }
}

fn has_tool_result(message: &Json) -> (r: bool)
    ensures
        r == is_tool_message(message@),
{
    str_eq(message.str_or("role", "user"), "tool") && !is_blank(message.str_or("tool_call_id", ""))
}

fn block_count(message: &Json) -> (r: usize)
    ensures
        r == blocks_of(message@).len(),
{
    if has_tool_result(message) {
        1
    } else {
        match message.array_at("content") {
            Some(blocks) => blocks.len(),
            None => 0,
        }
    }
}

fn collect_blocks(messages: &Vec<Json>) -> (r: Vec<Json>)
    ensures
        items_view(r@) == all_blocks(items_view(messages@)),
{
    let mut all: Vec<Json> = Vec::new();
    let ghost list = items_view(messages@);
    let mut i: usize = 0;
    assert(items_view(all@) =~= all_blocks(list.take(0)));
    while i < messages.len()
        invariant
            i <= messages@.len(),
            list == items_view(messages@),
            items_view(all@) == all_blocks(list.take(i as int)),
        decreases messages@.len() - i,
    {
        assert(list.take(i + 1).drop_last() =~= list.take(i as int));
        let message = &messages[i];
        let ghost before = items_view(all@);
        if has_tool_result(message) {
            let block = Json::object().set("type", Json::text("tool_result")).set_opt(
                "tool_call_id",
                message.get_copy("tool_call_id"),
            ).set_opt("content", message.get_copy("content"));
            all.push(block);
            assert(items_view(all@) =~= before + seq![tool_block(message@)]);
        } else if let Some(blocks) = message.array_at("content") {
            let ghost parts = items_view(blocks@);
            let mut j: usize = 0;
            assert(before =~= before + parts.take(0));
            while j < blocks.len()
                invariant
                    j <= blocks@.len(),
                    parts == items_view(blocks@),
                    items_view(all@) == before + parts.take(j as int),
                decreases blocks@.len() - j,
            {
                all.push(blocks[j].copy());
                j += 1;
                assert(items_view(all@) =~= before + parts.take(j as int));
            }
            assert(parts.take(j as int) =~= parts);
        } else {
            assert(items_view(all@) =~= before + Seq::empty());
        }
        i += 1;
    }
    assert(list.take(i as int) =~= list);
    all
}

fn has_call(blocks: &Vec<Json>, id: &str) -> (r: bool)
    ensures
        r == is_called(items_view(blocks@), id@),
{
    let ghost list = items_view(blocks@);
    let mut k: usize = 0;
    while k < blocks.len()
        invariant
            k <= blocks@.len(),
            list == items_view(blocks@),
            forall|j: int| 0 <= j < k ==> !calls_by(#[trigger] list[j], id@),
        decreases blocks@.len() - k,
    {
        let block = &blocks[k];
        assert(list[k as int] == block@);
        if str_eq(block.str_or("type", ""), "tool_use") && str_eq(block.str_or("id", ""), id) {
            assert(calls_by(list[k as int], id@));
            return true;
        }
        k += 1;
    }
    false
}

fn index_results(blocks: &Vec<Json>) -> (r: Table<Place>)
    ensures
        r.wf(),
        r@ == results_by_call(items_view(blocks@)),
        forall|id: Seq<char>| #[trigger] r@.contains_key(id) ==> r@[id] < blocks@.len(),
{
    let mut results: Table<Place> = Table::new();
    let ghost list = items_view(blocks@);
    let mut i: usize = 0;
    while i < blocks.len()
        invariant
            i <= blocks@.len(),
            list == items_view(blocks@),
            results.wf(),
            results@ == results_by_call(list.take(i as int)),
            forall|id: Seq<char>| #[trigger] results@.contains_key(id) ==> results@[id] < i,
        decreases blocks@.len() - i,
    {
        assert(list.take(i + 1).drop_last() =~= list.take(i as int));
        let block = &blocks[i];
        let call_id = answered_call(block);
        if str_eq(block.str_or("type", ""), "tool_result") && !call_id.is_empty() {
            results.insert(call_id, Place { at: i });
        }
        i += 1;
    }
    assert(list.take(i as int) =~= list);
    results
}

/// The blocks of the first messages are no more than those of all.
pub proof fn lemma_blocks_so_far(messages: Seq<JsonV>, k: int)
    requires
        0 <= k <= messages.len(),
    ensures
        all_blocks(messages.take(k)).len() <= all_blocks(messages).len(),
    decreases messages.len(),
{
    if k < messages.len() {
        lemma_blocks_so_far(messages.drop_last(), k);
        assert(messages.drop_last().take(k) =~= messages.take(k));
    } else {
        assert(messages.take(k) =~= messages);
    }
}

/// The input items for a list of messages. Text and images stay in message items; calls of tools
/// and their results become items of their own. A result is put right behind its call, and is left
/// out where it stands itself; one without a call is listed where it stands. The message of a tool
/// is such a result. A function that a message calls stands behind what the message says.
pub fn convert_chat_messages_to_input(messages: &Vec<Json>) -> (r: Vec<Json>)
    ensures
        items_view(r@) == input_items(items_view(messages@)),
{
    let blocks = collect_blocks(messages);
    let results = index_results(&blocks);
    let waiting = index_results(&blocks);
    let mut draft = Drafting { input: Vec::new(), content: Vec::new(), waiting, seen: 0 };
    let ghost list = items_view(messages@);
    let ghost first = draft@;
    let mut i: usize = 0;
    assert(first == first_draft(all_blocks(list)));
    while i < messages.len()
        invariant
            i <= messages@.len(),
            list == items_view(messages@),
            items_view(blocks@) == all_blocks(list),
            results.wf(),
            results@ == results_by_call(items_view(blocks@)),
            draft.wf(items_view(blocks@)),
            draft@ == after_messages(all_blocks(list), first, list.take(i as int)),
            draft@.seen == all_blocks(list.take(i as int)).len(),
        decreases messages@.len() - i,
    {
        proof {
            assert(list.take(i + 1).drop_last() =~= list.take(i as int));
            assert(list.take(i + 1).last() == list[i as int]);
            lemma_blocks_so_far(list, i + 1);
        }
        draft.message(&blocks, &results, &messages[i]);
        i += 1;
    }
    assert(list.take(i as int) =~= list);
    draft.input
}

} // verus!
