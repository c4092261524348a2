//! Turning the input items of a Responses request into chat messages.

use std::collections::VecDeque;
use vstd::prelude::*;
use crate::arguments::{normal_arguments, normalize_tool_arguments};
use crate::content::{flat_content, flatten_content_items, function_output_to_text, output_text};
use crate::error::ProxyError;
use crate::json::{either, items_view, or_default, Json, JsonV};
use crate::machine::{fresh_call_id, is_call_id};
use crate::table::{Place, Table};
use crate::text::{is_blank, str_eq, texts, trim};
use crate::value::{compact_or, parsed, plain};

verus! {

broadcast use {crate::json::group_json, crate::text::lemma_texts_push};

/// The kind of an item. An item that tells a role and no kind is a message.
pub open spec fn item_kind(item: JsonV) -> Seq<char> {
    if item.get("type"@) is None && item.get("role"@) is Some {
        "message"@
    } else {
        item.str_or("type"@, ""@)
    }
}

/// The call that an item names, unless the name is blank.
pub open spec fn named_call(item: JsonV) -> Option<Seq<char>> {
    match item.str_at("call_id"@) {
        Some(id) => if trim(id).len() > 0 {
            Some(id)
        } else {
            None
        },
        None => None,
    }
}

/// Whether an item calls a tool; one without a name does not.
pub open spec fn is_call(item: JsonV) -> bool {
    (item_kind(item) == "function_call"@ || item_kind(item) == "custom_tool_call"@) && item.str_or(
        "name"@,
        ""@,
    ).len() > 0
}

/// Whether an item needs a new identifier: a call that names none.
pub open spec fn needs_id(item: JsonV) -> bool {
    is_call(item) && named_call(item) is None
}

/// How many new identifiers a list of items needs.
pub open spec fn ids_needed(items: Seq<JsonV>) -> nat
    decreases items.len(),
{
    if items.len() == 0 {
        0
    } else {
        ids_needed(items.drop_last()) + if needs_id(items.last()) {
            1nat
        } else {
            0nat
        }
    }
}

/// Where the outputs of calls stand in a list of items, by the call they name; the last one counts.
pub open spec fn outputs_by_call(items: Seq<JsonV>) -> Map<Seq<char>, nat>
    decreases items.len(),
{
    if items.len() == 0 {
        Map::empty()
    } else {
        let before = outputs_by_call(items.drop_last());
        let item = items.last();
        let kind = item_kind(item);
        let id = item.str_or("call_id"@, ""@);
        if (kind == "function_call_output"@ || kind == "custom_tool_call_output"@) && id.len() > 0 {
            before.insert(id, (items.len() - 1) as nat)
        } else {
            before
        }
    }
}

/// Whether a call with an identifier stands in a list of items.
pub open spec fn is_called(items: Seq<JsonV>, id: Seq<char>) -> bool {
    exists|k: int| 0 <= k < items.len() && is_call_of(#[trigger] items[k], id)
}

/// Whether an item is a call with an identifier.
pub open spec fn is_call_of(item: JsonV, id: Seq<char>) -> bool {
    is_call(item) && named_call(item) == Some(id)
}

/// Whether a call with an identifier stands in a list of items, and an output of it, too.
pub open spec fn is_answered(items: Seq<JsonV>, id: Seq<char>) -> bool {
    outputs_by_call(items).contains_key(id) && is_called(items, id)
}

/// Whether an output stands behind its call already: its call is in the list, and this is the
/// output that it took.
pub open spec fn is_taken(items: Seq<JsonV>, k: int) -> bool {
    let id = items[k].str_or("call_id"@, ""@);
    is_answered(items, id) && outputs_by_call(items)[id] == k
}

/// Whether an identifier is blank and an output in a list of items has it. There is no call that it
/// could name.
pub open spec fn is_blank_output(items: Seq<JsonV>, id: Seq<char>) -> bool {
    outputs_by_call(items).contains_key(id) && trim(id).len() == 0
}

/// Whether the output at a place adds nothing there: it stands behind its call already, or the
/// identifier that it has is blank.
pub open spec fn is_left_out(items: Seq<JsonV>, k: int) -> bool {
    is_taken(items, k) || is_blank_output(items, items[k].str_or("call_id"@, ""@))
}

/// The role of a message in a chat; there are no developers there.
pub open spec fn chat_role(item: JsonV) -> Seq<char> {
    let role = item.str_or("role"@, "user"@);
    if role == "developer"@ {
        "user"@
    } else {
        role
    }
}

/// The text of a message item.
pub open spec fn message_text(item: JsonV) -> Seq<char> {
    match item.array_at("content"@) {
        Some(parts) => flat_content(parts),
        None => Seq::empty(),
    }
}

/// A chat message with a text.
pub open spec fn text_message(role: Seq<char>, text: Seq<char>) -> JsonV {
    JsonV::object().set("role"@, JsonV::Str(role)).set("content"@, JsonV::Str(text))
}

/// A call of a function in a chat.
pub open spec fn chat_call(id: Seq<char>, name: Seq<char>, arguments: JsonV) -> JsonV {
    JsonV::object().set("id"@, JsonV::Str(id)).set("type"@, JsonV::Str("function"@)).set(
        "function"@,
        JsonV::object().set("name"@, JsonV::Str(name)).set("arguments"@, arguments),
    )
}

/// The assistant's message that calls a tool.
pub open spec fn call_message(id: Seq<char>, name: Seq<char>, arguments: JsonV) -> JsonV {
    JsonV::object().set("role"@, JsonV::Str("assistant"@)).set("content"@, JsonV::Str(""@)).set(
        "tool_calls"@,
        JsonV::Arr(seq![chat_call(id, name, arguments)]),
    )
}

/// The message with the output of a tool.
pub open spec fn tool_message(id: Seq<char>, text: Seq<char>) -> JsonV {
    JsonV::object().set("role"@, JsonV::Str("tool"@)).set("tool_call_id"@, JsonV::Str(id)).set(
        "content"@,
        JsonV::Str(text),
    )
}

/// The normalised arguments of a call.
pub open spec fn normal_call_arguments(item: JsonV) -> JsonV {
    let given = if item_kind(item) == "function_call"@ {
        item.get("arguments"@)
    } else {
        either(item.get("input"@), item.get("arguments"@))
    };
    normal_arguments(item.str_or("name"@, ""@), or_default(given, JsonV::Null))
}

/// The arguments of a call: as JSON text for a function, as a value for a custom tool.
pub open spec fn call_arguments(item: JsonV) -> JsonV {
    if item_kind(item) == "function_call"@ {
        JsonV::Str(compact_or(normal_call_arguments(item), "{}"@))
    } else {
        normal_call_arguments(item)
    }
}

/// The text of the arguments of a function reads as the normalised arguments: they are encoded
/// once. This is said of arguments that are written without loss.
pub open spec fn is_encoded_once(item: JsonV) -> bool {
    item_kind(item) == "function_call"@ && plain(normal_call_arguments(item), 127) ==> parsed(
        call_arguments(item)->Str_0,
    ) == Some(normal_call_arguments(item))
}

/// The text of an optional output.
pub open spec fn opt_output_text(output: Option<JsonV>) -> Seq<char> {
    match output {
        Some(value) => output_text(value),
        None => Seq::empty(),
    }
}

/// A call of a custom tool that has no output yet, and the place of its output among the messages.
pub struct Unanswered {
    pub id: Seq<char>,
    pub place: nat,
}

/// The state of the conversion: the messages so far, the calls whose outputs are still to come,
/// the calls of custom tools among them, and how many new identifiers were used.
pub struct Turns {
    pub messages: Seq<JsonV>,
    pub pending: Seq<Seq<char>>,
    pub unanswered: Seq<Unanswered>,
    pub used: nat,
}

/// The unanswered calls but for those with an identifier.
pub open spec fn without_call(list: Seq<Unanswered>, id: Seq<char>) -> Seq<Unanswered>
    decreases list.len(),
{
    if list.len() == 0 {
        list
    } else if list.last().id == id {
        without_call(list.drop_last(), id)
    } else {
        without_call(list.drop_last(), id).push(list.last())
    }
}

/// The messages with an empty output for each call that is still unanswered, in its place.
pub open spec fn answered(messages: Seq<JsonV>, list: Seq<Unanswered>) -> Seq<JsonV>
    decreases list.len(),
{
    if list.len() == 0 {
        messages
    } else {
        let call = list.last();
        answered(
            messages.insert(call.place as int, tool_message(call.id, Seq::empty())),
            list.drop_last(),
        )
    }
}

/// The call that an output belongs to, and the calls that are still pending then: the call that
/// the output names, or else the one that has been pending longest.
pub open spec fn resolved(item: JsonV, pending: Seq<Seq<char>>) -> Option<
    (Seq<char>, Seq<Seq<char>>),
> {
    match named_call(item) {
        Some(id) => Some((id, pending)),
        None => if pending.len() > 0 {
            Some((pending.first(), pending.drop_first()))
        } else {
            None
        },
    }
}

/// The state after an output; nothing where no call can be found for it.
pub open spec fn after_output(t: Turns, item: JsonV, text: Seq<char>) -> Option<Turns> {
    match resolved(item, t.pending) {
        Some((id, pending)) => Some(
            Turns {
                messages: t.messages.push(tool_message(id, text)),
                pending,
                unanswered: without_call(t.unanswered, id),
                ..t
            },
        ),
        None => None,
    }
}

/// The state after a call. An output that names the call follows at once; otherwise the call is
/// pending.
pub open spec fn after_call(
    items: Seq<JsonV>,
    t: Turns,
    item: JsonV,
    fresh: Seq<Seq<char>>,
) -> Option<Turns> {
    let outputs = outputs_by_call(items);
    let id = or_default(named_call(item), fresh[t.used as int]);
    let used = if needs_id(item) {
        t.used + 1
    } else {
        t.used
    };
    let called = Turns {
        messages: t.messages.push(
            call_message(id, item.str_or("name"@, ""@), call_arguments(item)),
        ),
        used,
        ..t
    };
    if outputs.contains_key(id) {
        let output = items[outputs[id] as int];
        after_output(called, output, opt_output_text(output.get("output"@)))
    } else {
        Some(
            Turns {
                pending: t.pending.push(id),
                unanswered: if item_kind(item) == "custom_tool_call"@ {
                    t.unanswered.push(Unanswered { id, place: called.messages.len() })
                } else {
                    t.unanswered
                },
                ..called
            },
        )
    }
}

/// The state after the item at a place; nothing where the item is an output without a call. An
/// output that stands behind its call already adds nothing, and neither does one with a blank
/// identifier.
pub open spec fn after_item(
    items: Seq<JsonV>,
    t: Turns,
    k: int,
    fresh: Seq<Seq<char>>,
) -> Option<Turns> {
    let item = items[k];
    let kind = item_kind(item);
    if kind == "message"@ {
        if trim(message_text(item)).len() > 0 {
            Some(
                Turns {
                    messages: t.messages.push(text_message(chat_role(item), message_text(item))),
                    ..t
                },
            )
        } else {
            Some(t)
        }
    } else if is_call(item) {
        after_call(items, t, item, fresh)
    } else if kind == "function_call_output"@ {
        if is_left_out(items, k) {
            Some(t)
        } else {
            after_output(t, item, opt_output_text(item.get("output"@)))
        }
    } else if kind == "tool_result"@ {
        let id = item.str_or("call_id"@, ""@);
        if is_answered(items, id) || is_blank_output(items, id) {
            Some(t)
        } else {
            after_output(
                t,
                item,
                opt_output_text(either(item.get("output"@), item.get("result"@))),
            )
        }
    } else if kind == "custom_tool_call_output"@ {
        after_output(t, item, opt_output_text(item.get("output"@)))
    } else {
        Some(t)
    }
}

/// The state before the first item.
pub open spec fn no_turns() -> Turns {
    Turns { messages: Seq::empty(), pending: Seq::empty(), unanswered: Seq::empty(), used: 0 }
}

/// The state after the first `n` items; nothing where one of them is an output without a call.
pub open spec fn after_items(items: Seq<JsonV>, n: nat, fresh: Seq<Seq<char>>) -> Option<Turns>
    decreases n,
{
    if n == 0 {
        Some(no_turns())
    } else {
        match after_items(items, (n - 1) as nat, fresh) {
            Some(t) => after_item(items, t, n - 1, fresh),
            None => None,
        }
    }
}

/// The chat messages for a list of items, where calls that name no identifier get the fresh ones
/// in turn; nothing where an output belongs to no call. A call of a custom tool has an output in
/// any case: an empty one stands behind it where the input has none.
pub open spec fn chat_messages(items: Seq<JsonV>, fresh: Seq<Seq<char>>) -> Option<Seq<JsonV>> {
    match after_items(items, items.len(), fresh) {
        Some(t) => Some(answered(t.messages, t.unanswered)),
        None => None,
    }
}

/// The message of the error for an output without a call.
pub open spec fn no_pending_call() -> Seq<char> {
    "No pending tool call id to resolve"@
}

struct Waiting {
    id: String,
    place: usize,
}

impl View for Waiting {
    type V = Unanswered;

    closed spec fn view(&self) -> Unanswered {
        Unanswered { id: self.id@, place: self.place as nat }
    }
}

spec fn waiting_view(list: Seq<Waiting>) -> Seq<Unanswered> {
    Seq::new(list.len(), |i: int| list[i]@)
}

struct Turning {
    messages: Vec<Json>,
    pending: VecDeque<String>,
    unanswered: Vec<Waiting>,
    used: usize,
}

impl View for Turning {
    type V = Turns;

    closed spec fn view(&self) -> Turns {
        Turns {
            messages: items_view(self.messages@),
            pending: texts(self.pending@),
            unanswered: waiting_view(self.unanswered@),
            used: self.used as nat,
        }
    }
}

fn kind_of(item: &Json) -> (r: &str)
    ensures
        r@ == item_kind(item@),
{
    if item.get("type").is_none() && item.get("role").is_some() {
        "message"
    } else {
        item.str_or("type", "")
    }
}

fn calls_tool(item: &Json) -> (r: bool)
    ensures
        r == is_call(item@),
{
    let kind = kind_of(item);
    (str_eq(kind, "function_call") || str_eq(kind, "custom_tool_call")) && !item.str_or(
        "name",
        "",
    ).is_empty()
}

fn call_named(item: &Json) -> (r: Option<&str>)
    ensures
        crate::json::opt_text(r) == named_call(item@),
{
    match item.str_at("call_id") {
        Some(id) => if is_blank(id) {
            None
        } else {
            Some(id)
        },
        None => None,
    }
}

/// Finds the call that an output belongs to: the call that it names, or else the one that has been
/// pending longest, which then is no longer pending.
pub fn resolve_tool_output_call_id(item: &Json, pending_ids: &mut VecDeque<String>) -> (r: Result<
    String,
    ProxyError,
>)
    ensures
        match r {
            Ok(id) => resolved(item@, texts(old(pending_ids)@)) == Some(
                (id@, texts(final(pending_ids)@)),
            ),
            Err(e) => {
                &&& resolved(item@, texts(old(pending_ids)@)) is None
                &&& e.text() == no_pending_call()
                &&& final(pending_ids)@ == old(pending_ids)@
            },
        },
{
    if let Some(id) = call_named(item) {
        return Ok(id.to_owned());
    }
    match pending_ids.pop_front() {
        Some(id) => {
            assert(texts(pending_ids@) =~= texts(old(pending_ids)@).drop_first());
            Ok(id)
        },
        None => Err(ProxyError::TransformError("No pending tool call id to resolve".to_owned())),
    }
}

fn build_text_message(role: &str, text: &str) -> (r: Json)
    ensures
        r@ == text_message(role@, text@),
{
    Json::object().set("role", Json::text(role)).set("content", Json::text(text))
}

/// The system message with the instructions of a request.
pub fn system_message(instructions: &str) -> (r: Json)
    ensures
        r@ == text_message("system"@, instructions@),
{
    build_text_message("system", instructions)
}

/// A call of a function in a chat.
pub fn build_chat_call(id: &str, name: &str, arguments: Json) -> (r: Json)
    ensures
        r@ == chat_call(id@, name@, arguments@),
{
    let function = Json::object().set("name", Json::text(name)).set("arguments", arguments);
    Json::object().set("id", Json::text(id)).set("type", Json::text("function")).set(
        "function",
        function,
    )
}

fn build_call_message(id: &str, name: &str, arguments: Json) -> (r: Json)
    ensures
        r@ == call_message(id@, name@, arguments@),
{
    Json::object().set("role", Json::text("assistant")).set("content", Json::text("")).set(
        "tool_calls",
        Json::single(build_chat_call(id, name, arguments)),
    )
}

fn build_tool_message(id: &str, text: &str) -> (r: Json)
    ensures
        r@ == tool_message(id@, text@),
{
    Json::object().set("role", Json::text("tool")).set("tool_call_id", Json::text(id)).set(
        "content",
        Json::text(text),
    )
}

/// The arguments of a call, normalised: as JSON text for a function, as a value for a custom tool.
pub fn build_call_arguments(item: &Json) -> (r: Json)
    ensures
        r@ == call_arguments(item@),
        is_encoded_once(item@),
{
    let is_function = str_eq(kind_of(item), "function_call");
    let given = if is_function {
        item.get("arguments")
    } else {
        match item.get("input") {
            Some(v) => Some(v),
            None => item.get("arguments"),
        }
    };
    let name = item.str_or("name", "");
    let normalized = match given {
        Some(raw) => normalize_tool_arguments(name, raw),
        None => normalize_tool_arguments(name, &Json::Null),
    };
    if is_function {
        Json::Str(normalized.compact_or("{}"))
    } else {
        normalized
    }
}

fn output_text_of(output: Option<&Json>) -> (r: String)
    ensures
        r@ == opt_output_text(crate::json::opt_view(output)),
{
    match output {
        Some(value) => function_output_to_text(value),
        None => String::new(),
    }
}

proof fn lemma_without_next(list: Seq<Unanswered>, k: int, id: Seq<char>)
    requires
        0 <= k < list.len(),
    ensures
        without_call(list.take(k + 1), id) == if list[k].id == id {
            without_call(list.take(k), id)
        } else {
            without_call(list.take(k), id).push(list[k])
        },
{
    assert(list.take(k + 1).drop_last() =~= list.take(k));
}

/// The places of unanswered calls lie within so many messages.
pub open spec fn places_fit(list: Seq<Unanswered>, len: nat) -> bool {
    forall|i: int| 0 <= i < list.len() ==> (#[trigger] list[i]).place <= len
}

fn answer(list: &mut Vec<Waiting>, id: &str, Ghost(len): Ghost<nat>)
    requires
        places_fit(waiting_view(old(list)@), len),
    ensures
        waiting_view(final(list)@) == without_call(waiting_view(old(list)@), id@),
        places_fit(waiting_view(final(list)@), len),
{
    let ghost all = waiting_view(list@);
    let ghost mut k: int = 0;
    let mut i: usize = 0;
    assert(all.take(0) =~= Seq::empty());
    assert(waiting_view(list@) =~= without_call(all.take(0), id@) + all.skip(0));
    while i < list.len()
        invariant
            all == waiting_view(old(list)@),
            0 <= k <= all.len(),
            i == without_call(all.take(k), id@).len(),
            waiting_view(list@) == without_call(all.take(k), id@) + all.skip(k),
            places_fit(waiting_view(list@), len),
        decreases all.len() - k,
    {
        assert(waiting_view(list@)[i as int] == all[k]);
        proof {
            lemma_without_next(all, k, id@);
        }
        let ghost before = waiting_view(list@);
        if str_eq(list[i].id.as_str(), id) {
            let _ = list.remove(i);
            assert(waiting_view(list@) =~= before.remove(i as int));
            assert forall|j: int| 0 <= j < waiting_view(list@).len() implies (
            #[trigger] waiting_view(list@)[j]).place <= len by {
                assert(before[if j < i {
                    j
                } else {
                    j + 1
                }].place <= len);
            }
        } else {
            i += 1;
        }
        proof {
            assert(waiting_view(list@) =~= without_call(all.take(k + 1), id@) + all.skip(k + 1));
            k = k + 1;
        }
    }
    assert(k == all.len()) by {
        assert(waiting_view(list@).len() == i);
    }
    assert(all.take(k) =~= all);
    assert(waiting_view(list@) =~= without_call(all, id@));
}

impl Turning {
    closed spec fn wf(&self) -> bool {
        places_fit(self@.unanswered, self@.messages.len())
    }

    fn output(&mut self, item: &Json, text: &str) -> (r: Result<(), ProxyError>)
        requires
            old(self).wf(),
        ensures
            final(self).wf(),
            match r {
                Ok(_) => after_output(old(self)@, item@, text@) == Some(final(self)@),
                Err(e) => after_output(old(self)@, item@, text@) is None && e.text()
                    == no_pending_call(),
            },
    {
        match resolve_tool_output_call_id(item, &mut self.pending) {
            Ok(id) => {
                self.messages.push(build_tool_message(id.as_str(), text));
                let ghost len = self@.messages.len();
                answer(&mut self.unanswered, id.as_str(), Ghost(len));
                Ok(())
            },
            Err(e) => Err(e),
        }
    }

    fn call(
        &mut self,
        input: &Vec<Json>,
        outputs: &Table<Place>,
        item: &Json,
        fresh: &Vec<String>,
    ) -> (r: Result<(), ProxyError>)
        requires
            old(self).wf(),
            outputs.wf(),
            outputs@ == outputs_by_call(items_view(input@)),
            is_call(item@),
            needs_id(item@) ==> old(self)@.used < fresh@.len(),
        ensures
            final(self).wf(),
            is_encoded_once(item@),
            match r {
                Ok(_) => after_call(items_view(input@), old(self)@, item@, texts(fresh@)) == Some(
                    final(self)@,
                ),
                Err(e) => after_call(items_view(input@), old(self)@, item@, texts(fresh@)) is None
                    && e.text() == no_pending_call(),
            },
    {
        let id = match call_named(item) {
            Some(id) => id.to_owned(),
            None => {
                let id = fresh[self.used].clone();
                assert(self.used < fresh.len());
                self.used += 1;
                id
            },
        };
        self.messages.push(
            build_call_message(id.as_str(), item.str_or("name", ""), build_call_arguments(item)),
        );
        match outputs.get(id.as_str()) {
            Some(place) => {
                proof {
                    lemma_outputs_stand(items_view(input@), id@);
                }
                let output = &input[place.at];
                assert(items_view(input@)[place@ as int] == output@);
                let text = output_text_of(output.get("output"));
                self.output(output, text.as_str())
            },
            None => {
                if str_eq(kind_of(item), "custom_tool_call") {
                    let ghost before = waiting_view(self.unanswered@);
                    let waiting = Waiting { id: id.clone(), place: self.messages.len() };
                    self.unanswered.push(waiting);
                    assert(waiting_view(self.unanswered@) =~= before.push(waiting@));
                }
                self.pending.push_back(id);
                Ok(())
            },
        }
    }

    fn item(
        &mut self,
        input: &Vec<Json>,
        outputs: &Table<Place>,
        k: usize,
        fresh: &Vec<String>,
    ) -> (r: Result<(), ProxyError>)
        requires
            k < input@.len(),
            old(self).wf(),
            outputs.wf(),
            outputs@ == outputs_by_call(items_view(input@)),
            needs_id(input@[k as int]@) ==> old(self)@.used < fresh@.len(),
        ensures
            final(self).wf(),
            is_call(input@[k as int]@) ==> is_encoded_once(input@[k as int]@),
            match r {
                Ok(_) => after_item(items_view(input@), old(self)@, k as int, texts(fresh@))
                    == Some(final(self)@),
                Err(e) => after_item(items_view(input@), old(self)@, k as int, texts(fresh@)) is None
                    && e.text() == no_pending_call(),
            },
    {
        let item = &input[k];
        let kind = kind_of(item);
        assert(items_view(input@)[k as int] == item@);
        proof {
            lemma_message_is_no_call(item@);
        }
        if str_eq(kind, "message") {
            let text = match item.array_at("content") {
                Some(parts) => flatten_content_items(parts),
                None => String::new(),
            };
            if !is_blank(text.as_str()) {
                let role = item.str_or("role", "user");
                let role = if str_eq(role, "developer") {
                    "user"
                } else {
                    role
                };
                self.messages.push(build_text_message(role, text.as_str()));
            }
            return Ok(());
        }
        if calls_tool(item) {
            return self.call(input, outputs, item, fresh);
        }
        if str_eq(kind, "function_call_output") {
            if !left_out(input, outputs, k) {
                let text = output_text_of(item.get("output"));
                return self.output(item, text.as_str());
            }
        } else if str_eq(kind, "tool_result") {
            let id = item.str_or("call_id", "");
            if !has_answer(input, outputs, id) {
                let given = match item.get("output") {
                    Some(v) => Some(v),
                    None => item.get("result"),
                };
                let text = output_text_of(given);
                return self.output(item, text.as_str());
            }
        } else if str_eq(kind, "custom_tool_call_output") {
            let text = output_text_of(item.get("output"));
            return self.output(item, text.as_str());
        }
        Ok(())
    }

    fn into_messages(self) -> (r: Vec<Json>)
        requires
            self.wf(),
        ensures
            items_view(r@) == answered(self@.messages, self@.unanswered),
    {
        let ghost first = self@.messages;
        let ghost list = self@.unanswered;
        let unanswered = self.unanswered;
        let mut messages = self.messages;
        let mut i: usize = unanswered.len();
        assert(list.take(i as int) =~= list);
        while i > 0
            invariant
                i <= unanswered@.len(),
                list == waiting_view(unanswered@),
                first.len() <= messages@.len(),
                places_fit(list, first.len()),
                answered(items_view(messages@), list.take(i as int)) == answered(first, list),
            decreases i,
        {
            i -= 1;
            let ghost before = items_view(messages@);
            let call = &unanswered[i];
            assert(list[i as int] == call@);
            assert(list.take(i + 1).last() == call@);
            assert(list.take(i + 1).drop_last() =~= list.take(i as int));
            let message = build_tool_message(call.id.as_str(), "");
            proof {
                reveal_strlit("");
                assert(""@ =~= Seq::empty());
            }
            messages.insert(call.place, message);
            assert(items_view(messages@) =~= before.insert(call@.place as int, message@));
        }
        assert(list.take(0) =~= Seq::empty());
        messages
    }
}

/// A message is no call.
pub proof fn lemma_message_is_no_call(item: JsonV)
    ensures
        item_kind(item) == "message"@ ==> !is_call(item),
{
    reveal_strlit("message");
    reveal_strlit("function_call");
    reveal_strlit("custom_tool_call");
    assert("message"@.len() == 7);
    assert("function_call"@.len() == 13);
    assert("custom_tool_call"@.len() == 16);
}

proof fn lemma_without_fits(list: Seq<Unanswered>, id: Seq<char>, len: nat)
    requires
        places_fit(list, len),
    ensures
        places_fit(without_call(list, id), len),
    decreases list.len(),
{
    if list.len() > 0 {
        lemma_without_fits(list.drop_last(), id, len);
    }
}

/// The places of unanswered calls lie within the messages so far.
pub proof fn lemma_places_fit(items: Seq<JsonV>, n: nat, fresh: Seq<Seq<char>>)
    ensures
        after_items(items, n, fresh) matches Some(t) ==> places_fit(
            t.unanswered,
            t.messages.len(),
        ),
    decreases n,
{
    if n > 0 {
        lemma_places_fit(items, (n - 1) as nat, fresh);
        if let Some(t) = after_items(items, (n - 1) as nat, fresh) {
            assert forall|id: Seq<char>| places_fit(
                #[trigger] without_call(t.unanswered, id),
                t.messages.len(),
            ) by {
                lemma_without_fits(t.unanswered, id, t.messages.len());
            }
        }
    }
}

/// An output stands where the index has it, and names its call.
pub proof fn lemma_outputs_stand(items: Seq<JsonV>, id: Seq<char>)
    ensures
        outputs_by_call(items).contains_key(id) ==> {
            let k = outputs_by_call(items)[id] as int;
            &&& k < items.len() && items[k].str_at("call_id"@) == Some(id) && id.len() > 0
            &&& item_kind(items[k]) == "function_call_output"@ || item_kind(items[k])
                == "custom_tool_call_output"@
        },
    decreases items.len(),
{
    reveal_strlit("");
    assert(""@.len() == 0);
    if items.len() > 0 {
        lemma_outputs_stand(items.drop_last(), id);
    }
}

fn called(items: &Vec<Json>, id: &str) -> (r: bool)
    ensures
        r == is_called(items_view(items@), id@),
{
    let ghost list = items_view(items@);
    let mut k: usize = 0;
    while k < items.len()
        invariant
            k <= items@.len(),
            list == items_view(items@),
            forall|j: int| 0 <= j < k ==> !is_call_of(#[trigger] list[j], id@),
        decreases items@.len() - k,
    {
        assert(list[k as int] == items@[k as int]@);
        if calls_tool(&items[k]) {
            if let Some(named) = call_named(&items[k]) {
                if str_eq(named, id) {
                    assert(is_call_of(list[k as int], id@));
                    return true;
                }
            }
        }
        k += 1;
    }
    false
}

fn has_answer(items: &Vec<Json>, outputs: &Table<Place>, id: &str) -> (r: bool)
    requires
        outputs.wf(),
        outputs@ == outputs_by_call(items_view(items@)),
    ensures
        r == (is_answered(items_view(items@), id@) || is_blank_output(items_view(items@), id@)),
{
    outputs.contains_key(id) && (is_blank(id) || called(items, id))
}

fn left_out(items: &Vec<Json>, outputs: &Table<Place>, k: usize) -> (r: bool)
    requires
        k < items@.len(),
        outputs.wf(),
        outputs@ == outputs_by_call(items_view(items@)),
    ensures
        r == is_left_out(items_view(items@), k as int),
{
    assert(items_view(items@)[k as int] == items@[k as int]@);
    let id = items[k].str_or("call_id", "");
    match outputs.get(id) {
        Some(place) => is_blank(id) || (place.at == k && called(items, id)),
        None => false,
    }
}

fn index_outputs(items: &Vec<Json>) -> (r: Table<Place>)
    ensures
        r.wf(),
        r@ == outputs_by_call(items_view(items@)),
{
    let mut outputs: Table<Place> = Table::new();
    let ghost list = items_view(items@);
    let mut i: usize = 0;
    while i < items.len()
        invariant
            i <= items@.len(),
            list == items_view(items@),
            outputs.wf(),
            outputs@ == outputs_by_call(list.take(i as int)),
        decreases items@.len() - i,
    {
        assert(list.take(i + 1).drop_last() =~= list.take(i as int));
        let kind = kind_of(&items[i]);
        let id = items[i].str_or("call_id", "");
        if (str_eq(kind, "function_call_output") || str_eq(kind, "custom_tool_call_output"))
            && !id.is_empty() {
            outputs.insert(id, Place { at: i });
        }
        i += 1;
    }
    assert(list.take(i as int) =~= list);
    outputs
}

proof fn lemma_ids_needed_prefix(items: Seq<JsonV>, k: int)
    requires
        0 <= k <= items.len(),
    ensures
        ids_needed(items.take(k)) <= ids_needed(items),
    decreases items.len(),
{
    if k < items.len() {
        lemma_ids_needed_prefix(items.drop_last(), k);
        assert(items.drop_last().take(k) =~= items.take(k));
    } else {
        assert(items.take(k) =~= items);
    }
}

proof fn lemma_failed_prefix(items: Seq<JsonV>, fresh: Seq<Seq<char>>, k: nat, n: nat)
    requires
        k <= n,
        after_items(items, k, fresh) is None,
    ensures
        after_items(items, n, fresh) is None,
    decreases n,
{
    if k < n {
        lemma_failed_prefix(items, fresh, k, (n - 1) as nat);
    }
}

proof fn lemma_used(items: Seq<JsonV>, t: Turns, k: int, fresh: Seq<Seq<char>>)
    ensures
        after_item(items, t, k, fresh) matches Some(next) ==> next.used == t.used + if needs_id(
            items[k],
        ) {
            1nat
        } else {
            0nat
        },
{
    lemma_message_is_no_call(items[k]);
}

/// The chat messages for a list of items, where calls that name no identifier get the fresh ones
/// in turn. The arguments of functions are encoded once.
pub fn convert_input_with_ids(input: &Vec<Json>, fresh: &Vec<String>) -> (r: Result<
    Vec<Json>,
    ProxyError,
>)
    requires
        fresh@.len() >= ids_needed(items_view(input@)),
    ensures
        match r {
            Ok(messages) => chat_messages(items_view(input@), texts(fresh@)) == Some(
                items_view(messages@),
            ) && are_encoded_once(items_view(input@)),
            Err(e) => chat_messages(items_view(input@), texts(fresh@)) is None && e.text()
                == no_pending_call(),
        },
{
    let outputs = index_outputs(input);
    let mut turns = Turning {
        messages: Vec::new(),
        pending: VecDeque::new(),
        unanswered: Vec::new(),
        used: 0,
    };
    let ghost list = items_view(input@);
    let mut i: usize = 0;
    assert(texts(turns.pending@) =~= Seq::empty());
    assert(waiting_view(turns.unanswered@) =~= Seq::empty());
    while i < input.len()
        invariant
            i <= input@.len(),
            list == items_view(input@),
            outputs.wf(),
            outputs@ == outputs_by_call(list),
            fresh@.len() >= ids_needed(list),
            turns.wf(),
            turns@.used == ids_needed(list.take(i as int)),
            after_items(list, i as nat, texts(fresh@)) == Some(turns@),
            forall|k: int|
                0 <= k < i ==> (is_call(#[trigger] list[k]) ==> is_encoded_once(list[k])),
        decreases input@.len() - i,
    {
        proof {
            assert(list.take(i + 1).drop_last() =~= list.take(i as int));
            assert(list[i as int] == input@[i as int]@);
            lemma_ids_needed_prefix(list, i + 1);
            lemma_used(list, turns@, i as int, texts(fresh@));
        }
        if let Err(e) = turns.item(input, &outputs, i, fresh) {
            proof {
                lemma_failed_prefix(list, texts(fresh@), (i + 1) as nat, list.len());
            }
            return Err(e);
        }
        i += 1;
    }
    assert(list.take(i as int) =~= list);
    Ok(turns.into_messages())
}

/// The arguments of all the functions that are called in a list of items are encoded once.
pub open spec fn are_encoded_once(items: Seq<JsonV>) -> bool {
    forall|k: int|
        0 <= k < items.len() ==> (is_call(#[trigger] items[k]) ==> is_encoded_once(items[k]))
}

/// Draws as many new identifiers as a list of items needs.
pub fn draw_ids(items: &Vec<Json>) -> (r: Vec<String>)
    ensures
        r@.len() == ids_needed(items_view(items@)),
        forall|i: int| 0 <= i < r@.len() ==> is_call_id(#[trigger] texts(r@)[i]),
{
    let mut ids: Vec<String> = Vec::new();
    let ghost list = items_view(items@);
    let mut i: usize = 0;
    while i < items.len()
        invariant
            i <= items@.len(),
            list == items_view(items@),
            ids@.len() == ids_needed(list.take(i as int)),
            forall|j: int| 0 <= j < ids@.len() ==> is_call_id(#[trigger] texts(ids@)[j]),
        decreases items@.len() - i,
    {
        assert(list.take(i + 1).drop_last() =~= list.take(i as int));
        if calls_tool(&items[i]) && call_named(&items[i]).is_none() {
            ids.push(fresh_call_id());
        }
        i += 1;
    }
    assert(list.take(i as int) =~= list);
    ids
}

/// Identifiers that were drawn for the calls in a list of items.
pub open spec fn drawn_for(items: Seq<JsonV>, fresh: Seq<Seq<char>>) -> bool {
    &&& fresh.len() == ids_needed(items)
    &&& forall|i: int| 0 <= i < fresh.len() ==> is_call_id(#[trigger] fresh[i])
}

/// The chat messages for a list of items. Calls that name no identifier get random ones. The
/// arguments of functions are encoded once.
pub fn convert_responses_input_to_chat_messages(input: &Vec<Json>) -> (r: Result<
    Vec<Json>,
    ProxyError,
>)
    ensures
        exists|fresh: Seq<Seq<char>>| #[trigger]
            drawn_for(items_view(input@), fresh) && match r {
                Ok(messages) => chat_messages(items_view(input@), fresh) == Some(
                    items_view(messages@),
                ),
                Err(e) => chat_messages(items_view(input@), fresh) is None && e.text()
                    == no_pending_call(),
            },
        r is Ok ==> are_encoded_once(items_view(input@)),
{
    let fresh = draw_ids(input);
    assert(drawn_for(items_view(input@), texts(fresh@)));
    convert_input_with_ids(input, &fresh)
}

} // verus!
