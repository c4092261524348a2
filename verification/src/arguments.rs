//! Normalising the arguments of tool calls: values that were serialised once too often are read
//! back, and the fields that agent tools expect are filled in.

use vstd::prelude::*;
use crate::json::{entries_view, items_view, put, Json, JsonV};
use crate::text::{chars_of, str_eq, string_of, trim, trimmed};
use crate::value::parsed;

verus! {

broadcast use crate::json::group_json;

/// Where a scan of a list of JSON values stands.
pub struct Scan {
    pub depth: int,
    pub in_string: bool,
    pub escaped: bool,
}

/// The scan after one more character.
pub open spec fn scan_step(at: Scan, c: char) -> Scan {
    if at.escaped {
        Scan { escaped: false, ..at }
    } else if c == '\\' && at.in_string {
        Scan { escaped: true, ..at }
    } else if c == '"' {
        Scan { in_string: !at.in_string, ..at }
    } else if (c == '[' || c == '{') && !at.in_string {
        Scan { depth: at.depth + 1, ..at }
    } else if (c == ']' || c == '}') && !at.in_string {
        Scan { depth: at.depth - 1, ..at }
    } else {
        at
    }
}

/// The scan after a text.
pub open spec fn scan(s: Seq<char>) -> Scan
    decreases s.len(),
{
    if s.len() == 0 {
        Scan { depth: 0, in_string: false, escaped: false }
    } else {
        scan_step(scan(s.drop_last()), s.last())
    }
}

/// Whether a character ends a piece: a comma outside of strings and brackets.
pub open spec fn cuts(at: Scan, c: char) -> bool {
    c == ',' && !at.escaped && !at.in_string && at.depth == 0
}

/// The pieces of a text between the commas that stand outside of strings and brackets.
pub open spec fn pieces(s: Seq<char>) -> Seq<Seq<char>>
    decreases s.len(),
{
    if s.len() == 0 {
        seq![Seq::empty()]
    } else {
        let before = pieces(s.drop_last());
        if cuts(scan(s.drop_last()), s.last()) {
            before.push(Seq::empty())
        } else {
            before.drop_last().push(before.last().push(s.last()))
        }
    }
}

/// The value of a text: what it reads as, or else the text itself.
pub open spec fn read_or_text(s: Seq<char>) -> JsonV {
    match parsed(s) {
        Some(v) => v,
        None => JsonV::Str(s),
    }
}

/// The values of those pieces that are not blank.
pub open spec fn piece_values(list: Seq<Seq<char>>) -> Seq<JsonV>
    decreases list.len(),
{
    if list.len() == 0 {
        Seq::empty()
    } else {
        let before = piece_values(list.drop_last());
        let t = trim(list.last());
        if t.len() == 0 {
            before
        } else {
            before.push(read_or_text(t))
        }
    }
}

/// The values that a text lists, separated by commas.
pub open spec fn listed_values(s: Seq<char>) -> Seq<JsonV> {
    piece_values(pieces(s))
}

/// The values of a text in the form of a JSON array; nothing for another text, or where the
/// array has no values.
pub open spec fn array_text(s: Seq<char>) -> Option<Seq<JsonV>> {
    let t = trim(s);
    if t.len() > 0 && t.first() == '[' && t.last() == ']' {
        let values = listed_values(t.subrange(1, t.len() - 1));
        if values.len() > 0 {
            Some(values)
        } else {
            None
        }
    } else {
        None
    }
}

/// The values that a text lists between its brackets.
pub open spec fn listed_in(s: Seq<char>) -> Seq<JsonV> {
    let t = trim(s);
    listed_values(t.subrange(1, t.len() - 1))
}

/// A member of an arguments object as it should be. A `command` that is an array stays as it is. A
/// `message` or `items` in text form is read as JSON where it can be. Everything else is normalised
/// in turn, so a `command` in the text form of an array becomes that array.
pub open spec fn normal_member(key: Seq<char>, value: JsonV) -> JsonV
    decreases value, 1int,
{
    if key == "command"@ && value is Arr {
        value
    } else if (key == "message"@ || key == "items"@) && value is Str {
        read_or_text(value->Str_0)
    } else {
        normal_value(value)
    }
}

/// A value inside of arguments as it should be: a text in the form of an array becomes that array,
/// and objects and arrays are normalised member by member.
pub open spec fn normal_value(value: JsonV) -> JsonV
    decreases value, 0int,
{
    match value {
        JsonV::Obj(m) => JsonV::Obj(
            Map::new(
                |key: Seq<char>| m.contains_key(key),
                |key: Seq<char>|
                    if m.contains_key(key) {
                        normal_member(key, m[key])
                    } else {
                        JsonV::Null
                    },
            ),
        ),
        JsonV::Arr(items) => JsonV::Arr(
            Seq::new(
                items.len(),
                |i: int|
                    if 0 <= i < items.len() {
                        normal_value(items[i])
                    } else {
                        JsonV::Null
                    },
            ),
        ),
        JsonV::Str(s) => match array_text(s) {
            Some(values) => JsonV::Arr(values),
            None => value,
        },
        _ => value,
    }
}

/// The members of an arguments object as they should be.
pub open spec fn normal_members(m: Map<Seq<char>, JsonV>) -> Map<Seq<char>, JsonV> {
    Map::new(|key: Seq<char>| m.contains_key(key), |key: Seq<char>| normal_member(key, m[key]))
}

/// The tools that manage agents.
pub open spec fn is_agent_tool(name: Seq<char>) -> bool {
    name == "spawn_agent"@ || name == "wait_agent"@ || name == "send_input"@ || name
        == "resume_agent"@
}

/// For an agent tool, an `agent_id` in text form also fills the list `agent_ids`.
pub open spec fn with_agent_ids(name: Seq<char>, m: Map<Seq<char>, JsonV>) -> Map<
    Seq<char>,
    JsonV,
> {
    if is_agent_tool(name) && JsonV::Obj(m).str_at("agent_id"@) is Some {
        m.insert("agent_ids"@, JsonV::Arr(seq![m["agent_id"@]]))
    } else {
        m
    }
}

/// Arguments that were read from text, as they should be.
pub open spec fn normal_read_arguments(name: Seq<char>, read: JsonV) -> JsonV {
    match read {
        JsonV::Obj(m) => JsonV::Obj(with_agent_ids(name, normal_members(m))),
        _ => normal_value(read),
    }
}

/// The arguments of a call of the tool `name` as they should be. Arguments in text form are those
/// that the text reads as.
pub open spec fn normal_arguments(name: Seq<char>, arguments: JsonV) -> JsonV {
    match arguments {
        JsonV::Obj(_) => normal_read_arguments(name, arguments),
        JsonV::Str(s) => match parsed(s) {
            Some(read) => normal_read_arguments(name, read),
            None => arguments,
        },
        _ => arguments,
    }
}

/// The value of a text: what it reads as, or else the text itself.
fn read_text(s: &str) -> (r: Json)
    ensures
        r@ == read_or_text(s@),
{
    match Json::parse(s) {
        Some(v) => v,
        None => Json::text(s),
    }
}

fn push_piece(values: &mut Vec<Json>, piece: &Vec<char>)
    ensures
        items_view(final(values)@) == {
            let t = trim(piece@);
            if t.len() == 0 {
                items_view(old(values)@)
            } else {
                items_view(old(values)@).push(read_or_text(t))
            }
        },
{
    let t = trimmed(piece);
    if t.len() > 0 {
        assert(t@.subrange(0, t@.len() as int) =~= t@);
        let text = string_of(&t, 0, t.len());
        values.push(read_text(text.as_str()));
    }
}

/// Reads the values that a text lists: the text is cut at the commas that stand outside of strings
/// and brackets, blank pieces are dropped, and a piece that is not JSON counts as a string.
pub fn parse_json_array_elements(content: &str) -> (r: Vec<Json>)
    ensures
        items_view(r@) == listed_values(content@),
{
    let chars = chars_of(content);
    parse_listed(&chars)
}

fn parse_listed(chars: &Vec<char>) -> (r: Vec<Json>)
    ensures
        items_view(r@) == listed_values(chars@),
{
    let mut values: Vec<Json> = Vec::new();
    let mut current: Vec<char> = Vec::new();
    let mut depth: i128 = 0;
    let mut in_string = false;
    let mut escaped = false;
    let mut i: usize = 0;
    assert(chars@.take(0) =~= Seq::empty());
    assert(pieces(chars@.take(0)).drop_last() =~= Seq::empty());
    while i < chars.len()
        invariant
            i <= chars@.len(),
            -i <= depth <= i,
            scan(chars@.take(i as int)) == (Scan { depth: depth as int, in_string, escaped }),
            pieces(chars@.take(i as int)).len() > 0,
            current@ == pieces(chars@.take(i as int)).last(),
            items_view(values@) == piece_values(pieces(chars@.take(i as int)).drop_last()),
        decreases chars@.len() - i,
    {
        let c = chars[i];
        let ghost before = chars@.take(i as int);
        let ghost list = pieces(before);
        proof {
            assert(chars@.take(i + 1).drop_last() =~= before);
            assert(chars@.take(i + 1).last() == c);
        }
        if c == ',' && !escaped && !in_string && depth == 0 {
            push_piece(&mut values, &current);
            current = Vec::new();
            proof {
                assert(list.push(Seq::empty()).drop_last() =~= list);
                assert(current@ =~= Seq::empty());
            }
        } else {
            current.push(c);
            if escaped {
                escaped = false;
            } else if c == '\\' && in_string {
                escaped = true;
            } else if c == '"' {
                in_string = !in_string;
            } else if (c == '[' || c == '{') && !in_string {
                depth += 1;
            } else if (c == ']' || c == '}') && !in_string {
                depth -= 1;
            }
            assert(list.drop_last().push(list.last().push(c)).drop_last() =~= list.drop_last());
        }
        i += 1;
    }
    assert(chars@.take(i as int) =~= chars@);
    push_piece(&mut values, &current);
    values
}

/// The values of a text in the form of a JSON array.
fn parse_array_text(s: &str) -> (r: Option<Vec<Json>>)
    ensures
        match r {
            Some(values) => array_text(s@) == Some(items_view(values@)),
            None => array_text(s@) is None,
        },
{
    let t = trimmed(&chars_of(s));
    if t.len() > 0 && t[0] == '[' && t[t.len() - 1] == ']' {
        assert(t.len() != 1);
        let inner = string_of(&t, 1, t.len() - 1);
        let values = parse_json_array_elements(inner.as_str());
        if values.len() > 0 {
            return Some(values);
        }
    }
    None
}

/// Normalises a value inside of arguments.
pub fn normalize_tool_arguments_inner(value: &Json) -> (r: Json)
    ensures
        r@ == normal_value(value@),
    decreases value, 0int,
{
    match value {
        Json::Obj(entries) => {
            let mut fixed: Vec<(String, Json)> = Vec::new();
            let mut i: usize = 0;
            while i < entries.len()
                invariant
                    i <= entries@.len(),
                    value == Json::Obj(*entries),
                    entries_view(fixed@) == normal_members(entries_view(entries@.take(i as int))),
                decreases entries@.len() - i,
            {
                assert(decreases_to!(*value => value->Obj_0));
                assert(decreases_to!(value->Obj_0 => entries@));
                assert(decreases_to!(entries@ => entries@[i as int]));
                assert(decreases_to!(entries@[i as int] => entries@[i as int].1));
                let member = normalize_member(entries[i].0.as_str(), &entries[i].1);
                fixed.push((entries[i].0.clone(), member));
                assert(entries@.take(i + 1).drop_last() =~= entries@.take(i as int));
                i += 1;
                assert(entries_view(fixed@) =~= normal_members(
                    entries_view(entries@.take(i as int)),
                ));
            }
            assert(entries@.take(i as int) =~= entries@);
            assert(normal_value(value@)->Obj_0 =~= normal_members(entries_view(entries@)));
            Json::Obj(fixed)
        },
        Json::Arr(items) => {
            let mut fixed: Vec<Json> = Vec::new();
            let mut i: usize = 0;
            while i < items.len()
                invariant
                    i <= items@.len(),
                    value == Json::Arr(*items),
                    fixed@.len() == i,
                    forall|j: int|
                        0 <= j < i ==> (#[trigger] fixed@[j])@ == normal_value(items@[j]@),
                decreases items@.len() - i,
            {
                assert(decreases_to!(*value => value->Arr_0));
                assert(decreases_to!(value->Arr_0 => items@));
                assert(decreases_to!(items@ => items@[i as int]));
                fixed.push(normalize_tool_arguments_inner(&items[i]));
                i += 1;
            }
            assert(items_view(fixed@) =~= normal_value(value@)->Arr_0);
            Json::Arr(fixed)
        },
        Json::Str(s) => match parse_array_text(s.as_str()) {
            Some(values) => Json::Arr(values),
            None => value.copy(),
        },
        _ => value.copy(),
    }
}

fn normalize_member(key: &str, value: &Json) -> (r: Json)
    ensures
        r@ == normal_member(key@, value@),
    decreases value, 1int,
{
    match value {
        Json::Arr(_) if str_eq(key, "command") => value.copy(),
        Json::Str(s) if str_eq(key, "message") || str_eq(key, "items") => read_text(s.as_str()),
        _ => normalize_tool_arguments_inner(value),
    }
}

fn agent_tool(name: &str) -> (r: bool)
    ensures
        r == is_agent_tool(name@),
{
    str_eq(name, "spawn_agent") || str_eq(name, "wait_agent") || str_eq(name, "send_input")
        || str_eq(name, "resume_agent")
}

fn fill_agent_ids(name: &str, entries: Vec<(String, Json)>) -> (r: Json)
    ensures
        r@ == JsonV::Obj(with_agent_ids(name@, entries_view(entries@))),
{
    let object = Json::Obj(entries);
    if agent_tool(name) {
        if let Some(id) = object.str_at("agent_id") {
            let mut ids: Vec<Json> = Vec::new();
            ids.push(Json::text(id));
            let list = Json::Arr(ids);
            assert(list@->Arr_0 =~= seq![JsonV::Str(id@)]);
            if let Json::Obj(entries) = object {
                let mut entries = entries;
                put(&mut entries, "agent_ids", list);
                return Json::Obj(entries);
            }
        }
    }
    object
}

/// Normalises arguments that were read from text.
pub fn normalize_read_arguments(name: &str, read: &Json) -> (r: Json)
    ensures
        r@ == normal_read_arguments(name@, read@),
{
    match normalize_tool_arguments_inner(read) {
        Json::Obj(fixed) => {
            assert(read@ is Obj);
            assert(entries_view(fixed@) =~= normal_members(read@->Obj_0));
            fill_agent_ids(name, fixed)
        },
        other => other,
    }
}

/// Normalises the arguments of a call of the tool `name`.
pub fn normalize_tool_arguments(name: &str, arguments: &Json) -> (r: Json)
    ensures
        r@ == normal_arguments(name@, arguments@),
{
    match arguments {
        Json::Obj(_) => normalize_read_arguments(name, arguments),
        Json::Str(s) => match Json::parse(s.as_str()) {
            Some(read) => normalize_read_arguments(name, &read),
            None => arguments.copy(),
        },
        _ => arguments.copy(),
    }
}

/// Normalising an arguments object keeps its members: none is dropped or renamed, and only the list
/// of agents may be added.
pub proof fn members_are_kept(name: Seq<char>, m: Map<Seq<char>, JsonV>, key: Seq<char>)
    ensures
        m.contains_key(key) ==> normal_arguments(name, JsonV::Obj(m)).get(key) is Some,
        key != "agent_ids"@ ==> normal_arguments(name, JsonV::Obj(m)).get(key) == (if m.contains_key(
            key,
        ) {
            Some(normal_member(key, m[key]))
        } else {
            None
        }),
{
}

/// An agent tool that is told an agent by a text which is no array also gets it as a list.
pub proof fn agent_is_listed(name: Seq<char>, m: Map<Seq<char>, JsonV>, agent: Seq<char>)
    requires
        is_agent_tool(name),
        JsonV::Obj(m).str_at("agent_id"@) == Some(agent),
        array_text(agent) is None,
    ensures
        normal_arguments(name, JsonV::Obj(m)).get("agent_ids"@) == Some(
            JsonV::Arr(seq![JsonV::Str(agent)]),
        ),
        normal_arguments(name, JsonV::Obj(m)).str_at("agent_id"@) == Some(agent),
{
    reveal_strlit("agent_id");
    reveal_strlit("agent_ids");
    reveal_strlit("command");
    reveal_strlit("message");
    reveal_strlit("items");
    assert("agent_id"@.len() == 8);
    assert("agent_ids"@.len() == 9);
    assert("command"@.len() == 7);
    assert("message"@.len() == 7);
    assert("items"@.len() == 5);
}

/// A text in the form of an array becomes that array, also where it is a command, unless it is a
/// message or a list of items.
pub proof fn array_text_becomes_array(
    name: Seq<char>,
    m: Map<Seq<char>, JsonV>,
    key: Seq<char>,
    s: Seq<char>,
)
    requires
        m.contains_key(key),
        m[key] == JsonV::Str(s),
        array_text(s) is Some,
        key != "agent_ids"@ && key != "message"@ && key != "items"@,
    ensures
        normal_arguments(name, JsonV::Obj(m)).array_at(key) == array_text(s),
{
}

/// A message or a list of items in the text form of JSON is read.
pub proof fn message_and_items_are_read(
    name: Seq<char>,
    m: Map<Seq<char>, JsonV>,
    key: Seq<char>,
    s: Seq<char>,
)
    requires
        m.contains_key(key),
        m[key] == JsonV::Str(s),
        parsed(s) is Some,
        key == "message"@ || key == "items"@,
    ensures
        normal_arguments(name, JsonV::Obj(m)).get(key) == parsed(s),
{
    reveal_strlit("message");
    reveal_strlit("items");
    reveal_strlit("agent_ids");
    assert("message"@.len() == 7);
    assert("items"@.len() == 5);
    assert("agent_ids"@.len() == 9);
}

/// It makes no difference whether arguments come as an object or as a text that reads as it.
pub proof fn text_form_makes_no_difference(
    name: Seq<char>,
    m: Map<Seq<char>, JsonV>,
    text: Seq<char>,
)
    requires
        parsed(text) == Some(JsonV::Obj(m)),
    ensures
        normal_arguments(name, JsonV::Str(text)) == normal_arguments(name, JsonV::Obj(m)),
{
}

} // verus!
