//! The crossing between this library's JSON values and those of serde_json, and the parsing and
//! printing of JSON text that serde_json does.

use vstd::prelude::*;
use crate::arguments::listed_in;
use crate::json::{entries_view, items_view, number_view, Json, JsonNumber, JsonV};
use crate::text::str_eq;

verus! {

/// A parsed JSON value of serde_json.
#[verifier::external_type_specification]
#[verifier::external_body]
pub struct ExValue(serde_json::Value);

/// The error with which serde_json refuses a text or a value.
#[verifier::external_type_specification]
#[verifier::external_body]
pub struct ExError(serde_json::Error);

/// What a value of serde_json holds.
pub uninterp spec fn value_tree(value: serde_json::Value) -> JsonV;

/// The value that serde_json reads from a text; nothing where it refuses the text.
pub uninterp spec fn parsed(text: Seq<char>) -> Option<JsonV>;

/// The text that `serde_json::to_string` gives for a value; nothing where it fails.
pub uninterp spec fn compact_text(tree: JsonV) -> Option<Seq<char>>;

/// A value that is written without loss: its numbers are 64-bit integers, and it is not nested
/// deeper than `depth`.
pub open spec fn plain(tree: JsonV, depth: nat) -> bool
    decreases depth,
{
    match tree {
        JsonV::Num(n) => !(n is Other),
        JsonV::Arr(items) => depth > 0 && forall|i: int|
            0 <= i < items.len() ==> plain(#[trigger] items[i], (depth - 1) as nat),
        JsonV::Obj(m) => depth > 0 && forall|key: Seq<char>| #[trigger]
            m.contains_key(key) ==> plain(m[key], (depth - 1) as nat),
        _ => true,
    }
}

/// A text without line breaks.
pub open spec fn one_line(text: Seq<char>) -> bool {
    forall|i: int| 0 <= i < text.len() ==> #[trigger] text[i] != '\n' && text[i] != '\r'
}

/// One level of a value of serde_json, for reading.
enum Opened<'a> {
    Null,
    Bool(bool),
    Numeric(&'a serde_json::Number),
    Str(&'a String),
    Arr(&'a Vec<serde_json::Value>),
    Obj(Vec<(&'a String, &'a serde_json::Value)>),
}

/// One level of a value of serde_json, for building.
enum Closing {
    Null,
    Bool(bool),
    Unsigned(u64),
    Signed(i64),
    Numeric(serde_json::Number),
    Str(String),
    Arr(Vec<serde_json::Value>),
    Obj(Vec<(String, serde_json::Value)>),
}

/// What a list of values of serde_json holds.
spec fn value_trees(values: Seq<serde_json::Value>) -> Seq<JsonV> {
    Seq::new(values.len(), |i: int| value_tree(values[i]))
}

/// What a list of members holds; later members replace earlier ones.
spec fn opened_members(members: Seq<(&String, &serde_json::Value)>) -> Map<
    Seq<char>,
    JsonV,
>
    decreases members.len(),
{
    if members.len() == 0 {
        Map::empty()
    } else {
        opened_members(members.drop_last()).insert(members.last().0@, value_tree(*members.last().1))
    }
}

/// What a list of owned members holds; later members replace earlier ones.
spec fn closing_members(members: Seq<(String, serde_json::Value)>) -> Map<Seq<char>, JsonV>
    decreases members.len(),
{
    if members.len() == 0 {
        Map::empty()
    } else {
        closing_members(members.drop_last()).insert(members.last().0@, value_tree(members.last().1))
    }
}

/// What an opened level holds.
spec fn opened_tree(opened: Opened<'_>) -> JsonV {
    match opened {
        Opened::Null => JsonV::Null,
        Opened::Bool(b) => JsonV::Bool(b),
        Opened::Numeric(n) => JsonV::Num(number_view(JsonNumber::Other(*n))),
        Opened::Str(s) => JsonV::Str(s@),
        Opened::Arr(items) => JsonV::Arr(value_trees(items@)),
        Opened::Obj(members) => JsonV::Obj(opened_members(members@)),
    }
}

/// What a level to be built holds.
spec fn closing_tree(closing: Closing) -> JsonV {
    match closing {
        Closing::Null => JsonV::Null,
        Closing::Bool(b) => JsonV::Bool(b),
        Closing::Unsigned(n) => JsonV::Num(JsonNumber::Unsigned(n)),
        Closing::Signed(n) => JsonV::Num(number_view(JsonNumber::Negative(n))),
        Closing::Numeric(n) => JsonV::Num(number_view(JsonNumber::Other(n))),
        Closing::Str(s) => JsonV::Str(s@),
        Closing::Arr(items) => JsonV::Arr(value_trees(items@)),
        Closing::Obj(members) => JsonV::Obj(closing_members(members@)),
    }
}

/// No key is listed twice.
spec fn opened_distinct(members: Seq<(&String, &serde_json::Value)>) -> bool {
    forall|i: int, j: int|
        0 <= i < j < members.len() ==> (#[trigger] members[i]).0@ != (#[trigger] members[j]).0@
}

/// No key is listed twice.
spec fn closing_distinct(members: Seq<(String, serde_json::Value)>) -> bool {
    forall|i: int, j: int|
        0 <= i < j < members.len() ==> (#[trigger] members[i]).0@ != (#[trigger] members[j]).0@
}

proof fn lemma_opened_hit(members: Seq<(&String, &serde_json::Value)>, i: int)
    requires
        0 <= i < members.len(),
        opened_distinct(members),
    ensures
        opened_members(members).contains_key(members[i].0@),
        opened_members(members)[members[i].0@] == value_tree(*members[i].1),
    decreases members.len(),
{
    let shorter = members.drop_last();
    if i < members.len() - 1 {
        assert(opened_distinct(shorter)) by {
            assert forall|a: int, b: int| 0 <= a < b < shorter.len() implies (
            #[trigger] shorter[a]).0@ != (#[trigger] shorter[b]).0@ by {
                assert(members[a].0@ != members[b].0@);
            }
        }
        lemma_opened_hit(shorter, i);
        assert(members[i].0@ != members[members.len() - 1].0@);
    }
}

proof fn lemma_opened_finite(members: Seq<(&String, &serde_json::Value)>)
    ensures
        opened_members(members).dom().finite(),
    decreases members.len(),
{
    if members.len() > 0 {
        lemma_opened_finite(members.drop_last());
    }
}

/// The variants of `serde_json::Value`, one level deep; an object lists its members as `Map::iter`
/// walks them. The contract says that nothing is lost or added on the way, and that no member is
/// listed twice.
#[verifier::external_body]
fn open_value(value: &serde_json::Value) -> (r: Opened<'_>)
    ensures
        opened_tree(r) == value_tree(*value),
        r matches Opened::Obj(members) ==> opened_distinct(members@),
{
    match value {
        serde_json::Value::Null => Opened::Null,
        serde_json::Value::Bool(b) => Opened::Bool(*b),
        serde_json::Value::Number(n) => Opened::Numeric(n),
        serde_json::Value::String(s) => Opened::Str(s),
        serde_json::Value::Array(items) => Opened::Arr(items),
        serde_json::Value::Object(members) => Opened::Obj(members.iter().collect()),
    }
}

/// The variants of `serde_json::Value`, built from one level: `Value::from` for a 64-bit integer, the
/// collecting of a `serde_json::Map` for an object. The contract says that nothing is lost or added
/// on the way; of an object it asks that no key is listed twice.
#[verifier::external_body]
fn close_value(closing: Closing) -> (r: serde_json::Value)
    requires
        closing matches Closing::Obj(members) ==> closing_distinct(members@),
    ensures
        value_tree(r) == closing_tree(closing),
{
    match closing {
        Closing::Null => serde_json::Value::Null,
        Closing::Bool(b) => serde_json::Value::Bool(b),
        Closing::Unsigned(n) => serde_json::Value::from(n),
        Closing::Signed(n) => serde_json::Value::from(n),
        Closing::Numeric(n) => serde_json::Value::Number(n),
        Closing::Str(s) => serde_json::Value::String(s),
        Closing::Arr(items) => serde_json::Value::Array(items),
        Closing::Obj(members) => serde_json::Value::Object(members.into_iter().collect()),
    }
}

/// `serde_json::from_str` into a `Value`: whether the text is accepted, and the value read from
/// it, depend on the text alone. Where the value is an array, its items are what the pieces between
/// the brackets read as, cut at the commas that stand outside of strings and inner brackets, which
/// is the grammar of JSON.
#[verifier::external_body]
fn parse_value(text: &str) -> (r: Result<serde_json::Value, serde_json::Error>)
    ensures
        match r {
            Ok(value) => {
                &&& parsed(text@) == Some(value_tree(value))
                &&& value_tree(value) is Arr ==> listed_in(text@) == value_tree(value)->Arr_0
            },
            Err(_) => parsed(text@) is None,
        },
{
    serde_json::from_str(text)
}

/// `serde_json::to_string` of a `Value`: whether it succeeds, and the text, depend on what the
/// value holds alone. A value whose numbers are 64-bit integers, and which is not nested deeper
/// than `serde_json::from_str` follows, is printed on one line, and the text reads as the value.
#[verifier::external_body]
fn print_value(value: &serde_json::Value) -> (r: Result<String, serde_json::Error>)
    ensures
        match r {
            Ok(text) => {
                &&& compact_text(value_tree(*value)) == Some(text@)
                &&& plain(value_tree(*value), 127) ==> one_line(text@) && parsed(text@) == Some(
                    value_tree(*value),
                )
            },
            Err(_) => compact_text(value_tree(*value)) is None && !plain(value_tree(*value), 127),
        },
{
    serde_json::to_string(value)
}

/// `to_string` of a `Value` through its `Display`, which writes what `serde_json::to_string`
/// writes: the text is that one.
#[verifier::external_body]
fn display_value(value: &serde_json::Value) -> (r: String)
    ensures
        compact_text(value_tree(*value)) == Some(r@),
{
    value.to_string()
}

/// Some entry from `from` on has the key.
spec fn listed_from(entries: Seq<(String, Json)>, from: int, key: Seq<char>) -> bool {
    exists|j: int| from <= j < entries.len() && (#[trigger] entries[j]).0@ == key
}

fn is_listed_from(entries: &Vec<(String, Json)>, from: usize, key: &str) -> (r: bool)
    ensures
        r == listed_from(entries@, from as int, key@),
{
    let mut j: usize = from;
    while j < entries.len()
        invariant
            from <= j,
            forall|a: int| from <= a < j && a < entries@.len() ==> (#[trigger] entries@[a]).0@ != key@,
        decreases entries@.len() - j,
    {
        if str_eq(entries[j].0.as_str(), key) {
            return true;
        }
        j += 1;
    }
    false
}

impl Json {
    /// The value that a value of serde_json stands for.
    pub fn from_value(value: &serde_json::Value) -> (r: Json)
        ensures
            r@ == value_tree(*value),
        decreases value_tree(*value),
    {
        let ghost tree = value_tree(*value);
        match open_value(value) {
            Opened::Null => Json::Null,
            Opened::Bool(b) => Json::Bool(b),
            Opened::Numeric(n) => Json::Num(
                match n.as_u64() {
                    Some(u) => JsonNumber::Unsigned(u),
                    None => match n.as_i64() {
                        Some(i) if i < 0 => JsonNumber::Negative(i),
                        _ => JsonNumber::Other(n.clone()),
                    },
                },
            ),
            Opened::Str(s) => Json::Str(s.clone()),
            Opened::Arr(items) => {
                let mut out: Vec<Json> = Vec::new();
                let mut i: usize = 0;
                while i < items.len()
                    invariant
                        i <= items@.len(),
                        tree == value_tree(*value),
                        tree == JsonV::Arr(value_trees(items@)),
                        out@.len() == i,
                        forall|j: int|
                            0 <= j < i ==> (#[trigger] out@[j])@ == value_tree(items@[j]),
                    decreases items@.len() - i,
                {
                    proof {
                        let trees = value_trees(items@);
                        assert(decreases_to!(tree => tree->Arr_0));
                        assert(decreases_to!(trees => trees[i as int]));
                    }
                    out.push(Json::from_value(&items[i]));
                    i += 1;
                }
                assert(items_view(out@) =~= value_trees(items@));
                Json::Arr(out)
            },
            Opened::Obj(members) => {
                let mut out: Vec<(String, Json)> = Vec::new();
                let mut i: usize = 0;
                while i < members.len()
                    invariant
                        i <= members@.len(),
                        tree == value_tree(*value),
                        tree == JsonV::Obj(opened_members(members@)),
                        opened_distinct(members@),
                        entries_view(out@) == opened_members(members@.take(i as int)),
                    decreases members@.len() - i,
                {
                    let ghost before = out@;
                    let (key, member) = members[i];
                    proof {
                        lemma_opened_hit(members@, i as int);
                        lemma_opened_finite(members@);
                        let all = opened_members(members@);
                        assert(decreases_to!(tree => tree->Obj_0));
                        assert(decreases_to!(all => all[key@]));
                    }
                    let read = Json::from_value(member);
                    out.push((key.clone(), read));
                    assert(out@.drop_last() =~= before);
                    assert(members@.take(i + 1).drop_last() =~= members@.take(i as int));
                    i += 1;
                }
                assert(members@.take(i as int) =~= members@);
                Json::Obj(out)
            },
        }
    }

    /// The value of serde_json that stands for a value.
    pub fn to_value(&self) -> (r: serde_json::Value)
        ensures
            value_tree(r) == self@,
        decreases self,
    {
        match self {
            Json::Null => close_value(Closing::Null),
            Json::Bool(b) => close_value(Closing::Bool(*b)),
            Json::Num(JsonNumber::Unsigned(n)) => close_value(Closing::Unsigned(*n)),
            Json::Num(JsonNumber::Negative(n)) => close_value(Closing::Signed(*n)),
            Json::Num(JsonNumber::Other(n)) => close_value(Closing::Numeric(n.clone())),
            Json::Str(s) => close_value(Closing::Str(s.clone())),
            Json::Arr(items) => {
                let mut out: Vec<serde_json::Value> = Vec::new();
                let mut i: usize = 0;
                while i < items.len()
                    invariant
                        i <= items@.len(),
                        self == Json::Arr(*items),
                        out@.len() == i,
                        forall|j: int|
                            0 <= j < i ==> value_tree(#[trigger] out@[j]) == items@[j]@,
                    decreases items@.len() - i,
                {
                    assert(decreases_to!(*self => self->Arr_0));
                    assert(decreases_to!(self->Arr_0 => items@));
                    assert(decreases_to!(items@ => items@[i as int]));
                    out.push(items[i].to_value());
                    i += 1;
                }
                assert(value_trees(out@) =~= items_view(items@));
                close_value(Closing::Arr(out))
            },
            Json::Obj(entries) => {
                let mut out: Vec<(String, serde_json::Value)> = Vec::new();
                let mut i: usize = 0;
                while i < entries.len()
                    invariant
                        i <= entries@.len(),
                        self == Json::Obj(*entries),
                        closing_distinct(out@),
                        forall|a: int|
                            0 <= a < out@.len() ==> !listed_from(
                                entries@,
                                i as int,
                                (#[trigger] out@[a]).0@,
                            ),
                        forall|key: Seq<char>| #[trigger]
                            closing_members(out@).contains_key(key) <==> entries_view(
                                entries@.take(i as int),
                            ).contains_key(key) && !listed_from(entries@, i as int, key),
                        forall|key: Seq<char>| #[trigger]
                            closing_members(out@).contains_key(key) ==> closing_members(out@)[key]
                                == entries_view(entries@.take(i as int))[key],
                    decreases entries@.len() - i,
                {
                    let ghost before = out@;
                    let ghost key = entries@[i as int].0@;
                    let ghost prior = entries_view(entries@.take(i as int));
                    proof {
                        assert(entries@.take(i + 1).drop_last() =~= entries@.take(i as int));
                        assert(entries_view(entries@.take(i + 1)) == prior.insert(
                            key,
                            entries@[i as int].1@,
                        ));
                        assert forall|k: Seq<char>| #[trigger]
                            listed_from(entries@, i as int, k) <==> k == key || listed_from(
                                entries@,
                                i + 1,
                                k,
                            ) by {
                            if k == key {
                                assert(entries@[i as int].0@ == k);
                            }
                        }
                    }
                    if !is_listed_from(entries, i + 1, entries[i].0.as_str()) {
                        assert(decreases_to!(*self => self->Obj_0));
                        assert(decreases_to!(self->Obj_0 => entries@));
                        assert(decreases_to!(entries@ => entries@[i as int]));
                        assert(decreases_to!(entries@[i as int] => entries@[i as int].1));
                        let member = entries[i].1.to_value();
                        out.push((entries[i].0.clone(), member));
                        assert(out@.drop_last() =~= before);
                        assert(closing_members(out@) == closing_members(before).insert(
                            key,
                            entries@[i as int].1@,
                        ));
                    }
                    proof {
                        assert(listed_from(entries@, i as int, key));
                        assert forall|k: Seq<char>| #[trigger]
                            closing_members(out@).contains_key(k) <==> entries_view(
                                entries@.take(i + 1),
                            ).contains_key(k) && !listed_from(entries@, i + 1, k) by {
                            assert(closing_members(before).contains_key(k)
                                <==> prior.contains_key(k) && !listed_from(entries@, i as int, k));
                        }
                        assert forall|k: Seq<char>| #[trigger]
                            closing_members(out@).contains_key(k) implies closing_members(out@)[k]
                            == entries_view(entries@.take(i + 1))[k] by {
                            assert(closing_members(before).contains_key(k)
                                <==> prior.contains_key(k) && !listed_from(entries@, i as int, k));
                        }
                    }
                    i += 1;
                }
                assert(entries@.take(i as int) =~= entries@);
                assert(closing_members(out@) =~= entries_view(entries@));
                close_value(Closing::Obj(out))
            },
        }
    }

    /// Reads a value from JSON text; nothing where the text is not JSON. The items of an array are
    /// those that its text lists between the brackets.
    pub fn parse(text: &str) -> (r: Option<Json>)
        ensures
            match r {
                Some(value) => {
                    &&& parsed(text@) == Some(value@)
                    &&& value@ is Arr ==> listed_in(text@) == value@->Arr_0
                },
                None => parsed(text@) is None,
            },
    {
        match parse_value(text) {
            Ok(value) => Some(Json::from_value(&value)),
            Err(_) => None,
        }
    }

    /// The compact JSON text of a value; nothing where printing fails.
    pub fn compact(&self) -> (r: Option<String>)
        ensures
            match r {
                Some(text) => compact_text(self@) == Some(text@),
                None => compact_text(self@) is None,
            },
            plain(self@, 127) ==> (r matches Some(text) && one_line(text@) && parsed(text@)
                == Some(self@)),
    {
        match print_value(&self.to_value()) {
            Ok(text) => Some(text),
            Err(_) => None,
        }
    }

    /// The compact JSON text of a value, or `fallback` where printing fails.
    pub fn compact_or(&self, fallback: &str) -> (r: String)
        ensures
            r@ == compact_or(self@, fallback@),
            plain(self@, 127) ==> one_line(r@) && parsed(r@) == Some(self@),
    {
        match self.compact() {
            Some(text) => text,
            None => fallback.to_owned(),
        }
    }

    /// The text that a value is displayed as.
    pub fn display(&self) -> (r: String)
        ensures
            compact_text(self@) == Some(r@),
    {
        display_value(&self.to_value())
    }
}

/// The compact JSON text of a value, or `fallback` where printing fails.
pub open spec fn compact_or(tree: JsonV, fallback: Seq<char>) -> Seq<char> {
    match compact_text(tree) {
        Some(text) => text,
        None => fallback,
    }
}

} // verus!
