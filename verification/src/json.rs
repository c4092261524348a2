//! JSON values: the executable type, its mathematical model, and the accessors and builders that
//! the converters are written with.

use vstd::prelude::*;
use crate::text::str_eq;

verus! {

/// A JSON number of the outside crate, carried through unread.
#[verifier::external_type_specification]
#[verifier::external_body]
pub struct ExNumber(serde_json::Number);

/// `Number::clone` of serde_json: the copy is the same number.
pub assume_specification[ <serde_json::Number as Clone>::clone ](n: &serde_json::Number) -> (r:
    serde_json::Number)
    ensures
        r == *n,
;

/// The unsigned 64-bit integer that a number of serde_json is, where it is one.
pub uninterp spec fn number_u64(n: serde_json::Number) -> Option<u64>;

/// `Number::as_u64` of serde_json: the number as an unsigned 64-bit integer, where it is one. It
/// depends on the number alone.
pub assume_specification[ serde_json::Number::as_u64 ](n: &serde_json::Number) -> (r: Option<u64>)
    ensures
        r == number_u64(*n),
;

/// The signed 64-bit integer that a number of serde_json is, where it is one.
pub uninterp spec fn number_i64(n: serde_json::Number) -> Option<i64>;

/// `Number::as_i64` of serde_json: the number as a signed 64-bit integer, where it is one. It
/// depends on the number alone.
pub assume_specification[ serde_json::Number::as_i64 ](n: &serde_json::Number) -> (r: Option<i64>)
    ensures
        r == number_i64(*n),
;

/// A JSON number. Only unsigned 64-bit integers are ever read; other numbers are passed on as they
/// came.
#[derive(Debug)]
pub enum JsonNumber {
    Unsigned(u64),
    Negative(i64),
    Other(serde_json::Number),
}

/// What a number stands for: a 64-bit integer is the same one in each form.
pub open spec fn number_view(n: JsonNumber) -> JsonNumber {
    match n {
        JsonNumber::Unsigned(_) => n,
        JsonNumber::Negative(i) => if i < 0 {
            n
        } else {
            JsonNumber::Unsigned(i as u64)
        },
        JsonNumber::Other(o) => match (number_u64(o), number_i64(o)) {
            (Some(u), _) => JsonNumber::Unsigned(u),
            (None, Some(i)) => if i < 0 {
                JsonNumber::Negative(i)
            } else {
                n
            },
            (None, None) => n,
        },
    }
}

/// A JSON value. Where an object lists a key more than once, the last entry counts.
#[derive(Debug)]
pub enum Json {
    Null,
    Bool(bool),
    Num(JsonNumber),
    Str(String),
    Arr(Vec<Json>),
    Obj(Vec<(String, Json)>),
}

/// The mathematical model of a JSON value.
pub enum JsonV {
    Null,
    Bool(bool),
    Num(JsonNumber),
    Str(Seq<char>),
    Arr(Seq<JsonV>),
    Obj(Map<Seq<char>, JsonV>),
}

/// What a list of object entries stands for: later entries replace earlier ones.
pub open spec fn entries_view(entries: Seq<(String, Json)>) -> Map<Seq<char>, JsonV>
    decreases entries,
{
    if entries.len() == 0 {
        Map::empty()
    } else {
        entries_view(entries.drop_last()).insert(entries.last().0@, entries.last().1.model())
    }
}

/// What a list of values stands for.
pub open spec fn items_view(items: Seq<Json>) -> Seq<JsonV>
    decreases items,
{
    Seq::new(
        items.len(),
        |i: int|
            if 0 <= i < items.len() {
                items[i].model()
            } else {
                JsonV::Null
            },
    )
}

impl Json {
    /// What a value stands for.
    pub open spec fn model(&self) -> JsonV
        decreases self,
    {
        match self {
            Json::Null => JsonV::Null,
            Json::Bool(b) => JsonV::Bool(*b),
            Json::Num(n) => JsonV::Num(number_view(*n)),
            Json::Str(s) => JsonV::Str(s@),
            Json::Arr(items) => JsonV::Arr(items_view(items@)),
            Json::Obj(entries) => JsonV::Obj(entries_view(entries@)),
        }
    }
}

impl View for Json {
    type V = JsonV;

    open spec fn view(&self) -> JsonV {
        self.model()
    }
}

/// The view of an optional value.
pub open spec fn opt_view(o: Option<&Json>) -> Option<JsonV> {
    match o {
        Some(v) => Some(v@),
        None => None,
    }
}

/// The view of an optional owned value.
pub open spec fn owned_view(o: Option<Json>) -> Option<JsonV> {
    match o {
        Some(v) => Some(v@),
        None => None,
    }
}

/// The view of an optional string.
pub open spec fn opt_text(o: Option<&str>) -> Option<Seq<char>> {
    match o {
        Some(s) => Some(s@),
        None => None,
    }
}

/// `a`, or `b` where `a` is missing.
pub open spec fn either<T>(a: Option<T>, b: Option<T>) -> Option<T> {
    if a is Some {
        a
    } else {
        b
    }
}

/// The value of `o`, or `d` where `o` is missing.
pub open spec fn or_default<T>(o: Option<T>, d: T) -> T {
    match o {
        Some(v) => v,
        None => d,
    }
}

/// A string value, where there is a string.
pub open spec fn opt_str(o: Option<Seq<char>>) -> Option<JsonV> {
    match o {
        Some(s) => Some(JsonV::Str(s)),
        None => None,
    }
}

/// An unsigned integer as a JSON number.
pub open spec fn num(n: u64) -> JsonV {
    JsonV::Num(JsonNumber::Unsigned(n))
}

/// The results of `f` on those elements of a list that have one, in order.
pub open spec fn gather<A, B>(s: Seq<A>, f: spec_fn(A) -> Option<B>) -> Seq<B>
    decreases s.len(),
{
    if s.len() == 0 {
        Seq::empty()
    } else {
        let before = gather(s.drop_last(), f);
        match f(s.last()) {
            Some(b) => before.push(b),
            None => before,
        }
    }
}

/// One more element adds at most its own result.
pub proof fn lemma_gather_next<A, B>(s: Seq<A>, i: int, f: spec_fn(A) -> Option<B>)
    requires
        0 <= i < s.len(),
    ensures
        gather(s.take(i + 1), f) == match f(s[i]) {
            Some(b) => gather(s.take(i), f).push(b),
            None => gather(s.take(i), f),
        },
{
    assert(s.take(i + 1).drop_last() =~= s.take(i));
}

impl JsonV {
    /// The member `key` of an object; nothing for any other value.
    pub open spec fn get(self, key: Seq<char>) -> Option<JsonV> {
        match self {
            JsonV::Obj(m) => if m.contains_key(key) {
                Some(m[key])
            } else {
                None
            },
            _ => None,
        }
    }

    /// The object without members.
    pub open spec fn object() -> JsonV {
        JsonV::Obj(Map::empty())
    }

    /// An object with `key` set to `value`; any other value as it is.
    pub open spec fn set(self, key: Seq<char>, value: JsonV) -> JsonV {
        match self {
            JsonV::Obj(m) => JsonV::Obj(m.insert(key, value)),
            _ => self,
        }
    }

    /// A value with `key` set, where there is something to set it to.
    pub open spec fn set_opt(self, key: Seq<char>, value: Option<JsonV>) -> JsonV {
        match value {
            Some(v) => self.set(key, v),
            None => self,
        }
    }

    /// The text of a string value.
    pub open spec fn as_str(self) -> Option<Seq<char>> {
        match self {
            JsonV::Str(s) => Some(s),
            _ => None,
        }
    }

    /// The items of an array.
    pub open spec fn as_array(self) -> Option<Seq<JsonV>> {
        match self {
            JsonV::Arr(items) => Some(items),
            _ => None,
        }
    }

    /// The number, where the value is an unsigned 64-bit integer.
    pub open spec fn as_u64(self) -> Option<u64> {
        match self {
            JsonV::Num(JsonNumber::Unsigned(n)) => Some(n),
            _ => None,
        }
    }

    /// The text of the string member `key`.
    pub open spec fn str_at(self, key: Seq<char>) -> Option<Seq<char>> {
        match self.get(key) {
            Some(v) => v.as_str(),
            None => None,
        }
    }

    /// The text of the string member `key`, or `default`.
    pub open spec fn str_or(self, key: Seq<char>, default: Seq<char>) -> Seq<char> {
        or_default(self.str_at(key), default)
    }

    /// The items of the array member `key`.
    pub open spec fn array_at(self, key: Seq<char>) -> Option<Seq<JsonV>> {
        match self.get(key) {
            Some(v) => v.as_array(),
            None => None,
        }
    }

    /// The unsigned integer member `key`.
    pub open spec fn u64_at(self, key: Seq<char>) -> Option<u64> {
        match self.get(key) {
            Some(v) => v.as_u64(),
            None => None,
        }
    }
}

/// Setting one member leaves the others.
pub broadcast proof fn lemma_get_set(v: JsonV, key: Seq<char>, value: JsonV, other: Seq<char>)
    requires
        v is Obj,
    ensures
        #[trigger] v.set(key, value).get(other) == if other == key {
            Some(value)
        } else {
            v.get(other)
        },
{
}

/// Setting one member leaves the others, and nothing is set where there is nothing to set it to.
pub broadcast proof fn lemma_get_set_opt(
    v: JsonV,
    key: Seq<char>,
    value: Option<JsonV>,
    other: Seq<char>,
)
    requires
        v is Obj,
    ensures
        #[trigger] v.set_opt(key, value).get(other) == if other == key && value is Some {
            value
        } else {
            v.get(other)
        },
{
}

/// Setting a member keeps an object an object.
pub broadcast proof fn lemma_set_is_object(v: JsonV, key: Seq<char>, value: JsonV)
    requires
        v is Obj,
    ensures
        #[trigger] v.set(key, value) is Obj,
{
}

/// Setting a member keeps an object an object.
pub broadcast proof fn lemma_set_opt_is_object(v: JsonV, key: Seq<char>, value: Option<JsonV>)
    requires
        v is Obj,
    ensures
        #[trigger] v.set_opt(key, value) is Obj,
{
}

pub broadcast group group_members {
    lemma_get_set,
    lemma_get_set_opt,
    lemma_set_is_object,
    lemma_set_opt_is_object,
}

/// An entry that no later entry replaces is what the object holds under its key.
pub proof fn lemma_entries_hit(entries: Seq<(String, Json)>, i: int)
    requires
        0 <= i < entries.len(),
        forall|j: int| i < j < entries.len() ==> (#[trigger] entries[j]).0@ != entries[i].0@,
    ensures
        entries_view(entries).contains_key(entries[i].0@),
        entries_view(entries)[entries[i].0@] == entries[i].1@,
    decreases entries.len(),
{
    if i < entries.len() - 1 {
        let shorter = entries.drop_last();
        assert forall|j: int| i < j < shorter.len() implies (#[trigger] shorter[j]).0@
            != shorter[i].0@ by {
            assert(entries[j].0@ != entries[i].0@);
        }
        lemma_entries_hit(shorter, i);
        assert(entries[entries.len() - 1].0@ != entries[i].0@);
    }
}

/// A key that no entry has is not in the object.
pub proof fn lemma_entries_miss(entries: Seq<(String, Json)>, key: Seq<char>)
    requires
        forall|j: int| 0 <= j < entries.len() ==> (#[trigger] entries[j]).0@ != key,
    ensures
        !entries_view(entries).contains_key(key),
    decreases entries.len(),
{
    if entries.len() > 0 {
        let shorter = entries.drop_last();
        assert forall|j: int| 0 <= j < shorter.len() implies (#[trigger] shorter[j]).0@ != key by {
            assert(entries[j].0@ != key);
        }
        lemma_entries_miss(shorter, key);
        assert(entries[entries.len() - 1].0@ != key);
    }
}

/// Replacing the entry that counts for a key sets the key.
proof fn lemma_entries_update(entries: Seq<(String, Json)>, i: int, entry: (String, Json))
    requires
        0 <= i < entries.len(),
        entries[i].0@ == entry.0@,
        forall|j: int| i < j < entries.len() ==> (#[trigger] entries[j]).0@ != entries[i].0@,
    ensures
        entries_view(entries.update(i, entry)) == entries_view(entries).insert(entry.0@, entry.1@),
    decreases entries.len(),
{
    let updated = entries.update(i, entry);
    if i < entries.len() - 1 {
        let shorter = entries.drop_last();
        assert forall|j: int| i < j < shorter.len() implies (#[trigger] shorter[j]).0@
            != shorter[i].0@ by {
            assert(entries[j].0@ != entries[i].0@);
        }
        lemma_entries_update(shorter, i, entry);
        assert(updated.drop_last() =~= shorter.update(i, entry));
        assert(entries[entries.len() - 1].0@ != entry.0@);
        assert(entries_view(updated) =~= entries_view(entries).insert(entry.0@, entry.1@));
    } else {
        assert(updated.drop_last() =~= entries.drop_last());
        assert(entries_view(updated) =~= entries_view(entries).insert(entry.0@, entry.1@));
    }
}

/// One more item is one more value.
pub broadcast proof fn lemma_items_push(items: Seq<Json>, item: Json)
    ensures
        #[trigger] items_view(items.push(item)) == items_view(items).push(item@),
{
    assert(items_view(items.push(item)) =~= items_view(items).push(item@));
}

/// One more entry sets its key.
pub broadcast proof fn lemma_entries_push(entries: Seq<(String, Json)>, entry: (String, Json))
    ensures
        #[trigger] entries_view(entries.push(entry)) == entries_view(entries).insert(
            entry.0@,
            entry.1@,
        ),
{
    assert(entries.push(entry).drop_last() =~= entries);
}

/// An empty list stands for no values.
pub broadcast proof fn lemma_items_empty(items: Seq<Json>)
    requires
        items.len() == 0,
    ensures
        #[trigger] items_view(items) == Seq::<JsonV>::empty(),
{
    assert(items_view(items) =~= Seq::<JsonV>::empty());
}

pub broadcast group group_json {
    lemma_items_push,
    lemma_entries_push,
    lemma_items_empty,
}

/// Sets a member of an object given by its entries.
pub fn put(entries: &mut Vec<(String, Json)>, key: &str, value: Json)
    ensures
        entries_view(final(entries)@) == entries_view(old(entries)@).insert(key@, value@),
{
    let mut i: usize = entries.len();
    while i > 0
        invariant
            i <= entries@.len(),
            entries@ == old(entries)@,
            forall|j: int| i <= j < entries@.len() ==> (#[trigger] entries@[j]).0@ != key@,
        decreases i,
    {
        i -= 1;
        if str_eq(entries[i].0.as_str(), key) {
            proof {
                lemma_entries_update(entries@, i as int, (entries@[i as int].0, value));
            }
            let name = entries[i].0.clone();
            entries.set(i, (name, value));
            return;
        }
    }
    entries.push((key.to_owned(), value));
    assert(entries@.drop_last() =~= old(entries)@);
}

impl Json {
    /// The member `key` of an object; nothing for any other value.
    pub fn get(&self, key: &str) -> (r: Option<&Json>)
        ensures
            opt_view(r) == self@.get(key@),
    {
        match self {
            Json::Obj(entries) => {
                let mut i: usize = entries.len();
                while i > 0
                    invariant
                        i <= entries@.len(),
                        self == Json::Obj(*entries),
                        forall|j: int|
                            i <= j < entries@.len() ==> (#[trigger] entries@[j]).0@ != key@,
                    decreases i,
                {
                    i -= 1;
                    if str_eq(entries[i].0.as_str(), key) {
                        proof {
                            lemma_entries_hit(entries@, i as int);
                        }
                        return Some(&entries[i].1);
                    }
                }
                proof {
                    lemma_entries_miss(entries@, key@);
                }
                None
            },
            _ => None,
        }
    }

    /// The text of a string value.
    pub fn as_str(&self) -> (r: Option<&str>)
        ensures
            opt_text(r) == self@.as_str(),
    {
        match self {
            Json::Str(s) => Some(s.as_str()),
            _ => None,
        }
    }

    /// The items of an array.
    pub fn as_array(&self) -> (r: Option<&Vec<Json>>)
        ensures
            match r {
                Some(items) => self@.as_array() == Some(items_view(items@)),
                None => self@.as_array() is None,
            },
    {
        match self {
            Json::Arr(items) => Some(items),
            _ => None,
        }
    }

    /// The number, where the value is an unsigned 64-bit integer.
    pub fn as_u64(&self) -> (r: Option<u64>)
        ensures
            r == self@.as_u64(),
    {
        match self {
            Json::Num(JsonNumber::Unsigned(n)) => Some(*n),
            Json::Num(JsonNumber::Negative(n)) => if *n < 0 {
                None
            } else {
                Some(*n as u64)
            },
            Json::Num(JsonNumber::Other(n)) => n.as_u64(),
            _ => None,
        }
    }

    /// The text of the string member `key`.
    pub fn str_at(&self, key: &str) -> (r: Option<&str>)
        ensures
            opt_text(r) == self@.str_at(key@),
    {
        match self.get(key) {
            Some(v) => v.as_str(),
            None => None,
        }
    }

    /// The text of the string member `key`, or `default`.
    pub fn str_or<'a>(&'a self, key: &str, default: &'a str) -> (r: &'a str)
        ensures
            r@ == self@.str_or(key@, default@),
    {
        match self.str_at(key) {
            Some(s) => s,
            None => default,
        }
    }

    /// The items of the array member `key`.
    pub fn array_at(&self, key: &str) -> (r: Option<&Vec<Json>>)
        ensures
            match r {
                Some(items) => self@.array_at(key@) == Some(items_view(items@)),
                None => self@.array_at(key@) is None,
            },
    {
        match self.get(key) {
            Some(v) => v.as_array(),
            None => None,
        }
    }

    /// The unsigned integer member `key`.
    pub fn u64_at(&self, key: &str) -> (r: Option<u64>)
        ensures
            r == self@.u64_at(key@),
    {
        match self.get(key) {
            Some(v) => v.as_u64(),
            None => None,
        }
    }

    /// The object without members.
    pub fn object() -> (r: Json)
        ensures
            r@ == JsonV::object(),
    {
        Json::Obj(Vec::new())
    }

    /// Sets a member of an object.
    pub fn set(self, key: &str, value: Json) -> (r: Json)
        requires
            self@ is Obj,
        ensures
            r@ == self@.set(key@, value@),
    {
        match self {
            Json::Obj(entries) => {
                let mut entries = entries;
                put(&mut entries, key, value);
                Json::Obj(entries)
            },
            other => other,
        }
    }

    /// Sets a member of an object, where there is something to set it to.
    pub fn set_opt(self, key: &str, value: Option<Json>) -> (r: Json)
        requires
            self@ is Obj,
        ensures
            r@ == self@.set_opt(key@, owned_view(value)),
    {
        match value {
            Some(v) => self.set(key, v),
            None => self,
        }
    }

    /// A copy of the member `key` of an object.
    pub fn get_copy(&self, key: &str) -> (r: Option<Json>)
        ensures
            owned_view(r) == self@.get(key@),
    {
        match self.get(key) {
            Some(v) => Some(v.copy()),
            None => None,
        }
    }

    /// The text of the string member `key` as a value.
    pub fn get_text(&self, key: &str) -> (r: Option<Json>)
        ensures
            owned_view(r) == opt_str(self@.str_at(key@)),
    {
        match self.str_at(key) {
            Some(s) => Some(Json::text(s)),
            None => None,
        }
    }

    /// The array with one item.
    pub fn single(item: Json) -> (r: Json)
        ensures
            r@ == JsonV::Arr(seq![item@]),
    {
        let mut items: Vec<Json> = Vec::new();
        items.push(item);
        assert(items_view(items@) =~= seq![item@]);
        Json::Arr(items)
    }

    /// A string value.
    pub fn text(s: &str) -> (r: Json)
        ensures
            r@ == JsonV::Str(s@),
    {
        Json::Str(s.to_owned())
    }

    /// An unsigned integer value.
    pub fn number(n: u64) -> (r: Json)
        ensures
            r@ == num(n),
    {
        Json::Num(JsonNumber::Unsigned(n))
    }

    /// A deep copy.
    pub fn copy(&self) -> (r: Json)
        ensures
            r@ == self@,
        decreases self,
    {
        match self {
            Json::Null => Json::Null,
            Json::Bool(b) => Json::Bool(*b),
            Json::Num(n) => Json::Num(copy_number(n)),
            Json::Str(s) => Json::Str(s.clone()),
            Json::Arr(items) => {
                let mut out: Vec<Json> = Vec::new();
                let mut i: usize = 0;
                while i < items.len()
                    invariant
                        i <= items@.len(),
                        self == Json::Arr(*items),
                        out@.len() == i,
                        forall|j: int| 0 <= j < i ==> (#[trigger] out@[j])@ == items@[j]@,
                    decreases items@.len() - i,
                {
                    assert(decreases_to!(*self => self->Arr_0));
                    assert(decreases_to!(self->Arr_0 => items@));
                    assert(decreases_to!(items@ => items@[i as int]));
                    out.push(items[i].copy());
                    i += 1;
                }
                assert(items_view(out@) =~= items_view(items@));
                Json::Arr(out)
            },
            Json::Obj(entries) => {
                let mut out: Vec<(String, Json)> = Vec::new();
                let mut i: usize = 0;
                while i < entries.len()
                    invariant
                        i <= entries@.len(),
                        self == Json::Obj(*entries),
                        out@.len() == i,
                        entries_view(out@) == entries_view(entries@.take(i as int)),
                    decreases entries@.len() - i,
                {
                    let ghost before = out@;
                    assert(decreases_to!(*self => self->Obj_0));
                    assert(decreases_to!(self->Obj_0 => entries@));
                    assert(decreases_to!(entries@ => entries@[i as int]));
                    assert(decreases_to!(entries@[i as int] => entries@[i as int].1));
                    let value = entries[i].1.copy();
                    out.push((entries[i].0.clone(), value));
                    assert(out@.drop_last() =~= before);
                    assert(entries@.take(i + 1).drop_last() =~= entries@.take(i as int));
                    i += 1;
                }
                assert(entries@.take(i as int) =~= entries@);
                Json::Obj(out)
            },
        }
    }
}

fn copy_number(n: &JsonNumber) -> (r: JsonNumber)
    ensures
        r == *n,
{
    match n {
        JsonNumber::Unsigned(u) => JsonNumber::Unsigned(*u),
        JsonNumber::Negative(i) => JsonNumber::Negative(*i),
        JsonNumber::Other(o) => JsonNumber::Other(o.clone()),
    }
}

impl Clone for Json {
    fn clone(&self) -> (r: Json)
        ensures
            r@ == self@,
    {
        self.copy()
    }
}

} // verus!
