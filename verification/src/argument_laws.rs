//! What normalised arguments tell of the arguments that were given.

use vstd::prelude::*;
use crate::arguments::{
    array_text, cuts, listed_values, normal_arguments, normal_member, normal_members,
    normal_read_arguments, normal_value, piece_values, pieces, scan, with_agent_ids, Scan,
};
use crate::json::JsonV;
use crate::keys::lemma_keys_differ;
use crate::text::{is_space, trim};
use crate::text_laws::{is_white, trimming_takes_white_ends_off};
use crate::value::parsed;

verus! {

broadcast use crate::json::group_members;

/// Whether the end of a text stands behind a quote that is open.
pub open spec fn is_quoted(s: Seq<char>) -> bool
    decreases s.len(),
{
    if s.len() == 0 {
        false
    } else if s.last() == '"' && !is_escaped(s.drop_last()) {
        !is_quoted(s.drop_last())
    } else {
        is_quoted(s.drop_last())
    }
}

/// Whether the end of a text stands behind a backslash that escapes what follows.
pub open spec fn is_escaped(s: Seq<char>) -> bool
    decreases s.len(),
{
    s.len() > 0 && s.last() == '\\' && is_quoted(s.drop_last()) && !is_escaped(s.drop_last())
}

/// How many more brackets are opened than closed in a text, outside of quotes.
pub open spec fn nesting(s: Seq<char>) -> int
    decreases s.len(),
{
    if s.len() == 0 {
        0
    } else if is_quoted(s.drop_last()) {
        nesting(s.drop_last())
    } else if s.last() == '[' || s.last() == '{' {
        nesting(s.drop_last()) + 1
    } else if s.last() == ']' || s.last() == '}' {
        nesting(s.drop_last()) - 1
    } else {
        nesting(s.drop_last())
    }
}

/// Whether nothing is open at the end of a text.
pub open spec fn is_closed(s: Seq<char>) -> bool {
    !is_quoted(s) && nesting(s) == 0
}

/// Whether a text is one piece: no comma in it stands outside of quotes and brackets.
pub open spec fn is_one_piece(s: Seq<char>) -> bool {
    forall|i: int| 0 <= i < s.len() && s[i] == ',' ==> !is_closed(#[trigger] s.take(i))
}

proof fn lemma_scan(s: Seq<char>)
    ensures
        scan(s) == (Scan { depth: nesting(s), in_string: is_quoted(s), escaped: is_escaped(s) }),
        is_escaped(s) ==> is_quoted(s),
    decreases s.len(),
{
    if s.len() > 0 {
        lemma_scan(s.drop_last());
    }
}

proof fn lemma_one_piece(s: Seq<char>)
    requires
        is_one_piece(s),
    ensures
        pieces(s) == seq![s],
    decreases s.len(),
{
    if s.len() == 0 {
        assert(s =~= Seq::empty());
    } else {
        let before = s.drop_last();
        assert forall|i: int| 0 <= i < before.len() && before[i] == ',' implies !is_closed(
            #[trigger] before.take(i),
        ) by {
            assert(before.take(i) =~= s.take(i));
            assert(s[i] == ',');
        }
        lemma_one_piece(before);
        lemma_scan(before);
        assert(s.take(s.len() - 1) =~= before);
        assert(!cuts(scan(before), s.last()));
        assert(before.push(s.last()) =~= s);
        assert(pieces(s) =~= seq![s]);
    }
}

proof fn lemma_pieces_apart(a: Seq<char>, b: Seq<char>)
    requires
        is_closed(a),
    ensures
        pieces(a.push(',') + b) == pieces(a) + pieces(b),
        scan(a.push(',') + b) == scan(b),
        pieces(b).len() > 0,
    decreases b.len(),
{
    let all = a.push(',') + b;
    lemma_scan(a);
    if b.len() == 0 {
        assert(all =~= a.push(','));
        assert(all.drop_last() =~= a);
        assert(pieces(all) =~= pieces(a) + seq![Seq::empty()]);
    } else {
        let shorter = b.drop_last();
        lemma_pieces_apart(a, shorter);
        assert(all.drop_last() =~= a.push(',') + shorter);
        assert(all.last() == b.last());
        let front = pieces(a);
        let back = pieces(shorter);
        assert((front + back).last() == back.last());
        assert((front + back).drop_last() =~= front + back.drop_last());
        assert(pieces(all) =~= front + pieces(b));
    }
}

proof fn lemma_values_apart(a: Seq<Seq<char>>, b: Seq<Seq<char>>)
    ensures
        piece_values(a + b) == piece_values(a) + piece_values(b),
    decreases b.len(),
{
    if b.len() == 0 {
        assert(a + b =~= a);
        assert(piece_values(a) + piece_values(b) =~= piece_values(a));
    } else {
        lemma_values_apart(a, b.drop_last());
        assert((a + b).drop_last() =~= a + b.drop_last());
        assert((a + b).last() == b.last());
        assert(piece_values(a + b) =~= piece_values(a) + piece_values(b));
    }
}

/// A text of one piece lists one value: what the text without the white space at its ends reads as,
/// or else that text itself. White space alone lists nothing.
pub proof fn one_piece_lists_one_value(s: Seq<char>)
    requires
        is_one_piece(s),
    ensures
        is_white(s) ==> listed_values(s) == Seq::<JsonV>::empty(),
        !is_white(s) ==> listed_values(s) == seq![
            match parsed(trim(s)) {
                Some(value) => value,
                None => JsonV::Str(trim(s)),
            },
        ],
{
    crate::text_laws::blank_is_white(s);
    lemma_one_piece(s);
    let list = seq![s];
    assert(list.drop_last() =~= Seq::empty());
    assert(piece_values(list.drop_last()) == Seq::<JsonV>::empty());
    assert(list.last() == s);
}

/// A comma outside of quotes and brackets parts the values of a list: those before it and those
/// behind it are listed each on their own.
pub proof fn commas_part_the_values(a: Seq<char>, b: Seq<char>)
    requires
        is_closed(a),
    ensures
        listed_values(a.push(',') + b) == listed_values(a) + listed_values(b),
{
    lemma_pieces_apart(a, b);
    lemma_values_apart(pieces(a), pieces(b));
}

/// A text in the form of an array: brackets around something, and white space around them.
pub open spec fn is_bracketed(s: Seq<char>, inside: Seq<char>) -> bool {
    exists|front: Seq<char>, back: Seq<char>|
        is_white(front) && is_white(back) && s == #[trigger] (front + (seq!['['] + inside + seq![
            ']',
        ]) + back)
}

/// A text that is not in the form of an array.
pub open spec fn has_no_brackets_around(s: Seq<char>) -> bool {
    forall|inside: Seq<char>| !#[trigger] is_bracketed(s, inside)
}

proof fn lemma_trim_between(front: Seq<char>, t: Seq<char>, back: Seq<char>)
    requires
        is_white(front),
        is_white(back),
        t.len() > 0,
        !is_space(t.first()),
        !is_space(t.last()),
    ensures
        trim(front + t + back) == t,
    decreases front.len() + back.len(),
{
    let s = front + t + back;
    trimming_takes_white_ends_off(s);
    let (f, b) = choose|f: Seq<char>, b: Seq<char>|
        is_white(f) && is_white(b) && s == #[trigger] (f + trim(s) + b);
    crate::text_laws::blank_is_white(s);
    assert(s[front.len() as int] == t[0]);
    assert(trim(s).len() > 0);
    assert(s[f.len() as int] == trim(s)[0]);
    assert(s[f.len() + trim(s).len() - 1] == trim(s).last());
    assert(s[front.len() + t.len() - 1] == t.last());
    if f.len() < front.len() {
        assert(s[f.len() as int] == front[f.len() as int]);
    }
    if front.len() < f.len() {
        assert(s[front.len() as int] == f[front.len() as int]);
    }
    let e = f.len() + trim(s).len();
    let g = front.len() + t.len();
    if e < g {
        assert(s[g - 1] == b[g - 1 - e]);
    }
    if g < e {
        assert(s[e - 1] == back[e - 1 - g]);
    }
    assert(s.subrange(f.len() as int, e as int) =~= trim(s));
    assert(s.subrange(front.len() as int, g as int) =~= t);
}

proof fn lemma_bracketed(s: Seq<char>, inside: Seq<char>)
    requires
        is_bracketed(s, inside),
    ensures
        trim(s) == seq!['['] + inside + seq![']'],
{
    let t = seq!['['] + inside + seq![']'];
    let (front, back) = choose|front: Seq<char>, back: Seq<char>|
        is_white(front) && is_white(back) && s == #[trigger] (front + (seq!['['] + inside + seq![
            ']',
        ]) + back);
    assert(t.first() == '[' && t.last() == ']');
    lemma_trim_between(front, t, back);
}

proof fn lemma_array_text(s: Seq<char>)
    ensures
        forall|inside: Seq<char>| #[trigger]
            is_bracketed(s, inside) ==> array_text(s) == if listed_values(inside).len() > 0 {
                Some(listed_values(inside))
            } else {
                None
            },
        has_no_brackets_around(s) ==> array_text(s) is None,
{
    let t = trim(s);
    assert forall|inside: Seq<char>| #[trigger] is_bracketed(s, inside) implies array_text(s)
        == if listed_values(inside).len() > 0 {
        Some(listed_values(inside))
    } else {
        None
    } by {
        lemma_bracketed(s, inside);
        assert(t.first() == '[' && t.last() == ']');
        assert(t.subrange(1, t.len() - 1) =~= inside);
    }
    if array_text(s) is Some {
        let inside = t.subrange(1, t.len() - 1);
        assert(t.len() > 1);
        assert(t =~= seq!['['] + inside + seq![']']);
        trimming_takes_white_ends_off(s);
        let (front, back) = choose|front: Seq<char>, back: Seq<char>|
            is_white(front) && is_white(back) && s == #[trigger] (front + trim(s) + back);
        assert(s == front + (seq!['['] + inside + seq![']']) + back);
        assert(is_bracketed(s, inside));
    }
}

/// A value is the normalised form of a given one. An object keeps its members, each in normalised
/// form, and an array its items. A text in the form of an array becomes the array of the values that
/// it lists, if it lists any. Everything else stays as it is.
pub open spec fn is_normal_form(value: JsonV, given: JsonV) -> bool
    decreases given, 0int,
{
    match given {
        JsonV::Obj(m) => value is Obj && forall|key: Seq<char>|
            {
                &&& (#[trigger] value.get(key)) is Some <==> m.contains_key(key)
                &&& m.contains_key(key) ==> is_normal_at(key, value.get(key)->Some_0, m[key])
            },
        JsonV::Arr(items) => value matches JsonV::Arr(list) && list.len() == items.len() && forall|
            i: int,
        |
            0 <= i < items.len() ==> is_normal_form(#[trigger] list[i], items[i]),
        JsonV::Str(s) => {
            &&& has_no_brackets_around(s) ==> value == given
            &&& forall|inside: Seq<char>| #[trigger]
                is_bracketed(s, inside) ==> if listed_values(inside).len() == 0 {
                    value == given
                } else {
                    value == JsonV::Arr(listed_values(inside))
                }
        },
        _ => value == given,
    }
}

/// The same of a member under a key. A command that is an array stays as it is, and a message or
/// items in text form become what the text reads as, where it can be read.
pub open spec fn is_normal_at(key: Seq<char>, value: JsonV, given: JsonV) -> bool
    decreases given, 1int,
{
    if key == "command"@ && given is Arr {
        value == given
    } else if (key == "message"@ || key == "items"@) && given is Str {
        value == match parsed(given->Str_0) {
            Some(read) => read,
            None => given,
        }
    } else {
        is_normal_form(value, given)
    }
}

proof fn lemma_normal_at(key: Seq<char>, given: JsonV)
    ensures
        is_normal_at(key, normal_member(key, given), given),
    decreases given, 1int,
{
    values_are_normalised(given);
}

/// Normalising a value gives its normalised form.
pub proof fn values_are_normalised(given: JsonV)
    ensures
        is_normal_form(normal_value(given), given),
    decreases given, 0int,
{
    let value = normal_value(given);
    match given {
        JsonV::Obj(m) => {
            assert forall|key: Seq<char>|
                {
                    &&& (#[trigger] value.get(key)) is Some <==> m.contains_key(key)
                    &&& m.contains_key(key) ==> is_normal_at(key, value.get(key)->Some_0, m[key])
                } by {
                if m.contains_key(key) {
                    lemma_normal_at(key, m[key]);
                }
            }
        },
        JsonV::Arr(items) => {
            let list = value->Arr_0;
            assert forall|i: int| 0 <= i < items.len() implies is_normal_form(
                #[trigger] list[i],
                items[i],
            ) by {
                values_are_normalised(items[i]);
            }
        },
        JsonV::Str(s) => {
            lemma_array_text(s);
        },
        _ => {},
    }
}

/// A tool that manages agents.
pub open spec fn manages_agents(name: Seq<char>) -> bool {
    ||| name == "spawn_agent"@
    ||| name == "wait_agent"@
    ||| name == "send_input"@
    ||| name == "resume_agent"@
}

/// Arguments are the normalised form of arguments that were read. An object keeps its members, each
/// in normalised form; for a tool that manages agents, the identifier of an agent is listed, too.
pub open spec fn are_normal_read(value: JsonV, name: Seq<char>, given: JsonV) -> bool {
    match given {
        JsonV::Obj(m) => {
            let lists = manages_agents(name) && value.get("agent_id"@) matches Some(JsonV::Str(_));
            &&& value is Obj
            &&& forall|key: Seq<char>|
                !(lists && key == "agent_ids"@) ==> {
                    &&& (#[trigger] value.get(key)) is Some <==> m.contains_key(key)
                    &&& m.contains_key(key) ==> is_normal_at(key, value.get(key)->Some_0, m[key])
                }
            &&& lists ==> value.array_at("agent_ids"@) == Some(
                seq![value.get("agent_id"@)->Some_0],
            )
        },
        _ => is_normal_form(value, given),
    }
}

/// Arguments are the normalised form of given arguments. Those in text form are the ones that the
/// text reads as; a text that cannot be read stays as it is, and so do other values.
pub open spec fn are_normal(value: JsonV, name: Seq<char>, given: JsonV) -> bool {
    match given {
        JsonV::Obj(_) => are_normal_read(value, name, given),
        JsonV::Str(s) => match parsed(s) {
            Some(read) => are_normal_read(value, name, read),
            None => value == given,
        },
        _ => value == given,
    }
}

proof fn lemma_read_arguments(name: Seq<char>, given: JsonV)
    ensures
        are_normal_read(normal_read_arguments(name, given), name, given),
{
    lemma_keys_differ();
    let value = normal_read_arguments(name, given);
    if let JsonV::Obj(m) = given {
        let all = with_agent_ids(name, normal_members(m));
        assert(value == JsonV::Obj(all));
        assert forall|key: Seq<char>|
            key != "agent_ids"@ || all == normal_members(m) implies {
            &&& (#[trigger] value.get(key)) is Some <==> m.contains_key(key)
            &&& m.contains_key(key) ==> is_normal_at(key, value.get(key)->Some_0, m[key])
        } by {
            if m.contains_key(key) {
                lemma_normal_at(key, m[key]);
            }
        }
        assert(value.get("agent_id"@) == JsonV::Obj(normal_members(m)).get("agent_id"@));
    } else {
        values_are_normalised(given);
    }
}

/// Normalising arguments gives their normalised form.
pub proof fn arguments_are_normalised(name: Seq<char>, given: JsonV)
    ensures
        are_normal(normal_arguments(name, given), name, given),
{
    match given {
        JsonV::Obj(_) => lemma_read_arguments(name, given),
        JsonV::Str(s) => {
            if let Some(read) = parsed(s) {
                lemma_read_arguments(name, read);
            }
        },
        _ => {},
    }
}

/// A value without texts in the form of an array, and without messages or items in text form that
/// could be read.
pub open spec fn is_settled(value: JsonV) -> bool
    decreases value,
{
    match value {
        JsonV::Str(s) => has_no_brackets_around(s),
        JsonV::Arr(items) => forall|i: int| 0 <= i < items.len() ==> is_settled(#[trigger] items[i]),
        JsonV::Obj(m) => forall|key: Seq<char>| #[trigger]
            m.contains_key(key) ==> is_settled(m[key]) && ((key == "message"@ || key == "items"@)
                && m[key] is Str ==> parsed(m[key]->Str_0) is None),
        _ => true,
    }
}

/// Such a value is its own normalised form.
pub proof fn settled_values_stay(value: JsonV, given: JsonV)
    requires
        is_settled(given),
        is_normal_form(value, given),
    ensures
        value == given,
    decreases given,
{
    match given {
        JsonV::Obj(m) => {
            let all = value->Obj_0;
            assert forall|key: Seq<char>| all.contains_key(key) == m.contains_key(key) by {
                assert(value.get(key) is Some <==> m.contains_key(key));
            }
            assert forall|key: Seq<char>| m.contains_key(key) implies all[key] == m[key] by {
                assert(value.get(key) == Some(all[key]));
                assert(is_normal_at(key, all[key], m[key]));
                if !(key == "command"@ && m[key] is Arr) && !((key == "message"@ || key
                    == "items"@) && m[key] is Str) {
                    settled_values_stay(all[key], m[key]);
                }
            }
            assert(all =~= m);
        },
        JsonV::Arr(items) => {
            let list = value->Arr_0;
            assert forall|i: int| 0 <= i < items.len() implies list[i] == items[i] by {
                settled_values_stay(list[i], items[i]);
            }
            assert(list =~= items);
        },
        _ => {},
    }
}

/// The arguments of a call stay as they are, member by member, where they are settled and no agent is
/// to be listed.
pub proof fn settled_arguments_stay(name: Seq<char>, m: Map<Seq<char>, JsonV>)
    requires
        is_settled(JsonV::Obj(m)),
        !(manages_agents(name) && JsonV::Obj(m).str_at("agent_id"@) is Some),
    ensures
        normal_arguments(name, JsonV::Obj(m)) == JsonV::Obj(m),
        forall|s: Seq<char>|
            #[trigger] parsed(s) == Some(JsonV::Obj(m)) ==> normal_arguments(name, JsonV::Str(s))
                == JsonV::Obj(m),
{
    lemma_keys_differ();
    let given = JsonV::Obj(m);
    let value = normal_arguments(name, given);
    arguments_are_normalised(name, given);
    values_are_normalised(given);
    settled_values_stay(normal_value(given), given);
    assert(normal_members(m) =~= m) by {
        assert forall|key: Seq<char>| m.contains_key(key) implies normal_member(key, m[key])
            == m[key] by {
            assert(normal_value(given).get(key) == Some(normal_member(key, m[key])));
            assert(given.get(key) == Some(m[key]));
        }
    }
}

} // verus!
