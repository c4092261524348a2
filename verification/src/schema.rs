//! Cleaning the JSON schemas of tool parameters.

use vstd::prelude::*;
use crate::json::{entries_view, Json, JsonV};
use crate::text::str_eq;

verus! {

broadcast use crate::json::group_json;

/// A schema without the format `uri`, in itself, in its properties and in its items.
pub open spec fn cleaned(schema: JsonV) -> JsonV
    decreases schema, 0int,
{
    match schema {
        JsonV::Obj(m) => JsonV::Obj(
            Map::new(
                |key: Seq<char>|
                    m.contains_key(key) && !(key == "format"@ && m[key] == JsonV::Str("uri"@)),
                |key: Seq<char>|
                    if m.contains_key(key) {
                        cleaned_member(key, m[key])
                    } else {
                        JsonV::Null
                    },
            ),
        ),
        _ => schema,
    }
}

/// A member of a schema, cleaned where it holds schemas.
pub open spec fn cleaned_member(key: Seq<char>, value: JsonV) -> JsonV
    decreases value, 1int,
{
    if key == "properties"@ {
        cleaned_properties(value)
    } else if key == "items"@ {
        cleaned(value)
    } else {
        value
    }
}

/// An object of schemas, each one cleaned.
pub open spec fn cleaned_properties(value: JsonV) -> JsonV
    decreases value, 0int,
{
    match value {
        JsonV::Obj(m) => JsonV::Obj(
            Map::new(
                |key: Seq<char>| m.contains_key(key),
                |key: Seq<char>|
                    if m.contains_key(key) {
                        cleaned(m[key])
                    } else {
                        JsonV::Null
                    },
            ),
        ),
        _ => value,
    }
}

spec fn kept_members(m: Map<Seq<char>, JsonV>, drop_format: bool) -> Map<Seq<char>, JsonV> {
    Map::new(
        |key: Seq<char>| m.contains_key(key) && !(key == "format"@ && drop_format),
        |key: Seq<char>| cleaned_member(key, m[key]),
    )
}

spec fn all_cleaned(m: Map<Seq<char>, JsonV>) -> Map<Seq<char>, JsonV> {
    Map::new(|key: Seq<char>| m.contains_key(key), |key: Seq<char>| cleaned(m[key]))
}

/// Removes the format `uri` from a schema, from its properties and from its items.
pub fn clean_schema(schema: &Json) -> (r: Json)
    ensures
        r@ == cleaned(schema@),
    decreases schema, 0int,
{
    match schema {
        Json::Obj(entries) => {
            let drop_format = match schema.str_at("format") {
                Some(format) => str_eq(format, "uri"),
                None => false,
            };
            let mut out: Vec<(String, Json)> = Vec::new();
            let mut i: usize = 0;
            while i < entries.len()
                invariant
                    i <= entries@.len(),
                    schema == Json::Obj(*entries),
                    entries_view(out@) == kept_members(
                        entries_view(entries@.take(i as int)),
                        drop_format,
                    ),
                decreases entries@.len() - i,
            {
                assert(entries@.take(i + 1).drop_last() =~= entries@.take(i as int));
                if !(drop_format && str_eq(entries[i].0.as_str(), "format")) {
                    assert(decreases_to!(*schema => schema->Obj_0));
                    assert(decreases_to!(schema->Obj_0 => entries@));
                    assert(decreases_to!(entries@ => entries@[i as int]));
                    assert(decreases_to!(entries@[i as int] => entries@[i as int].1));
                    let member = clean_member(entries[i].0.as_str(), &entries[i].1);
                    out.push((entries[i].0.clone(), member));
                }
                i += 1;
                assert(entries_view(out@) =~= kept_members(
                    entries_view(entries@.take(i as int)),
                    drop_format,
                ));
            }
            assert(entries@.take(i as int) =~= entries@);
            assert(cleaned(schema@)->Obj_0 =~= kept_members(entries_view(entries@), drop_format));
            Json::Obj(out)
        },
        _ => schema.copy(),
    }
}

fn clean_member(key: &str, value: &Json) -> (r: Json)
    ensures
        r@ == cleaned_member(key@, value@),
    decreases value, 1int,
{
    if str_eq(key, "properties") {
        clean_properties(value)
    } else if str_eq(key, "items") {
        clean_schema(value)
    } else {
        value.copy()
    }
}

fn clean_properties(value: &Json) -> (r: Json)
    ensures
        r@ == cleaned_properties(value@),
    decreases value, 0int,
{
    match value {
        Json::Obj(entries) => {
            let mut out: Vec<(String, Json)> = Vec::new();
            let mut i: usize = 0;
            while i < entries.len()
                invariant
                    i <= entries@.len(),
                    value == Json::Obj(*entries),
                    entries_view(out@) == all_cleaned(entries_view(entries@.take(i as int))),
                decreases entries@.len() - i,
            {
                assert(entries@.take(i + 1).drop_last() =~= entries@.take(i as int));
                assert(decreases_to!(*value => value->Obj_0));
                assert(decreases_to!(value->Obj_0 => entries@));
                assert(decreases_to!(entries@ => entries@[i as int]));
                assert(decreases_to!(entries@[i as int] => entries@[i as int].1));
                let property = clean_schema(&entries[i].1);
                out.push((entries[i].0.clone(), property));
                i += 1;
                assert(entries_view(out@) =~= all_cleaned(entries_view(entries@.take(i as int))));
            }
            assert(entries@.take(i as int) =~= entries@);
            assert(cleaned_properties(value@)->Obj_0 =~= all_cleaned(entries_view(entries@)));
            Json::Obj(out)
        },
        _ => value.copy(),
    }
}

/// A cleaned schema has no format `uri`.
pub proof fn cleaned_schema_has_no_uri(schema: JsonV)
    ensures
        cleaned(schema).str_at("format"@) != Some("uri"@),
{
    reveal_strlit("format");
    reveal_strlit("properties");
    reveal_strlit("items");
    assert("format"@.len() == 6);
    assert("properties"@.len() == 10);
    assert("items"@.len() == 5);
}

} // verus!
