//! What the tools of a converted request tell of the tools that were given.

use vstd::prelude::*;
use crate::chat_messages::chat_messages;
use crate::chat_request::{chat_request, chat_tool, chat_tools, input_list};
use crate::json::{gather, JsonV};
use crate::keys::lemma_keys_differ;
use crate::responses_request::{responses_request, responses_tool, responses_tools};
use crate::schema::{cleaned, cleaned_properties};
use crate::text::decimal;
use crate::value::parsed;

verus! {

broadcast use crate::json::group_members;

/// A value has no members but some.
pub open spec fn has_only(value: JsonV, keys: Set<Seq<char>>) -> bool {
    forall|key: Seq<char>| #[trigger] value.get(key) is Some ==> keys.contains(key)
}

/// The name that a tool tells; empty where it tells none.
pub open spec fn told_name(tool: JsonV) -> Seq<char> {
    match tool.str_at("name"@) {
        Some(name) => name,
        None => Seq::empty(),
    }
}

/// The description that a tool has; null where it has none.
pub open spec fn told_description(tool: JsonV) -> JsonV {
    match tool.get("description"@) {
        Some(description) => description,
        None => JsonV::Null,
    }
}

/// Whether a tool of a Responses request is a function: it says so, or does not say what it is.
pub open spec fn is_function(tool: JsonV) -> bool {
    match tool.str_at("type"@) {
        Some(kind) => kind == "function"@,
        None => true,
    }
}

/// The tools in a list that are functions.
pub open spec fn functions_in(tools: Seq<JsonV>) -> Seq<JsonV>
    decreases tools.len(),
{
    if tools.len() == 0 {
        Seq::empty()
    } else if is_function(tools.last()) {
        functions_in(tools.drop_last()).push(tools.last())
    } else {
        functions_in(tools.drop_last())
    }
}

/// A tool of a Chat Completions request stands for a function of a Responses request: it has the
/// name and the description of the function, and its parameters are the arguments of the function:
/// the object itself, or the value that a text reads as, or else an empty object.
pub open spec fn stands_for_function(tool: JsonV, given: JsonV) -> bool {
    &&& tool.str_at("type"@) == Some("function"@)
    &&& has_only(tool, set!["type"@, "function"@])
    &&& tool.get("function"@) matches Some(function) && {
        &&& function.str_at("name"@) == Some(told_name(given))
        &&& function.get("description"@) == Some(told_description(given))
        &&& function.get("parameters"@) == Some(
            match given.get("arguments"@) {
                Some(JsonV::Obj(m)) => JsonV::Obj(m),
                Some(JsonV::Str(s)) => match parsed(s) {
                    Some(read) => read,
                    None => JsonV::Obj(Map::empty()),
                },
                _ => JsonV::Obj(Map::empty()),
            },
        )
        &&& has_only(function, set!["name"@, "description"@, "parameters"@])
    }
}

proof fn lemma_chat_tool(given: JsonV)
    ensures
        chat_tool(given) is Some <==> is_function(given),
        chat_tool(given) matches Some(tool) ==> stands_for_function(tool, given),
{
    lemma_keys_differ();
    reveal_strlit("");
    assert(""@ =~= Seq::empty());
    if is_function(given) {
        let tool = chat_tool(given)->Some_0;
        let function = tool.get("function"@)->Some_0;
        assert(has_only(tool, set!["type"@, "function"@]));
        assert(has_only(function, set!["name"@, "description"@, "parameters"@]));
    }
}

proof fn lemma_chat_tools(tools: Seq<JsonV>)
    ensures
        chat_tools(tools).len() == functions_in(tools).len(),
        forall|i: int|
            0 <= i < chat_tools(tools).len() ==> stands_for_function(
                #[trigger] chat_tools(tools)[i],
                functions_in(tools)[i],
            ),
    decreases tools.len(),
{
    if tools.len() > 0 {
        lemma_chat_tools(tools.drop_last());
        lemma_chat_tool(tools.last());
        let f = |tool: JsonV| chat_tool(tool);
        assert(chat_tools(tools) == gather(tools, f));
        assert(chat_tools(tools.drop_last()) == gather(tools.drop_last(), f));
    }
}

/// The functions of a Responses request are the tools of the Chat Completions request: as many, in
/// the same order, each with the name, the description and the parameters that it has. A request
/// with tools of which none is a function is refused.
pub proof fn functions_become_tools(body: JsonV, tools: Seq<JsonV>, fresh: Seq<Seq<char>>)
    requires
        body.array_at("tools"@) == Some(tools),
        chat_messages(input_list(body), fresh) is Some,
    ensures
        chat_request(body, fresh) is Err <==> tools.len() > 0 && functions_in(tools).len() == 0,
        chat_request(body, fresh) matches Ok(request) ==> if tools.len() == 0 {
            request.get("tools"@) is None
        } else {
            &&& request.array_at("tools"@) matches Some(list) && list.len() == functions_in(
                tools,
            ).len() && forall|i: int|
                0 <= i < list.len() ==> stands_for_function(
                    #[trigger] list[i],
                    functions_in(tools)[i],
                )
        },
{
    lemma_keys_differ();
    lemma_chat_tools(tools);
}

/// A request without tools is not refused for them, and has none.
pub proof fn missing_tools_stay_missing(body: JsonV, fresh: Seq<Seq<char>>)
    requires
        body.array_at("tools"@) is None,
        chat_messages(input_list(body), fresh) is Some,
    ensures
        chat_request(body, fresh) matches Ok(request) && request.get("tools"@) is None,
{
    lemma_keys_differ();
}

/// The errors of a request tell why it is refused: tools of which none is a function are counted, and
/// an output that belongs to no call comes before them.
pub proof fn refusals_tell_why(body: JsonV, fresh: Seq<Seq<char>>)
    ensures
        chat_request(body, fresh) matches Err(text) ==> match chat_messages(
            match body.array_at("input"@) {
                Some(items) => items,
                None => Seq::empty(),
            },
            fresh,
        ) {
            None => text == "No pending tool call id to resolve"@,
            Some(_) => body.array_at("tools"@) matches Some(tools) && text
                == "No supported tools: MiniMax only accepts 'function' type, but got "@ + decimal(
                tools.len(),
            ) + " tool(s) of other types"@,
        },
{
}

/// A schema tells the same as another, but for the format `uri`: that is left out of the schema, out
/// of the schemas of its properties and out of the schema of its items; every other member is there
/// as it was, and no member is added.
pub open spec fn is_without_uri(schema: JsonV, given: JsonV) -> bool
    decreases given, 1int,
{
    match given {
        JsonV::Obj(m) => schema is Obj && forall|key: Seq<char>|
            {
                let left_out = key == "format"@ && m.contains_key(key) && m[key] == JsonV::Str(
                    "uri"@,
                );
                &&& (#[trigger] schema.get(key)) is Some <==> m.contains_key(key) && !left_out
                &&& m.contains_key(key) && !left_out ==> if key == "properties"@ {
                    are_without_uri(schema.get(key)->Some_0, m[key])
                } else if key == "items"@ {
                    is_without_uri(schema.get(key)->Some_0, m[key])
                } else {
                    schema.get(key) == Some(m[key])
                }
            },
        _ => schema == given,
    }
}

/// The same of each of some properties.
pub open spec fn are_without_uri(properties: JsonV, given: JsonV) -> bool
    decreases given, 0int,
{
    match given {
        JsonV::Obj(m) => properties is Obj && forall|key: Seq<char>|
            {
                &&& (#[trigger] properties.get(key)) is Some <==> m.contains_key(key)
                &&& m.contains_key(key) ==> is_without_uri(properties.get(key)->Some_0, m[key])
            },
        _ => properties == given,
    }
}

proof fn lemma_properties_without_uri(given: JsonV)
    ensures
        are_without_uri(cleaned_properties(given), given),
    decreases given, 0int,
{
    if let JsonV::Obj(m) = given {
        let properties = cleaned_properties(given);
        assert forall|key: Seq<char>|
            {
                &&& (#[trigger] properties.get(key)) is Some <==> m.contains_key(key)
                &&& m.contains_key(key) ==> is_without_uri(properties.get(key)->Some_0, m[key])
            } by {
            if m.contains_key(key) {
                schemas_lose_their_uri(m[key]);
            }
        }
    }
}

/// Cleaning a schema leaves out the format `uri`, and nothing else.
pub proof fn schemas_lose_their_uri(given: JsonV)
    ensures
        is_without_uri(cleaned(given), given),
    decreases given, 1int,
{
    lemma_keys_differ();
    if let JsonV::Obj(m) = given {
        let schema = cleaned(given);
        assert forall|key: Seq<char>|
            {
                let left_out = key == "format"@ && m.contains_key(key) && m[key] == JsonV::Str(
                    "uri"@,
                );
                &&& (#[trigger] schema.get(key)) is Some <==> m.contains_key(key) && !left_out
                &&& m.contains_key(key) && !left_out ==> if key == "properties"@ {
                    are_without_uri(schema.get(key)->Some_0, m[key])
                } else if key == "items"@ {
                    is_without_uri(schema.get(key)->Some_0, m[key])
                } else {
                    schema.get(key) == Some(m[key])
                }
            } by {
            if m.contains_key(key) {
                lemma_properties_without_uri(m[key]);
                schemas_lose_their_uri(m[key]);
            }
        }
    }
}

/// Whether a tool of a Chat Completions request is sent: a batch tool is not.
pub open spec fn is_sent(tool: JsonV) -> bool {
    tool.str_at("type"@) != Some("BatchTool"@)
}

/// The tools in a list that are sent.
pub open spec fn sent_in(tools: Seq<JsonV>) -> Seq<JsonV>
    decreases tools.len(),
{
    if tools.len() == 0 {
        Seq::empty()
    } else if is_sent(tools.last()) {
        sent_in(tools.drop_last()).push(tools.last())
    } else {
        sent_in(tools.drop_last())
    }
}

/// A tool of a Responses request stands for a tool of a Chat Completions request: it has the name and
/// the description of the tool, and as parameters the schema of the tool without the format `uri`.
pub open spec fn stands_for_tool(tool: JsonV, given: JsonV) -> bool {
    &&& tool.str_at("type"@) == Some("function"@)
    &&& tool.str_at("name"@) == Some(told_name(given))
    &&& tool.get("description"@) == Some(told_description(given))
    &&& tool.get("parameters"@) matches Some(schema) && is_without_uri(
        schema,
        match given.get("parameters"@) {
            Some(parameters) => parameters,
            None => match given.get("input_schema"@) {
                Some(parameters) => parameters,
                None => JsonV::Obj(Map::empty()),
            },
        },
    )
    &&& has_only(tool, set!["type"@, "name"@, "description"@, "parameters"@])
}

proof fn lemma_responses_tool(given: JsonV)
    ensures
        responses_tool(given) is Some <==> is_sent(given),
        responses_tool(given) matches Some(tool) ==> stands_for_tool(tool, given),
{
    lemma_keys_differ();
    reveal_strlit("");
    assert(""@ =~= Seq::empty());
    if is_sent(given) {
        let tool = responses_tool(given)->Some_0;
        let schema = match given.get("parameters"@) {
            Some(parameters) => parameters,
            None => match given.get("input_schema"@) {
                Some(parameters) => parameters,
                None => JsonV::Obj(Map::empty()),
            },
        };
        schemas_lose_their_uri(schema);
        assert(tool.get("parameters"@) == Some(cleaned(schema)));
        assert(has_only(tool, set!["type"@, "name"@, "description"@, "parameters"@]));
    }
}

proof fn lemma_responses_tools(tools: Seq<JsonV>)
    ensures
        ({
            let list = gather(tools, |tool: JsonV| responses_tool(tool));
            &&& list.len() == sent_in(tools).len()
            &&& forall|i: int|
                0 <= i < list.len() ==> stands_for_tool(#[trigger] list[i], sent_in(tools)[i])
        }),
    decreases tools.len(),
{
    if tools.len() > 0 {
        lemma_responses_tools(tools.drop_last());
        lemma_responses_tool(tools.last());
    }
}

/// The tools of a Chat Completions request, which it lists as functions or else as tools, are the
/// tools of the Responses request, but for batch tools: as many, in the same order, each with the
/// name, the description and the parameters that it has.
pub proof fn tools_become_functions(body: JsonV)
    ensures
        ({
            let request = responses_request(body);
            let given = match body.get("functions"@) {
                Some(functions) => Some(functions),
                None => body.get("tools"@),
            };
            match given {
                Some(JsonV::Arr(tools)) => if sent_in(tools).len() == 0 {
                    request.get("tools"@) is None
                } else {
                    request.array_at("tools"@) matches Some(list) && list.len() == sent_in(
                        tools,
                    ).len() && forall|i: int|
                        0 <= i < list.len() ==> stands_for_tool(
                            #[trigger] list[i],
                            sent_in(tools)[i],
                        )
                },
                _ => request.get("tools"@) is None,
            }
        }),
{
    lemma_keys_differ();
    let given = match body.get("functions"@) {
        Some(functions) => Some(functions),
        None => body.get("tools"@),
    };
    assert(responses_request(body).get("tools"@) == responses_tools(body));
    if let Some(JsonV::Arr(tools)) = given {
        lemma_responses_tools(tools);
    }
}

} // verus!
