use responses_bridge::chat_messages::{
    build_call_arguments, convert_input_with_ids, convert_responses_input_to_chat_messages,
    draw_ids, resolve_tool_output_call_id,
};
use responses_bridge::chat_request::{request_with_ids, responses_to_chat_completions_request};
use responses_bridge::input_items::convert_chat_messages_to_input;
use responses_bridge::json::Json;
use responses_bridge::responses_request::{
    chat_completions_to_responses, map_tool_choice_to_responses,
};
use serde_json::Value;
use std::collections::VecDeque;

fn json(text: &str) -> Json {
    Json::from_value(&value(text))
}

fn value(text: &str) -> Value {
    serde_json::from_str(text).unwrap()
}

fn list(text: &str) -> Vec<Json> {
    match json(text) {
        Json::Arr(items) => items,
        other => panic!("not a list: {:?}", other),
    }
}

fn values(items: &[Json]) -> Value {
    Value::Array(items.iter().map(|item| item.to_value()).collect())
}

fn to_responses(text: &str) -> Value {
    chat_completions_to_responses(json(text)).unwrap().to_value()
}

fn to_chat(text: &str) -> Value {
    responses_to_chat_completions_request(json(text)).unwrap().to_value()
}

fn to_chat_error(text: &str) -> String {
    match responses_to_chat_completions_request(json(text)) {
        Ok(request) => panic!("not refused: {:?}", request),
        Err(e) => e.message().to_string(),
    }
}

#[test]
fn test_chat_completions_to_responses_simple() {
    let input = json(
        r#"{
            "model": "gpt-4o",
            "messages": [
                {"role": "user", "content": "Hello"}
            ]
        }"#,
    );

    let result = chat_completions_to_responses(input).unwrap().to_value();
    assert_eq!(result["model"], "gpt-4o");
    assert_eq!(result["instructions"], "");
    let input_arr = result["input"].as_array().unwrap();
    assert_eq!(input_arr.len(), 1);
}

#[test]
fn test_chat_completions_to_responses_with_system() {
    let input = json(
        r#"{
            "model": "gpt-4o",
            "messages": [
                {"role": "system", "content": "You are a helpful assistant."},
                {"role": "user", "content": "Hello"}
            ]
        }"#,
    );

    let result = chat_completions_to_responses(input).unwrap().to_value();
    assert_eq!(result["model"], "gpt-4o");
    assert_eq!(result["instructions"], "You are a helpful assistant.");
    let input_arr = result["input"].as_array().unwrap();
    assert_eq!(input_arr.len(), 1);
    assert_eq!(input_arr[0]["role"], "user");
}

#[test]
fn test_chat_completions_to_responses_with_tools() {
    let input = json(
        r#"{
            "model": "gpt-4o",
            "messages": [
                {"role": "user", "content": "What's the weather?"}
            ],
            "tools": [
                {
                    "type": "function",
                    "name": "get_weather",
                    "description": "Get weather for a location",
                    "parameters": {
                        "type": "object",
                        "properties": {
                            "location": {"type": "string"}
                        },
                        "required": ["location"]
                    }
                }
            ]
        }"#,
    );

    let result = chat_completions_to_responses(input).unwrap().to_value();
    let tools = result["tools"].as_array().unwrap();
    assert_eq!(tools.len(), 1);
    assert_eq!(tools[0]["name"], "get_weather");
    assert_eq!(tools[0]["type"], "function");
}

#[test]
fn whole_chat_request_is_converted() {
    let result = to_responses(
        r#"{
            "model": "m",
            "messages": [
                {"role": "system", "content": "One."},
                {"role": "system", "content": [{"text": "Two."}, {"image": 1}, {"text": "Three."}]},
                {"role": "assistant", "content": "Hi"},
                {"content": "there"}
            ],
            "max_tokens": 7,
            "temperature": 0.5,
            "top_p": 0.25,
            "stream": true,
            "reasoning": "high",
            "tool_choice": {"type": "function", "function": {"name": "f"}},
            "parallel_tool_calls": false,
            "seed": -3,
            "presence_penalty": 1,
            "response_format": {"type": "json_schema", "json_schema": {"a": 1}}
        }"#,
    );
    assert_eq!(
        result,
        value(
            r#"{
                "model": "m",
                "instructions": "One.\n\nTwo.\n\nThree.",
                "input": [
                    {"role": "assistant", "content": [{"type": "output_text", "text": "Hi"}]},
                    {"role": "user", "content": [{"type": "input_text", "text": "there"}]}
                ],
                "max_output_tokens": 7,
                "temperature": 0.5,
                "top_p": 0.25,
                "stream": true,
                "reasoning": {"effort": "high"},
                "tool_choice": {"type": "function", "name": "f"},
                "parallel_tool_calls": false,
                "seed": -3,
                "text": {"format": {"type": "json_object", "schema": {"a": 1}}}
            }"#
        )
    );
}

#[test]
fn empty_chat_request_is_converted() {
    assert_eq!(to_responses("{}"), value("{}"));
    assert_eq!(to_responses("null"), value("{}"));
    assert_eq!(to_responses(r#"{"messages": []}"#), value(r#"{"instructions": ""}"#));
}

#[test]
fn tools_are_cleaned_and_batch_tools_dropped() {
    let result = to_responses(
        r#"{
            "functions": [
                {"type": "BatchTool", "name": "b"},
                {"name": "f", "input_schema": {
                    "format": "uri",
                    "properties": {"u": {"format": "uri", "type": "string"}, "d": {"format": "date"}},
                    "items": {"format": "uri"}
                }}
            ],
            "tools": [{"name": "ignored"}]
        }"#,
    );
    assert_eq!(
        result["tools"],
        value(
            r#"[{"type": "function", "name": "f", "description": null, "parameters": {
                "properties": {"u": {"type": "string"}, "d": {"format": "date"}},
                "items": {}
            }}]"#
        )
    );
    assert_eq!(to_responses(r#"{"tools": [{"type": "BatchTool"}]}"#), value("{}"));
}

#[test]
fn response_formats_are_mapped() {
    assert_eq!(
        to_responses(r#"{"response_format": {"type": "text"}}"#)["text"],
        value(r#"{"format": {"type": "text"}}"#)
    );
    assert_eq!(
        to_responses(r#"{"response_format": {"type": "json_schema"}}"#)["text"],
        value(r#"{"format": {"type": "json_object", "schema": {}}}"#)
    );
    assert_eq!(to_responses(r#"{"response_format": "text"}"#), value("{}"));
}

#[test]
fn tool_choices_are_mapped() {
    assert_eq!(map_tool_choice_to_responses(&json("\"auto\"")).to_value(), value("\"auto\""));
    assert_eq!(map_tool_choice_to_responses(&json("\"other\"")).to_value(), value("\"other\""));
    assert_eq!(
        map_tool_choice_to_responses(&json(r#"{"function": {}}"#)).to_value(),
        value(r#"{"type": "function", "name": ""}"#)
    );
    assert_eq!(
        map_tool_choice_to_responses(&json(r#"{"function": "f"}"#)).to_value(),
        value(r#"{"function": "f"}"#)
    );
}

#[test]
fn blocks_become_items() {
    let items = convert_chat_messages_to_input(&list(
        r#"[
            {"role": "user", "content": [
                {"type": "text", "text": "look"},
                {"type": "image", "source": {"media_type": "image/gif", "data": "QUJD"}},
                {"type": "image", "source": {}},
                {"type": "input_image", "image_url": "http://x"},
                {"type": "video"}
            ]},
            {"role": "assistant", "content": null},
            {"role": "assistant", "content": {"a": 1}}
        ]"#,
    ));
    assert_eq!(
        values(&items),
        value(
            r#"[{"role": "user", "content": [
                {"type": "input_text", "text": "look"},
                {"type": "input_image", "image_url": "data:image/gif;base64,QUJD"},
                {"type": "input_image", "image_url": "data:image/png;base64,"},
                {"type": "input_image", "image_url": "http://x"}
            ]}]"#
        )
    );
}

#[test]
fn result_stands_right_behind_its_call() {
    let items = convert_chat_messages_to_input(&list(
        r#"[
            {"role": "assistant", "content": [
                {"type": "text", "text": "calling"},
                {"type": "tool_use", "id": "a", "name": "f", "input": {"x": 1}},
                {"type": "tool_use", "id": "b", "name": "g"}
            ]},
            {"role": "user", "content": [
                {"type": "tool_result", "tool_use_id": "b", "content": "B"},
                {"type": "tool_result", "tool_call_id": "a", "content": [{"k": 1}]}
            ]}
        ]"#,
    ));
    let calls = value(
        r#"[
            {"role": "assistant", "content": [{"type": "output_text", "text": "calling"}]},
            {"type": "function_call", "call_id": "a", "name": "f", "arguments": {"x": 1}},
            {"type": "function_call_output", "call_id": "a", "output": [{"k": 1}]},
            {"type": "function_call", "call_id": "b", "name": "g", "arguments": {}},
            {"type": "function_call_output", "call_id": "b",
             "output": [{"type": "output_text", "text": "B"}]}
        ]"#,
    );
    assert_eq!(values(&items), calls);
}

#[test]
fn result_is_listed_once() {
    let items = convert_chat_messages_to_input(&list(
        r#"[
            {"role": "assistant", "content": [{"type": "tool_use", "id": "c1", "name": "f", "input": {}}]},
            {"role": "user", "content": [{"type": "tool_result", "tool_use_id": "c1", "content": "ok"}]}
        ]"#,
    ));
    assert_eq!(
        values(&items),
        value(
            r#"[
                {"type": "function_call", "call_id": "c1", "name": "f", "arguments": {}},
                {"type": "function_call_output", "call_id": "c1",
                 "output": [{"type": "output_text", "text": "ok"}]}
            ]"#
        )
    );
}

#[test]
fn result_without_its_call_is_listed() {
    let items = convert_chat_messages_to_input(&list(
        r#"[{"role": "user", "content": [{"type": "tool_result", "tool_use_id": "c9", "content": "ok"}]}]"#,
    ));
    assert_eq!(
        values(&items),
        value(
            r#"[{"type": "function_call_output", "call_id": "c9",
                 "output": [{"type": "output_text", "text": "ok"}]}]"#
        )
    );
}

#[test]
fn each_result_of_a_call_is_listed() {
    let items = convert_chat_messages_to_input(&list(
        r#"[
            {"content": [{"type": "tool_use", "id": "a", "name": "f"}]},
            {"content": [{"type": "tool_result", "tool_use_id": "a", "content": "1"},
                         {"type": "tool_result", "tool_use_id": "a", "content": "2"}]},
            {"content": [{"type": "tool_use", "id": "a", "name": "g"}]}
        ]"#,
    ));
    let texts: Vec<Value> = items.iter().map(|i| i.to_value()["output"][0]["text"].clone()).collect();
    assert_eq!(Value::Array(texts), value(r#"[null, "2", "1", null]"#));
}

#[test]
fn functions_and_tool_messages_become_items() {
    let items = convert_chat_messages_to_input(&list(
        r#"[
            {"role": "assistant", "content": null, "function_call": {"name": "f", "arguments": "{}"}},
            {"role": "tool", "tool_call_id": "c1", "content": "ok"},
            {"role": "assistant", "content": "next", "function_call": {"name": "g"}},
            {"role": "assistant", "content": "last", "function_call": null},
            {"role": "tool", "tool_call_id": "c2", "content": [{"type": "text", "text": "t"}]},
            {"role": "tool", "content": "nameless"}
        ]"#,
    ));
    assert_eq!(
        values(&items),
        value(
            r#"[
                {"type": "function_call", "call_id": "", "name": "f", "arguments": "{}"},
                {"type": "function_call_output", "call_id": "c1",
                 "output": [{"type": "output_text", "text": "ok"}]},
                {"role": "assistant", "content": [{"type": "output_text", "text": "next"}]},
                {"type": "function_call", "call_id": "", "name": "g", "arguments": {}},
                {"role": "assistant", "content": [{"type": "output_text", "text": "last"}]},
                {"type": "function_call_output", "call_id": "c2",
                 "output": [{"type": "text", "text": "t"}]},
                {"role": "tool", "content": [{"type": "input_text", "text": "nameless"}]}
            ]"#
        )
    );
}

#[test]
fn tool_message_stands_right_behind_its_call() {
    let items = convert_chat_messages_to_input(&list(
        r#"[
            {"role": "assistant", "content": [
                {"type": "tool_use", "id": "a", "name": "f"},
                {"type": "tool_use", "id": "b", "name": "g"}
            ]},
            {"role": "tool", "tool_call_id": "b", "content": "B"},
            {"role": "tool", "tool_call_id": "a", "content": "A"}
        ]"#,
    ));
    let ids: Vec<Value> = items.iter().map(|i| i.to_value()["call_id"].clone()).collect();
    assert_eq!(Value::Array(ids), value(r#"["a", "a", "b", "b"]"#));
    assert_eq!(items[1].to_value()["output"][0]["text"], "A");
}

#[test]
fn result_that_waits_is_left_out_where_it_stands() {
    let items = convert_chat_messages_to_input(&list(
        r#"[
            {"content": [{"type": "tool_result", "tool_use_id": "a"}]},
            {"content": [{"type": "tool_result", "tool_use_id": ""}]},
            {"content": [{"type": "tool_use", "id": "a", "name": "f"}]}
        ]"#,
    ));
    assert_eq!(
        values(&items),
        value(
            r#"[
                {"type": "function_call_output", "call_id": "",
                 "output": [{"type": "output_text", "text": ""}]},
                {"type": "function_call", "call_id": "a", "name": "f", "arguments": {}},
                {"type": "function_call_output", "call_id": "a",
                 "output": [{"type": "output_text", "text": ""}]}
            ]"#
        )
    );
}

#[test]
fn whole_responses_request_is_converted() {
    let result = to_chat(
        r#"{
            "model": "codex-MiniMax-M2.7",
            "instructions": "Be brief.",
            "input": [
                {"type": "message", "role": "developer",
                 "content": [{"type": "input_text", "text": "one"}, {"type": "output_text", "text": "two"}]},
                {"type": "message", "content": [{"type": "input_text", "text": "  "}]},
                {"type": "reasoning"},
                {"type": "function_call", "name": "f", "call_id": "c1", "arguments": "{\"a\":1}"},
                {"type": "function_call_output", "call_id": "c1", "output": "done"}
            ],
            "max_output_tokens": 9,
            "reasoning": {"effort": "low"},
            "stream": true,
            "tools": [
                {"type": "function", "name": "f", "description": "d", "arguments": {"type": "object"}},
                {"type": "namespace", "name": "n"},
                {"name": "g", "arguments": "{\"type\":\"object\"}"},
                {"name": "h", "arguments": "no json"}
            ]
        }"#,
    );
    assert_eq!(
        result,
        value(
            r#"{
                "model": "codex-MiniMax-M2.7",
                "stream": true,
                "max_tokens": 9,
                "reasoning": {"effort": "low"},
                "messages": [
                    {"role": "system", "content": "Be brief."},
                    {"role": "user", "content": "one\ntwo"},
                    {"role": "assistant", "content": "", "tool_calls": [
                        {"id": "c1", "type": "function",
                         "function": {"name": "f", "arguments": "{\"a\":1}"}}
                    ]},
                    {"role": "tool", "tool_call_id": "c1", "content": "done"}
                ],
                "tools": [
                    {"type": "function", "function":
                        {"name": "f", "description": "d", "parameters": {"type": "object"}}},
                    {"type": "function", "function":
                        {"name": "g", "description": null, "parameters": {"type": "object"}}},
                    {"type": "function", "function":
                        {"name": "h", "description": null, "parameters": {}}}
                ]
            }"#
        )
    );
}

#[test]
fn item_with_a_role_is_a_message() {
    assert_eq!(
        to_chat(
            r#"{
                "model": "codex-MiniMax-M2.7",
                "input": [{"role": "user", "content": [{"type": "input_text", "text": "..."}]}],
                "stream": true
            }"#
        ),
        value(
            r#"{
                "model": "codex-MiniMax-M2.7",
                "messages": [{"role": "user", "content": "..."}],
                "stream": true
            }"#
        )
    );
    assert_eq!(to_chat(r#"{"input": [{"content": [{"type": "input_text", "text": "x"}]}]}"#), value("{}"));
    assert_eq!(
        to_chat(r#"{"input": [{"type": 1, "role": "user", "content": [{"type": "input_text", "text": "x"}]}]}"#),
        value("{}")
    );
}

#[test]
fn chat_comes_back_from_a_responses_request() {
    let chat = r#"{
        "model": "m",
        "messages": [
            {"role": "system", "content": "Be brief."},
            {"role": "user", "content": "Hi"},
            {"role": "assistant", "content": "Hello"},
            {"role": "user", "content": "Bye"}
        ]
    }"#;
    let there = chat_completions_to_responses(json(chat)).unwrap();
    let back = responses_to_chat_completions_request(there).unwrap().to_value();
    assert_eq!(back, value(chat));
}

#[test]
fn plain_chats_are_never_refused() {
    let there = chat_completions_to_responses(json(
        r#"{"messages": [{"role": "tool", "tool_call_id": " ", "content": "x"}]}"#,
    ))
    .unwrap();
    assert_eq!(
        there.to_value(),
        value(
            r#"{"instructions": "", "input": [
                {"role": "tool", "content": [{"type": "input_text", "text": "x"}]}
            ]}"#
        )
    );
    assert_eq!(
        responses_to_chat_completions_request(there).unwrap().to_value(),
        value(r#"{"messages": [{"role": "tool", "content": "x"}]}"#)
    );
    let chats = [
        r#"{"messages": [{"role": "tool", "tool_call_id": "", "content": "x"}]}"#,
        r#"{"messages": [{"role": "tool", "tool_call_id": 1, "content": "x"}]}"#,
        r#"{"messages": [{"role": "tool", "tool_call_id": "c", "content": ""}],
            "functions": [{"type": "custom", "name": "f"}]}"#,
        r#"{"messages": [{"content": "x", "function_call": {}},
                         {"content": "y", "function_call": {"name": "f"}}]}"#,
        r#"{"messages": []}"#,
    ];
    for chat in chats {
        let there = chat_completions_to_responses(json(chat)).unwrap();
        assert!(responses_to_chat_completions_request(there).is_ok());
    }
}

#[test]
fn settings_come_back_from_a_responses_request() {
    let chat = r#"{
        "model": "m", "stream": false, "temperature": 0.5, "top_p": 1, "max_tokens": 3,
        "messages": [
            {"role": "user", "content": "Hi"},
            {"role": "system", "content": "One."},
            {"role": "system", "content": "Two."}
        ]
    }"#;
    let there = chat_completions_to_responses(json(chat)).unwrap();
    assert_eq!(
        responses_to_chat_completions_request(there).unwrap().to_value(),
        value(
            r#"{
                "model": "m", "stream": false, "temperature": 0.5, "top_p": 1, "max_tokens": 3,
                "messages": [
                    {"role": "system", "content": "One.\n\nTwo."},
                    {"role": "user", "content": "Hi"}
                ]
            }"#
        )
    );
}

#[test]
fn outputs_with_blank_identifiers_are_left_out() {
    assert_eq!(
        to_chat(
            r#"{"input": [
                {"type": "function_call", "name": "f", "call_id": "1"},
                {"type": "function_call_output", "call_id": " ", "output": "x"},
                {"type": "tool_result", "call_id": " ", "output": "y"},
                {"type": "function_call_output", "call_id": "", "output": "z"}
            ]}"#
        )["messages"][1],
        value(r#"{"role": "tool", "tool_call_id": "1", "content": "z"}"#)
    );
    assert_eq!(
        to_chat(r#"{"input": [{"type": "function_call_output", "call_id": " ", "output": "x"}]}"#),
        value("{}")
    );
    assert_eq!(
        to_chat_error(r#"{"input": [{"type": "tool_result", "call_id": " ", "output": "x"}]}"#),
        "No pending tool call id to resolve"
    );
}

#[test]
fn reasoning_affects_nothing() {
    let with = r#"[
        {"type": "reasoning", "summary": []},
        {"type": "function_call", "name": "f", "call_id": "1"},
        {"type": "reasoning"},
        {"type": "function_call_output", "call_id": "1", "output": "a"},
        {"type": "reasoning", "call_id": "1", "output": "no"},
        {"type": "function_call_output", "call_id": "1", "output": "b"},
        {"type": "custom_tool_call", "name": "g", "call_id": "2"}
    ]"#;
    let without: Vec<Json> =
        list(with).into_iter().filter(|item| item.str_at("type") != Some("reasoning")).collect();
    assert_eq!(
        values(&convert_input_with_ids(&list(with), &Vec::new()).unwrap()),
        values(&convert_input_with_ids(&without, &Vec::new()).unwrap())
    );
    let refused = list(r#"[{"type": "reasoning"}, {"type": "tool_result"}]"#);
    assert!(convert_responses_input_to_chat_messages(&refused).is_err());
}

#[test]
fn output_whose_call_is_missing_is_a_tool_message() {
    assert_eq!(
        to_chat(r#"{"input": [{"type": "function_call_output", "call_id": "c9", "output": "ok"}]}"#),
        value(r#"{"messages": [{"role": "tool", "tool_call_id": "c9", "content": "ok"}]}"#)
    );
    assert_eq!(
        to_chat(r#"{"input": [{"type": "tool_result", "call_id": "c9", "result": "ok"}]}"#),
        value(r#"{"messages": [{"role": "tool", "tool_call_id": "c9", "content": "ok"}]}"#)
    );
}

#[test]
fn only_the_output_that_a_call_took_is_left_out() {
    let result = to_chat(
        r#"{"input": [
            {"type": "function_call", "name": "f", "call_id": "1"},
            {"type": "function_call_output", "call_id": "1", "output": "first"},
            {"type": "function_call_output", "call_id": "1", "output": "last"},
            {"type": "tool_result", "call_id": "1", "output": "again"}
        ]}"#,
    );
    let texts: Vec<Value> =
        result["messages"].as_array().unwrap().iter().map(|m| m["content"].clone()).collect();
    assert_eq!(Value::Array(texts), value(r#"["", "last", "first"]"#));
}

#[test]
fn custom_calls_have_outputs() {
    let given = r#"[{"type": "custom_tool_call", "call_id": "c1", "name": "f", "input": "x"}]"#;
    let messages = values(&convert_input_with_ids(&list(given), &Vec::new()).unwrap());
    assert_eq!(
        messages,
        value(
            r#"[
                {"role": "assistant", "content": "", "tool_calls": [
                    {"id": "c1", "type": "function", "function": {"name": "f", "arguments": "x"}}
                ]},
                {"role": "tool", "tool_call_id": "c1", "content": ""}
            ]"#
        )
    );
    let result = to_chat(
        r#"{"input": [
            {"type": "custom_tool_call", "call_id": "a", "name": "f"},
            {"type": "custom_tool_call", "call_id": "b", "name": "g"},
            {"type": "custom_tool_call", "call_id": "c", "name": "h"},
            {"type": "message", "role": "user", "content": [{"type": "input_text", "text": "go"}]},
            {"type": "tool_result", "call_id": "b", "output": "B"}
        ]}"#,
    );
    let ids: Vec<Value> =
        result["messages"].as_array().unwrap().iter().map(|m| m["tool_call_id"].clone()).collect();
    assert_eq!(Value::Array(ids), value(r#"[null, "a", null, null, "c", null, "b"]"#));
}

#[test]
fn arguments_are_encoded_once() {
    let item = json(
        r#"{"type": "function_call", "name": "shell", "arguments": "{\"command\": \"[\\\"ls\\\"]\", \"n\": -1}"}"#,
    );
    let text = build_call_arguments(&item).to_value();
    assert_eq!(value(text.as_str().unwrap()), value(r#"{"command": ["ls"], "n": -1}"#));
    let item = json(r#"{"type": "custom_tool_call", "name": "t", "arguments": {"a": "[1]"}}"#);
    assert_eq!(build_call_arguments(&item).to_value(), value(r#"{"a": [1]}"#));
}

#[test]
fn instructions_alone_make_a_message() {
    assert_eq!(
        to_chat(r#"{"instructions": "x", "max_tokens": 1, "max_output_tokens": 2}"#),
        value(r#"{"max_tokens": 1, "messages": [{"role": "system", "content": "x"}]}"#)
    );
    assert_eq!(to_chat(r#"{"instructions": "", "input": []}"#), value("{}"));
}

#[test]
fn request_with_unsupported_tools_only_is_refused() {
    assert_eq!(
        to_chat_error(r#"{"tools": [{"type": "namespace"}, {"type": "custom"}]}"#),
        "No supported tools: MiniMax only accepts 'function' type, but got 2 tool(s) of other types"
    );
    assert_eq!(to_chat(r#"{"tools": []}"#), value("{}"));
}

#[test]
fn output_without_a_call_is_refused() {
    assert_eq!(
        to_chat_error(r#"{"input": [{"type": "function_call_output", "output": "x"}]}"#),
        "No pending tool call id to resolve"
    );
}

#[test]
fn missing_call_ids_are_drawn() {
    let result = to_chat(
        r#"{"input": [
            {"type": "custom_tool_call", "name": "t", "input": {"command": "[\"ls\", \"-l\"]"}},
            {"type": "function_call", "name": "f", "call_id": " "},
            {"type": "tool_result", "result": ["a", {"text": "b"}]},
            {"type": "custom_tool_call_output", "call_id": "given", "output": 5}
        ]}"#,
    );
    let messages = result["messages"].as_array().unwrap();
    assert_eq!(messages.len(), 4);
    let first = messages[0]["tool_calls"][0]["id"].as_str().unwrap();
    let second = messages[1]["tool_calls"][0]["id"].as_str().unwrap();
    assert!(first.starts_with("call_") && first.len() == 41);
    assert!(second.starts_with("call_") && second.len() == 41);
    assert_ne!(first, second);
    assert_eq!(
        messages[0]["tool_calls"][0]["function"]["arguments"],
        value(r#"{"command": ["ls", "-l"]}"#)
    );
    assert_eq!(messages[1]["tool_calls"][0]["function"]["arguments"], "null");
    assert_eq!(messages[2]["tool_call_id"], first);
    assert_eq!(messages[2]["content"], "\"a\"\nb");
    assert_eq!(messages[3]["tool_call_id"], "given");
    assert_eq!(messages[3]["content"], "5");
}

#[test]
fn given_ids_are_used_in_turn() {
    let input = list(
        r#"[
            {"type": "function_call", "name": "f"},
            {"type": "function_call", "name": ""},
            {"type": "function_call", "name": "g", "call_id": "own"},
            {"type": "custom_tool_call", "name": "h"}
        ]"#,
    );
    assert_eq!(draw_ids(&input).len(), 2);
    let fresh = vec!["x".to_string(), "y".to_string()];
    let messages = values(&convert_input_with_ids(&input, &fresh).unwrap());
    assert_eq!(messages[0]["tool_calls"][0]["id"], "x");
    assert_eq!(messages[1]["tool_calls"][0]["id"], "own");
    assert_eq!(messages[2]["tool_calls"][0]["id"], "y");
    assert_eq!(messages[3]["tool_call_id"], "y");
    assert_eq!(messages.as_array().unwrap().len(), 4);

    let body = json(r#"{"input": [{"type": "function_call", "name": "f"}]}"#);
    let request = request_with_ids(&body, &fresh).unwrap().to_value();
    assert_eq!(request["messages"][0]["tool_calls"][0]["id"], "x");
}

#[test]
fn pending_calls_are_resolved_in_order() {
    let mut pending: VecDeque<String> = VecDeque::new();
    pending.push_back("a".to_string());
    pending.push_back("b".to_string());
    let nameless = json("{}");
    let named = json(r#"{"call_id": "n"}"#);
    assert_eq!(resolve_tool_output_call_id(&nameless, &mut pending).unwrap(), "a");
    assert_eq!(resolve_tool_output_call_id(&named, &mut pending).unwrap(), "n");
    assert_eq!(pending.len(), 1);
    assert_eq!(resolve_tool_output_call_id(&nameless, &mut pending).unwrap(), "b");
    assert!(resolve_tool_output_call_id(&nameless, &mut pending).is_err());
    assert!(convert_responses_input_to_chat_messages(&Vec::new()).unwrap().is_empty());
}

#[test]
fn outputs_in_parallel_stand_behind_their_calls() {
    let result = to_chat(
        r#"{"input": [
            {"type": "function_call", "name": "f", "call_id": "1"},
            {"type": "function_call", "name": "g", "call_id": "2"},
            {"type": "function_call_output", "call_id": "2", "output": "two"},
            {"type": "function_call_output", "call_id": "1", "output": [{"text": "one"}, {"text": "more"}]}
        ]}"#,
    );
    let messages = result["messages"].as_array().unwrap();
    assert_eq!(messages.len(), 4);
    assert_eq!(messages[1]["tool_call_id"], "1");
    assert_eq!(messages[1]["content"], "one\nmore");
    assert_eq!(messages[3]["tool_call_id"], "2");
    assert_eq!(messages[3]["content"], "two");
}
