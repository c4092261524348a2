use responses_bridge::chat_response::{
    build_chat_completions_usage, chat_response_at, convert_responses_output_to_choices,
    responses_to_chat_completions, usage_adds_up,
};
use responses_bridge::json::Json;
use responses_bridge::responses_response::chat_completions_to_responses_response;
use serde_json::Value;

fn json(text: &str) -> Json {
    Json::from_value(&value(text))
}

fn value(text: &str) -> Value {
    serde_json::from_str(text).unwrap()
}

#[test]
fn test_responses_to_chat_completions_simple() {
    let input = json(
        r#"{
            "id": "resp_123",
            "model": "gpt-4o",
            "output": [
                {
                    "type": "message",
                    "role": "assistant",
                    "content": [
                        {"type": "output_text", "text": "Hello!"}
                    ]
                }
            ],
            "usage": {
                "input_tokens": 10,
                "output_tokens": 5
            }
        }"#,
    );

    let result = responses_to_chat_completions(input).unwrap().to_value();
    assert_eq!(result["id"], "resp_123");
    assert_eq!(result["model"], "gpt-4o");
    let choices = result["choices"].as_array().unwrap();
    assert_eq!(choices.len(), 1);
    assert_eq!(choices[0]["message"]["content"], "Hello!");
}

#[test]
fn test_responses_to_chat_completions_with_tool_calls() {
    let input = json(
        r#"{
            "id": "resp_123",
            "model": "gpt-4o",
            "output": [
                {
                    "type": "function_call",
                    "call_id": "call_abc",
                    "name": "get_weather",
                    "arguments": {"location": "Beijing"}
                }
            ],
            "usage": {
                "input_tokens": 10,
                "output_tokens": 5
            }
        }"#,
    );

    let result = responses_to_chat_completions(input).unwrap().to_value();
    let choices = result["choices"].as_array().unwrap();
    assert_eq!(choices[0]["finish_reason"], "tool_calls");
    let tool_calls = choices[0]["message"]["tool_calls"].as_array().unwrap();
    assert_eq!(tool_calls.len(), 1);
    assert_eq!(tool_calls[0]["id"], "call_abc");
    assert_eq!(tool_calls[0]["function"]["name"], "get_weather");
}

#[test]
fn test_chat_completions_to_responses_response_simple() {
    let input = json(
        r#"{
            "id": "chatcmpl_123",
            "model": "gpt-4o",
            "choices": [
                {
                    "message": {
                        "role": "assistant",
                        "content": "Hello!"
                    },
                    "finish_reason": "stop"
                }
            ],
            "usage": {
                "prompt_tokens": 10,
                "completion_tokens": 5
            }
        }"#,
    );

    let result = chat_completions_to_responses_response(input).unwrap().to_value();
    assert_eq!(result["id"], "chatcmpl_123");
    let output = result["output"].as_array().unwrap();
    assert_eq!(output.len(), 1);
    assert_eq!(output[0]["text"], "Hello!");
}

#[test]
fn whole_responses_response_is_converted() {
    let body = json(
        r#"{
            "system_fingerprint": "fp",
            "output": [
                {"type": "reasoning"},
                {"type": "message", "status": "incomplete", "content": [{"text": "a"}, {}, {"text": "b"}]},
                {"type": "message", "content": []}
            ],
            "usage": {"input_tokens": 3, "output_tokens": 4, "input_tokens_details": {"cached_tokens": 2}}
        }"#,
    );
    assert_eq!(
        chat_response_at(&body, 77).to_value(),
        value(
            r#"{
                "id": "chatcmpl-default",
                "created": 77,
                "system_fingerprint": "fp",
                "object": "chat.completion",
                "choices": [{
                    "index": 0,
                    "finish_reason": "incomplete",
                    "message": {"role": "assistant", "content": "ab"}
                }],
                "usage": {
                    "prompt_tokens": 3, "completion_tokens": 4, "total_tokens": 7,
                    "prompt_tokens_details": {"cached_tokens": 2}
                }
            }"#
        )
    );
}

#[test]
fn time_of_creation_is_kept_or_now() {
    let known = responses_to_chat_completions(json(r#"{"created": 5}"#)).unwrap().to_value();
    assert_eq!(known["created"], 5);
    let unknown = responses_to_chat_completions(json("{}")).unwrap().to_value();
    assert!(unknown["created"].as_u64().unwrap() > 1_600_000_000);
}

#[test]
fn empty_output_gives_one_choice() {
    let choices = convert_responses_output_to_choices(None);
    assert_eq!(choices.len(), 1);
    assert_eq!(
        choices[0].to_value(),
        value(
            r#"{"message": {"role": "assistant", "content": ""}, "finish_reason": "stop", "index": 0}"#
        )
    );
}

#[test]
fn usage_is_mapped() {
    let none = value(r#"{"prompt_tokens": 0, "completion_tokens": 0, "total_tokens": 0}"#);
    assert_eq!(build_chat_completions_usage(None).to_value(), none);
    assert_eq!(build_chat_completions_usage(Some(&Json::Null)).to_value(), none);
    assert_eq!(build_chat_completions_usage(Some(&json(r#"{"input_tokens": -1}"#))).to_value(), none);
    assert!(usage_adds_up(None));
    let most = json(r#"{"input_tokens": 18446744073709551615}"#);
    assert!(usage_adds_up(Some(&most)));
    assert_eq!(
        build_chat_completions_usage(Some(&most)).to_value()["total_tokens"],
        value("18446744073709551615")
    );
    let more = json(r#"{"input_tokens": 18446744073709551615, "output_tokens": 1}"#);
    assert!(!usage_adds_up(Some(&more)));
}

#[test]
fn whole_chat_response_is_converted() {
    let body = json(
        r#"{
            "created": 8,
            "choices": [
                {"message": {"content": null, "tool_calls": [
                    {"id": "c", "function": {"name": "f", "arguments": "{\"a\":1}"}},
                    {}
                ]}},
                {"message": {"content": ""}},
                {"finish_reason": "stop"}
            ],
            "usage": {"prompt_tokens": 1, "prompt_tokens_details": {"cached_tokens": 6}}
        }"#,
    );
    assert_eq!(
        chat_completions_to_responses_response(body).unwrap().to_value(),
        value(
            r#"{
                "id": "resp-default",
                "created": 8,
                "output": [
                    {"type": "function_call", "call_id": "c", "name": "f", "arguments": "{\"a\":1}"},
                    {"type": "function_call", "call_id": "", "name": "", "arguments": "{}"},
                    {"type": "output_text", "text": ""}
                ],
                "usage": {"input_tokens": 1, "output_tokens": 0, "input_tokens_details": {"cached_tokens": 6}},
                "status": "completed"
            }"#
        )
    );
}

#[test]
fn chat_response_comes_back() {
    let body = json(
        r#"{
            "id": "x", "model": "m", "created": 3,
            "choices": [{"message": {"content": "text", "tool_calls": [
                {"id": "c", "function": {"name": "f", "arguments": {"a": 1}}}
            ]}}],
            "usage": {"prompt_tokens": 10, "completion_tokens": 20}
        }"#,
    );
    let there = chat_completions_to_responses_response(body).unwrap();
    let back = responses_to_chat_completions(there).unwrap().to_value();
    assert_eq!(back["id"], "x");
    assert_eq!(back["model"], "m");
    assert_eq!(back["created"], 3);
    assert_eq!(back["choices"][0]["message"]["content"], "text");
    assert_eq!(back["choices"][0]["message"]["tool_calls"][0]["id"], "c");
    assert_eq!(back["choices"][0]["message"]["tool_calls"][0]["function"]["name"], "f");
    assert_eq!(back["usage"]["prompt_tokens"], 10);
    assert_eq!(back["usage"]["completion_tokens"], 20);
    assert_eq!(back["usage"]["total_tokens"], 30);
}
