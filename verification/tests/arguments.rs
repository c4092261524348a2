use responses_bridge::arguments::{
    normalize_read_arguments, normalize_tool_arguments, normalize_tool_arguments_inner,
    parse_json_array_elements,
};
use responses_bridge::content::{
    flatten_content_items, function_arguments_to_text, function_output_to_text,
};
use responses_bridge::json::{Json, JsonNumber};
use responses_bridge::schema::clean_schema;
use serde_json::Value;

fn json(text: &str) -> Json {
    Json::from_value(&value(text))
}

fn value(text: &str) -> Value {
    serde_json::from_str(text).unwrap()
}

fn elements(text: &str) -> Value {
    Value::Array(parse_json_array_elements(text).iter().map(|v| v.to_value()).collect())
}

fn normal(name: &str, text: &str) -> Value {
    normalize_tool_arguments(name, &json(text)).to_value()
}

#[test]
fn elements_are_cut_at_top_level_commas() {
    assert_eq!(elements("1, [2, 3], x"), value(r#"[1, [2, 3], "x"]"#));
    assert_eq!(elements(r#""a,b", {"k": ",}"}, , "q\"," "#), value(r#"["a,b", {"k": ",}"}, "q\","]"#));
    assert_eq!(elements(" ,, "), value("[]"));
    assert_eq!(elements("]a, b"), value(r#"["]a, b"]"#));
}

#[test]
fn commands_become_arrays() {
    assert_eq!(
        normal("shell", r#"{"command": "[\"echo\", \"hello\"]"}"#),
        value(r#"{"command": ["echo", "hello"]}"#)
    );
    assert_eq!(
        normal("shell", r#"{"command": " [\"echo\", \"hello\", -3] ", "cwd": "/tmp"}"#),
        value(r#"{"command": ["echo", "hello", -3], "cwd": "/tmp"}"#)
    );
    assert_eq!(normal("shell", r#"{"command": "ls"}"#), value(r#"{"command": "ls"}"#));
    assert_eq!(normal("shell", r#"{"command": "[]"}"#), value(r#"{"command": "[]"}"#));
    assert_eq!(
        normal("shell", r#"{"command": ["a", "[1]"]}"#),
        value(r#"{"command": ["a", "[1]"]}"#)
    );
    assert_eq!(
        normal("shell", r#"{"deep": [{"command": "[\"a\",\"b\"]"}]}"#),
        value(r#"{"deep": [{"command": ["a", "b"]}]}"#)
    );
}

#[test]
fn messages_and_items_are_read() {
    assert_eq!(
        normal("t", r#"{"message": "{\"a\":1}", "items": "nothing", "other": "{\"a\":1}"}"#),
        value(r#"{"message": {"a": 1}, "items": "nothing", "other": "{\"a\":1}"}"#)
    );
    assert_eq!(
        normal("f", r#""{\"message\":\"{\\\"a\\\":1}\"}""#),
        value(r#"{"message": {"a": 1}}"#)
    );
}

#[test]
fn text_form_makes_no_difference() {
    let given = [
        r#"{"command": "[\"a\"]", "message": "[1]", "items": "{}", "x": {"command": "[2]"}}"#,
        r#"{"agent_id": "q", "n": -7}"#,
        "{}",
    ];
    for arguments in given {
        let text = Json::text(arguments);
        assert_eq!(
            normalize_tool_arguments("wait_agent", &text).to_value(),
            normal("wait_agent", arguments)
        );
    }
}

#[test]
fn array_texts_become_arrays() {
    assert_eq!(normal("t", r#"{"list": "[1, two]"}"#), value(r#"{"list": [1, "two"]}"#));
    assert_eq!(normal("t", r#"{"list": "[ ]", "n": null}"#), value(r#"{"list": "[ ]", "n": null}"#));
    assert_eq!(normalize_tool_arguments_inner(&json("\"[1]\"")).to_value(), value("[1]"));
}

#[test]
fn arguments_in_text_form_are_read() {
    assert_eq!(
        normal("shell", r#""{\"command\": \"[\\\"echo\\\", \\\"hello\\\"]\"}""#),
        value(r#"{"command": ["echo", "hello"]}"#)
    );
    assert_eq!(normal("t", r#""[\"[1]\"]""#), value("[[1]]"));
    assert_eq!(normal("t", r#""plain""#), value(r#""plain""#));
    assert_eq!(normal("t", "7"), value("7"));
    assert_eq!(normal("t", r#"["[1]"]"#), value(r#"["[1]"]"#));
}

#[test]
fn agents_are_listed() {
    assert_eq!(
        normal("wait_agent", r#"{"agent_id": "a"}"#),
        value(r#"{"agent_id": "a", "agent_ids": ["a"]}"#)
    );
    assert_eq!(normal("other", r#"{"agent_id": "a"}"#), value(r#"{"agent_id": "a"}"#));
    assert_eq!(normal("spawn_agent", r#"{"agent_id": 1}"#), value(r#"{"agent_id": 1}"#));
    assert_eq!(
        normalize_read_arguments("resume_agent", &json(r#"{"agent_id": "b"}"#)).to_value(),
        value(r#"{"agent_id": "b", "agent_ids": ["b"]}"#)
    );
    assert_eq!(normalize_read_arguments("send_input", &json("[1]")).to_value(), value("[1]"));
}

#[test]
fn content_is_flattened() {
    let items = json(
        r#"[
            {"type": "input_text", "text": "a"},
            {"type": "output_text", "text": ""},
            {"type": "summary_text", "text": "b"},
            {"type": "input_text"},
            {"type": "input_image", "image_url": "u"},
            {"type": "input_image"},
            [{"type": "input_text", "text": "nested"}, []],
            {"type": "input_file", "file_id": "f", "file_data": "d"},
            {"type": "input_file", "file_data": "d"},
            {"type": "input_file"},
            {"type": "other", "text": "x"},
            "y"
        ]"#,
    );
    assert_eq!(
        flatten_content_items(items.as_array().unwrap()),
        "a\nb\n[input_image] u\n[input_image]\nnested\n[input_file] file_id=f\n[input_file] file_data=d\n[input_file]"
    );
    assert_eq!(flatten_content_items(&Vec::new()), "");
}

#[test]
fn outputs_become_text() {
    assert_eq!(function_output_to_text(&json("\"s\"")), "s");
    assert_eq!(function_output_to_text(&json(r#"[{"text": "a"}, {"b": 1}, 2]"#)), "a\n{\"b\":1}\n2");
    assert_eq!(function_output_to_text(&json("{\"k\": null}")), "{\"k\":null}");
    assert_eq!(function_arguments_to_text(&json("\"s\"")), "s");
    assert_eq!(function_arguments_to_text(&json("[1, 2]")), "[1,2]");
}

#[test]
fn schemas_are_cleaned() {
    assert_eq!(clean_schema(&json(r#"{"format": "uri"}"#)).to_value(), value("{}"));
    assert_eq!(
        clean_schema(&json(r#"{"properties": [1], "items": "x", "other": {"format": "uri"}}"#)).to_value(),
        value(r#"{"properties": [1], "items": "x", "other": {"format": "uri"}}"#)
    );
    assert_eq!(clean_schema(&json("3")).to_value(), value("3"));
}

#[test]
fn values_cross_over_and_back() {
    let texts = ["null", "true", "-4", "18446744073709551615", "1.5", "\"\\u00e9\"", r#"{"a":[1,{"b":"c"}],"d":{}}"#];
    for text in texts {
        assert_eq!(json(text).to_value(), value(text));
        assert_eq!(json(text).copy().compact(), Some(value(text).to_string()));
        assert_eq!(json(text).display(), value(text).to_string());
    }
    assert!(Json::parse("{").is_none());
    assert_eq!(Json::parse("[1]").unwrap().clone().to_value(), value("[1]"));
}

#[test]
fn last_entry_of_a_key_counts() {
    let twice = Json::Obj(vec![
        ("k".to_string(), Json::number(1)),
        ("k".to_string(), Json::text("x")),
    ]);
    assert_eq!(twice.str_at("k"), Some("x"));
    assert_eq!(twice.to_value(), value(r#"{"k": "x"}"#));
    assert_eq!(twice.set("k", Json::Bool(true)).compact_or("-"), r#"{"k":true}"#);
}

#[test]
fn only_unsigned_integers_are_read() {
    assert_eq!(json("5").as_u64(), Some(5));
    assert_eq!(Json::number(5).as_u64(), Some(5));
    assert_eq!(Json::Num(JsonNumber::Other(serde_json::Number::from(6u64))).as_u64(), Some(6));
    assert_eq!(json("-5").as_u64(), None);
    assert_eq!(json("-5").to_value(), value("-5"));
    assert_eq!(Json::Num(JsonNumber::Negative(-9)).to_value(), value("-9"));
    assert_eq!(json("-9223372036854775808").compact(), Some("-9223372036854775808".to_string()));
    assert_eq!(json("5.0").as_u64(), None);
}
