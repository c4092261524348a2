use responses_bridge::chat_stream::{read_block, ChatStream};
use responses_bridge::json::Json;
use responses_bridge::machine::{fresh_call_id, fresh_short_id, shorten};
use responses_bridge::responses_event::{ResponsesEvent, ToolCallBuffer};
use responses_bridge::responses_stream::ResponsesStream;
use responses_bridge::sse::{frame_event, lines_of, sse_event, strip_sse_field, take_sse_block};
use responses_bridge::thinking::ThinkFilter;

fn json(text: &str) -> Json {
    Json::parse(text).unwrap()
}

fn wire(events: &[ResponsesEvent]) -> Vec<String> {
    events.iter().map(|e| e.to_wire()).collect()
}

fn responses(chunks: &[&[u8]]) -> Vec<String> {
    let (mut stream, first) = ResponsesStream::start_with_id("resp_x".to_string());
    let mut events = wire(&first);
    for chunk in chunks {
        events.extend(wire(&stream.feed(chunk)));
    }
    events.extend(wire(&stream.finish()));
    events
}

fn chat(chunks: &[&[u8]]) -> Vec<String> {
    let mut stream = ChatStream::start();
    let mut out = Vec::new();
    for chunk in chunks {
        out.extend(stream.try_feed(chunk).unwrap());
    }
    out.extend(stream.finish());
    out
}

fn payload(event: &str) -> serde_json::Value {
    let data = event.split("\ndata: ").nth(1).unwrap();
    serde_json::from_str(data).unwrap()
}

fn chunk_value(chunk: &str) -> serde_json::Value {
    serde_json::from_str(chunk.strip_prefix("data: ").unwrap()).unwrap()
}

#[test]
fn test_chat_to_responses_stream() {
    let sse_data: Vec<&str> = vec![
        "data: {\"id\":\"chatcmpl-123\",\"object\":\"chat.completion.chunk\",\"created\":1234567890,\"model\":\"codex-MiniMax-M2.7\",\"choices\":[{\"index\":0,\"delta\":{\"role\":\"assistant\",\"content\":\"Hello\"},\"finish_reason\":null}]}\n\n",
        "data: {\"id\":\"chatcmpl-123\",\"object\":\"chat.completion.chunk\",\"created\":1234567890,\"model\":\"codex-MiniMax-M2.7\",\"choices\":[{\"index\":0,\"delta\":{\"content\":\" World\"},\"finish_reason\":null}]}\n\n",
        "data: {\"id\":\"chatcmpl-123\",\"object\":\"chat.completion.chunk\",\"created\":1234567890,\"model\":\"codex-MiniMax-M2.7\",\"choices\":[{\"index\":0,\"delta\":{},\"finish_reason\":\"stop\"}]}\n\n",
        "data: [DONE]\n\n",
    ];

    let (mut stream, first) = ResponsesStream::start();
    let mut events = wire(&first);
    for data in sse_data {
        events.extend(wire(&stream.feed(data.as_bytes())));
    }
    events.extend(wire(&stream.finish()));

    assert!(events.iter().any(|e| e.contains("response.created")));
    assert!(events.iter().any(|e| e.contains("response.output_text.delta")));
    assert!(events.iter().any(|e| e.contains("Hello")));
    assert!(events.iter().any(|e| e.contains("response.completed")));
}

#[test]
fn test_simple_text_stream() {
    let sse_data: Vec<&str> = vec![
        "event: response.created\ndata: {\"response\":{\"id\":\"resp_123\",\"model\":\"gpt-4o\",\"created\":1234567890}}\n\n",
        "event: response.output_text.delta\ndata: {\"delta\":{\"text\":\"Hello\"}}\n\n",
        "event: response.output_text.delta\ndata: {\"delta\":{\"text\":\" World\"}}\n\n",
        "event: response.completed\ndata: {\"status\":\"completed\"}\n\n",
    ];

    let mut stream = ChatStream::start();
    let mut chunks = Vec::new();
    for data in sse_data {
        chunks.extend(stream.try_feed(data.as_bytes()).unwrap());
    }
    chunks.extend(stream.finish());

    assert!(chunks.iter().any(|c| c.contains("chat.completion.chunk")));
    assert!(chunks.iter().any(|c| c.contains("Hello")));
    assert!(chunks.iter().any(|c| c.contains("[DONE]")));
}

#[test]
fn test_stream_with_tool_call() {
    let sse_data: Vec<&str> = vec![
        "event: response.created\ndata: {\"response\":{\"id\":\"resp_123\",\"model\":\"gpt-4o\"}}\n\n",
        "event: response.output_item.added\ndata: {\"item\":{\"type\":\"function_call\",\"id\":\"item_1\",\"name\":\"get_weather\",\"call_id\":\"call_abc\"}}\n\n",
        "event: response.function_call_arguments.delta\ndata: {\"item_id\":\"item_1\",\"delta\":{\"arguments\":\"{\\\"location\\\": \\\"Beijing\\\"}\"}}\n\n",
        "event: response.completed\ndata: {\"status\":\"completed\"}\n\n",
    ];

    let mut stream = ChatStream::start();
    let mut chunks = Vec::new();
    for data in sse_data {
        chunks.extend(stream.try_feed(data.as_bytes()).unwrap());
    }
    chunks.extend(stream.finish());

    assert!(chunks.iter().any(|c| c.contains("tool_calls")));
    assert!(chunks.iter().any(|c| c.contains("get_weather")));
}

#[test]
fn text_stream_is_turned_event_by_event() {
    let events = responses(&[
        b"data: {\"choices\":[{\"delta\":{\"content\":\"Hel\"}}],\"usage\":null}\n\n",
        b"data: {\"choices\":[{\"delta\":{\"content\":\"lo\"}}],\"usage\":{\"prompt_tokens\":4294967298,\"completion_tokens\":3,\"total_tokens\":5}}\n\n",
        b"data: {\"choices\":[{\"delta\":{},\"finish_reason\":\"stop\"}],\"usage\":{\"prompt_tokens\":9}}\n\n",
    ]);
    assert_eq!(
        events,
        vec![
            "event: response.created\ndata: {\"response\":{\"id\":\"resp_x\"},\"type\":\"response.created\"}\n\n",
            "event: response.in_progress\ndata: {\"response\":{\"id\":\"resp_x\"},\"type\":\"response.in_progress\"}\n\n",
            "event: response.output_item.added\ndata: {\"item\":{\"content\":[{\"text\":\"\",\"type\":\"output_text\"}],\"role\":\"assistant\",\"type\":\"message\"},\"output_index\":0,\"type\":\"response.output_item.added\"}\n\n",
            "event: response.output_text.delta\ndata: {\"delta\":\"Hel\",\"type\":\"response.output_text.delta\"}\n\n",
            "event: response.output_text.delta\ndata: {\"delta\":\"lo\",\"type\":\"response.output_text.delta\"}\n\n",
            "event: response.output_item.done\ndata: {\"item\":{\"content\":[{\"text\":\"Hello\",\"type\":\"output_text\"}],\"role\":\"assistant\",\"type\":\"message\"},\"type\":\"response.output_item.done\"}\n\n",
            "event: response.completed\ndata: {\"response\":{\"id\":\"resp_x\",\"usage\":{\"input_tokens\":2,\"input_tokens_details\":null,\"output_tokens\":3,\"output_tokens_details\":null,\"total_tokens\":5}},\"type\":\"response.completed\"}\n\n",
        ]
    );
}

fn text_of(events: &[String]) -> String {
    events
        .iter()
        .filter(|e| e.starts_with("event: response.output_text.delta\n"))
        .map(|e| payload(e)["delta"].as_str().unwrap().to_string())
        .collect()
}

fn content_chunk(text: &str) -> Vec<u8> {
    let text = serde_json::Value::String(text.to_string());
    format!("data: {{\"choices\":[{{\"delta\":{{\"content\":{text}}}}}]}}\n\n").into_bytes()
}

fn text_sent(parts: &[&str]) -> String {
    let mut chunks: Vec<Vec<u8>> = parts.iter().map(|p| content_chunk(p)).collect();
    chunks.push(b"data: [DONE]\n\n".to_vec());
    let chunks: Vec<&[u8]> = chunks.iter().map(|c| c.as_slice()).collect();
    text_of(&responses(&chunks))
}

#[test]
fn thinking_is_not_sent() {
    let events = responses(&[
        b"data: {\"choices\":[{\"delta\":{\"content\":\"Hello<think>thinking content</think>!\"}}]}\n\n",
        b"data: [DONE]\n\n",
    ]);
    assert_eq!(text_of(&events), "Hello!");
    let item = events.iter().find(|e| e.starts_with("event: response.output_item.done\n")).unwrap();
    assert_eq!(payload(item)["item"]["content"][0]["text"], "Hello!");
    assert!(!events.iter().any(|e| e.contains("think")));
}

#[test]
fn thinking_may_be_cut_anywhere() {
    let whole = "a<b><think>c<thi</think>d</think>e<<think><think>x</think>f<thin";
    let expected = "a<b>d</think>e<f<thin";
    assert_eq!(text_sent(&[whole]), expected);
    for i in 0..whole.len() {
        assert_eq!(text_sent(&[&whole[..i], &whole[i..]]), expected);
    }
    let single: Vec<&str> = (0..whole.len()).map(|i| &whole[i..i + 1]).collect();
    assert_eq!(text_sent(&single), expected);
    assert_eq!(text_sent(&["<think>never closed"]), "");
    assert_eq!(text_sent(&["<think>x</think>"]), "");
    assert_eq!(text_sent(&["<"]), "<");
}

#[test]
fn content_is_filtered_piece_by_piece() {
    let mut filter = ThinkFilter::new();
    assert_eq!(filter.filter("x<th"), "x");
    assert_eq!(filter.settle(), "<th");
    assert_eq!(filter.filter("ink>hidden</th"), "");
    assert_eq!(filter.settle(), "");
    assert_eq!(filter.filter("ink>y"), "y");
    assert_eq!(filter.settle(), "");
}

#[test]
fn broken_stream_fails() {
    let events = responses(&[b"data: {\"choices\":[{\"delta\":{\"content\":\"x\"},\"finish_reason\":\" \"}]}\n\ndata: [DO"]);
    let n = events.len();
    assert_eq!(
        events[n - 2],
        "event: response.failed\ndata: {\"response\":{\"error\":{\"code\":\"upstream_stream_incomplete\",\"message\":\"upstream stream ended before terminal marker\"},\"id\":\"resp_x\"},\"type\":\"response.failed\"}\n\n"
    );
    assert_eq!(events[n - 1], "data: [DONE]\n\n");
    assert!(!events.iter().any(|e| e.contains("response.completed")));
    assert!(!events.iter().any(|e| e.contains(".done")));
}

#[test]
fn done_marker_completes_a_stream() {
    let events = responses(&[b"data:  [DONE] \n\n"]);
    assert_eq!(events.len(), 3);
    assert_eq!(payload(&events[2])["response"]["usage"], serde_json::Value::Null);
    assert_eq!(payload(&events[2])["type"], "response.completed");
}

#[test]
fn reasoning_has_its_own_item() {
    let events = responses(&[
        b"data: {\"choices\":[{\"delta\":{\"reasoning_content\":\"hm\",\"reasoning_details\":[{\"text\":\"so\"},{\"text\":\"\"},{}]}}]}\n\n",
        b"data: {\"choices\":[{\"delta\":{\"content\":\"ok\"}}]}\n\ndata: [DONE]\n\n",
    ]);
    let kinds: Vec<String> = events.iter().map(|e| e[7..e.find('\n').unwrap()].to_string()).collect();
    assert_eq!(
        kinds,
        vec![
            "response.created",
            "response.in_progress",
            "response.output_item.added",
            "response.reasoning_summary_text.delta",
            "response.reasoning_summary_text.delta",
            "response.output_item.added",
            "response.output_text.delta",
            "response.output_item.done",
            "response.reasoning_summary_text.done",
            "response.completed",
        ]
    );
    assert_eq!(payload(&events[2])["item"]["id"], "0_reasoning");
    assert_eq!(payload(&events[3])["delta"], "hm");
    assert_eq!(payload(&events[4])["delta"], "so");
    assert_eq!(payload(&events[8])["item_id"], "0_reasoning");
}

#[test]
fn reasoning_behind_text_has_the_second_place() {
    let events = responses(&[
        b"data: {\"choices\":[{\"delta\":{\"content\":\"a\",\"reasoning_content\":\"b\"}}]}\n\n",
    ]);
    assert_eq!(payload(&events[4])["output_index"], 1);
    assert_eq!(payload(&events[4])["item"]["id"], "1_reasoning");
}

#[test]
fn call_parts_are_put_together_by_index() {
    let events = responses(&[
        b"data: {\"choices\":[{\"delta\":{\"tool_calls\":[{\"index\":1,\"id\":\"b\",\"function\":{\"name\":\"g\"}}]}}]}\n\n",
        b"data: {\"choices\":[{\"delta\":{\"tool_calls\":[{\"id\":\"a\",\"function\":{\"name\":\"f\",\"arguments\":\"{\\\"x\"}}]}}]}\n\n",
        b"data: {\"choices\":[{\"delta\":{\"tool_calls\":[{\"index\":0,\"function\":{\"arguments\":\"\\\":1}\"}}]},\"finish_reason\":\"tool_calls\"}]}\n\n",
    ]);
    assert_eq!(events.len(), 2 + 6 + 1);
    let added = payload(&events[2]);
    assert_eq!(added["output_index"], 0);
    assert_eq!(
        added["item"],
        json("{\"type\":\"function_call\",\"name\":\"f\",\"arguments\":\"{\\\"x\\\":1}\",\"call_id\":\"a\"}").to_value()
    );
    assert_eq!(payload(&events[3])["item_id"], "a");
    assert_eq!(payload(&events[3])["arguments"], "{\"x\":1}");
    assert_eq!(payload(&events[4])["item"], added["item"]);
    assert_eq!(payload(&events[5])["output_index"], 1);
    assert_eq!(payload(&events[5])["item"]["call_id"], "b");
    assert_eq!(payload(&events[5])["item"]["arguments"], "{}");
}

#[test]
fn call_part_of_no_call_is_skipped() {
    let events = responses(&[
        b"data: {\"choices\":[{\"delta\":{\"tool_calls\":[{\"index\":5,\"function\":{\"arguments\":\"{}\"}}]}}]}\n\n",
        b"data: [DONE]\n\n",
    ]);
    let kinds: Vec<serde_json::Value> = events.iter().map(|e| payload(e)["type"].clone()).collect();
    assert_eq!(kinds, vec!["response.created", "response.in_progress", "response.completed"]);
    let events = responses(&[
        b"data: {\"choices\":[{\"delta\":{\"tool_calls\":[{\"index\":1,\"function\":{\"arguments\":\"?\"}},{\"index\":1,\"id\":\"a\"},{\"index\":1,\"function\":{\"arguments\":\"1\"}}]}}]}\n\n",
        b"data: [DONE]\n\n",
    ]);
    assert_eq!(payload(&events[3])["arguments"], "1");
    assert_eq!(events.len(), 6);
}

#[test]
fn calls_stand_behind_text() {
    let events = responses(&[
        b"data: {\"choices\":[{\"delta\":{\"content\":\"t\",\"tool_calls\":[{\"id\":\"a\"}]}}]}\n\ndata: [DONE]\n\n",
    ]);
    let added: Vec<&String> = events.iter().filter(|e| e.contains("function_call\"")).collect();
    assert_eq!(payload(added[0])["output_index"], 1);
}

#[test]
fn chunks_may_be_cut_anywhere() {
    let whole = "data: {\"choices\":[{\"delta\":{\"content\":\"h\u{e9}llo\"}}]}\r\n\r\ndata: x\n\n: c\n\ndata: {\"choices\":[{\"delta\":{\"content\":\"!\"}}]}\n\ndata: [DONE]\n\n".as_bytes();
    let expected = responses(&[whole]);
    assert!(expected.iter().any(|e| e.contains("h\u{e9}llo")));
    for i in 0..whole.len() {
        assert_eq!(responses(&[&whole[..i], &whole[i..]]), expected);
    }
    let single: Vec<&[u8]> = whole.chunks(1).collect();
    assert_eq!(responses(&single), expected);
}

#[test]
fn invalid_bytes_are_replaced() {
    let events = responses(&[b"data: {\"choices\":[{\"delta\":{\"content\":\"a\xff\"}}]}\n\n"]);
    assert_eq!(payload(&events[3])["delta"], "a\u{fffd}");
}

#[test]
fn read_data_and_blocks_can_be_given() {
    let (mut stream, _) = ResponsesStream::start_with_id("r".to_string());
    let events = stream.take_data(&json("{\"choices\":[{\"delta\":{\"content\":\"x\"}},{\"finish_reason\":\"stop\"}]}"));
    assert_eq!(events.len(), 2);
    assert_eq!(stream.take_block("event: e\ndata: 1\ndata: {\"choices\":[{\"delta\":{\"content\":\"y\"}}]}").len(), 1);
    assert_eq!(stream.take_block("nothing").len(), 0);
    assert_eq!(stream.finish().len(), 2);
}

#[test]
fn response_identifier_is_random() {
    let (_, first) = ResponsesStream::start();
    let (_, second) = ResponsesStream::start();
    let id = |events: &[ResponsesEvent]| match &events[0] {
        ResponsesEvent::Created { id } => id.clone(),
        other => panic!("not created: {:?}", other),
    };
    assert!(id(&first).starts_with("resp_"));
    assert_eq!(id(&first).len(), 17);
    assert_ne!(id(&first), id(&second));
    assert!(!id(&first).contains('-'));
    assert_eq!(shorten("01234567-89ab-4def-8123-456789abcdef"), "0123456789ab");
    assert_eq!(fresh_short_id().len(), 12);
    assert_eq!(fresh_call_id().len(), 41);
}

#[test]
fn blocks_are_taken_one_by_one() {
    let mut buffer = b"a\n\nb\r\n\r\nc\r\n\n\xc3\xa9\n".to_vec();
    assert_eq!(take_sse_block(&mut buffer), Some("a".to_string()));
    assert_eq!(take_sse_block(&mut buffer), Some("b".to_string()));
    assert_eq!(take_sse_block(&mut buffer), Some("c\r".to_string()));
    assert_eq!(take_sse_block(&mut buffer), None);
    assert_eq!(buffer, b"\xc3\xa9\n".to_vec());
    buffer.push(10);
    assert_eq!(take_sse_block(&mut buffer), Some("\u{e9}".to_string()));
}

#[test]
fn lines_and_fields_are_read() {
    for text in ["", "a", "a\n", "a\r\nb", "a\r", "\n\n", "a\rb\r\r\n"] {
        let expected: Vec<String> = text.lines().map(|l| l.to_string()).collect();
        assert_eq!(lines_of(text), expected);
    }
    assert_eq!(strip_sse_field("data: x", "data"), Some("x".to_string()));
    assert_eq!(strip_sse_field("data:  x", "data"), Some(" x".to_string()));
    assert_eq!(strip_sse_field("data:x", "data"), Some("x".to_string()));
    assert_eq!(strip_sse_field("data", "data"), None);
    assert_eq!(strip_sse_field("database: x", "data"), None);
    assert_eq!(frame_event("n", "d"), "event: n\ndata: d\n\n");
    assert_eq!(sse_event("n", &json("{\"a\": [1]}")), "event: n\ndata: {\"a\":[1]}\n\n");
    assert_eq!(sse_event("n", &json("{\"a\": -1}")), "event: n\ndata: {\"a\":-1}\n\n");
}

#[test]
fn chat_stream_is_written_chunk_by_chunk() {
    let chunks = chat(&[
        b"event: response.created\ndata: {\"response\":{\"id\":\"r\",\"model\":\"m\",\"created\":7}}\n\n",
        b"event: response.output_text.delta\ndata: {\"delta\":{\"text\":\"a\\\"\\\\\\n\\r\\tb\"}}\n\n",
        b"event: response.done\ndata: {}\n\n",
    ]);
    assert_eq!(
        chunks,
        vec![
            "data: {\"id\":\"chatcmpl-r\",\"object\":\"chat.completion.chunk\",\"created\":7,\"model\":\"m\",\"choices\":[{\"index\":0,\"delta\":{},\"finish_reason\":null}]}\n\n",
            "data: {\"id\":\"chatcmpl-r\",\"object\":\"chat.completion.chunk\",\"created\":7,\"model\":\"m\",\"choices\":[{\"index\":0,\"delta\":{\"content\":\"a\\\"\\\\\\n\\r\\tb\"},\"finish_reason\":null}]}\n\n",
            "data: {\"id\":\"chatcmpl-r\",\"object\":\"chat.completion.chunk\",\"created\":7,\"model\":\"m\",\"choices\":[{\"index\":0,\"delta\":{},\"finish_reason\":\"stop\"}]}\n\n",
            "data: [DONE]\n\n",
        ]
    );
    assert_eq!(chunk_value(&chunks[1])["choices"][0]["delta"]["content"], "a\"\\\n\r\tb");
}

#[test]
fn nameless_response_gets_an_identifier_and_the_time() {
    let chunks = chat(&[b"event: response.created\ndata: {\"output\":{}}\n\n"]);
    let opening = chunk_value(&chunks[0]);
    assert!(opening["id"].as_str().unwrap().starts_with("chatcmpl-chatcmpl-"));
    assert_eq!(opening["id"].as_str().unwrap().len(), 30);
    assert_eq!(opening["model"], "unknown");
    assert!(opening["created"].as_u64().unwrap() > 1_600_000_000);
    assert_eq!(chunk_value(&chunks[1])["id"], "chatcmpl-chatcmpl-local");
    assert_eq!(chunk_value(&chunks[1])["choices"][0]["finish_reason"], "stop");
    assert_eq!(chunks[2], "data: [DONE]\n\n");
}

#[test]
fn given_identifier_and_time_are_used() {
    let mut stream = ChatStream::start();
    let chunks = stream.event_with("response.created", &json("{\"response\":{}}"), "abc", 5);
    assert_eq!(chunk_value(&chunks[0])["id"], "chatcmpl-chatcmpl-abc");
    assert_eq!(chunk_value(&chunks[0])["created"], 5);
    let chunks = stream.event_with("response.created", &json("{\"response\":{\"id\":\"i\",\"created\":6}}"), "", 0);
    assert_eq!(chunk_value(&chunks[0])["id"], "chatcmpl-i");
    assert_eq!(chunk_value(&chunks[0])["created"], 5);
}

#[test]
fn finished_call_is_sent() {
    let chunks = chat(&[
        b"event: response.output_item.added\ndata: {\"item\":{\"type\":\"function_call\",\"id\":\"i\",\"name\":\"n\\t\\\"\"}}\n\n",
        b"event: function_call_arguments.delta\ndata: {\"item_id\":\"i\",\"delta\":{\"arguments\":\"{\"}}\n\n",
        b"event: function_call_arguments.delta\ndata: {\"item_id\":\"other\",\"delta\":{\"arguments\":\"?\"}}\n\n",
        b"event: response.function_call_arguments.delta\ndata: {\"item_id\":\"i\",\"delta\":{\"arguments\":\"}\"}}\n\n",
        b"event: response.function_call_arguments.done\ndata: {\"item_id\":\"i\"}\n\n",
        b"event: response.function_call_arguments.done\ndata: {\"item_id\":\"i\"}\n\n",
        b"event: function_call_output\ndata: {\"item_id\":\"i\",\"output\":\"ok\\n\"}\n\n",
    ]);
    assert_eq!(chunks.len(), 4);
    assert!(chunks[0].contains("\"choices\":[{\"index\":0,\"delta\":{\"role\":\"assistant\",\"tool_calls\":[{\"index\":0,\"id\":\"tool_i\",\"type\":\"function\",\"function\":{\"name\":\"n\t\\\"\",\"arguments\":\"{}\"}}]},\"finish_reason\":null}]}"));
    assert!(chunks[1].contains("\"delta\":{\"role\":\"tool\",\"tool_call_id\":\"i\",\"content\":\"ok\\n\"}"));
    assert!(chunks[2].contains("\"finish_reason\":\"stop\""));
}

#[test]
fn custom_calls_have_places_too() {
    let chunks = chat(&[
        b"event: response.output_item.added\ndata: {\"item\":{\"type\":\"message\",\"id\":\"m\"}}\n\n",
        b"event: response.output_item.added\ndata: {\"item\":{\"type\":\"function_call\",\"id\":\"a\"}}\n\n",
        b"event: response.output_item.added\ndata: {\"item\":{\"type\":\"custom_tool_call\",\"id\":\"b\",\"call_id\":\"c\",\"name\":\"n\"}}\n\n",
        b"event: custom_tool_call.delta\ndata: {\"item_id\":\"b\",\"delta\":{\"input\":\"x\"}}\n\n",
        b"event: custom_tool_call.delta\ndata: {\"item_id\":\"b\",\"delta\":{\"input\":{\"k\":1}}}\n\n",
        b"event: custom_tool_call.done\ndata: {\"item_id\":\"b\"}\n\n",
        b"event: response.custom_tool_call_output\ndata: {\"call_id\":\"b\",\"result\":\"r\"}\n\n",
    ]);
    let call = chunk_value(&chunks[0]);
    assert_eq!(call["choices"][0]["index"], 1);
    assert_eq!(call["choices"][0]["delta"]["tool_calls"][0]["id"], "tool_c");
    assert_eq!(call["choices"][0]["delta"]["tool_calls"][0]["function"]["arguments"], "x{\"k\":1}");
    assert_eq!(chunk_value(&chunks[1])["choices"][0]["index"], 1);
    assert_eq!(chunk_value(&chunks[1])["choices"][0]["delta"]["content"], "r");
    assert_eq!(chunk_value(&chunks[2])["choices"][0]["finish_reason"], "tool_calls");
}

#[test]
fn open_calls_are_sent_on_completion_in_order() {
    let chunks = chat(&[
        b"event: response.output_item.added\ndata: {\"item\":{\"type\":\"function_call\",\"id\":\"a\",\"name\":\"f\"}}\n\n",
        b"event: response.output_item.added\ndata: {\"item\":{\"type\":\"function_call\",\"id\":\"b\",\"name\":\"g\"}}\n\n",
        b"event: response.completed\ndata: {\"status\":\"completed\"}\n\n",
    ]);
    assert_eq!(chunks.len(), 4);
    assert_eq!(chunk_value(&chunks[0])["choices"][0]["delta"]["tool_calls"][0]["function"]["name"], "f");
    assert_eq!(chunk_value(&chunks[1])["choices"][0]["delta"]["tool_calls"][0]["function"]["name"], "g");
    assert_eq!(chunk_value(&chunks[1])["choices"][0]["index"], 1);
    assert_eq!(chunk_value(&chunks[2])["choices"][0]["finish_reason"], "tool_calls");
    assert_eq!(chunks[3], "data: [DONE]\n\n");
}

#[test]
fn chat_chunks_may_be_cut_anywhere() {
    let whole = b"event: response.created\ndata: {\"response\":{\"id\":\"r\",\"created\":1}}\n\nevent: response.output_text.delta\ndata: {\"delta\":\ndata: {\"text\":\"x\"}}\n\nevent: response.completed\ndata: {}\n\n";
    let expected = chat(&[&whole[..]]);
    assert_eq!(expected.len(), 4);
    for i in 0..whole.len() {
        assert_eq!(chat(&[&whole[..i], &whole[i..]]), expected);
    }
}

#[test]
fn bytes_behind_the_completion_wait() {
    let mut stream = ChatStream::start();
    let chunks = stream
        .try_feed(b"event: response.completed\ndata: {\"status\":\"s\"}\n\nevent: output_text.delta\ndata: {\"text\":{\"text\":\"late\"}}\n\n")
        .unwrap();
    assert_eq!(chunks.len(), 2);
    assert!(chunks[0].contains("\"finish_reason\":\"s\""));
    assert_eq!(stream.finish().len(), 0);
    assert_eq!(stream.try_feed(b"").unwrap().len(), 1);
}

#[test]
fn room_is_counted() {
    let stream = ChatStream::start();
    assert!(stream.room_for(b"abc"));
}

#[test]
fn other_blocks_change_nothing() {
    let blocks: &[&[u8]] = &[
        b"event: response.content_part.done\ndata: {\"delta\":{\"text\":\"x\"}}\n\n",
        b"event: response.output_text.delta\n\n",
        b"event: response.output_text.delta\ndata: {\"delta\":{\"text\":\n\n",
        b": nothing\n\n",
    ];
    let mut stream = ChatStream::start();
    for block in blocks {
        assert_eq!(stream.try_feed(block).unwrap().len(), 0);
    }
    assert_eq!(stream.finish(), ChatStream::start().finish());
}

#[test]
fn other_blocks_can_be_left_out() {
    let front: &[u8] = b"event: response.created\ndata: {\"response\":{\"id\":\"r\",\"created\":1}}\n\n";
    let rest: &[u8] = b"event: response.output_text.delta\ndata: {\"delta\":{\"text\":\"x\"}}\n\nevent: response.completed\ndata: {}\n\n";
    let expected = chat(&[front, rest]);
    assert_eq!(expected.len(), 4);
    for other in ["event: response.content_part.done\ndata: {}\r\n\r\n", ": x\n\n", "data: {\n\n", "\n\n"] {
        assert_eq!(chat(&[[front, other.as_bytes(), rest].concat().as_slice()]), expected);
        assert_eq!(chat(&[front, other.as_bytes(), rest]), expected);
    }
}

#[test]
fn streams_are_finished_once() {
    let call: &[u8] = b"event: response.output_item.added\ndata: {\"item\":{\"type\":\"function_call\",\"id\":\"i\",\"name\":\"\\\"finish_reason\\\":\\\"x\\\"}]}\"}}\n\n";
    let text: &[u8] = b"event: output_text.delta\ndata: {\"delta\":{\"text\":\"data: [DONE]\\n\\n\"}}\n\n";
    let end: &[u8] = b"event: response.completed\ndata: {\"status\":\"s\"}\n\n";
    for chunks in [vec![], vec![text], vec![call, text], vec![text, call, end], vec![end, b"rest"]] {
        let sent = chat(&chunks);
        let n = sent.len();
        let reasons: Vec<bool> = sent[..n - 1]
            .iter()
            .map(|c| !chunk_value(c)["choices"][0]["finish_reason"].is_null())
            .collect();
        assert_eq!(reasons.iter().filter(|r| **r).count(), 1);
        assert!(reasons[n - 2]);
        assert_eq!(sent.iter().filter(|c| *c == "data: [DONE]\n\n").count(), 1);
        assert_eq!(sent[n - 1], "data: [DONE]\n\n");
    }
}

#[test]
fn events_are_read_from_blocks() {
    let (name, data) = read_block("event:  response.created \ndata: [1,\ndata: 2]").unwrap();
    assert_eq!(name, "response.created");
    assert_eq!(data.to_value(), json("[1, 2]").to_value());
    assert!(read_block("event: x").is_none());
    assert!(read_block("data: {").is_none());
    assert_eq!(read_block("data: 1").unwrap().0, "");
}

#[test]
fn call_buffers_are_copied() {
    let call = ToolCallBuffer { id: "i".to_string(), name: "n".to_string(), arguments: "a".to_string(), index: 2 };
    let copy = call.copy();
    assert_eq!((copy.id, copy.name, copy.arguments, copy.index), ("i".to_string(), "n".to_string(), "a".to_string(), 2));
}
