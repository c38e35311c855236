//! The protocol: requests, event streams, and the responses they add up to.

use agent::llm::{
    body, check_content_type, check_reply, is_event_stream, is_success, LlmError, Timeout,
};
use agent::sse::{line_payload, SseReader};
use agent::stream::{
    arguments_from, Choice, Chunk, ChunkDelta, FunctionDelta, Stream, ToolCallDelta,
};
use agent::{
    Event, JsonValue, Message, Object, OpenAiCompatible, OpenAiConfig, Response, ToolCall,
    ToolDefinition, ToolResult,
};
use serde_json::Value;

/// The fields that the protocol owns.
const RESERVED: [&str; 4] = ["model", "messages", "tools", "stream"];

fn json(value: &str) -> JsonValue {
    JsonValue::parse(value).expect("valid JSON")
}

/// A document in a form that can be looked into.
fn look(value: &JsonValue) -> Value {
    serde_json::from_str(&value.to_text()).expect("valid JSON")
}

fn some_string(value: Option<&Value>) -> Option<String> {
    value.and_then(Value::as_str).map(str::to_string)
}

fn call_delta(value: &Value) -> ToolCallDelta {
    ToolCallDelta {
        index: value.get("index").and_then(Value::as_u64).unwrap_or(0) as usize,
        id: some_string(value.get("id")),
        function: value.get("function").map(|function| FunctionDelta {
            name: some_string(function.get("name")),
            arguments: some_string(function.get("arguments")),
        }),
    }
}

fn choice(value: &Value) -> Choice {
    let delta = value.get("delta").expect("a delta");
    Choice {
        delta: ChunkDelta {
            content: some_string(delta.get("content")),
            reasoning: some_string(delta.get("reasoning")),
            reasoning_content: some_string(delta.get("reasoning_content")),
            reasoning_details: delta.get("reasoning_details").map(|value| json(&value.to_string())),
            tool_calls: delta
                .get("tool_calls")
                .and_then(Value::as_array)
                .map(|calls| calls.iter().map(call_delta).collect()),
        },
    }
}

fn chunk(payload: &str) -> Chunk {
    let value: Value = serde_json::from_str(payload).expect("valid JSON");
    let choices = value.get("choices").and_then(Value::as_array).cloned().unwrap_or_default();
    Chunk { choices: choices.iter().map(choice).collect() }
}

/// The events of a stream, in order, as text.
fn apply(stream: &mut Stream, payload: &str) -> Vec<String> {
    stream
        .apply(&chunk(payload))
        .into_iter()
        .map(|event| match event {
            Event::Text(text) => format!("text:{text}"),
            Event::Thinking(text) => format!("thinking:{text}"),
            other => format!("other:{other:?}"),
        })
        .collect()
}

fn config() -> OpenAiConfig {
    OpenAiConfig::default().model("test-model")
}

fn user(text: &str) -> Message {
    Message::User(text.to_string())
}

// -------------------------------------------------------------------- streaming

#[test]
fn streams_text_and_reasoning() {
    let mut stream = Stream::new();
    let mut sink = Vec::new();
    for payload in [
        r#"{"choices":[{"delta":{"role":"assistant"}}]}"#,
        r#"{"choices":[{"delta":{"reasoning":"hmm"}}]}"#,
        r#"{"choices":[{"delta":{"content":"Hel"}}]}"#,
        r#"{"choices":[{"delta":{"content":"lo"}}]}"#,
        r#"{"choices":[{"delta":{},"finish_reason":"stop"}]}"#,
    ] {
        sink.extend(apply(&mut stream, payload));
    }
    let response = stream.finish();

    assert_eq!(response.text.as_deref(), Some("Hello"));
    assert_eq!(sink, ["thinking:hmm", "text:Hel", "text:lo"]);
    assert!(response.tool_calls.is_empty());
}

#[test]
fn assembles_fragmented_tool_calls() {
    let mut stream = Stream::new();
    for payload in [
        r#"{"choices":[{"delta":{"tool_calls":[{"index":0,"id":"call_1","function":{"name":"read","arguments":"{\"pa"}}]}}]}"#,
        r#"{"choices":[{"delta":{"tool_calls":[{"index":0,"function":{"arguments":"th\":\"a.rs\"}"}}]}}]}"#,
        r#"{"choices":[{"delta":{"tool_calls":[{"index":1,"id":"call_2","function":{"name":"exec","arguments":"{\"command\":\"ls\"}"}}]}}]}"#,
    ] {
        assert!(apply(&mut stream, payload).is_empty());
    }
    let response = stream.finish();

    assert!(response.text.is_none());
    assert_eq!(response.tool_calls.len(), 2);
    assert_eq!(response.tool_calls[0].id, "call_1");
    assert_eq!(response.tool_calls[0].name, "read");
    assert_eq!(response.tool_calls[0].arguments.to_text(), "{\"path\":\"a.rs\"}");
    assert_eq!(response.tool_calls[1].name, "exec");
    assert_eq!(response.tool_calls[1].arguments.to_text(), "{\"command\":\"ls\"}");
}

#[test]
fn keeps_unparseable_arguments_verbatim() {
    let mut stream = Stream::new();
    apply(
        &mut stream,
        r#"{"choices":[{"delta":{"tool_calls":[{"index":0,"id":"c","function":{"name":"read","arguments":"{\"path\":"}}]}}]}"#,
    );

    let arguments = &stream.finish().tool_calls[0].arguments;
    assert!(matches!(arguments, JsonValue::String(text) if text == "{\"path\":"));
}

#[test]
fn arguments_are_parsed_kept_or_empty() {
    assert_eq!(arguments_from(" \n".to_string(), None).to_text(), "{}");
    assert_eq!(arguments_from(String::new(), None).to_text(), "{}");
    assert_eq!(arguments_from("[1]".to_string(), Some(json("[1]"))).to_text(), "[1]");
    assert_eq!(arguments_from("[1".to_string(), None).to_text(), "\"[1\"");
}

#[test]
fn calls_may_arrive_out_of_order() {
    let mut stream = Stream::new();
    apply(
        &mut stream,
        r#"{"choices":[{"delta":{"tool_calls":[{"index":2,"id":"c","function":{"name":"z"}},{"index":0,"id":"a"}]}}]}"#,
    );
    let response = stream.finish();
    let ids: Vec<&str> = response.tool_calls.iter().map(|call| call.id.as_str()).collect();
    assert_eq!(ids, ["a", "", "c"]);
    // A call without arguments gets an empty object.
    assert_eq!(response.tool_calls[1].arguments.to_text(), "{}");
}

#[test]
fn empty_fragments_show_nothing() {
    let mut stream = Stream::new();
    assert!(apply(&mut stream, r#"{"choices":[]}"#).is_empty());
    assert!(apply(&mut stream, r#"{}"#).is_empty());
    assert!(apply(&mut stream, r#"{"choices":[{"delta":{"content":"","reasoning":""}}]}"#).is_empty());
    let both = r#"{"choices":[{"delta":{"reasoning":"r","content":"c"}},{"delta":{"content":"d"}}]}"#;
    // The text of a fragment is shown before its reasoning.
    assert_eq!(apply(&mut stream, both), ["text:c", "thinking:r", "text:d"]);
    assert_eq!(stream.finish().text.as_deref(), Some("cd"));
    let nothing = Stream::new().finish();
    assert!(nothing.text.is_none());
}

#[test]
fn round_trips_reasoning_metadata() {
    let mut stream = Stream::new();
    for payload in [
        r#"{"choices":[{"delta":{"reasoning_content":"We "}}]}"#,
        r#"{"choices":[{"delta":{"reasoning_content":"think."}}]}"#,
        r#"{"choices":[{"delta":{"reasoning_details":[{"type":"reasoning.text","text":"We think."}]}}]}"#,
        r#"{"choices":[{"delta":{"content":"done"}}]}"#,
    ] {
        apply(&mut stream, payload);
    }
    let response = stream.finish();

    assert!(matches!(
        response.metadata.get("reasoning_content"),
        Some(JsonValue::String(text)) if text == "We think."
    ));
    let details = look(response.metadata.get("reasoning_details").unwrap());
    assert_eq!(details[0]["type"], "reasoning.text");

    // ... and the same map comes back on the next request.
    let mut messages = vec![user("hi")];
    messages.push(Message::Assistant {
        text: response.text.clone().unwrap_or_default(),
        calls: response.tool_calls.clone(),
        metadata: response.metadata.clone(),
    });
    let body = look(&body(&config(), &messages, &[]));
    assert_eq!(body["messages"][1]["reasoning_content"], "We think.");
    assert_eq!(body["messages"][1]["reasoning_details"][0]["type"], "reasoning.text");
    // Fields that do not need round-tripping are not echoed.
    assert!(body["messages"][1].get("content").is_some());
}

// --------------------------------------------------------------------- requests

#[test]
fn builds_a_request_with_history_tools_and_params() {
    let messages = vec![
        Message::System("sys".to_string()),
        user("hi"),
        Message::Assistant {
            text: String::new(),
            calls: vec![ToolCall {
                id: "call_1".to_string(),
                name: "read".to_string(),
                arguments: json("{\"path\": \"a.rs\"}"),
            }],
            metadata: Object::new(),
        },
        Message::Tools(vec![ToolResult {
            id: "call_1".to_string(),
            name: "read".to_string(),
            output: "fn main() {}".to_string(),
        }]),
    ];
    let tools = vec![ToolDefinition {
        name: "read".to_string(),
        description: "read a file".to_string(),
        parameters: json("{\"type\": \"object\"}"),
    }];
    let config =
        config().param("temperature", json("0.2")).param("reasoning_effort", JsonValue::text("high"));
    let body = look(&body(&config, &messages, &tools));

    assert_eq!(body["stream"], true);
    assert_eq!(body["messages"][0]["role"], "system");
    // An assistant turn with calls has null content and carries the calls.
    assert!(body["messages"][2]["content"].is_null());
    assert_eq!(
        body["messages"][2]["tool_calls"][0]["function"]["arguments"],
        "{\"path\":\"a.rs\"}"
    );
    assert_eq!(body["messages"][3]["role"], "tool");
    assert_eq!(body["messages"][3]["tool_call_id"], "call_1");
    assert_eq!(body["tools"][0]["function"]["name"], "read");
    assert_eq!(body["temperature"], 0.2);
    assert_eq!(body["reasoning_effort"], "high");
    assert_eq!(body["model"], "test-model");
}

#[test]
fn a_request_is_written_in_full() {
    let messages = vec![
        user("hi"),
        Message::Assistant {
            text: "ok".to_string(),
            calls: vec![ToolCall {
                id: "1".to_string(),
                name: "exec".to_string(),
                arguments: JsonValue::text("bad"),
            }],
            metadata: Object::new().with("x", json("1")),
        },
        Message::Tools(vec![
            ToolResult { id: "1".to_string(), name: "exec".to_string(), output: "a".to_string() },
            ToolResult { id: "2".to_string(), name: "exec".to_string(), output: "b".to_string() },
        ]),
    ];
    let tools = vec![ToolDefinition {
        name: "t".to_string(),
        description: "d".to_string(),
        parameters: json("{}"),
    }];
    assert_eq!(
        body(&config(), &messages, &tools).to_text(),
        concat_lines(&[
            "{\"messages\":[{\"content\":\"hi\",\"role\":\"user\"},",
            "{\"content\":\"ok\",\"role\":\"assistant\",\"tool_calls\":[{\"function\":",
            "{\"arguments\":\"\\\"bad\\\"\",\"name\":\"exec\"},\"id\":\"1\",\"type\":\"function\"}],\"x\":1},",
            "{\"content\":\"a\",\"role\":\"tool\",\"tool_call_id\":\"1\"},",
            "{\"content\":\"b\",\"role\":\"tool\",\"tool_call_id\":\"2\"}],",
            "\"model\":\"test-model\",\"stream\":true,\"tools\":[{\"function\":",
            "{\"description\":\"d\",\"name\":\"t\",\"parameters\":{}},\"type\":\"function\"}]}",
        ])
    );
}

fn concat_lines(lines: &[&str]) -> String {
    lines.concat()
}

#[test]
fn rejects_params_the_protocol_owns() {
    for reserved in RESERVED {
        let error = match OpenAiCompatible::new(config().param(reserved, JsonValue::text("x"))) {
            Err(error) => error.message(),
            Ok(_) => panic!("{reserved} should be rejected"),
        };
        assert!(error.contains(reserved), "{error}");
        assert_eq!(
            error,
            format!("`{reserved}` belongs to the protocol and cannot be set with .param()")
        );
    }
    // Everything else still goes through.
    assert!(OpenAiCompatible::new(config().param("seed", json("7"))).is_ok());
}

#[test]
fn the_last_param_wins() {
    let config = config().param("seed", json("7")).param("seed", json("8"));
    assert_eq!(look(&body(&config, &[], &[]))["seed"], 8);
    let body = look(&body(&config, &[], &[]));
    assert!(body.get("tools").is_none());
    assert!(body["messages"].as_array().unwrap().is_empty());
}

#[test]
fn the_defaults_point_at_one_endpoint() {
    let config = OpenAiCompatible::builder();
    assert_eq!(config.model, "gpt-4o-mini");
    assert_eq!(config.base_url, "https://api.openai.com/v1");
    assert!(config.api_key.is_none());
    assert_eq!(config.timeout, Timeout::from_secs(600));
    let config = config.timeout(Timeout::from_millis(1500));
    assert_eq!(config.timeout, Timeout { secs: 1, nanos: 500_000_000 });
}

#[test]
fn trailing_slashes_of_the_base_url_are_dropped() {
    for base in ["http://host/v1", "http://host/v1/", "http://host/v1//"] {
        let model = OpenAiCompatible::new(config().base_url(base)).unwrap();
        assert_eq!(model.config().base_url, "http://host/v1");
        assert_eq!(model.request(&[], &[]).url, "http://host/v1/chat/completions");
    }
}

// --------------------------------------------------------------------- responses

/// The response to a whole event stream, read in pieces of `size` bytes.
fn read_stream(stream_body: &str, size: usize) -> (Response, Vec<Event>) {
    let mut reader = SseReader::new();
    let mut stream = Stream::new();
    let mut events = Vec::new();
    for piece in stream_body.as_bytes().chunks(size) {
        for payload in reader.feed(piece) {
            events.extend(stream.apply(&chunk(&payload)));
        }
    }
    (stream.finish(), events)
}

fn sse(events: &[&str]) -> String {
    events.iter().map(|event| format!("data: {event}\n\n")).collect()
}

#[test]
fn sends_params_and_headers_and_reads_the_stream() {
    let model = OpenAiCompatible::new(
        config()
            .base_url("http://127.0.0.1:1")
            .api_key("sekret")
            .header("x-tenant", "acme")
            .param("temperature", json("0.2"))
            .param("max_tokens", json("128")),
    )
    .unwrap();
    let request = model.request(&[user("hi")], &[]);
    assert_eq!(request.url, "http://127.0.0.1:1/chat/completions");
    assert_eq!(request.bearer.as_deref(), Some("sekret"));
    assert_eq!(request.headers, [("x-tenant".to_string(), "acme".to_string())]);
    let sent = request.body.to_text();
    assert!(sent.contains("\"temperature\":0.2"), "no temperature param");
    assert!(sent.contains("\"max_tokens\":128"), "no max_tokens param");
    assert!(sent.contains("\"stream\":true"), "stream not requested");

    let stream_body = sse(&[r#"{"choices":[{"delta":{"content":"done"}}]}"#]);
    let (response, events) = read_stream(&stream_body, 4096);
    let response = check_reply(response).unwrap();
    assert_eq!(response.text.as_deref(), Some("done"));
    assert!(matches!(&events[..], [Event::Text(text)] if text == "done"));
}

#[test]
fn works_without_an_api_key() {
    let model = OpenAiCompatible::new(config()).unwrap();
    assert!(model.request(&[user("hi")], &[]).bearer.is_none());

    let (response, _) = read_stream(&sse(&[r#"{"choices":[{"delta":{"content":"ok"}}]}"#]), 4096);
    assert_eq!(check_reply(response).unwrap().text.as_deref(), Some("ok"));
}

#[test]
fn surfaces_the_error_body() {
    assert!(!is_success(401));
    let error = LlmError::Api {
        status: "401 Unauthorized".to_string(),
        body: r#"{"error":{"message":"bad key"}}"#.to_string(),
    };
    let message = error.message();
    assert!(message.contains("401"), "{message}");
    assert!(message.contains("bad key"), "{message}");
    assert_eq!(message, "api error 401 Unauthorized: {\"error\":{\"message\":\"bad key\"}}");

    let long = LlmError::Api { status: "500".to_string(), body: "x".repeat(3000) };
    assert_eq!(long.message(), format!("api error 500: {}\n[output truncated]", "x".repeat(2000)));
}

#[test]
fn statuses_between_two_and_three_hundred_succeed() {
    assert!(!is_success(199));
    assert!(is_success(200));
    assert!(is_success(299));
    assert!(!is_success(300));
}

#[test]
fn only_event_streams_are_read() {
    assert!(is_event_stream(&Some("text/event-stream; charset=utf-8".to_string())));
    assert!(!is_event_stream(&Some("application/json".to_string())));
    assert!(!is_event_stream(&None));
    assert!(check_content_type(Some("text/event-stream".to_string())).is_ok());
    assert_eq!(
        check_content_type(Some("application/json".to_string())).unwrap_err().message(),
        "the endpoint did not stream (content-type: application/json): it may not support `stream`"
    );
    assert_eq!(
        check_content_type(None).unwrap_err().message(),
        "the endpoint did not stream (content-type: none): it may not support `stream`"
    );
}

#[test]
fn an_empty_reply_is_an_error() {
    let nothing = Response { text: None, tool_calls: Vec::new(), metadata: Object::new() };
    assert_eq!(
        check_reply(nothing).unwrap_err().message(),
        "the model returned neither text nor tool calls"
    );
}

#[test]
fn only_data_lines_carry_payloads() {
    assert_eq!(line_payload("data: {\"a\":1}\r"), Some("{\"a\":1}".to_string()));
    assert_eq!(line_payload("data:x"), Some("x".to_string()));
    assert_eq!(line_payload("data: [DONE]"), None);
    assert_eq!(line_payload("data:   "), None);
    assert_eq!(line_payload(": ping"), None);
    assert_eq!(line_payload("event: data:"), None);
    assert_eq!(line_payload(""), None);
}

#[test]
fn the_size_of_the_pieces_makes_no_difference() {
    let stream_body = sse(&[
        r#"{"choices":[{"delta":{"content":"one "}}]}"#,
        r#"{"choices":[{"delta":{"content":"二 é 🦀"}}]}"#,
        "[DONE]",
    ]);
    // Pieces of one, two and three bytes cut through every character.
    for size in [1usize, 2, 3, 7, 4096] {
        let (response, events) = read_stream(&stream_body, size);
        assert_eq!(response.text.as_deref(), Some("one 二 é 🦀"), "{size}");
        assert_eq!(events.len(), 2, "{size}");
    }
}

#[test]
fn a_cut_through_a_character_loses_nothing() {
    let body = "data: 日本\r\ndata: é\n".as_bytes();
    for cut in 0..=body.len() {
        let mut reader = SseReader::new();
        let mut found = reader.feed(&body[..cut]);
        found.extend(reader.feed(&body[cut..]));
        assert_eq!(found, ["日本", "é"], "{cut}");
        assert!(reader.buffer.is_empty());
    }
}

#[test]
fn a_line_is_read_once_it_ends() {
    let mut reader = SseReader::new();
    assert!(reader.feed(b"data: x").is_empty());
    assert_eq!(reader.buffer, b"data: x");
    assert_eq!(reader.feed(b"\n"), ["x"]);
    assert_eq!(reader.feed("data: 日\ndata: b".as_bytes()), ["日"]);
    // Bytes that are no text are replaced.
    assert_eq!(reader.feed(b"\xff\n"), ["b\u{fffd}"]);
}

#[test]
fn grouping_fragments_makes_no_difference() {
    let apart = [
        r#"{"choices":[{"delta":{"content":"a","reasoning":"r"}}]}"#,
        r#"{"choices":[{"delta":{"content":"b"}}]}"#,
    ];
    let together =
        r#"{"choices":[{"delta":{"content":"a","reasoning":"r"}},{"delta":{"content":"b"}}]}"#;
    let mut first = Stream::new();
    let mut shown = Vec::new();
    for payload in apart {
        shown.extend(apply(&mut first, payload));
    }
    let mut second = Stream::new();
    assert_eq!(apply(&mut second, together), shown);
    assert_eq!(first.finish().text, second.finish().text);
}
