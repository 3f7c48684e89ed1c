use recodex::chat_response::{
    ChatChoiceDelta, ChatCompletionChunk, ChatDelta, ChatError, ChatErrorDetail,
    ChatFunctionCallDelta, ChatToolCallDelta, ChatUsage,
};
use recodex::error::ApiError;
use recodex::models::{ContentItem, ResponseEvent, ResponseItem, TokenUsage};
use recodex::sse::chat::{ChatStream, StreamInput, StreamItem};
use serde_json::Value;

fn text(value: &Value, name: &str) -> Option<String> {
    value.get(name).and_then(Value::as_str).map(str::to_string)
}

fn parse_tool_call(value: &Value) -> Option<ChatToolCallDelta> {
    Some(ChatToolCallDelta {
        index: value.get("index")?.as_u64()? as usize,
        id: text(value, "id"),
        type_: text(value, "type"),
        function: value.get("function").map(|function| ChatFunctionCallDelta {
            name: text(function, "name"),
            arguments: text(function, "arguments"),
        }),
    })
}

fn parse_choice(value: &Value) -> Option<ChatChoiceDelta> {
    let delta = value.get("delta")?;
    Some(ChatChoiceDelta {
        index: value.get("index")?.as_u64()? as usize,
        delta: ChatDelta {
            role: text(delta, "role"),
            content: text(delta, "content"),
            tool_calls: delta
                .get("tool_calls")
                .and_then(Value::as_array)
                .map(|calls| calls.iter().filter_map(parse_tool_call).collect()),
        },
        finish_reason: text(value, "finish_reason"),
    })
}

fn parse_chunk(data: &str) -> Option<ChatCompletionChunk> {
    let value: Value = serde_json::from_str(data).ok()?;
    Some(ChatCompletionChunk {
        id: text(&value, "id")?,
        object: text(&value, "object")?,
        created: value.get("created")?.as_u64()?,
        model: text(&value, "model")?,
        choices: value
            .get("choices")?
            .as_array()?
            .iter()
            .filter_map(parse_choice)
            .collect(),
        usage: value.get("usage").map(|usage| ChatUsage {
            prompt_tokens: usage["prompt_tokens"].as_u64().unwrap(),
            completion_tokens: usage["completion_tokens"].as_u64().unwrap(),
            total_tokens: usage["total_tokens"].as_u64().unwrap(),
        }),
    })
}

fn parse_error(data: &str) -> Option<ChatError> {
    let value: Value = serde_json::from_str(data).ok()?;
    let error = value.get("error")?;
    Some(ChatError {
        error: ChatErrorDetail {
            message: text(error, "message")?,
            type_: text(error, "type")?,
            code: text(error, "code"),
        },
    })
}

fn frame(data: &str) -> StreamInput {
    StreamInput::Frame {
        data: data.to_string(),
        chunk: parse_chunk(data),
        error: parse_error(data),
    }
}

/// Runs a stream over its inputs, up to the one that ends it.
fn run(inputs: Vec<StreamInput>) -> (Vec<StreamItem>, bool) {
    let mut stream = ChatStream::new();
    let mut items = Vec::new();
    for input in inputs {
        let output = stream.process(input);
        items.extend(output.items);
        if output.done {
            return (items, true);
        }
    }
    (items, false)
}

fn events_of(data: &[&str]) -> Vec<ResponseEvent> {
    let (items, done) = run(data.iter().map(|data| frame(data)).collect());
    assert!(done);
    items.into_iter().map(|item| item.unwrap()).collect()
}

#[test]
fn openai_chat_completions_e2e() {
    let chunk1 = r#"{
        "id": "chatcmpl-123",
        "object": "chat.completion.chunk",
        "created": 1677652288,
        "model": "gpt-5",
        "choices": [{
            "index": 0,
            "delta": { "role": "assistant", "content": "Hello" },
            "finish_reason": null
        }]
    }"#;

    let chunk2 = r#"{
        "id": "chatcmpl-123",
        "object": "chat.completion.chunk",
        "created": 1677652288,
        "model": "gpt-5",
        "choices": [{
            "index": 0,
            "delta": { "content": " world" },
            "finish_reason": null
        }]
    }"#;

    let chunk3 = r#"{
        "id": "chatcmpl-123",
        "object": "chat.completion.chunk",
        "created": 1677652288,
        "model": "gpt-5",
        "choices": [{
            "index": 0,
            "delta": {},
            "finish_reason": "stop"
        }]
    }"#;

    let events = events_of(&[chunk1, chunk2, chunk3, "[DONE]"]);

    assert!(events.iter().any(|e| matches!(
        e,
        ResponseEvent::OutputItemAdded(ResponseItem::Message { role, content, .. })
            if role == "assistant" && content.is_empty()
    )));
    let deltas: Vec<String> = events
        .iter()
        .filter_map(|e| match e {
            ResponseEvent::OutputTextDelta(t) => Some(t.clone()),
            _ => None,
        })
        .collect();
    assert_eq!(deltas, vec!["Hello".to_string(), " world".to_string()]);
    let final_text = events.iter().find_map(|e| match e {
        ResponseEvent::OutputItemDone(ResponseItem::Message { content, .. }) => {
            content.first().and_then(|c| match c {
                ContentItem::OutputText { text } => Some(text.clone()),
                _ => None,
            })
        }
        _ => None,
    });
    assert_eq!(final_text.as_deref(), Some("Hello world"));
    assert!(events.iter().any(|e| matches!(
        e,
        ResponseEvent::Completed {
            end_turn: Some(true),
            ..
        }
    )));
}

#[test]
fn chat_completions_tool_calls_e2e() {
    let chunk1 = r#"{
        "id": "chatcmpl-456",
        "object": "chat.completion.chunk",
        "created": 1677652289,
        "model": "gpt-5",
        "choices": [{
            "index": 0,
            "delta": { "role": "assistant", "content": null },
            "finish_reason": null
        }]
    }"#;

    let chunk2 = r#"{
        "id": "chatcmpl-456",
        "object": "chat.completion.chunk",
        "created": 1677652289,
        "model": "gpt-5",
        "choices": [{
            "index": 0,
            "delta": {
                "tool_calls": [{
                    "index": 0,
                    "id": "call_123",
                    "type": "function",
                    "function": { "name": "search", "arguments": "{\"query\":\"test\"}" }
                }]
            },
            "finish_reason": null
        }]
    }"#;

    let chunk3 = r#"{
        "id": "chatcmpl-456",
        "object": "chat.completion.chunk",
        "created": 1677652289,
        "model": "gpt-5",
        "choices": [{
            "index": 0,
            "delta": {},
            "finish_reason": "tool_calls"
        }]
    }"#;

    let events = events_of(&[chunk1, chunk2, chunk3, "[DONE]"]);

    let (added_name, added_call_id) = events
        .iter()
        .find_map(|ev| match ev {
            ResponseEvent::OutputItemAdded(ResponseItem::FunctionCall { name, call_id, .. }) => {
                Some((name.clone(), call_id.clone()))
            }
            _ => None,
        })
        .expect("expected OutputItemAdded(FunctionCall)");
    assert_eq!(added_name, "search");
    assert_eq!(added_call_id, "call_123");

    let (delta_call_id, delta_text) = events
        .iter()
        .find_map(|ev| match ev {
            ResponseEvent::ToolCallInputDelta { call_id, delta, .. } => {
                Some((call_id.clone(), delta.clone()))
            }
            _ => None,
        })
        .expect("expected a ToolCallInputDelta");
    assert_eq!(delta_call_id.as_deref(), Some("call_123"));
    assert!(delta_text.contains("test"));

    let (done_name, done_args) = events
        .iter()
        .find_map(|ev| match ev {
            ResponseEvent::OutputItemDone(ResponseItem::FunctionCall {
                name, arguments, ..
            }) => Some((name.clone(), arguments.clone())),
            _ => None,
        })
        .expect("expected OutputItemDone(FunctionCall)");
    assert_eq!(done_name, "search");
    assert!(done_args.contains("test"));

    let end_turn = events.iter().find_map(|ev| match ev {
        ResponseEvent::Completed { end_turn, .. } => *end_turn,
        _ => None,
    });
    assert_eq!(end_turn, Some(false));
}

#[test]
fn chat_completions_error_in_stream_surfaces_api_error() {
    let error_frame = r#"{
        "error": {
            "message": "Rate limit exceeded",
            "type": "rate_limit_error",
            "code": "rate_limit_exceeded"
        }
    }"#;

    let (items, done) = run(vec![frame(error_frame), StreamInput::Closed]);
    assert!(done);
    assert_eq!(items.len(), 1);
    let surfaced = items.into_iter().find_map(|item| item.err());

    match surfaced {
        Some(ApiError::RateLimit(msg)) => assert_eq!(msg, "Rate limit exceeded"),
        other => panic!("expected ApiError::RateLimit from stream, got {other:?}"),
    }
}

const TEXT: &str = r#"{"id":"a","object":"o","created":0,"model":"m",
    "choices":[{"index":0,"delta":{"content":"hi"}}]}"#;
const STOP: &str = r#"{"id":"","object":"o","created":0,"model":"m",
    "choices":[{"index":0,"delta":{},"finish_reason":"stop"}]}"#;
const USAGE: &str = r#"{"id":"b","object":"o","created":0,"model":"m","choices":[],
    "usage":{"prompt_tokens":3,"completion_tokens":4,"total_tokens":7}}"#;

#[test]
fn the_sentinel_may_be_surrounded_by_white_space() {
    let (items, done) = run(vec![frame(" \t[DONE]\u{a0}\n")]);
    assert!(done);
    assert_eq!(
        items,
        vec![Ok(ResponseEvent::Completed {
            response_id: String::new(),
            token_usage: None,
            end_turn: Some(true),
        })]
    );
    let (items, done) = run(vec![frame("[DONE"), frame("[done]"), frame("[ DONE]")]);
    assert!(!done);
    assert!(items.is_empty());
}

#[test]
fn the_last_usage_and_the_last_id_reach_the_completion() {
    let (items, done) = run(vec![
        frame(TEXT),
        frame(STOP),
        frame(USAGE),
        StreamInput::Closed,
    ]);
    assert!(done);
    assert_eq!(
        items.last(),
        Some(&Ok(ResponseEvent::Completed {
            response_id: "b".to_string(),
            token_usage: Some(TokenUsage {
                input_tokens: 3,
                cached_input_tokens: 0,
                output_tokens: 4,
                reasoning_output_tokens: 0,
                total_tokens: 7,
            }),
            end_turn: Some(true),
        }))
    );
    let ends = items
        .iter()
        .filter(|item| matches!(item, Err(_) | Ok(ResponseEvent::Completed { .. })))
        .count();
    assert_eq!(ends, 1);
}

#[test]
fn a_stream_that_closes_without_a_finish_reason_broke_off() {
    let (items, done) = run(vec![frame(TEXT), StreamInput::Closed]);
    assert!(done);
    assert_eq!(
        items.last(),
        Some(&Err(ApiError::Stream(
            "stream closed before completion".to_string()
        )))
    );
}

#[test]
fn silence_and_failure_end_a_stream() {
    let (items, done) = run(vec![StreamInput::IdleTimeout]);
    assert!(done);
    assert_eq!(
        items,
        vec![Err(ApiError::Stream(
            "idle timeout waiting for SSE".to_string()
        ))]
    );
    let (items, done) = run(vec![frame(STOP), StreamInput::Failed("reset".to_string())]);
    assert!(done);
    assert_eq!(items, vec![Err(ApiError::Stream("reset".to_string()))]);
}

#[test]
fn frames_that_parse_to_nothing_are_skipped() {
    let (items, done) = run(vec![
        frame("not json"),
        frame("{}"),
        frame(TEXT),
        frame("[DONE]"),
    ]);
    assert!(done);
    let text: String = items
        .iter()
        .filter_map(|item| match item {
            Ok(ResponseEvent::OutputTextDelta(text)) => Some(text.as_str()),
            _ => None,
        })
        .collect();
    assert_eq!(text, "hi");
    assert!(matches!(items[0], Ok(ResponseEvent::OutputItemAdded(_))));
}

fn call_frame(index: usize, id: Option<&str>, name: Option<&str>, arguments: &str) -> StreamInput {
    let text = |value: Option<&str>| value.map_or(Value::Null, Value::from);
    let mut function = serde_json::Map::new();
    function.insert("name".to_string(), text(name));
    function.insert("arguments".to_string(), Value::from(arguments));
    let mut call = serde_json::Map::new();
    call.insert("index".to_string(), Value::from(index));
    call.insert("id".to_string(), text(id));
    call.insert("function".to_string(), Value::Object(function));
    frame(&format!(
        r#"{{"id":"a","object":"o","created":0,"model":"m",
            "choices":[{{"index":0,"delta":{{"tool_calls":[{}]}}}}]}}"#,
        Value::Object(call)
    ))
}

#[test]
fn interleaved_calls_keep_their_ids_and_their_input() {
    let (items, done) = run(vec![
        call_frame(0, Some("x"), Some("f"), "1"),
        call_frame(1, None, Some("g"), "2"),
        // A provider may repeat the id.
        call_frame(0, Some("x"), None, "3"),
        call_frame(1, None, None, "4"),
        frame("[DONE]"),
    ]);
    assert!(done);
    let mut seen: Vec<(String, &str, String)> = Vec::new();
    for item in items {
        match item.unwrap() {
            ResponseEvent::OutputItemAdded(ResponseItem::FunctionCall {
                call_id,
                arguments,
                ..
            }) => seen.push((call_id, "added", arguments)),
            ResponseEvent::ToolCallInputDelta { item_id, delta, .. } => {
                seen.push((item_id, "input", delta))
            }
            ResponseEvent::OutputItemDone(ResponseItem::FunctionCall {
                call_id,
                arguments,
                ..
            }) => seen.push((call_id, "done", arguments)),
            _ => {}
        }
    }
    for (id, fragments, whole) in [("x", ["1", "3"], "13"), ("tool_1", ["2", "4"], "24")] {
        let own: Vec<(&str, &str)> = seen
            .iter()
            .filter(|(call_id, _, _)| call_id == id)
            .map(|(_, kind, text)| (*kind, text.as_str()))
            .collect();
        assert_eq!(
            own,
            vec![
                ("added", ""),
                ("input", fragments[0]),
                ("input", fragments[1]),
                ("done", whole),
            ]
        );
    }
    assert_eq!(seen.len(), 8);
}
