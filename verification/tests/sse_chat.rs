use recodex::chat_response::{
    map_chat_error_to_api_error, ChatChoiceDelta, ChatCompletionChunk, ChatDelta, ChatError,
    ChatErrorDetail, ChatFunctionCallDelta, ChatToolCallDelta, ChatUsage,
};
use recodex::error::ApiError;
use recodex::models::{ContentItem, ResponseEvent, ResponseItem, TokenUsage};
use recodex::sse::chat::{
    build_terminal_events, chunk_to_events, finish_reason_to_end_turn, ToolCallAccum,
};
use serde_json::Value;
use std::collections::BTreeMap;

fn parse_error(text: &str) -> Option<ChatError> {
    let value: Value = serde_json::from_str(text).ok()?;
    let error = value.get("error")?;
    Some(ChatError {
        error: ChatErrorDetail {
            message: error.get("message")?.as_str()?.to_string(),
            type_: error.get("type")?.as_str()?.to_string(),
            code: error.get("code").and_then(Value::as_str).map(str::to_string),
        },
    })
}

fn chunk_with_content(id: &str, content: Option<&str>) -> ChatCompletionChunk {
    ChatCompletionChunk {
        id: id.to_string(),
        object: "chat.completion.chunk".to_string(),
        created: 0,
        model: "gpt-5".to_string(),
        choices: vec![ChatChoiceDelta {
            index: 0,
            delta: ChatDelta {
                role: None,
                content: content.map(str::to_string),
                tool_calls: None,
            },
            finish_reason: None,
        }],
        usage: None,
    }
}

// Assistant-text/message accumulator state threaded through chunk_to_events
// and build_terminal_events.
#[derive(Default)]
struct TextState {
    accum: String,
    announced: bool,
}

#[test]
fn test_chunk_text_delta_emits_message_envelope_then_delta() {
    let mut state = BTreeMap::new();
    let mut ts = TextState::default();
    let chunk = chunk_with_content("c1", Some("Hello"));
    let (events, fr) =
        chunk_to_events(&chunk, &mut state, &mut ts.accum, &mut ts.announced, "c1");
    assert!(fr.is_none());
    // OutputItemAdded(Message) envelope first (registers the active item),
    // then the text delta the consumer will stream.
    assert!(matches!(events[0], ResponseEvent::OutputItemAdded(_)));
    assert!(matches!(
        events[1],
        ResponseEvent::OutputTextDelta(ref t) if t == "Hello"
    ));
    assert_eq!(ts.accum, "Hello");
    assert!(ts.announced);
}

#[test]
fn test_multibyte_content_not_corrupted() {
    // Emoji (4-byte) and CJK (3-byte) must survive intact (no byte-splitting).
    let mut state = BTreeMap::new();
    let mut ts = TextState::default();
    let text = "héllo 世界 🦀";
    let chunk = chunk_with_content("c1", Some(text));
    let (events, _) =
        chunk_to_events(&chunk, &mut state, &mut ts.accum, &mut ts.announced, "c1");
    assert!(
        events
            .iter()
            .any(|e| matches!(e, ResponseEvent::OutputTextDelta(t) if t == text))
    );
    assert_eq!(ts.accum, text);
}

#[test]
fn test_text_lifecycle_finalizes_message_with_full_text() {
    // Two text chunks then a terminal finish: the synthesized lifecycle is
    // OutputItemAdded(Message) + OutputTextDelta* (streamed), then on
    // termination OutputItemDone(Message) carrying the full text, then Completed.
    let mut state = BTreeMap::new();
    let mut ts = TextState::default();
    for fragment in ["Hello", " world"] {
        let chunk = chunk_with_content("c1", Some(fragment));
        let _ = chunk_to_events(&chunk, &mut state, &mut ts.accum, &mut ts.announced, "c1");
    }
    assert_eq!(ts.accum, "Hello world");
    let finish = Some("stop".to_string());
    let term = build_terminal_events(
        "c1",
        None,
        &finish,
        &mut state,
        &mut ts.accum,
        ts.announced,
        "c1",
    );
    // OutputItemDone(Message) with the fully-assembled text precedes Completed.
    let done = term.iter().find_map(|e| match e {
        ResponseEvent::OutputItemDone(ResponseItem::Message { content, .. }) => {
            content.first().and_then(|c| match c {
                ContentItem::OutputText { text } => Some(text.clone()),
                _ => None,
            })
        }
        _ => None,
    });
    assert_eq!(done.as_deref(), Some("Hello world"));
    // text_accum was consumed by mem::take.
    assert!(ts.accum.is_empty());
    assert!(term.iter().any(|e| matches!(
        e,
        ResponseEvent::Completed {
            end_turn: Some(true),
            ..
        }
    )));
}

#[test]
fn test_tool_call_announces_then_deltas() {
    let mut state = BTreeMap::new();
    let mut ts = TextState::default();
    // First delta: id + name arrive.
    let first = ChatCompletionChunk {
        id: "c1".to_string(),
        object: "chat.completion.chunk".to_string(),
        created: 0,
        model: "gpt-5".to_string(),
        choices: vec![ChatChoiceDelta {
            index: 0,
            delta: ChatDelta {
                role: None,
                content: None,
                tool_calls: Some(vec![ChatToolCallDelta {
                    index: 0,
                    id: Some("call_1".to_string()),
                    type_: Some("function".to_string()),
                    function: Some(ChatFunctionCallDelta {
                        name: Some("get_weather".to_string()),
                        arguments: Some(r#"{"loc""#.to_string()),
                    }),
                }]),
            },
            finish_reason: None,
        }],
        usage: None,
    };
    let (events, fr) =
        chunk_to_events(&first, &mut state, &mut ts.accum, &mut ts.announced, "c1");
    assert!(fr.is_none());
    // OutputItemAdded (FunctionCall) + ToolCallInputDelta.
    assert!(events.iter().any(|e| matches!(
        e,
        ResponseEvent::OutputItemAdded(ResponseItem::FunctionCall { name, .. }) if name == "get_weather"
    )));
    assert!(events.iter().any(|e| matches!(
        e,
        ResponseEvent::ToolCallInputDelta { delta, .. } if delta == r#"{"loc""#
    )));

    // Second delta: more argument fragments (name/id absent).
    let second = ChatCompletionChunk {
        id: "c1".to_string(),
        object: "chat.completion.chunk".to_string(),
        created: 0,
        model: "gpt-5".to_string(),
        choices: vec![ChatChoiceDelta {
            index: 0,
            delta: ChatDelta {
                role: None,
                content: None,
                tool_calls: Some(vec![ChatToolCallDelta {
                    index: 0,
                    id: None,
                    type_: None,
                    function: Some(ChatFunctionCallDelta {
                        name: None,
                        arguments: Some(r#":"SF"}"#.to_string()),
                    }),
                }]),
            },
            finish_reason: None,
        }],
        usage: None,
    };
    let (events2, _) =
        chunk_to_events(&second, &mut state, &mut ts.accum, &mut ts.announced, "c1");
    // No re-announce; just the delta.
    assert!(
        !events2
            .iter()
            .any(|e| matches!(e, ResponseEvent::OutputItemAdded(_)))
    );
    assert!(events2.iter().any(|e| matches!(
        e,
        ResponseEvent::ToolCallInputDelta { delta, .. } if delta == r#":"SF"}"#
    )));

    // Accumulated arguments preserved in state.
    assert_eq!(state.get(&0).unwrap().arguments, r#"{"loc":"SF"}"#);
}

#[test]
fn test_finish_reason_tool_calls_finalizes_and_signals_continue() {
    let mut state = BTreeMap::new();
    let mut ts = TextState::default();
    // Announce a tool call first.
    let announce = ChatCompletionChunk {
        id: "c1".to_string(),
        object: "chat.completion.chunk".to_string(),
        created: 0,
        model: "gpt-5".to_string(),
        choices: vec![ChatChoiceDelta {
            index: 0,
            delta: ChatDelta {
                role: None,
                content: None,
                tool_calls: Some(vec![ChatToolCallDelta {
                    index: 0,
                    id: Some("call_1".to_string()),
                    type_: Some("function".to_string()),
                    function: Some(ChatFunctionCallDelta {
                        name: Some("get_weather".to_string()),
                        arguments: Some(r#"{"loc":"SF"}"#.to_string()),
                    }),
                }]),
            },
            finish_reason: None,
        }],
        usage: None,
    };
    let _ = chunk_to_events(
        &announce,
        &mut state,
        &mut ts.accum,
        &mut ts.announced,
        "c1",
    );

    // Final chunk carries finish_reason = "tool_calls".
    let final_chunk = ChatCompletionChunk {
        id: "c1".to_string(),
        object: "chat.completion.chunk".to_string(),
        created: 0,
        model: "gpt-5".to_string(),
        choices: vec![ChatChoiceDelta {
            index: 0,
            delta: ChatDelta::default(),
            finish_reason: Some("tool_calls".to_string()),
        }],
        usage: None,
    };
    let (events, fr) = chunk_to_events(
        &final_chunk,
        &mut state,
        &mut ts.accum,
        &mut ts.announced,
        "c1",
    );
    assert_eq!(fr.as_deref(), Some("tool_calls"));
    assert!(events.iter().any(|e| matches!(
        e,
        ResponseEvent::OutputItemDone(ResponseItem::FunctionCall { name, arguments, .. })
            if name == "get_weather" && arguments == r#"{"loc":"SF"}"#
    )));

    // Terminal Completed: tool_calls => end_turn false (turn continues).
    let term = build_terminal_events(
        "c1",
        None,
        &fr,
        &mut state,
        &mut ts.accum,
        ts.announced,
        "c1",
    );
    assert!(term.iter().any(|e| matches!(
        e,
        ResponseEvent::Completed {
            end_turn: Some(false),
            ..
        }
    )));
}

#[test]
fn test_multi_element_chunk_not_truncated() {
    // A single chunk carrying content + two parallel tool calls must emit
    // all of them (no early return after the first delta).
    let mut state = BTreeMap::new();
    let mut ts = TextState::default();
    let chunk = ChatCompletionChunk {
        id: "c1".to_string(),
        object: "chat.completion.chunk".to_string(),
        created: 0,
        model: "gpt-5".to_string(),
        choices: vec![ChatChoiceDelta {
            index: 0,
            delta: ChatDelta {
                role: None,
                content: Some("thinking".to_string()),
                tool_calls: Some(vec![
                    ChatToolCallDelta {
                        index: 0,
                        id: Some("call_a".to_string()),
                        type_: Some("function".to_string()),
                        function: Some(ChatFunctionCallDelta {
                            name: Some("t0".to_string()),
                            arguments: Some("{}".to_string()),
                        }),
                    },
                    ChatToolCallDelta {
                        index: 1,
                        id: Some("call_b".to_string()),
                        type_: Some("function".to_string()),
                        function: Some(ChatFunctionCallDelta {
                            name: Some("t1".to_string()),
                            arguments: Some("{}".to_string()),
                        }),
                    },
                ]),
            },
            finish_reason: None,
        }],
        usage: None,
    };
    let (events, _) =
        chunk_to_events(&chunk, &mut state, &mut ts.accum, &mut ts.announced, "c1");
    let added: Vec<_> = events
        .iter()
        .filter_map(|e| match e {
            ResponseEvent::OutputItemAdded(ResponseItem::FunctionCall { name, .. }) => {
                Some(name.clone())
            }
            _ => None,
        })
        .collect();
    assert_eq!(added, vec!["t0".to_string(), "t1".to_string()]);
    // Content delta also present.
    assert!(events.iter().any(|e| matches!(
        e,
        ResponseEvent::OutputTextDelta(t) if t == "thinking"
    )));
}

#[test]
fn test_end_turn_mapping() {
    assert_eq!(finish_reason_to_end_turn(Some("stop")), Some(true));
    assert_eq!(finish_reason_to_end_turn(Some("tool_calls")), Some(false));
    assert_eq!(finish_reason_to_end_turn(Some("length")), Some(true));
    assert_eq!(
        finish_reason_to_end_turn(Some("content_filter")),
        Some(true)
    );
    assert_eq!(finish_reason_to_end_turn(None), Some(true));
}

#[test]
fn test_error_payload_routes_through_mapper() {
    let error_json = r#"{"error":{"message":"rate limited","type":"rate_limit_error","code":"rate_limit_exceeded"}}"#;
    let chat_err: ChatError = parse_error(error_json).unwrap();
    let api_error = map_chat_error_to_api_error(chat_err);
    assert!(matches!(api_error, ApiError::RateLimit(_)));
}

fn choice(delta: ChatDelta, finish_reason: Option<&str>) -> ChatChoiceDelta {
    ChatChoiceDelta {
        index: 0,
        delta,
        finish_reason: finish_reason.map(str::to_string),
    }
}

fn chunk_of(choices: Vec<ChatChoiceDelta>) -> ChatCompletionChunk {
    ChatCompletionChunk {
        id: "c1".to_string(),
        object: "chat.completion.chunk".to_string(),
        created: 0,
        model: "gpt-5".to_string(),
        choices,
        usage: None,
    }
}

fn call_delta(
    index: usize,
    id: Option<&str>,
    name: Option<&str>,
    arguments: Option<&str>,
) -> ChatDelta {
    ChatDelta {
        role: None,
        content: None,
        tool_calls: Some(vec![ChatToolCallDelta {
            index,
            id: id.map(str::to_string),
            type_: None,
            function: Some(ChatFunctionCallDelta {
                name: name.map(str::to_string),
                arguments: arguments.map(str::to_string),
            }),
        }]),
    }
}

fn function_call(name: &str, arguments: &str, call_id: &str) -> ResponseItem {
    ResponseItem::FunctionCall {
        id: None,
        name: name.to_string(),
        namespace: None,
        arguments: arguments.to_string(),
        call_id: call_id.to_string(),
        internal_chat_message_metadata_passthrough: None,
    }
}

fn input_delta(call_id: &str, delta: &str) -> ResponseEvent {
    ResponseEvent::ToolCallInputDelta {
        item_id: call_id.to_string(),
        call_id: Some(call_id.to_string()),
        delta: delta.to_string(),
    }
}

#[test]
fn empty_fragments_are_not_sent() {
    let mut state = BTreeMap::new();
    let mut ts = TextState::default();
    let chunk = chunk_of(vec![
        choice(
            ChatDelta {
                role: Some("assistant".to_string()),
                content: Some(String::new()),
                tool_calls: None,
            },
            None,
        ),
        choice(call_delta(0, Some("a"), Some("f"), Some("")), None),
    ]);
    let (events, reason) =
        chunk_to_events(&chunk, &mut state, &mut ts.accum, &mut ts.announced, "c1");
    assert_eq!(reason, None);
    assert_eq!(
        events,
        vec![ResponseEvent::OutputItemAdded(function_call("f", "", "a"))]
    );
    assert!(!ts.announced);
}

#[test]
fn a_call_without_identity_is_announced_late_and_named_by_its_index() {
    let mut state = BTreeMap::new();
    let mut ts = TextState::default();
    let first = chunk_of(vec![choice(call_delta(12, None, None, Some("{")), None)]);
    let (events, _) = chunk_to_events(&first, &mut state, &mut ts.accum, &mut ts.announced, "c1");
    assert_eq!(events, vec![input_delta("tool_12", "{")]);

    let second = chunk_of(vec![choice(
        call_delta(12, None, Some("f"), Some("}")),
        Some("tool_calls"),
    )]);
    let (events, reason) =
        chunk_to_events(&second, &mut state, &mut ts.accum, &mut ts.announced, "c1");
    assert_eq!(reason.as_deref(), Some("tool_calls"));
    assert_eq!(
        events,
        vec![
            ResponseEvent::OutputItemAdded(function_call("f", "", "tool_12")),
            input_delta("tool_12", "}"),
            ResponseEvent::OutputItemDone(function_call("f", "{}", "tool_12")),
        ]
    );
}

#[test]
fn calls_are_closed_in_the_order_of_their_indices_and_once() {
    let mut state = BTreeMap::new();
    let mut ts = TextState::default();
    let chunk = chunk_of(vec![
        choice(call_delta(7, Some("b"), Some("g"), Some("2")), None),
        choice(call_delta(3, Some("a"), Some("f"), Some("1")), Some("stop")),
    ]);
    let (events, _) = chunk_to_events(&chunk, &mut state, &mut ts.accum, &mut ts.announced, "c1");
    assert_eq!(
        events[4..],
        [
            ResponseEvent::OutputItemDone(function_call("f", "1", "a")),
            ResponseEvent::OutputItemDone(function_call("g", "2", "b")),
        ]
    );
    assert!(state.values().all(|accum| accum.announced && accum.finalized));
    let finish = Some("stop".to_string());
    let term = build_terminal_events(
        "c1",
        None,
        &finish,
        &mut state,
        &mut ts.accum,
        ts.announced,
        "c1",
    );
    assert_eq!(
        term,
        vec![ResponseEvent::Completed {
            response_id: "c1".to_string(),
            token_usage: None,
            end_turn: Some(true),
        }]
    );
}

#[test]
fn pending_calls_are_closed_at_the_end_and_unidentified_ones_are_not() {
    let accum = |id: Option<&str>, announced: bool, finalized: bool| ToolCallAccum {
        id: id.map(str::to_string),
        name: None,
        arguments: "x".to_string(),
        announced,
        finalized,
    };
    let mut state = BTreeMap::new();
    state.insert(0, accum(Some("a"), true, true));
    state.insert(1, accum(None, true, false));
    state.insert(2, accum(None, false, false));
    let mut text = "kept".to_string();
    let usage = Some(ChatUsage {
        prompt_tokens: 1,
        completion_tokens: 2,
        total_tokens: u64::MAX,
    });
    let term = build_terminal_events("r", usage, &None, &mut state, &mut text, false, "m");
    assert_eq!(
        term,
        vec![
            ResponseEvent::OutputItemDone(function_call("", "x", "tool_1")),
            ResponseEvent::Completed {
                response_id: "r".to_string(),
                token_usage: Some(TokenUsage {
                    input_tokens: 1,
                    cached_input_tokens: 0,
                    output_tokens: 2,
                    reasoning_output_tokens: 0,
                    total_tokens: -1,
                }),
                end_turn: Some(true),
            },
        ]
    );
    assert_eq!(text, "kept");
    assert!(!state[&2].finalized);
}

#[test]
fn an_announced_message_is_closed_even_where_its_text_was_taken() {
    let mut state = BTreeMap::new();
    let mut text = String::new();
    let term = build_terminal_events("r", None, &None, &mut state, &mut text, true, "m");
    assert_eq!(
        term[0],
        ResponseEvent::OutputItemDone(ResponseItem::Message {
            id: Some("m".to_string()),
            role: "assistant".to_string(),
            content: vec![ContentItem::OutputText {
                text: String::new()
            }],
            phase: None,
            internal_chat_message_metadata_passthrough: None,
        })
    );
    assert_eq!(term.len(), 2);
}
