use recodex::chat_request::{
    assistant_tool_call_message, flatten_namespaced_function, flatten_tools_for_chat,
    to_chat_completions_request, tool_to_function_definition, ChatCompletionRequest,
};
use recodex::json::{Json, JsonNumber};
use recodex::models::{
    ContentItem, FunctionCallOutputPayload, Reasoning, ReasoningEffort, ResponseItem,
};
use serde_json::Value;

fn convert(value: &Value) -> Json {
    match value {
        Value::Null => Json::Null,
        Value::Bool(b) => Json::Bool(*b),
        Value::Number(n) => Json::Number(match (n.as_u64(), n.as_i64(), n.as_f64()) {
            (Some(u), _, _) => JsonNumber::PosInt(u),
            (None, Some(i), _) => JsonNumber::NegInt(i),
            (None, None, Some(f)) => JsonNumber::Float(f.to_bits()),
            (None, None, None) => unreachable!(),
        }),
        Value::String(s) => Json::Str(s.clone()),
        Value::Array(items) => Json::Array(items.iter().map(convert).collect()),
        Value::Object(members) => Json::Object(
            members
                .iter()
                .map(|(name, member)| (name.clone(), convert(member)))
                .collect(),
        ),
    }
}

fn json(text: &str) -> Json {
    convert(&serde_json::from_str::<Value>(text).unwrap())
}

#[test]
fn test_convert_request_with_messages() {
    let input = vec![
        ResponseItem::Message {
            id: Some("msg1".to_string()),
            role: "user".to_string(),
            content: vec![ContentItem::InputText {
                text: "Hello, how are you?".to_string(),
            }],
            phase: None,
            internal_chat_message_metadata_passthrough: None,
        },
        ResponseItem::Message {
            id: Some("msg2".to_string()),
            role: "assistant".to_string(),
            content: vec![ContentItem::OutputText {
                text: "I'm doing well!".to_string(),
            }],
            phase: None,
            internal_chat_message_metadata_passthrough: None,
        },
    ];

    let request = to_chat_completions_request(
        "gpt-4",
        &input,
        "You are a helpful assistant.",
        &[],
        "auto",
        true,
        None,
        None,
        None,
    );

    assert_eq!(request.model, "gpt-4");
    assert_eq!(request.messages.len(), 3); // system + 2 messages
    assert_eq!(request.messages[0].role, "system");
    assert_eq!(request.messages[1].role, "user");
    assert_eq!(
        request.messages[1].content,
        Some("Hello, how are you?".to_string())
    );
    assert_eq!(request.messages[2].role, "assistant");
    assert_eq!(
        request.messages[2].content,
        Some("I'm doing well!".to_string())
    );
}

#[test]
fn test_convert_request_with_tools() {
    let input = vec![ResponseItem::Message {
        id: Some("msg1".to_string()),
        role: "user".to_string(),
        content: vec![ContentItem::InputText {
            text: "What's the weather?".to_string(),
        }],
        phase: None,
        internal_chat_message_metadata_passthrough: None,
    }];

    let tools = vec![json(
        r#"{
        "type": "function",
        "function": {
            "name": "get_weather",
            "description": "Get current weather",
            "parameters": {
                "type": "object",
                "properties": {
                    "location": {
                        "type": "string",
                        "description": "City name"
                    }
                },
                "required": ["location"]
            }
        }
    }"#,
    )];

    let request = to_chat_completions_request(
        "gpt-4", &input, "", &tools, "auto", true, None, None, None,
    );

    assert_eq!(request.tools.len(), 1);
    assert_eq!(request.tools[0].type_, "function");
    assert_eq!(request.tools[0].function.name, "get_weather");
}

#[test]
fn test_convert_request_parallel_tool_calls_enabled() {
    let input = vec![ResponseItem::Message {
        id: Some("msg1".to_string()),
        role: "user".to_string(),
        content: vec![ContentItem::InputText {
            text: "Check weather and time".to_string(),
        }],
        phase: None,
        internal_chat_message_metadata_passthrough: None,
    }];

    let request = to_chat_completions_request(
        "gpt-4",
        &input,
        "",
        &[],
        "auto",
        true, // parallel_tool_calls enabled
        None,
        None,
        None,
    );

    assert_eq!(request.parallel_tool_calls, Some(true));
}

#[test]
fn test_convert_request_parallel_tool_calls_disabled() {
    let input = vec![ResponseItem::Message {
        id: Some("msg1".to_string()),
        role: "user".to_string(),
        content: vec![ContentItem::InputText {
            text: "Check weather".to_string(),
        }],
        phase: None,
        internal_chat_message_metadata_passthrough: None,
    }];

    let request = to_chat_completions_request(
        "gpt-4",
        &input,
        "",
        &[],
        "auto",
        false, // parallel_tool_calls disabled
        None,
        None,
        None,
    );

    // `false` must be forwarded as Some(false) so the provider actually
    // disables parallel tool calls; the old `then_some(true)` collapsed it
    // to None, which providers treat as the default (enabled).
    assert_eq!(request.parallel_tool_calls, Some(false));
}

#[test]
fn test_convert_request_with_system_instructions() {
    let input = vec![ResponseItem::Message {
        id: Some("msg1".to_string()),
        role: "user".to_string(),
        content: vec![ContentItem::InputText {
            text: "Hello".to_string(),
        }],
        phase: None,
        internal_chat_message_metadata_passthrough: None,
    }];

    let request = to_chat_completions_request(
        "gpt-4",
        &input,
        "You are a helpful assistant with expertise in Rust.",
        &[],
        "auto",
        true,
        None,
        None,
        None,
    );

    // System instructions should be first message
    assert_eq!(request.messages.len(), 2);
    assert_eq!(request.messages[0].role, "system");
    assert_eq!(
        request.messages[0].content,
        Some("You are a helpful assistant with expertise in Rust.".to_string())
    );
    assert_eq!(request.messages[1].role, "user");
    assert_eq!(request.messages[1].content, Some("Hello".to_string()));
}

#[test]
fn test_convert_empty_request() {
    let input = vec![];

    let request =
        to_chat_completions_request("gpt-4", &input, "", &[], "auto", true, None, None, None);

    assert_eq!(request.model, "gpt-4");
    assert_eq!(request.messages.len(), 0);
}

#[test]
fn test_convert_request_with_reasoning() {
    let input = vec![ResponseItem::Message {
        id: Some("msg1".to_string()),
        role: "user".to_string(),
        content: vec![ContentItem::InputText {
            text: "Solve this problem".to_string(),
        }],
        phase: None,
        internal_chat_message_metadata_passthrough: None,
    }];

    let reasoning = Reasoning {
        effort: Some(ReasoningEffort::Medium),
        summary: None,
        context: None,
    };

    let request = to_chat_completions_request(
        "o1-preview",
        &input,
        "",
        &[],
        "auto",
        true,
        Some(reasoning),
        None,
        None,
    );

    // Reasoning effort must be propagated, not silently dropped.
    assert_eq!(request.reasoning_effort, Some(ReasoningEffort::Medium));
    let serialized = format!(
        "{{\"reasoning_effort\":\"{}\"}}",
        request.reasoning_effort.unwrap().wire_name()
    );
    assert!(serialized.contains("\"reasoning_effort\":\"medium\""));
}

#[test]
fn test_convert_request_with_service_tier_and_budget() {
    let input = vec![ResponseItem::Message {
        id: Some("msg1".to_string()),
        role: "user".to_string(),
        content: vec![ContentItem::InputText {
            text: "hi".to_string(),
        }],
        phase: None,
        internal_chat_message_metadata_passthrough: None,
    }];

    let request = to_chat_completions_request(
        "gpt-4",
        &input,
        "",
        &[],
        "auto",
        true,
        None,
        Some("flex"),
        Some(1024),
    );

    assert_eq!(request.service_tier.as_deref(), Some("flex"));
    assert_eq!(request.max_completion_tokens, Some(1024));
}

#[test]
fn test_function_call_maps_to_assistant_tool_call() {
    let input = vec![ResponseItem::FunctionCall {
        id: Some("fc_1".to_string()),
        name: "get_weather".to_string(),
        namespace: None,
        arguments: r#"{"location":"SF"}"#.to_string(),
        call_id: "call_abc".to_string(),
        internal_chat_message_metadata_passthrough: None,
    }];

    let request =
        to_chat_completions_request("gpt-4", &input, "", &[], "auto", true, None, None, None);

    assert_eq!(request.messages.len(), 1);
    let msg = &request.messages[0];
    assert_eq!(msg.role, "assistant");
    // tool_call_id is invalid on assistant messages (spec-forbidden).
    assert_eq!(msg.tool_call_id, None);
    let tool_calls = msg.tool_calls.as_ref().expect("tool_calls present");
    assert_eq!(tool_calls.len(), 1);
    // Correlation id must be the call_id, not the legacy optional id.
    assert_eq!(tool_calls[0].id, "call_abc");
    assert_eq!(tool_calls[0].function.name, "get_weather");
    assert_eq!(tool_calls[0].function.arguments, r#"{"location":"SF"}"#);
}

#[test]
fn test_custom_tool_call_maps_to_assistant_tool_call() {
    let input = vec![ResponseItem::CustomToolCall {
        id: Some("c_1".to_string()),
        status: None,
        call_id: "call_xyz".to_string(),
        name: "run_shell".to_string(),
        namespace: None,
        input: "{\"cmd\":\"ls\"}".to_string(),
        internal_chat_message_metadata_passthrough: None,
    }];

    let request =
        to_chat_completions_request("gpt-4", &input, "", &[], "auto", true, None, None, None);

    let msg = &request.messages[0];
    assert_eq!(msg.role, "assistant");
    let tc = msg.tool_calls.as_ref().unwrap().first().unwrap();
    assert_eq!(tc.id, "call_xyz");
    assert_eq!(tc.function.name, "run_shell");
    assert_eq!(tc.function.arguments, "{\"cmd\":\"ls\"}");
}

#[test]
fn test_tool_result_maps_to_tool_role_message() {
    let input = vec![ResponseItem::FunctionCallOutput {
        id: None,
        call_id: "call_abc".to_string(),
        output: FunctionCallOutputPayload::from_text("72F, sunny".to_string()),
        internal_chat_message_metadata_passthrough: None,
    }];

    let request =
        to_chat_completions_request("gpt-4", &input, "", &[], "auto", true, None, None, None);

    assert_eq!(request.messages.len(), 1);
    let msg = &request.messages[0];
    assert_eq!(msg.role, "tool");
    assert_eq!(msg.tool_call_id.as_deref(), Some("call_abc"));
    assert_eq!(msg.content.as_deref(), Some("72F, sunny"));
    assert!(msg.tool_calls.is_none());
}

#[test]
fn test_custom_tool_result_maps_to_tool_role_message() {
    let input = vec![ResponseItem::CustomToolCallOutput {
        id: None,
        call_id: "call_xyz".to_string(),
        name: Some("run_shell".to_string()),
        output: FunctionCallOutputPayload::from_text("done".to_string()),
        internal_chat_message_metadata_passthrough: None,
    }];

    let request =
        to_chat_completions_request("gpt-4", &input, "", &[], "auto", true, None, None, None);

    let msg = &request.messages[0];
    assert_eq!(msg.role, "tool");
    assert_eq!(msg.tool_call_id.as_deref(), Some("call_xyz"));
}

#[test]
fn test_tool_definition_from_internal_tool() {
    let internal_tool = json(
        r#"{
        "name": "search_files",
        "namespace": "filesystem",
        "description": "Search for files",
        "parameters": {
            "type": "object",
            "properties": {
                "pattern": {"type": "string"},
                "path": {"type": "string"}
            },
            "required": ["pattern"]
        }
    }"#,
    );

    let tool = tool_to_function_definition(&internal_tool);

    assert_eq!(tool.function.name, "search_files");
    assert_eq!(tool.function.description, "[filesystem] Search for files");
    // Check that parameters is an object with properties
    assert!(matches!(&tool.function.parameters, Json::Object(_)));
    if let Json::Object(members) = &tool.function.parameters {
        assert!(members.iter().any(|(name, _)| name == "properties"));
    }
}

#[test]
fn test_tool_definition_with_namespace() {
    let internal_tool = json(
        r#"{
        "name": "read_file",
        "namespace": "fs",
        "description": "Read a file",
        "parameters": {
            "type": "object",
            "properties": {
                "path": {"type": "string"}
            },
            "required": ["path"]
        }
    }"#,
    );

    let tool = tool_to_function_definition(&internal_tool);

    // Namespace is prefixed into the description; name is unmodified.
    assert_eq!(tool.function.name, "read_file");
    assert_eq!(tool.function.description, "[fs] Read a file");
}

#[test]
fn flatten_namespace_tools_into_flat_functions() {
    // A namespace container (as produced for an MCP server) must expand into
    // individual flat functions named `<namespace><tool>` for Chat Completions.
    let namespace = json(
        r#"{
        "type": "namespace",
        "name": "mcp__demo__",
        "description": "Demo tools",
        "tools": [
            {
                "type": "function",
                "name": "lookup_order",
                "description": "Look up an order",
                "parameters": {"type": "object"}
            },
            {
                "type": "function",
                "name": "cancel_order",
                "description": "Cancel an order",
                "parameters": {"type": "object"}
            }
        ]
    }"#,
    );
    let flat = json(
        r#"{
        "type": "function",
        "name": "exec_command",
        "description": "Run a command",
        "parameters": {"type": "object"}
    }"#,
    );

    let out = flatten_tools_for_chat(&[namespace, flat]);
    assert_eq!(out.len(), 3);
    assert_eq!(out[0].get_str("name"), Some("mcp__demo__lookup_order"));
    assert_eq!(out[1].get_str("name"), Some("mcp__demo__cancel_order"));
    assert_eq!(out[2].get_str("name"), Some("exec_command"));

    // Each flattened entry must round-trip through tool_to_function_definition.
    let chat_tool = tool_to_function_definition(&out[0]);
    assert_eq!(chat_tool.function.name, "mcp__demo__lookup_order");
}

fn request_for(input: &[ResponseItem], tools: &[Json], tool_choice: &str) -> ChatCompletionRequest {
    to_chat_completions_request("m", input, "", tools, tool_choice, true, None, None, None)
}

fn message(role: &str, content: Vec<ContentItem>) -> ResponseItem {
    ResponseItem::Message {
        id: None,
        role: role.to_string(),
        content,
        phase: None,
        internal_chat_message_metadata_passthrough: None,
    }
}

fn tool_result(call_id: &str, output: FunctionCallOutputPayload) -> ResponseItem {
    ResponseItem::FunctionCallOutput {
        id: None,
        call_id: call_id.to_string(),
        output,
        internal_chat_message_metadata_passthrough: None,
    }
}

#[test]
fn texts_of_a_message_are_joined_by_newlines() {
    let input = [message(
        "user",
        vec![
            ContentItem::InputText {
                text: "a".to_string(),
            },
            ContentItem::Other,
            ContentItem::OutputText {
                text: String::new(),
            },
            ContentItem::InputText {
                text: "b".to_string(),
            },
        ],
    )];
    let request = request_for(&input, &[], "auto");
    assert_eq!(request.messages[0].content.as_deref(), Some("a\n\nb"));
}

#[test]
fn a_message_without_text_has_no_content() {
    let empty_text = ContentItem::InputText {
        text: String::new(),
    };
    for content in [vec![], vec![ContentItem::Other], vec![empty_text]] {
        let request = request_for(&[message("user", content)], &[], "auto");
        assert_eq!(request.messages.len(), 1);
        assert_eq!(request.messages[0].content, None);
    }
}

#[test]
fn structured_results_are_reported_in_their_serialized_form() {
    let input = [
        tool_result(
            "c1",
            FunctionCallOutputPayload::Serialized("[{\"a\":1}]".to_string()),
        ),
        tool_result("c2", FunctionCallOutputPayload::Serialized(String::new())),
        tool_result("c3", FunctionCallOutputPayload::from_text(String::new())),
    ];
    let request = request_for(&input, &[], "auto");
    assert_eq!(request.messages[0].content.as_deref(), Some("[{\"a\":1}]"));
    assert_eq!(request.messages[1].content, None);
    assert_eq!(request.messages[2].content, None);
    assert_eq!(request.messages[2].tool_call_id.as_deref(), Some("c3"));
}

#[test]
fn items_without_a_message_form_are_left_out_and_order_is_kept() {
    let text = |t: &str| {
        vec![ContentItem::InputText {
            text: t.to_string(),
        }]
    };
    let input = [
        ResponseItem::Other,
        message("user", text("one")),
        ResponseItem::Other,
        message("assistant", text("two")),
    ];
    let request = request_for(&input, &[], "auto");
    let contents: Vec<Option<&str>> = request
        .messages
        .iter()
        .map(|m| m.content.as_deref())
        .collect();
    assert_eq!(contents, vec![Some("one"), Some("two")]);
}

#[test]
fn only_known_tool_choices_are_sent() {
    for choice in ["none", "auto", "required"] {
        let request = request_for(&[], &[], choice);
        assert_eq!(request.tool_choice.as_deref(), Some(choice));
    }
    for choice in ["", "any", "Auto", "get_weather"] {
        assert_eq!(request_for(&[], &[], choice).tool_choice, None);
    }
}

#[test]
fn fixed_fields_of_a_request() {
    let request = request_for(&[], &[], "auto");
    assert_eq!(request.stream, Some(true));
    assert!(request.stream_options.unwrap().include_usage);
    assert_eq!(request.max_tokens, None);
    assert_eq!(request.n, None);
    assert!(request.temperature.is_none());
    assert!(request.top_p.is_none());
    assert!(request.stop.is_none());
    assert_eq!(request.reasoning_effort, None);
    assert_eq!(request.service_tier, None);
    assert_eq!(request.max_completion_tokens, None);
    assert!(request.tools.is_empty());
}

#[test]
fn reasoning_without_effort_sends_none() {
    let reasoning = Reasoning {
        effort: None,
        summary: Some("auto".to_string()),
        context: Some("x".to_string()),
    };
    let request =
        to_chat_completions_request("m", &[], "", &[], "auto", true, Some(reasoning), None, None);
    assert_eq!(request.reasoning_effort, None);
}

#[test]
fn ultra_is_requested_as_max() {
    let requested = |effort: ReasoningEffort| {
        let reasoning = Reasoning {
            effort: Some(effort),
            summary: None,
            context: None,
        };
        to_chat_completions_request(
            "o1-preview",
            &[],
            "",
            &[],
            "auto",
            true,
            Some(reasoning),
            None,
            None,
        )
        .reasoning_effort
    };
    assert_eq!(requested(ReasoningEffort::Ultra), Some(ReasoningEffort::Max));
    for effort in [
        ReasoningEffort::NoReasoning,
        ReasoningEffort::Minimal,
        ReasoningEffort::Low,
        ReasoningEffort::Medium,
        ReasoningEffort::High,
        ReasoningEffort::XHigh,
        ReasoningEffort::Max,
    ] {
        assert_eq!(requested(effort), Some(effort));
    }
}

#[test]
fn efforts_have_their_wire_names() {
    let names = [
        (ReasoningEffort::NoReasoning, "none"),
        (ReasoningEffort::Minimal, "minimal"),
        (ReasoningEffort::Low, "low"),
        (ReasoningEffort::Medium, "medium"),
        (ReasoningEffort::High, "high"),
        (ReasoningEffort::XHigh, "xhigh"),
        (ReasoningEffort::Max, "max"),
        (ReasoningEffort::Ultra, "max"),
    ];
    for (effort, name) in names {
        assert_eq!(effort.wire_name(), name);
    }
    assert_eq!(ReasoningEffort::Ultra.normalized(), ReasoningEffort::Max);
    assert_eq!(ReasoningEffort::High.normalized(), ReasoningEffort::High);
}

#[test]
fn a_tool_call_message_has_exactly_one_call() {
    let made = assistant_tool_call_message("id", "f", "{}");
    assert_eq!(made.role, "assistant");
    assert_eq!(made.content, None);
    assert_eq!(made.tool_call_id, None);
    let calls = made.tool_calls.unwrap();
    assert_eq!(calls.len(), 1);
    assert_eq!(calls[0].id, "id");
    assert_eq!(calls[0].type_, "function");
    assert_eq!(calls[0].function.name, "f");
    assert_eq!(calls[0].function.arguments, "{}");
}

#[test]
fn a_tool_without_fields_becomes_an_empty_definition() {
    let tool = tool_to_function_definition(&json("{}"));
    assert_eq!(tool.type_, "function");
    assert_eq!(tool.function.name, "");
    assert_eq!(tool.function.description, "");
    assert!(matches!(&tool.function.parameters, Json::Object(m) if m.is_empty()));
}

#[test]
fn a_namespace_needs_a_description_to_stand_before() {
    let tool = tool_to_function_definition(&json(r#"{"name":"f","namespace":"n"}"#));
    assert_eq!(tool.function.description, "");
    let nested = json(
        r#"{"type":"function","function":{"name":"f","namespace":"n","description":"d"}}"#,
    );
    let tool = tool_to_function_definition(&nested);
    assert_eq!(tool.function.name, "f");
    assert_eq!(tool.function.description, "[n] d");
}

#[test]
fn members_of_another_kind_count_as_absent() {
    let tool = tool_to_function_definition(&json(r#"{"name":1,"description":[],"parameters":2}"#));
    assert_eq!(tool.function.name, "");
    assert_eq!(tool.function.description, "");
    assert!(matches!(
        tool.function.parameters,
        Json::Number(JsonNumber::PosInt(2))
    ));
}

#[test]
fn only_named_functions_of_a_namespace_are_flattened() {
    let namespace = json(
        r#"{"type":"namespace","name":"ns_","tools":[
            {"type":"custom","name":"a"},
            {"type":"function"},
            {"type":"function","name":"b"},
            {"name":"c"}
        ]}"#,
    );
    let out = flatten_tools_for_chat(&[namespace]);
    assert_eq!(out.len(), 1);
    assert_eq!(out[0].get_str("type"), Some("function"));
    assert_eq!(out[0].get_str("name"), Some("ns_b"));
    assert_eq!(out[0].get_str("description"), Some(""));
    assert!(matches!(out[0].get("parameters"), Some(Json::Object(m)) if m.is_empty()));
}

#[test]
fn a_namespace_without_a_list_of_tools_stays_as_it_is() {
    let out = flatten_tools_for_chat(&[
        json(r#"{"type":"namespace","name":"n"}"#),
        json(r#"{"type":"namespace","tools":{}}"#),
        json(r#"{"type":"namespace","tools":[{"type":"function","name":"f"}]}"#),
    ]);
    assert_eq!(out.len(), 3);
    assert_eq!(out[0].get_str("type"), Some("namespace"));
    assert_eq!(out[1].get_str("type"), Some("namespace"));
    assert_eq!(out[2].get_str("name"), Some("f"));
}

#[test]
fn a_namespaced_function_keeps_its_parameters() {
    let nested = json(
        r#"{"type":"function","name":"f","description":"d","parameters":{"type":"object","n":-1}}"#,
    );
    let flat = flatten_namespaced_function(&nested, "mcp__x__").unwrap();
    assert_eq!(flat.get_str("name"), Some("mcp__x__f"));
    assert_eq!(flat.get_str("description"), Some("d"));
    let parameters = flat.get("parameters").unwrap();
    assert_eq!(parameters.get_str("type"), Some("object"));
    assert!(matches!(
        parameters.get("n"),
        Some(Json::Number(JsonNumber::NegInt(-1)))
    ));
    let offered = tool_to_function_definition(&flat);
    assert_eq!(offered.function.name, "mcp__x__f");
    assert_eq!(offered.function.description, "d");
    assert!(flatten_namespaced_function(&json(r#"{"name":"f"}"#), "n").is_none());
}
