use phi::anthropic::{claude_part, AnthropicMessagesProvider};
use phi::anthropic_stream::{
    messages_stream_step, parse_response, MessagesStreamState, MessagesStreamStep,
};
use phi::error::ProviderError;
use phi::json::{json_to_text, Json};
use phi::types::{
    AssistantDelta, Content, ContentPart, Document, GenerationConfig, ImageUrl, Message,
    ProviderRequest, ReasoningEffort, TokenUsage, ToolCall, ToolDefinition,
};
use serde_json::Value;

fn j(text: &str) -> Value {
    serde_json::from_str(text).unwrap()
}

fn to_value(j: &Json) -> Value {
    match j {
        Json::Null => Value::Null,
        Json::Bool(b) => Value::Bool(*b),
        Json::UInt(n) => Value::from(*n),
        Json::Str(s) => Value::String(s.clone()),
        Json::Raw(s) => serde_json::from_str(s).unwrap(),
        Json::Array(items) => Value::Array(items.iter().map(to_value).collect()),
        Json::Object(fields) => {
            let mut map = serde_json::Map::new();
            for (k, v) in fields {
                map.insert(k.clone(), to_value(v));
            }
            Value::Object(map)
        }
    }
}

fn from_value(v: &Value) -> Json {
    match v {
        Value::Null => Json::Null,
        Value::Bool(b) => Json::Bool(*b),
        Value::Number(n) => match n.as_u64() {
            Some(u) => Json::UInt(u),
            None => Json::Raw(n.to_string()),
        },
        Value::String(s) => Json::Str(s.clone()),
        Value::Array(items) => Json::Array(items.iter().map(from_value).collect()),
        Value::Object(map) => Json::Object(
            map.iter()
                .map(|(k, v)| (k.clone(), from_value(v)))
                .collect(),
        ),
    }
}

fn event(text: &str) -> Json {
    from_value(&j(text))
}

fn provider() -> AnthropicMessagesProvider {
    AnthropicMessagesProvider::with_base_url(
        "key".to_owned(),
        "https://example.com",
        "messages-model".to_owned(),
    )
    .unwrap()
}

fn request(messages: Vec<Message>, config: GenerationConfig) -> ProviderRequest {
    ProviderRequest {
        messages,
        tools: Vec::new(),
        config,
    }
}

#[test]
fn anthropic_debug_redacts_api_key_and_accepts_an_injected_http_client() {
    let provider = AnthropicMessagesProvider::new(
        "super-secret-anthropic-key".to_owned(),
        "model".to_owned(),
    )
    .unwrap();

    let debug = provider.debug_text();
    assert!(!debug.contains("super-secret-anthropic-key"));
    assert!(debug.contains("[REDACTED]"));
}

#[test]
fn maps_normalized_request_to_claude_messages() {
    let provider = provider();
    let mut assistant = Message::assistant(
        None,
        vec![ToolCall::new("toolu-1", "echo", r#"{"text": "hi"}"#)],
    );
    assistant.provider_state = Some(event(
        r#"[
            {"type": "thinking", "thinking": "call the echo tool", "signature": "signature-1"},
            {"type": "tool_use", "id": "toolu-1", "name": "echo", "input": {"text": "hi"}}
        ]"#,
    ));
    let request = ProviderRequest {
        messages: vec![
            Message::system("system"),
            Message::user("hello"),
            assistant,
            Message::tool_result("toolu-1", "hi", false),
        ],
        tools: vec![ToolDefinition {
            name: "echo".to_owned(),
            description: "echo".to_owned(),
            parameters: r#"{"type": "object"}"#.to_owned(),
        }],
        config: GenerationConfig {
            model: Some("request-model".to_owned()),
            max_tokens: Some(123),
            reasoning_effort: Some(ReasoningEffort::Max),
        },
    };

    let body = to_value(&provider.request_body(&request).unwrap());
    assert_eq!(body["model"], "request-model");
    assert_eq!(body["system"], "system");
    assert_eq!(body["thinking"]["type"], "adaptive");
    assert_eq!(body["max_tokens"], 123);
    assert_eq!(body["output_config"]["effort"], "max");
    assert_eq!(body["messages"][1]["content"][0]["type"], "thinking");
    assert_eq!(body["messages"][1]["content"][0]["signature"], "signature-1");
    assert_eq!(body["messages"][1]["content"][1]["type"], "tool_use");
    assert_eq!(body["messages"][2]["content"][0]["type"], "tool_result");
    assert_eq!(body["tools"][0]["input_schema"]["type"], "object");
}

#[test]
fn maps_pdf_documents_to_native_anthropic_blocks() {
    let provider = provider();
    let request = request(
        vec![Message::user_parts(vec![
            ContentPart::text("inspect"),
            ContentPart::document(Document {
                filename: "report.pdf".to_owned(),
                mime_type: "application/pdf".to_owned(),
                data: "data:application/pdf;base64,JVBERi10ZXN0".to_owned(),
            }),
        ])],
        GenerationConfig::default(),
    );

    let body = to_value(&provider.request_body(&request).unwrap());
    let document = &body["messages"][0]["content"][1];
    assert_eq!(document["type"], "document");
    assert_eq!(document["title"], "report.pdf");
    assert_eq!(document["source"]["type"], "base64");
    assert_eq!(document["source"]["media_type"], "application/pdf");
    assert_eq!(document["source"]["data"], "JVBERi10ZXN0");
}

#[test]
fn keeps_documents_outside_anthropic_tool_result_content() {
    let provider = provider();
    let assistant = Message::assistant(
        None,
        vec![
            ToolCall::new("call-1", "read", "{}"),
            ToolCall::new("call-2", "read", "{}"),
        ],
    );
    let first = Message::tool_result_content(
        "call-1".to_owned(),
        Content::parts(vec![
            ContentPart::text("first result"),
            ContentPart::image(ImageUrl::new("data:image/png;base64,cG5n")),
            ContentPart::document(Document {
                filename: "first.pdf".to_owned(),
                mime_type: "application/pdf".to_owned(),
                data: "data:application/pdf;base64,Zmlyc3Q=".to_owned(),
            }),
        ]),
        false,
        None,
    );
    let second = Message::tool_result_content(
        "call-2".to_owned(),
        Content::parts(vec![
            ContentPart::text("second result"),
            ContentPart::document(Document {
                filename: "second.pdf".to_owned(),
                mime_type: "application/pdf".to_owned(),
                data: "https://example.com/second.pdf".to_owned(),
            }),
        ]),
        false,
        None,
    );
    let request = request(vec![assistant, first, second], GenerationConfig::default());

    let body = to_value(&provider.request_body(&request).unwrap());
    let content = body["messages"][1]["content"].as_array().unwrap();
    assert_eq!(
        content
            .iter()
            .map(|block| block["type"].as_str().unwrap())
            .collect::<Vec<_>>(),
        vec!["tool_result", "tool_result", "document", "document"]
    );
    assert_eq!(content[0]["content"][0]["type"], "text");
    assert_eq!(content[0]["content"][1]["type"], "image");
    assert!(content[0]["content"]
        .as_array()
        .unwrap()
        .iter()
        .all(|part| part["type"] != "document"));
    assert_eq!(content[2]["title"], "first.pdf");
    assert_eq!(content[3]["source"]["type"], "url");
    assert_eq!(content[3]["source"]["url"], "https://example.com/second.pdf");
}

#[test]
fn normalized_assistant_fields_override_stale_anthropic_replay_blocks() {
    let provider = provider();
    let mut assistant = Message::assistant(
        Some(Content::text("hooked answer")),
        vec![ToolCall::new("hooked-call", "echo", r#"{"text": "hooked"}"#)],
    );
    assistant.provider_state = Some(event(
        r#"[
            {"type": "thinking", "thinking": "private reasoning", "signature": "signature-1"},
            {"type": "redacted_thinking", "data": "opaque-data"},
            {"type": "text", "text": "stale answer"},
            {"type": "tool_use", "id": "stale-call", "name": "stale-tool", "input": {"text": "stale"}}
        ]"#,
    ));
    let request = request(vec![assistant], GenerationConfig::default());

    let body = to_value(&provider.request_body(&request).unwrap());
    let content = body["messages"][0]["content"].as_array().unwrap();
    assert_eq!(content.len(), 4);
    assert_eq!(content[0]["type"], "thinking");
    assert_eq!(content[1], j(r#"{"type": "redacted_thinking", "data": "opaque-data"}"#));
    assert_eq!(content[2], j(r#"{"type": "text", "text": "hooked answer"}"#));
    assert_eq!(content[3]["type"], "tool_use");
    assert_eq!(content[3]["id"], "hooked-call");
    assert_eq!(content[3]["name"], "echo");
    assert_eq!(content[3]["input"], j(r#"{"text": "hooked"}"#));
}

#[test]
fn omits_claude_reasoning_fields_when_effort_is_unset() {
    let body = to_value(
        &provider()
            .request_body(&request(vec![Message::user("hello")], GenerationConfig::default()))
            .unwrap(),
    );
    assert!(body.get("thinking").is_none());
    assert!(body.get("output_config").is_none());
    assert_eq!(body["max_tokens"], 4096);
    assert_eq!(body["model"], "messages-model");
    assert_eq!(body["stream"], true);
    assert!(body.get("system").is_none());
    assert!(body.get("tools").is_none());
}

#[test]
fn explicitly_disables_claude_thinking_for_none_effort() {
    let config = GenerationConfig {
        reasoning_effort: Some(ReasoningEffort::Disabled),
        ..GenerationConfig::default()
    };
    let body = to_value(
        &provider()
            .request_body(&request(vec![Message::user("hello")], config))
            .unwrap(),
    );
    assert_eq!(body["thinking"]["type"], "disabled");
    assert!(body.get("output_config").is_none());
}

#[test]
fn maps_minimal_reasoning_effort_to_low_for_messages() {
    let config = GenerationConfig {
        reasoning_effort: Some(ReasoningEffort::Minimal),
        ..GenerationConfig::default()
    };
    let body = to_value(
        &provider()
            .request_body(&request(vec![Message::user("hello")], config))
            .unwrap(),
    );
    assert_eq!(body["thinking"]["type"], "adaptive");
    assert_eq!(body["output_config"]["effort"], "low");
}

#[test]
fn replays_thinking_blocks_for_ordinary_assistant_turns() {
    let parsed = parse_response(&event(
        r#"{"content": [
            {"type": "thinking", "thinking": "private reasoning", "signature": "signature-1"},
            {"type": "redacted_thinking", "data": "opaque-data"},
            {"type": "text", "text": "answer",
             "citations": [{"type": "opaque_citation", "value": "kept"}]}
        ]}"#,
    ))
    .unwrap();
    let request = request(
        vec![parsed.message.into_message(), Message::user("next")],
        GenerationConfig::default(),
    );

    let body = to_value(&provider().request_body(&request).unwrap());
    assert_eq!(body["messages"][0]["content"][0]["type"], "thinking");
    assert_eq!(body["messages"][0]["content"][0]["signature"], "signature-1");
    assert_eq!(
        body["messages"][0]["content"][1],
        j(r#"{"type": "redacted_thinking", "data": "opaque-data"}"#)
    );
    assert_eq!(body["messages"][0]["content"][2]["text"], "answer");
    assert_eq!(
        body["messages"][0]["content"][2]["citations"],
        j(r#"[{"type": "opaque_citation", "value": "kept"}]"#)
    );
}

#[test]
fn includes_claude_cache_tokens_in_input_context() {
    let parsed = parse_response(&event(
        r#"{
            "content": [{"type": "text", "text": "ok"}],
            "usage": {
                "input_tokens": 10,
                "cache_read_input_tokens": 70,
                "cache_creation_input_tokens": 20,
                "output_tokens": 5
            }
        }"#,
    ))
    .unwrap();

    assert_eq!(parsed.usage, Some(TokenUsage::new(100, 5, 90)));
}

#[test]
fn streamed_thinking_is_replayed_on_the_next_turn() {
    let mut state = MessagesStreamState::new();
    state.apply(&event(
        r#"{"type": "content_block_start", "index": 0, "content_block":
            {"type": "thinking", "thinking": "private reasoning", "signature": "signature-1"}}"#,
    ));
    state.apply(&event(
        r#"{"type": "content_block_start", "index": 1, "content_block":
            {"type": "text", "text": "answer"}}"#,
    ));
    let streamed = state.finish().unwrap();
    let request = request(
        vec![streamed.message.into_message(), Message::user("next")],
        GenerationConfig::default(),
    );
    let body = to_value(&provider().request_body(&request).unwrap());
    assert_eq!(body["messages"][0]["content"][0]["signature"], "signature-1");
    assert_eq!(body["messages"][0]["content"][1]["text"], "answer");
    assert_eq!(body["messages"][0]["content"].as_array().unwrap().len(), 2);
}

#[test]
fn complete_responses_need_content_and_tool_identities() {
    assert_eq!(
        parse_response(&event(r#"{"content": "text"}"#)).unwrap_err(),
        ProviderError::InvalidResponse("content is not an array".to_owned())
    );
    assert_eq!(
        parse_response(&event(r#"{"content": [{"type": "tool_use", "name": "n"}]}"#)).unwrap_err(),
        ProviderError::InvalidResponse("missing tool id".to_owned())
    );
    assert_eq!(
        parse_response(&event(r#"{"content": [{"type": "tool_use", "id": "i"}]}"#)).unwrap_err(),
        ProviderError::InvalidResponse("missing tool name".to_owned())
    );
    assert_eq!(
        parse_response(&event(r#"{"content": [{"type": "thinking", "thinking": "t"}]}"#))
            .unwrap_err(),
        ProviderError::InvalidResponse("response contains neither text nor tool use".to_owned())
    );
    let parsed = parse_response(&event(
        r#"{"content": [{"type": "tool_use", "id": "i", "name": "n", "input": {"b": [2]}}],
            "usage": {"input_tokens": 3}}"#,
    ))
    .unwrap();
    assert_eq!(parsed.message.tool_calls, vec![ToolCall::new("i", "n", r#"{"b":[2]}"#)]);
    assert!(parsed.usage.is_none());
    assert!(parsed.message.content.is_none());
    assert!(parsed.message.provider_state.is_none());
}

#[test]
fn assembles_claude_content_block_stream() {
    let mut state = MessagesStreamState::new();
    state.apply(&event(
        r#"{"type": "message_start", "message": {"usage": {
            "input_tokens": 10, "cache_read_input_tokens": 20, "output_tokens": 1
        }}}"#,
    ));
    state.apply(&event(
        r#"{"type": "content_block_start", "index": 0,
            "content_block": {"type": "thinking", "thinking": "", "signature": ""}}"#,
    ));
    let reasoning_delta = state.apply(&event(
        r#"{"type": "content_block_delta", "index": 0,
            "delta": {"type": "thinking_delta", "thinking": "use echo"}}"#,
    ));
    assert_eq!(
        reasoning_delta,
        vec![AssistantDelta::Reasoning {
            delta: "use echo".to_owned()
        }]
    );
    state.apply(&event(
        r#"{"type": "content_block_delta", "index": 0,
            "delta": {"type": "signature_delta", "signature": "signature-1"}}"#,
    ));
    state.apply(&event(
        r#"{"type": "content_block_start", "index": 1,
            "content_block": {"type": "tool_use", "id": "tool-1", "name": "echo", "input": {}}}"#,
    ));
    state.apply(&event(
        r#"{"type": "content_block_delta", "index": 1,
            "delta": {"type": "input_json_delta", "partial_json": "{\"text\":"}}"#,
    ));
    state.apply(&event(
        r#"{"type": "content_block_delta", "index": 1,
            "delta": {"type": "input_json_delta", "partial_json": "\"hi\"}"}}"#,
    ));
    state.apply(&event(r#"{"type": "message_delta", "usage": {"output_tokens": 5}}"#));

    let response = state.finish().unwrap();
    assert_eq!(response.message.reasoning.as_deref(), Some("use echo"));
    assert_eq!(
        j(&response.message.tool_calls[0].arguments),
        j(r#"{"text": "hi"}"#)
    );
    let content = match &response.message.provider_state {
        Some(state) => to_value(state),
        None => panic!("missing Messages reasoning state"),
    };
    assert_eq!(content[0]["thinking"], "use echo");
    assert_eq!(content[0]["signature"], "signature-1");
    assert_eq!(content[1]["input"], j(r#"{"text": "hi"}"#));
    assert_eq!(response.usage, Some(TokenUsage::new(30, 5, 20)));
}

#[test]
fn stream_deltas_forward_text_and_tool_fragments() {
    let mut state = MessagesStreamState::new();
    let started = state.apply(&event(
        r#"{"type": "content_block_start", "index": 0,
            "content_block": {"type": "tool_use", "id": "t", "name": "n", "input": {"a": 1}}}"#,
    ));
    assert_eq!(
        started,
        vec![AssistantDelta::ToolCall {
            index: 0,
            id: Some("t".to_owned()),
            name: Some("n".to_owned()),
            arguments_delta: r#"{"a":1}"#.to_owned(),
        }]
    );
    let text = state.apply(&event(
        r#"{"type": "content_block_delta", "index": 1, "delta": {"type": "text_delta", "text": "hi"}}"#,
    ));
    assert_eq!(text, vec![AssistantDelta::Text { delta: "hi".to_owned() }]);
    assert!(state
        .apply(&event(r#"{"type": "ping"}"#))
        .is_empty());
    let response = state.finish().unwrap();
    assert_eq!(response.message.content, Some(Content::Text("hi".to_owned())));
    assert_eq!(j(&response.message.tool_calls[0].arguments), j(r#"{"a": 1}"#));
    assert!(response.message.provider_state.is_none());
    assert!(response.usage.is_none());
}

#[test]
fn empty_or_malformed_streams_fail() {
    let empty = MessagesStreamState::new().finish().unwrap_err();
    assert_eq!(
        empty,
        ProviderError::InvalidResponse(
            "Messages stream contains neither text nor tool use".to_owned()
        )
    );

    let mut state = MessagesStreamState::new();
    state.apply(&event(
        r#"{"type": "content_block_start", "index": 0,
            "content_block": {"type": "tool_use", "id": "t", "name": "n", "input": {}}}"#,
    ));
    state.apply(&event(
        r#"{"type": "content_block_delta", "index": 0,
            "delta": {"type": "input_json_delta", "partial_json": "{not json"}}"#,
    ));
    match state.finish().unwrap_err() {
        ProviderError::InvalidResponse(message) => {
            assert!(message.starts_with("invalid tool arguments: "))
        }
        other => panic!("unexpected error {other:?}"),
    }
}

#[test]
fn blank_tool_input_becomes_an_empty_object() {
    let mut state = MessagesStreamState::new();
    state.apply(&event(
        r#"{"type": "content_block_start", "index": 3,
            "content_block": {"type": "tool_use", "id": "t", "name": "n", "input": {}}}"#,
    ));
    let response = state.finish().unwrap();
    assert_eq!(response.message.tool_calls[0].arguments, "{}");
    assert!(response.message.content.is_none());
}

#[test]
fn tool_results_lead_the_user_turn_they_join() {
    let request = request(
        vec![
            Message::user("question"),
            Message::tool_result("call-1", "answer", true),
        ],
        GenerationConfig::default(),
    );
    let body = to_value(&provider().request_body(&request).unwrap());
    let content = body["messages"][0]["content"].as_array().unwrap();
    assert_eq!(body["messages"].as_array().unwrap().len(), 1);
    assert_eq!(content[0]["type"], "tool_result");
    assert_eq!(content[0]["tool_use_id"], "call-1");
    assert_eq!(content[0]["is_error"], true);
    assert_eq!(content[0]["content"], "answer");
    assert_eq!(content[1]["type"], "text");
}

#[test]
fn rejects_content_that_cannot_be_sent() {
    let bad_image = request(
        vec![Message::user_parts(vec![ContentPart::image(ImageUrl::new(
            "data:image/png,abc",
        ))])],
        GenerationConfig::default(),
    );
    assert_eq!(
        provider().request_body(&bad_image).unwrap_err(),
        ProviderError::InvalidRequest("invalid base64 image data URL".to_owned())
    );
    let bad_document = ContentPart::document(Document {
        filename: "a.pdf".to_owned(),
        mime_type: "application/pdf".to_owned(),
        data: "data:application/pdf,abc".to_owned(),
    });
    assert_eq!(
        claude_part(&bad_document).unwrap_err(),
        ProviderError::InvalidRequest("invalid base64 document data URL".to_owned())
    );
    let image_system = request(
        vec![Message {
            role: phi::types::Role::System,
            ..Message::user_parts(vec![ContentPart::image(ImageUrl::new("https://x/y.png"))])
        }],
        GenerationConfig::default(),
    );
    assert_eq!(
        provider().request_body(&image_system).unwrap_err(),
        ProviderError::InvalidRequest("system message cannot contain images".to_owned())
    );
}

#[test]
fn validates_configuration_and_builds_the_endpoint() {
    assert_eq!(
        AnthropicMessagesProvider::new(" ".to_owned(), "m".to_owned()).err().unwrap(),
        ProviderError::MissingApiKey
    );
    assert_eq!(
        AnthropicMessagesProvider::new("k".to_owned(), "".to_owned()).err().unwrap(),
        ProviderError::InvalidConfiguration("base URL and model must not be empty".to_owned())
    );
    let public = AnthropicMessagesProvider::new("k".to_owned(), "m".to_owned()).unwrap();
    assert_eq!(public.endpoint(), "https://api.anthropic.com/v1/messages");
    assert_eq!(public.anthropic_version(), "2023-06-01");
    let custom = AnthropicMessagesProvider::with_base_url(
        "k".to_owned(),
        "https://proxy.example//",
        "m".to_owned(),
    )
    .unwrap();
    assert_eq!(custom.base_url(), "https://proxy.example");
    assert_eq!(custom.endpoint(), "https://proxy.example/v1/messages");
}

#[test]
fn extra_body_members_override_generated_ones() {
    let configured = provider()
        .extra_body(from_value(&j(r#"{"max_tokens": 7, "metadata": {"user_id": "u"}}"#)))
        .unwrap();
    let body = to_value(
        &configured
            .request_body(&request(vec![Message::user("hi")], GenerationConfig::default()))
            .unwrap(),
    );
    assert_eq!(body["max_tokens"], 7);
    assert_eq!(body["metadata"]["user_id"], "u");
    assert!(provider()
        .extra_body(from_value(&j("[1]")))
        .is_err());
}

#[test]
fn json_text_matches_serde_compact_output() {
    let value = j(r#"{"a": [1, true, null, "q\"\\\n\u0001é"], "b": {}}"#);
    assert_eq!(json_to_text(&from_value(&value)), value.to_string());
}

#[test]
fn messages_stream_steps_stop_fail_or_apply() {
    let mut state = MessagesStreamState::new();
    match messages_stream_step(
        &mut state,
        &event(r#"{"type": "content_block_start", "index": 0, "content_block": {"type": "text", "text": "hi"}}"#),
    ) {
        Ok(MessagesStreamStep::Deltas(deltas)) => assert_eq!(
            deltas,
            vec![AssistantDelta::Text {
                delta: "hi".to_owned()
            }]
        ),
        _ => panic!("expected deltas"),
    }
    assert!(matches!(
        messages_stream_step(&mut state, &event(r#"{"type": "message_stop"}"#)),
        Ok(MessagesStreamStep::Stopped)
    ));
    match messages_stream_step(
        &mut state,
        &event(r#"{"type": "error", "error": {"type": "overloaded_error", "message": "busy"}}"#),
    ) {
        Err(ProviderError::InvalidResponse(message)) => {
            assert_eq!(message, r#"{"message":"busy","type":"overloaded_error"}"#)
        }
        _ => panic!("expected a stream failure"),
    }
    let response = state.finish().unwrap();
    assert_eq!(response.message.content, Some(Content::Text("hi".to_owned())));
}
