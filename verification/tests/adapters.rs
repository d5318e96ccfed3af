use phi::chat::{
    check_stream_end, normalize_chat_usage, ChatChoiceDelta, ChatChunk, ChatStreamState,
    ChatToolDelta, ChatUsageReport, OpenAiChatProvider,
};
use phi::error::ProviderError;
use phi::json::Json;
use phi::mcp::{
    format_tool_result, tool_definition, McpContentBlock, McpStdioConfig, McpToolResult,
    RemoteTool,
};
use phi::retry::{retry_kind, RetryKind};
use phi::tool::ToolPolicy;
use phi::types::{
    AssistantDelta, Content, ContentPart, Document, GenerationConfig, ImageDetail, ImageUrl, Message,
    ProviderRequest, ReasoningEffort, TokenUsage, ToolCall, ToolDefinition,
};
use serde_json::Value;

fn j(text: &str) -> Value {
    serde_json::from_str(text).unwrap()
}

fn to_value(j: &Json) -> Value {
    match j {
        Json::Null => Value::Null,
        Json::Bool(b) => Value::Bool(*b),
        Json::UInt(n) => Value::from(*n),
        Json::Str(s) => Value::String(s.clone()),
        Json::Raw(s) => serde_json::from_str(s).unwrap(),
        Json::Array(items) => Value::Array(items.iter().map(to_value).collect()),
        Json::Object(fields) => {
            let mut map = serde_json::Map::new();
            for (k, v) in fields {
                map.insert(k.clone(), to_value(v));
            }
            Value::Object(map)
        }
    }
}

fn from_value(v: &Value) -> Json {
    match v {
        Value::Null => Json::Null,
        Value::Bool(b) => Json::Bool(*b),
        Value::Number(n) => match n.as_u64() {
            Some(u) => Json::UInt(u),
            None => Json::Raw(n.to_string()),
        },
        Value::String(s) => Json::Str(s.clone()),
        Value::Array(items) => Json::Array(items.iter().map(from_value).collect()),
        Value::Object(map) => Json::Object(
            map.iter()
                .map(|(k, v)| (k.clone(), from_value(v)))
                .collect(),
        ),
    }
}

fn provider() -> OpenAiChatProvider {
    OpenAiChatProvider::new("key".to_owned(), "https://example.com/v1", "model".to_owned()).unwrap()
}

fn choice() -> ChatChoiceDelta {
    ChatChoiceDelta {
        finish_reason: None,
        content: None,
        reasoning: None,
        reasoning_content: None,
        reasoning_details: None,
        tool_calls: Vec::new(),
    }
}

#[test]
fn maps_normalized_request_to_chat_completions() {
    let provider = provider()
        .extra_body(from_value(&j(
            r#"{"chat_template_kwargs": {"enable_thinking": true}, "model": "gateway-model"}"#,
        )))
        .unwrap();
    let mut assistant = Message::assistant(None, vec![ToolCall::new("call-1", "echo", "{\"text\":\"hi\"}")]);
    assistant.provider_state = Some(from_value(&j(
        r#"{"reasoning_content": "think first", "reasoning_details": [{"type": "reasoning.text", "text": "think first"}]}"#,
    )));
    let request = ProviderRequest {
        messages: vec![
            Message::system("system"),
            Message::user_parts(vec![
                ContentPart::text("look"),
                ContentPart::image(
                    ImageUrl::new("https://example.com/a.png").with_detail(ImageDetail::High),
                ),
            ]),
            assistant,
            Message::tool_result("call-1", "hi", false),
        ],
        tools: vec![ToolDefinition {
            name: "echo".to_owned(),
            description: "echo".to_owned(),
            parameters: "{\"type\":\"object\"}".to_owned(),
        }],
        config: GenerationConfig {
            model: None,
            max_tokens: Some(100),
            reasoning_effort: Some(ReasoningEffort::High),
        },
    };

    let body = to_value(&provider.request_body(&request));
    assert_eq!(body["model"], "gateway-model");
    assert_eq!(body["chat_template_kwargs"]["enable_thinking"], true);
    assert_eq!(body["max_completion_tokens"], 100);
    assert_eq!(body["reasoning_effort"], "high");
    assert!(body.get("max_tokens").is_none());
    assert_eq!(body["messages"][1]["content"][1]["type"], "image_url");
    assert_eq!(body["messages"][1]["content"][1]["image_url"]["detail"], "high");
    assert_eq!(
        body["messages"][2]["tool_calls"][0]["function"]["arguments"],
        r#"{"text":"hi"}"#
    );
    assert_eq!(body["messages"][2]["reasoning_content"], "think first");
    assert_eq!(body["messages"][2]["reasoning_details"][0]["type"], "reasoning.text");
    assert_eq!(body["tools"][0]["function"]["parameters"]["type"], "object");
    assert_eq!(body["stream"], true);
    assert_eq!(body["stream_options"]["include_usage"], true);
}

#[test]
fn maps_chat_files_and_hoists_tool_attachments_to_a_user_message() {
    let provider = provider();
    let inline_document = Document {
        filename: "inline.pdf".to_owned(),
        mime_type: "application/pdf".to_owned(),
        data: "data:application/pdf;base64,aW5saW5lLXBkZi1jb250ZW50cw==".to_owned(),
    };
    let private_tool_document = Document {
        filename: "private.pdf".to_owned(),
        mime_type: "application/pdf".to_owned(),
        data: "data:application/pdf;base64,cHJpdmF0ZS1wZGYtY29udGVudHM=".to_owned(),
    };
    let request = ProviderRequest {
        messages: vec![
            Message::user_parts(vec![
                ContentPart::text("inspect"),
                ContentPart::document(inline_document),
                ContentPart::document(Document {
                    filename: "remote.pdf".to_owned(),
                    mime_type: "application/pdf".to_owned(),
                    data: "https://example.com/remote.pdf".to_owned(),
                }),
            ]),
            Message::assistant(None, vec![ToolCall::new("call-1", "read", "{}")]),
            Message::tool_result_content(
                "call-1".to_owned(),
                Content::parts(vec![
                    ContentPart::text("tool summary"),
                    ContentPart::image(ImageUrl::new("data:image/png;base64,c2VjcmV0")),
                    ContentPart::document(private_tool_document),
                ]),
                false,
                None,
            ),
        ],
        tools: Vec::new(),
        config: GenerationConfig::default(),
    };

    let body = to_value(&provider.request_body(&request));
    assert_eq!(body["messages"][0]["content"][1]["type"], "file");
    assert_eq!(body["messages"][0]["content"][1]["file"]["filename"], "inline.pdf");
    assert_eq!(
        body["messages"][0]["content"][1]["file"]["file_data"],
        "data:application/pdf;base64,aW5saW5lLXBkZi1jb250ZW50cw=="
    );
    assert_eq!(body["messages"][0]["content"][2]["type"], "text");
    assert!(body["messages"][0]["content"][2]["text"]
        .as_str()
        .unwrap()
        .contains("remote.pdf"));
    let tool_content = body["messages"][2]["content"].as_str().unwrap();
    assert_eq!(tool_content, "tool summary");
    assert_eq!(body["messages"][3]["role"], "user");
    assert_eq!(body["messages"][3]["content"][1]["type"], "image_url");
    assert_eq!(
        body["messages"][3]["content"][1]["image_url"]["url"],
        "data:image/png;base64,c2VjcmV0"
    );
    assert_eq!(body["messages"][3]["content"][2]["type"], "file");
    assert_eq!(body["messages"][3]["content"][2]["file"]["filename"], "private.pdf");
    assert_eq!(
        body["messages"][3]["content"][0]["text"],
        "Attachments returned by tool call call-1:\n"
    );
    let serialized = body.to_string();
    assert!(serialized.contains("c2VjcmV0"));
    assert!(serialized.contains("cHJpdmF0ZS1wZGYtY29udGVudHM="));
    assert!(!serialized.contains("https://example.com/remote.pdf"));
}

#[test]
fn rejects_non_object_extra_body() {
    let error = provider()
        .extra_body(from_value(&j(r#"["not", "an", "object"]"#)))
        .err().unwrap();

    assert!(matches!(error, ProviderError::InvalidConfiguration(_)));
}

#[test]
fn openai_chat_debug_redacts_api_key_and_accepts_an_injected_http_client() {
    let provider = OpenAiChatProvider::new(
        "super-secret-openai-key".to_owned(),
        "https://example.com/v1",
        "model".to_owned(),
    )
    .unwrap();

    let debug = provider.debug_text();
    assert!(!debug.contains("super-secret-openai-key"));
    assert!(debug.contains("[REDACTED]"));
}

#[test]
fn validates_credentials_and_normalizes_the_base_url() {
    assert_eq!(
        OpenAiChatProvider::new(" ".to_owned(), "https://example.com", "m".to_owned()).err().unwrap(),
        ProviderError::MissingApiKey
    );
    assert_eq!(
        OpenAiChatProvider::new("k".to_owned(), "https://example.com", " ".to_owned()).err().unwrap(),
        ProviderError::InvalidConfiguration("base URL and model must not be empty".to_owned())
    );
    let p = OpenAiChatProvider::new("k".to_owned(), "https://example.com/v1//", "m".to_owned())
        .unwrap();
    assert_eq!(p.base_url(), "https://example.com/v1");
    assert_eq!(p.endpoint(), "https://example.com/v1/chat/completions");
    assert_eq!(p.max_retries(3).retry_settings().max_retries(), 3);
}

#[test]
fn request_model_override_takes_precedence_over_provider_model() {
    let provider =
        OpenAiChatProvider::new("key".to_owned(), "https://example.com/v1", "default-model".to_owned())
            .unwrap();
    let request = ProviderRequest {
        messages: vec![Message::user("hello")],
        tools: Vec::new(),
        config: GenerationConfig {
            model: Some("request-model".to_owned()),
            ..GenerationConfig::default()
        },
    };

    assert_eq!(to_value(&provider.request_body(&request))["model"], "request-model");
    let plain = ProviderRequest {
        messages: vec![Message::user("hello")],
        tools: Vec::new(),
        config: GenerationConfig {
            max_tokens: Some(7),
            ..GenerationConfig::default()
        },
    };
    let body = to_value(&provider.request_body(&plain));
    assert_eq!(body["model"], "default-model");
    assert_eq!(body["max_tokens"], 7);
    assert!(body.get("tools").is_none());
}

#[test]
fn normalizes_chat_token_usage() {
    let usage = normalize_chat_usage(ChatUsageReport {
        prompt_tokens: 80,
        completion_tokens: 20,
        total_tokens: Some(100),
        cached_tokens: Some(30),
    });
    assert_eq!(usage, TokenUsage::with_total(80, 20, 100, 30));
    let derived = normalize_chat_usage(ChatUsageReport {
        prompt_tokens: u64::MAX,
        completion_tokens: 1,
        total_tokens: None,
        cached_tokens: None,
    });
    assert_eq!(derived.total_tokens, u64::MAX);
    assert_eq!(derived.cached_input_tokens, 0);
}

#[test]
fn replays_reasoning_content_for_ordinary_assistant_turns() {
    let provider = provider();
    let mut state = ChatStreamState::new();
    state.apply(&ChatChunk {
        usage: None,
        choices: vec![ChatChoiceDelta {
            content: Some("answer".to_owned()),
            reasoning_content: Some("private reasoning".to_owned()),
            finish_reason: Some("stop".to_owned()),
            ..choice()
        }],
    });
    let parsed = state.finish().unwrap();
    let mut message = Message::assistant(parsed.message.content, parsed.message.tool_calls);
    message.provider_state = parsed.message.provider_state;
    let request = ProviderRequest {
        messages: vec![message, Message::user("next")],
        tools: Vec::new(),
        config: GenerationConfig::default(),
    };

    let body = to_value(&provider.request_body(&request));
    assert_eq!(body["messages"][0]["reasoning_content"], "private reasoning");
    assert_eq!(body["messages"][0]["content"], "answer");
}

#[test]
fn assembles_streamed_text_tool_arguments_and_usage() {
    let mut state = ChatStreamState::new();
    let deltas = state.apply(&ChatChunk {
        usage: None,
        choices: vec![ChatChoiceDelta {
            content: Some("hello".to_owned()),
            reasoning_content: Some("think ".to_owned()),
            reasoning_details: Some(vec![
                j(r#"{"type": "reasoning.text", "text": "think ", "index": 0}"#).to_string(),
            ]),
            ..choice()
        }],
    });
    assert_eq!(
        deltas,
        vec![AssistantDelta::Text {
            delta: "hello".to_owned()
        }]
    );
    state.apply(&ChatChunk {
        usage: None,
        choices: vec![ChatChoiceDelta {
            reasoning_content: Some("before tool".to_owned()),
            reasoning_details: Some(vec![j(r#"{"type": "reasoning.text", "text": "before tool", "index": 0}"#).to_string()]),
            tool_calls: vec![ChatToolDelta {
                index: Some(0),
                id: Some("call-1".to_owned()),
                name: Some("echo".to_owned()),
                arguments: Some("{\"text\":".to_owned()),
            }],
            ..choice()
        }],
    });
    state.apply(&ChatChunk {
        usage: Some(ChatUsageReport {
            prompt_tokens: 10,
            completion_tokens: 5,
            total_tokens: Some(15),
            cached_tokens: None,
        }),
        choices: vec![ChatChoiceDelta {
            tool_calls: vec![ChatToolDelta {
                index: Some(0),
                id: None,
                name: None,
                arguments: Some("\"hi\"}".to_owned()),
            }],
            ..choice()
        }],
    });

    assert!(check_stream_end(false, &state).is_err());
    assert!(check_stream_end(true, &state).is_ok());
    let response = state.finish().unwrap();
    assert_eq!(response.message.content, Some(Content::text("hello")));
    let arguments: Value = serde_json::from_str(&response.message.tool_calls[0].arguments).unwrap();
    assert_eq!(arguments, j(r#"{"text": "hi"}"#));
    let fields: Value = to_value(response.message.provider_state.as_ref().unwrap());
    assert_eq!(fields["reasoning_content"], "think before tool");
    assert_eq!(fields["reasoning_details"].as_array().unwrap().len(), 2);
    assert_eq!(response.usage.unwrap().total_tokens, 15);
}

#[test]
fn tool_fragments_are_ordered_by_index_and_invalid_arguments_fail() {
    let mut state = ChatStreamState::new();
    let deltas = state.apply(&ChatChunk {
        usage: None,
        choices: vec![ChatChoiceDelta {
            finish_reason: Some("tool_calls".to_owned()),
            tool_calls: vec![
                ChatToolDelta {
                    index: Some(2),
                    id: Some("b".to_owned()),
                    name: Some("second".to_owned()),
                    arguments: Some("  ".to_owned()),
                },
                ChatToolDelta {
                    index: None,
                    id: Some("a".to_owned()),
                    name: Some("first".to_owned()),
                    arguments: Some("{not json".to_owned()),
                },
            ],
            ..choice()
        }],
    });
    assert_eq!(deltas.len(), 2);
    assert!(check_stream_end(false, &state).is_ok());
    match state.finish() {
        Err(ProviderError::InvalidResponse(message)) => {
            assert!(message.starts_with("invalid tool arguments: "))
        }
        other => panic!("unexpected: {other:?}"),
    }

    let empty = ChatStreamState::new();
    assert_eq!(
        empty.finish(),
        Err(ProviderError::InvalidResponse(
            "chat stream contains neither content nor tool calls".to_owned()
        ))
    );
}

#[test]
fn prefixes_remote_tool_names() {
    let remote = RemoteTool {
        name: "echo".to_owned(),
        description: Some("Echo text".to_owned()),
        input_schema: "{}".to_owned(),
    };
    let (remote_name, definition) = tool_definition(&remote, Some("demo"));

    assert_eq!(remote_name, "echo");
    assert_eq!(definition.name, "demo__echo");
    assert_eq!(definition.description, "Echo text");
    assert_eq!(serde_json::from_str::<Value>(&definition.parameters).unwrap(), j("{}"));
}

#[test]
fn preserves_tool_level_errors_and_structured_content() {
    let result = McpToolResult {
        is_error: Some(true),
        content: vec![McpContentBlock::Text("lookup failed".to_owned())],
        structured_content: Some(j(r#"{"code": "NOT_FOUND"}"#).to_string()),
    };

    let output = format_tool_result(result, 100, 10_000);

    assert!(output.is_error);
    assert!(output.content.contains("lookup failed"));
    assert!(output.content.contains("NOT_FOUND"));
    assert_eq!(
        serde_json::from_str::<Value>(output.metadata.as_ref().unwrap()).unwrap(),
        j(r#"{"mcp_structured_content": {"code": "NOT_FOUND"}}"#)
    );
}

#[test]
fn does_not_duplicate_equivalent_structured_json() {
    let structured = j(r#"{"value": 3}"#).to_string();
    let output = format_tool_result(
        McpToolResult {
            is_error: Some(false),
            content: vec![McpContentBlock::Text(structured.clone())],
            structured_content: Some(structured),
        },
        100,
        10_000,
    );

    assert_eq!(output.content.matches("\"value\"").count(), 1);
}

#[test]
fn bounds_structured_metadata_independently_of_the_text_fallback() {
    let structured = format!("{{\"value\":\"{}\"}}", "x".repeat(1_000));
    let output = format_tool_result(
        McpToolResult {
            is_error: Some(false),
            content: vec![McpContentBlock::Text(structured.clone())],
            structured_content: Some(structured),
        },
        100,
        64,
    );

    let metadata: Value = serde_json::from_str(output.metadata.as_ref().unwrap()).unwrap();
    assert_eq!(metadata["mcp_structured_content_truncated"], true);
    assert!(metadata["original_bytes"].as_u64().unwrap() > 64);
    assert!(output.content.len() < 256);
}

#[test]
fn preserves_images_as_rich_content_with_a_safe_text_fallback() {
    let output = format_tool_result(
        McpToolResult {
            is_error: None,
            content: vec![McpContentBlock::Image {
                mime_type: "image/png".to_owned(),
                data: "secret-base64".to_owned(),
            }],
            structured_content: None,
        },
        100,
        10_000,
    );

    assert!(output.content.contains("MCP image"));
    assert!(!output.content.contains("secret-base64"));
    assert_eq!(output.content_parts.len(), 1);
    assert_eq!(
        output.content_parts[0],
        ContentPart::image(ImageUrl::new("data:image/png;base64,secret-base64"))
    );
}

#[test]
fn environment_builder_accepts_multiple_values() {
    let config = McpStdioConfig::new("server").envs(vec![
        ("ONE".to_owned(), "1".to_owned()),
        ("TWO".to_owned(), "2".to_owned()),
    ]);

    assert_eq!(config.env.len(), 2);
}

#[test]
fn classifies_only_transient_statuses_as_retryable() {
    assert_eq!(retry_kind(403), RetryKind::Never);
    assert_eq!(retry_kind(404), RetryKind::Never);
    assert_eq!(retry_kind(400), RetryKind::Never);
    assert_eq!(retry_kind(429), RetryKind::RateLimit);
    assert_eq!(retry_kind(408), RetryKind::Exponential);
    assert_eq!(retry_kind(503), RetryKind::Exponential);
    assert_eq!(retry_kind(501), RetryKind::Never);
}

#[test]
fn mandatory_tools_bypass_name_policy_but_denies_win_for_ordinary_tools() {
    let policy = ToolPolicy::allow_only(vec!["read".to_owned(), "write".to_owned()])
        .with_denied_tools(vec!["write".to_owned()]);
    assert!(policy.allows("read", false));
    assert!(!policy.allows("write", false));
    assert!(!policy.allows("bash", false));
    assert!(policy.allows("bash", true));
}

#[test]
fn invalid_tool_arguments_truncates_long_raw_payloads() {
    let raw = "x".repeat(1_000);
    let error = ProviderError::invalid_tool_arguments(
        "id-1".to_owned(),
        "tool".to_owned(),
        &raw,
        "parse error".to_owned(),
        None,
    );
    let ProviderError::InvalidToolArguments(details) = &error else {
        panic!("expected InvalidToolArguments");
    };
    assert_eq!(
        details.raw_arguments.chars().count(),
        phi::error::MAX_RAW_ARGUMENT_SNIPPET_CHARS
    );
    assert!(details.raw_arguments.ends_with('…'));
    // The message used for logs and run-failure events never includes the
    // malformed payload itself.
    assert!(!error.describe().contains("xxxx"));
    assert_eq!(
        error.describe(),
        "invalid tool arguments for `tool`: parse error"
    );
}

#[test]
fn invalid_tool_arguments_is_never_a_context_length_error() {
    let error = ProviderError::invalid_tool_arguments(
        "id-1".to_owned(),
        "tool".to_owned(),
        "{}",
        "unexpected token: maximum context length reached".to_owned(),
        None,
    );
    assert!(!error.is_context_length_exceeded());
}
