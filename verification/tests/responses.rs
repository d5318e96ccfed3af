use phi::error::ProviderError;
use phi::json::Json;
use phi::responses::{
    parse_response, response_delta, responses_stream_step, OpenAiResponsesProvider,
    ResponsesStreamStep,
};
use phi::types::{
    AssistantDelta, Content, ContentPart, Document, GenerationConfig, ImageDetail, ImageUrl, Message,
    ProviderRequest, ReasoningEffort, TokenUsage, ToolCall, ToolDefinition,
};
use serde_json::Value;

fn j(text: &str) -> Value {
    serde_json::from_str(text).unwrap()
}

fn to_value(j: &Json) -> Value {
    match j {
        Json::Null => Value::Null,
        Json::Bool(b) => Value::Bool(*b),
        Json::UInt(n) => Value::from(*n),
        Json::Str(s) => Value::String(s.clone()),
        Json::Raw(s) => serde_json::from_str(s).unwrap(),
        Json::Array(items) => Value::Array(items.iter().map(to_value).collect()),
        Json::Object(fields) => {
            let mut map = serde_json::Map::new();
            for (k, v) in fields {
                map.insert(k.clone(), to_value(v));
            }
            Value::Object(map)
        }
    }
}

fn from_value(v: &Value) -> Json {
    match v {
        Value::Null => Json::Null,
        Value::Bool(b) => Json::Bool(*b),
        Value::Number(n) => match n.as_u64() {
            Some(u) => Json::UInt(u),
            None => Json::Raw(n.to_string()),
        },
        Value::String(s) => Json::Str(s.clone()),
        Value::Array(items) => Json::Array(items.iter().map(from_value).collect()),
        Value::Object(map) => Json::Object(
            map.iter()
                .map(|(k, v)| (k.clone(), from_value(v)))
                .collect(),
        ),
    }
}

fn doc(text: &str) -> Json {
    from_value(&j(text))
}

fn provider() -> OpenAiResponsesProvider {
    OpenAiResponsesProvider::new(
        "key".to_owned(),
        "https://example.com/v1",
        "model".to_owned(),
    )
    .unwrap()
}

fn request(messages: Vec<Message>) -> ProviderRequest {
    ProviderRequest {
        messages,
        tools: Vec::new(),
        config: GenerationConfig::default(),
    }
}

#[test]
fn openai_responses_debug_redacts_api_key_and_accepts_an_injected_http_client() {
    let provider = OpenAiResponsesProvider::new(
        "super-secret-responses-key".to_owned(),
        "https://example.com/v1",
        "model".to_owned(),
    )
    .unwrap();

    let debug = provider.debug_text();
    assert!(!debug.contains("super-secret-responses-key"));
    assert!(debug.contains("[REDACTED]"));
}

#[test]
fn maps_normalized_request_to_responses_items() {
    let provider = provider()
        .extra_body(doc(r#"{"include": ["reasoning.encrypted_content"]}"#))
        .unwrap();
    let request = ProviderRequest {
        messages: vec![
            Message::system("system"),
            Message::user("hello"),
            Message::assistant(None, vec![ToolCall::new("call-1", "echo", r#"{"text": "hi"}"#)]),
            Message::tool_result("call-1", "hi", false),
        ],
        tools: vec![ToolDefinition {
            name: "echo".to_owned(),
            description: "echo".to_owned(),
            parameters: r#"{"type": "object"}"#.to_owned(),
        }],
        config: GenerationConfig {
            model: Some("request-model".to_owned()),
            max_tokens: Some(99),
            reasoning_effort: Some(ReasoningEffort::XHigh),
        },
    };

    let body = to_value(&provider.request_body(&request).unwrap());
    assert_eq!(body["model"], "request-model");
    assert_eq!(body["instructions"], "system");
    assert_eq!(body["include"], j(r#"["reasoning.encrypted_content"]"#));
    assert_eq!(body["max_output_tokens"], 99);
    assert_eq!(body["reasoning"]["effort"], "xhigh");
    assert_eq!(body["input"][1]["type"], "function_call");
    assert_eq!(body["input"][2]["type"], "function_call_output");
    assert_eq!(body["tools"][0]["name"], "echo");
}

#[test]
fn maps_data_and_url_documents_to_responses_input_files() {
    let request = request(vec![Message::user_parts(vec![
        ContentPart::text("inspect"),
        ContentPart::document(Document {
            filename: "inline.pdf".to_owned(),
            mime_type: "application/pdf".to_owned(),
            data: "data:application/pdf;base64,JVBERi1pbmxpbmU=".to_owned(),
        }),
        ContentPart::document(Document {
            filename: "remote.pdf".to_owned(),
            mime_type: "application/pdf".to_owned(),
            data: "https://example.com/remote.pdf".to_owned(),
        }),
    ])]);

    let body = to_value(&provider().request_body(&request).unwrap());
    let content = body["input"][0]["content"].as_array().unwrap();
    assert_eq!(
        content[1],
        j(r#"{
            "type": "input_file",
            "filename": "inline.pdf",
            "file_data": "data:application/pdf;base64,JVBERi1pbmxpbmU="
        }"#)
    );
    assert_eq!(
        content[2],
        j(r#"{"type": "input_file", "file_url": "https://example.com/remote.pdf"}"#)
    );
}

#[test]
fn preserves_rich_tool_outputs_for_responses() {
    let request = request(vec![
        Message::assistant(None, vec![ToolCall::new("call-1", "read", "{}")]),
        Message::tool_result_content(
            "call-1".to_owned(),
            Content::parts(vec![
                ContentPart::text("result summary"),
                ContentPart::image(ImageUrl::new("data:image/png;base64,cG5n")),
                ContentPart::document(Document {
                    filename: "result.pdf".to_owned(),
                    mime_type: "application/pdf".to_owned(),
                    data: "data:application/pdf;base64,cGRm".to_owned(),
                }),
            ]),
            false,
            None,
        ),
    ]);

    let body = to_value(&provider().request_body(&request).unwrap());
    let output = body["input"][1]["output"].as_array().unwrap();
    assert_eq!(output[0], j(r#"{"type": "input_text", "text": "result summary"}"#));
    assert_eq!(output[1]["type"], "input_image");
    assert_eq!(output[1]["image_url"], "data:image/png;base64,cG5n");
    assert_eq!(output[1]["detail"], "auto");
    let detailed = ProviderRequest {
        messages: vec![Message::user_parts(vec![ContentPart::image(
            ImageUrl::new("https://x/y.png").with_detail(ImageDetail::Low),
        )])],
        tools: Vec::new(),
        config: GenerationConfig::default(),
    };
    let body = to_value(&provider().request_body(&detailed).unwrap());
    assert_eq!(body["input"][0]["content"][0]["detail"], "low");
    assert_eq!(output[2]["type"], "input_file");
    assert_eq!(output[2]["filename"], "result.pdf");
    assert_eq!(output[2]["file_data"], "data:application/pdf;base64,cGRm");
}

#[test]
fn replays_opaque_reasoning_items_from_the_assistant_message() {
    let mut assistant = Message::assistant(
        None,
        vec![ToolCall::new("call-1", "echo", r#"{"text": "hi"}"#)],
    );
    assistant.provider_state = Some(doc(
        r#"{"output": [
            {"type": "reasoning", "id": "rs_1", "summary": []},
            {"type": "function_call", "call_id": "call-1", "name": "echo",
             "arguments": "{\"text\":\"hi\"}"}
        ]}"#,
    ));
    let request = request(vec![assistant, Message::tool_result("call-1", "hi", false)]);

    let body = to_value(&provider().request_body(&request).unwrap());
    assert_eq!(body["input"][0]["type"], "reasoning");
    assert_eq!(body["input"][1]["type"], "function_call");
    assert_eq!(body["input"][2]["type"], "function_call_output");
}

#[test]
fn normalized_assistant_fields_override_stale_responses_output_items() {
    let mut assistant = Message::assistant(
        Some(Content::text("hooked answer")),
        vec![ToolCall::new("hooked-call", "echo", r#"{"text":"hooked"}"#)],
    );
    assistant.provider_state = Some(doc(
        r#"{"output": [
            {"type": "reasoning", "id": "rs_1", "encrypted_content": "opaque"},
            {"type": "message", "role": "assistant",
             "content": [{"type": "output_text", "text": "stale answer"}]},
            {"type": "function_call", "call_id": "stale-call", "name": "stale-tool",
             "arguments": "{\"text\":\"stale\"}"}
        ]}"#,
    ));
    let request = request(vec![assistant]);

    let body = to_value(&provider().request_body(&request).unwrap());
    let input = body["input"].as_array().unwrap();
    assert_eq!(input.len(), 3);
    assert_eq!(input[0]["type"], "reasoning");
    assert_eq!(input[0]["encrypted_content"], "opaque");
    assert_eq!(input[1]["type"], "message");
    assert_eq!(input[1]["content"][0]["text"], "hooked answer");
    assert_eq!(input[2]["type"], "function_call");
    assert_eq!(input[2]["call_id"], "hooked-call");
    assert_eq!(input[2]["name"], "echo");
    assert_eq!(input[2]["arguments"], "{\"text\":\"hooked\"}");
}

#[test]
fn replays_reasoning_items_for_ordinary_assistant_turns() {
    let parsed = parse_response(&doc(
        r#"{"output": [
            {"type": "reasoning", "id": "rs_1", "encrypted_content": "opaque"},
            {"type": "message", "id": "msg_1", "status": "completed", "role": "assistant",
             "content": [{"type": "output_text", "text": "answer",
                          "annotations": [{"type": "opaque_annotation", "value": "kept"}]}]}
        ]}"#,
    ))
    .unwrap();
    let request = request(vec![parsed.message.into_message(), Message::user("next")]);

    let body = to_value(&provider().request_body(&request).unwrap());
    assert_eq!(body["input"][0]["type"], "reasoning");
    assert_eq!(body["input"][1]["type"], "message");
    assert_eq!(body["input"][1]["id"], "msg_1");
    assert_eq!(body["input"][1]["status"], "completed");
    assert_eq!(
        body["input"][1]["content"][0]["annotations"],
        j(r#"[{"type": "opaque_annotation", "value": "kept"}]"#)
    );
    assert_eq!(body["input"][2]["role"], "user");
}

#[test]
fn normalizes_responses_token_usage() {
    let parsed = parse_response(&doc(
        r#"{
            "output": [{"type": "message", "content": [{"type": "output_text", "text": "ok"}]}],
            "usage": {
                "input_tokens": 90,
                "output_tokens": 10,
                "total_tokens": 100,
                "input_tokens_details": {"cached_tokens": 40}
            }
        }"#,
    ))
    .unwrap();

    assert_eq!(parsed.usage, Some(TokenUsage::with_total(90, 10, 100, 40)));
}

#[test]
fn maps_responses_stream_deltas() {
    assert_eq!(
        response_delta(&doc(r#"{"type": "response.output_text.delta", "delta": "hello"}"#)),
        Some(AssistantDelta::Text {
            delta: "hello".to_owned()
        })
    );
    assert_eq!(
        response_delta(&doc(
            r#"{"type": "response.function_call_arguments.delta", "output_index": 2,
                "delta": "{\"x\":"}"#
        )),
        Some(AssistantDelta::ToolCall {
            index: 2,
            id: None,
            name: None,
            arguments_delta: "{\"x\":".to_owned()
        })
    );
}

#[test]
fn announces_function_calls_and_ignores_other_items() {
    assert_eq!(
        response_delta(&doc(
            r#"{"type": "response.output_item.added", "output_index": 1,
                "item": {"type": "function_call", "call_id": "c", "name": "n"}}"#
        )),
        Some(AssistantDelta::ToolCall {
            index: 1,
            id: Some("c".to_owned()),
            name: Some("n".to_owned()),
            arguments_delta: String::new()
        })
    );
    assert_eq!(
        response_delta(&doc(
            r#"{"type": "response.output_item.added", "item": {"type": "message"}}"#
        )),
        None
    );
    assert_eq!(response_delta(&doc(r#"{"type": "response.created"}"#)), None);
}

#[test]
fn stream_steps_finish_fail_or_forward() {
    match responses_stream_step(&doc(
        r#"{"type": "response.completed", "response": {"output": [
            {"type": "function_call", "call_id": "c", "name": "n", "arguments": " {\"a\": 1} "}
        ]}}"#,
    )) {
        Ok(ResponsesStreamStep::Finished(response)) => {
            assert_eq!(response.message.tool_calls, vec![ToolCall::new("c", "n", r#"{"a":1}"#)]);
            assert!(response.message.content.is_none());
            assert!(response.usage.is_none());
        }
        _ => panic!("expected a finished response"),
    }
    match responses_stream_step(&doc(r#"{"type": "response.failed", "response": {"id": "r"}}"#)) {
        Err(ProviderError::InvalidResponse(message)) => {
            assert_eq!(message, r#"{"response":{"id":"r"},"type":"response.failed"}"#)
        }
        _ => panic!("expected a failure"),
    }
    match responses_stream_step(&doc(r#"{"type": "response.output_text.delta", "delta": "x"}"#)) {
        Ok(ResponsesStreamStep::Delta(AssistantDelta::Text { delta })) => assert_eq!(delta, "x"),
        _ => panic!("expected a delta"),
    }
    assert!(matches!(
        responses_stream_step(&doc(r#"{"type": "response.in_progress"}"#)),
        Ok(ResponsesStreamStep::Nothing)
    ));
}

#[test]
fn rejects_unreadable_responses() {
    assert_eq!(
        parse_response(&doc(r#"{"output": {}}"#)).unwrap_err(),
        ProviderError::InvalidResponse("output is not an array".to_owned())
    );
    assert_eq!(
        parse_response(&doc(r#"{"output": [{"type": "function_call", "name": "n"}]}"#))
            .unwrap_err(),
        ProviderError::InvalidResponse("missing call_id".to_owned())
    );
    assert_eq!(
        parse_response(&doc(
            r#"{"output": [{"type": "function_call", "call_id": "c", "name": "n"}]}"#
        ))
        .unwrap_err(),
        ProviderError::InvalidResponse("missing tool arguments".to_owned())
    );
    match parse_response(&doc(
        r#"{"output": [{"type": "function_call", "call_id": "c", "name": "n", "arguments": "{"}]}"#,
    )) {
        Err(ProviderError::InvalidResponse(message)) => {
            assert!(message.starts_with("invalid tool arguments: "))
        }
        _ => panic!("expected invalid arguments"),
    }
    assert_eq!(
        parse_response(&doc(r#"{"output": [{"type": "reasoning"}]}"#)).unwrap_err(),
        ProviderError::InvalidResponse(
            "response contains neither output text nor function calls".to_owned()
        )
    );
}

#[test]
fn assistant_attachments_are_named_when_replayed() {
    let request = request(vec![Message::assistant(
        Some(Content::parts(vec![
            ContentPart::text("see"),
            ContentPart::image(ImageUrl::new("https://x/y.png")),
            ContentPart::document(Document {
                filename: "a.pdf".to_owned(),
                mime_type: "application/pdf".to_owned(),
                data: "https://x/a.pdf".to_owned(),
            }),
        ])),
        Vec::new(),
    )]);
    let body = to_value(&provider().request_body(&request).unwrap());
    let content = body["input"][0]["content"].as_array().unwrap();
    assert_eq!(content[0], j(r#"{"type": "output_text", "text": "see"}"#));
    assert_eq!(
        content[1]["text"],
        "[Image attachment omitted while replaying assistant content]"
    );
    assert_eq!(
        content[2]["text"],
        "[Document attachment a.pdf (application/pdf) omitted while replaying assistant content]"
    );
}

#[test]
fn validates_responses_configuration() {
    assert_eq!(
        OpenAiResponsesProvider::new(" ".to_owned(), "https://x", "m".to_owned())
            .err()
            .unwrap(),
        ProviderError::MissingApiKey
    );
    assert_eq!(
        OpenAiResponsesProvider::new("k".to_owned(), " ", "m".to_owned())
            .err()
            .unwrap(),
        ProviderError::InvalidConfiguration("base URL and model must not be empty".to_owned())
    );
    let openai = OpenAiResponsesProvider::openai("k".to_owned(), "m".to_owned()).unwrap();
    assert_eq!(openai.endpoint(), "https://api.openai.com/v1/responses");
    let system_image = request(vec![Message {
        role: phi::types::Role::System,
        ..Message::user_parts(vec![ContentPart::image(ImageUrl::new("https://x/y.png"))])
    }]);
    assert_eq!(
        openai.request_body(&system_image).unwrap_err(),
        ProviderError::InvalidRequest("system message cannot contain images".to_owned())
    );
}
