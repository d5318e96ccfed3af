use phi::context::{
    default_context_compaction_threshold, format_compact_summary, sanitize_message_for_compaction,
    ContextCompactionRequest, ContextCompactionTrigger, DefaultContextCompactor,
};
use phi::error::ProviderError;
use phi::mcp::truncate_tool_output;
use phi::permission::{
    escape_permission_pattern, matches_permission_pattern, ToolPermissionRule,
    ToolPermissionRuleError, MAX_TOOL_PERMISSION_TARGET_BYTES,
};
use phi::retry::{
    RetryConfig, DEFAULT_MAX_RETRIES, DEFAULT_REQUEST_TIMEOUT_SECS,
    DEFAULT_STREAM_IDLE_TIMEOUT_SECS,
};
use phi::time::TimeSpan;
use phi::tool::{CapabilityMode, ToolEffect};
use phi::types::{Content, ContentPart, ContextUsage, GenerationConfig, ImageUrl, Message};

fn request(trigger: ContextCompactionTrigger) -> ContextCompactionRequest {
    ContextCompactionRequest {
        trigger,
        system_prompt: "system".to_owned(),
        messages: vec![Message::user("hello")],
        max_context_tokens: Some(200_000),
        generation_config: GenerationConfig {
            max_tokens: Some(20_000),
            ..GenerationConfig::default()
        },
    }
}

#[test]
fn threshold_reserves_summary_output_and_fixed_headroom() {
    assert_eq!(
        default_context_compaction_threshold(200_000, Some(20_000)),
        167_000
    );
    assert_eq!(
        default_context_compaction_threshold(200_000, Some(8_000)),
        179_000
    );

    let compactor = DefaultContextCompactor::default();
    assert!(
        !compactor.should_compact(&request(ContextCompactionTrigger::Automatic {
            usage: ContextUsage {
                max_tokens: 200_000,
                used_tokens: 166_999,
                remaining_tokens: 33_001,
            },
        }))
    );
    assert!(
        compactor.should_compact(&request(ContextCompactionTrigger::Automatic {
            usage: ContextUsage {
                max_tokens: 200_000,
                used_tokens: 167_000,
                remaining_tokens: 33_000,
            },
        }))
    );
}

#[test]
fn prompt_includes_manual_instructions() {
    let compactor = DefaultContextCompactor::default();
    let prompt = compactor.prompt(&request(ContextCompactionTrigger::Manual {
        instructions: Some("Focus on storage invariants".to_owned()),
    }));
    assert!(prompt.contains("Focus on storage invariants"));
    assert!(prompt.contains("<summary>"));
}

#[test]
fn formatting_removes_analysis_and_keeps_summary() {
    assert_eq!(
        format_compact_summary("<analysis>draft only</analysis>\n<summary>durable facts</summary>"),
        "Summary:\ndurable facts"
    );
}

#[test]
fn sanitizing_replaces_media_and_provider_state_is_removed() {
    let message = Message::user_parts(vec![
        ContentPart::text("look"),
        ContentPart::image(ImageUrl::new("data:image/png;base64,secret")),
    ]);
    let sanitized = sanitize_message_for_compaction(message);
    assert_eq!(
        sanitized.content,
        Some(Content::parts(vec![
            ContentPart::text("look"),
            ContentPart::text("[image]")
        ]))
    );
    assert!(sanitized.provider_state.is_none());
}

#[test]
fn truncates_long_single_line_on_a_utf8_boundary() {
    let output = truncate_tool_output("前缀-abcdefghijklmnopqrstuvwxyz", 100, 10);

    assert!(output.starts_with("前缀-abc"));
    assert!(output.contains("MCP output truncated"));
}

#[test]
fn wildcard_patterns_are_anchored_and_support_escaping() {
    assert!(matches_permission_pattern("ls *", "ls"));
    assert!(matches_permission_pattern("ls *", "ls -la src"));
    assert!(!matches_permission_pattern("ls *", "lsof"));
    assert!(matches_permission_pattern(r"echo \*", "echo *"));
    assert!(!matches_permission_pattern(r"echo \*", "echo anything"));
    assert!(matches_permission_pattern("git * status", "git -C . status"));
    assert!(!matches_permission_pattern("git * status", "git status --short"));
    assert!(matches_permission_pattern(" echo", " echo"));
    assert!(!matches_permission_pattern(" echo", "echo"));
    assert!(!matches_permission_pattern(
        "*",
        &"x".repeat(MAX_TOOL_PERMISSION_TARGET_BYTES + 1)
    ));
}

#[test]
fn validates_rule_bounds() {
    assert!(ToolPermissionRule::for_tool("bash".to_owned()).validate().is_ok());
    assert_eq!(
        ToolPermissionRule::new("bash".to_owned(), Some(" ".to_owned())).validate(),
        Err(ToolPermissionRuleError::EmptyPattern)
    );
}

#[test]
fn escapes_literal_wildcards_and_backslashes() {
    let value = r"echo * C:\\tmp";
    let pattern = escape_permission_pattern(value);
    assert!(matches_permission_pattern(&pattern, value));
    assert!(!matches_permission_pattern(&pattern, r"echo file C:\\tmp"));
}

#[test]
fn defaults_to_a_configurable_ten_retries() {
    let config = RetryConfig::default();
    assert_eq!(config.max_retries(), DEFAULT_MAX_RETRIES);
    assert_eq!(
        config.request_timeout(),
        TimeSpan::from_secs(DEFAULT_REQUEST_TIMEOUT_SECS)
    );
    assert_eq!(
        config.stream_idle_timeout(),
        Some(TimeSpan::from_secs(DEFAULT_STREAM_IDLE_TIMEOUT_SECS))
    );
    assert_eq!(config.with_max_retries(3).max_retries(), 3);
    assert_eq!(
        config.without_stream_idle_timeout().stream_idle_timeout(),
        None
    );
}

#[test]
fn rate_limit_delay_is_fixed_and_capped() {
    let config = RetryConfig::default()
        .with_initial_backoff(TimeSpan::from_secs(5))
        .with_rate_limit_backoff(TimeSpan::from_secs(2))
        .with_max_backoff(TimeSpan::from_secs(10));

    assert_eq!(config.rate_limit_delay(None), TimeSpan::from_secs(2));
    assert_eq!(
        config.rate_limit_delay(Some(TimeSpan::from_secs(8))),
        TimeSpan::from_secs(8)
    );
    assert_eq!(
        config.rate_limit_delay(Some(TimeSpan::from_secs(30))),
        TimeSpan::from_secs(10)
    );
    let exponential = config.exponential_delay(2);
    assert!(exponential >= TimeSpan::from_secs(5));
    assert!(exponential <= TimeSpan::from_secs(10));
}

#[test]
fn capability_modes_form_a_conservative_linear_boundary() {
    assert!(CapabilityMode::ReadOnly.is_subset_of(CapabilityMode::WorkspaceEdit));
    assert!(CapabilityMode::WorkspaceEdit.is_subset_of(CapabilityMode::FullAccess));
    assert!(!CapabilityMode::FullAccess.is_subset_of(CapabilityMode::WorkspaceEdit));

    assert!(CapabilityMode::ReadOnly.allows(ToolEffect::ReadOnly));
    assert!(!CapabilityMode::ReadOnly.allows(ToolEffect::WorkspaceWrite));
    assert!(CapabilityMode::WorkspaceEdit.allows(ToolEffect::WorkspaceWrite));
    assert!(!CapabilityMode::WorkspaceEdit.allows(ToolEffect::ExternalSideEffect));
    assert!(CapabilityMode::FullAccess.allows(ToolEffect::ExternalSideEffect));
}

#[test]
fn api_responses_that_reject_the_context_window_are_recognized() {
    let error = ProviderError::from_api_response(400, "Prompt is too long: 210000 tokens".to_owned());
    assert!(error.is_context_length_exceeded());
    assert_eq!(
        error,
        ProviderError::ContextLengthExceeded {
            message: "HTTP 400: Prompt is too long: 210000 tokens".to_owned()
        }
    );

    let error = ProviderError::from_api_response(503, "overloaded".to_owned());
    assert!(!error.is_context_length_exceeded());
    assert_eq!(error, ProviderError::Api { status: 503, body: "overloaded".to_owned() });
}
