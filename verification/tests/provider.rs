use bendengine::api::openai::map_openai_stop_reason;
use bendengine::api::provider::{resolve_api_type, ApiType, ProviderKind};

#[test]
fn a_configured_provider_decides_the_api_type() {
    assert_eq!(
        resolve_api_type(Some(&ProviderKind::Anthropic), "gpt-4o", None, None),
        ApiType::AnthropicMessages
    );
    assert_eq!(ProviderKind::OpenAi.api_type(), ApiType::OpenAICompletions);
}

#[test]
fn an_explicit_setting_comes_before_the_model_name() {
    assert_eq!(
        resolve_api_type(None, "sonnet-4", Some("openai-completions"), None),
        ApiType::OpenAICompletions
    );
    assert_eq!(
        resolve_api_type(None, "gpt-4o", Some("unknown"), Some("anthropic-messages")),
        ApiType::AnthropicMessages
    );
}

#[test]
fn the_model_name_is_matched_case_insensitively() {
    assert_eq!(resolve_api_type(None, "GPT-4o", None, None), ApiType::OpenAICompletions);
    assert_eq!(resolve_api_type(None, "o3-mini", None, None), ApiType::OpenAICompletions);
    assert_eq!(resolve_api_type(None, "Qwen2.5", None, None), ApiType::OpenAICompletions);
    assert_eq!(resolve_api_type(None, "opus-4", None, None), ApiType::AnthropicMessages);
}

#[test]
fn openai_finish_reasons_map_to_engine_names() {
    assert_eq!(map_openai_stop_reason("stop"), "end_turn");
    assert_eq!(map_openai_stop_reason("tool_calls"), "tool_use");
    assert_eq!(map_openai_stop_reason("length"), "max_tokens");
    assert_eq!(map_openai_stop_reason("content_filter"), "content_filter");
}
