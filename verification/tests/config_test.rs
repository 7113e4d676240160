use tforge::config::default_model_for;
use tforge::config::normalized_opt;
use tforge::config::parse_provider;
use tforge::config::provider_label;
use tforge::config::LlmProvider;
use tforge::config::TforgeConfig;

#[test]
fn test_default_config() {
    let config = TforgeConfig::default();
    assert!(config.llm.is_none());
}

#[test]
fn test_default_path_location() {
    let path = TforgeConfig::default_path();
    assert!(path.ends_with("tforge/config.toml"));
}

#[test]
fn test_parse_provider_names() {
    assert_eq!(parse_provider("anthropic"), Some(LlmProvider::Anthropic));
    assert_eq!(parse_provider("openai"), Some(LlmProvider::Openai));
    assert_eq!(parse_provider("gemini"), Some(LlmProvider::Gemini));
    assert_eq!(parse_provider("ollama"), Some(LlmProvider::Ollama));
    assert_eq!(parse_provider("unheard-of"), None);
}

#[test]
fn test_provider_defaults() {
    assert_eq!(provider_label(&LlmProvider::Gemini), "gemini");
    assert_eq!(default_model_for(&LlmProvider::Anthropic), "sonnet-4-6");
}

#[test]
fn test_normalized_opt() {
    assert_eq!(normalized_opt("  hello  ".to_string()), Some("hello".to_string()));
    assert_eq!(normalized_opt("   ".to_string()), None);
    assert_eq!(normalized_opt("".to_string()), None);
}
