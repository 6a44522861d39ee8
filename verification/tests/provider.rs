use codex_copilot::provider::{
    built_in_model_providers, create_copilot_provider, ModelProviderInfo, WireApi,
};

#[test]
fn test_copilot_provider_does_not_require_openai_auth() {
    let provider = create_copilot_provider();
    // requires_openai_auth = false means auth.json / login flow is never triggered
    assert!(!provider.requires_openai_auth);
    // Token comes from experimental_bearer_token, not env_key
    assert!(provider.env_key.is_none());
}

#[test]
fn test_copilot_provider_is_registered_as_builtin() {
    let providers = built_in_model_providers(None);
    assert!(
        providers.contains_key("copilot"),
        "copilot should be a built-in provider"
    );
    let copilot = providers.get("copilot").unwrap();
    assert_eq!(copilot.name, "GitHub Copilot");
    assert_eq!(copilot.requires_openai_auth, false);
    assert_eq!(copilot.supports_websockets, false);
    assert_eq!(copilot.wire_api, WireApi::Responses);
    // base_url is None — resolved dynamically at startup
    assert!(copilot.base_url.is_none());
    // Copilot-specific headers are set
    let headers = copilot
        .http_headers
        .as_ref()
        .expect("should have http_headers");
    assert_eq!(
        headers.get("Copilot-Integration-Id").unwrap(),
        "copilot-developer-cli"
    );
    assert_eq!(headers.get("X-GitHub-Api-Version").unwrap(), "2026-01-09");
    assert_eq!(headers.get("Openai-Intent").unwrap(), "conversation-agent");
    assert_eq!(headers.get("X-Initiator").unwrap(), "user");
}

#[test]
fn test_copilot_provider_is_copilot() {
    let providers = built_in_model_providers(None);
    let copilot = providers.get("copilot").unwrap();
    assert!(copilot.is_copilot());

    let openai = providers.get("openai").unwrap();
    assert!(!openai.is_copilot());
}

#[test]
fn test_copilot_provider_cannot_be_overridden_by_user_config() {
    let mut providers = built_in_model_providers(None);
    let user_provider = ModelProviderInfo {
        name: "My Custom Copilot".into(),
        base_url: Some("http://localhost:9999".into()),
        ..create_copilot_provider()
    };
    providers.or_insert("copilot".to_string(), user_provider);

    let copilot = providers.get("copilot").unwrap();
    assert_eq!(copilot.name, "GitHub Copilot"); // Built-in wins
    assert!(copilot.base_url.is_none()); // Not overridden
}

#[test]
fn user_provider_under_a_new_key_is_added() {
    let mut providers = built_in_model_providers(Some("https://proxy.example/v1".to_string()));
    assert_eq!(providers.len(), 2);
    assert_eq!(
        providers.get("openai").unwrap().base_url.as_deref(),
        Some("https://proxy.example/v1")
    );
    assert!(providers.get("openai").unwrap().requires_openai_auth);
    let mine = ModelProviderInfo {
        name: "Mine".into(),
        ..create_copilot_provider()
    };
    providers.or_insert("mine".to_string(), mine);
    assert_eq!(providers.len(), 3);
    assert_eq!(providers.get("mine").unwrap().name, "Mine");
    assert!(!providers.get("mine").unwrap().is_copilot());
}
