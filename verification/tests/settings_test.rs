use novel_core::providers::ProviderConfig;
use novel_core::settings::{
    has_leftover_key, model_config_to_store, model_config_view, override_config,
    provider_config_from_stored, stripped, StoredModelConfig,
};

fn stored(provider: &str, key: &str) -> StoredModelConfig {
    StoredModelConfig {
        provider: provider.to_string(),
        api_key: key.to_string(),
        base_url: "https://api.example.com/v1".to_string(),
        model: "m1".to_string(),
    }
}

fn config(provider: &str, key: &str) -> ProviderConfig {
    ProviderConfig {
        provider: provider.to_string(),
        api_key: key.to_string(),
        base_url: "https://api.example.com/v1".to_string(),
        model: "m1".to_string(),
    }
}

#[test]
fn saving_keeps_the_key_out_of_the_setting() {
    let (setting, key) = model_config_to_store("deepseek", "SECRET-REDACTED", "https://x", "chat");
    assert_eq!(setting.provider, "deepseek");
    assert_eq!(setting.api_key, "");
    assert_eq!(setting.base_url, "https://x");
    assert_eq!(setting.model, "chat");
    assert_eq!(key.as_deref(), Some("SECRET-REDACTED"));
    let (_, none) = model_config_to_store("deepseek", "", "https://x", "chat");
    assert_eq!(none, None);
}

#[test]
fn leftover_keys_are_found_and_stripped() {
    let old = stored("openai", "sk-old");
    assert!(has_leftover_key(&old));
    let clean = stripped(&old);
    assert_eq!(clean.api_key, "");
    assert_eq!(clean.provider, "openai");
    assert!(!has_leftover_key(&clean));
}

#[test]
fn settings_view_never_shows_the_key() {
    let old = stored("openai", "sk-old");
    let shown = model_config_view(&old, Some(false));
    assert_eq!(shown.api_key, "");
    assert!(!shown.api_key_set);
    assert!(model_config_view(&old, None).api_key_set);
    assert!(!model_config_view(&stored("openai", ""), None).api_key_set);
    assert!(model_config_view(&stored("openai", ""), Some(true)).api_key_set);
}

#[test]
fn stored_setting_takes_its_own_key_or_the_vaults() {
    let (c, moved) = provider_config_from_stored(&stored("deepseek", "sk-old"), Some("sk-vault".to_string()));
    assert_eq!(c.api_key, "sk-old");
    assert_eq!(c.provider, "deepseek");
    assert!(moved);
    let (c, moved) = provider_config_from_stored(&stored("something", ""), Some("sk-vault".to_string()));
    assert_eq!(c.api_key, "sk-vault");
    assert_eq!(c.provider, "custom");
    assert!(!moved);
    let (c, _) = provider_config_from_stored(&stored("openai", ""), None);
    assert_eq!(c.provider, "echo");
    assert_eq!(c.api_key, "");
}

#[test]
fn explicit_override_needs_a_key() {
    assert_eq!(override_config(None, Some("k".to_string())), None);
    assert_eq!(override_config(Some(config("openai", "")), None), None);
    let o = override_config(Some(config("openai", "")), Some("sk-vault".to_string())).unwrap();
    assert_eq!(o.api_key, "sk-vault");
    assert_eq!(o.provider, "openai");
    let o = override_config(Some(config("ollama", "sk-own")), Some("sk-vault".to_string())).unwrap();
    assert_eq!(o.api_key, "sk-own");
    assert_eq!(o.provider, "ollama");
}
