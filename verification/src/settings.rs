//! The model settings: what is stored in the settings table (never the API
//! key, which goes to the secret vault), what the settings page is shown,
//! and which provider configuration a continuation uses.
use vstd::prelude::*;
use crate::providers::{resolve_provider_name, resolved_provider, ProviderConfig};
use crate::text::{copy_string, string_of};

verus! {

/// The fields of the stored `model_config` setting; a field that is missing
/// (or a setting that does not parse) reads as empty. `api_key` is a key
/// left there by an older version.
#[derive(Debug, Clone, PartialEq, Eq)]
pub struct StoredModelConfig {
    pub provider: String,
    pub api_key: String,
    pub base_url: String,
    pub model: String,
}

/// What the settings page is shown: never the key, only whether one is set.
#[derive(Debug, Clone, PartialEq, Eq)]
pub struct ModelConfigView {
    pub provider: String,
    pub api_key: String,
    pub api_key_set: bool,
    pub base_url: String,
    pub model: String,
}

/// What saving a model configuration stores: the setting without a key,
/// and the key for the vault when one was given.
pub fn model_config_to_store(provider: &str, api_key: &str, base_url: &str, model: &str) -> (r: (
    StoredModelConfig,
    Option<String>,
))
    ensures
        r.0.provider@ == provider@,
        r.0.api_key@.len() == 0,
        r.0.base_url@ == base_url@,
        r.0.model@ == model@,
        api_key@.len() == 0 ==> r.1 is None,
        api_key@.len() > 0 ==> (r.1 matches Some(k) && k@ == api_key@),
{
    let stored = StoredModelConfig {
        provider: string_of(crate::text::chars_of(provider).as_slice()),
        api_key: String::new(),
        base_url: string_of(crate::text::chars_of(base_url).as_slice()),
        model: string_of(crate::text::chars_of(model).as_slice()),
    };
    let key = if api_key.unicode_len() == 0 {
        None
    } else {
        Some(string_of(crate::text::chars_of(api_key).as_slice()))
    };
    (stored, key)
}

/// Whether a stored setting still holds a key that belongs in the vault.
pub fn has_leftover_key(stored: &StoredModelConfig) -> (r: bool)
    ensures
        r == (stored.api_key@.len() > 0),
{
    stored.api_key.as_str().unicode_len() > 0
}

/// The stored setting with its leftover key removed.
pub fn stripped(stored: &StoredModelConfig) -> (r: StoredModelConfig)
    ensures
        r.provider@ == stored.provider@,
        r.api_key@.len() == 0,
        r.base_url@ == stored.base_url@,
        r.model@ == stored.model@,
{
    StoredModelConfig {
        provider: copy_string(&stored.provider),
        api_key: String::new(),
        base_url: copy_string(&stored.base_url),
        model: copy_string(&stored.model),
    }
}

/// What the settings page is shown for a stored setting. `vault_is_set` is
/// whether the vault holds a key, `None` when there is no vault; without a
/// vault a leftover key in the setting counts as set.
pub fn model_config_view(stored: &StoredModelConfig, vault_is_set: Option<bool>) -> (r: ModelConfigView)
    ensures
        r.provider@ == stored.provider@,
        r.api_key@.len() == 0,
        r.api_key_set == match vault_is_set {
            Some(b) => b,
            None => stored.api_key@.len() > 0,
        },
        r.base_url@ == stored.base_url@,
        r.model@ == stored.model@,
{
    let api_key_set = match vault_is_set {
        Some(b) => b,
        None => has_leftover_key(stored),
    };
    ModelConfigView {
        provider: copy_string(&stored.provider),
        api_key: String::new(),
        api_key_set,
        base_url: copy_string(&stored.base_url),
        model: copy_string(&stored.model),
    }
}

/// The provider configuration of a stored setting: its own key when it
/// still holds one, else the vault's key (`vault_key`, none when absent);
/// the provider name resolved. The second part says whether the leftover
/// key must be moved to the vault.
pub fn provider_config_from_stored(stored: &StoredModelConfig, vault_key: Option<String>) -> (r: (
    ProviderConfig,
    bool,
))
    ensures
        ({
            let key = if stored.api_key@.len() > 0 {
                stored.api_key@
            } else {
                match vault_key {
                    Some(k) => k@,
                    None => Seq::<char>::empty(),
                }
            };
            &&& r.0.api_key@ == key
            &&& r.0.provider@ == resolved_provider(stored.provider@, key)
            &&& r.0.base_url@ == stored.base_url@
            &&& r.0.model@ == stored.model@
            &&& r.1 == (stored.api_key@.len() > 0)
        }),
{
    let leftover = has_leftover_key(stored);
    let api_key = if leftover {
        copy_string(&stored.api_key)
    } else {
        match vault_key {
            Some(k) => k,
            None => String::new(),
        }
    };
    let mut config = ProviderConfig {
        provider: copy_string(&stored.provider),
        api_key,
        base_url: copy_string(&stored.base_url),
        model: copy_string(&stored.model),
    };
    config.provider = resolve_provider_name(&config);
    (config, leftover)
}

/// The configuration an explicit override gives a continuation: its own
/// key, or the vault's key (`secret_key`) when it has none; `None` when
/// there is no override or still no key, and the stored setting applies.
pub fn override_config(explicit: Option<ProviderConfig>, secret_key: Option<String>) -> (r:
    Option<ProviderConfig>)
    ensures
        match explicit {
            None => r is None,
            Some(c) => {
                let key = if c.api_key@.len() > 0 {
                    c.api_key@
                } else {
                    match secret_key {
                        Some(k) => k@,
                        None => Seq::<char>::empty(),
                    }
                };
                if key.len() == 0 {
                    r is None
                } else {
                    r matches Some(o) && o.api_key@ == key && o.provider@ == resolved_provider(
                        c.provider@,
                        key,
                    ) && o.base_url@ == c.base_url@ && o.model@ == c.model@
                }
            },
        },
{
    match explicit {
        None => None,
        Some(c) => {
            let mut config = c;
            if config.api_key.as_str().unicode_len() == 0 {
                config.api_key = match secret_key {
                    Some(k) => k,
                    None => String::new(),
                };
            }
            if config.api_key.as_str().unicode_len() == 0 {
                return None;
            }
            config.provider = resolve_provider_name(&config);
            Some(config)
        },
    }
}

} // verus!
