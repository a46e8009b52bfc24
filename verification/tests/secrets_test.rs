use novel_core::secrets::{validate_key, SecretError, SecretLookup, SecretNext, SecretVault, MODEL_API_KEY};

fn lookup(vault: &mut SecretVault, key: &str) -> Result<Option<String>, SecretError> {
    match vault.get_step(key, SecretLookup::Start)? {
        SecretNext::Found(v) => Ok(v),
        other => panic!("a memory vault asked for {other:?}"),
    }
}

#[test]
fn memory_roundtrip() {
    let mut vault = SecretVault::memory();
    vault.put(MODEL_API_KEY, "sk-test").unwrap();
    assert_eq!(lookup(&mut vault, MODEL_API_KEY).unwrap().as_deref(), Some("sk-test"));
    let outcome = lookup(&mut vault, MODEL_API_KEY);
    assert!(vault.is_set(&outcome));
    vault.delete(MODEL_API_KEY).unwrap();
    let outcome = lookup(&mut vault, MODEL_API_KEY);
    assert!(!vault.is_set(&outcome));
}

#[test]
fn rejects_path_key() {
    let mut vault = SecretVault::memory();
    assert!(vault.put("../etc/passwd", "x").is_err());
}

#[test]
fn key_validation() {
    assert!(validate_key("model.api_key").is_ok());
    assert!(validate_key("A-z_0.9").is_ok());
    assert_eq!(validate_key(""), Err(SecretError::InvalidKey(String::new())));
    assert_eq!(validate_key("a/b"), Err(SecretError::InvalidKey("a/b".into())));
    assert_eq!(
        SecretError::InvalidKey("a/b".into()).message(),
        "invalid secret key: a/b"
    );
}

#[test]
fn opened_vault_consults_keyring_then_file() {
    let mut vault = SecretVault::open("/tmp/data");
    assert!(vault.uses_keyring());
    assert_eq!(vault.data_dir().as_deref(), Some("/tmp/data"));
    assert_eq!(vault.get_step("k", SecretLookup::Start).unwrap(), SecretNext::ReadKeyring);
    assert_eq!(
        vault.get_step("k", SecretLookup::FromKeyring(Some(String::new()))).unwrap(),
        SecretNext::ReadFile
    );
    assert_eq!(
        vault.get_step("k", SecretLookup::FromFile(Some("sk-file".into()))).unwrap(),
        SecretNext::Found(Some("sk-file".into()))
    );
    // remembered: the next lookup answers from memory
    assert_eq!(
        vault.get_step("k", SecretLookup::Start).unwrap(),
        SecretNext::Found(Some("sk-file".into()))
    );
    assert_eq!(
        vault.get_step("other", SecretLookup::FromFile(None)).unwrap(),
        SecretNext::Found(None)
    );
}

#[test]
fn empty_secret_is_not_set() {
    let mut vault = SecretVault::memory();
    vault.put("k", "").unwrap();
    let outcome = lookup(&mut vault, "k");
    assert_eq!(outcome, Ok(None));
    assert!(!vault.is_set(&outcome));
    assert!(vault.get_step("bad key", SecretLookup::Start).is_err());
}
