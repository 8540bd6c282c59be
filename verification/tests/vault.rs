use ssh_core::error::CoreError;
use ssh_core::vault::{SecretEntry, Vault};

#[test]
fn credentials_roundtrip_and_encryption_at_rest() {
    let master = Vault::generate_master_key();
    assert_eq!(master.len(), 32);
    let mut vault = Vault::ephemeral(&master).unwrap();

    vault.set("host-1", "hunter2-super-secret").unwrap();
    assert!(vault.contains("host-1"));
    assert_eq!(vault.get("host-1").unwrap().unwrap(), "hunter2-super-secret");
    assert_eq!(vault.get("nope").unwrap(), None);

    // What is stored never contains the plaintext secret.
    let stored = vault.entries();
    assert_eq!(stored.len(), 1);
    assert_eq!(stored[0].host_id, "host-1");
    assert!(!stored[0].blob.contains("hunter2"), "plaintext leaked to storage");

    // Re-opening with the same master key still decrypts.
    let mut reopened = Vault::with_entries(&master, stored).unwrap();
    assert_eq!(reopened.get("host-1").unwrap().unwrap(), "hunter2-super-secret");

    reopened.delete("host-1");
    assert!(!reopened.contains("host-1"));
    assert_eq!(reopened.get("host-1").unwrap(), None);
}

#[test]
fn credentials_wrong_key_fails_closed() {
    let mut vault_a = Vault::ephemeral(b"key-a-key-a-key-a").unwrap();
    vault_a.set("h", "topsecret").unwrap();

    // Same ciphertext, different key: must error, not return garbage.
    let mut vault_b = Vault::ephemeral(b"key-b-key-b-key-b").unwrap();
    vault_b.set("h", "other").unwrap();
    let vault_b = Vault::with_entries(b"key-b-key-b-key-b", vault_a.entries()).unwrap();
    let err = vault_b.get("h").unwrap_err();
    assert!(matches!(err, CoreError::Vault(ref m) if m == "decryption failed (wrong vault key?)"));
}

#[test]
fn vault_replaces_and_keeps_others() {
    let mut vault = Vault::ephemeral(b"master-key-bytes").unwrap();
    vault.set("a", "first").unwrap();
    vault.set("b", "second").unwrap();
    vault.set("a", "third").unwrap();
    assert_eq!(vault.entries().len(), 2);
    assert_eq!(vault.get("a").unwrap().as_deref(), Some("third"));
    assert_eq!(vault.get("b").unwrap().as_deref(), Some("second"));
    vault.delete("a");
    assert_eq!(vault.get("a").unwrap(), None);
    assert_eq!(vault.get("b").unwrap().as_deref(), Some("second"));
}

#[test]
fn vault_nonces_differ() {
    let mut vault = Vault::ephemeral(b"master-key-bytes").unwrap();
    vault.set("a", "same").unwrap();
    let first = vault.entries()[0].blob.clone();
    vault.set("a", "same").unwrap();
    let second = vault.entries()[0].blob.clone();
    assert_ne!(first, second);
    assert_eq!(vault.get("a").unwrap().as_deref(), Some("same"));
}

#[test]
fn vault_corrupt_entries() {
    let key = b"master-key-bytes";
    let not_base64 = Vault::with_entries(
        key,
        vec![SecretEntry { host_id: "h".into(), blob: "***".into() }],
    )
    .unwrap();
    assert!(matches!(not_base64.get("h"), Err(CoreError::Vault(ref m)) if m == "corrupt vault entry"));

    // Decodes, but is shorter than a nonce and a tag byte.
    let short = Vault::with_entries(
        key,
        vec![SecretEntry { host_id: "h".into(), blob: "AQEBAQEBAQEBAQEBAQEBAQEBAQEBAQEB".into() }],
    )
    .unwrap();
    assert!(matches!(short.get("h"), Err(CoreError::Vault(ref m)) if m == "corrupt vault entry"));
}

#[test]
fn vault_empty_secret_roundtrip() {
    let mut vault = Vault::ephemeral(b"master-key-bytes").unwrap();
    vault.set("h", "").unwrap();
    assert_eq!(vault.get("h").unwrap().as_deref(), Some(""));
}

#[test]
fn vault_blob_is_base64_of_nonce_and_ciphertext() {
    let mut vault = Vault::ephemeral(b"master-key-bytes").unwrap();
    vault.set("h", "payload").unwrap();
    let blob = vault.entries()[0].blob.clone();
    // 24 nonce bytes, 7 message bytes and a 16-byte tag: 47 bytes, 64 base64 characters.
    assert_eq!(blob.len(), 64);
    assert!(blob.chars().all(|c| c.is_ascii_alphanumeric() || c == '+' || c == '/' || c == '='));
    assert!(!blob.contains("payload"));
}
