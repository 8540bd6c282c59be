use ssh_core::error::CoreError;
use ssh_core::hosts::HostStore;
use ssh_core::known_hosts::{KnownHostKey, KnownHostsStore};
use ssh_core::manager::{connect_plan, pin_approved_key, set_secret};
use ssh_core::model::{AuthMethod, HostEntry};
use ssh_core::session::{HostKeyObservation, HostKeyVerifier};
use ssh_core::vault::Vault;

fn box_entry() -> HostEntry {
    HostEntry {
        id: String::new(),
        name: "Box".into(),
        host: "example.com".into(),
        port: 22,
        username: "root".into(),
        auth_method: AuthMethod::Agent,
        key_path: None,
        tags: vec!["prod".into()],
        notes: None,
        health_enabled: false,
        health_interval_secs: 60,
    }
}

#[test]
fn host_key_store_persists() {
    let mut store = KnownHostsStore::from_keys(Vec::new());
    store.pin("example.com", 22, "ssh-ed25519", "AAAAtest", "SHA256:abc");

    // What is written out is what is read back.
    let mut reopened = KnownHostsStore::from_keys(store.list());
    let key = reopened.get("example.com", 22).expect("pinned key persists");
    assert_eq!(key.fingerprint, "SHA256:abc");
    assert!(reopened.get("example.com", 2222).is_none());

    // Re-pinning replaces, forgetting removes.
    reopened.pin("example.com", 22, "ssh-ed25519", "AAAAnew", "SHA256:def");
    assert_eq!(reopened.list().len(), 1);
    reopened.forget("example.com", 22);
    let after = KnownHostsStore::from_keys(reopened.list());
    assert!(after.get("example.com", 22).is_none());
}

#[test]
fn host_key_store_keeps_other_hosts() {
    let mut store = KnownHostsStore::from_keys(Vec::new());
    store.pin("a.example", 22, "ssh-ed25519", "AAAA1", "SHA256:one");
    store.pin("a.example", 2222, "ssh-rsa", "AAAA2", "SHA256:two");
    store.pin("b.example", 22, "ssh-ed25519", "AAAA3", "SHA256:three");
    assert_eq!(store.list().len(), 3);
    store.pin("a.example", 22, "ssh-ed25519", "AAAA4", "SHA256:four");
    assert_eq!(store.list().len(), 3);
    assert_eq!(store.get("a.example", 22).unwrap().fingerprint, "SHA256:four");
    assert_eq!(store.get("a.example", 2222).unwrap().key_base64, "AAAA2");
    store.forget("b.example", 22);
    assert!(store.get("b.example", 22).is_none());
    assert_eq!(store.get("a.example", 2222).unwrap().fingerprint, "SHA256:two");
    // Forgetting an unknown key is a no-op.
    store.forget("c.example", 22);
    assert_eq!(store.list().len(), 2);
}

#[test]
fn host_key_store_pin_key_replaces() {
    let mut store = KnownHostsStore::from_keys(Vec::new());
    store.pin_key(KnownHostKey {
        host: "h".into(),
        port: 22,
        key_type: "ssh-ed25519".into(),
        key_base64: "AAAA".into(),
        fingerprint: "SHA256:x".into(),
        added_at: 10,
    });
    store.pin_key(KnownHostKey {
        host: "h".into(),
        port: 22,
        key_type: "ssh-ed25519".into(),
        key_base64: "BBBB".into(),
        fingerprint: "SHA256:y".into(),
        added_at: 20,
    });
    let listed = store.list();
    assert_eq!(listed.len(), 1);
    assert_eq!(listed[0].added_at, 20);
    assert_eq!(listed[0].fingerprint, "SHA256:y");
}

#[test]
fn credentials_host_store_crud() {
    let mut store = HostStore::from_hosts(Vec::new());

    let saved = store.save(box_entry()).unwrap();
    assert!(!saved.id.is_empty());

    // What is written out is what is read back.
    let mut store2 = HostStore::from_hosts(store.list());
    assert_eq!(store2.list().len(), 1);
    assert_eq!(store2.get(&saved.id).unwrap().name, "Box");

    // Validation.
    assert!(store2.save(HostEntry { port: 0, ..saved.clone() }).is_err());

    store2.delete(&saved.id).unwrap();
    assert!(store2.list().is_empty());
    assert!(store2.delete(&saved.id).is_err());
}

#[test]
fn host_store_validation_messages() {
    let mut store = HostStore::from_hosts(Vec::new());
    let blank_name = store.save(HostEntry { name: "   ".into(), ..box_entry() });
    assert!(matches!(blank_name, Err(CoreError::Other(ref m)) if m == "name and host are required"));
    let blank_host = store.save(HostEntry { host: String::new(), ..box_entry() });
    assert!(matches!(blank_host, Err(CoreError::Other(ref m)) if m == "name and host are required"));
    let zero_port = store.save(HostEntry { port: 0, ..box_entry() });
    assert!(matches!(zero_port, Err(CoreError::Other(ref m)) if m == "port must be between 1 and 65535"));
    let unknown = store.save(HostEntry { id: "missing".into(), ..box_entry() });
    assert!(matches!(unknown, Err(CoreError::HostNotFound(ref m)) if m == "missing"));
    assert!(store.list().is_empty());
}

#[test]
fn host_store_update_replaces_entry() {
    let mut store = HostStore::from_hosts(Vec::new());
    let first = store.save(box_entry()).unwrap();
    let second = store.save(HostEntry { name: "Other".into(), ..box_entry() }).unwrap();
    assert_eq!(first.id.len(), 36);
    assert_ne!(first.id, second.id);

    let updated = store.save(HostEntry { port: 2222, ..first.clone() }).unwrap();
    assert_eq!(updated.port, 2222);
    let listed = store.list();
    assert_eq!(listed.len(), 2);
    assert_eq!(listed[0].id, first.id);
    assert_eq!(listed[0].port, 2222);
    assert_eq!(listed[1].name, "Other");
    assert_eq!(store.get(&first.id).unwrap().tags, vec!["prod".to_string()]);
}

#[test]
fn host_store_unknown_host() {
    let store = HostStore::from_hosts(Vec::new());
    assert!(matches!(store.get("nope"), Err(CoreError::HostNotFound(ref m)) if m == "nope"));
}

#[test]
fn manager_decisions_over_stores() {
    let mut hosts = HostStore::from_hosts(Vec::new());
    let saved = hosts.save(HostEntry { port: 2222, host: "127.0.0.1".into(), ..box_entry() }).unwrap();
    let mut vault = Vault::ephemeral(b"master-key-bytes").unwrap();
    let mut known = KnownHostsStore::from_keys(Vec::new());

    // Credentials only for known hosts.
    assert!(matches!(set_secret(&hosts, &mut vault, "ghost", "pw"), Err(CoreError::HostNotFound(ref m)) if m == "ghost"));
    assert!(!vault.contains("ghost"));
    set_secret(&hosts, &mut vault, &saved.id, "sekret").unwrap();

    // First contact: nothing pinned, nothing approved.
    let plan = connect_plan(&hosts, &vault, &known, &saved.id, None).unwrap();
    assert_eq!(plan.host.id, saved.id);
    assert_eq!(plan.secret.as_deref(), Some("sekret"));
    assert!(plan.verifier.expected.is_none());
    assert!(matches!(connect_plan(&hosts, &vault, &known, "nope", None), Err(CoreError::HostNotFound(_))));

    // The approved key gets pinned for the host's address.
    let mut verifier = HostKeyVerifier::new(None, Some("SHA256:real".into()));
    assert!(verifier.check(HostKeyObservation {
        key_type: "ssh-ed25519".into(),
        key_base64: "AAAA".into(),
        fingerprint: "SHA256:real".into(),
    }));
    pin_approved_key(&mut known, &plan.host, &verifier);
    assert_eq!(known.get("127.0.0.1", 2222).unwrap().fingerprint, "SHA256:real");

    // Next time the pinned key is expected and nothing new is pinned.
    let plan = connect_plan(&hosts, &vault, &known, &saved.id, None).unwrap();
    assert_eq!(plan.verifier.expected.as_ref().unwrap().fingerprint, "SHA256:real");
    let mut verifier = plan.verifier;
    assert!(verifier.check(HostKeyObservation {
        key_type: "ssh-ed25519".into(),
        key_base64: "AAAA".into(),
        fingerprint: "SHA256:real".into(),
    }));
    pin_approved_key(&mut known, &plan.host, &verifier);
    assert_eq!(known.list().len(), 1);
}
