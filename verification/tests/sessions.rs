use ssh_core::error::{err, CoreError};
use ssh_core::known_hosts::KnownHostKey;
use ssh_core::model::{AuthMethod, HostEntry, SessionInfo};
use ssh_core::session::{
    agent_outcome, auth_failed, auth_plan_with, auth_succeeded, connect_outcome, connect_timeout,
    describe_failure, expand_tilde_in, host_port, key_to_pin, new_session_info, observation, prompt_for,
    rejected_key_error, require_identities, AuthOutcome, AuthPlan, ChannelEvent, ClientHandler,
    ConnectOutcome, ExecOutput, HostKeyObservation, HostKeyVerifier,
};
use ssh_core::terminal::{terminal_step, TermEvent, TERM_TYPE};

fn presented(fp: &str) -> HostKeyObservation {
    HostKeyObservation {
        key_type: "ssh-ed25519".into(),
        key_base64: "AAAAC3NzaC1lZDI1NTE5".into(),
        fingerprint: fp.into(),
    }
}

fn stale_key() -> KnownHostKey {
    KnownHostKey {
        host: "127.0.0.1".into(),
        port: 2222,
        key_type: "ssh-ed25519".into(),
        key_base64: "AAAA-stale".into(),
        fingerprint: "SHA256:stale-pinned-fingerprint".into(),
        added_at: 0,
    }
}

fn host() -> HostEntry {
    HostEntry {
        id: "test-host".into(),
        name: "Test Server".into(),
        host: "127.0.0.1".into(),
        port: 2222,
        username: "testuser".into(),
        auth_method: AuthMethod::Password,
        key_path: None,
        tags: vec![],
        notes: None,
        health_enabled: false,
        health_interval_secs: 60,
    }
}

#[test]
fn host_key_unknown_then_approved() {
    // First contact: no pin, nothing approved.
    let mut v = HostKeyVerifier::new(None, None);
    assert!(!v.check(presented("SHA256:real")));
    assert_eq!(v.observed().unwrap().fingerprint, "SHA256:real");
    assert!(!v.accepted_new());
    let e = rejected_key_error(&Some(v), "127.0.0.1", 2222, "unknown key".into());
    assert!(matches!(&e, CoreError::HostKeyUnknown { host, fingerprint, .. }
        if host == "127.0.0.1:2222" && fingerprint == "SHA256:real"));
    let prompt = prompt_for(&e).unwrap();
    assert_eq!(prompt.known_fingerprint, None);
    assert!(prompt.fingerprint.starts_with("SHA256:"));

    // Retry with the approved fingerprint: accepted, and to be pinned.
    let mut v = HostKeyVerifier::new(None, Some(prompt.fingerprint.clone()));
    assert!(v.check(presented("SHA256:real")));
    assert!(v.accepted_new());
    assert_eq!(key_to_pin(&v).unwrap().fingerprint, "SHA256:real");
}

#[test]
fn host_key_mismatch_then_replaced() {
    let mut v = HostKeyVerifier::new(Some(stale_key()), None);
    assert!(!v.check(presented("SHA256:real")));
    let e = rejected_key_error(&Some(v), "127.0.0.1", 2222, "unknown key".into());
    match &e {
        CoreError::HostKeyMismatch { fingerprint, expected, .. } => {
            assert_eq!(fingerprint, "SHA256:real");
            assert_eq!(expected, "SHA256:stale-pinned-fingerprint");
        }
        _ => panic!("changed host key must fail with HostKeyMismatch"),
    }
    let prompt = prompt_for(&e).unwrap();
    assert_eq!(prompt.known_fingerprint.as_deref(), Some("SHA256:stale-pinned-fingerprint"));

    let mut v = HostKeyVerifier::new(Some(stale_key()), Some("SHA256:real".into()));
    assert!(v.check(presented("SHA256:real")));
    assert!(v.accepted_new());
}

#[test]
fn host_key_pinned_match_needs_no_pin() {
    let mut pinned = stale_key();
    pinned.fingerprint = "SHA256:real".into();
    let mut v = HostKeyVerifier::new(Some(pinned), None);
    assert!(v.check(presented("SHA256:real")));
    assert!(!v.accepted_new());
    assert!(key_to_pin(&v).is_none());
}

#[test]
fn host_key_rejection_without_observation() {
    let e = rejected_key_error(&None, "h", 22, "unknown key".into());
    assert!(matches!(e, CoreError::Ssh(ref m) if m == "unknown key"));
    let e = rejected_key_error(&Some(HostKeyVerifier::new(None, None)), "h", 22, "unknown key".into());
    assert!(matches!(e, CoreError::Ssh(ref m) if m == "unknown key"));
    assert!(prompt_for(&e).is_none());
}

#[test]
fn client_handler_without_policy_accepts() {
    let mut handler = ClientHandler::new(None);
    assert!(handler.check_server_key(presented("SHA256:any")));
    let mut handler = ClientHandler::new(Some(HostKeyVerifier::new(None, None)));
    assert!(!handler.check_server_key(presented("SHA256:any")));
    assert_eq!(handler.verifier.unwrap().observed().unwrap().fingerprint, "SHA256:any");
}

#[test]
fn connect_outcome_variants() {
    let info = SessionInfo {
        id: "s".into(),
        host_id: "h".into(),
        host_name: "n".into(),
        connected_at: 1,
    };
    assert!(matches!(connect_outcome(Ok(info)), Ok(ConnectOutcome::Connected { ref session }) if session.id == "s"));
    let unknown = CoreError::HostKeyUnknown {
        host: "h:22".into(),
        key_type: "ssh-ed25519".into(),
        fingerprint: "SHA256:x".into(),
    };
    match connect_outcome(Err(unknown)) {
        Ok(ConnectOutcome::HostKeyPrompt { prompt }) => {
            assert_eq!(prompt.fingerprint, "SHA256:x");
            assert_eq!(prompt.host, "h:22");
            assert_eq!(prompt.known_fingerprint, None);
        }
        _ => panic!("first connection must prompt for the host key"),
    }
    assert!(matches!(connect_outcome(Err(CoreError::MissingCredential)), Err(CoreError::MissingCredential)));
}

#[test]
fn session_info_for_host() {
    let s = new_session_info(&host());
    assert_eq!(s.id.len(), 36);
    assert_eq!(s.host_id, "test-host");
    assert_eq!(s.host_name, "Test Server");
}

#[test]
fn auth_failure_descriptions() {
    assert_eq!(describe_failure(&AuthOutcome::Success), "success");
    let none = AuthOutcome::Failure { remaining_methods: vec![] };
    assert_eq!(describe_failure(&none), "server rejected all methods");
    let some = AuthOutcome::Failure { remaining_methods: vec!["PUBLICKEY".into(), "PASSWORD".into()] };
    assert_eq!(describe_failure(&some), "server accepts: PUBLICKEY, PASSWORD");
    assert!(matches!(auth_failed(&none), CoreError::AuthFailed(ref m) if m == "server rejected all methods"));
    assert!(auth_succeeded(&AuthOutcome::Success));
    assert!(!auth_succeeded(&some));
}

#[test]
fn auth_agent_decisions() {
    assert!(require_identities(2).is_ok());
    assert!(matches!(require_identities(0), Err(CoreError::AuthFailed(ref m)) if m == "ssh-agent has no identities"));
    assert!(matches!(agent_outcome(None), AuthOutcome::Failure { ref remaining_methods } if remaining_methods.is_empty()));
    assert!(matches!(agent_outcome(Some(AuthOutcome::Success)), AuthOutcome::Success));
}

#[test]
fn auth_plans() {
    assert!(matches!(
        auth_plan_with(AuthMethod::Password, None, Some("pw".into())),
        Ok(AuthPlan::Password { ref password }) if password == "pw"
    ));
    assert!(matches!(auth_plan_with(AuthMethod::Password, None, None), Err(CoreError::MissingCredential)));
    assert!(matches!(
        auth_plan_with(AuthMethod::Key, None, None),
        Err(CoreError::Other(ref m)) if m == "no key path configured"
    ));
    assert!(matches!(
        auth_plan_with(AuthMethod::Key, Some("/k".into()), Some("pp".into())),
        Ok(AuthPlan::Key { ref path, ref passphrase }) if path == "/k" && passphrase.as_deref() == Some("pp")
    ));
    assert!(matches!(auth_plan_with(AuthMethod::Agent, None, None), Ok(AuthPlan::Agent)));
}

#[test]
fn tilde_expansion() {
    assert_eq!(expand_tilde_in("~/.ssh/id_ed25519", Some("/home/me".into())), "/home/me/.ssh/id_ed25519");
    assert_eq!(expand_tilde_in("~/.ssh/id_ed25519", Some("/home/me/".into())), "/home/me/.ssh/id_ed25519");
    assert_eq!(expand_tilde_in("~/.ssh/id", None), "~/.ssh/id");
    assert_eq!(expand_tilde_in("/etc/key", Some("/home/me".into())), "/etc/key");
    assert_eq!(expand_tilde_in("~user/key", Some("/home/me".into())), "~user/key");
}

#[test]
fn error_texts() {
    assert_eq!(host_port("example.com", 22), "example.com:22");
    assert!(matches!(connect_timeout("h"), CoreError::Other(ref m) if m == "timed out connecting to h"));
    assert_eq!(err(CoreError::HostNotFound("x".into())), "host not found: x");
    assert_eq!(err(CoreError::MissingCredential), "no stored credential for host");
    assert_eq!(err(CoreError::other("boom")), "boom");
    assert_eq!(CoreError::SessionNotFound("s".into()).message(), "session not found: s");
    assert_eq!(
        CoreError::HostKeyMismatch {
            host: "h:22".into(),
            key_type: "ssh-ed25519".into(),
            fingerprint: "SHA256:new".into(),
            expected: "SHA256:old".into(),
        }
        .message(),
        "host key for h:22 changed: ssh-ed25519 SHA256:new (expected SHA256:old)"
    );
}

#[test]
fn key_observation_from_openssh_line() {
    let o = observation("ssh-ed25519".into(), "ssh-ed25519 AAAAblob comment", "SHA256:f".into());
    assert_eq!(o.key_base64, "AAAAblob");
    assert_eq!(o.key_type, "ssh-ed25519");
    let o = observation("ssh-ed25519".into(), "", "SHA256:f".into());
    assert_eq!(o.key_base64, "");
}

#[test]
fn exec_output_collects_streams() {
    let mut out = ExecOutput::new();
    out.absorb(&ChannelEvent::Data(b"hel".to_vec()));
    out.absorb(&ChannelEvent::ExtendedData(b"lo".to_vec()));
    out.absorb(&ChannelEvent::ExitStatus(3));
    out.absorb(&ChannelEvent::Eof);
    assert_eq!(out.out, b"hello".to_vec());
    assert_eq!(out.code, 3);
}

#[test]
fn terminal_steps() {
    assert!(matches!(terminal_step(Some(ChannelEvent::Data(b"ls\n".to_vec()))), (Some(TermEvent::Data(ref d)), true) if d == b"ls\n"));
    assert!(matches!(terminal_step(Some(ChannelEvent::ExtendedData(b"e".to_vec()))), (Some(TermEvent::Data(_)), true)));
    assert!(matches!(terminal_step(Some(ChannelEvent::ExitStatus(0))), (None, true)));
    assert!(matches!(terminal_step(Some(ChannelEvent::Eof)), (Some(TermEvent::Exit), false)));
    assert!(matches!(terminal_step(Some(ChannelEvent::Close)), (Some(TermEvent::Exit), false)));
    assert!(matches!(terminal_step(None), (Some(TermEvent::Exit), false)));
    assert_eq!(TERM_TYPE, "xterm-256color");
}

#[test]
fn host_key_accepted_new_over_many_checks() {
    // Pinned key matches every time: never raised.
    let mut pinned = stale_key();
    pinned.fingerprint = "SHA256:real".into();
    let mut v = HostKeyVerifier::new(Some(pinned), Some("SHA256:other".into()));
    for _ in 0..3 {
        assert!(v.check(presented("SHA256:real")));
    }
    assert!(!v.accepted_new());
    // Raised by one approved key, and kept after a later rejection.
    assert!(v.check(presented("SHA256:other")));
    assert!(v.accepted_new());
    assert!(!v.check(presented("SHA256:unknown")));
    assert!(v.accepted_new());
}
