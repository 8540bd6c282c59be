use ssh_core::error::CoreError;
use ssh_core::forward::{new_forward_info, ForwardKind, ForwardSpec};
use ssh_core::model::SessionInfo;
use ssh_core::registry::Registry;

fn session(id: &str, host_id: &str, connected_at: u64) -> SessionInfo {
    SessionInfo {
        id: id.into(),
        host_id: host_id.into(),
        host_name: format!("name of {host_id}"),
        connected_at,
    }
}

fn local_spec() -> ForwardSpec {
    ForwardSpec {
        kind: ForwardKind::Local,
        bind_host: "127.0.0.1".into(),
        bind_port: 8080,
        target_host: "127.0.0.1".into(),
        target_port: 80,
    }
}

#[test]
fn registry_sessions_sorted_by_connection() {
    let mut reg = Registry::new();
    reg.add_session(session("s2", "h2", 20));
    reg.add_session(session("s1", "h1", 10));
    reg.add_session(session("s3", "h1", 30));
    let ids: Vec<String> = reg.list_sessions().into_iter().map(|s| s.id).collect();
    assert_eq!(ids, vec!["s1", "s2", "s3"]);
    assert!(reg.has_session("s2"));
    assert_eq!(reg.get_session("s3").unwrap().host_id, "h1");
    assert!(matches!(reg.get_session("nope"), Err(CoreError::SessionNotFound(ref m)) if m == "nope"));
    assert_eq!(reg.session_for_host("h1").unwrap().id, "s1");
    assert!(reg.session_for_host("h9").is_none());
}

#[test]
fn registry_cleanup_takes_down_session() {
    let mut reg = Registry::new();
    reg.add_session(session("s1", "h1", 10));
    reg.add_session(session("s2", "h2", 20));
    reg.add_terminal("t1".into(), "s1".into());
    reg.add_terminal("t2".into(), "s2".into());
    reg.add_terminal("t3".into(), "s1".into());
    let f1 = new_forward_info("s1".into(), "h1".into(), local_spec());
    let f2 = new_forward_info("s2".into(), "h2".into(), local_spec());
    let f2_id = f2.id.clone();
    reg.add_forward(f1);
    reg.add_forward(f2);

    let gone = reg.cleanup_session("s1");
    assert_eq!(gone.sessions.len(), 1);
    let terms: Vec<&str> = gone.terminals.iter().map(|t| t.term_id.as_str()).collect();
    assert_eq!(terms, vec!["t1", "t3"]);
    assert_eq!(gone.forwards.len(), 1);

    assert!(!reg.has_session("s1"));
    assert!(reg.has_session("s2"));
    assert!(matches!(reg.get_terminal("t1"), Err(CoreError::TerminalNotFound(ref m)) if m == "t1"));
    assert_eq!(reg.get_terminal("t2").unwrap(), "s2");
    let fwds = reg.list_forwards();
    assert_eq!(fwds.len(), 1);
    assert_eq!(fwds[0].id, f2_id);

    // Cleaning up everything leaves no sessions listed.
    reg.cleanup_session("s2");
    assert!(reg.list_sessions().is_empty());
}

#[test]
fn registry_terminals_and_forwards() {
    let mut reg = Registry::new();
    reg.add_terminal("t1".into(), "s1".into());
    assert!(reg.remove_terminal("t1"));
    assert!(!reg.remove_terminal("t1"));

    let f = new_forward_info("s1".into(), "h1".into(), local_spec());
    let id = f.id.clone();
    reg.add_forward(f);
    let taken = reg.remove_forward(&id).unwrap();
    assert_eq!(taken.len(), 1);
    assert_eq!(taken[0].spec.bind_port, 8080);
    assert!(matches!(reg.remove_forward(&id), Err(CoreError::ForwardNotFound(ref m)) if *m == id));
    assert!(reg.list_forwards().is_empty());
}

#[test]
fn registry_add_replaces_same_id() {
    let mut reg = Registry::new();
    reg.add_session(session("s1", "h1", 10));
    reg.add_session(session("s2", "h2", 20));
    reg.add_session(session("s1", "h3", 30));
    let listed = reg.list_sessions();
    assert_eq!(listed.len(), 2);
    assert_eq!(reg.get_session("s1").unwrap().host_id, "h3");

    reg.add_terminal("t".into(), "s1".into());
    reg.add_terminal("t".into(), "s2".into());
    assert_eq!(reg.get_terminal("t").unwrap(), "s2");

    let f = new_forward_info("s1".into(), "h1".into(), local_spec());
    let mut g = f.clone();
    g.session_id = "s2".into();
    reg.add_forward(f);
    reg.add_forward(g);
    let fwds = reg.list_forwards();
    assert_eq!(fwds.len(), 1);
    assert_eq!(fwds[0].session_id, "s2");
}
