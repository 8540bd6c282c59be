use ssh_core::error::CoreError;
use ssh_core::forward::{
    bind_error, new_forward_info, refused_error, remote_bound_port, socks5_finish, socks5_method_reply,
    socks5_next, socks5_reply, tunnel_error, AddressKind, ForwardKind, ForwardSpec, Socks5Step,
};
use ssh_core::session::{ClientHandler, RemoteForwards};

fn spec(kind: ForwardKind) -> ForwardSpec {
    ForwardSpec {
        kind,
        bind_host: "127.0.0.1".into(),
        bind_port: 0,
        target_host: "127.0.0.1".into(),
        target_port: 7000,
    }
}

#[test]
fn forward_info_describes_forward() {
    let info = new_forward_info("s1".into(), "Box".into(), spec(ForwardKind::Local));
    assert_eq!(info.id.len(), 36);
    assert_eq!(info.session_id, "s1");
    assert_eq!(info.host_name, "Box");
    assert_eq!(info.status, "active");
    assert!(info.error.is_none());
    assert_eq!(info.spec.kind, ForwardKind::Local);
    assert_eq!(info.spec.target_port, 7000);
}

#[test]
fn forward_remote_port_choice() {
    assert_eq!(remote_bound_port(0, 40000), 40000);
    assert_eq!(remote_bound_port(8022, 0), 8022);
    assert_eq!(remote_bound_port(8022, 9999), 8022);
}

#[test]
fn forward_error_messages() {
    assert!(matches!(bind_error("127.0.0.1", 80, "in use"), CoreError::Other(ref m) if m == "couldn't bind 127.0.0.1:80: in use"));
    assert!(matches!(refused_error("denied"), CoreError::Other(ref m) if m == "server refused remote forward: denied"));
    assert!(matches!(tunnel_error("no route"), CoreError::Other(ref m) if m == "tunnel failed: no route"));
}

fn expect_continue(step: Socks5Step) -> (Vec<u8>, usize) {
    match step {
        Socks5Step::Continue { write, read } => (write, read),
        other => panic!("expected to continue, got {other:?}"),
    }
}

#[test]
fn forward_socks5_exchange() {
    assert_eq!(socks5_method_reply(), vec![5, 0]);
    // Greeting: VER NMETHODS METHODS, answered with "no authentication".
    let mut input: Vec<u8> = Vec::new();
    assert_eq!(expect_continue(socks5_next(&input)), (vec![], 2));
    input.extend_from_slice(&[5, 1]);
    assert_eq!(expect_continue(socks5_next(&input)), (vec![], 1));
    input.push(0);
    assert_eq!(expect_continue(socks5_next(&input)), (vec![5, 0], 4));
    // CONNECT 127.0.0.1:8080
    input.extend_from_slice(&[5, 1, 0, 1]);
    assert_eq!(expect_continue(socks5_next(&input)), (vec![], 6));
    input.extend_from_slice(&[127, 0, 0, 1]);
    input.extend_from_slice(&8080u16.to_be_bytes());
    match socks5_next(&input) {
        Socks5Step::Connect { kind, addr, port } => {
            assert_eq!(kind, AddressKind::Ipv4);
            assert_eq!(addr, vec![127, 0, 0, 1]);
            assert_eq!(port, 8080);
        }
        other => panic!("expected a connect, got {other:?}"),
    }
    let (reply, outcome) = socks5_finish(Ok(()));
    assert_eq!(reply, vec![5, 0, 0, 1, 0, 0, 0, 0, 0, 0]);
    assert!(outcome.is_ok());
    let (reply, outcome) = socks5_finish(Err("refused".into()));
    assert_eq!(reply, vec![5, 5, 0, 1, 0, 0, 0, 0, 0, 0]);
    assert!(matches!(outcome, Err(CoreError::Other(ref m)) if m == "tunnel failed: refused"));
    assert_eq!(socks5_reply(0), vec![5, 0, 0, 1, 0, 0, 0, 0, 0, 0]);
}

#[test]
fn forward_socks5_domain_and_refusals() {
    // Host name: length byte, name, port.
    let mut input = vec![5, 2, 0, 2, 5, 1, 0, 3];
    assert_eq!(expect_continue(socks5_next(&input)), (vec![], 1));
    input.push(4);
    assert_eq!(expect_continue(socks5_next(&input)), (vec![], 6));
    input.extend_from_slice(b"host");
    input.extend_from_slice(&[0, 22]);
    match socks5_next(&input) {
        Socks5Step::Connect { kind, addr, port } => {
            assert_eq!(kind, AddressKind::Domain);
            assert_eq!(addr, b"host".to_vec());
            assert_eq!(port, 22);
        }
        other => panic!("expected a connect, got {other:?}"),
    }
    // IPv6 needs 16 address bytes.
    assert_eq!(expect_continue(socks5_next(&[5, 0, 5, 1, 0, 4])), (vec![], 18));

    match socks5_next(&[4, 1]) {
        Socks5Step::Fail { reply, error } => {
            assert!(reply.is_empty());
            assert!(matches!(error, CoreError::Other(ref m) if m == "not SOCKS5"));
        }
        other => panic!("expected a refusal, got {other:?}"),
    }
    match socks5_next(&[5, 0, 5, 2, 0, 1]) {
        Socks5Step::Fail { reply, error } => {
            assert_eq!(reply, vec![5, 7, 0, 1, 0, 0, 0, 0, 0, 0]);
            assert!(matches!(error, CoreError::Other(ref m) if m == "only CONNECT supported"));
        }
        other => panic!("expected a refusal, got {other:?}"),
    }
    match socks5_next(&[5, 0, 5, 1, 0, 9]) {
        Socks5Step::Fail { reply, error } => {
            assert_eq!(reply, vec![5, 8, 0, 1, 0, 0, 0, 0, 0, 0]);
            assert!(matches!(error, CoreError::Other(ref m) if m == "bad address type"));
        }
        other => panic!("expected a refusal, got {other:?}"),
    }
}

#[test]
fn forward_remote_registrations_route() {
    let mut fs = RemoteForwards::new();
    fs.insert("127.0.0.1".into(), 0, "localhost".into(), 7000);
    assert_eq!(fs.route("127.0.0.1", 0), Some(("localhost".to_string(), 7000)));
    // The server picked port 41000: the registration moves there.
    fs.rebind("127.0.0.1", 0, 41000, "fallback".into(), 1);
    assert_eq!(fs.route("127.0.0.1", 0), None);
    assert_eq!(fs.route("127.0.0.1", 41000), Some(("localhost".to_string(), 7000)));
    // The server may report another address for the same port.
    assert_eq!(fs.route("0.0.0.0", 41000), Some(("localhost".to_string(), 7000)));
    assert_eq!(fs.remove("127.0.0.1", 41000), Some(("localhost".to_string(), 7000)));
    assert_eq!(fs.route("0.0.0.0", 41000), None);
    assert_eq!(fs.remove("127.0.0.1", 41000), None);
}

#[test]
fn forward_rebind_missing_registration_uses_fallback() {
    let mut fs = RemoteForwards::new();
    fs.rebind("::1", 0, 5000, "target".into(), 22);
    assert_eq!(fs.route("::1", 5000), Some(("target".to_string(), 22)));
}

#[test]
fn forward_insert_replaces_same_binding() {
    let mut fs = RemoteForwards::new();
    fs.insert("a".into(), 1, "x".into(), 10);
    fs.insert("b".into(), 1, "y".into(), 20);
    fs.insert("a".into(), 1, "z".into(), 30);
    assert_eq!(fs.route("a", 1), Some(("z".to_string(), 30)));
    assert_eq!(fs.route("b", 1), Some(("y".to_string(), 20)));
    assert_eq!(fs.entries.len(), 2);
}

#[test]
fn forward_handler_routes_tunnels() {
    let mut handler = ClientHandler::new(None);
    assert_eq!(handler.forwarded_target("127.0.0.1", 22), None);
    handler.remote_forwards.insert("127.0.0.1".into(), 22, "localhost".into(), 2222);
    assert_eq!(handler.forwarded_target("127.0.0.1", 22), Some(("localhost".to_string(), 2222)));
}
