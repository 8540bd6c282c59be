//! Port forwarding: local (-L), remote (-R) and dynamic SOCKS5 (-D). The
//! listeners and tunnels run in the shell; the forward's description, the
//! remote registration and the SOCKS5 exchange are decided here.

use vstd::prelude::*;

use crate::error::{prefixed, CoreError};
use crate::ids::new_id;
use crate::model::opt_view;
use crate::session::host_port;
use crate::session::host_label;

verus! {

/// The kind of a forward.
#[derive(Debug, Clone, Copy, PartialEq, Eq, Structural)]
pub enum ForwardKind {
    Local,
    Remote,
    Dynamic,
}

/// What to forward: listen on `bind_host:bind_port` (0 lets the system or
/// the server pick) and, except for SOCKS5, relay to
/// `target_host:target_port`.
#[derive(Debug)]
pub struct ForwardSpec {
    pub kind: ForwardKind,
    pub bind_host: String,
    pub bind_port: u16,
    pub target_host: String,
    pub target_port: u16,
}

/// What a `ForwardSpec` holds, as plain values.
pub struct ForwardSpecView {
    pub kind: ForwardKind,
    pub bind_host: Seq<char>,
    pub bind_port: u16,
    pub target_host: Seq<char>,
    pub target_port: u16,
}

impl View for ForwardSpec {
    type V = ForwardSpecView;

    open spec fn view(&self) -> ForwardSpecView {
        ForwardSpecView {
            kind: self.kind,
            bind_host: self.bind_host@,
            bind_port: self.bind_port,
            target_host: self.target_host@,
            target_port: self.target_port,
        }
    }
}

impl Clone for ForwardSpec {
    fn clone(&self) -> (r: Self)
        ensures
            r@ == self@,
    {
        ForwardSpec {
            kind: self.kind,
            bind_host: self.bind_host.clone(),
            bind_port: self.bind_port,
            target_host: self.target_host.clone(),
            target_port: self.target_port,
        }
    }
}

/// A running forward, as the UI sees it.
#[derive(Debug)]
pub struct ForwardInfo {
    pub id: String,
    pub session_id: String,
    pub host_name: String,
    pub spec: ForwardSpec,
    pub status: String,
    pub error: Option<String>,
}

/// What a `ForwardInfo` holds, as plain values.
pub struct ForwardInfoView {
    pub id: Seq<char>,
    pub session_id: Seq<char>,
    pub host_name: Seq<char>,
    pub spec: ForwardSpecView,
    pub status: Seq<char>,
    pub error: Option<Seq<char>>,
}

impl View for ForwardInfo {
    type V = ForwardInfoView;

    open spec fn view(&self) -> ForwardInfoView {
        ForwardInfoView {
            id: self.id@,
            session_id: self.session_id@,
            host_name: self.host_name@,
            spec: self.spec@,
            status: self.status@,
            error: opt_view(self.error),
        }
    }
}

/// The views of the forwards `v`.
pub open spec fn forward_info_views(v: Seq<ForwardInfo>) -> Seq<ForwardInfoView> {
    v.map_values(|f: ForwardInfo| f@)
}

impl Clone for ForwardInfo {
    fn clone(&self) -> (r: Self)
        ensures
            r@ == self@,
    {
        ForwardInfo {
            id: self.id.clone(),
            session_id: self.session_id.clone(),
            host_name: self.host_name.clone(),
            spec: self.spec.clone(),
            status: self.status.clone(),
            error: crate::model::copy_opt_string(&self.error),
        }
    }
}

/// The description of a new forward of `spec` over session `session_id`
/// to host `host_name`: a fresh id, status `active`, no error.
pub fn new_forward_info(session_id: String, host_name: String, spec: ForwardSpec) -> (f: ForwardInfo)
    ensures
        f.id@.len() == 36,
        f.session_id == session_id,
        f.host_name == host_name,
        f.spec == spec,
        f.status@ == "active"@,
        f.error is None,
{
    ForwardInfo {
        id: new_id(),
        session_id,
        host_name,
        spec,
        status: "active".to_owned(),
        error: None,
    }
}

/// The port a remote forward listens on once the server answered with
/// `allocated`: the one asked for, or the server's pick when 0 was asked.
pub open spec fn remote_port(requested: u16, allocated: u32) -> u32 {
    if requested == 0 {
        allocated
    } else {
        requested as u32
    }
}

/// The port a remote forward listens on.
pub fn remote_bound_port(requested: u16, allocated: u32) -> (p: u32)
    ensures
        p == remote_port(requested, allocated),
{
    if requested == 0 {
        allocated
    } else {
        requested as u32
    }
}

/// The error for a listener that could not be bound.
pub fn bind_error(host: &str, port: u16, message: &str) -> (e: CoreError)
    ensures
        e matches CoreError::Other(m) && m@ == "couldn't bind "@ + host_label(host@, port) + ": "@
            + message@,
{
    let mut s = prefixed("couldn't bind ", host_port(host, port).as_str());
    s.append(": ");
    s.append(message);
    CoreError::Other(s)
}

/// The error for a remote forward the server refused.
pub fn refused_error(message: &str) -> (e: CoreError)
    ensures
        e matches CoreError::Other(m) && m@ == "server refused remote forward: "@ + message@,
{
    CoreError::Other(prefixed("server refused remote forward: ", message))
}

/// The error for a SOCKS5 tunnel that could not be opened.
pub fn tunnel_error(message: &str) -> (e: CoreError)
    ensures
        e matches CoreError::Other(m) && m@ == "tunnel failed: "@ + message@,
{
    CoreError::Other(prefixed("tunnel failed: ", message))
}

/// The SOCKS5 protocol version.
pub const SOCKS_VERSION: u8 = 5;

/// The reply to a greeting: version 5, no authentication.
pub fn socks5_method_reply() -> (r: Vec<u8>)
    ensures
        r@ == seq![5u8, 0u8],
{
    let mut r: Vec<u8> = Vec::new();
    r.push(5);
    r.push(0);
    r
}

/// A SOCKS5 reply with code `code` and an all-zero IPv4 bound address.
pub open spec fn reply_bytes(code: u8) -> Seq<u8> {
    seq![5u8, code, 0u8, 1u8, 0u8, 0u8, 0u8, 0u8, 0u8, 0u8]
}

/// The SOCKS5 reply with code `code` (0 success, 5 refused, 7 command not
/// supported, 8 address type not supported).
pub fn socks5_reply(code: u8) -> (r: Vec<u8>)
    ensures
        r@ == reply_bytes(code),
{
    let mut r: Vec<u8> = Vec::new();
    r.push(5);
    r.push(code);
    r.push(0);
    r.push(1);
    let mut i: usize = 0;
    while i < 6
        invariant
            i <= 6,
            r@ == seq![5u8, code, 0u8, 1u8] + Seq::new(i as nat, |k: int| 0u8),
        decreases 6 - i,
    {
        r.push(0);
        assert(r@ =~= seq![5u8, code, 0u8, 1u8] + Seq::new((i + 1) as nat, |k: int| 0u8));
        i = i + 1;
    }
    assert(r@ =~= reply_bytes(code));
    r
}

/// The address form of a SOCKS5 CONNECT request.
#[derive(Debug, Clone, Copy, PartialEq, Eq, Structural)]
pub enum AddressKind {
    /// Four address bytes follow.
    Ipv4,
    /// A length byte and that many name bytes follow.
    Domain,
    /// Sixteen address bytes follow.
    Ipv6,
}

/// What a SOCKS5 server does next in an exchange, given every byte the
/// client has sent so far.
#[derive(Debug)]
pub enum Socks5Step {
    /// Send `write` (possibly nothing), then read `read` more bytes.
    Continue { write: Vec<u8>, read: usize },
    /// Open a tunnel to the address `addr` (4 or 16 address bytes, or the
    /// bytes of a host name) and `port`.
    Connect { kind: AddressKind, addr: Vec<u8>, port: u16 },
    /// Send `reply` (possibly nothing) and give up with `error`.
    Fail { reply: Vec<u8>, error: CoreError },
}

/// `r` asks to send `w` and then read `n` more bytes.
pub open spec fn continues(r: Socks5Step, w: Seq<u8>, n: int) -> bool {
    r matches Socks5Step::Continue { write, read } && write@ == w && read == n
}

/// `r` gives up, sending `reply`, with the error message `m`.
pub open spec fn fails(r: Socks5Step, reply: Seq<u8>, m: Seq<char>) -> bool {
    r matches Socks5Step::Fail { reply: x, error } && x@ == reply && (error matches CoreError::Other(e)
        && e@ == m)
}

/// The step once the address of length `alen` starts at `start` in `s`:
/// read up to the two port bytes after it, then connect.
pub open spec fn address_step(r: Socks5Step, s: Seq<u8>, start: int, alen: int, kind: AddressKind) -> bool {
    let end = start + alen + 2;
    if s.len() < end {
        continues(r, Seq::empty(), end - s.len())
    } else {
        r matches Socks5Step::Connect { kind: k, addr, port } && k == kind && addr@ == s.subrange(
            start,
            start + alen,
        ) && port == s[end - 2] * 256 + s[end - 1]
    }
}

/// The SOCKS5 exchange (RFC 1928, no authentication, CONNECT only) as far
/// as the client's bytes `s` go: the greeting `5 n` and `n` method bytes
/// are answered with `5 0`; the request `5 1 0 ATYP` is followed by an
/// IPv4 (1), host name (3, length first) or IPv6 (4) address and a
/// big-endian port. Another version is refused without a reply, another
/// command with reply code 7, another address type with code 8.
pub open spec fn socks5_exchange(r: Socks5Step, s: Seq<u8>) -> bool {
    if s.len() < 2 {
        continues(r, Seq::empty(), 2 - s.len())
    } else if s[0] != 5 {
        fails(r, Seq::empty(), "not SOCKS5"@)
    } else {
        let m = 2 + s[1];
        let q = m + 4;
        if s.len() < m {
            continues(r, Seq::empty(), m - s.len())
        } else if s.len() == m {
            continues(r, seq![5u8, 0u8], 4)
        } else if s.len() < q {
            continues(r, Seq::empty(), q - s.len())
        } else if s[m + 1] != 1 {
            fails(r, reply_bytes(7), "only CONNECT supported"@)
        } else if s[m + 3] == 1 {
            address_step(r, s, q, 4, AddressKind::Ipv4)
        } else if s[m + 3] == 4 {
            address_step(r, s, q, 16, AddressKind::Ipv6)
        } else if s[m + 3] == 3 {
            if s.len() == q {
                continues(r, Seq::empty(), 1)
            } else {
                address_step(r, s, q + 1, s[q] as int, AddressKind::Domain)
            }
        } else {
            fails(r, reply_bytes(8), "bad address type"@)
        }
    }
}

/// A client's greeting offering the methods `methods`, followed by a
/// CONNECT request with address type `atyp`, address field `a` and the
/// port bytes `hi lo`.
pub open spec fn connect_bytes(methods: Seq<u8>, atyp: u8, a: Seq<u8>, hi: u8, lo: u8) -> Seq<u8> {
    seq![5u8, methods.len() as u8] + methods + seq![5u8, 1u8, 0u8, atyp] + a + seq![hi, lo]
}

/// Where the fields of `connect_bytes(methods, atyp, a, hi, lo)` stand.
proof fn lemma_connect_bytes(methods: Seq<u8>, atyp: u8, a: Seq<u8>, hi: u8, lo: u8)
    requires
        methods.len() < 256,
    ensures
        ({
            let s = connect_bytes(methods, atyp, a, hi, lo);
            let m: int = 2 + methods.len() as int;
            &&& s.len() == m + 4 + a.len() + 2
            &&& s[0] == 5
            &&& s[1] == methods.len()
            &&& s[m + 1] == 1
            &&& s[m + 3] == atyp
            &&& s.subrange(m + 4, m + 4 + a.len()) == a
            &&& s[m + 4 + a.len()] == hi
            &&& s[m + 4 + a.len() + 1] == lo
        }),
{
    let s = connect_bytes(methods, atyp, a, hi, lo);
    let m: int = 2 + methods.len() as int;
    let g = seq![5u8, methods.len() as u8] + methods;
    let req = g + seq![5u8, 1u8, 0u8, atyp];
    let full = req + a;
    assert(g.len() == m);
    assert(s[0] == g[0]);
    assert(s[1] == g[1]);
    assert(s[m + 1] == req[m + 1]);
    assert(s[m + 3] == req[m + 3]);
    assert(s.subrange(m + 4, m + 4 + a.len()) =~= a);
    assert(s[m + 4 + a.len()] == hi);
    assert(s[m + 4 + a.len() + 1] == lo);
}

/// A complete CONNECT request with address type 1 (RFC 1928) asks for a
/// tunnel to the IPv4 address of its four address bytes and its big-endian
/// port, whatever methods the greeting offered.
pub proof fn law_socks5_connect_ipv4(methods: Seq<u8>, a: Seq<u8>, hi: u8, lo: u8, r: Socks5Step)
    requires
        methods.len() < 256,
        a.len() == 4,
        socks5_exchange(r, connect_bytes(methods, 1, a, hi, lo)),
    ensures
        r matches Socks5Step::Connect { kind, addr, port } && kind == AddressKind::Ipv4 && addr@ == a
            && port == hi * 256 + lo,
{
    lemma_connect_bytes(methods, 1, a, hi, lo);
}

/// A complete CONNECT request with address type 4 asks for a tunnel to the
/// IPv6 address of its sixteen address bytes and its big-endian port.
pub proof fn law_socks5_connect_ipv6(methods: Seq<u8>, a: Seq<u8>, hi: u8, lo: u8, r: Socks5Step)
    requires
        methods.len() < 256,
        a.len() == 16,
        socks5_exchange(r, connect_bytes(methods, 4, a, hi, lo)),
    ensures
        r matches Socks5Step::Connect { kind, addr, port } && kind == AddressKind::Ipv6 && addr@ == a
            && port == hi * 256 + lo,
{
    lemma_connect_bytes(methods, 4, a, hi, lo);
}

/// A complete CONNECT request with address type 3 asks for a tunnel to the
/// host name that follows its length byte, and its big-endian port.
pub proof fn law_socks5_connect_domain(methods: Seq<u8>, name: Seq<u8>, hi: u8, lo: u8, r: Socks5Step)
    requires
        methods.len() < 256,
        name.len() < 256,
        socks5_exchange(r, connect_bytes(methods, 3, seq![name.len() as u8] + name, hi, lo)),
    ensures
        r matches Socks5Step::Connect { kind, addr, port } && kind == AddressKind::Domain && addr@
            == name && port == hi * 256 + lo,
{
    let a = seq![name.len() as u8] + name;
    lemma_connect_bytes(methods, 3, a, hi, lo);
    let s = connect_bytes(methods, 3, a, hi, lo);
    let q: int = 2 + methods.len() as int + 4;
    assert(s[q] == a[0]);
    assert(s.subrange(q + 1, q + 1 + name.len()) =~= a.subrange(1, a.len() as int));
    assert(a.subrange(1, a.len() as int) =~= name);
}

/// The bytes `s[lo..hi]`.
fn copy_bytes(s: &[u8], lo: usize, hi: usize) -> (v: Vec<u8>)
    requires
        lo <= hi <= s@.len(),
    ensures
        v@ == s@.subrange(lo as int, hi as int),
{
    let mut v: Vec<u8> = Vec::new();
    let mut i = lo;
    while i < hi
        invariant
            lo <= i <= hi,
            hi <= s@.len(),
            v@ == s@.subrange(lo as int, i as int),
        decreases hi - i,
    {
        v.push(s[i]);
        assert(v@ =~= s@.subrange(lo as int, i + 1));
        i = i + 1;
    }
    v
}

/// The step once an address of `alen` bytes starts at `start`.
fn address_next(s: &[u8], start: usize, alen: usize, kind: AddressKind) -> (r: Socks5Step)
    requires
        start + alen + 2 <= usize::MAX,
        start <= s@.len(),
    ensures
        address_step(r, s@, start as int, alen as int, kind),
{
    let end = start + alen + 2;
    if s.len() < end {
        return Socks5Step::Continue { write: Vec::new(), read: end - s.len() };
    }
    let addr = copy_bytes(s, start, start + alen);
    let port = (s[end - 2] as u16) * 256 + (s[end - 1] as u16);
    Socks5Step::Connect { kind, addr, port }
}

/// The next step of a SOCKS5 exchange in which the client has sent `s`.
pub fn socks5_next(s: &[u8]) -> (r: Socks5Step)
    ensures
        socks5_exchange(r, s@),
{
    if s.len() < 2 {
        return Socks5Step::Continue { write: Vec::new(), read: 2 - s.len() };
    }
    if s[0] != SOCKS_VERSION {
        return Socks5Step::Fail { reply: Vec::new(), error: CoreError::other("not SOCKS5") };
    }
    let m = 2 + s[1] as usize;
    let q = m + 4;
    if s.len() < m {
        return Socks5Step::Continue { write: Vec::new(), read: m - s.len() };
    }
    if s.len() == m {
        return Socks5Step::Continue { write: socks5_method_reply(), read: 4 };
    }
    if s.len() < q {
        return Socks5Step::Continue { write: Vec::new(), read: q - s.len() };
    }
    if s[m + 1] != 1 {
        return Socks5Step::Fail { reply: socks5_reply(7), error: CoreError::other("only CONNECT supported") };
    }
    let atyp = s[m + 3];
    if atyp == 1 {
        address_next(s, q, 4, AddressKind::Ipv4)
    } else if atyp == 4 {
        address_next(s, q, 16, AddressKind::Ipv6)
    } else if atyp == 3 {
        if s.len() == q {
            Socks5Step::Continue { write: Vec::new(), read: 1 }
        } else {
            address_next(s, q + 1, s[q] as usize, AddressKind::Domain)
        }
    } else {
        Socks5Step::Fail { reply: socks5_reply(8), error: CoreError::other("bad address type") }
    }
}

/// The end of the exchange once the tunnel was opened (`Ok`) or could not
/// be (`Err` with the reason): the reply to send, code 0 or 5 (connection
/// refused), and the outcome.
pub fn socks5_finish(opened: Result<(), String>) -> (r: (Vec<u8>, Result<(), CoreError>))
    ensures
        opened is Ok ==> r.0@ == reply_bytes(0) && r.1 is Ok,
        opened matches Err(m) ==> r.0@ == reply_bytes(5) && (r.1 matches Err(CoreError::Other(e)) && e@
            == "tunnel failed: "@ + m@),
{
    match opened {
        Ok(()) => (socks5_reply(0), Ok(())),
        Err(m) => (socks5_reply(5), Err(tunnel_error(m.as_str()))),
    }
}

} // verus!
