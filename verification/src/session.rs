//! The decisions of an SSH client session: the host key policy, how to
//! authenticate, how failures read, where forwarded connections go, and how
//! command and channel output is collected. The network exchange itself
//! runs in the shell, which hands each result back here.

use vstd::prelude::*;
use vstd::string::*;

use crate::error::{prefixed, CoreError};
use crate::known_hosts::{KnownHostKey, KnownHostKeyView};
use crate::model::{copy_opt_string, opt_view, AuthMethod, HostEntry, SessionInfo};
use crate::seqs::{first_index, lemma_first_index, lemma_first_index_end, lemma_first_index_step};
use crate::text::{
    chars_of, decimal, decimal_string, is_ws, lemma_words_after_ws, lemma_words_of_word, no_ws, views,
    words, words_of,
};

verus! {

/// The server key actually presented during key exchange.
#[derive(Debug)]
pub struct HostKeyObservation {
    pub key_type: String,
    pub key_base64: String,
    pub fingerprint: String,
}

/// What a `HostKeyObservation` holds, as plain values.
pub struct HostKeyObservationView {
    pub key_type: Seq<char>,
    pub key_base64: Seq<char>,
    pub fingerprint: Seq<char>,
}

impl View for HostKeyObservation {
    type V = HostKeyObservationView;

    open spec fn view(&self) -> HostKeyObservationView {
        HostKeyObservationView {
            key_type: self.key_type@,
            key_base64: self.key_base64@,
            fingerprint: self.fingerprint@,
        }
    }
}

impl Clone for HostKeyObservation {
    fn clone(&self) -> (r: Self)
        ensures
            r@ == self@,
    {
        HostKeyObservation {
            key_type: self.key_type.clone(),
            key_base64: self.key_base64.clone(),
            fingerprint: self.fingerprint.clone(),
        }
    }
}

/// The public key blob of an OpenSSH public key line (`type blob
/// [comment]`): its second whitespace-separated field, or nothing.
pub open spec fn key_blob(openssh: Seq<char>) -> Seq<char> {
    if words(openssh).len() > 1 {
        words(openssh)[1]
    } else {
        Seq::empty()
    }
}

/// The key blob of an OpenSSH line is its second field whenever the line
/// has two or more: for a type word `t`, one whitespace character `c`, a
/// blob word `b` and a rest that is empty or starts with whitespace (where
/// a comment may follow), the blob is `b`.
pub proof fn law_blob_is_second_word(t: Seq<char>, c: char, b: Seq<char>, rest: Seq<char>)
    requires
        t.len() > 0,
        b.len() > 0,
        no_ws(t),
        no_ws(b),
        is_ws(c),
        rest.len() == 0 || is_ws(rest[0]),
    ensures
        key_blob(t + seq![c] + b + rest) == b,
{
    let tail = b + rest;
    lemma_words_of_word(b, rest);
    lemma_words_after_ws(c, tail);
    assert((seq![c] + tail)[0] == c);
    lemma_words_of_word(t, seq![c] + tail);
    assert(t + seq![c] + b + rest =~= t + (seq![c] + tail));
}

/// The observation of a key with algorithm name `key_type`, OpenSSH
/// public key line `openssh` and fingerprint `fingerprint`.
pub fn observation(key_type: String, openssh: &str, fingerprint: String) -> (o: HostKeyObservation)
    ensures
        o.key_type == key_type,
        o.key_base64@ == key_blob(openssh@),
        o.fingerprint == fingerprint,
{
    let v = chars_of(openssh);
    let ws = words_of(&v, 0, v.len());
    assert(v@.subrange(0, v@.len() as int) =~= v@);
    let key_base64 = if ws.len() > 1 {
        assert(ws@[1]@ == views(ws@)[1]);
        ws[1].clone()
    } else {
        String::new()
    };
    HostKeyObservation { key_type, key_base64, fingerprint }
}

/// Host key policy for one connection attempt. The key is accepted when it
/// matches the pinned `expected` key, or when its fingerprint equals
/// `accept_fingerprint` (the fingerprint the user explicitly approved in a
/// trust prompt). Anything else aborts the handshake before authentication.
#[derive(Debug)]
pub struct HostKeyVerifier {
    pub expected: Option<KnownHostKey>,
    pub accept_fingerprint: Option<String>,
    pub observed: Option<HostKeyObservation>,
    pub accepted_new: bool,
}

/// Whether the policy (`expected`, `accept`) lets a key with fingerprint
/// `fp` through.
pub open spec fn key_accepted(expected: Option<KnownHostKeyView>, accept: Option<Seq<char>>, fp: Seq<char>) -> bool {
    (expected matches Some(e) && e.fingerprint == fp) || accept == Some(fp)
}

/// Whether a key with fingerprint `fp` gets through only by approval, so
/// that it should now be pinned.
pub open spec fn key_newly_accepted(expected: Option<KnownHostKeyView>, accept: Option<Seq<char>>, fp: Seq<char>) -> bool {
    !(expected matches Some(e) && e.fingerprint == fp) && accept == Some(fp)
}

/// The `accepted_new` flag of a verifier that started at `start` and then
/// checked keys with the fingerprints `fps`, in turn, under the policy
/// (`expected`, `accept`): each check raises it when that key gets through
/// by approval alone (see `HostKeyVerifier::check`).
pub open spec fn accepted_after(
    start: bool,
    expected: Option<KnownHostKeyView>,
    accept: Option<Seq<char>>,
    fps: Seq<Seq<char>>,
) -> bool
    decreases fps.len(),
{
    if fps.len() == 0 {
        start
    } else {
        accepted_after(start, expected, accept, fps.drop_last()) || key_newly_accepted(
            expected,
            accept,
            fps.last(),
        )
    }
}

/// Over any number of key checks, `accepted_new` is raised exactly when one
/// of the keys got through by approval alone (so it stays false while every
/// key matched the pin), and once raised it is never reset.
pub proof fn law_accepted_new_accumulates(
    start: bool,
    expected: Option<KnownHostKeyView>,
    accept: Option<Seq<char>>,
    fps: Seq<Seq<char>>,
    k: int,
)
    requires
        0 <= k <= fps.len(),
    ensures
        accepted_after(start, expected, accept, fps) == (start || exists|i: int|
            0 <= i < fps.len() && #[trigger] key_newly_accepted(expected, accept, fps[i])),
        accepted_after(start, expected, accept, fps.take(k)) ==> accepted_after(start, expected, accept, fps),
    decreases fps.len(),
{
    if fps.len() > 0 {
        let prev = fps.drop_last();
        if k == fps.len() {
            assert(fps.take(k) =~= fps);
            law_accepted_new_accumulates(start, expected, accept, prev, prev.len() as int);
        } else {
            assert(prev.take(k) =~= fps.take(k));
            law_accepted_new_accumulates(start, expected, accept, prev, k);
        }
        if accepted_after(start, expected, accept, fps) && !start {
            if accepted_after(start, expected, accept, prev) {
                let i = choose|i: int| 0 <= i < prev.len() && #[trigger] key_newly_accepted(expected, accept, prev[i]);
                assert(fps[i] == prev[i]);
            } else {
                assert(key_newly_accepted(expected, accept, fps[fps.len() - 1]));
            }
        }
        if exists|i: int| 0 <= i < fps.len() && #[trigger] key_newly_accepted(expected, accept, fps[i]) {
            let i = choose|i: int| 0 <= i < fps.len() && #[trigger] key_newly_accepted(expected, accept, fps[i]);
            if i < prev.len() {
                assert(prev[i] == fps[i]);
            }
        }
    } else {
        assert(fps.take(k) =~= fps);
    }
}

pub open spec fn opt_key_view(o: Option<KnownHostKey>) -> Option<KnownHostKeyView> {
    match o {
        Some(k) => Some(k@),
        None => None,
    }
}

pub open spec fn opt_obs_view(o: Option<HostKeyObservation>) -> Option<HostKeyObservationView> {
    match o {
        Some(k) => Some(k@),
        None => None,
    }
}

impl HostKeyVerifier {
    /// The policy that trusts `expected` and the approved fingerprint.
    pub fn new(expected: Option<KnownHostKey>, accept_fingerprint: Option<String>) -> (v: Self)
        ensures
            v.expected == expected,
            v.accept_fingerprint == accept_fingerprint,
            v.spec_observed() is None,
            !v.spec_accepted_new(),
    {
        HostKeyVerifier { expected, accept_fingerprint, observed: None, accepted_new: false }
    }

    /// The key the server presented, once key exchange has run.
    pub open spec fn spec_observed(&self) -> Option<HostKeyObservationView> {
        opt_obs_view(self.observed)
    }

    /// Whether a key was let through by approval alone.
    pub open spec fn spec_accepted_new(&self) -> bool {
        self.accepted_new
    }

    /// The key the server presented, once key exchange has run.
    pub fn observed(&self) -> (r: Option<HostKeyObservation>)
        ensures
            opt_obs_view(r) == self.spec_observed(),
    {
        match &self.observed {
            Some(o) => Some(o.clone()),
            None => None,
        }
    }

    /// True when a key not matching the pin was accepted via
    /// `accept_fingerprint` and should now be (re)pinned.
    pub fn accepted_new(&self) -> (b: bool)
        ensures
            b == self.spec_accepted_new(),
    {
        self.accepted_new
    }

    /// Judges the key the server presented: records it, and accepts it when
    /// it matches the pin or the approved fingerprint.
    pub fn check(&mut self, presented: HostKeyObservation) -> (ok: bool)
        ensures
            final(self).expected == old(self).expected,
            final(self).accept_fingerprint == old(self).accept_fingerprint,
            final(self).spec_observed() == Some(presented@),
            ok == key_accepted(
                opt_key_view(old(self).expected),
                opt_view(old(self).accept_fingerprint),
                presented@.fingerprint,
            ),
            final(self).spec_accepted_new() == (old(self).spec_accepted_new() || key_newly_accepted(
                opt_key_view(old(self).expected),
                opt_view(old(self).accept_fingerprint),
                presented@.fingerprint,
            )),
    {
        let pinned_match = match &self.expected {
            Some(e) => e.fingerprint == presented.fingerprint,
            None => false,
        };
        let ok = if pinned_match {
            true
        } else {
            let approved = match &self.accept_fingerprint {
                Some(a) => *a == presented.fingerprint,
                None => false,
            };
            if approved {
                self.accepted_new = true;
            }
            approved
        };
        self.observed = Some(presented);
        ok
    }
}

/// `host:port`.
pub open spec fn host_label(host: Seq<char>, port: u16) -> Seq<char> {
    host + ":"@ + decimal(port as nat)
}

/// Renders `host:port`.
pub fn host_port(host: &str, port: u16) -> (s: String)
    ensures
        s@ == host_label(host@, port),
{
    let mut s = prefixed(host, ":");
    let p = decimal_string(port as u64);
    s.append(p.as_str());
    s
}

/// The error for a handshake that the host key policy stopped: a key that
/// contradicts the pin, or one that nobody has pinned. Without an
/// observation the transport's own message stands.
pub fn rejected_key_error(verifier: &Option<HostKeyVerifier>, host: &str, port: u16, transport_message: String) -> (e: CoreError)
    ensures
        match verifier {
            Some(v) => match v.spec_observed() {
                Some(o) => match v.expected {
                    Some(x) => e matches CoreError::HostKeyMismatch { host: h, key_type, fingerprint, expected }
                        && h@ == host_label(host@, port) && key_type@ == o.key_type && fingerprint@
                        == o.fingerprint && expected@ == x@.fingerprint,
                    None => e matches CoreError::HostKeyUnknown { host: h, key_type, fingerprint }
                        && h@ == host_label(host@, port) && key_type@ == o.key_type && fingerprint@
                        == o.fingerprint,
                },
                None => e == CoreError::Ssh(transport_message),
            },
            None => e == CoreError::Ssh(transport_message),
        },
{
    let v = match verifier {
        Some(v) => v,
        None => {
            return CoreError::Ssh(transport_message);
        },
    };
    let o = match v.observed() {
        Some(o) => o,
        None => {
            return CoreError::Ssh(transport_message);
        },
    };
    match &v.expected {
        Some(x) => CoreError::HostKeyMismatch {
            host: host_port(host, port),
            key_type: o.key_type,
            fingerprint: o.fingerprint,
            expected: x.fingerprint.clone(),
        },
        None => CoreError::HostKeyUnknown {
            host: host_port(host, port),
            key_type: o.key_type,
            fingerprint: o.fingerprint,
        },
    }
}

/// A trust question for the user: the key the server presented and, if
/// one was pinned, the fingerprint it was expected to have.
#[derive(Debug)]
pub struct HostKeyPrompt {
    pub host: String,
    pub key_type: String,
    pub fingerprint: String,
    pub known_fingerprint: Option<String>,
}

/// The trust prompt that a host key error calls for, if it is one.
pub fn prompt_for(e: &CoreError) -> (p: Option<HostKeyPrompt>)
    ensures
        match e {
            CoreError::HostKeyUnknown { host, key_type, fingerprint } => p matches Some(q) && q.host
                == host && q.key_type == key_type && q.fingerprint == fingerprint
                && q.known_fingerprint is None,
            CoreError::HostKeyMismatch { host, key_type, fingerprint, expected } => p matches Some(q)
                && q.host == host && q.key_type == key_type && q.fingerprint == fingerprint
                && q.known_fingerprint == Some(*expected),
            _ => p is None,
        },
{
    match e {
        CoreError::HostKeyUnknown { host, key_type, fingerprint } => Some(
            HostKeyPrompt {
                host: host.clone(),
                key_type: key_type.clone(),
                fingerprint: fingerprint.clone(),
                known_fingerprint: None,
            },
        ),
        CoreError::HostKeyMismatch { host, key_type, fingerprint, expected } => Some(
            HostKeyPrompt {
                host: host.clone(),
                key_type: key_type.clone(),
                fingerprint: fingerprint.clone(),
                known_fingerprint: Some(expected.clone()),
            },
        ),
        _ => None,
    }
}

/// How a connection attempt through the manager ended, when it did not fail.
#[derive(Debug)]
pub enum ConnectOutcome {
    /// Connected and authenticated.
    Connected { session: SessionInfo },
    /// The server's key is not trusted yet: the user is asked to approve it.
    HostKeyPrompt { prompt: HostKeyPrompt },
}

/// Turns the result of a connection attempt into what the manager answers:
/// a session, a trust prompt for a host key error, or the error itself.
pub fn connect_outcome(r: Result<SessionInfo, CoreError>) -> (o: Result<ConnectOutcome, CoreError>)
    ensures
        match r {
            Ok(s) => o == Ok::<ConnectOutcome, CoreError>(ConnectOutcome::Connected { session: s }),
            Err(e) => match e {
                CoreError::HostKeyUnknown { host, key_type, fingerprint } => o matches Ok(
                    ConnectOutcome::HostKeyPrompt { prompt: q },
                ) && q.host == host && q.key_type == key_type && q.fingerprint == fingerprint
                    && q.known_fingerprint is None,
                CoreError::HostKeyMismatch { host, key_type, fingerprint, expected } => o matches Ok(
                    ConnectOutcome::HostKeyPrompt { prompt: q },
                ) && q.host == host && q.key_type == key_type && q.fingerprint == fingerprint
                    && q.known_fingerprint == Some(expected),
                _ => o == Err::<ConnectOutcome, CoreError>(e),
            },
        },
{
    match r {
        Ok(s) => Ok(ConnectOutcome::Connected { session: s }),
        Err(e) => match prompt_for(&e) {
            Some(q) => Ok(ConnectOutcome::HostKeyPrompt { prompt: q }),
            None => Err(e),
        },
    }
}

/// The key to pin after a successful connection: the presented one, when
/// it got through by approval.
pub fn key_to_pin(v: &HostKeyVerifier) -> (o: Option<HostKeyObservation>)
    ensures
        v.spec_accepted_new() ==> opt_obs_view(o) == v.spec_observed(),
        !v.spec_accepted_new() ==> o is None,
{
    if v.accepted_new() {
        v.observed()
    } else {
        None
    }
}


/// A registered remote (-R) forward: connections the server receives on
/// `bind_addr:bind_port` are relayed to `target_host:target_port`.
#[derive(Debug)]
pub struct RemoteForward {
    pub bind_addr: String,
    pub bind_port: u32,
    pub target_host: String,
    pub target_port: u16,
}

/// What a `RemoteForward` holds, as plain values.
pub struct RemoteForwardView {
    pub bind_addr: Seq<char>,
    pub bind_port: u32,
    pub target_host: Seq<char>,
    pub target_port: u16,
}

impl View for RemoteForward {
    type V = RemoteForwardView;

    open spec fn view(&self) -> RemoteForwardView {
        RemoteForwardView {
            bind_addr: self.bind_addr@,
            bind_port: self.bind_port,
            target_host: self.target_host@,
            target_port: self.target_port,
        }
    }
}

pub open spec fn forward_views(v: Seq<RemoteForward>) -> Seq<RemoteForwardView> {
    v.map_values(|f: RemoteForward| f@)
}

/// The registration of `addr:port` exactly.
pub open spec fn bound_at(addr: Seq<char>, port: u32) -> spec_fn(RemoteForwardView) -> bool {
    |f: RemoteForwardView| f.bind_addr == addr && f.bind_port == port
}

/// Any registration on `port`.
pub open spec fn bound_on(port: u32) -> spec_fn(RemoteForwardView) -> bool {
    |f: RemoteForwardView| f.bind_port == port
}

/// Where a connection the server reports on `addr:port` goes: to the
/// registration of exactly `addr:port`, or else (the server may report an
/// address other than the one bound) to the first registration on `port`.
pub open spec fn route(fs: Seq<RemoteForwardView>, addr: Seq<char>, port: u32) -> Option<(Seq<char>, u16)> {
    let i = first_index(fs, bound_at(addr, port));
    let j = first_index(fs, bound_on(port));
    if i < fs.len() {
        Some((fs[i].target_host, fs[i].target_port))
    } else if j < fs.len() {
        Some((fs[j].target_host, fs[j].target_port))
    } else {
        None
    }
}

/// `fs` without the registration of `addr:port`.
pub open spec fn unbound(fs: Seq<RemoteForwardView>, addr: Seq<char>, port: u32) -> Seq<RemoteForwardView> {
    fs.filter(|f: RemoteForwardView| !(f.bind_addr == addr && f.bind_port == port))
}

/// The registered remote forwards.
#[derive(Debug)]
pub struct RemoteForwards {
    pub entries: Vec<RemoteForward>,
}

impl View for RemoteForwards {
    type V = Seq<RemoteForwardView>;

    open spec fn view(&self) -> Seq<RemoteForwardView> {
        forward_views(self.entries@)
    }
}

impl RemoteForwards {
    /// No registrations.
    pub fn new() -> (r: Self)
        ensures
            r@ == Seq::<RemoteForwardView>::empty(),
    {
        let r = RemoteForwards { entries: Vec::new() };
        assert(r@ =~= Seq::<RemoteForwardView>::empty());
        r
    }

    /// Index of the first registration of exactly `addr:port`.
    fn index_at(&self, addr: &str, port: u32) -> (i: usize)
        ensures
            i == first_index(self@, bound_at(addr@, port)),
    {
        let ghost s = self@;
        let ghost p = bound_at(addr@, port);
        let wanted = addr.to_owned();
        let mut i: usize = 0;
        assert(s.take(0) =~= Seq::<RemoteForwardView>::empty());
        while i < self.entries.len()
            invariant
                i <= self.entries.len(),
                s == forward_views(self.entries@),
                wanted@ == addr@,
                p == bound_at(addr@, port),
                first_index(s.take(i as int), p) == i,
            decreases self.entries.len() - i,
        {
            proof {
                lemma_first_index_step(s, i as int, p);
            }
            assert(s[i as int] == self.entries@[i as int]@);
            if self.entries[i].bind_addr == wanted && self.entries[i].bind_port == port {
                return i;
            }
            i = i + 1;
        }
        proof {
            lemma_first_index_end(s, p);
        }
        i
    }

    /// Index of the first registration on `port`.
    fn index_on(&self, port: u32) -> (i: usize)
        ensures
            i == first_index(self@, bound_on(port)),
    {
        let ghost s = self@;
        let ghost p = bound_on(port);
        let mut i: usize = 0;
        assert(s.take(0) =~= Seq::<RemoteForwardView>::empty());
        while i < self.entries.len()
            invariant
                i <= self.entries.len(),
                s == forward_views(self.entries@),
                p == bound_on(port),
                first_index(s.take(i as int), p) == i,
            decreases self.entries.len() - i,
        {
            proof {
                lemma_first_index_step(s, i as int, p);
            }
            assert(s[i as int] == self.entries@[i as int]@);
            if self.entries[i].bind_port == port {
                return i;
            }
            i = i + 1;
        }
        proof {
            lemma_first_index_end(s, p);
        }
        i
    }

    /// Where a connection the server reports on `addr:port` goes.
    pub fn route(&self, addr: &str, port: u32) -> (r: Option<(String, u16)>)
        ensures
            match r {
                Some((h, p)) => route(self@, addr@, port) == Some((h@, p)),
                None => route(self@, addr@, port) is None,
            },
    {
        let i = self.index_at(addr, port);
        proof {
            lemma_first_index(self@, bound_at(addr@, port));
            lemma_first_index(self@, bound_on(port));
        }
        if i < self.entries.len() {
            assert(self@[i as int] == self.entries@[i as int]@);
            return Some((self.entries[i].target_host.clone(), self.entries[i].target_port));
        }
        let j = self.index_on(port);
        if j < self.entries.len() {
            assert(self@[j as int] == self.entries@[j as int]@);
            Some((self.entries[j].target_host.clone(), self.entries[j].target_port))
        } else {
            None
        }
    }

    /// Drops the registration of `addr:port`, returning where it went.
    pub fn remove(&mut self, addr: &str, port: u32) -> (r: Option<(String, u16)>)
        ensures
            final(self)@ == unbound(old(self)@, addr@, port),
            ({
                let i = first_index(old(self)@, bound_at(addr@, port));
                match r {
                    Some((h, p)) => i < old(self)@.len() && h@ == old(self)@[i].target_host && p
                        == old(self)@[i].target_port,
                    None => i == old(self)@.len(),
                }
            }),
    {
        let ghost s = old(self)@;
        let ghost pred = |f: RemoteForwardView| !(f.bind_addr == addr@ && f.bind_port == port);
        let i = self.index_at(addr, port);
        proof {
            lemma_first_index(s, bound_at(addr@, port));
        }
        let found = if i < self.entries.len() {
            assert(s[i as int] == self.entries@[i as int]@);
            Some((self.entries[i].target_host.clone(), self.entries[i].target_port))
        } else {
            None
        };
        let wanted = addr.to_owned();
        let mut kept: Vec<RemoteForward> = Vec::new();
        let mut k: usize = 0;
        while k < self.entries.len()
            invariant
                k <= self.entries.len(),
                s == forward_views(self.entries@),
                wanted@ == addr@,
                pred == (|f: RemoteForwardView| !(f.bind_addr == addr@ && f.bind_port == port)),
                forward_views(kept@) == s.take(k as int).filter(pred),
            decreases self.entries.len() - k,
        {
            assert(s.take(k + 1).drop_last() =~= s.take(k as int));
            assert(s[k as int] == self.entries@[k as int]@);
            assert(s.take(k + 1).last() == s[k as int]);
            proof {
                reveal(Seq::filter);
            }
            assert(s.take(k + 1).filter(pred) == (if pred(s[k as int]) {
                s.take(k as int).filter(pred).push(s[k as int])
            } else {
                s.take(k as int).filter(pred)
            }));
            let ghost before = forward_views(kept@);
            if !(self.entries[k].bind_addr == wanted && self.entries[k].bind_port == port) {
                let e = RemoteForward {
                    bind_addr: self.entries[k].bind_addr.clone(),
                    bind_port: self.entries[k].bind_port,
                    target_host: self.entries[k].target_host.clone(),
                    target_port: self.entries[k].target_port,
                };
                kept.push(e);
                assert(forward_views(kept@) =~= before.push(s[k as int]));
            }
            k = k + 1;
        }
        assert(s.take(k as int) =~= s);
        self.entries = kept;
        found
    }

    /// Registers `addr:port` to relay to `target_host:target_port`,
    /// replacing an earlier registration of `addr:port`.
    pub fn insert(&mut self, addr: String, port: u32, target_host: String, target_port: u16)
        ensures
            final(self)@ == unbound(old(self)@, addr@, port).push(
                RemoteForwardView { bind_addr: addr@, bind_port: port, target_host: target_host@, target_port },
            ),
    {
        self.remove(addr.as_str(), port);
        let ghost before = self@;
        let e = RemoteForward { bind_addr: addr, bind_port: port, target_host, target_port };
        self.entries.push(e);
        assert(self@ =~= before.push(e@));
    }

    /// Moves the registration of `addr:requested` to `addr:actual` once the
    /// server has allocated `actual`; a registration that went missing is
    /// recreated for `fallback_host:fallback_port`.
    pub fn rebind(&mut self, addr: &str, requested: u32, actual: u32, fallback_host: String, fallback_port: u16)
        ensures
            ({
                let s = old(self)@;
                let i = first_index(s, bound_at(addr@, requested));
                let (th, tp) = if i < s.len() {
                    (s[i].target_host, s[i].target_port)
                } else {
                    (fallback_host@, fallback_port)
                };
                final(self)@ == unbound(unbound(s, addr@, requested), addr@, actual).push(
                    RemoteForwardView { bind_addr: addr@, bind_port: actual, target_host: th, target_port: tp },
                )
            }),
    {
        let (th, tp) = match self.remove(addr, requested) {
            Some(t) => t,
            None => (fallback_host, fallback_port),
        };
        self.insert(addr.to_owned(), actual, th, tp);
    }
}

/// Routing after registering: a connection reported on exactly the bound
/// `addr:port` goes to the new target.
pub proof fn law_insert_then_route(fs: Seq<RemoteForwardView>, f: RemoteForwardView)
    ensures
        route(unbound(fs, f.bind_addr, f.bind_port).push(f), f.bind_addr, f.bind_port) == Some(
            (f.target_host, f.target_port),
        ),
{
    let w = unbound(fs, f.bind_addr, f.bind_port);
    let p = bound_at(f.bind_addr, f.bind_port);
    let pred = |g: RemoteForwardView| !(g.bind_addr == f.bind_addr && g.bind_port == f.bind_port);
    broadcast use vstd::seq_lib::group_filter_ensures;

    assert forall|j: int| 0 <= j < w.len() implies !p(#[trigger] w[j]) by {
        assert(pred(w[j]));
    }
    let s = w.push(f);
    assert forall|j: int| 0 <= j < w.len() implies !p(#[trigger] s[j]) by {
        assert(s[j] == w[j]);
        assert(pred(w[j]));
    }
    lemma_first_index(s, p);
    let i = first_index(s, p);
    if i < w.len() {
        assert(!p(s[i]));
    }
}

/// The client side of a connection: the host key policy and the remote
/// forwards that incoming tunnel connections are matched against.
#[derive(Debug)]
pub struct ClientHandler {
    pub remote_forwards: RemoteForwards,
    pub verifier: Option<HostKeyVerifier>,
}

impl ClientHandler {
    /// A handler with no remote forwards yet.
    pub fn new(verifier: Option<HostKeyVerifier>) -> (h: Self)
        ensures
            h.remote_forwards@ == Seq::<RemoteForwardView>::empty(),
            h.verifier == verifier,
    {
        ClientHandler { remote_forwards: RemoteForwards::new(), verifier }
    }

    /// Judges the server's host key; without a policy any key is accepted
    /// (tests and tools only).
    pub fn check_server_key(&mut self, presented: HostKeyObservation) -> (ok: bool)
        ensures
            final(self).remote_forwards == old(self).remote_forwards,
            match old(self).verifier {
                None => ok && final(self).verifier is None,
                Some(v) => final(self).verifier matches Some(w) && w.expected == v.expected
                    && w.accept_fingerprint == v.accept_fingerprint && w.spec_observed() == Some(
                    presented@,
                ) && ok == key_accepted(
                    opt_key_view(v.expected),
                    opt_view(v.accept_fingerprint),
                    presented@.fingerprint,
                ) && w.spec_accepted_new() == (v.spec_accepted_new() || key_newly_accepted(
                    opt_key_view(v.expected),
                    opt_view(v.accept_fingerprint),
                    presented@.fingerprint,
                )),
            },
    {
        match self.verifier.take() {
            None => true,
            Some(mut v) => {
                let ok = v.check(presented);
                self.verifier = Some(v);
                ok
            },
        }
    }

    /// Where a tunnel connection the server opened on `addr:port` goes;
    /// `None` means it is refused.
    pub fn forwarded_target(&self, addr: &str, port: u32) -> (r: Option<(String, u16)>)
        ensures
            match r {
                Some((h, p)) => route(self.remote_forwards@, addr@, port) == Some((h@, p)),
                None => route(self.remote_forwards@, addr@, port) is None,
            },
    {
        self.remote_forwards.route(addr, port)
    }
}


/// `parts` joined with `sep` between consecutive parts.
pub open spec fn joined(parts: Seq<Seq<char>>, sep: Seq<char>) -> Seq<char>
    decreases parts.len(),
{
    if parts.len() == 0 {
        Seq::empty()
    } else if parts.len() == 1 {
        parts[0]
    } else {
        joined(parts.drop_last(), sep) + sep + parts.last()
    }
}

/// Joins `parts` with `sep`.
pub fn join(parts: &Vec<String>, sep: &str) -> (s: String)
    ensures
        s@ == joined(views(parts@), sep@),
{
    let mut s = String::new();
    let mut i: usize = 0;
    while i < parts.len()
        invariant
            i <= parts.len(),
            s@ == joined(views(parts@).take(i as int), sep@),
        decreases parts.len() - i,
    {
        let ghost t = views(parts@).take(i + 1);
        assert(t.drop_last() =~= views(parts@).take(i as int));
        assert(t.last() == parts@[i as int]@);
        if i > 0 {
            s.append(sep);
        } else {
            assert(s@ == Seq::<char>::empty());
            assert(t.len() == 1);
            assert(Seq::<char>::empty() + parts@[0]@ =~= parts@[0]@);
        }
        s.append(parts[i].as_str());
        i = i + 1;
    }
    assert(views(parts@).take(i as int) =~= views(parts@));
    s
}

/// How an authentication attempt ended.
#[derive(Debug)]
pub enum AuthOutcome {
    Success,
    /// Rejected; the methods the server still offers, by name.
    Failure { remaining_methods: Vec<String> },
}

/// What an authentication outcome is reported as.
pub open spec fn failure_text(o: AuthOutcome) -> Seq<char> {
    match o {
        AuthOutcome::Success => "success"@,
        AuthOutcome::Failure { remaining_methods } => if remaining_methods@.len() == 0 {
            "server rejected all methods"@
        } else {
            "server accepts: "@ + joined(views(remaining_methods@), ", "@)
        },
    }
}

/// Describes an authentication outcome for the user.
pub fn describe_failure(result: &AuthOutcome) -> (s: String)
    ensures
        s@ == failure_text(*result),
{
    match result {
        AuthOutcome::Success => "success".to_owned(),
        AuthOutcome::Failure { remaining_methods } => {
            if remaining_methods.len() == 0 {
                "server rejected all methods".to_owned()
            } else {
                let j = join(remaining_methods, ", ");
                prefixed("server accepts: ", j.as_str())
            }
        },
    }
}

/// The error for an authentication the server rejected.
pub fn auth_failed(result: &AuthOutcome) -> (e: CoreError)
    ensures
        e matches CoreError::AuthFailed(m) && m@ == failure_text(*result),
{
    CoreError::AuthFailed(describe_failure(result))
}

/// The error for a connection attempt that did not complete in time.
pub fn connect_timeout(host: &str) -> (e: CoreError)
    ensures
        e matches CoreError::Other(m) && m@ == "timed out connecting to "@ + host@,
{
    CoreError::Other(prefixed("timed out connecting to ", host))
}

/// The user's home directory (`dirs::home_dir()`), as text; `None` when it
/// cannot be determined. It depends on the environment, so nothing is
/// promised of it.
#[verifier::external_body]
pub(crate) fn home_dir() -> (r: Option<String>) {
    dirs::home_dir().map(|p| p.to_string_lossy().into_owned())
}

/// `base` with `rest` pushed onto it as `PathBuf::push` does on Unix: an
/// absolute `rest` replaces `base`, otherwise a `/` separates them unless
/// `base` is empty or already ends in one.
pub open spec fn path_joined(base: Seq<char>, rest: Seq<char>) -> Seq<char> {
    if rest.len() > 0 && rest[0] == '/' {
        rest
    } else if base.len() > 0 && base.last() != '/' {
        base + "/"@ + rest
    } else {
        base + rest
    }
}

/// `path` with a leading `~/` replaced by the home directory `home`; other
/// paths, and every path when the home directory is unknown, unchanged.
pub open spec fn tilde_expanded(path: Seq<char>, home: Option<Seq<char>>) -> Seq<char> {
    if path.len() >= 2 && path[0] == '~' && path[1] == '/' && home is Some {
        path_joined(home->0, path.skip(2))
    } else {
        path
    }
}

/// With a known home directory `home`, `~/rest` (for a `rest` that is not
/// itself absolute) becomes `home/rest`: one `/` between the two, none added
/// when `home` already ends in one. Without a home directory, or without
/// the `~/` prefix, a path stays as it is.
pub proof fn law_tilde_joins_home(home: Seq<char>, rest: Seq<char>, other: Seq<char>)
    requires
        home.len() > 0,
        rest.len() == 0 || rest[0] != '/',
        !(other.len() >= 2 && other[0] == '~' && other[1] == '/'),
    ensures
        home.last() != '/' ==> tilde_expanded(seq!['~', '/'] + rest, Some(home)) == home + seq!['/']
            + rest,
        home.last() == '/' ==> tilde_expanded(seq!['~', '/'] + rest, Some(home)) == home + rest,
        tilde_expanded(seq!['~', '/'] + rest, None) == seq!['~', '/'] + rest,
        tilde_expanded(other, Some(home)) == other,
{
    reveal_strlit("/");
    let p = seq!['~', '/'] + rest;
    assert(p[0] == '~');
    assert(p[1] == '/');
    assert(p.skip(2) =~= rest);
    assert("/"@ =~= seq!['/']);
}

/// Expands a leading `~/` against the given home directory.
pub fn expand_tilde_in(path: &str, home: Option<String>) -> (r: String)
    ensures
        r@ == tilde_expanded(path@, opt_view(home)),
{
    let v = chars_of(path);
    if v.len() >= 2 && v[0] == '~' && v[1] == '/' {
        match home {
            Some(h) => {
                let rest = crate::text::string_of(&v, 2, v.len());
                assert(rest@ =~= path@.skip(2));
                let hv = chars_of(h.as_str());
                if v.len() > 2 && v[2] == '/' {
                    rest
                } else if hv.len() > 0 && hv[hv.len() - 1] != '/' {
                    let mut s = prefixed(h.as_str(), "/");
                    s.append(rest.as_str());
                    s
                } else {
                    prefixed(h.as_str(), rest.as_str())
                }
            },
            None => path.to_owned(),
        }
    } else {
        path.to_owned()
    }
}

/// Expands a leading `~/` against the user's home directory.
pub fn expand_tilde(path: &str) -> (r: String)
    ensures
        exists|home: Option<Seq<char>>| r@ == tilde_expanded(path@, home),
{
    let home = home_dir();
    let ghost hv = opt_view(home);
    let r = expand_tilde_in(path, home);
    assert(r@ == tilde_expanded(path@, hv));
    r
}

/// How to authenticate against a host.
#[derive(Debug)]
pub enum AuthPlan {
    Password { password: String },
    Key { path: String, passphrase: Option<String> },
    Agent,
}

/// How to authenticate against `host` given its stored secret (a
/// password, or the passphrase of its key), with the key path already
/// expanded: a password method needs the secret, a key method a key path.
pub fn auth_plan_with(method: AuthMethod, key_path: Option<String>, secret: Option<String>) -> (r: Result<AuthPlan, CoreError>)
    ensures
        match method {
            AuthMethod::Password => match secret {
                Some(p) => r matches Ok(AuthPlan::Password { password }) && password == p,
                None => r matches Err(CoreError::MissingCredential),
            },
            AuthMethod::Key => match key_path {
                Some(k) => r matches Ok(AuthPlan::Key { path, passphrase }) && path == k
                    && passphrase == secret,
                None => r matches Err(CoreError::Other(m)) && m@ == "no key path configured"@,
            },
            AuthMethod::Agent => r matches Ok(AuthPlan::Agent),
        },
{
    match method {
        AuthMethod::Password => match secret {
            Some(p) => Ok(AuthPlan::Password { password: p }),
            None => Err(CoreError::MissingCredential),
        },
        AuthMethod::Key => match key_path {
            Some(k) => Ok(AuthPlan::Key { path: k, passphrase: secret }),
            None => Err(CoreError::other("no key path configured")),
        },
        AuthMethod::Agent => Ok(AuthPlan::Agent),
    }
}

/// How to authenticate against `host`: its key path is `~/`-expanded
/// against the user's home directory.
pub fn auth_plan(host: &HostEntry, secret: Option<String>) -> (r: Result<AuthPlan, CoreError>)
    ensures
        match host.auth_method {
            AuthMethod::Password => match secret {
                Some(p) => r matches Ok(AuthPlan::Password { password }) && password == p,
                None => r matches Err(CoreError::MissingCredential),
            },
            AuthMethod::Key => match host.key_path {
                Some(k) => r matches Ok(AuthPlan::Key { path, passphrase }) && (exists|
                    home: Option<Seq<char>>,
                | path@ == tilde_expanded(k@, home)) && passphrase == secret,
                None => r matches Err(CoreError::Other(m)) && m@ == "no key path configured"@,
            },
            AuthMethod::Agent => r matches Ok(AuthPlan::Agent),
        },
{
    let expanded = match &host.key_path {
        Some(k) => Some(expand_tilde(k.as_str())),
        None => None,
    };
    auth_plan_with(host.auth_method, expanded, secret)
}

/// The record of a session just opened to `host`: a fresh id, the host's
/// id and name, and the time of connection.
pub fn new_session_info(host: &HostEntry) -> (s: SessionInfo)
    ensures
        s.id@.len() == 36,
        s.host_id@ == host.id@,
        s.host_name@ == host.name@,
{
    SessionInfo {
        id: crate::ids::new_id(),
        host_id: host.id.clone(),
        host_name: host.name.clone(),
        connected_at: crate::clock::now_secs(),
    }
}

/// Whether an authentication outcome lets the session in.
pub fn auth_succeeded(o: &AuthOutcome) -> (b: bool)
    ensures
        b == (*o is Success),
{
    match o {
        AuthOutcome::Success => true,
        AuthOutcome::Failure { .. } => false,
    }
}

/// Authentication through the agent needs at least one identity in it.
pub fn require_identities(count: usize) -> (r: Result<(), CoreError>)
    ensures
        count > 0 <==> r is Ok,
        r matches Err(e) ==> (e matches CoreError::AuthFailed(m) && m@ == "ssh-agent has no identities"@),
{
    if count == 0 {
        Err(CoreError::AuthFailed("ssh-agent has no identities".to_owned()))
    } else {
        Ok(())
    }
}

/// The outcome of trying the agent's identities one by one, none of which
/// got in: that of the last one tried, or a failure that offers nothing
/// when none was.
pub fn agent_outcome(last: Option<AuthOutcome>) -> (o: AuthOutcome)
    ensures
        match last {
            Some(l) => o == l,
            None => o matches AuthOutcome::Failure { remaining_methods } && remaining_methods@.len() == 0,
        },
{
    match last {
        Some(l) => l,
        None => AuthOutcome::Failure { remaining_methods: Vec::new() },
    }
}

/// A message of an SSH channel, as far as this library reads them.
#[derive(Debug)]
pub enum ChannelEvent {
    Data(Vec<u8>),
    ExtendedData(Vec<u8>),
    ExitStatus(u32),
    Eof,
    Close,
    Other,
}

/// The output of a remote command: stdout and stderr together, and the
/// exit status (0 until one arrives).
#[derive(Debug)]
pub struct ExecOutput {
    pub out: Vec<u8>,
    pub code: u32,
}

/// `bytes` appended to `out`.
fn append_bytes(out: &mut Vec<u8>, bytes: &Vec<u8>)
    ensures
        final(out)@ == old(out)@ + bytes@,
{
    let mut i: usize = 0;
    while i < bytes.len()
        invariant
            i <= bytes.len(),
            out@ == old(out)@ + bytes@.take(i as int),
        decreases bytes.len() - i,
    {
        out.push(bytes[i]);
        assert(out@ =~= old(out)@ + bytes@.take(i + 1));
        i = i + 1;
    }
    assert(bytes@.take(i as int) =~= bytes@);
}

impl ExecOutput {
    /// Nothing received yet.
    pub fn new() -> (o: Self)
        ensures
            o.out@ == Seq::<u8>::empty(),
            o.code == 0,
    {
        ExecOutput { out: Vec::new(), code: 0 }
    }

    /// Takes in one channel message: data of either stream is appended, an
    /// exit status is kept, anything else is ignored.
    pub fn absorb(&mut self, ev: &ChannelEvent)
        ensures
            match ev {
                ChannelEvent::Data(d) => final(self).out@ == old(self).out@ + d@ && final(self).code
                    == old(self).code,
                ChannelEvent::ExtendedData(d) => final(self).out@ == old(self).out@ + d@
                    && final(self).code == old(self).code,
                ChannelEvent::ExitStatus(c) => final(self).out@ == old(self).out@ && final(self).code
                    == *c,
                _ => final(self).out@ == old(self).out@ && final(self).code == old(self).code,
            },
    {
        match ev {
            ChannelEvent::Data(d) => append_bytes(&mut self.out, d),
            ChannelEvent::ExtendedData(d) => append_bytes(&mut self.out, d),
            ChannelEvent::ExitStatus(c) => {
                self.code = *c;
            },
            _ => {},
        }
    }
}

} // verus!
