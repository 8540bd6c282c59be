//! Pinned server host keys: at most one key per `host:port`, looked up
//! before authentication and replaced only when the user approves a new one.

use vstd::prelude::*;

use crate::clock::now_secs;

verus! {

/// A pinned host key.
#[derive(Debug)]
pub struct KnownHostKey {
    pub host: String,
    pub port: u16,
    pub key_type: String,
    /// Base64-encoded public key blob (the second field of an OpenSSH
    /// known_hosts line).
    pub key_base64: String,
    /// OpenSSH-style `SHA256:...` fingerprint.
    pub fingerprint: String,
    pub added_at: u64,
}

/// What a `KnownHostKey` holds, as plain values.
pub struct KnownHostKeyView {
    pub host: Seq<char>,
    pub port: u16,
    pub key_type: Seq<char>,
    pub key_base64: Seq<char>,
    pub fingerprint: Seq<char>,
    pub added_at: u64,
}

impl View for KnownHostKey {
    type V = KnownHostKeyView;

    open spec fn view(&self) -> KnownHostKeyView {
        KnownHostKeyView {
            host: self.host@,
            port: self.port,
            key_type: self.key_type@,
            key_base64: self.key_base64@,
            fingerprint: self.fingerprint@,
            added_at: self.added_at,
        }
    }
}

impl Clone for KnownHostKey {
    fn clone(&self) -> (r: Self)
        ensures
            r@ == self@,
    {
        KnownHostKey {
            host: self.host.clone(),
            port: self.port,
            key_type: self.key_type.clone(),
            key_base64: self.key_base64.clone(),
            fingerprint: self.fingerprint.clone(),
            added_at: self.added_at,
        }
    }
}

/// Whether `k` is the key of `host:port`.
pub open spec fn is_key_for(k: KnownHostKeyView, host: Seq<char>, port: u16) -> bool {
    k.host == host && k.port == port
}

/// The first key of `keys` for `host:port`, if any.
pub open spec fn lookup(keys: Seq<KnownHostKeyView>, host: Seq<char>, port: u16) -> Option<
    KnownHostKeyView,
>
    decreases keys.len(),
{
    if keys.len() == 0 {
        None
    } else {
        let r = lookup(keys.drop_last(), host, port);
        if r is Some {
            r
        } else if is_key_for(keys.last(), host, port) {
            Some(keys.last())
        } else {
            None
        }
    }
}

/// `keys` without the keys of `host:port`.
pub open spec fn without(keys: Seq<KnownHostKeyView>, host: Seq<char>, port: u16) -> Seq<
    KnownHostKeyView,
> {
    keys.filter(|k: KnownHostKeyView| !is_key_for(k, host, port))
}

/// `keys` after pinning `key`: the old key of its `host:port` is dropped and
/// `key` goes last.
pub open spec fn pinned(keys: Seq<KnownHostKeyView>, key: KnownHostKeyView) -> Seq<
    KnownHostKeyView,
> {
    without(keys, key.host, key.port).push(key)
}

/// How many keys of `keys` are for `host:port`.
pub open spec fn count_for(keys: Seq<KnownHostKeyView>, host: Seq<char>, port: u16) -> nat {
    keys.filter(|k: KnownHostKeyView| is_key_for(k, host, port)).len()
}

/// No `host:port` has two keys in `keys`.
pub open spec fn unique_keys(keys: Seq<KnownHostKeyView>) -> bool {
    forall|host: Seq<char>, port: u16| #[trigger] count_for(keys, host, port) <= 1
}

pub proof fn lemma_count_push(s: Seq<KnownHostKeyView>, x: KnownHostKeyView, host: Seq<char>, port: u16)
    ensures
        count_for(s.push(x), host, port) == count_for(s, host, port) + (if is_key_for(x, host, port) {
            1nat
        } else {
            0nat
        }),
{
    reveal(Seq::filter);
    let pred = |k: KnownHostKeyView| is_key_for(k, host, port);
    assert(s.push(x).drop_last() =~= s);
    assert(s.push(x).filter(pred) == (if pred(x) {
        s.filter(pred).push(x)
    } else {
        s.filter(pred)
    }));
}

pub proof fn lemma_count_without(
    s: Seq<KnownHostKeyView>,
    host: Seq<char>,
    port: u16,
    h2: Seq<char>,
    p2: u16,
)
    ensures
        count_for(without(s, host, port), h2, p2) == (if host == h2 && port == p2 {
            0
        } else {
            count_for(s, h2, p2)
        }),
    decreases s.len(),
{
    reveal(Seq::filter);
    let pred = |k: KnownHostKeyView| !is_key_for(k, host, port);
    if s.len() > 0 {
        lemma_count_without(s.drop_last(), host, port, h2, p2);
        assert(s.drop_last().push(s.last()) =~= s);
        lemma_count_push(s.drop_last(), s.last(), h2, p2);
        assert(s.filter(pred) == (if pred(s.last()) {
            s.drop_last().filter(pred).push(s.last())
        } else {
            s.drop_last().filter(pred)
        }));
        if pred(s.last()) {
            lemma_count_push(s.drop_last().filter(pred), s.last(), h2, p2);
        }
    } else {
        assert(s.filter(pred) =~= s);
        assert(s.filter(|k: KnownHostKeyView| is_key_for(k, h2, p2)) =~= s);
    }
}

/// The views of a vector of keys.
pub open spec fn key_views(v: Seq<KnownHostKey>) -> Seq<KnownHostKeyView> {
    v.map_values(|k: KnownHostKey| k@)
}

pub proof fn lemma_lookup_prefix(s: Seq<KnownHostKeyView>, j: int, host: Seq<char>, port: u16)
    requires
        0 <= j <= s.len(),
        lookup(s.take(j), host, port) is Some,
    ensures
        lookup(s, host, port) == lookup(s.take(j), host, port),
    decreases s.len() - j,
{
    if j < s.len() {
        assert(s.take(j + 1).drop_last() =~= s.take(j));
        lemma_lookup_prefix(s, j + 1, host, port);
    } else {
        assert(s.take(j) =~= s);
    }
}

pub proof fn lemma_lookup_without_other(
    s: Seq<KnownHostKeyView>,
    host: Seq<char>,
    port: u16,
    h2: Seq<char>,
    p2: u16,
)
    requires
        !(host == h2 && port == p2),
    ensures
        lookup(without(s, host, port), h2, p2) == lookup(s, h2, p2),
    decreases s.len(),
{
    reveal(Seq::filter);
    let pred = |k: KnownHostKeyView| !is_key_for(k, host, port);
    if s.len() > 0 {
        lemma_lookup_without_other(s.drop_last(), host, port, h2, p2);
        assert(s.filter(pred) == (if pred(s.last()) {
            s.drop_last().filter(pred).push(s.last())
        } else {
            s.drop_last().filter(pred)
        }));
        if pred(s.last()) {
            assert(s.drop_last().filter(pred).push(s.last()).drop_last() =~= s.drop_last().filter(
                pred,
            ));
        }
    } else {
        assert(s.filter(pred) =~= s);
    }
}

pub proof fn lemma_lookup_without_same(s: Seq<KnownHostKeyView>, host: Seq<char>, port: u16)
    ensures
        lookup(without(s, host, port), host, port) is None,
    decreases s.len(),
{
    reveal(Seq::filter);
    let pred = |k: KnownHostKeyView| !is_key_for(k, host, port);
    if s.len() > 0 {
        lemma_lookup_without_same(s.drop_last(), host, port);
        assert(s.filter(pred) == (if pred(s.last()) {
            s.drop_last().filter(pred).push(s.last())
        } else {
            s.drop_last().filter(pred)
        }));
        if pred(s.last()) {
            assert(s.drop_last().filter(pred).push(s.last()).drop_last() =~= s.drop_last().filter(
                pred,
            ));
        }
    } else {
        assert(s.filter(pred) =~= s);
    }
}

/// The pinned host keys.
pub struct KnownHostsStore {
    pub keys: Vec<KnownHostKey>,
}

impl View for KnownHostsStore {
    type V = Seq<KnownHostKeyView>;

    open spec fn view(&self) -> Seq<KnownHostKeyView> {
        key_views(self.keys@)
    }
}

impl KnownHostsStore {
    /// A store holding `keys`, as read back from disk.
    pub fn from_keys(keys: Vec<KnownHostKey>) -> (s: Self)
        ensures
            s@ == key_views(keys@),
    {
        KnownHostsStore { keys }
    }

    /// The key pinned for `host:port`, if any.
    pub fn get(&self, host: &str, port: u16) -> (r: Option<KnownHostKey>)
        ensures
            match r {
                Some(k) => lookup(self@, host@, port) == Some(k@),
                None => lookup(self@, host@, port) is None,
            },
    {
        let ghost s = self@;
        let h = host.to_owned();
        let mut i: usize = 0;
        while i < self.keys.len()
            invariant
                i <= self.keys.len(),
                s == key_views(self.keys@),
                h@ == host@,
                lookup(s.take(i as int), host@, port) is None,
            decreases self.keys.len() - i,
        {
            assert(s.take(i + 1).drop_last() =~= s.take(i as int));
            assert(s[i as int] == self.keys@[i as int]@);
            if self.keys[i].host == h && self.keys[i].port == port {
                proof {
                    lemma_lookup_prefix(s, i + 1, host@, port);
                }
                return Some(self.keys[i].clone());
            }
            i = i + 1;
        }
        assert(s.take(i as int) =~= s);
        None
    }

    /// All pinned keys, in the order they were pinned.
    pub fn list(&self) -> (r: Vec<KnownHostKey>)
        ensures
            key_views(r@) == self@,
    {
        let mut r: Vec<KnownHostKey> = Vec::new();
        let mut i: usize = 0;
        while i < self.keys.len()
            invariant
                i <= self.keys.len(),
                key_views(r@) == key_views(self.keys@).take(i as int),
            decreases self.keys.len() - i,
        {
            let k = self.keys[i].clone();
            let ghost before = key_views(r@);
            r.push(k);
            assert(key_views(r@) =~= before.push(self.keys@[i as int]@));
            assert(key_views(r@) =~= key_views(self.keys@).take(i + 1));
            i = i + 1;
        }
        assert(key_views(self.keys@).take(i as int) =~= key_views(self.keys@));
        r
    }

    /// Removes the keys of `host:port`; no-op if there are none.
    pub fn forget(&mut self, host: &str, port: u16)
        ensures
            final(self)@ == without(old(self)@, host@, port),
    {
        let ghost s = old(self)@;
        let ghost pred = |k: KnownHostKeyView| !is_key_for(k, host@, port);
        let h = host.to_owned();
        let mut kept: Vec<KnownHostKey> = Vec::new();
        let mut i: usize = 0;
        while i < self.keys.len()
            invariant
                i <= self.keys.len(),
                s == key_views(self.keys@),
                h@ == host@,
                pred == (|k: KnownHostKeyView| !is_key_for(k, host@, port)),
                key_views(kept@) == s.take(i as int).filter(pred),
            decreases self.keys.len() - i,
        {
            assert(s.take(i + 1).drop_last() =~= s.take(i as int));
            assert(s[i as int] == self.keys@[i as int]@);
            assert(s.take(i + 1).last() == s[i as int]);
            proof {
                reveal(Seq::filter);
            }
            assert(s.take(i + 1).filter(pred) == (if pred(s[i as int]) {
                s.take(i as int).filter(pred).push(s[i as int])
            } else {
                s.take(i as int).filter(pred)
            }));
            let ghost before = key_views(kept@);
            let same = self.keys[i].host == h && self.keys[i].port == port;
            assert(same == !pred(s[i as int]));
            if !same {
                kept.push(self.keys[i].clone());
                assert(key_views(kept@) =~= before.push(s[i as int]));
            }
            assert(key_views(kept@) == s.take(i + 1).filter(pred));
            i = i + 1;
        }
        assert(s.take(i as int) =~= s);
        self.keys = kept;
    }

    /// Pins `key` for its `host:port`, replacing any key pinned there before.
    pub fn pin_key(&mut self, key: KnownHostKey)
        ensures
            final(self)@ == pinned(old(self)@, key@),
    {
        let h = key.host.clone();
        self.forget(h.as_str(), key.port);
        let ghost before = self@;
        self.keys.push(key);
        assert(self@ =~= before.push(key@));
    }

    /// Pins (or replaces) the key for `host:port`, stamped with the time of
    /// the call.
    pub fn pin(&mut self, host: &str, port: u16, key_type: &str, key_base64: &str, fingerprint: &str)
        ensures
            exists|t: u64|
                final(self)@ == pinned(
                    old(self)@,
                    KnownHostKeyView {
                        host: host@,
                        port,
                        key_type: key_type@,
                        key_base64: key_base64@,
                        fingerprint: fingerprint@,
                        added_at: t,
                    },
                ),
    {
        let added_at = now_secs();
        let key = KnownHostKey {
            host: host.to_owned(),
            port,
            key_type: key_type.to_owned(),
            key_base64: key_base64.to_owned(),
            fingerprint: fingerprint.to_owned(),
            added_at,
        };
        self.pin_key(key);
    }
}

/// Reading after pinning gives the pinned key; the keys of every other
/// `host:port` stay as they were.
pub proof fn law_pin_then_get(keys: Seq<KnownHostKeyView>, key: KnownHostKeyView, host: Seq<char>, port: u16)
    ensures
        lookup(pinned(keys, key), key.host, key.port) == Some(key),
        !(host == key.host && port == key.port) ==> lookup(pinned(keys, key), host, port) == lookup(
            keys,
            host,
            port,
        ),
{
    let w = without(keys, key.host, key.port);
    lemma_lookup_without_same(keys, key.host, key.port);
    assert(w.push(key).drop_last() =~= w);
    if !(host == key.host && port == key.port) {
        lemma_lookup_without_other(keys, key.host, key.port, host, port);
    }
}

/// After forgetting `host:port` nothing is pinned there; the keys of every
/// other `host:port` stay as they were.
pub proof fn law_forget_then_get(keys: Seq<KnownHostKeyView>, host: Seq<char>, port: u16, h2: Seq<char>, p2: u16)
    ensures
        lookup(without(keys, host, port), host, port) is None,
        !(h2 == host && p2 == port) ==> lookup(without(keys, host, port), h2, p2) == lookup(
            keys,
            h2,
            p2,
        ),
{
    lemma_lookup_without_same(keys, host, port);
    if !(h2 == host && p2 == port) {
        lemma_lookup_without_other(keys, host, port, h2, p2);
    }
}

/// Pinning and forgetting keep every `host:port` to at most one key, and
/// pinning leaves exactly one key for the pinned `host:port`.
pub proof fn law_one_key_per_host(keys: Seq<KnownHostKeyView>, key: KnownHostKeyView, host: Seq<char>, port: u16)
    requires
        unique_keys(keys),
    ensures
        unique_keys(pinned(keys, key)),
        unique_keys(without(keys, host, port)),
        count_for(pinned(keys, key), key.host, key.port) == 1,
{
    let w = without(keys, key.host, key.port);
    assert forall|h: Seq<char>, p: u16| #[trigger] count_for(w, h, p) <= 1 by {
        lemma_count_without(keys, key.host, key.port, h, p);
    }
    assert forall|h: Seq<char>, p: u16| #[trigger] count_for(pinned(keys, key), h, p) <= 1 by {
        lemma_count_without(keys, key.host, key.port, h, p);
        lemma_count_push(w, key, h, p);
    }
    assert forall|h: Seq<char>, p: u16| #[trigger] count_for(without(keys, host, port), h, p) <= 1 by {
        lemma_count_without(keys, host, port, h, p);
    }
    lemma_count_without(keys, key.host, key.port, key.host, key.port);
    lemma_count_push(w, key, key.host, key.port);
}

} // verus!
