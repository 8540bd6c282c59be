//! The manager's decisions that span its stores: storing a credential only
//! for a known host, preparing a connection from the inventory, the vault
//! and the pinned keys, and pinning a key the user approved.

use vstd::prelude::*;
use vstd::utf8::encode_utf8;

use crate::crypto::{keystream_limit, seal_limit};
use crate::error::CoreError;
use crate::hosts::{lookup_host, HostStore};
use crate::clock::now_secs;
use crate::known_hosts::{lookup, pinned, KnownHostKey, KnownHostKeyView, KnownHostsStore};
use crate::model::{opt_view, HostEntry};
use crate::session::{key_to_pin, opt_key_view, HostKeyVerifier};
use crate::vault::{blob_of, read_secret, Vault};

verus! {

/// Stores `secret` for host `host_id` in `vault`, which the inventory
/// `hosts` must know; an unknown host is refused and nothing is stored.
pub fn set_secret(hosts: &HostStore, vault: &mut Vault, host_id: &str, secret: &str) -> (r: Result<(), CoreError>)
    requires
        encode_utf8(secret@).len() + 40 <= usize::MAX / 4 * 3,
        encode_utf8(secret@).len() <= keystream_limit() || encode_utf8(secret@).len() >= seal_limit(),
    ensures
        final(vault).cipher_key() == old(vault).cipher_key(),
        lookup_host(hosts@, host_id@) is None ==> final(vault).secrets() == old(vault).secrets() && (r matches Err(
            CoreError::HostNotFound(m),
        ) && m@ == host_id@),
        lookup_host(hosts@, host_id@) is Some ==> {
            &&& r is Ok <==> encode_utf8(secret@).len() < seal_limit()
            &&& r is Ok ==> exists|nonce: Seq<u8>|
                nonce.len() == 24 && final(vault).secrets() == old(vault).secrets().insert(
                    host_id@,
                    blob_of(old(vault).cipher_key(), nonce, secret@),
                )
            &&& r is Ok ==> read_secret(final(vault).cipher_key(), final(vault).secrets(), host_id@) == Ok::<
                Option<Seq<char>>,
                Seq<char>,
            >(Some(secret@))
            &&& r matches Err(e) ==> final(vault).secrets() == old(vault).secrets() && (e matches CoreError::Vault(m)
                && m@ == "encryption failed"@)
        },
{
    match hosts.get(host_id) {
        Err(e) => Err(e),
        Ok(_) => vault.set(host_id, secret),
    }
}

/// What a connection attempt starts from: the host, its stored secret, and
/// the host key policy.
#[derive(Debug)]
pub struct ConnectPlan {
    pub host: HostEntry,
    pub secret: Option<String>,
    pub verifier: HostKeyVerifier,
}

/// Prepares a connection to host `host_id`: the host from the inventory,
/// its secret from the vault, and a policy that trusts the key pinned for
/// the host's address and the fingerprint the user approved, if any.
pub fn connect_plan(
    hosts: &HostStore,
    vault: &Vault,
    known: &KnownHostsStore,
    host_id: &str,
    accept_fingerprint: Option<String>,
) -> (r: Result<ConnectPlan, CoreError>)
    ensures
        match lookup_host(hosts@, host_id@) {
            None => r matches Err(CoreError::HostNotFound(m)) && m@ == host_id@,
            Some(h) => match read_secret(vault.cipher_key(), vault.secrets(), host_id@) {
                Err(msg) => r matches Err(CoreError::Vault(m)) && m@ == msg,
                Ok(s) => r matches Ok(p) && p.host@ == h && opt_view(p.secret) == s && opt_key_view(
                    p.verifier.expected,
                ) == lookup(known@, h.host, h.port) && p.verifier.accept_fingerprint == accept_fingerprint
                    && p.verifier.spec_observed() is None && !p.verifier.spec_accepted_new(),
            },
        },
{
    let host = match hosts.get(host_id) {
        Ok(h) => h,
        Err(e) => {
            return Err(e);
        },
    };
    let secret = match vault.get(host_id) {
        Ok(s) => s,
        Err(e) => {
            return Err(e);
        },
    };
    let expected = known.get(host.host.as_str(), host.port);
    let verifier = HostKeyVerifier::new(expected, accept_fingerprint);
    Ok(ConnectPlan { host, secret, verifier })
}

/// After a successful connection, pins the key the server presented when
/// it got through by the user's approval; otherwise the pinned keys stay
/// as they are.
pub fn pin_approved_key(known: &mut KnownHostsStore, host: &HostEntry, verifier: &HostKeyVerifier)
    ensures
        verifier.spec_accepted_new() && verifier.spec_observed() is Some ==> exists|t: u64|
            final(known)@ == pinned(
                old(known)@,
                KnownHostKeyView {
                    host: host.host@,
                    port: host.port,
                    key_type: verifier.spec_observed()->0.key_type,
                    key_base64: verifier.spec_observed()->0.key_base64,
                    fingerprint: verifier.spec_observed()->0.fingerprint,
                    added_at: t,
                },
            ),
        !(verifier.spec_accepted_new() && verifier.spec_observed() is Some) ==> final(known)@ == old(known)@,
{
    match key_to_pin(verifier) {
        Some(o) => {
            let key = KnownHostKey {
                host: host.host.clone(),
                port: host.port,
                key_type: o.key_type,
                key_base64: o.key_base64,
                fingerprint: o.fingerprint,
                added_at: now_secs(),
            };
            let ghost kv = key@;
            known.pin_key(key);
            assert(kv == KnownHostKeyView {
                host: host.host@,
                port: host.port,
                key_type: verifier.spec_observed()->0.key_type,
                key_base64: verifier.spec_observed()->0.key_base64,
                fingerprint: verifier.spec_observed()->0.fingerprint,
                added_at: kv.added_at,
            });
        },
        None => {},
    }
}

} // verus!
