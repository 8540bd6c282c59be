//! The credential vault: passwords and key passphrases, one per host,
//! each encrypted with XChaCha20-Poly1305 under a key that Argon2id derives
//! from the master key, and stored as base64 of `nonce || ciphertext`.

use vstd::prelude::*;
use vstd::utf8::{decode_utf8, encode_utf8, valid_utf8};

use crate::crypto::{
    argon2_derive, argon2id_key, b64_decode, b64_encode, base64_decode, base64_encode, open,
    keystream_limit, random_bytes, seal, seal_limit, utf8_text, xchacha_open, xchacha_seal,
};
use crate::error::CoreError;

verus! {

broadcast use {vstd::utf8::encode_utf8_valid_utf8, vstd::utf8::encode_utf8_decode_utf8};

/// One stored secret: the host it belongs to and the base64 of
/// `nonce || ciphertext`.
#[derive(Debug)]
pub struct SecretEntry {
    pub host_id: String,
    pub blob: String,
}

/// The salt of the key derivation.
pub const SALT: &'static str = "agentmux-ssh-vault-v1";

/// The host ids and blobs of `es`, later entries winning over earlier ones.
pub open spec fn entries_map(es: Seq<SecretEntry>) -> Map<Seq<char>, Seq<char>>
    decreases es.len(),
{
    if es.len() == 0 {
        Map::empty()
    } else {
        entries_map(es.drop_last()).insert(es.last().host_id@, es.last().blob@)
    }
}

/// What reading a stored `blob` under the cipher key `key` gives: the
/// secret, or the message of the error.
pub open spec fn read_blob(key: Seq<u8>, blob: Seq<char>) -> Result<Seq<char>, Seq<char>> {
    match base64_decode(blob) {
        None => Err("corrupt vault entry"@),
        Some(b) => if b.len() < 25 {
            Err("corrupt vault entry"@)
        } else if b.len() > 24 + keystream_limit() + 16 {
            Err("decryption failed (wrong vault key?)"@)
        } else {
            match xchacha_open(key, b.take(24), b.skip(24)) {
                None => Err("decryption failed (wrong vault key?)"@),
                Some(p) => if valid_utf8(p) {
                    Ok(decode_utf8(p))
                } else {
                    Err("secret is not valid utf-8"@)
                },
            }
        },
    }
}

/// What reading the secret of `host_id` gives when the vault holds `m`.
pub open spec fn read_secret(key: Seq<u8>, m: Map<Seq<char>, Seq<char>>, host_id: Seq<char>) -> Result<
    Option<Seq<char>>,
    Seq<char>,
> {
    if m.contains_key(host_id) {
        match read_blob(key, m[host_id]) {
            Ok(s) => Ok(Some(s)),
            Err(e) => Err(e),
        }
    } else {
        Ok(None)
    }
}

/// The blob stored for `secret` under `key` with `nonce`.
pub open spec fn blob_of(key: Seq<u8>, nonce: Seq<u8>, secret: Seq<char>) -> Seq<char> {
    base64_encode(nonce + xchacha_seal(key, nonce, encode_utf8(secret)))
}

/// The secrets.
pub struct Vault {
    key: Vec<u8>,
    entries: Vec<SecretEntry>,
}

impl Vault {
    #[verifier::type_invariant]
    spec fn inv(self) -> bool {
        self.key@.len() == 32
    }

    /// The cipher key.
    pub closed spec fn cipher_key(self) -> Seq<u8> {
        self.key@
    }

    /// The stored blobs, by host id.
    pub closed spec fn secrets(self) -> Map<Seq<char>, Seq<char>> {
        entries_map(self.entries@)
    }

    /// 32 fresh random bytes, the master key of a new vault.
    pub fn generate_master_key() -> (k: Vec<u8>)
        ensures
            k@.len() == 32,
    {
        random_bytes(32)
    }

    /// An empty vault whose cipher key is derived from `master`.
    pub fn ephemeral(master: &[u8]) -> (r: Result<Vault, CoreError>)
        ensures
            r is Ok <==> master@.len() <= 0xFFFF_FFFF,
            r matches Ok(v) ==> v.cipher_key() == argon2id_key(master@, encode_utf8(SALT@))
                && v.secrets() == Map::<Seq<char>, Seq<char>>::empty(),
            r matches Err(e) ==> (e matches CoreError::Vault(m) && m@ == "password is too long"@),
    {
        Vault::with_entries(master, Vec::new())
    }

    /// A vault holding `entries` (as read back from disk) whose cipher key
    /// is derived from `master`.
    pub fn with_entries(master: &[u8], entries: Vec<SecretEntry>) -> (r: Result<Vault, CoreError>)
        ensures
            r is Ok <==> master@.len() <= 0xFFFF_FFFF,
            r matches Ok(v) ==> v.cipher_key() == argon2id_key(master@, encode_utf8(SALT@))
                && v.secrets() == entries_map(entries@),
            r matches Err(e) ==> (e matches CoreError::Vault(m) && m@ == "password is too long"@),
    {
        let salt = SALT.as_bytes();
        proof {
            reveal_strlit("agentmux-ssh-vault-v1");
            vstd::string::is_ascii_spec_bytes(SALT);
            assert(salt@.len() == 21);
        }
        match argon2_derive(master, salt) {
            Some(key) => Ok(Vault { key, entries }),
            None => Err(CoreError::Vault("password is too long".to_owned())),
        }
    }

    /// The stored entries, for writing back to disk.
    pub fn entries(&self) -> (r: Vec<SecretEntry>)
        ensures
            entries_map(r@) == self.secrets(),
    {
        let mut r: Vec<SecretEntry> = Vec::new();
        let mut i: usize = 0;
        while i < self.entries.len()
            invariant
                i <= self.entries.len(),
                entries_map(r@) == entries_map(self.entries@.take(i as int)),
            decreases self.entries.len() - i,
        {
            let e = SecretEntry {
                host_id: self.entries[i].host_id.clone(),
                blob: self.entries[i].blob.clone(),
            };
            let ghost before = r@;
            r.push(e);
            assert(r@.drop_last() =~= before);
            assert(self.entries@.take(i + 1).drop_last() =~= self.entries@.take(i as int));
            i = i + 1;
        }
        assert(self.entries@.take(i as int) =~= self.entries@);
        r
    }

    /// Index of the last entry for `host_id`, if any.
    fn find(&self, host_id: &str) -> (r: Option<usize>)
        ensures
            match r {
                Some(i) => i < self.entries@.len() && self.secrets().contains_key(host_id@)
                    && self.secrets()[host_id@] == self.entries@[i as int].blob@,
                None => !self.secrets().contains_key(host_id@),
            },
    {
        let wanted = host_id.to_owned();
        let mut i: usize = self.entries.len();
        assert(self.entries@.take(i as int) =~= self.entries@);
        while i > 0
            invariant
                i <= self.entries.len(),
                wanted@ == host_id@,
                entries_map(self.entries@).contains_key(host_id@) == entries_map(
                    self.entries@.take(i as int),
                ).contains_key(host_id@),
                entries_map(self.entries@).contains_key(host_id@) ==> entries_map(self.entries@)[host_id@]
                    == entries_map(self.entries@.take(i as int))[host_id@],
            decreases i,
        {
            let ghost t = self.entries@.take(i as int);
            assert(t.drop_last() =~= self.entries@.take(i - 1));
            assert(t.last() == self.entries@[i - 1]);
            if self.entries[i - 1].host_id == wanted {
                assert(entries_map(t).contains_key(host_id@));
                return Some(i - 1);
            }
            i = i - 1;
        }
        assert(self.entries@.take(0) =~= Seq::<SecretEntry>::empty());
        None
    }

    /// Whether a secret is stored for `host_id`.
    pub fn contains(&self, host_id: &str) -> (b: bool)
        ensures
            b == self.secrets().contains_key(host_id@),
    {
        self.find(host_id).is_some()
    }

    /// Removes the secret of `host_id`, if any.
    pub fn delete(&mut self, host_id: &str)
        ensures
            final(self).secrets() == old(self).secrets().remove(host_id@),
            final(self).cipher_key() == old(self).cipher_key(),
    {
        proof {
            use_type_invariant(&*self);
        }
        let wanted = host_id.to_owned();
        let mut kept: Vec<SecretEntry> = Vec::new();
        let mut i: usize = 0;
        while i < self.entries.len()
            invariant
                i <= self.entries.len(),
                wanted@ == host_id@,
                entries_map(kept@) == entries_map(self.entries@.take(i as int)).remove(host_id@),
            decreases self.entries.len() - i,
        {
            let ghost t = self.entries@.take(i + 1);
            assert(t.drop_last() =~= self.entries@.take(i as int));
            assert(t.last() == self.entries@[i as int]);
            if !(self.entries[i].host_id == wanted) {
                let e = SecretEntry {
                    host_id: self.entries[i].host_id.clone(),
                    blob: self.entries[i].blob.clone(),
                };
                let ghost before = kept@;
                kept.push(e);
                assert(kept@.drop_last() =~= before);
                assert(entries_map(kept@) =~= entries_map(t).remove(host_id@));
            } else {
                assert(entries_map(kept@) =~= entries_map(t).remove(host_id@));
            }
            i = i + 1;
        }
        assert(self.entries@.take(i as int) =~= self.entries@);
        self.entries = kept;
    }

    /// Encrypts `secret` under a fresh random nonce and stores it for
    /// `host_id`, replacing any secret stored there. Reading it back gives
    /// `secret`. A secret too long for the cipher is refused; one between
    /// `keystream_limit()` and `seal_limit()` bytes would make the cipher
    /// panic and is left out.
    pub fn set(&mut self, host_id: &str, secret: &str) -> (r: Result<(), CoreError>)
        requires
            encode_utf8(secret@).len() + 40 <= usize::MAX / 4 * 3,
            encode_utf8(secret@).len() <= keystream_limit() || encode_utf8(secret@).len() >= seal_limit(),
        ensures
            final(self).cipher_key() == old(self).cipher_key(),
            r is Ok <==> encode_utf8(secret@).len() < seal_limit(),
            r is Ok ==> exists|nonce: Seq<u8>|
                nonce.len() == 24 && final(self).secrets() == old(self).secrets().insert(
                    host_id@,
                    blob_of(old(self).cipher_key(), nonce, secret@),
                ),
            r is Ok ==> read_secret(final(self).cipher_key(), final(self).secrets(), host_id@) == Ok::<
                Option<Seq<char>>,
                Seq<char>,
            >(Some(secret@)),
            r matches Err(e) ==> final(self).secrets() == old(self).secrets() && (e matches CoreError::Vault(
                m,
            ) && m@ == "encryption failed"@),
    {
        proof {
            use_type_invariant(&*self);
        }
        let nonce = random_bytes(24);
        let pt = secret.as_bytes();
        let ct = match seal(self.key.as_slice(), nonce.as_slice(), pt) {
            Some(c) => c,
            None => {
                return Err(CoreError::Vault("encryption failed".to_owned()));
            },
        };
        let mut blob = nonce.clone();
        let mut j: usize = 0;
        while j < ct.len()
            invariant
                j <= ct.len(),
                blob@ == nonce@ + ct@.take(j as int),
            decreases ct.len() - j,
        {
            blob.push(ct[j]);
            assert(blob@ =~= nonce@ + ct@.take(j + 1));
            j = j + 1;
        }
        assert(ct@.take(j as int) =~= ct@);
        let text = b64_encode(blob.as_slice());
        proof {
            let b = blob@;
            assert(b.take(24) =~= nonce@);
            assert(b.skip(24) =~= ct@);
        }
        self.delete(host_id);
        let ghost before = self.entries@;
        let mut es: Vec<SecretEntry> = Vec::new();
        std::mem::swap(&mut es, &mut self.entries);
        es.push(SecretEntry { host_id: host_id.to_owned(), blob: text });
        self.entries = es;
        assert(self.entries@.drop_last() =~= before);
        assert(entries_map(old(self).entries@).remove(host_id@).insert(host_id@, blob_of(old(self).key@, nonce@, secret@))
            =~= entries_map(old(self).entries@).insert(host_id@, blob_of(old(self).key@, nonce@, secret@)));
        Ok(())
    }

    /// The secret stored for `host_id`: `None` when there is none, an error
    /// when the stored entry is not valid base64, is too short, fails to
    /// decrypt (a different vault key, or a ciphertext longer than the
    /// cipher's keystream) or is not UTF-8 text.
    pub fn get(&self, host_id: &str) -> (r: Result<Option<String>, CoreError>)
        ensures
            match r {
                Ok(Some(s)) => read_secret(self.cipher_key(), self.secrets(), host_id@) == Ok::<
                    Option<Seq<char>>,
                    Seq<char>,
                >(Some(s@)),
                Ok(None) => read_secret(self.cipher_key(), self.secrets(), host_id@) == Ok::<
                    Option<Seq<char>>,
                    Seq<char>,
                >(None),
                Err(e) => e matches CoreError::Vault(m) && read_secret(
                    self.cipher_key(),
                    self.secrets(),
                    host_id@,
                ) == Err::<Option<Seq<char>>, Seq<char>>(m@),
            },
    {
        proof {
            use_type_invariant(self);
        }
        let i = match self.find(host_id) {
            Some(i) => i,
            None => {
                return Ok(None);
            },
        };
        let blob = match b64_decode(self.entries[i].blob.as_str()) {
            Some(b) => b,
            None => {
                return Err(CoreError::Vault("corrupt vault entry".to_owned()));
            },
        };
        if blob.len() < 25 {
            return Err(CoreError::Vault("corrupt vault entry".to_owned()));
        }
        if blob.len() as u64 > 24 + 64 * 0xFFFF_FFFE + 16 {
            // Longer than the keystream covers: the cipher cannot have
            // produced it under this key.
            return Err(CoreError::Vault("decryption failed (wrong vault key?)".to_owned()));
        }
        let mut nonce: Vec<u8> = Vec::new();
        let mut ct: Vec<u8> = Vec::new();
        let mut j: usize = 0;
        while j < blob.len()
            invariant
                j <= blob.len(),
                blob.len() >= 25,
                j <= 24 ==> nonce@ == blob@.take(j as int) && ct@.len() == 0,
                j > 24 ==> nonce@ == blob@.take(24) && ct@ == blob@.subrange(24, j as int),
            decreases blob.len() - j,
        {
            if j < 24 {
                nonce.push(blob[j]);
                assert(nonce@ =~= blob@.take(j + 1));
            } else {
                ct.push(blob[j]);
                assert(ct@ =~= blob@.subrange(24, j + 1));
            }
            j = j + 1;
        }
        assert(ct@ =~= blob@.skip(24));
        let pt = match open(self.key.as_slice(), nonce.as_slice(), ct.as_slice()) {
            Some(p) => p,
            None => {
                return Err(CoreError::Vault("decryption failed (wrong vault key?)".to_owned()));
            },
        };
        match utf8_text(pt) {
            Some(s) => Ok(Some(s)),
            None => Err(CoreError::Vault("secret is not valid utf-8".to_owned())),
        }
    }
}

/// After the secret of `host_id` is deleted, reading it gives nothing.
pub proof fn law_delete_then_get(key: Seq<u8>, m: Map<Seq<char>, Seq<char>>, host_id: Seq<char>)
    ensures
        read_secret(key, m.remove(host_id), host_id) == Ok::<Option<Seq<char>>, Seq<char>>(None),
{
}

/// Storing or deleting the secret of one host leaves what the others read
/// unchanged.
pub proof fn law_other_hosts_unchanged(
    key: Seq<u8>,
    m: Map<Seq<char>, Seq<char>>,
    host_id: Seq<char>,
    blob: Seq<char>,
    other: Seq<char>,
)
    requires
        other != host_id,
    ensures
        read_secret(key, m.insert(host_id, blob), other) == read_secret(key, m, other),
        read_secret(key, m.remove(host_id), other) == read_secret(key, m, other),
{
}

/// A vault reopened with the master key it was made with, from the entries
/// it handed out, reads every host's secret as the vault itself did.
pub proof fn law_reopen_reads_same(v: Vault, w: Vault, master: Seq<u8>, stored: Seq<SecretEntry>, host_id: Seq<char>)
    requires
        v.cipher_key() == argon2id_key(master, encode_utf8(SALT@)),
        entries_map(stored) == v.secrets(),
        w.cipher_key() == argon2id_key(master, encode_utf8(SALT@)),
        w.secrets() == entries_map(stored),
    ensures
        read_secret(w.cipher_key(), w.secrets(), host_id) == read_secret(v.cipher_key(), v.secrets(), host_id),
{
}

} // verus!
