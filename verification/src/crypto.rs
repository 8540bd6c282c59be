//! The cryptographic and encoding primitives the vault is built from.
//! Each one is a call into its crate; what the crate computes is named, not
//! restated, and only the documented round-trip facts are claimed.

use vstd::prelude::*;
use vstd::utf8::{decode_utf8, valid_utf8};

use chacha20poly1305::aead::{Aead, KeyInit};
use rand::RngCore;
use base64::Engine;

verus! {

/// The key that Argon2id with the crate's default parameters
/// (`Argon2::default()`, 32-byte output) derives from `password` and `salt`.
pub uninterp spec fn argon2id_key(password: Seq<u8>, salt: Seq<u8>) -> Seq<u8>;

/// XChaCha20-Poly1305 ciphertext (message followed by its 16-byte tag) of
/// `plaintext` under `key` and `nonce`, with no associated data.
pub uninterp spec fn xchacha_seal(key: Seq<u8>, nonce: Seq<u8>, plaintext: Seq<u8>) -> Seq<u8>;

/// XChaCha20-Poly1305 decryption of `ciphertext` under `key` and `nonce`:
/// the plaintext, or `None` when the tag does not verify.
pub uninterp spec fn xchacha_open(key: Seq<u8>, nonce: Seq<u8>, ciphertext: Seq<u8>) -> Option<
    Seq<u8>,
>;

/// Standard (padded) base64 text of `bytes`.
pub uninterp spec fn base64_encode(bytes: Seq<u8>) -> Seq<char>;

/// The bytes of standard base64 text, or `None` if it is not valid base64.
pub uninterp spec fn base64_decode(text: Seq<char>) -> Option<Seq<u8>>;

/// The longest message the cipher takes is one byte short of this.
pub open spec fn seal_limit() -> nat {
    64 * 0xFFFF_FFFF
}

/// The longest message the keystream covers: the cipher starts at block 1
/// of the `u32` block counter, leaving `0xFFFF_FFFE` blocks of 64 bytes.
/// Messages longer than this but shorter than `seal_limit()` pass the
/// cipher's own length check and then make the keystream panic.
pub open spec fn keystream_limit() -> nat {
    64 * 0xFFFF_FFFE
}

/// `Argon2::default().hash_password_into(password, salt, out)` with a
/// 32-byte `out`. The crate refuses only a password longer than
/// `0xFFFF_FFFF` bytes or a salt outside `8..=0xFFFF_FFFF` bytes; otherwise
/// the output is the derived key.
#[verifier::external_body]
pub(crate) fn argon2_derive(password: &[u8], salt: &[u8]) -> (r: Option<Vec<u8>>)
    ensures
        r is Some <==> (password@.len() <= 0xFFFF_FFFF && 8 <= salt@.len() <= 0xFFFF_FFFF),
        r matches Some(k) ==> k@ == argon2id_key(password@, salt@) && k@.len() == 32,
{
    let mut key = vec![0u8; 32];
    argon2::Argon2::default().hash_password_into(password, salt, &mut key).ok().map(|_| key)
}

/// `XChaCha20Poly1305::new(key).encrypt(nonce, plaintext)`. The crate
/// refuses a message of `seal_limit()` bytes or more; otherwise it returns
/// the message encrypted with the 16-byte tag appended, and decrypting that
/// under the same key and nonce gives the message back. A message longer
/// than `keystream_limit()` but shorter than `seal_limit()` makes the crate
/// panic, which `requires` rules out.
#[verifier::external_body]
pub(crate) fn seal(key: &[u8], nonce: &[u8], plaintext: &[u8]) -> (r: Option<Vec<u8>>)
    requires
        key@.len() == 32,
        nonce@.len() == 24,
        plaintext@.len() <= keystream_limit() || plaintext@.len() >= seal_limit(),
    ensures
        r is Some <==> plaintext@.len() < seal_limit(),
        r matches Some(c) ==> c@ == xchacha_seal(key@, nonce@, plaintext@) && c@.len()
            == plaintext@.len() + 16 && xchacha_open(key@, nonce@, c@) == Some(plaintext@),
{
    let cipher = chacha20poly1305::XChaCha20Poly1305::new(chacha20poly1305::Key::from_slice(key));
    cipher.encrypt(chacha20poly1305::XNonce::from_slice(nonce), plaintext).ok()
}

/// `XChaCha20Poly1305::new(key).decrypt(nonce, ciphertext)`: the plaintext,
/// or `None` when the ciphertext does not authenticate. An authentic
/// ciphertext whose message part is longer than `keystream_limit()` makes
/// the crate panic, which `requires` rules out.
#[verifier::external_body]
pub(crate) fn open(key: &[u8], nonce: &[u8], ciphertext: &[u8]) -> (r: Option<Vec<u8>>)
    requires
        key@.len() == 32,
        nonce@.len() == 24,
        ciphertext@.len() <= keystream_limit() + 16,
    ensures
        match r {
            Some(p) => xchacha_open(key@, nonce@, ciphertext@) == Some(p@),
            None => xchacha_open(key@, nonce@, ciphertext@) is None,
        },
{
    let cipher = chacha20poly1305::XChaCha20Poly1305::new(chacha20poly1305::Key::from_slice(key));
    cipher.decrypt(chacha20poly1305::XNonce::from_slice(nonce), ciphertext).ok()
}

/// `base64::engine::general_purpose::STANDARD.encode(bytes)`; decoding the
/// text gives the bytes back. The crate panics when the text length would
/// overflow `usize`, which `requires` rules out.
#[verifier::external_body]
pub(crate) fn b64_encode(bytes: &[u8]) -> (s: String)
    requires
        bytes@.len() <= usize::MAX / 4 * 3,
    ensures
        s@ == base64_encode(bytes@),
        base64_decode(s@) == Some(bytes@),
{
    base64::engine::general_purpose::STANDARD.encode(bytes)
}

/// `base64::engine::general_purpose::STANDARD.decode(text)`, with the
/// decoding error dropped.
#[verifier::external_body]
pub(crate) fn b64_decode(text: &str) -> (r: Option<Vec<u8>>)
    ensures
        match r {
            Some(b) => base64_decode(text@) == Some(b@),
            None => base64_decode(text@) is None,
        },
{
    base64::engine::general_purpose::STANDARD.decode(text).ok()
}

/// `String::from_utf8(bytes).ok()`: the text the bytes encode, when they
/// are valid UTF-8.
#[verifier::external_body]
pub(crate) fn utf8_text(bytes: Vec<u8>) -> (r: Option<String>)
    ensures
        r is Some <==> valid_utf8(bytes@),
        r matches Some(s) ==> s@ == decode_utf8(bytes@),
{
    String::from_utf8(bytes).ok()
}

/// `n` bytes from the thread-local random generator
/// (`rand::thread_rng().fill_bytes`). Which bytes is chance.
#[verifier::external_body]
pub(crate) fn random_bytes(n: usize) -> (r: Vec<u8>)
    ensures
        r@.len() == n,
{
    let mut buf = vec![0u8; n];
    rand::thread_rng().fill_bytes(&mut buf);
    buf
}

} // verus!
