//! The cryptographic primitives, each behind one small function whose
//! contract is what the rest of the crate knows of it.

use base64::Engine as _;
use chacha20poly1305::aead::{Aead as _, KeyInit as _};
use ed25519_dalek::Signer as _;
use rand_core::RngCore as _;
use vstd::prelude::*;

verus! {

/// The BLAKE3 hash of a byte string.
pub uninterp spec fn blake3_hash(input: Seq<u8>) -> Seq<u8>;

/// The BLAKE3 keyed hash of a byte string.
pub uninterp spec fn blake3_keyed(key: Seq<u8>, input: Seq<u8>) -> Seq<u8>;

/// The ChaCha20-Poly1305 ciphertext, tag included, of `plaintext`.
pub uninterp spec fn chacha_seal(key: Seq<u8>, nonce: Seq<u8>, plaintext: Seq<u8>) -> Seq<u8>;

/// The plaintext of a ChaCha20-Poly1305 ciphertext, where its tag
/// authenticates.
pub uninterp spec fn chacha_open(key: Seq<u8>, nonce: Seq<u8>, sealed: Seq<u8>) -> Option<Seq<u8>>;

/// Plaintexts of this length or more exhaust the ChaCha20 block counter.
pub const SEAL_LIMIT: u64 = 274877906880;

/// `blake3::hash`: its 32 bytes.
#[verifier::external_body]
pub(crate) fn hash(input: &[u8]) -> (r: [u8; 32])
    ensures
        r@ == blake3_hash(input@),
{
    *blake3::hash(input).as_bytes()
}

/// `blake3::keyed_hash`: its 32 bytes.
#[verifier::external_body]
pub(crate) fn keyed_hash(key: &[u8; 32], input: &[u8]) -> (r: [u8; 32])
    ensures
        r@ == blake3_keyed(key@, input@),
{
    *blake3::keyed_hash(key, input).as_bytes()
}

/// `ChaCha20Poly1305::encrypt` without associated data. It fails only on
/// a plaintext of `SEAL_LIMIT` bytes or more, which is left out. The
/// ciphertext is the plaintext's length and a 16-byte tag, and opens
/// under the same key and nonce to the plaintext.
#[verifier::external_body]
pub(crate) fn seal(key: &[u8; 32], nonce: &[u8; 12], plaintext: &[u8]) -> (r: Vec<u8>)
    requires
        plaintext@.len() < SEAL_LIMIT,
    ensures
        r@ == chacha_seal(key@, nonce@, plaintext@),
        r@.len() == plaintext@.len() + 16,
        chacha_open(key@, nonce@, r@) == Some(plaintext@),
{
    let cipher = chacha20poly1305::ChaCha20Poly1305::new(chacha20poly1305::Key::from_slice(key));
    cipher.encrypt(chacha20poly1305::Nonce::from_slice(nonce), plaintext).expect("encrypt")
}

/// `ChaCha20Poly1305::decrypt` without associated data. It gives the one
/// plaintext that the sealed bytes are the ciphertext and tag of, under the
/// same key and nonce. Which other bytes fail is not said: that a forged
/// ciphertext does not authenticate holds of the cipher but for chance.
#[verifier::external_body]
pub(crate) fn open(key: &[u8; 32], nonce: &[u8; 12], sealed: &[u8]) -> (r: Option<Vec<u8>>)
    ensures
        match r {
            Some(p) => chacha_open(key@, nonce@, sealed@) == Some(p@) && chacha_seal(
                key@,
                nonce@,
                p@,
            ) == sealed@,
            None => chacha_open(key@, nonce@, sealed@) is None,
        },
{
    let cipher = chacha20poly1305::ChaCha20Poly1305::new(chacha20poly1305::Key::from_slice(key));
    cipher.decrypt(chacha20poly1305::Nonce::from_slice(nonce), sealed).ok()
}

/// `OsRng::fill_bytes`: `n` bytes from the operating system. Nothing is
/// promised of what they are; the call does not return where the
/// operating system has no randomness to give.
#[verifier::external_body]
pub(crate) fn random_bytes(n: usize) -> (r: Vec<u8>)
    ensures
        r@.len() == n,
{
    let mut r = vec![0u8; n];
    rand_core::OsRng.fill_bytes(&mut r);
    r
}

/// 32 bytes from the operating system.
pub(crate) fn random32() -> [u8; 32] {
    crate::bytes::array32(&random_bytes(32), 0)
}

/// Base64 in the URL-safe alphabet without padding.
pub uninterp spec fn base64url(bytes: Seq<u8>) -> Seq<char>;

/// The bytes that a URL-safe unpadded Base64 text writes.
pub uninterp spec fn base64url_read(text: Seq<char>) -> Option<Seq<u8>>;

/// A character of the URL-safe Base64 alphabet.
pub open spec fn base64url_char(c: char) -> bool {
    'A' <= c <= 'Z' || 'a' <= c <= 'z' || '0' <= c <= '9' || c == '-' || c == '_'
}

/// `URL_SAFE_NO_PAD.encode`. The text is of its alphabet, and reads back
/// as the bytes.
#[verifier::external_body]
pub(crate) fn base64url_encode(bytes: &[u8]) -> (r: String)
    ensures
        r@ == base64url(bytes@),
        base64url_read(r@) == Some(bytes@),
        forall|i: int| 0 <= i < r@.len() ==> base64url_char(#[trigger] r@[i]),
{
    base64::engine::general_purpose::URL_SAFE_NO_PAD.encode(bytes)
}

/// `URL_SAFE_NO_PAD.decode`.
#[verifier::external_body]
pub(crate) fn base64url_decode(text: &str) -> (r: Option<Vec<u8>>)
    ensures
        match r {
            Some(b) => base64url_read(text@) == Some(b@),
            None => base64url_read(text@) is None,
        },
{
    base64::engine::general_purpose::URL_SAFE_NO_PAD.decode(text).ok()
}

/// Base64 in the standard alphabet with padding.
pub uninterp spec fn base64(bytes: Seq<u8>) -> Seq<char>;

/// The bytes that a standard padded Base64 text writes.
pub uninterp spec fn base64_read(text: Seq<char>) -> Option<Seq<u8>>;

/// A character of the standard Base64 alphabet, or its padding.
pub open spec fn base64_char(c: char) -> bool {
    'A' <= c <= 'Z' || 'a' <= c <= 'z' || '0' <= c <= '9' || c == '+' || c == '/' || c == '='
}

/// `STANDARD.encode`. The text is of its alphabet, and reads back as the
/// bytes.
#[verifier::external_body]
pub(crate) fn base64_encode(bytes: &[u8]) -> (r: String)
    ensures
        r@ == base64(bytes@),
        base64_read(r@) == Some(bytes@),
        forall|i: int| 0 <= i < r@.len() ==> base64_char(#[trigger] r@[i]),
{
    base64::engine::general_purpose::STANDARD.encode(bytes)
}

/// `STANDARD.decode`.
#[verifier::external_body]
pub(crate) fn base64_decode(text: &str) -> (r: Option<Vec<u8>>)
    ensures
        match r {
            Some(b) => base64_read(text@) == Some(b@),
            None => base64_read(text@) is None,
        },
{
    base64::engine::general_purpose::STANDARD.decode(text).ok()
}

/// These 32 bytes are an Ed25519 verifying key.
pub uninterp spec fn ed25519_key_ok(key: Seq<u8>) -> bool;

/// An Ed25519 signature passes strict verification.
pub uninterp spec fn ed25519_strict(key: Seq<u8>, message: Seq<u8>, signature: Seq<u8>) -> bool;

/// The verifying key of an Ed25519 seed.
pub uninterp spec fn ed25519_public(seed: Seq<u8>) -> Seq<u8>;

/// The Ed25519 signature of a message under a seed.
pub uninterp spec fn ed25519_signature(seed: Seq<u8>, message: Seq<u8>) -> Seq<u8>;

/// `VerifyingKey::from_bytes`: whether it gives a key.
#[verifier::external_body]
pub(crate) fn verifying_key_ok(key: &[u8; 32]) -> (r: bool)
    ensures
        r == ed25519_key_ok(key@),
{
    ed25519_dalek::VerifyingKey::from_bytes(key).is_ok()
}

/// `VerifyingKey::verify_strict`, on bytes that are a key.
#[verifier::external_body]
pub(crate) fn verify_strict(key: &[u8; 32], message: &[u8], signature: &[u8; 64]) -> (r: bool)
    requires
        ed25519_key_ok(key@),
    ensures
        r == ed25519_strict(key@, message@, signature@),
{
    let sig = ed25519_dalek::Signature::from_bytes(signature);
    ed25519_dalek::VerifyingKey::from_bytes(key).is_ok_and(|k| k.verify_strict(message, &sig).is_ok())
}

/// `SigningKey::verifying_key` of the seed's signing key. It is a key.
#[verifier::external_body]
pub(crate) fn public_key(seed: &[u8; 32]) -> (r: [u8; 32])
    ensures
        r@ == ed25519_public(seed@),
        ed25519_key_ok(r@),
{
    ed25519_dalek::SigningKey::from_bytes(seed).verifying_key().to_bytes()
}

/// The point that a signature begins with is the neutral element of the
/// curve: the only point of small order among those that signing makes.
pub open spec fn neutral_point(signature: Seq<u8>) -> bool {
    signature.take(32) == seq![1u8] + Seq::new(31, |i: int| 0u8)
}

/// `SigningKey::sign` under the seed's signing key. `verify_strict` accepts
/// the signature under the key of [`public_key`], but for one that begins
/// with the neutral point, which it refuses.
#[verifier::external_body]
pub(crate) fn sign(seed: &[u8; 32], message: &[u8]) -> (r: [u8; 64])
    ensures
        r@ == ed25519_signature(seed@, message@),
        !neutral_point(r@) ==> ed25519_strict(ed25519_public(seed@), message@, r@),
{
    ed25519_dalek::SigningKey::from_bytes(seed).sign(message).to_bytes()
}

} // verus!
