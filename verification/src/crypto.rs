//! Trusted wrappers around the cryptographic calls the credential store
//! and the OAuth flow rest on.  Each wrapper's contract states what the
//! called crate's source shows, and nothing more.

use vstd::prelude::*;

use base64::Engine;
use chacha20poly1305::aead::Aead;
use chacha20poly1305::KeyInit;
use sha2::Digest;

verus! {

/// What base64's standard engine encodes a byte string to.  The canonical
/// padded encoding is a function of the bytes alone.
pub uninterp spec fn spec_b64(bytes: Seq<u8>) -> Seq<char>;

/// What SHA-256 digests a byte string to.  The digest is a function of the
/// bytes alone.
pub uninterp spec fn spec_sha256(bytes: Seq<u8>) -> Seq<u8>;

/// A character of the standard base64 alphabet proper, padding aside.
pub open spec fn spec_b64_data_char(c: char) -> bool {
    ('A' <= c && c <= 'Z') || ('a' <= c && c <= 'z') || ('0' <= c && c <= '9') || c == '+' || c
        == '/'
}

/// How many `=` padding characters the standard encoding of `n` bytes
/// ends in.
pub open spec fn spec_b64_pad_len(n: int) -> int {
    if n % 3 == 0 {
        0int
    } else {
        3 - (n % 3)
    }
}

/// Relies on base64's `Engine::encode` with the standard alphabet and
/// padding: the canonical encoding of the input bytes — four characters
/// per three-byte group, alphabet characters up to the trailing `=`
/// padding.
#[verifier::external_body]
pub fn b64_encode(bytes: &[u8]) -> (r: String)
    ensures
        r@ == spec_b64(bytes@),
        r@.len() == 4 * ((bytes@.len() + 2) / 3),
        forall|i: int|
            0 <= i < r@.len() - spec_b64_pad_len(bytes@.len() as int) ==> spec_b64_data_char(
                #[trigger] r@[i],
            ),
        forall|i: int|
            r@.len() - spec_b64_pad_len(bytes@.len() as int) <= i < r@.len() ==> #[trigger] r@[i]
                == '=',
{
    base64::engine::general_purpose::STANDARD.encode(bytes)
}

/// Relies on `Sha256::digest` of the sha2 crate: a 32-byte digest of the
/// input alone.
#[verifier::external_body]
pub fn sha256(bytes: &[u8]) -> (r: Vec<u8>)
    ensures
        r@ == spec_sha256(bytes@),
        r@.len() == 32,
{
    sha2::Sha256::digest(bytes).to_vec()
}

/// What opening a stored token under a process key yields: base64
/// decoding, then XChaCha20-Poly1305 decryption of the nonce-prefixed
/// blob, a function of the key and the stored text alone.
pub uninterp spec fn spec_open_token(key: Seq<u8>, stored: Seq<char>) -> Option<Seq<char>>;

/// Relies on `XChaCha20Poly1305::encrypt` under a fresh random 24-byte
/// nonce; the nonce and ciphertext travel together, base64-encoded.
/// Opening the result under the same key returns the token.  Two calls on
/// one token differ, and nothing else is assumed of the stored form.
#[verifier::external_body]
pub fn seal_token(key: &Vec<u8>, token: &str) -> (r: Option<String>)
    requires
        key@.len() == 32,
    ensures
        r matches Some(c) ==> spec_open_token(key@, c@) == Some(token@),
{
    let cipher = chacha20poly1305::XChaCha20Poly1305::new_from_slice(key.as_slice()).ok()?;
    let mut nonce_bytes = [0u8; 24];
    rand::Rng::fill(&mut rand::thread_rng(), &mut nonce_bytes[..]);
    let nonce = chacha20poly1305::XNonce::from_slice(&nonce_bytes);
    let ct = cipher.encrypt(nonce, token.as_bytes()).ok()?;
    let mut blob = nonce_bytes.to_vec();
    blob.extend_from_slice(&ct);
    Some(base64::engine::general_purpose::STANDARD.encode(blob))
}

/// Relies on base64's strict decode and `XChaCha20Poly1305::decrypt`:
/// exactly the token the stored text opens to under the key, or nothing.
/// The outcome is a function of the key and the text alone.
#[verifier::external_body]
pub fn open_token(key: &Vec<u8>, stored: &str) -> (r: Option<String>)
    requires
        key@.len() == 32,
    ensures
        (r matches Some(t) ==> spec_open_token(key@, stored@) == Some(t@)),
        (r is None ==> spec_open_token(key@, stored@) is None),
{
    let blob = base64::engine::general_purpose::STANDARD.decode(stored).ok()?;
    if blob.len() < 24 {
        return None;
    }
    let cipher = chacha20poly1305::XChaCha20Poly1305::new_from_slice(key.as_slice()).ok()?;
    let nonce = chacha20poly1305::XNonce::from_slice(&blob[..24]);
    let pt = cipher.decrypt(nonce, &blob[24..]).ok()?;
    String::from_utf8(pt).ok()
}

/// Relies on `Argon2::hash_password` of the argon2 crate under a fresh
/// random salt: a PHC-format hash, `None` when the algorithm refuses the
/// input.  With a generated salt and the default parameters the one
/// refusal its source shows is a password over `MAX_PWD_LEN` bytes, so a
/// password within that bound always hashes.  Two calls on one password
/// differ; nothing else is assumed of the hash.
#[verifier::external_body]
pub fn hash_password(password: &str) -> (r: Option<String>)
    ensures
        vstd::utf8::encode_utf8(password@).len() <= 0xFFFF_FFFF ==> r is Some,
{
    let salt = argon2::password_hash::SaltString::generate(&mut rand::thread_rng());
    argon2::PasswordHasher::hash_password(&argon2::Argon2::default(), password.as_bytes(), &salt)
        .ok()
        .map(|h| h.to_string())
}

/// Relies on `password_auth::verify_password`: whether the password
/// matches the PHC-format hash.
#[verifier::external_body]
pub fn check_password(password: &str, hash: &str) -> (r: bool) {
    password_auth::verify_password(password.as_bytes(), hash).is_ok()
}

} // verus!
