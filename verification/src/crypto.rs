//! Path-bound object keys and authenticated payload encryption: SHA-256
//! path hashes, HKDF-SHA256 key derivation, and ChaCha20-Poly1305 in place.
use chacha20poly1305::aead::{AeadInPlace, KeyInit};
use chacha20poly1305::{ChaCha20Poly1305, Key, Nonce, Tag};
use hkdf::Hkdf;
use sha2::{Digest, Sha256};
use vstd::prelude::*;
use vstd::string::*;

verus! {

/// The size of a derived object key.
pub const DERIVED_KEY_SIZE: usize = 32;
/// The size of a ChaCha20-Poly1305 nonce.
pub const NONCE_SIZE: usize = 12;
/// The size of a Poly1305 tag.
pub const TAG_SIZE: usize = 16;

/// The SHA-256 digest of `data`.
pub uninterp spec fn sha256_digest(data: Seq<u8>) -> Seq<u8>;

/// The 32 bytes HKDF-SHA256 derives from `ikm` with `salt` and `info`.
pub uninterp spec fn hkdf_sha256_okm(salt: Seq<u8>, ikm: Seq<u8>, info: Seq<u8>) -> Seq<u8>;

/// The ciphertext and tag ChaCha20-Poly1305 seals `plaintext` into under
/// `key`, `nonce` and associated data `aad`.
pub uninterp spec fn chacha20poly1305_seal(key: Seq<u8>, nonce: Seq<u8>, aad: Seq<u8>, plaintext: Seq<u8>) -> (Seq<u8>, Seq<u8>);

/// The plaintext ChaCha20-Poly1305 opens `ciphertext` to under `key`,
/// `nonce`, `aad` and `tag`, or none when the tag does not authenticate
/// them (or the message is longer than the cipher's counter allows).
pub uninterp spec fn chacha20poly1305_open(key: Seq<u8>, nonce: Seq<u8>, aad: Seq<u8>, ciphertext: Seq<u8>, tag: Seq<u8>) -> Option<Seq<u8>>;

/// `sha2::Sha256`: new, update with `data`, finalize. The digest is the
/// named SHA-256 of the bytes; SHA-256 digests are 32 bytes.
#[verifier::external_body]
pub(crate) fn sha256_of(data: &[u8]) -> (r: [u8; 32])
    ensures
        r@ == sha256_digest(data@),
{
    let mut hasher = Sha256::new();
    hasher.update(data);
    let digest = hasher.finalize();
    let mut out = [0u8; 32];
    out.copy_from_slice(&digest);
    out
}

/// `hkdf::Hkdf::<Sha256>::new(Some(salt), ikm)` then `expand(info, okm)`
/// into 32 bytes. The source refuses only outputs longer than 255 hash
/// blocks, so a 32-byte expansion always succeeds; the bytes are the named
/// HKDF output.
#[verifier::external_body]
fn hkdf_sha256_expand32(salt: &[u8], ikm: &[u8], info: &[u8]) -> (r: [u8; 32])
    ensures
        r@ == hkdf_sha256_okm(salt@, ikm@, info@),
{
    let hk = Hkdf::<Sha256>::new(Some(salt), ikm);
    let mut okm = [0u8; 32];
    hk.expand(info, &mut okm).expect("a 32-byte HKDF output is always in range");
    okm
}

/// `ChaCha20Poly1305::encrypt_in_place_detached`: the payload becomes the
/// ciphertext (of the same length) and the tag is returned, as the named
/// seal gives them. After the block that keys Poly1305 the keystream has
/// `u32::MAX - 1` blocks left, and a longer payload makes the keystream
/// panic, so the `requires` leaves out payloads over `64 * (u32::MAX - 1)`
/// bytes. As for any AEAD, opening
/// the ciphertext with the same key, nonce, associated data and the tag
/// gives back the plaintext.
#[verifier::external_body]
fn chacha20poly1305_seal_in_place(key: &[u8; 32], nonce: &[u8; 12], aad: &[u8], payload: &mut [u8]) -> (tag: [u8; 16])
    requires
        old(payload)@.len() <= MAX_AEAD_PAYLOAD,
    ensures
        (final(payload)@, tag@) == chacha20poly1305_seal(key@, nonce@, aad@, old(payload)@),
        final(payload)@.len() == old(payload)@.len(),
        chacha20poly1305_open(key@, nonce@, aad@, final(payload)@, tag@) == Some(old(payload)@),
{
    let cipher = ChaCha20Poly1305::new(Key::from_slice(key));
    let tag = cipher
        .encrypt_in_place_detached(Nonce::from_slice(nonce), aad, payload)
        .expect("the payload is within the cipher's length limit");
    let mut out = [0u8; 16];
    out.copy_from_slice(&tag);
    out
}

/// `ChaCha20Poly1305::decrypt_in_place_detached`: when the tag
/// authenticates the ciphertext, the payload becomes the named plaintext and
/// the result is true; otherwise the source leaves the payload untouched and
/// the result is false. The tag is checked before any keystream is used; an
/// authentic payload over `64 * (u32::MAX - 1)` bytes would make the
/// keystream panic, so the `requires` leaves such payloads out.
#[verifier::external_body]
fn chacha20poly1305_open_in_place(key: &[u8; 32], nonce: &[u8; 12], aad: &[u8], payload: &mut [u8], tag: &[u8; 16]) -> (ok: bool)
    requires
        old(payload)@.len() <= MAX_AEAD_PAYLOAD,
    ensures
        ok == chacha20poly1305_open(key@, nonce@, aad@, old(payload)@, tag@) is Some,
        ok ==> final(payload)@ == chacha20poly1305_open(key@, nonce@, aad@, old(payload)@, tag@)->0,
        !ok ==> final(payload)@ == old(payload)@,
{
    let cipher = ChaCha20Poly1305::new(Key::from_slice(key));
    cipher
        .decrypt_in_place_detached(Nonce::from_slice(nonce), aad, payload, Tag::from_slice(tag))
        .is_ok()
}

/// The longest payload the AEAD handles: `64 * (u32::MAX - 1)` bytes.
pub const MAX_AEAD_PAYLOAD: u64 = 274877906816;

/// Key derivation and payload encryption bound to object paths.
pub struct PathCrypto;

impl PathCrypto {
    /// The SHA-256 digest of the path's UTF-8 bytes.
    pub fn path_hash(path: &str) -> (r: [u8; 32])
        ensures
            r@ == sha256_digest(path.spec_bytes()),
    {
        sha256_of(path.as_bytes())
    }

    /// The object key for `object_path`: HKDF-SHA256 of the master key with
    /// `salt`, expanded with the path's hash as info.
    pub fn derive_object_key(master_key: &[u8], salt: &[u8], object_path: &str) -> (r: [u8; 32])
        ensures
            r@ == hkdf_sha256_okm(salt@, master_key@, sha256_digest(object_path.spec_bytes())),
    {
        let info = Self::path_hash(object_path);
        hkdf_sha256_expand32(salt, master_key, info.as_slice())
    }

    /// Encrypts `payload` in place under `key` and `nonce`, authenticating
    /// `aad` too, and returns the tag. Decrypting the result with the same
    /// key, nonce, associated data and tag gives the payload back.
    pub fn encrypt_in_place(key: &[u8; 32], nonce: &[u8; 12], aad: &[u8], payload: &mut [u8]) -> (tag: [u8; 16])
        requires
            old(payload)@.len() <= MAX_AEAD_PAYLOAD,
        ensures
            (final(payload)@, tag@) == chacha20poly1305_seal(key@, nonce@, aad@, old(payload)@),
            final(payload)@.len() == old(payload)@.len(),
            chacha20poly1305_open(key@, nonce@, aad@, final(payload)@, tag@) == Some(old(payload)@),
    {
        chacha20poly1305_seal_in_place(key, nonce, aad, payload)
    }

    /// Decrypts `payload` in place when `tag` authenticates it under `key`,
    /// `nonce` and `aad`, and says whether it did; a payload that does not
    /// authenticate is left as it was.
    pub fn decrypt_in_place(key: &[u8; 32], nonce: &[u8; 12], aad: &[u8], payload: &mut [u8], tag: &[u8; 16]) -> (ok: bool)
        requires
            old(payload)@.len() <= MAX_AEAD_PAYLOAD,
        ensures
            ok == chacha20poly1305_open(key@, nonce@, aad@, old(payload)@, tag@) is Some,
            ok ==> final(payload)@ == chacha20poly1305_open(key@, nonce@, aad@, old(payload)@, tag@)->0,
            !ok ==> final(payload)@ == old(payload)@,
    {
        chacha20poly1305_open_in_place(key, nonce, aad, payload, tag)
    }
}

} // verus!
