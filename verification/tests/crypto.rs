use sos::crypto::{PathCrypto, NONCE_SIZE};
use sos::fs::{derive_default_passkey, SOSFS_DEFAULT_PASSKEY};

#[test]
fn test_path_derived_keys_are_path_bound() {
    let master = [7u8; 32];
    let salt = [9u8; 32];
    let k1 = PathCrypto::derive_object_key(&master, &salt, "/bucket/a");
    let k2 = PathCrypto::derive_object_key(&master, &salt, "/bucket/b");
    assert_ne!(k1, k2);
}

#[test]
fn test_encrypt_decrypt_roundtrip() {
    let master = [1u8; 32];
    let salt = [2u8; 32];
    let key = PathCrypto::derive_object_key(&master, &salt, "/obj/42");
    let nonce = [3u8; NONCE_SIZE];
    let aad = b"metadata";
    let mut payload = *b"phase3-payload";
    let tag = PathCrypto::encrypt_in_place(&key, &nonce, aad, &mut payload);
    assert_ne!(&payload, b"phase3-payload");
    let ok = PathCrypto::decrypt_in_place(&key, &nonce, aad, &mut payload, &tag);
    assert!(ok);
    assert_eq!(&payload, b"phase3-payload");
}

#[test]
fn test_decrypt_fails_with_wrong_path_key() {
    let master = [5u8; 32];
    let salt = [6u8; 32];
    let key_ok = PathCrypto::derive_object_key(&master, &salt, "/x");
    let key_bad = PathCrypto::derive_object_key(&master, &salt, "/y");
    let nonce = [4u8; NONCE_SIZE];
    let mut payload = *b"secret-payload";
    let plain = payload;
    let tag = PathCrypto::encrypt_in_place(&key_ok, &nonce, b"", &mut payload);
    let mut tampered = payload;
    let ok = PathCrypto::decrypt_in_place(&key_bad, &nonce, b"", &mut tampered, &tag);
    assert!(!ok);
    assert_ne!(tampered, plain);
}

#[test]
fn test_default_passkey_matches_spec() {
    assert_eq!(derive_default_passkey(), SOSFS_DEFAULT_PASSKEY);
}

#[test]
fn path_hash_is_sha256_of_the_path() {
    // SHA-256("abc").
    let expected: [u8; 32] = [
        0xba, 0x78, 0x16, 0xbf, 0x8f, 0x01, 0xcf, 0xea, 0x41, 0x41, 0x40, 0xde, 0x5d, 0xae, 0x22,
        0x23, 0xb0, 0x03, 0x61, 0xa3, 0x96, 0x17, 0x7a, 0x9c, 0xb4, 0x10, 0xff, 0x61, 0xf2, 0x00,
        0x15, 0xad,
    ];
    assert_eq!(PathCrypto::path_hash("abc"), expected);
}

#[test]
fn tampered_tag_is_refused_and_payload_kept() {
    let key = [1u8; 32];
    let nonce = [2u8; NONCE_SIZE];
    let mut payload = *b"hello";
    let mut tag = PathCrypto::encrypt_in_place(&key, &nonce, b"a", &mut payload);
    let sealed = payload;
    tag[0] ^= 1;
    assert!(!PathCrypto::decrypt_in_place(&key, &nonce, b"a", &mut payload, &tag));
    assert_eq!(payload, sealed);
}
