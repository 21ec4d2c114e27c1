use secure_p2p_msg::storage::at_rest::{
    decrypt, derive_key_from_passphrase, encrypt, encrypt_with_nonce, key_to_seal, load_or_create,
    rotate_key_and_seal, seal_key_file, set_passphrase_and_seal, test_clear_cache,
    unlock_with_passphrase, AtRestKey, KeyCache, KeySource, LoadedKey,
};
use secure_p2p_msg::storage::StorageError;

fn crypto_text(e: StorageError) -> String {
    match e {
        StorageError::Crypto(text) => text,
        other => panic!("unexpected: {:?}", other),
    }
}

#[test]
fn set_passphrase_creates_encrypted_keyfile() {
    sodiumoxide::init().unwrap();
    let key = AtRestKey::generate();

    // Seal with passphrase
    let bytes = set_passphrase_and_seal(&key, "test-pass").unwrap();

    // Check magic header
    assert!(bytes.len() > 4 + 16 + 24);
    assert_eq!(&bytes[0..4], b"PGN1");
    assert_eq!(bytes.len(), 4 + 16 + 24 + 32 + 16);
}

#[test]
fn unlock_with_passphrase_roundtrip() {
    sodiumoxide::init().unwrap();
    let original = AtRestKey::generate();

    let file = set_passphrase_and_seal(&original, "pw").unwrap();
    let key = unlock_with_passphrase(&file, "pw").unwrap();
    assert_eq!(key.key(), original.key());

    let msg = b"hello at-rest".to_vec();
    let enc = encrypt(&key, &msg).unwrap();
    let dec = decrypt(&key, &enc).unwrap();
    assert_eq!(dec, msg);
}

#[test]
fn load_or_create_requires_unlock_if_locked() {
    sodiumoxide::init().unwrap();
    // Simulate presence of a sealed keyfile without providing passphrase
    let res = load_or_create(KeySource::Sealed(vec![], None));
    assert!(res.is_err(), "expected locked error without passphrase env");
    assert_eq!(
        crypto_text(res.err().unwrap()),
        "at-rest key is locked; run `security unlock` or set PIGEON_PASSPHRASE"
    );
}

#[test]
fn load_or_create_env_unlocks() {
    sodiumoxide::init().unwrap();
    let original = AtRestKey::generate();
    let file = set_passphrase_and_seal(&original, "pw-env").unwrap();
    let key = match load_or_create(KeySource::Sealed(file, Some("pw-env".to_string()))).unwrap() {
        LoadedKey::Existing(key) => key,
        LoadedKey::Created(_) => panic!("a sealed key is not a new key"),
    };

    // Roundtrip
    let msg = b"env unlock".to_vec();
    let enc = encrypt(&key, &msg).unwrap();
    let dec = decrypt(&key, &enc).unwrap();
    assert_eq!(dec, msg);
}

#[test]
fn load_or_create_from_plain_file_and_from_nothing() {
    sodiumoxide::init().unwrap();
    match load_or_create(KeySource::Plain(vec![3u8; 32])).unwrap() {
        LoadedKey::Existing(key) => assert_eq!(key.key(), &[3u8; 32]),
        LoadedKey::Created(_) => panic!("a key file is not a new key"),
    }
    let short = load_or_create(KeySource::Plain(vec![3u8; 31]));
    assert_eq!(crypto_text(short.err().unwrap()), "invalid key length");
    assert!(matches!(load_or_create(KeySource::Missing).unwrap(), LoadedKey::Created(_)));
    match load_or_create(KeySource::Cached(AtRestKey::from_bytes([4u8; 32]))).unwrap() {
        LoadedKey::Existing(key) => assert_eq!(key.key(), &[4u8; 32]),
        LoadedKey::Created(_) => panic!("a cached key is not a new key"),
    }
}

#[test]
fn seal_then_open_gives_the_plaintext() {
    sodiumoxide::init().unwrap();
    let key = AtRestKey::from_bytes([1u8; 32]);
    for plain in [&b""[..], &b"x"[..], &[0u8; 1000][..]] {
        let sealed = encrypt(&key, plain).unwrap();
        assert_eq!(sealed.len(), plain.len() + 24 + 16);
        assert_eq!(decrypt(&key, &sealed).unwrap(), plain);
    }
}

#[test]
fn sealed_record_is_nonce_then_ciphertext() {
    sodiumoxide::init().unwrap();
    let key = AtRestKey::from_bytes([1u8; 32]);
    let nonce = [9u8; 24];
    let sealed = encrypt_with_nonce(&key, &nonce, b"record").unwrap();
    assert_eq!(&sealed[..24], &nonce);
    assert_ne!(&sealed[24..], b"record");
    assert_eq!(sealed, encrypt_with_nonce(&key, &nonce, b"record").unwrap());
    assert_eq!(decrypt(&key, &sealed).unwrap(), b"record");
}

#[test]
fn ciphertext_too_short_is_refused() {
    sodiumoxide::init().unwrap();
    let key = AtRestKey::from_bytes([1u8; 32]);
    for len in [0usize, 1, 24, 39] {
        let e = decrypt(&key, &vec![0u8; len]).err().unwrap();
        assert_eq!(crypto_text(e), "ciphertext too short");
    }
    let e = decrypt(&key, &[0u8; 40]).err().unwrap();
    assert_eq!(crypto_text(e), "decryption failed");
}

#[test]
fn tampering_and_wrong_key_are_refused() {
    sodiumoxide::init().unwrap();
    let key = AtRestKey::from_bytes([1u8; 32]);
    let mut sealed = encrypt(&key, b"record").unwrap();
    let other = AtRestKey::from_bytes([2u8; 32]);
    assert_eq!(crypto_text(decrypt(&other, &sealed).err().unwrap()), "decryption failed");
    sealed[30] ^= 0x20;
    assert_eq!(crypto_text(decrypt(&key, &sealed).err().unwrap()), "decryption failed");
}

#[test]
fn key_file_errors_say_what_is_wrong() {
    sodiumoxide::init().unwrap();
    let key = AtRestKey::from_bytes([1u8; 32]);
    let file = seal_key_file(&key, "pw", &[2u8; 16], &[3u8; 24]).unwrap();
    assert_eq!(&file[4..20], &[2u8; 16]);
    assert_eq!(&file[20..44], &[3u8; 24]);
    assert_eq!(unlock_with_passphrase(&file, "pw").unwrap().key(), &[1u8; 32]);

    let e = unlock_with_passphrase(&file[..43], "pw").err().unwrap();
    assert_eq!(crypto_text(e), "enc keyfile too short");
    let mut bad_magic = file.clone();
    bad_magic[3] = b'2';
    let e = unlock_with_passphrase(&bad_magic, "pw").err().unwrap();
    assert_eq!(crypto_text(e), "enc keyfile bad magic");
    let e = unlock_with_passphrase(&file, "other").err().unwrap();
    assert_eq!(crypto_text(e), "unlock failed");
    let e = unlock_with_passphrase(&file[..44], "pw").err().unwrap();
    assert_eq!(crypto_text(e), "unlock failed");
}

#[test]
fn key_derivation_is_deterministic_and_needs_a_salt() {
    let a = derive_key_from_passphrase("pass", b"pigeon-dev-salt").unwrap();
    let b = derive_key_from_passphrase("pass", b"pigeon-dev-salt").unwrap();
    assert_eq!(a, b);
    assert_ne!(a, derive_key_from_passphrase("pass", b"pigeon-dev-salz").unwrap());
    assert_ne!(a, derive_key_from_passphrase("past", b"pigeon-dev-salt").unwrap());
    let e = derive_key_from_passphrase("pass", b"short").err().unwrap();
    assert!(crypto_text(e).starts_with("kdf: "));
}

#[test]
fn rotation_gives_a_new_key_and_its_file() {
    sodiumoxide::init().unwrap();
    let (first, file1) = rotate_key_and_seal("new-pass").unwrap();
    let (second, file2) = rotate_key_and_seal("new-pass").unwrap();
    assert_ne!(first.key(), second.key());
    assert_eq!(unlock_with_passphrase(&file1, "new-pass").unwrap().key(), first.key());
    assert_eq!(unlock_with_passphrase(&file2, "new-pass").unwrap().key(), second.key());
}

#[test]
fn key_cache_keeps_the_last_key_for_a_directory() {
    let mut cache = KeyCache::new();
    assert!(cache.get("/data").is_none());
    cache.insert("/data", &AtRestKey::from_bytes([1u8; 32]));
    cache.insert("/other", &AtRestKey::from_bytes([2u8; 32]));
    cache.insert("/data", &AtRestKey::from_bytes([3u8; 32]));
    assert_eq!(cache.get("/data").unwrap().key(), &[3u8; 32]);
    assert_eq!(cache.get("/other").unwrap().key(), &[2u8; 32]);
    assert!(cache.get("/dat").is_none());
    test_clear_cache(&mut cache);
    assert!(cache.get("/data").is_none());
    assert!(cache.get("/other").is_none());
}

#[test]
fn the_key_to_seal_is_the_plain_one_then_the_cached_one_then_a_new_one() {
    sodiumoxide::init().unwrap();
    let cached = || Some(AtRestKey::from_bytes([8u8; 32]));
    let plain = [3u8; 32];
    assert_eq!(key_to_seal(Some(&plain), cached()).unwrap().key(), &plain);
    assert_eq!(key_to_seal(Some(&plain), None).unwrap().key(), &plain);
    assert_eq!(key_to_seal(None, cached()).unwrap().key(), &[8u8; 32]);
    let fresh = key_to_seal(None, None).unwrap();
    assert_ne!(fresh.key(), key_to_seal(None, None).unwrap().key());
    // A plain key file of another length is refused, whatever is cached.
    match key_to_seal(Some(&plain[..31]), cached()) {
        Err(StorageError::Crypto(text)) => assert_eq!(text, "invalid key length"),
        _ => panic!("a short key file was taken"),
    }
}

#[test]
fn a_refused_derivation_says_so() {
    match derive_key_from_passphrase("p", &[1u8; 4]) {
        Err(StorageError::Crypto(text)) => {
            assert!(text.starts_with("kdf: "));
            assert!(text.len() > 5);
        }
        _ => panic!("a salt of four bytes was taken"),
    }
}
