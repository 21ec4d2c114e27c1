use secure_p2p_msg::crypto::{
    decrypt_message, derive_auth_token, encrypt_message, encrypt_message_with_nonce, CryptoError,
    KeyPair,
};

#[test]
fn encrypt_decrypt_roundtrip() {
    sodiumoxide::init().unwrap();
    let a = KeyPair::generate();
    let b = KeyPair::generate();

    let msg = b"hello pigeon";
    let ct = encrypt_message(&a.secret, &b.public, msg).unwrap();
    let pt = decrypt_message(&ct, &a.public, &b.secret).unwrap();
    assert_eq!(pt, msg);
}

#[test]
fn auth_token_deterministic() {
    let sk = [7u8; 32];
    let pk = [9u8; 32];
    let t1 = derive_auth_token(&sk, &pk);
    let t2 = derive_auth_token(&sk, &pk);
    assert_eq!(t1, t2);
}

#[test]
fn auth_token_depends_on_both_inputs() {
    let t = derive_auth_token(&[7u8; 32], &[9u8; 32]);
    assert_ne!(t, derive_auth_token(&[8u8; 32], &[9u8; 32]));
    assert_ne!(t, derive_auth_token(&[7u8; 32], &[10u8; 32]));
    assert_ne!(t, [0u8; 16]);
}

#[test]
fn encrypted_message_is_nonce_then_ciphertext() {
    sodiumoxide::init().unwrap();
    let a = KeyPair::generate();
    let b = KeyPair::generate();
    let nonce = [5u8; 24];
    let ct = encrypt_message_with_nonce(&a.secret, &b.public, &nonce, b"abc").unwrap();
    assert_eq!(ct.len(), 24 + 3 + 16);
    assert_eq!(&ct[..24], &nonce);
    assert_ne!(&ct[24..27], b"abc");
    let again = encrypt_message_with_nonce(&a.secret, &b.public, &nonce, b"abc").unwrap();
    assert_eq!(ct, again);
}

#[test]
fn decrypt_refuses_short_and_tampered_bytes() {
    sodiumoxide::init().unwrap();
    let a = KeyPair::generate();
    let b = KeyPair::generate();
    match decrypt_message(&[0u8; 23], &a.public, &b.secret) {
        Err(CryptoError::Decryption(text)) => assert_eq!(text, "Ciphertext too short"),
        other => panic!("unexpected: {:?}", other),
    }
    let mut ct = encrypt_message(&a.secret, &b.public, b"hello").unwrap();
    let last = ct.len() - 1;
    ct[last] ^= 1;
    match decrypt_message(&ct, &a.public, &b.secret) {
        Err(CryptoError::Decryption(text)) => assert_eq!(text, "Decryption failed"),
        other => panic!("unexpected: {:?}", other),
    }
    // the wrong receiver cannot open it
    let c = KeyPair::generate();
    let ct = encrypt_message(&a.secret, &b.public, b"hello").unwrap();
    assert!(decrypt_message(&ct, &a.public, &c.secret).is_err());
}
