//! Public-key encryption and signatures, as the messaging pipeline uses them.
//! The ciphers themselves are outside this crate; what is trusted of them is
//! stated here, and everything built on them is proved from that.

use vstd::prelude::*;
use crate::bytes::{copy_range, put_bytes, to_array};

verus! {

/// What can go wrong with keys and ciphers.
#[derive(Debug)]
pub enum CryptoError {
    Encryption(String),
    Decryption(String),
    KeyGeneration(String),
    Signature(String),
}

impl CryptoError {
    /// This is a decryption failure with the given text.
    pub open spec fn is_decryption(self, text: Seq<char>) -> bool {
        self matches CryptoError::Decryption(m) && m@ == text
    }

    /// This is an encryption failure with the given text.
    pub open spec fn is_encryption(self, text: Seq<char>) -> bool {
        self matches CryptoError::Encryption(m) && m@ == text
    }

    /// A decryption failure with the given text.
    pub fn decryption(text: &str) -> (e: CryptoError)
        ensures
            e.is_decryption(text@),
    {
        CryptoError::Decryption(text.to_owned())
    }

    /// An encryption failure with the given text.
    pub fn encryption(text: &str) -> (e: CryptoError)
        ensures
            e.is_encryption(text@),
    {
        CryptoError::Encryption(text.to_owned())
    }
}

/// The public encryption key that belongs to a secret encryption key: what
/// `SecretKey::public_key` of sodiumoxide's `box_` returns.
pub uninterp spec fn box_public_key(secret: Seq<u8>) -> Seq<u8>;

/// What `box_::seal` of sodiumoxide returns for a message, a nonce, the
/// receiver's public key and the sender's secret key.
pub uninterp spec fn box_sealed(
    message: Seq<u8>,
    nonce: Seq<u8>,
    receiver_public: Seq<u8>,
    sender_secret: Seq<u8>,
) -> Seq<u8>;

/// What `box_::open` of sodiumoxide returns for a ciphertext, a nonce, the
/// sender's public key and the receiver's secret key: the message, or nothing
/// where the ciphertext does not authenticate.
pub uninterp spec fn box_opened(
    cipher: Seq<u8>,
    nonce: Seq<u8>,
    sender_public: Seq<u8>,
    receiver_secret: Seq<u8>,
) -> Option<Seq<u8>>;

/// What `sign_detached` of sodiumoxide returns for a message and a secret
/// signing key.
pub uninterp spec fn ed25519_signature(message: Seq<u8>, secret: Seq<u8>) -> Seq<u8>;

/// Whether `verify_strict` of ed25519-dalek accepts a signature on a message
/// under a public key; a public key that is no point of the curve accepts
/// nothing.
pub uninterp spec fn ed25519_accepts(public: Seq<u8>, message: Seq<u8>, signature: Seq<u8>) -> bool;

/// What the keyed BLAKE2b MAC with 32 bytes of output gives for a key and a
/// message.
pub uninterp spec fn blake2b_mac32(key: Seq<u8>, message: Seq<u8>) -> Seq<u8>;

/// `cipher` is `plain` encrypted with `nonce` from the holder of
/// `sender_secret` to the holder of the key `receiver_public`: it is 16 bytes
/// longer, and where `receiver_public` is the public key of a secret key of
/// 32 bytes, it is what the cipher makes of `plain`, and the holder of that
/// secret key opens it to `plain`.
pub open spec fn is_cipher_for(
    cipher: Seq<u8>,
    plain: Seq<u8>,
    nonce: Seq<u8>,
    sender_secret: Seq<u8>,
    receiver_public: Seq<u8>,
) -> bool {
    &&& cipher.len() == plain.len() + 16
    &&& forall|receiver_secret: Seq<u8>|
        receiver_secret.len() == 32 && #[trigger] box_public_key(receiver_secret)
            == receiver_public ==> cipher == box_sealed(
            plain,
            nonce,
            receiver_public,
            sender_secret,
        ) && box_opened(cipher, nonce, box_public_key(sender_secret), receiver_secret) == Some(
            plain,
        )
}

/// A fresh random nonce.
///
/// Trusted: `box_::gen_nonce` of sodiumoxide. Nothing is claimed of the
/// bytes; two calls may differ.
#[verifier::external_body]
pub(crate) fn box_nonce() -> (nonce: [u8; 24]) {
    sodiumoxide::crypto::box_::gen_nonce().0
}

/// A fresh random pair of encryption keys, public key first.
///
/// Trusted: `box_::gen_keypair` of sodiumoxide. The public key is the one
/// that belongs to the secret key.
#[verifier::external_body]
pub(crate) fn box_keypair() -> (pair: ([u8; 32], [u8; 32]))
    ensures
        pair.0@ == box_public_key(pair.1@),
{
    let (public, secret) = sodiumoxide::crypto::box_::gen_keypair();
    (public.0, secret.0)
}

/// Authenticated public-key encryption of `message`.
///
/// Trusted: `box_::seal` of sodiumoxide. The result is 16 bytes, the tag,
/// longer than the message. Where `receiver_public` is the public key of some
/// secret key of 32 bytes, the result is a function of the four arguments alone, and the
/// holder of that secret key opens it, with the sender's public key and the
/// same nonce, to the message: the defining property of the cipher, which the
/// outside crate's own test of `seal` and `open` asserts. (For bytes that are
/// no public key the cipher can fail, which the outside function does not
/// report; nothing is claimed of the result then.) The outside function adds
/// 16 to the message's length without a check, so that sum has to fit.
#[verifier::external_body]
pub(crate) fn box_seal(
    message: &[u8],
    nonce: &[u8; 24],
    receiver_public: &[u8; 32],
    sender_secret: &[u8; 32],
) -> (cipher: Vec<u8>)
    requires
        message@.len() + 16 <= usize::MAX,
    ensures
        cipher@ == box_sealed(message@, nonce@, receiver_public@, sender_secret@) || forall|
            secret: Seq<u8>,
        | secret.len() == 32 ==> #[trigger] box_public_key(secret) != receiver_public@,
        is_cipher_for(cipher@, message@, nonce@, sender_secret@, receiver_public@),
{
    sodiumoxide::crypto::box_::seal(
        message,
        &sodiumoxide::crypto::box_::Nonce(*nonce),
        &sodiumoxide::crypto::box_::PublicKey(*receiver_public),
        &sodiumoxide::crypto::box_::SecretKey(*sender_secret),
    )
}

/// Verifies and decrypts `cipher`.
///
/// Trusted: `box_::open` of sodiumoxide. The result is a function of the four
/// arguments alone; a message that comes back is 16 bytes shorter than the
/// ciphertext.
#[verifier::external_body]
pub(crate) fn box_open(
    cipher: &[u8],
    nonce: &[u8; 24],
    sender_public: &[u8; 32],
    receiver_secret: &[u8; 32],
) -> (message: Option<Vec<u8>>)
    ensures
        match message {
            Some(m) => box_opened(cipher@, nonce@, sender_public@, receiver_secret@) == Some(m@)
                && m@.len() + 16 == cipher@.len(),
            None => box_opened(cipher@, nonce@, sender_public@, receiver_secret@) is None,
        },
{
    sodiumoxide::crypto::box_::open(
        cipher,
        &sodiumoxide::crypto::box_::Nonce(*nonce),
        &sodiumoxide::crypto::box_::PublicKey(*sender_public),
        &sodiumoxide::crypto::box_::SecretKey(*receiver_secret),
    ).ok()
}

/// A fresh random pair of signing keys, public key first.
///
/// Trusted: `sign::gen_keypair` of sodiumoxide. Nothing is claimed of the
/// bytes; two calls may differ.
#[verifier::external_body]
pub(crate) fn sign_keypair() -> (pair: ([u8; 32], [u8; 64])) {
    let (public, secret) = sodiumoxide::crypto::sign::gen_keypair();
    (public.0, secret.0)
}

/// The detached signature of `message` under `secret`.
///
/// Trusted: `sign::sign_detached` of sodiumoxide. The result is a function of
/// the two arguments alone.
#[verifier::external_body]
pub(crate) fn sign_detached(message: &[u8], secret: &[u8; 64]) -> (signature: [u8; 64])
    ensures
        signature@ == ed25519_signature(message@, secret@),
{
    sodiumoxide::crypto::sign::sign_detached(
        message,
        &sodiumoxide::crypto::sign::SecretKey(*secret),
    ).to_bytes()
}

/// Whether `signature` is a valid signature of `message` under `public`, by
/// the strict rules.
///
/// Trusted: `VerifyingKey::verify_strict` of ed25519-dalek, on the key that
/// `VerifyingKey::from_bytes` makes of `public`; bytes that are no key verify
/// nothing. The result is a function of the three arguments alone.
#[verifier::external_body]
pub(crate) fn verify_detached(public: &[u8; 32], message: &[u8], signature: &[u8; 64]) -> (ok: bool)
    ensures
        ok == ed25519_accepts(public@, message@, signature@),
{
    match ed25519_dalek::VerifyingKey::from_bytes(public) {
        Ok(key) => key.verify_strict(message, &ed25519_dalek::Signature::from_bytes(signature)).is_ok(),
        Err(_) => false,
    }
}

/// The keyed BLAKE2b MAC of `message`, 32 bytes.
///
/// Trusted: `Blake2bMac<U32>` of blake2: `new_from_slice`, `update`,
/// `finalize`. The result is a function of the two arguments alone and has 32
/// bytes. The outside constructor refuses a key of more than 64 bytes.
#[verifier::external_body]
pub(crate) fn keyed_mac32(key: &[u8], message: &[u8]) -> (mac: [u8; 32])
    requires
        key@.len() <= 64,
    ensures
        mac@ == blake2b_mac32(key@, message@),
{
    let mut mac = <blake2::Blake2bMac<blake2::digest::consts::U32> as blake2::digest::KeyInit>::new_from_slice(key).expect("key of at most 64 bytes");
    blake2::digest::Mac::update(&mut mac, message);
    blake2::digest::Mac::finalize(mac).into_bytes().into()
}

/// A pair of encryption keys.
pub struct KeyPair {
    pub public: [u8; 32],
    pub secret: [u8; 32],
}

impl KeyPair {
    /// A fresh random pair. The public key belongs to the secret key.
    pub fn generate() -> (pair: KeyPair)
        ensures
            pair.public@ == box_public_key(pair.secret@),
    {
        let (public, secret) = box_keypair();
        KeyPair { public, secret }
    }
}

/// A token that both ends of a connection can compute: the first 16 bytes of
/// the keyed MAC of the remote public key under the local secret. The secret
/// may have at most 64 bytes.
pub fn derive_auth_token(local_secret: &[u8], remote_pubkey: &[u8]) -> (token: [u8; 16])
    requires
        local_secret@.len() <= 64,
    ensures
        token@ == blake2b_mac32(local_secret@, remote_pubkey@).take(16),
{
    let mac = keyed_mac32(local_secret, remote_pubkey);
    proof {
        vstd::array::array_len_matches_n(&mac);
    }
    let head = copy_range(mac.as_slice(), 0, 16);
    proof {
        assert(head@ =~= mac@.take(16));
    }
    to_array::<16>(head.as_slice())
}

/// What opening `sealed` gives with the sender's public key and the receiver's
/// secret key: nothing where it is too short to hold a nonce, else what the
/// cipher says of the part behind the nonce.
pub open spec fn message_opened(
    sealed: Seq<u8>,
    sender_public: Seq<u8>,
    receiver_secret: Seq<u8>,
) -> Option<Seq<u8>> {
    if sealed.len() < 24 {
        None
    } else {
        box_opened(sealed.skip(24), sealed.take(24), sender_public, receiver_secret)
    }
}

/// `sealed` is what encrypting `plain` from the holder of `sender_secret` to
/// the holder of the key `receiver_public` gives: a 24-byte nonce and 16 bytes
/// more than `plain`; and where `receiver_public` is the public key of a secret
/// key of 32 bytes, what follows the nonce is what the cipher makes of `plain`
/// with that nonce, and the holder of the secret key opens `sealed` to `plain`.
pub open spec fn is_message_for(
    sealed: Seq<u8>,
    plain: Seq<u8>,
    sender_secret: Seq<u8>,
    receiver_public: Seq<u8>,
) -> bool {
    &&& sealed.len() == plain.len() + 40
    &&& forall|receiver_secret: Seq<u8>|
        receiver_secret.len() == 32 && #[trigger] box_public_key(receiver_secret)
            == receiver_public ==> sealed.skip(24)
            == box_sealed(plain, sealed.take(24), receiver_public, sender_secret)
            && message_opened(sealed, box_public_key(sender_secret), receiver_secret) == Some(
            plain,
        )
}

/// Encrypts `plaintext` from the holder of `sender_priv` to the holder of
/// `receiver_pub` with the given nonce: the nonce, then the ciphertext with
/// its tag. A plaintext too long for nonce and tag to be added to its length
/// is refused.
pub fn encrypt_message_with_nonce(
    sender_priv: &[u8; 32],
    receiver_pub: &[u8; 32],
    nonce: &[u8; 24],
    plaintext: &[u8],
) -> (r: Result<Vec<u8>, CryptoError>)
    ensures
        match r {
            Ok(sealed) => plaintext@.len() + 40 <= usize::MAX && sealed@.take(24) == nonce@
                && is_message_for(sealed@, plaintext@, sender_priv@, receiver_pub@),
            Err(e) => plaintext@.len() + 40 > usize::MAX && e.is_encryption(
                "plaintext too long"@,
            ),
        },
{
    if plaintext.len() > usize::MAX - 40 {
        return Err(CryptoError::encryption("plaintext too long"));
    }
    let cipher = box_seal(plaintext, nonce, receiver_pub, sender_priv);
    let mut out: Vec<u8> = Vec::new();
    put_bytes(&mut out, nonce.as_slice());
    put_bytes(&mut out, cipher.as_slice());
    proof {
        vstd::array::array_len_matches_n(nonce);
        assert(out@.take(24) =~= nonce@);
        assert(out@.skip(24) =~= cipher@);
    }
    Ok(out)
}

/// Encrypts `plaintext` from the holder of `sender_priv` to the holder of
/// `receiver_pub` under a fresh nonce.
pub fn encrypt_message(sender_priv: &[u8; 32], receiver_pub: &[u8; 32], plaintext: &[u8]) -> (r:
    Result<Vec<u8>, CryptoError>)
    ensures
        match r {
            Ok(sealed) => plaintext@.len() + 40 <= usize::MAX && is_message_for(
                sealed@,
                plaintext@,
                sender_priv@,
                receiver_pub@,
            ),
            Err(e) => plaintext@.len() + 40 > usize::MAX && e.is_encryption(
                "plaintext too long"@,
            ),
        },
{
    let nonce = box_nonce();
    encrypt_message_with_nonce(sender_priv, receiver_pub, &nonce, plaintext)
}

/// Opens what `encrypt_message` made, with the sender's public key and the
/// receiver's secret key. Bytes too short to hold a nonce are refused as
/// `Decryption("Ciphertext too short")`, bytes that do not authenticate as
/// `Decryption("Decryption failed")`.
pub fn decrypt_message(ciphertext: &[u8], sender_pub: &[u8; 32], receiver_priv: &[u8; 32]) -> (r:
    Result<Vec<u8>, CryptoError>)
    ensures
        match r {
            Ok(plain) => message_opened(ciphertext@, sender_pub@, receiver_priv@) == Some(plain@),
            Err(e) => message_opened(ciphertext@, sender_pub@, receiver_priv@) is None
                && if ciphertext@.len() < 24 {
                e.is_decryption("Ciphertext too short"@)
            } else {
                e.is_decryption("Decryption failed"@)
            },
        },
{
    if ciphertext.len() < 24 {
        return Err(CryptoError::decryption("Ciphertext too short"));
    }
    let nonce_bytes = copy_range(ciphertext, 0, 24);
    let nonce: [u8; 24] = to_array::<24>(nonce_bytes.as_slice());
    let body = copy_range(ciphertext, 24, ciphertext.len());
    proof {
        assert(nonce@ =~= ciphertext@.take(24));
        assert(body@ =~= ciphertext@.skip(24));
    }
    match box_open(body.as_slice(), &nonce, sender_pub, receiver_priv) {
        Some(plain) => Ok(plain),
        None => Err(CryptoError::decryption("Decryption failed")),
    }
}

/// What A encrypts for B, B decrypts to what it was: if `sealed` is what
/// encrypting `plain` with A's secret key and B's public key gave, and
/// `opened` is what B's secret key, of 32 bytes as every secret key is, and
/// A's public key make of `sealed`, then `opened` is `plain`.
pub proof fn lemma_decrypt_after_encrypt(
    plain: Seq<u8>,
    secret_a: Seq<u8>,
    secret_b: Seq<u8>,
    sealed: Seq<u8>,
    opened: Option<Seq<u8>>,
)
    requires
        secret_b.len() == 32,
        is_message_for(sealed, plain, secret_a, box_public_key(secret_b)),
        opened == message_opened(sealed, box_public_key(secret_a), secret_b),
    ensures
        opened == Some(plain),
{
}

} // verus!
