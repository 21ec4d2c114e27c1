//! The at-rest seal: every sensitive record is written to disk as a fresh
//! nonce followed by the authenticated encryption of the record under the
//! at-rest key.

use vstd::prelude::*;
use vstd::utf8::encode_utf8;
use crate::bytes::{copy_range, put_bytes, to_array};
use super::StorageError;

verus! {

/// What `secretbox::seal` of sodiumoxide returns for a message, a nonce and a
/// key: the XSalsa20-Poly1305 ciphertext with its tag.
pub uninterp spec fn secretbox_sealed(message: Seq<u8>, nonce: Seq<u8>, key: Seq<u8>) -> Seq<u8>;

/// What `secretbox::open` of sodiumoxide returns for a ciphertext, a nonce and
/// a key: the message, or nothing where the ciphertext does not authenticate.
pub uninterp spec fn secretbox_opened(cipher: Seq<u8>, nonce: Seq<u8>, key: Seq<u8>) -> Option<
    Seq<u8>,
>;

/// A fresh random nonce.
///
/// Trusted: `secretbox::gen_nonce` of sodiumoxide. Nothing is claimed of the
/// bytes; two calls may differ.
#[verifier::external_body]
pub(crate) fn secretbox_nonce() -> (nonce: [u8; 24]) {
    sodiumoxide::crypto::secretbox::gen_nonce().0
}

/// A fresh random key.
///
/// Trusted: `secretbox::gen_key` of sodiumoxide. Nothing is claimed of the
/// bytes; two calls may differ.
#[verifier::external_body]
pub(crate) fn secretbox_key() -> (key: [u8; 32]) {
    sodiumoxide::crypto::secretbox::gen_key().0
}

/// Authenticated encryption of `message`.
///
/// Trusted: `secretbox::seal` of sodiumoxide. The result is a function of the
/// three arguments alone and is 16 bytes, the tag, longer than the message; it
/// opens, under the same nonce and key, to the message: the defining property
/// of the cipher, which the outside crate's own test of `seal` and `open`
/// asserts. The outside function adds 16 to the message's length without a
/// check, so that sum has to fit.
#[verifier::external_body]
pub(crate) fn secretbox_seal(message: &[u8], nonce: &[u8; 24], key: &[u8; 32]) -> (cipher: Vec<u8>)
    requires
        message@.len() + 16 <= usize::MAX,
    ensures
        cipher@ == secretbox_sealed(message@, nonce@, key@),
        cipher@.len() == message@.len() + 16,
        secretbox_opened(cipher@, nonce@, key@) == Some(message@),
{
    sodiumoxide::crypto::secretbox::seal(
        message,
        &sodiumoxide::crypto::secretbox::Nonce(*nonce),
        &sodiumoxide::crypto::secretbox::Key(*key),
    )
}

/// Verifies and decrypts `cipher`.
///
/// Trusted: `secretbox::open` of sodiumoxide. The result is a function of the
/// three arguments alone; a message that comes back is 16 bytes shorter than
/// the ciphertext.
#[verifier::external_body]
pub(crate) fn secretbox_open(
    cipher: &[u8],
    nonce: &[u8; 24],
    key: &[u8; 32],
) -> (message: Option<Vec<u8>>)
    ensures
        match message {
            Some(m) => secretbox_opened(cipher@, nonce@, key@) == Some(m@) && m@.len() + 16
                == cipher@.len(),
            None => secretbox_opened(cipher@, nonce@, key@) is None,
        },
{
    sodiumoxide::crypto::secretbox::open(
        cipher,
        &sodiumoxide::crypto::secretbox::Nonce(*nonce),
        &sodiumoxide::crypto::secretbox::Key(*key),
    ).ok()
}

/// The key that seals records at rest.
pub struct AtRestKey {
    bytes: [u8; 32],
}

impl View for AtRestKey {
    type V = Seq<u8>;

    closed spec fn view(&self) -> Seq<u8> {
        self.bytes@
    }
}

/// What opening `sealed` under `key` gives: nothing where it is too short to
/// hold nonce and tag, else what the cipher says of the part behind the nonce.
pub open spec fn unsealed(sealed: Seq<u8>, key: Seq<u8>) -> Option<Seq<u8>> {
    if sealed.len() < 40 {
        None
    } else {
        secretbox_opened(sealed.skip(24), sealed.take(24), key)
    }
}

/// `sealed` holds `plain` under `key`: it opens to `plain`, and is longer by
/// nonce and tag.
pub open spec fn is_sealing_of(sealed: Seq<u8>, key: Seq<u8>, plain: Seq<u8>) -> bool {
    sealed.len() == plain.len() + 40 && unsealed(sealed, key) == Some(plain)
}

impl AtRestKey {
    /// The key with the given bytes.
    pub fn from_bytes(bytes: [u8; 32]) -> (key: AtRestKey)
        ensures
            key@ == bytes@,
    {
        AtRestKey { bytes }
    }

    /// The key that a plain key file holds: its 32 bytes. Any other length is
    /// refused as `Crypto("invalid key length")`.
    pub fn from_file_bytes(bytes: &[u8]) -> (r: Result<AtRestKey, StorageError>)
        ensures
            match r {
                Ok(key) => bytes@.len() == 32 && key@ == bytes@,
                Err(e) => bytes@.len() != 32 && e.is_crypto("invalid key length"@),
            },
    {
        if bytes.len() != 32 {
            return Err(StorageError::crypto("invalid key length"));
        }
        Ok(AtRestKey { bytes: to_array::<32>(bytes) })
    }

    /// A fresh random key.
    pub fn generate() -> (key: AtRestKey) {
        AtRestKey { bytes: secretbox_key() }
    }

    /// A copy of the key.
    pub fn duplicate(&self) -> (copy: AtRestKey)
        ensures
            copy@ == self@,
    {
        AtRestKey { bytes: self.bytes }
    }

    /// The key's bytes.
    pub fn key(&self) -> (bytes: &[u8; 32])
        ensures
            bytes@ == self@,
    {
        &self.bytes
    }
}

/// Seals `plaintext` with the given nonce: the nonce, then the ciphertext with
/// its tag. A plaintext too long for nonce and tag to be added to its length
/// is refused as `Crypto("plaintext too long")`.
pub fn encrypt_with_nonce(
    key: &AtRestKey,
    nonce: &[u8; 24],
    plaintext: &[u8],
) -> (r: Result<Vec<u8>, StorageError>)
    ensures
        match r {
            Ok(sealed) => plaintext@.len() + 40 <= usize::MAX && sealed@ == nonce@
                + secretbox_sealed(plaintext@, nonce@, key@) && is_sealing_of(
                sealed@,
                key@,
                plaintext@,
            ),
            Err(e) => plaintext@.len() + 40 > usize::MAX && e.is_crypto("plaintext too long"@),
        },
{
    if plaintext.len() > usize::MAX - 40 {
        return Err(StorageError::crypto("plaintext too long"));
    }
    let mut out: Vec<u8> = Vec::new();
    put_bytes(&mut out, nonce.as_slice());
    let cipher = secretbox_seal(plaintext, nonce, key.key());
    put_bytes(&mut out, cipher.as_slice());
    proof {
        vstd::array::array_len_matches_n(nonce);
        assert(out@.take(24) =~= nonce@);
        assert(out@.skip(24) =~= cipher@);
    }
    Ok(out)
}

/// Seals `plaintext` under a fresh nonce: the nonce, then the ciphertext with
/// its tag. What comes back opens to `plaintext` under the same key.
pub fn encrypt(key: &AtRestKey, plaintext: &[u8]) -> (r: Result<Vec<u8>, StorageError>)
    ensures
        match r {
            Ok(sealed) => plaintext@.len() + 40 <= usize::MAX && sealed@ == sealed@.take(24)
                + secretbox_sealed(plaintext@, sealed@.take(24), key@) && is_sealing_of(
                sealed@,
                key@,
                plaintext@,
            ),
            Err(e) => plaintext@.len() + 40 > usize::MAX && e.is_crypto("plaintext too long"@),
        },
{
    let nonce = secretbox_nonce();
    let r = encrypt_with_nonce(key, &nonce, plaintext);
    proof {
        vstd::array::array_len_matches_n(&nonce);
        if r is Ok {
            assert(r->Ok_0@.take(24) =~= nonce@);
        }
    }
    r
}

/// Opens what `encrypt` made. Bytes too short to hold nonce and tag are
/// refused as `Crypto("ciphertext too short")`, bytes that do not authenticate
/// under the key as `Crypto("decryption failed")`.
pub fn decrypt(key: &AtRestKey, ciphertext: &[u8]) -> (r: Result<Vec<u8>, StorageError>)
    ensures
        match r {
            Ok(plain) => unsealed(ciphertext@, key@) == Some(plain@),
            Err(e) => unsealed(ciphertext@, key@) is None && if ciphertext@.len() < 40 {
                e.is_crypto("ciphertext too short"@)
            } else {
                e.is_crypto("decryption failed"@)
            },
        },
{
    if ciphertext.len() < 40 {
        return Err(StorageError::crypto("ciphertext too short"));
    }
    let nonce_bytes = copy_range(ciphertext, 0, 24);
    let nonce: [u8; 24] = to_array::<24>(nonce_bytes.as_slice());
    let body = copy_range(ciphertext, 24, ciphertext.len());
    let opened = secretbox_open(body.as_slice(), &nonce, key.key());
    proof {
        assert(nonce@ =~= ciphertext@.take(24));
        assert(body@ =~= ciphertext@.skip(24));
    }
    match opened {
        Some(plain) => Ok(plain),
        None => Err(StorageError::crypto("decryption failed")),
    }
}

/// Whatever `encrypt` seals, `decrypt` opens to what it was: if `sealed` is
/// what sealing `plain` under `key` gave, and `opened` is what opening `sealed`
/// under `key` gives, then `opened` is `plain`.
pub proof fn lemma_open_after_seal(
    key: Seq<u8>,
    plain: Seq<u8>,
    sealed: Seq<u8>,
    opened: Option<Seq<u8>>,
)
    requires
        is_sealing_of(sealed, key, plain),
        opened == unsealed(sealed, key),
    ensures
        opened == Some(plain),
{
}

/// What Argon2id with the default parameters derives as a 32-byte key from a
/// passphrase and a salt: what `Argon2::default().hash_password_into` of
/// argon2 fills 32 bytes with, or nothing where it refuses the inputs.
pub uninterp spec fn argon2id_key(passphrase: Seq<u8>, salt: Seq<u8>) -> Option<Seq<u8>>;

/// Derives a 32-byte key from a passphrase and a salt, or gives the reason
/// why it cannot.
///
/// Trusted: `Argon2::default().hash_password_into` of argon2. The key is a
/// function of the two arguments alone. The outside function refuses, among
/// others, a salt of fewer than 8 bytes. The reason is the outside error's own
/// text, of which nothing is claimed.
#[verifier::external_body]
pub(crate) fn argon2id(passphrase: &[u8], salt: &[u8]) -> (r: Result<[u8; 32], String>)
    ensures
        match r {
            Ok(key) => argon2id_key(passphrase@, salt@) == Some(key@),
            Err(_) => argon2id_key(passphrase@, salt@) is None,
        },
{
    let mut out = [0u8; 32];
    match argon2::Argon2::default().hash_password_into(passphrase, salt, &mut out) {
        Ok(()) => Ok(out),
        Err(e) => Err(format!("{e}")),
    }
}

/// A fresh random salt.
///
/// Trusted: `thread_rng().fill_bytes` of rand. Nothing is claimed of the
/// bytes; two calls may differ.
#[verifier::external_body]
pub(crate) fn random_salt() -> (salt: [u8; 16]) {
    let mut salt = [0u8; 16];
    rand::RngCore::fill_bytes(&mut rand::thread_rng(), &mut salt);
    salt
}

/// The first four bytes of a sealed key file: `PGN1`.
pub open spec fn key_file_magic() -> Seq<u8> {
    seq![80u8, 71, 78, 49]
}

/// A sealed key file: the magic, a 16-byte salt, a 24-byte nonce, and the
/// at-rest key sealed under the key that the passphrase and the salt give.
pub open spec fn key_file(salt: Seq<u8>, nonce: Seq<u8>, sealed_key: Seq<u8>) -> Seq<u8> {
    key_file_magic() + salt + nonce + sealed_key
}

/// The at-rest key that a sealed key file gives up to a passphrase: the file
/// has to be long enough for magic, salt and nonce, start with the magic, the
/// passphrase and the salt have to give a key, the rest has to open under it,
/// and what it opens to has to be 32 bytes.
pub open spec fn key_file_unlocked(file: Seq<u8>, passphrase: Seq<u8>) -> Option<Seq<u8>> {
    if file.len() < 44 || file.subrange(0, 4) != key_file_magic() {
        None
    } else {
        match argon2id_key(passphrase, file.subrange(4, 20)) {
            None => None,
            Some(kek) => match secretbox_opened(file.skip(44), file.subrange(20, 44), kek) {
                Some(key) => if key.len() == 32 {
                    Some(key)
                } else {
                    None
                },
                None => None,
            },
        }
    }
}

/// `e` is the error owed for a sealed key file that does not give up its key.
pub open spec fn unlock_failure(file: Seq<u8>, passphrase: Seq<u8>, e: StorageError) -> bool {
    if file.len() < 44 {
        e.is_crypto("enc keyfile too short"@)
    } else if file.subrange(0, 4) != key_file_magic() {
        e.is_crypto("enc keyfile bad magic"@)
    } else {
        match argon2id_key(passphrase, file.subrange(4, 20)) {
            None => kdf_failure(e),
            Some(kek) => match secretbox_opened(file.skip(44), file.subrange(20, 44), kek) {
                None => e.is_crypto("unlock failed"@),
                Some(_) => e.is_crypto("bad inner key size"@),
            },
        }
    }
}

/// `e` is the error owed where the key derivation refuses its inputs: a
/// crypto error whose text is `kdf: ` and then the derivation's own reason.
pub open spec fn kdf_failure(e: StorageError) -> bool {
    e matches StorageError::Crypto(text) && "kdf: "@.is_prefix_of(text@)
}

/// Derives the key that seals the at-rest key from a passphrase and a salt.
/// Inputs that the derivation refuses give a crypto error.
pub fn derive_key_from_passphrase(passphrase: &str, salt: &[u8]) -> (r: Result<
    [u8; 32],
    StorageError,
>)
    ensures
        match r {
            Ok(key) => argon2id_key(encode_utf8(passphrase@), salt@) == Some(key@),
            Err(e) => argon2id_key(encode_utf8(passphrase@), salt@) is None && kdf_failure(e),
        },
{
    match argon2id(passphrase.as_bytes(), salt) {
        Ok(key) => Ok(key),
        Err(reason) => Err(StorageError::Crypto(String::from_str("kdf: ").concat(reason.as_str()))),
    }
}

/// The sealed key file for `key` under `passphrase`, with the given salt and
/// nonce. What comes back gives `key` up to `passphrase` again.
pub fn seal_key_file(key: &AtRestKey, passphrase: &str, salt: &[u8; 16], nonce: &[u8; 24]) -> (r:
    Result<Vec<u8>, StorageError>)
    ensures
        match r {
            Ok(file) => argon2id_key(encode_utf8(passphrase@), salt@) matches Some(kek) && file@
                == key_file(salt@, nonce@, secretbox_sealed(key@, nonce@, kek)) && file@.len()
                == 92 && key_file_unlocked(file@, encode_utf8(passphrase@)) == Some(key@),
            Err(e) => argon2id_key(encode_utf8(passphrase@), salt@) is None && kdf_failure(e),
        },
{
    let kek = match derive_key_from_passphrase(passphrase, salt.as_slice()) {
        Ok(kek) => kek,
        Err(e) => {
            return Err(e);
        },
    };
    proof {
        vstd::array::array_len_matches_n(&key.bytes);
        vstd::array::array_len_matches_n(salt);
        vstd::array::array_len_matches_n(nonce);
    }
    let sealed = secretbox_seal(key.key().as_slice(), nonce, &kek);
    let mut out: Vec<u8> = Vec::new();
    out.push(80);
    out.push(71);
    out.push(78);
    out.push(49);
    put_bytes(&mut out, salt.as_slice());
    put_bytes(&mut out, nonce.as_slice());
    put_bytes(&mut out, sealed.as_slice());
    proof {
        assert(out@ =~= key_file(salt@, nonce@, sealed@));
        assert(out@.subrange(0, 4) =~= key_file_magic());
        assert(out@.subrange(4, 20) =~= salt@);
        assert(out@.subrange(20, 44) =~= nonce@);
        assert(out@.skip(44) =~= sealed@);
    }
    Ok(out)
}

/// Whether the key derivation refuses `passphrase` with some salt of 16
/// bytes.
pub open spec fn derivation_refuses(passphrase: Seq<u8>) -> bool {
    exists|salt: Seq<u8>| salt.len() == 16 && (#[trigger] argon2id_key(passphrase, salt)) is None
}

/// `file` is a sealed key file for `key` under `passphrase`, with some salt
/// of 16 bytes and some nonce of 24.
pub open spec fn is_key_file_for(file: Seq<u8>, key: Seq<u8>, passphrase: Seq<u8>) -> bool {
    exists|salt: Seq<u8>, nonce: Seq<u8>|
        {
            &&& salt.len() == 16
            &&& nonce.len() == 24
            &&& argon2id_key(passphrase, salt) is Some
            &&& file == #[trigger] key_file(
                salt,
                nonce,
                secretbox_sealed(key, nonce, argon2id_key(passphrase, salt)->0),
            )
        }
}

/// What sealing `key` under `passphrase` with a fresh salt and nonce gives: a
/// key file of 92 bytes for the two that starts with the magic and gives
/// `key` up to `passphrase` again. It fails only where the key derivation
/// refuses the passphrase with the salt that was drawn, with the error owed
/// for that.
pub open spec fn fresh_seal_outcome(
    key: Seq<u8>,
    passphrase: Seq<u8>,
    r: Result<Seq<u8>, StorageError>,
) -> bool {
    match r {
        Ok(file) => {
            &&& is_key_file_for(file, key, passphrase)
            &&& file.len() == 92
            &&& file.subrange(0, 4) == key_file_magic()
            &&& key_file_unlocked(file, passphrase) == Some(key)
        },
        Err(e) => kdf_failure(e) && derivation_refuses(passphrase),
    }
}

/// The sealed key file for `key` under `passphrase`, with a fresh salt and a
/// fresh nonce.
pub fn set_passphrase_and_seal(key: &AtRestKey, passphrase: &str) -> (r: Result<
    Vec<u8>,
    StorageError,
>)
    ensures
        fresh_seal_outcome(
            key@,
            encode_utf8(passphrase@),
            match r {
                Ok(file) => Ok(file@),
                Err(e) => Err(e),
            },
        ),
{
    let salt = random_salt();
    let nonce = secretbox_nonce();
    proof {
        vstd::array::array_len_matches_n(&key.bytes);
        vstd::array::array_len_matches_n(&salt);
        vstd::array::array_len_matches_n(&nonce);
    }
    let r = seal_key_file(key, passphrase, &salt, &nonce);
    proof {
        let text = encode_utf8(passphrase@);
        if r is Ok {
            let file = r->Ok_0@;
            let kek = argon2id_key(text, salt@)->0;
            assert(file.subrange(0, 4) =~= key_file_magic());
            assert(file == key_file(salt@, nonce@, secretbox_sealed(key@, nonce@, kek)));
            assert(is_key_file_for(file, key@, text));
        } else {
            assert(argon2id_key(text, salt@) is None);
            assert(derivation_refuses(text));
        }
    }
    r
}

/// A fresh at-rest key, and its sealed key file under `passphrase`, with a
/// fresh salt and a fresh nonce.
pub fn rotate_key_and_seal(passphrase: &str) -> (r: Result<(AtRestKey, Vec<u8>), StorageError>)
    ensures
        match r {
            Ok((key, file)) => fresh_seal_outcome(key@, encode_utf8(passphrase@), Ok(file@)),
            Err(e) => kdf_failure(e) && derivation_refuses(encode_utf8(passphrase@)),
        },
{
    let key = AtRestKey::generate();
    match set_passphrase_and_seal(&key, passphrase) {
        Ok(file) => Ok((key, file)),
        Err(e) => Err(e),
    }
}

/// The at-rest key that the sealed key file `file` gives up to `passphrase`.
pub fn unlock_with_passphrase(file: &[u8], passphrase: &str) -> (r: Result<AtRestKey, StorageError>)
    ensures
        match r {
            Ok(key) => key_file_unlocked(file@, encode_utf8(passphrase@)) == Some(key@),
            Err(e) => key_file_unlocked(file@, encode_utf8(passphrase@)) is None
                && unlock_failure(file@, encode_utf8(passphrase@), e),
        },
{
    if file.len() < 44 {
        return Err(StorageError::crypto("enc keyfile too short"));
    }
    let magic = copy_range(file, 0, 4);
    if !(magic[0] == 80 && magic[1] == 71 && magic[2] == 78 && magic[3] == 49) {
        proof {
            assert(magic@ != key_file_magic());
        }
        return Err(StorageError::crypto("enc keyfile bad magic"));
    }
    proof {
        assert(magic@ =~= key_file_magic());
    }
    let salt = copy_range(file, 4, 20);
    let nonce_bytes = copy_range(file, 20, 44);
    let nonce: [u8; 24] = to_array::<24>(nonce_bytes.as_slice());
    let sealed = copy_range(file, 44, file.len());
    proof {
        assert(sealed@ =~= file@.skip(44));
    }
    let kek = match derive_key_from_passphrase(passphrase, salt.as_slice()) {
        Ok(kek) => kek,
        Err(e) => {
            return Err(e);
        },
    };
    let key_bytes = match secretbox_open(sealed.as_slice(), &nonce, &kek) {
        Some(k) => k,
        None => {
            return Err(StorageError::crypto("unlock failed"));
        },
    };
    if key_bytes.len() != 32 {
        return Err(StorageError::crypto("bad inner key size"));
    }
    Ok(AtRestKey { bytes: to_array::<32>(key_bytes.as_slice()) })
}

/// Where the at-rest key comes from.
pub enum KeySource {
    /// The key was unlocked earlier in this process.
    Cached(AtRestKey),
    /// There is a sealed key file, and maybe a passphrase to try on it.
    Sealed(Vec<u8>, Option<String>),
    /// There is a plain key file.
    Plain(Vec<u8>),
    /// There is nothing yet.
    Missing,
}

/// Where a loaded at-rest key stands.
pub enum LoadedKey {
    /// The key was there.
    Existing(AtRestKey),
    /// The key is new, and has to be written to the plain key file.
    Created(AtRestKey),
}

/// The at-rest key, from wherever it is: the one unlocked earlier; else the
/// one that the sealed key file gives up to the passphrase, which has to be
/// there; else the one in the plain key file, which has to hold 32 bytes;
/// else a fresh one.
pub fn load_or_create(source: KeySource) -> (r: Result<LoadedKey, StorageError>)
    ensures
        match source {
            KeySource::Cached(key) => r matches Ok(LoadedKey::Existing(k)) && k@ == key@,
            KeySource::Sealed(file, Some(passphrase)) => match r {
                Ok(LoadedKey::Existing(k)) => key_file_unlocked(file@, encode_utf8(passphrase@))
                    == Some(k@),
                Ok(_) => false,
                Err(e) => key_file_unlocked(file@, encode_utf8(passphrase@)) is None
                    && unlock_failure(file@, encode_utf8(passphrase@), e),
            },
            KeySource::Sealed(_, None) => r matches Err(e) && e.is_crypto(
                "at-rest key is locked; run `security unlock` or set PIGEON_PASSPHRASE"@,
            ),
            KeySource::Plain(file) => match r {
                Ok(LoadedKey::Existing(k)) => file@.len() == 32 && k@ == file@,
                Ok(_) => false,
                Err(e) => file@.len() != 32 && e.is_crypto("invalid key length"@),
            },
            KeySource::Missing => r matches Ok(LoadedKey::Created(_)),
        },
{
    match source {
        KeySource::Cached(key) => Ok(LoadedKey::Existing(key)),
        KeySource::Sealed(file, Some(passphrase)) => {
            match unlock_with_passphrase(file.as_slice(), passphrase.as_str()) {
                Ok(key) => Ok(LoadedKey::Existing(key)),
                Err(e) => Err(e),
            }
        },
        KeySource::Sealed(_, None) => Err(
            StorageError::crypto(
                "at-rest key is locked; run `security unlock` or set PIGEON_PASSPHRASE",
            ),
        ),
        KeySource::Plain(file) => match AtRestKey::from_file_bytes(file.as_slice()) {
            Ok(key) => Ok(LoadedKey::Existing(key)),
            Err(e) => Err(e),
        },
        KeySource::Missing => Ok(LoadedKey::Created(AtRestKey::generate())),
    }
}

/// The key that a new passphrase is to seal: the one in the plain key file,
/// which has to hold 32 bytes; else the one unlocked earlier; else a fresh
/// one.
pub fn key_to_seal(plain: Option<&[u8]>, cached: Option<AtRestKey>) -> (r: Result<
    AtRestKey,
    StorageError,
>)
    ensures
        match (plain, cached) {
            (Some(file), _) => match r {
                Ok(key) => file@.len() == 32 && key@ == file@,
                Err(e) => file@.len() != 32 && e.is_crypto("invalid key length"@),
            },
            (None, Some(earlier)) => r matches Ok(key) && key@ == earlier@,
            (None, None) => r is Ok,
        },
{
    match plain {
        Some(file) => AtRestKey::from_file_bytes(file),
        None => match cached {
            Some(earlier) => Ok(earlier),
            None => Ok(AtRestKey::generate()),
        },
    }
}

/// The at-rest keys that were unlocked in this process, by data directory.
/// Whoever shares one between threads has to guard it with a lock.
pub struct KeyCache {
    entries: Vec<(String, AtRestKey)>,
}

/// The key that `entries` hold for `dir`: that of the last entry for it.
pub open spec fn cached_key(entries: Seq<(Seq<char>, Seq<u8>)>, dir: Seq<char>) -> Option<Seq<u8>>
    decreases entries.len(),
{
    if entries.len() == 0 {
        None
    } else if entries.last().0 == dir {
        Some(entries.last().1)
    } else {
        cached_key(entries.drop_last(), dir)
    }
}

impl View for KeyCache {
    type V = Seq<(Seq<char>, Seq<u8>)>;

    closed spec fn view(&self) -> Seq<(Seq<char>, Seq<u8>)> {
        Seq::new(self.entries@.len(), |i: int| (self.entries@[i].0@, self.entries@[i].1@))
    }
}

impl KeyCache {
    /// A cache that holds nothing.
    pub fn new() -> (cache: KeyCache)
        ensures
            cache@ == Seq::<(Seq<char>, Seq<u8>)>::empty(),
    {
        let cache = KeyCache { entries: Vec::new() };
        proof {
            assert(cache@ =~= Seq::<(Seq<char>, Seq<u8>)>::empty());
        }
        cache
    }

    /// The key that is cached for `data_dir`, if there is one.
    pub fn get(&self, data_dir: &str) -> (found: Option<AtRestKey>)
        ensures
            cached_key(self@, data_dir@) == match found {
                Some(key) => Some(key@),
                None => None,
            },
    {
        let mut i: usize = self.entries.len();
        proof {
            assert(self@.take(i as int) =~= self@);
        }
        while i > 0
            invariant
                i <= self.entries.len(),
                cached_key(self@, data_dir@) == cached_key(self@.take(i as int), data_dir@),
            decreases i,
        {
            i = i - 1;
            proof {
                let upto = self@.take(i + 1);
                assert(upto.drop_last() =~= self@.take(i as int));
                assert(upto.last() == self@[i as int]);
            }
            proof {
                assert(self@[i as int] == (self.entries@[i as int].0@, self.entries@[i as int].1@));
            }
            if crate::text::same_text(self.entries[i].0.as_str(), data_dir) {
                return Some(self.entries[i].1.duplicate());
            }
        }
        None
    }

    /// Caches `key` for `data_dir`, in place of any key cached for it before.
    pub fn insert(&mut self, data_dir: &str, key: &AtRestKey)
        ensures
            final(self)@ == old(self)@.push((data_dir@, key@)),
            cached_key(final(self)@, data_dir@) == Some(key@),
    {
        self.entries.push((String::from_str(data_dir), key.duplicate()));
        proof {
            assert(self@ =~= old(self)@.push((data_dir@, key@)));
        }
    }

    /// Forgets every key.
    pub fn clear(&mut self)
        ensures
            final(self)@ == Seq::<(Seq<char>, Seq<u8>)>::empty(),
    {
        self.entries.clear();
        proof {
            assert(self@ =~= Seq::<(Seq<char>, Seq<u8>)>::empty());
        }
    }
}

/// Forgets every cached key, so that a test starts from nothing.
pub fn test_clear_cache(cache: &mut KeyCache)
    ensures
        final(cache)@ == Seq::<(Seq<char>, Seq<u8>)>::empty(),
        forall|dir: Seq<char>| cached_key(final(cache)@, dir) is None,
{
    cache.clear();
}

} // verus!
