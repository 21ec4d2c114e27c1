//! The local identity: the keys that this peer encrypts, signs and connects
//! with, and the file that keeps them.

use vstd::prelude::*;
use crate::bytes::to_array;
use crate::codec::{lemma_cancel_len_prefixed, len_prefixed, put_len_prefixed, take_len_prefixed};
use crate::crypto::{box_keypair, box_public_key, sign_keypair};
use crate::error::PigeonError;
use crate::text::{join_path, joined};

verus! {

/// Whether `Keypair::try_from_bytes` of libp2p's ed25519 identity takes these
/// bytes for a key pair.
pub uninterp spec fn libp2p_keypair_decodes(bytes: Seq<u8>) -> bool;

/// The peer identifier, as text, of the ed25519 key pair with these bytes:
/// what `PeerId::to_string` gives for the pair's public key, or nothing where
/// the bytes are no key pair.
pub uninterp spec fn libp2p_peer_id(bytes: Seq<u8>) -> Option<Seq<char>>;

/// A fresh random ed25519 key pair for the transport, as its 64 bytes.
///
/// Trusted: `ed25519::Keypair::generate` and `Keypair::to_bytes` of libp2p's
/// identity. There are 64 bytes, and they are taken for a key pair when read
/// back; nothing else is claimed of them.
#[verifier::external_body]
pub(crate) fn libp2p_keypair() -> (bytes: Vec<u8>)
    ensures
        bytes@.len() == 64,
        libp2p_keypair_decodes(bytes@),
{
    libp2p::identity::ed25519::Keypair::generate().to_bytes().to_vec()
}

/// Whether `bytes` are an ed25519 key pair for the transport.
///
/// Trusted: `ed25519::Keypair::try_from_bytes` of libp2p's identity, on a
/// copy of the bytes.
#[verifier::external_body]
pub(crate) fn libp2p_keypair_ok(bytes: &[u8]) -> (ok: bool)
    ensures
        ok == libp2p_keypair_decodes(bytes@),
{
    let mut copy = bytes.to_vec();
    libp2p::identity::ed25519::Keypair::try_from_bytes(copy.as_mut_slice()).is_ok()
}

/// The peer identifier of the ed25519 key pair with these bytes, as text.
///
/// Trusted: `ed25519::Keypair::try_from_bytes`, `Keypair::public` and
/// `PeerId::to_string` of libp2p.
#[verifier::external_body]
pub(crate) fn peer_id_text(bytes: &[u8]) -> (text: Option<String>)
    ensures
        text_of(text) == libp2p_peer_id(bytes@),
{
    let mut copy = bytes.to_vec();
    match libp2p::identity::ed25519::Keypair::try_from_bytes(copy.as_mut_slice()) {
        Ok(pair) => Some(libp2p::identity::Keypair::from(pair).public().to_peer_id().to_string()),
        Err(_) => None,
    }
}

/// A text that may be missing, as a mathematical value.
pub open spec fn text_of(text: Option<String>) -> Option<Seq<char>> {
    match text {
        Some(t) => Some(t@),
        None => None,
    }
}

/// The keys of this peer.
#[derive(Debug)]
pub struct Identity {
    /// The ed25519 key pair that the transport connects with, as its bytes.
    pub libp2p_ed25519: Vec<u8>,
    pub sodium_box_pk: [u8; 32],
    pub sodium_box_sk: [u8; 32],
    pub sign_pk: [u8; 32],
    pub sign_sk: [u8; 64],
}

/// What an identity file holds: five byte strings.
pub struct StoredIdentity {
    pub libp2p_ed25519: Seq<u8>,
    pub sodium_box_pk: Seq<u8>,
    pub sodium_box_sk: Seq<u8>,
    pub sign_pk: Seq<u8>,
    pub sign_sk: Seq<u8>,
}

impl StoredIdentity {
    /// The fields have lengths that the stored form can hold.
    pub open spec fn wf(self) -> bool {
        &&& self.libp2p_ed25519.len() <= u64::MAX
        &&& self.sodium_box_pk.len() <= u64::MAX
        &&& self.sodium_box_sk.len() <= u64::MAX
        &&& self.sign_pk.len() <= u64::MAX
        &&& self.sign_sk.len() <= u64::MAX
    }
}

impl View for Identity {
    type V = StoredIdentity;

    open spec fn view(&self) -> StoredIdentity {
        StoredIdentity {
            libp2p_ed25519: self.libp2p_ed25519@,
            sodium_box_pk: self.sodium_box_pk@,
            sodium_box_sk: self.sodium_box_sk@,
            sign_pk: self.sign_pk@,
            sign_sk: self.sign_sk@,
        }
    }
}

/// The identity file for `s`, followed by `rest`: the five byte strings, each
/// behind its length.
pub open spec fn identity_wire_then(s: StoredIdentity, rest: Seq<u8>) -> Seq<u8> {
    len_prefixed(s.libp2p_ed25519) + (len_prefixed(s.sodium_box_pk) + (len_prefixed(
        s.sodium_box_sk,
    ) + (len_prefixed(s.sign_pk) + (len_prefixed(s.sign_sk) + rest))))
}

/// The identity file for `s`.
pub open spec fn identity_wire(s: StoredIdentity) -> Seq<u8> {
    identity_wire_then(s, Seq::empty())
}

/// `bytes` starts with the identity file for `s`.
pub open spec fn starts_with_identity(bytes: Seq<u8>, s: StoredIdentity) -> bool {
    s.wf() && exists|rest: Seq<u8>| bytes == #[trigger] identity_wire_then(s, rest)
}

/// What the identity file `bytes` holds, if it is one.
pub open spec fn identity_of(bytes: Seq<u8>) -> Option<StoredIdentity> {
    if exists|s: StoredIdentity| starts_with_identity(bytes, s) {
        Some(choose|s: StoredIdentity| starts_with_identity(bytes, s))
    } else {
        None
    }
}

/// Bytes start with at most one identity file.
pub proof fn lemma_identity_unique(bytes: Seq<u8>, a: StoredIdentity, b: StoredIdentity)
    requires
        starts_with_identity(bytes, a),
        starts_with_identity(bytes, b),
    ensures
        a == b,
{
    let ra = choose|rest: Seq<u8>| bytes == #[trigger] identity_wire_then(a, rest);
    let rb = choose|rest: Seq<u8>| bytes == #[trigger] identity_wire_then(b, rest);
    let a4 = len_prefixed(a.sign_sk) + ra;
    let b4 = len_prefixed(b.sign_sk) + rb;
    let a3 = len_prefixed(a.sign_pk) + a4;
    let b3 = len_prefixed(b.sign_pk) + b4;
    let a2 = len_prefixed(a.sodium_box_sk) + a3;
    let b2 = len_prefixed(b.sodium_box_sk) + b3;
    let a1 = len_prefixed(a.sodium_box_pk) + a2;
    let b1 = len_prefixed(b.sodium_box_pk) + b2;
    lemma_cancel_len_prefixed(a.libp2p_ed25519, a1, b.libp2p_ed25519, b1);
    lemma_cancel_len_prefixed(a.sodium_box_pk, a2, b.sodium_box_pk, b2);
    lemma_cancel_len_prefixed(a.sodium_box_sk, a3, b.sodium_box_sk, b3);
    lemma_cancel_len_prefixed(a.sign_pk, a4, b.sign_pk, b4);
    lemma_cancel_len_prefixed(a.sign_sk, ra, b.sign_sk, rb);
}

/// Reading back the identity file for `s`, whatever follows it, gives `s`.
pub proof fn lemma_identity_roundtrip(s: StoredIdentity, rest: Seq<u8>)
    requires
        s.wf(),
    ensures
        identity_of(identity_wire_then(s, rest)) == Some(s),
{
    let bytes = identity_wire_then(s, rest);
    assert(starts_with_identity(bytes, s));
    lemma_identity_unique(bytes, s, identity_of(bytes)->0);
}

/// `e` is the error owed for an identity file that gives no identity: it is
/// no identity file, its transport key pair is there but no key pair, or one
/// of its four keys has the wrong length.
pub open spec fn identity_refused(bytes: Seq<u8>, e: PigeonError) -> bool {
    match identity_of(bytes) {
        None => e.is_config("invalid identity file"@),
        Some(s) => if s.libp2p_ed25519.len() > 0 && !libp2p_keypair_decodes(s.libp2p_ed25519) {
            e.is_config("ed25519 decode failed"@)
        } else if s.sodium_box_pk.len() != 32 {
            e.is_config("invalid sodium pk"@)
        } else if s.sodium_box_sk.len() != 32 {
            e.is_config("invalid sodium sk"@)
        } else if s.sign_pk.len() != 32 {
            e.is_config("invalid sign pk"@)
        } else {
            s.sign_sk.len() != 64 && e.is_config("invalid sign sk"@)
        },
    }
}

/// The identity file `bytes` gives an identity.
pub open spec fn identity_accepted(bytes: Seq<u8>) -> bool {
    identity_of(bytes) matches Some(s) && (s.libp2p_ed25519.len() == 0 || libp2p_keypair_decodes(
        s.libp2p_ed25519,
    )) && s.sodium_box_pk.len() == 32 && s.sodium_box_sk.len() == 32 && s.sign_pk.len() == 32
        && s.sign_sk.len() == 64
}

/// `id` is the identity that the identity file `bytes` gives: the file is
/// accepted, the four keys are those in the file, and so is the key pair for
/// the transport where the file has one; where it has none, `id` has some key
/// pair.
pub open spec fn identity_loaded(bytes: Seq<u8>, id: StoredIdentity) -> bool {
    identity_accepted(bytes) && {
        let s = identity_of(bytes)->0;
        &&& id.sodium_box_pk == s.sodium_box_pk
        &&& id.sodium_box_sk == s.sodium_box_sk
        &&& id.sign_pk == s.sign_pk
        &&& id.sign_sk == s.sign_sk
        &&& s.libp2p_ed25519.len() > 0 ==> id.libp2p_ed25519 == s.libp2p_ed25519
        &&& libp2p_keypair_decodes(id.libp2p_ed25519)
    }
}

/// What holds of every identity that was made anew: the public encryption
/// key belongs to the secret one, and the key pair for the transport has 64
/// bytes and is taken for a key pair.
pub open spec fn identity_fresh(id: StoredIdentity) -> bool {
    &&& id.sodium_box_pk == box_public_key(id.sodium_box_sk)
    &&& id.sodium_box_pk.len() == 32
    &&& id.sodium_box_sk.len() == 32
    &&& id.sign_pk.len() == 32
    &&& id.sign_sk.len() == 64
    &&& id.libp2p_ed25519.len() == 64
    &&& libp2p_keypair_decodes(id.libp2p_ed25519)
}

/// An identity that was made anew comes back from its file as it is: whatever
/// is loaded from the file written for it is that identity.
pub proof fn lemma_identity_reloaded(id: StoredIdentity, loaded: StoredIdentity)
    requires
        identity_fresh(id),
        identity_loaded(identity_wire(id), loaded),
    ensures
        loaded == id,
{
    lemma_identity_roundtrip(id, Seq::empty());
}

/// What loading an identity gave.
pub enum LoadedIdentity {
    /// The identity that the file holds.
    Existing(Identity),
    /// A new identity, and the file that has to be written for it.
    Created(Identity, Vec<u8>),
}

impl Identity {
    /// A fresh identity: new key pairs for encryption, signing and the
    /// transport.
    pub fn generate() -> (id: Identity)
        ensures
            identity_fresh(id@),
    {
        let (sodium_box_pk, sodium_box_sk) = box_keypair();
        let (sign_pk, sign_sk) = sign_keypair();
        proof {
            vstd::array::array_len_matches_n(&sodium_box_pk);
            vstd::array::array_len_matches_n(&sodium_box_sk);
            vstd::array::array_len_matches_n(&sign_pk);
            vstd::array::array_len_matches_n(&sign_sk);
        }
        Identity {
            libp2p_ed25519: libp2p_keypair(),
            sodium_box_pk,
            sodium_box_sk,
            sign_pk,
            sign_sk,
        }
    }

    /// The identity file for this identity.
    pub fn to_file_bytes(&self) -> (out: Vec<u8>)
        ensures
            out@ == identity_wire(self@),
    {
        let mut out: Vec<u8> = Vec::new();
        put_len_prefixed(&mut out, self.libp2p_ed25519.as_slice());
        put_len_prefixed(&mut out, self.sodium_box_pk.as_slice());
        put_len_prefixed(&mut out, self.sodium_box_sk.as_slice());
        put_len_prefixed(&mut out, self.sign_pk.as_slice());
        put_len_prefixed(&mut out, self.sign_sk.as_slice());
        proof {
            assert(out@ =~= identity_wire(self@));
        }
        out
    }

    /// The identity that the identity file `bytes` holds. A file without a
    /// key pair for the transport gets a fresh one.
    pub fn from_file_bytes(bytes: &[u8]) -> (r: Result<Identity, PigeonError>)
        ensures
            match r {
                Ok(id) => identity_loaded(bytes@, id@),
                Err(e) => !identity_accepted(bytes@) && identity_refused(bytes@, e),
            },
    {
        let ghost all = bytes@;
        proof {
            assert(all =~= all.skip(0));
        }
        let r1 = take_len_prefixed(bytes, 0);
        let r2 = match &r1 {
            Some((_, p)) => take_len_prefixed(bytes, *p),
            None => None,
        };
        let r3 = match &r2 {
            Some((_, p)) => take_len_prefixed(bytes, *p),
            None => None,
        };
        let r4 = match &r3 {
            Some((_, p)) => take_len_prefixed(bytes, *p),
            None => None,
        };
        let r5 = match &r4 {
            Some((_, p)) => take_len_prefixed(bytes, *p),
            None => None,
        };
        proof {
            assert forall|s: StoredIdentity| starts_with_identity(all, s) implies r5 is Some && (
            StoredIdentity {
                libp2p_ed25519: (r1->0).0@,
                sodium_box_pk: (r2->0).0@,
                sodium_box_sk: (r3->0).0@,
                sign_pk: (r4->0).0@,
                sign_sk: (r5->0).0@,
            }) == s by {
                let rest = choose|rest: Seq<u8>| all == #[trigger] identity_wire_then(s, rest);
                let s4 = len_prefixed(s.sign_sk) + rest;
                let s3 = len_prefixed(s.sign_pk) + s4;
                let s2 = len_prefixed(s.sodium_box_sk) + s3;
                let s1 = len_prefixed(s.sodium_box_pk) + s2;
                assert(r1 is Some);
                lemma_cancel_len_prefixed(
                    s.libp2p_ed25519,
                    s1,
                    (r1->0).0@,
                    all.skip((r1->0).1 as int),
                );
                assert(r2 is Some);
                lemma_cancel_len_prefixed(
                    s.sodium_box_pk,
                    s2,
                    (r2->0).0@,
                    all.skip((r2->0).1 as int),
                );
                assert(r3 is Some);
                lemma_cancel_len_prefixed(
                    s.sodium_box_sk,
                    s3,
                    (r3->0).0@,
                    all.skip((r3->0).1 as int),
                );
                assert(r4 is Some);
                lemma_cancel_len_prefixed(s.sign_pk, s4, (r4->0).0@, all.skip((r4->0).1 as int));
                assert(r5 is Some);
                lemma_cancel_len_prefixed(s.sign_sk, rest, (r5->0).0@, all.skip((r5->0).1 as int));
            }
        }
        let (transport, box_pk, box_sk, sign_pk, sign_sk) = match (r1, r2, r3, r4, r5) {
            (Some((a, _)), Some((b, _)), Some((c, _)), Some((d, _)), Some((e, end))) => {
                proof {
                    let s = StoredIdentity {
                        libp2p_ed25519: a@,
                        sodium_box_pk: b@,
                        sodium_box_sk: c@,
                        sign_pk: d@,
                        sign_sk: e@,
                    };
                    assert(all == identity_wire_then(s, all.skip(end as int)));
                    assert(starts_with_identity(all, s));
                    lemma_identity_unique(all, s, identity_of(all)->0);
                }
                (a, b, c, d, e)
            },
            _ => {
                return Err(PigeonError::config("invalid identity file"));
            },
        };
        let libp2p_ed25519 = if transport.len() > 0 {
            if !libp2p_keypair_ok(transport.as_slice()) {
                return Err(PigeonError::config("ed25519 decode failed"));
            }
            transport
        } else {
            libp2p_keypair()
        };
        if box_pk.len() != 32 {
            return Err(PigeonError::config("invalid sodium pk"));
        }
        if box_sk.len() != 32 {
            return Err(PigeonError::config("invalid sodium sk"));
        }
        if sign_pk.len() != 32 {
            return Err(PigeonError::config("invalid sign pk"));
        }
        if sign_sk.len() != 64 {
            return Err(PigeonError::config("invalid sign sk"));
        }
        Ok(
            Identity {
                libp2p_ed25519,
                sodium_box_pk: to_array::<32>(box_pk.as_slice()),
                sodium_box_sk: to_array::<32>(box_sk.as_slice()),
                sign_pk: to_array::<32>(sign_pk.as_slice()),
                sign_sk: to_array::<64>(sign_sk.as_slice()),
            },
        )
    }

    /// The identity that the identity file gives, or, where there is no
    /// file yet, one made anew together with the file to write for it.
    pub fn load_or_generate(existing: Option<&[u8]>) -> (r: Result<LoadedIdentity, PigeonError>)
        ensures
            match existing {
                Some(bytes) => match r {
                    Ok(LoadedIdentity::Existing(id)) => identity_loaded(bytes@, id@),
                    Ok(_) => false,
                    Err(e) => !identity_accepted(bytes@) && identity_refused(bytes@, e),
                },
                None => r matches Ok(LoadedIdentity::Created(id, file)) && file@ == identity_wire(
                    id@,
                ) && identity_fresh(id@),
            },
    {
        match existing {
            Some(bytes) => match Identity::from_file_bytes(bytes) {
                Ok(id) => Ok(LoadedIdentity::Existing(id)),
                Err(e) => Err(e),
            },
            None => {
                let id = Identity::generate();
                let file = id.to_file_bytes();
                Ok(LoadedIdentity::Created(id, file))
            },
        }
    }

    /// Where the identity file is kept.
    pub fn file_path(base: &str) -> (path: String)
        ensures
            path@ == joined(base@, "identity.bin"@),
    {
        join_path(base, "identity.bin")
    }
}

} // verus!
