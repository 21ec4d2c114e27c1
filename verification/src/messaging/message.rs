//! The envelope that carries one encrypted message between peers: its fields,
//! its wire form, and the bytes that its signature covers.

use vstd::prelude::*;
use crate::bytes::{put_bytes, put_u64_le, to_array, u64_be, u64_le, u64_to_be};
use crate::codec::{
    lemma_cancel, lemma_cancel_len_prefixed, lemma_cancel_u64, len_prefixed, put_len_prefixed,
    take_fixed, take_len_prefixed, take_u64, take_u8,
};

verus! {

/// One message on the wire.
#[derive(Debug, Clone, PartialEq, Eq)]
pub struct EnvelopeV1 {
    pub version: u8,
    pub sender_id: u64,
    pub recipient_id: u64,
    pub nonce: [u8; 24],
    /// The ciphertext.
    pub payload: Vec<u8>,
    /// Detached signature over `signing_input`.
    pub signature: Vec<u8>,
}

/// What an envelope holds, as mathematical values.
pub struct EnvelopeView {
    pub version: u8,
    pub sender_id: u64,
    pub recipient_id: u64,
    pub nonce: Seq<u8>,
    pub payload: Seq<u8>,
    pub signature: Seq<u8>,
}

impl EnvelopeView {
    /// The nonce has its fixed length, and the two variable fields have
    /// lengths that fit their prefix.
    pub open spec fn wf(self) -> bool {
        &&& self.nonce.len() == 24
        &&& self.payload.len() <= u64::MAX
        &&& self.signature.len() <= u64::MAX
    }
}

impl View for EnvelopeV1 {
    type V = EnvelopeView;

    open spec fn view(&self) -> EnvelopeView {
        EnvelopeView {
            version: self.version,
            sender_id: self.sender_id,
            recipient_id: self.recipient_id,
            nonce: self.nonce@,
            payload: self.payload@,
            signature: self.signature@,
        }
    }
}

/// The wire form of an envelope followed by `rest`: version byte, the two
/// identifiers as little-endian 64-bit numbers, the nonce, then payload and
/// signature, each behind its length.
pub open spec fn envelope_wire_then(m: EnvelopeView, rest: Seq<u8>) -> Seq<u8> {
    seq![m.version] + (u64_le(m.sender_id) + (u64_le(m.recipient_id) + (m.nonce + (len_prefixed(
        m.payload,
    ) + (len_prefixed(m.signature) + rest)))))
}

/// The wire form of an envelope.
pub open spec fn envelope_wire(m: EnvelopeView) -> Seq<u8> {
    envelope_wire_then(m, Seq::empty())
}

/// `bytes` starts with the wire form of `m`.
pub open spec fn starts_with_envelope(bytes: Seq<u8>, m: EnvelopeView) -> bool {
    m.wf() && exists|rest: Seq<u8>| bytes == #[trigger] envelope_wire_then(m, rest)
}

/// What decoding `bytes` gives: the one envelope that `bytes` starts with, or
/// nothing where it starts with none.
pub open spec fn envelope_decoding(bytes: Seq<u8>, decoded: Option<EnvelopeView>) -> bool {
    match decoded {
        Some(m) => starts_with_envelope(bytes, m),
        None => forall|m: EnvelopeView| !starts_with_envelope(bytes, m),
    }
}

/// The envelope that `bytes` starts with, if there is one.
pub open spec fn envelope_of(bytes: Seq<u8>) -> Option<EnvelopeView> {
    if exists|m: EnvelopeView| starts_with_envelope(bytes, m) {
        Some(choose|m: EnvelopeView| starts_with_envelope(bytes, m))
    } else {
        None
    }
}

/// `envelope_of` is what decoding gives.
pub proof fn lemma_envelope_of(bytes: Seq<u8>, decoded: Option<EnvelopeView>)
    ensures
        envelope_decoding(bytes, decoded) <==> decoded == envelope_of(bytes),
{
    if envelope_decoding(bytes, decoded) {
        match decoded {
            Some(m) => {
                lemma_envelope_unique(bytes, m, envelope_of(bytes)->0);
            },
            None => {},
        }
    }
}

/// The bytes that the signature of an envelope covers: version, both
/// identifiers as big-endian 64-bit numbers, nonce and ciphertext.
pub open spec fn signing_input(
    version: u8,
    sender_id: u64,
    recipient_id: u64,
    nonce: Seq<u8>,
    payload: Seq<u8>,
) -> Seq<u8> {
    seq![version] + u64_be(sender_id) + u64_be(recipient_id) + nonce + payload
}

/// Bytes start with at most one envelope.
pub proof fn lemma_envelope_unique(bytes: Seq<u8>, a: EnvelopeView, b: EnvelopeView)
    requires
        starts_with_envelope(bytes, a),
        starts_with_envelope(bytes, b),
    ensures
        a == b,
{
    let ra = choose|rest: Seq<u8>| bytes == #[trigger] envelope_wire_then(a, rest);
    let rb = choose|rest: Seq<u8>| bytes == #[trigger] envelope_wire_then(b, rest);
    let a5 = len_prefixed(a.signature) + ra;
    let b5 = len_prefixed(b.signature) + rb;
    let a4 = len_prefixed(a.payload) + a5;
    let b4 = len_prefixed(b.payload) + b5;
    let a3 = a.nonce + a4;
    let b3 = b.nonce + b4;
    let a2 = u64_le(a.recipient_id) + a3;
    let b2 = u64_le(b.recipient_id) + b3;
    let a1 = u64_le(a.sender_id) + a2;
    let b1 = u64_le(b.sender_id) + b2;
    lemma_cancel(seq![a.version], a1, seq![b.version], b1);
    assert(seq![a.version][0] == seq![b.version][0]);
    lemma_cancel_u64(a.sender_id, a2, b.sender_id, b2);
    lemma_cancel_u64(a.recipient_id, a3, b.recipient_id, b3);
    lemma_cancel(a.nonce, a4, b.nonce, b4);
    lemma_cancel_len_prefixed(a.payload, a5, b.payload, b5);
    lemma_cancel_len_prefixed(a.signature, ra, b.signature, rb);
}

/// Decoding the wire form of an envelope, whatever follows it, gives that
/// envelope back.
pub proof fn lemma_envelope_roundtrip(m: EnvelopeView, rest: Seq<u8>, decoded: Option<EnvelopeView>)
    requires
        m.wf(),
        envelope_decoding(envelope_wire_then(m, rest), decoded),
    ensures
        decoded == Some(m),
{
    let bytes = envelope_wire_then(m, rest);
    assert(starts_with_envelope(bytes, m));
    match decoded {
        Some(d) => {
            lemma_envelope_unique(bytes, d, m);
        },
        None => {},
    }
}

impl EnvelopeV1 {
    /// An envelope of the current version.
    pub fn new(
        sender_id: u64,
        recipient_id: u64,
        nonce: [u8; 24],
        payload: Vec<u8>,
        signature: Vec<u8>,
    ) -> (env: Self)
        ensures
            env@ == (EnvelopeView {
                version: 1,
                sender_id,
                recipient_id,
                nonce: nonce@,
                payload: payload@,
                signature: signature@,
            }),
            env@.wf(),
    {
        let _payload_len: usize = payload.len();
        let _signature_len: usize = signature.len();
        proof {
            vstd::array::array_len_matches_n(&nonce);
        }
        EnvelopeV1 { version: 1, sender_id, recipient_id, nonce, payload, signature }
    }

    /// The wire form.
    pub fn encode(&self) -> (out: Vec<u8>)
        ensures
            out@ == envelope_wire(self@),
    {
        let mut out: Vec<u8> = Vec::new();
        out.push(self.version);
        put_u64_le(&mut out, self.sender_id);
        put_u64_le(&mut out, self.recipient_id);
        put_bytes(&mut out, self.nonce.as_slice());
        put_len_prefixed(&mut out, self.payload.as_slice());
        put_len_prefixed(&mut out, self.signature.as_slice());
        proof {
            assert(out@ =~= envelope_wire(self@));
        }
        out
    }

    /// Reads the envelope that `bytes` starts with. Bytes behind it are
    /// ignored. Fails exactly when `bytes` starts with no envelope.
    pub fn decode(bytes: &[u8]) -> (decoded: Option<EnvelopeV1>)
        ensures
            envelope_decoding(
                bytes@,
                match decoded {
                    Some(env) => Some(env@),
                    None => None,
                },
            ),
            envelope_of(bytes@) == match decoded {
                Some(env) => Some(env@),
                None => None,
            },
    {
        let decoded = Self::read_from(bytes);
        proof {
            if decoded is Some {
                lemma_envelope_of(bytes@, Some(decoded->0@));
            } else {
                lemma_envelope_of(bytes@, None);
            }
        }
        decoded
    }

    fn read_from(bytes: &[u8]) -> (decoded: Option<EnvelopeV1>)
        ensures
            envelope_decoding(
                bytes@,
                match decoded {
                    Some(env) => Some(env@),
                    None => None,
                },
            ),
    {
        let ghost all = bytes@;
        proof {
            assert(all =~= all.skip(0));
        }
        let (version, at1) = match take_u8(bytes, 0) {
            Some(r) => r,
            None => {
                proof {
                    assert forall|m: EnvelopeView| !starts_with_envelope(all, m) by {
                        if starts_with_envelope(all, m) {
                            let rest = choose|rest: Seq<u8>|
                                all == #[trigger] envelope_wire_then(m, rest);
                            assert(envelope_wire_then(m, rest).len() > 0);
                        }
                    }
                }
                return None;
            },
        };
        let r2 = take_u64(bytes, at1);
        let r3 = match r2 {
            Some((_, at2)) => take_u64(bytes, at2),
            None => None,
        };
        let r4 = match r3 {
            Some((_, at3)) => take_fixed(bytes, at3, 24),
            None => None,
        };
        let r5 = match &r4 {
            Some((_, at4)) => take_len_prefixed(bytes, *at4),
            None => None,
        };
        let r6 = match &r5 {
            Some((_, at5)) => take_len_prefixed(bytes, *at5),
            None => None,
        };
        proof {
            // Whatever envelope `bytes` starts with agrees, field by field, with
            // what has been read, as far as reading went.
            assert forall|m: EnvelopeView| starts_with_envelope(all, m) implies r6 is Some && (
            EnvelopeView {
                version,
                sender_id: (r2->0).0,
                recipient_id: (r3->0).0,
                nonce: (r4->0).0@,
                payload: (r5->0).0@,
                signature: (r6->0).0@,
            }) == m by {
                let rest = choose|rest: Seq<u8>| all == #[trigger] envelope_wire_then(m, rest);
                let m5 = len_prefixed(m.signature) + rest;
                let m4 = len_prefixed(m.payload) + m5;
                let m3 = m.nonce + m4;
                let m2 = u64_le(m.recipient_id) + m3;
                let m1 = u64_le(m.sender_id) + m2;
                lemma_cancel(seq![m.version], m1, seq![version], all.skip(at1 as int));
                assert(seq![m.version][0] == seq![version][0]);
                crate::bytes::lemma_pow256_values();
                crate::bytes::lemma_le_roundtrip(m.sender_id as nat, 8);
                crate::bytes::lemma_le_roundtrip(m.recipient_id as nat, 8);
                assert(r2 is Some);
                let at2 = (r2->0).1;
                lemma_cancel_u64(m.sender_id, m2, (r2->0).0, all.skip(at2 as int));
                assert(r3 is Some);
                let at3 = (r3->0).1;
                lemma_cancel_u64(m.recipient_id, m3, (r3->0).0, all.skip(at3 as int));
                assert(r4 is Some);
                let at4 = (r4->0).1;
                lemma_cancel(m.nonce, m4, (r4->0).0@, all.skip(at4 as int));
                assert(r5 is Some);
                let at5 = (r5->0).1;
                lemma_cancel_len_prefixed(m.payload, m5, (r5->0).0@, all.skip(at5 as int));
                assert(r6 is Some);
                let at6 = (r6->0).1;
                lemma_cancel_len_prefixed(m.signature, rest, (r6->0).0@, all.skip(at6 as int));
            }
        }
        match (r2, r3, r4, r5, r6) {
            (
                Some((sender_id, _)),
                Some((recipient_id, _)),
                Some((nonce, _)),
                Some((payload, _)),
                Some((signature, at6)),
            ) => {
                let env = EnvelopeV1 {
                    version,
                    sender_id,
                    recipient_id,
                    nonce: to_array::<24>(nonce.as_slice()),
                    payload,
                    signature,
                };
                proof {
                    assert(all == envelope_wire_then(env@, all.skip(at6 as int)));
                }
                Some(env)
            },
            _ => None,
        }
    }

    /// The bytes that the signature covers.
    pub fn to_sign(&self) -> (out: Vec<u8>)
        ensures
            out@ == signing_input(
                self.version,
                self.sender_id,
                self.recipient_id,
                self.nonce@,
                self.payload@,
            ),
    {
        signing_bytes(
            self.version,
            self.sender_id,
            self.recipient_id,
            &self.nonce,
            self.payload.as_slice(),
        )
    }
}

/// The bytes that a signature over these envelope fields covers.
pub fn signing_bytes(
    version: u8,
    sender_id: u64,
    recipient_id: u64,
    nonce: &[u8; 24],
    payload: &[u8],
) -> (out: Vec<u8>)
    ensures
        out@ == signing_input(version, sender_id, recipient_id, nonce@, payload@),
{
    let mut out: Vec<u8> = Vec::new();
    out.push(version);
    let sender = u64_to_be(sender_id);
    put_bytes(&mut out, sender.as_slice());
    let recipient = u64_to_be(recipient_id);
    put_bytes(&mut out, recipient.as_slice());
    put_bytes(&mut out, nonce.as_slice());
    put_bytes(&mut out, payload);
    proof {
        assert(out@ =~= signing_input(version, sender_id, recipient_id, nonce@, payload@));
    }
    out
}

} // verus!
