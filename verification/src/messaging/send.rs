//! The sending side: sealing a plaintext into a signed envelope, and putting
//! messages into the queue.

use vstd::prelude::*;
use crate::crypto::{
    is_cipher_for,
    box_nonce,
    box_seal,
    ed25519_signature,
    encrypt_message,
    is_message_for,
    sign_detached,
    CryptoError,
};
use crate::error::PigeonError;
use crate::ids::fresh_id;
use crate::storage::queue::{enqueue_outcome, MessageQueue, QueueState};
use crate::storage::StorageError;
use crate::storage::record::{MessageStatus, QueuedMessage, QueuedMessageView};
use super::message::{envelope_wire, signing_bytes, signing_input, EnvelopeV1, EnvelopeView};

verus! {

/// The envelope around `cipher`: version 1, the two identifiers, the nonce,
/// and the signature under `sign_secret` of all of these and the ciphertext.
pub open spec fn signed_envelope(
    sender_id: u64,
    recipient_id: u64,
    nonce: Seq<u8>,
    cipher: Seq<u8>,
    sign_secret: Seq<u8>,
) -> EnvelopeView {
    EnvelopeView {
        version: 1,
        sender_id,
        recipient_id,
        nonce,
        payload: cipher,
        signature: ed25519_signature(
            signing_input(1, sender_id, recipient_id, nonce, cipher),
            sign_secret,
        ),
    }
}

/// `bytes` is the wire form of an envelope that carries `plain`, encrypted
/// with `nonce` and signed with a signature of 64 bytes.
pub open spec fn is_envelope_for(
    bytes: Seq<u8>,
    plain: Seq<u8>,
    nonce: Seq<u8>,
    sender_sk_enc: Seq<u8>,
    sender_sk_sign: Seq<u8>,
    recipient_pk_enc: Seq<u8>,
    sender_id: u64,
    recipient_id: u64,
) -> bool {
    exists|cipher: Seq<u8>|
        is_cipher_for(cipher, plain, nonce, sender_sk_enc, recipient_pk_enc) && bytes
            == envelope_wire(
            #[trigger] signed_envelope(sender_id, recipient_id, nonce, cipher, sender_sk_sign),
        ) && signed_envelope(sender_id, recipient_id, nonce, cipher, sender_sk_sign).signature.len()
            == 64
}

/// Builds the envelope for `plaintext` with the given nonce: encrypts it to
/// the recipient, signs version, identifiers, nonce and ciphertext, and gives
/// the wire form. A plaintext too long for the tag to be added to its length
/// is refused as `Encryption("plaintext too long")`.
pub fn build_envelope_with_nonce(
    sender_sk_enc: &[u8; 32],
    sender_sk_sign: &[u8; 64],
    recipient_pk_enc: &[u8; 32],
    sender_id: u64,
    recipient_id: u64,
    plaintext: &[u8],
    nonce: [u8; 24],
) -> (r: Result<Vec<u8>, CryptoError>)
    ensures
        match r {
            Ok(bytes) => plaintext@.len() + 16 <= usize::MAX && is_envelope_for(
                bytes@,
                plaintext@,
                nonce@,
                sender_sk_enc@,
                sender_sk_sign@,
                recipient_pk_enc@,
                sender_id,
                recipient_id,
            ),
            Err(e) => plaintext@.len() + 16 > usize::MAX && e.is_encryption(
                "plaintext too long"@,
            ),
        },
{
    if plaintext.len() > usize::MAX - 16 {
        return Err(CryptoError::encryption("plaintext too long"));
    }
    let cipher = box_seal(plaintext, &nonce, recipient_pk_enc, sender_sk_enc);
    let to_sign = signing_bytes(1, sender_id, recipient_id, &nonce, cipher.as_slice());
    let signature = sign_detached(to_sign.as_slice(), sender_sk_sign);
    let ghost c = cipher@;
    let mut sig: Vec<u8> = Vec::new();
    crate::bytes::put_bytes(&mut sig, signature.as_slice());
    let env = EnvelopeV1::new(sender_id, recipient_id, nonce, cipher, sig);
    proof {
        assert(sig@ =~= signature@);
        assert(env@ == signed_envelope(sender_id, recipient_id, nonce@, c, sender_sk_sign@));
        assert(is_cipher_for(c, plaintext@, nonce@, sender_sk_enc@, recipient_pk_enc@));
    }
    Ok(env.encode())
}

/// Builds the envelope for `plaintext` under a fresh nonce.
pub fn build_envelope(
    sender_sk_enc: &[u8; 32],
    sender_sk_sign: &[u8; 64],
    recipient_pk_enc: &[u8; 32],
    sender_id: u64,
    recipient_id: u64,
    plaintext: &[u8],
) -> (r: Result<Vec<u8>, CryptoError>)
    ensures
        match r {
            Ok(bytes) => plaintext@.len() + 16 <= usize::MAX && exists|nonce: Seq<u8>|
                nonce.len() == 24 && #[trigger] is_envelope_for(
                    bytes@,
                    plaintext@,
                    nonce,
                    sender_sk_enc@,
                    sender_sk_sign@,
                    recipient_pk_enc@,
                    sender_id,
                    recipient_id,
                ),
            Err(e) => plaintext@.len() + 16 > usize::MAX && e.is_encryption(
                "plaintext too long"@,
            ),
        },
{
    let nonce = box_nonce();
    proof {
        vstd::array::array_len_matches_n(&nonce);
    }
    build_envelope_with_nonce(
        sender_sk_enc,
        sender_sk_sign,
        recipient_pk_enc,
        sender_id,
        recipient_id,
        plaintext,
        nonce,
    )
}

/// A message as it is first handed to the queue: no times yet, no retries,
/// at most 5 of them.
pub open spec fn outgoing(
    id: Seq<u8>,
    contact_id: u64,
    payload: Seq<u8>,
    priority: u8,
    status: MessageStatus,
) -> QueuedMessageView {
    QueuedMessageView {
        id,
        contact_id,
        payload,
        created: 0,
        priority,
        status,
        retry_count: 0,
        next_attempt_at: 0,
        max_retries: 5,
    }
}

/// What an answer that is an identifier or an error says of enqueueing the
/// message with the identifier `id`: that it went well, where the answer is
/// `id`; the storage layer's error, where the answer is one; and nothing where
/// the answer is another identifier or another error.
pub open spec fn stored_as(r: Result<[u8; 16], PigeonError>, id: Seq<u8>) -> Option<
    Result<(), crate::storage::StorageError>,
> {
    match r {
        Ok(answer) => if answer@ == id {
            Some(Ok(()))
        } else {
            None
        },
        Err(PigeonError::Storage(e)) => Some(Err(e)),
        Err(_) => None,
    }
}

/// A message as it is first handed to the queue.
pub fn new_outgoing(
    id: [u8; 16],
    contact_id: u64,
    payload: Vec<u8>,
    priority: u8,
    status: MessageStatus,
) -> (m: QueuedMessage)
    ensures
        m@ == outgoing(id@, contact_id, payload@, priority, status),
{
    QueuedMessage {
        id,
        contact_id,
        payload,
        created: 0,
        priority,
        status,
        retry_count: 0,
        next_attempt_at: 0,
        max_retries: 5,
    }
}

/// What `send_now` leaves: the queue has taken a message in the normal lane
/// whose payload is `plain` encrypted for the recipient.
pub open spec fn sent(
    pre: crate::storage::queue::QueueState,
    post: crate::storage::queue::QueueState,
    id: Seq<u8>,
    sender_sk: Seq<u8>,
    recipient_pk: Seq<u8>,
    recipient_id: u64,
    plain: Seq<u8>,
) -> bool {
    exists|payload: Seq<u8>, now: u64|
        is_message_for(payload, plain, sender_sk, recipient_pk) && #[trigger] enqueue_outcome(
            pre,
            outgoing(id, recipient_id, payload, 1, MessageStatus::Transmitting),
            now,
            post,
            Ok(()),
        )
}

/// What a failure of the queue leaves where `plain` was encrypted for the
/// recipient and could not be put into the queue: `e` is the error that
/// enqueueing the message owes, and `post` what it leaves.
pub open spec fn send_failed(
    pre: QueueState,
    post: QueueState,
    sender_sk: Seq<u8>,
    recipient_pk: Seq<u8>,
    recipient_id: u64,
    plain: Seq<u8>,
    e: StorageError,
) -> bool {
    exists|id: Seq<u8>, payload: Seq<u8>, now: u64|
        id.len() == 16 && is_message_for(payload, plain, sender_sk, recipient_pk)
            && #[trigger] enqueue_outcome(
            pre,
            outgoing(id, recipient_id, payload, 1, MessageStatus::Transmitting),
            now,
            post,
            Err(e),
        )
}

/// Encrypts `plaintext` for the recipient and puts it into the queue, in the
/// normal lane and under a fresh identifier, which is the answer. A plaintext
/// too long to encrypt is refused and nothing changes; any other error is
/// that of putting the message into the queue.
pub fn send_now(
    queue: &mut MessageQueue,
    sender_sk: &[u8; 32],
    recipient_pk: &[u8; 32],
    recipient_id: u64,
    plaintext: &[u8],
) -> (r: Result<[u8; 16], PigeonError>)
    ensures
        match r {
            Ok(id) => sent(
                old(queue)@,
                final(queue)@,
                id@,
                sender_sk@,
                recipient_pk@,
                recipient_id,
                plaintext@,
            ),
            Err(PigeonError::Crypto(e)) => plaintext@.len() + 40 > usize::MAX && e.is_encryption(
                "plaintext too long"@,
            ) && final(queue)@ == old(queue)@,
            Err(PigeonError::Storage(e)) => send_failed(
                old(queue)@,
                final(queue)@,
                sender_sk@,
                recipient_pk@,
                recipient_id,
                plaintext@,
                e,
            ),
            Err(_) => false,
        },
{
    let ciphertext = match encrypt_message(sender_sk, recipient_pk, plaintext) {
        Ok(c) => c,
        Err(e) => {
            return Err(PigeonError::Crypto(e));
        },
    };
    let id = fresh_id();
    let ghost payload = ciphertext@;
    let message = new_outgoing(id, recipient_id, ciphertext, 1, MessageStatus::Transmitting);
    let ghost want = message@;
    let stored = queue.enqueue(message);
    match stored {
        Ok(()) => {
            proof {
                let now = choose|now: u64| #[trigger]
                    enqueue_outcome(old(queue)@, want, now, queue@, stored);
                assert(enqueue_outcome(
                    old(queue)@,
                    outgoing(id@, recipient_id, payload, 1, MessageStatus::Transmitting),
                    now,
                    queue@,
                    Ok(()),
                ));
            }
            Ok(id)
        },
        Err(e) => {
            proof {
                vstd::array::array_len_matches_n(&id);
                let now = choose|now: u64| #[trigger]
                    enqueue_outcome(old(queue)@, want, now, queue@, stored);
                assert(enqueue_outcome(
                    old(queue)@,
                    outgoing(id@, recipient_id, payload, 1, MessageStatus::Transmitting),
                    now,
                    queue@,
                    Err(e),
                ));
            }
            Err(PigeonError::Storage(e))
        },
    }
}

} // verus!
