//! The receiving side: one request body comes in, and exactly one of three
//! answers goes out. An envelope is checked, its nonce is looked up in the
//! replay set, its payload is decrypted, and the plaintext goes to the inbox.

use vstd::prelude::*;
use crate::bytes::{to_array, u64_be};
use crate::clock::now_secs;
use crate::crypto::{
    box_open, box_opened, box_public_key, decrypt_message, ed25519_accepts, ed25519_signature,
    message_opened, verify_detached,
};
use crate::error::PigeonError;
use crate::ids::fresh_id;
use crate::ops::Metrics;
use super::send_loop::bumped;
use crate::storage::nonce_store::{nonce_failure, nonce_key, NonceStore};
use crate::storage::queue::{dequeue_outcome, enqueue_outcome, MessageQueue, QueueState};
use crate::storage::record::{MessageStatus, QueuedMessageView};
use crate::storage::StorageError;
use super::message::{envelope_of, envelope_wire, signing_input, EnvelopeV1, EnvelopeView};
use crate::crypto::is_cipher_for;
use super::send::{is_envelope_for, signed_envelope};

verus! {

/// The answer to a request.
#[derive(Debug, Clone, Copy, PartialEq, Eq, Structural)]
pub enum Response {
    /// Taken and stored.
    Ack,
    /// Refused.
    Nack,
    /// Seen before.
    Replay,
}

/// The bytes that stand for an answer on the wire: `ACK`, `NACK` or `REPLAY`.
pub open spec fn response_token(response: Response) -> Seq<u8> {
    match response {
        Response::Ack => seq![65u8, 67, 75],
        Response::Nack => seq![78u8, 65, 67, 75],
        Response::Replay => seq![82u8, 69, 80, 76, 65, 89],
    }
}

impl Response {
    /// The bytes that stand for this answer on the wire.
    pub fn token(&self) -> (bytes: Vec<u8>)
        ensures
            bytes@ == response_token(*self),
    {
        let mut bytes: Vec<u8> = Vec::new();
        match self {
            Response::Ack => {
                bytes.push(65);
                bytes.push(67);
                bytes.push(75);
            },
            Response::Nack => {
                bytes.push(78);
                bytes.push(65);
                bytes.push(67);
                bytes.push(75);
            },
            Response::Replay => {
                bytes.push(82);
                bytes.push(69);
                bytes.push(80);
                bytes.push(76);
                bytes.push(65);
                bytes.push(89);
            },
        }
        proof {
            assert(bytes@ =~= response_token(*self));
        }
        bytes
    }
}

/// The keys that the receiver checks and opens an envelope with.
pub struct ReceiveKeys {
    /// The receiver's secret encryption key.
    pub recipient_sk_enc: [u8; 32],
    /// The sender's public encryption key.
    pub sender_pk_enc: [u8; 32],
    /// The sender's public signing key.
    pub sender_pk_sign: [u8; 32],
}

/// Whether an envelope passes the checks that come before the replay set is
/// asked: version 1, a signature of 64 bytes, and that signature valid for
/// the envelope's fields under the sender's signing key.
pub open spec fn envelope_authentic(env: EnvelopeView, sender_pk_sign: Seq<u8>) -> bool {
    &&& env.version == 1
    &&& env.signature.len() == 64
    &&& ed25519_accepts(
        sender_pk_sign,
        signing_input(env.version, env.sender_id, env.recipient_id, env.nonce, env.payload),
        env.signature,
    )
}

/// What handling the request `body` at `now` does, and answers. `seen` and
/// `inbox` are the replay set and the inbox before, `seen_after` and
/// `inbox_after` after.
///
/// Bytes that are no envelope are stored as they are and acknowledged, unless
/// the receiver is hardened, which refuses them. An envelope that is not
/// authentic is refused and leaves no trace. An authentic one whose nonce was
/// seen is answered as a replay. Otherwise the nonce is recorded; then the
/// payload is decrypted and stored under `inbox_id` and acknowledged, or, where
/// it does not decrypt, refused.
///
/// Only the store can make this fail, and so only where it is asked: for
/// bytes that are no envelope where the receiver is not hardened, and for an
/// authentic envelope. A failure leaves the inbox as it was but for what
/// stands under `inbox_id`, and the replay set as it was but for what stands
/// under the envelope's nonce.
pub open spec fn request_outcome(
    body: Seq<u8>,
    recipient_sk_enc: Seq<u8>,
    sender_pk_enc: Seq<u8>,
    sender_pk_sign: Seq<u8>,
    hardened: bool,
    inbox_id: Seq<u8>,
    now: u64,
    seen: Map<Seq<u8>, Seq<u8>>,
    inbox: Map<Seq<u8>, Seq<u8>>,
    seen_after: Map<Seq<u8>, Seq<u8>>,
    inbox_after: Map<Seq<u8>, Seq<u8>>,
    r: Result<Response, StorageError>,
) -> bool {
    match r {
        Err(e) => e is Db && inbox_after.remove(inbox_id) == inbox.remove(inbox_id)
            && match envelope_of(body) {
            None => !hardened && seen_after == seen,
            Some(env) => {
                let key = nonce_key(env.sender_id, env.nonce);
                &&& envelope_authentic(env, sender_pk_sign)
                &&& nonce_failure(seen, key, seen_after) && inbox_after == inbox || {
                    &&& !seen.contains_key(key)
                    &&& seen_after == seen.insert(key, u64_be(now))
                    &&& box_opened(env.payload, env.nonce, sender_pk_enc, recipient_sk_enc) is Some
                }
            },
        },
        Ok(response) => match envelope_of(body) {
            None => seen_after == seen && if hardened {
                response == Response::Nack && inbox_after == inbox
            } else {
                response == Response::Ack && inbox_after == inbox.insert(inbox_id, body)
            },
            Some(env) => if !envelope_authentic(env, sender_pk_sign) {
                response == Response::Nack && seen_after == seen && inbox_after == inbox
            } else if seen.contains_key(nonce_key(env.sender_id, env.nonce)) {
                response == Response::Replay && seen_after == seen && inbox_after == inbox
            } else {
                &&& seen_after == seen.insert(nonce_key(env.sender_id, env.nonce), u64_be(now))
                &&& match box_opened(env.payload, env.nonce, sender_pk_enc, recipient_sk_enc) {
                    None => response == Response::Nack && inbox_after == inbox,
                    Some(plain) => response == Response::Ack && inbox_after == inbox.insert(
                        inbox_id,
                        plain,
                    ),
                }
            },
        },
    }
}

/// An envelope that is not authentic is refused, and leaves no trace: one of
/// another version, one whose signature is not 64 bytes long, and one whose
/// signature is not valid for its fields under the sender's signing key. The
/// answer is `Nack` whatever the store does, and neither the replay set nor
/// the inbox changes.
pub proof fn lemma_not_authentic_refused(
    body: Seq<u8>,
    recipient_sk_enc: Seq<u8>,
    sender_pk_enc: Seq<u8>,
    sender_pk_sign: Seq<u8>,
    hardened: bool,
    inbox_id: Seq<u8>,
    now: u64,
    seen: Map<Seq<u8>, Seq<u8>>,
    inbox: Map<Seq<u8>, Seq<u8>>,
    seen_after: Map<Seq<u8>, Seq<u8>>,
    inbox_after: Map<Seq<u8>, Seq<u8>>,
    r: Result<Response, StorageError>,
)
    requires
        envelope_of(body) matches Some(env) && !envelope_authentic(env, sender_pk_sign),
        request_outcome(
            body,
            recipient_sk_enc,
            sender_pk_enc,
            sender_pk_sign,
            hardened,
            inbox_id,
            now,
            seen,
            inbox,
            seen_after,
            inbox_after,
            r,
        ),
    ensures
        r == Ok::<Response, StorageError>(Response::Nack),
        seen_after == seen,
        inbox_after == inbox,
{
}

/// A hardened receiver refuses bytes that are no envelope, whatever the store
/// does, and keeps nothing of them.
pub proof fn lemma_hardened_refuses(
    body: Seq<u8>,
    recipient_sk_enc: Seq<u8>,
    sender_pk_enc: Seq<u8>,
    sender_pk_sign: Seq<u8>,
    inbox_id: Seq<u8>,
    now: u64,
    seen: Map<Seq<u8>, Seq<u8>>,
    inbox: Map<Seq<u8>, Seq<u8>>,
    seen_after: Map<Seq<u8>, Seq<u8>>,
    inbox_after: Map<Seq<u8>, Seq<u8>>,
    r: Result<Response, StorageError>,
)
    requires
        envelope_of(body) is None,
        request_outcome(
            body,
            recipient_sk_enc,
            sender_pk_enc,
            sender_pk_sign,
            true,
            inbox_id,
            now,
            seen,
            inbox,
            seen_after,
            inbox_after,
            r,
        ),
    ensures
        r == Ok::<Response, StorageError>(Response::Nack),
        seen_after == seen,
        inbox_after == inbox,
{
}

/// An envelope whose signature is not 64 bytes long is refused, and leaves no
/// trace.
pub proof fn lemma_signature_length(
    body: Seq<u8>,
    recipient_sk_enc: Seq<u8>,
    sender_pk_enc: Seq<u8>,
    sender_pk_sign: Seq<u8>,
    hardened: bool,
    inbox_id: Seq<u8>,
    now: u64,
    seen: Map<Seq<u8>, Seq<u8>>,
    inbox: Map<Seq<u8>, Seq<u8>>,
    seen_after: Map<Seq<u8>, Seq<u8>>,
    inbox_after: Map<Seq<u8>, Seq<u8>>,
    r: Result<Response, StorageError>,
)
    requires
        envelope_of(body) matches Some(env) && env.signature.len() != 64,
        request_outcome(
            body,
            recipient_sk_enc,
            sender_pk_enc,
            sender_pk_sign,
            hardened,
            inbox_id,
            now,
            seen,
            inbox,
            seen_after,
            inbox_after,
            r,
        ),
    ensures
        r == Ok::<Response, StorageError>(Response::Nack),
        seen_after == seen,
        inbox_after == inbox,
{
}

/// An envelope that was acknowledged is a replay when it comes again: the
/// second answer is `Replay`, and the inbox keeps the one record that the first
/// one made.
pub proof fn lemma_replay_rejected(
    body: Seq<u8>,
    recipient_sk_enc: Seq<u8>,
    sender_pk_enc: Seq<u8>,
    sender_pk_sign: Seq<u8>,
    hardened: bool,
    seen: Map<Seq<u8>, Seq<u8>>,
    inbox: Map<Seq<u8>, Seq<u8>>,
    id1: Seq<u8>,
    now1: u64,
    seen1: Map<Seq<u8>, Seq<u8>>,
    inbox1: Map<Seq<u8>, Seq<u8>>,
    id2: Seq<u8>,
    now2: u64,
    seen2: Map<Seq<u8>, Seq<u8>>,
    inbox2: Map<Seq<u8>, Seq<u8>>,
    second: Response,
)
    requires
        envelope_of(body) is Some,
        request_outcome(
            body,
            recipient_sk_enc,
            sender_pk_enc,
            sender_pk_sign,
            hardened,
            id1,
            now1,
            seen,
            inbox,
            seen1,
            inbox1,
            Ok(Response::Ack),
        ),
        request_outcome(
            body,
            recipient_sk_enc,
            sender_pk_enc,
            sender_pk_sign,
            hardened,
            id2,
            now2,
            seen1,
            inbox1,
            seen2,
            inbox2,
            Ok(second),
        ),
    ensures
        second == Response::Replay,
        inbox1 == inbox.insert(id1, inbox1[id1]),
        inbox2 == inbox1,
        seen2 == seen1,
{
}

/// What was sent is what arrives: an envelope that A built for B around
/// `plain`, whose signature B's receiver accepts and whose nonce it has not
/// seen, is acknowledged, and leaves exactly one new record in the inbox, which
/// is `plain`. (That the receiver accepts the signature that A made is asked
/// for here, not shown: signing and checking are done by two different
/// outside libraries.)
pub proof fn lemma_delivery(
    plain: Seq<u8>,
    nonce: Seq<u8>,
    sender_sk_enc: Seq<u8>,
    sender_sk_sign: Seq<u8>,
    recipient_sk_enc: Seq<u8>,
    sender_pk_sign: Seq<u8>,
    sender_id: u64,
    recipient_id: u64,
    body: Seq<u8>,
    hardened: bool,
    inbox_id: Seq<u8>,
    now: u64,
    seen: Map<Seq<u8>, Seq<u8>>,
    inbox: Map<Seq<u8>, Seq<u8>>,
    seen_after: Map<Seq<u8>, Seq<u8>>,
    inbox_after: Map<Seq<u8>, Seq<u8>>,
    response: Response,
)
    requires
        nonce.len() == 24,
        recipient_sk_enc.len() == 32,
        plain.len() + 16 <= u64::MAX,
        is_envelope_for(
            body,
            plain,
            nonce,
            sender_sk_enc,
            sender_sk_sign,
            box_public_key(recipient_sk_enc),
            sender_id,
            recipient_id,
        ),
        forall|cipher: Seq<u8>|
            ed25519_accepts(
                sender_pk_sign,
                signing_input(1, sender_id, recipient_id, nonce, cipher),
                #[trigger] ed25519_signature(
                    signing_input(1, sender_id, recipient_id, nonce, cipher),
                    sender_sk_sign,
                ),
            ),
        !seen.contains_key(nonce_key(sender_id, nonce)),
        request_outcome(
            body,
            recipient_sk_enc,
            box_public_key(sender_sk_enc),
            sender_pk_sign,
            hardened,
            inbox_id,
            now,
            seen,
            inbox,
            seen_after,
            inbox_after,
            Ok(response),
        ),
    ensures
        response == Response::Ack,
        inbox_after == inbox.insert(inbox_id, plain),
        seen_after == seen.insert(nonce_key(sender_id, nonce), u64_be(now)),
{
    let cipher = choose|cipher: Seq<u8>|
        is_cipher_for(cipher, plain, nonce, sender_sk_enc, box_public_key(recipient_sk_enc))
            && body == envelope_wire(
            #[trigger] signed_envelope(sender_id, recipient_id, nonce, cipher, sender_sk_sign),
        ) && signed_envelope(sender_id, recipient_id, nonce, cipher, sender_sk_sign).signature.len()
            == 64;
    let env = signed_envelope(sender_id, recipient_id, nonce, cipher, sender_sk_sign);
    assert(env.wf());
    assert(body == crate::messaging::message::envelope_wire_then(env, Seq::empty()));
    assert(crate::messaging::message::starts_with_envelope(body, env));
    crate::messaging::message::lemma_envelope_unique(body, env, envelope_of(body)->0);
    assert(envelope_of(body) == Some(env));
    assert(env.signature == ed25519_signature(
        signing_input(1, sender_id, recipient_id, nonce, cipher),
        sender_sk_sign,
    ));
    assert(envelope_authentic(env, sender_pk_sign));
    assert(box_public_key(recipient_sk_enc) == box_public_key(recipient_sk_enc));
    assert(box_opened(cipher, nonce, box_public_key(sender_sk_enc), recipient_sk_enc) == Some(
        plain,
    ));
}

/// Handles one request at `now`; a plaintext that is stored goes under
/// `inbox_id`.
pub fn handle_request_at(
    body: &[u8],
    keys: &ReceiveKeys,
    hardened: bool,
    nonces: &mut NonceStore,
    queue: &mut MessageQueue,
    inbox_id: [u8; 16],
    now: u64,
) -> (r: Result<Response, StorageError>)
    ensures
        final(queue)@ == (QueueState { inbox: final(queue)@.inbox, ..old(queue)@ }),
        request_outcome(
            body@,
            keys.recipient_sk_enc@,
            keys.sender_pk_enc@,
            keys.sender_pk_sign@,
            hardened,
            inbox_id@,
            now,
            old(nonces)@,
            old(queue)@.inbox,
            final(nonces)@,
            final(queue)@.inbox,
            r,
        ),
{
    let env = match EnvelopeV1::decode(body) {
        Some(env) => env,
        None => {
            if hardened {
                return Ok(Response::Nack);
            }
            let plain = crate::bytes::copy_range(body, 0, body.len());
            proof {
                assert(plain@ =~= body@);
            }
            return match queue.store_inbox(inbox_id, plain) {
                Ok(()) => Ok(Response::Ack),
                Err(e) => Err(e),
            };
        },
    };
    if env.version != 1 || env.signature.len() != 64 {
        return Ok(Response::Nack);
    }
    let to_verify = env.to_sign();
    let signature: [u8; 64] = to_array::<64>(env.signature.as_slice());
    if !verify_detached(&keys.sender_pk_sign, to_verify.as_slice(), &signature) {
        return Ok(Response::Nack);
    }
    match nonces.insert_if_fresh_at(env.sender_id, env.nonce.as_slice(), now) {
        Ok(true) => {},
        Ok(false) => {
            return Ok(Response::Replay);
        },
        Err(e) => {
            return Err(e);
        },
    }
    match box_open(
        env.payload.as_slice(),
        &env.nonce,
        &keys.sender_pk_enc,
        &keys.recipient_sk_enc,
    ) {
        None => Ok(Response::Nack),
        Some(plain) => match queue.store_inbox(inbox_id, plain) {
            Ok(()) => Ok(Response::Ack),
            Err(e) => Err(e),
        },
    }
}

/// The answer that goes out for a request: what handling it gave, and a
/// refusal where the store failed.
pub open spec fn answer_for(outcome: Result<Response, StorageError>) -> Response {
    match outcome {
        Ok(response) => response,
        Err(_) => Response::Nack,
    }
}

/// The answer that goes out for a request: what handling it gave, and a
/// refusal where the store failed.
pub fn answer_to(outcome: &Result<Response, StorageError>) -> (response: Response)
    ensures
        response == answer_for(*outcome),
{
    match outcome {
        Ok(response) => *response,
        Err(_) => Response::Nack,
    }
}

/// The counters after a request was handled: one that was acknowledged counts
/// as received, and nothing else counts.
pub open spec fn counted_request(m: Metrics, outcome: Result<Response, StorageError>) -> Metrics {
    if outcome == Ok::<Response, StorageError>(Response::Ack) {
        Metrics { received_messages: bumped(m.received_messages), ..m }
    } else {
        m
    }
}

/// Counts a request that was handled.
pub fn count_request(metrics: &mut Metrics, outcome: &Result<Response, StorageError>)
    ensures
        *final(metrics) == counted_request(*old(metrics), *outcome),
{
    match outcome {
        Ok(Response::Ack) => {
            metrics.received_messages = metrics.received_messages.saturating_add(1);
        },
        _ => {},
    }
}

/// Handles one request now; a plaintext that is stored goes under a fresh
/// identifier.
pub fn handle_request(
    body: &[u8],
    keys: &ReceiveKeys,
    hardened: bool,
    nonces: &mut NonceStore,
    queue: &mut MessageQueue,
) -> (r: Result<Response, StorageError>)
    ensures
        final(queue)@ == (QueueState { inbox: final(queue)@.inbox, ..old(queue)@ }),
        exists|inbox_id: Seq<u8>, now: u64|
            inbox_id.len() == 16 && #[trigger] request_outcome(
                body@,
                keys.recipient_sk_enc@,
                keys.sender_pk_enc@,
                keys.sender_pk_sign@,
                hardened,
                inbox_id,
                now,
                old(nonces)@,
                old(queue)@.inbox,
                final(nonces)@,
                final(queue)@.inbox,
                r,
            ),
{
    let inbox_id = fresh_id();
    let now = now_secs();
    proof {
        vstd::array::array_len_matches_n(&inbox_id);
    }
    handle_request_at(body, keys, hardened, nonces, queue, inbox_id, now)
}

/// What a failure of the store leaves of a queue in state `pre` where it
/// comes after a message was taken out and decrypted: the plaintext could not
/// be kept, and the inbox is as it was but for what stands under the
/// message's identifier; or it was kept, and putting the message back as
/// delivered failed, with the error that enqueueing owes.
pub open spec fn receipt_interrupted(
    pre: QueueState,
    sender_pk: Seq<u8>,
    receiver_sk: Seq<u8>,
    now: u64,
    post: QueueState,
    e: StorageError,
) -> bool {
    exists|m: QueuedMessageView, mid: QueueState|
        {
            &&& #[trigger] dequeue_outcome(pre, now, mid, Ok(Some(m)))
            &&& message_opened(m.payload, sender_pk, receiver_sk) is Some
            &&& {
                ||| {
                    &&& e is Db
                    &&& post == (QueueState { inbox: post.inbox, ..mid })
                    &&& post.inbox.remove(m.id) == mid.inbox.remove(m.id)
                }
                ||| enqueue_outcome(
                    QueueState {
                        inbox: mid.inbox.insert(
                            m.id,
                            message_opened(m.payload, sender_pk, receiver_sk)->0,
                        ),
                        ..mid
                    },
                    QueuedMessageView { status: MessageStatus::Delivered(now), ..m },
                    now,
                    post,
                    Err(e),
                )
            }
        }
}

/// What receiving locally at `now` does to a queue in state `pre`. The next
/// due message is taken out; its payload is decrypted with the sender's public
/// key and the receiver's secret key; the plaintext is kept in the inbox under
/// the message's identifier; and the message is put back as delivered at
/// `now`. With nothing due nothing more happens, and the answer is `false`. A
/// payload that does not decrypt is a crypto error, and the message is then out
/// of the queue. A storage error is that of taking the message out, or that
/// of keeping the plaintext or of putting the message back once it was taken
/// out and decrypted.
pub open spec fn local_receipt(
    pre: QueueState,
    sender_pk: Seq<u8>,
    receiver_sk: Seq<u8>,
    now: u64,
    post: QueueState,
    r: Result<bool, PigeonError>,
) -> bool {
    match r {
        Ok(false) => dequeue_outcome(pre, now, post, Ok(None)),
        Ok(true) => exists|m: QueuedMessageView, mid: QueueState|
            {
                &&& #[trigger] dequeue_outcome(pre, now, mid, Ok(Some(m)))
                &&& message_opened(m.payload, sender_pk, receiver_sk) is Some
                &&& enqueue_outcome(
                    QueueState {
                        inbox: mid.inbox.insert(
                            m.id,
                            message_opened(m.payload, sender_pk, receiver_sk)->0,
                        ),
                        ..mid
                    },
                    QueuedMessageView { status: MessageStatus::Delivered(now), ..m },
                    now,
                    post,
                    Ok(()),
                )
            },
        Err(PigeonError::Crypto(e)) => exists|m: QueuedMessageView| #[trigger]
            dequeue_outcome(pre, now, post, Ok(Some(m))) && message_opened(
                m.payload,
                sender_pk,
                receiver_sk,
            ) is None,
        Err(PigeonError::Storage(e)) => dequeue_outcome(pre, now, post, Err(e))
            || receipt_interrupted(pre, sender_pk, receiver_sk, now, post, e),
        Err(_) => false,
    }
}

/// Receives locally at `now`, and says whether there was a message.
pub fn receive_and_ack_at(
    queue: &mut MessageQueue,
    sender_pk: &[u8; 32],
    receiver_sk: &[u8; 32],
    now: u64,
) -> (r: Result<bool, PigeonError>)
    ensures
        local_receipt(old(queue)@, sender_pk@, receiver_sk@, now, final(queue)@, r),
{
    let message = match queue.dequeue_at(now) {
        Ok(Some(m)) => m,
        Ok(None) => {
            return Ok(false);
        },
        Err(e) => {
            return Err(PigeonError::Storage(e));
        },
    };
    let ghost m = message@;
    let ghost mid = queue@;
    let plaintext = match decrypt_message(message.payload.as_slice(), sender_pk, receiver_sk) {
        Ok(p) => p,
        Err(e) => {
            proof {
                assert(dequeue_outcome(old(queue)@, now, queue@, Ok(Some(m))));
            }
            return Err(PigeonError::Crypto(e));
        },
    };
    match queue.store_inbox(message.id, plaintext) {
        Ok(()) => {},
        Err(e) => {
            proof {
                assert(dequeue_outcome(old(queue)@, now, mid, Ok(Some(m))));
                assert(receipt_interrupted(old(queue)@, sender_pk@, receiver_sk@, now, queue@, e));
            }
            return Err(PigeonError::Storage(e));
        },
    }
    let mut delivered = message;
    delivered.status = MessageStatus::Delivered(now);
    match queue.enqueue_at(delivered, now) {
        Ok(()) => {
            proof {
                assert(dequeue_outcome(old(queue)@, now, mid, Ok(Some(m))));
            }
            Ok(true)
        },
        Err(e) => {
            proof {
                assert(dequeue_outcome(old(queue)@, now, mid, Ok(Some(m))));
                assert(receipt_interrupted(old(queue)@, sender_pk@, receiver_sk@, now, queue@, e));
            }
            Err(PigeonError::Storage(e))
        },
    }
}

/// The answer of `receive_and_ack_at` that stands behind an answer of
/// `receive_and_ack`.
pub open spec fn receipt_result(r: Result<(), PigeonError>, received: bool) -> Result<
    bool,
    PigeonError,
> {
    match r {
        Ok(()) => Ok(received),
        Err(e) => Err(e),
    }
}

/// Receives locally, now.
pub fn receive_and_ack(queue: &mut MessageQueue, sender_pk: &[u8; 32], receiver_sk: &[u8; 32]) -> (r:
    Result<(), PigeonError>)
    ensures
        exists|now: u64, received: bool| #[trigger]
            local_receipt(
                old(queue)@,
                sender_pk@,
                receiver_sk@,
                now,
                final(queue)@,
                receipt_result(r, received),
            ),
{
    let now = now_secs();
    match receive_and_ack_at(queue, sender_pk, receiver_sk, now) {
        Ok(received) => {
            proof {
                assert(receipt_result(Ok(()), received) == Ok::<bool, PigeonError>(received));
            }
            Ok(())
        },
        Err(e) => {
            proof {
                assert(receipt_result(Err(e), true) == Err::<bool, PigeonError>(e));
            }
            Err(e)
        },
    }
}

} // verus!
