//! Composing: a body is put into the queue as it is, a placeholder for a
//! later stage that encrypts it. What is composed is never sent as it is.

use vstd::prelude::*;
use vstd::string::StringSliceAdditionalSpecFns;
use vstd::utf8::encode_utf8;
use crate::error::PigeonError;
use crate::ids::fresh_id;
use crate::storage::queue::{enqueue_outcome, MessageQueue, QueueState};
use crate::storage::record::MessageStatus;
use super::send::{new_outgoing, outgoing, stored_as};

verus! {

/// What composing does to a queue in state `pre`: the UTF-8 bytes of `body`
/// are enqueued for `recipient_id`, pending in the normal lane, under a fresh
/// identifier, which is the answer; where the store makes that fail, the
/// answer is its error.
pub open spec fn compose_outcome(
    pre: QueueState,
    recipient_id: u64,
    body: Seq<char>,
    post: QueueState,
    r: Result<[u8; 16], PigeonError>,
) -> bool {
    exists|id: Seq<u8>, now: u64|
        {
            &&& id.len() == 16
            &&& stored_as(r, id) is Some
            &&& #[trigger] enqueue_outcome(
                pre,
                outgoing(id, recipient_id, encode_utf8(body), 1, MessageStatus::Pending),
                now,
                post,
                stored_as(r, id)->0,
            )
        }
}

/// Puts the UTF-8 bytes of `body` into the queue for `recipient_id`, pending in
/// the normal lane and under a fresh identifier, which is the answer.
pub fn compose_message(queue: &mut MessageQueue, recipient_id: u64, body: &str) -> (r: Result<
    [u8; 16],
    PigeonError,
>)
    ensures
        compose_outcome(old(queue)@, recipient_id, body@, final(queue)@, r),
{
    let plaintext = crate::bytes::copy_range(body.as_bytes(), 0, body.as_bytes().len());
    proof {
        assert(plaintext@ =~= body.spec_bytes());
    }
    let id = fresh_id();
    let message = new_outgoing(id, recipient_id, plaintext, 1, MessageStatus::Pending);
    let ghost want = message@;
    let stored = queue.enqueue(message);
    proof {
        vstd::array::array_len_matches_n(&id);
    }
    match stored {
        Ok(()) => {
            proof {
                let now = choose|now: u64| #[trigger]
                    enqueue_outcome(old(queue)@, want, now, queue@, stored);
                let r: Result<[u8; 16], PigeonError> = Ok(id);
                assert(enqueue_outcome(
                    old(queue)@,
                    outgoing(id@, recipient_id, encode_utf8(body@), 1, MessageStatus::Pending),
                    now,
                    queue@,
                    stored_as(r, id@)->0,
                ));
            }
            Ok(id)
        },
        Err(e) => {
            proof {
                let now = choose|now: u64| #[trigger]
                    enqueue_outcome(old(queue)@, want, now, queue@, stored);
                let r: Result<[u8; 16], PigeonError> = Err(PigeonError::Storage(e));
                assert(enqueue_outcome(
                    old(queue)@,
                    outgoing(id@, recipient_id, encode_utf8(body@), 1, MessageStatus::Pending),
                    now,
                    queue@,
                    stored_as(r, id@)->0,
                ));
            }
            Err(PigeonError::Storage(e))
        },
    }
}

} // verus!
