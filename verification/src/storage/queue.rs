//! The persistent outbound queue. Pending messages are kept sealed under
//! their identifier; each has one entry in one of two lanes, keyed by the time
//! from which it may be sent and its identifier, so that a lane's first entry
//! is the message to send next. Beside the pending store the queue keeps the
//! inbox of received plaintexts and the sink for messages that were given up.

use vstd::prelude::*;
use crate::bytes::{be_value, get_be, lex_lt, put_bytes, to_array, u64_be, u64_to_be};
use crate::clock::now_secs;
use super::at_rest::{decrypt, encrypt, is_sealing_of, unsealed, AtRestKey};
use super::backoff::{compute_next_attempt, next_attempt};
use super::kv::{
    open_db, open_tree, pairs_of, sorted_listing, tree_entries, tree_first, tree_flush, tree_get,
    tree_insert, tree_remove, tree_scan,
};
use super::lanes::{budget_after, choose_first_lane, first_lane, spend};
use super::record::{
    dead_letter_of, dead_letter_wire, message_of, message_wire, DeadLetterRecord, DeadLetterView,
    MessageStatus, QueuedMessage, QueuedMessageView,
};
use super::StorageError;

verus! {

/// High-lane messages sent for each normal-lane message, unless set otherwise.
pub const DEFAULT_HIGH_RATIO: u8 = 3;

/// Everything the queue holds, as mathematical values. The five maps are what
/// the five trees on disk hold, byte string by byte string.
pub struct QueueState {
    /// Identifier to sealed record.
    pub messages: Map<Seq<u8>, Seq<u8>>,
    /// The high lane: index key to identifier.
    pub lane0: Map<Seq<u8>, Seq<u8>>,
    /// The normal lane: index key to identifier.
    pub lane1: Map<Seq<u8>, Seq<u8>>,
    /// Identifier to received plaintext.
    pub inbox: Map<Seq<u8>, Seq<u8>>,
    /// Identifier to dead-letter record.
    pub dead_letters: Map<Seq<u8>, Seq<u8>>,
    /// The at-rest key.
    pub key: Seq<u8>,
    /// High-lane messages sent for each normal-lane message.
    pub ratio: u8,
    /// High-lane messages that may still go before the next normal one.
    pub high_budget: u8,
}

/// The key of a lane entry: the time from which the message may be sent, as
/// eight big-endian bytes, then the identifier.
pub open spec fn index_key(next_attempt_at: u64, id: Seq<u8>) -> Seq<u8> {
    u64_be(next_attempt_at) + id
}

/// Whether an entry with this key may be sent at `now`. A key too short to
/// hold a time counts as due.
pub open spec fn key_due(key: Seq<u8>, now: u64) -> bool {
    key.len() < 8 || be_value(key.take(8)) <= now
}

/// The lane that a priority stands for: 0 is the high lane, anything else the
/// normal lane.
pub open spec fn lane_of(priority: u8) -> u8 {
    if priority == 0 {
        0
    } else {
        1
    }
}

/// The message that a sealed record holds under `key`, if it opens and holds
/// one.
pub open spec fn stored_record(sealed: Seq<u8>, key: Seq<u8>) -> Option<QueuedMessageView> {
    match unsealed(sealed, key) {
        Some(plain) => message_of(plain),
        None => None,
    }
}

/// `e` is the error owed for a sealed record that does not give a message.
pub open spec fn record_failure(sealed: Seq<u8>, key: Seq<u8>, e: StorageError) -> bool {
    match unsealed(sealed, key) {
        None => if sealed.len() < 40 {
            e.is_crypto("ciphertext too short"@)
        } else {
            e.is_crypto("decryption failed"@)
        },
        Some(plain) => message_of(plain) is None && e.is_serialization("invalid queued message"@),
    }
}

/// `key` is in `before` and no longer in `after`.
pub open spec fn taken(before: Map<Seq<u8>, Seq<u8>>, after: Map<Seq<u8>, Seq<u8>>, key: Seq<u8>) -> bool {
    before.contains_key(key) && !after.contains_key(key)
}

/// `key` is the first key of `lane`: it comes before every other one.
pub open spec fn is_first(lane: Map<Seq<u8>, Seq<u8>>, key: Seq<u8>) -> bool {
    lane.contains_key(key) && forall|other: Seq<u8>|
        lane.contains_key(other) && other != key ==> lex_lt(key, other)
}

/// `after` is `before` without some of its first entries, all of them due.
pub open spec fn shrunk_from_below(
    before: Map<Seq<u8>, Seq<u8>>,
    after: Map<Seq<u8>, Seq<u8>>,
    now: u64,
) -> bool {
    &&& forall|k: Seq<u8>| #[trigger]
        after.contains_key(k) ==> before.contains_key(k) && after[k] == before[k]
    &&& forall|k: Seq<u8>, k2: Seq<u8>|
        taken(before, after, k) && #[trigger] after.contains_key(k2) ==> #[trigger] lex_lt(k, k2)
    &&& forall|k: Seq<u8>| #[trigger] taken(before, after, k) ==> key_due(k, now)
}

/// What taking the next due message out of one lane does. `lane` and
/// `messages` are the lane and the pending store before, `lane_after` and
/// `messages_after` after.
///
/// Entries leave the lane from its first entry on, and only due ones. An entry
/// without a record is dropped and the next one looked at. The first due entry
/// with a record gives the message: its record and its entry are taken out.
/// Nothing comes back where the lane runs empty or its first entry is not due.
pub open spec fn lane_dequeued(
    lane: Map<Seq<u8>, Seq<u8>>,
    messages: Map<Seq<u8>, Seq<u8>>,
    key: Seq<u8>,
    now: u64,
    lane_after: Map<Seq<u8>, Seq<u8>>,
    messages_after: Map<Seq<u8>, Seq<u8>>,
    out: Option<QueuedMessageView>,
) -> bool {
    &&& shrunk_from_below(lane, lane_after, now)
    &&& match out {
        None => {
            &&& messages_after == messages
            &&& forall|k: Seq<u8>| #[trigger]
                taken(lane, lane_after, k) ==> !messages.contains_key(lane[k])
            &&& forall|k: Seq<u8>| #[trigger] is_first(lane_after, k) ==> !key_due(k, now)
        },
        Some(m) => exists|k: Seq<u8>|
            {
                &&& #[trigger] taken(lane, lane_after, k)
                &&& messages.contains_key(lane[k])
                &&& stored_record(messages[lane[k]], key) == Some(m)
                &&& messages_after == messages.remove(lane[k])
                &&& forall|k2: Seq<u8>|
                    #[trigger] taken(lane, lane_after, k2) && k2 != k ==> lex_lt(k2, k)
                        && !messages.contains_key(lane[k2])
            },
    }
}

/// What a failed attempt to take a message out of a lane leaves: the store
/// failed, or the first due entry with a record has a record that does not
/// give a message, and is still there.
pub open spec fn lane_dequeue_failed(
    lane: Map<Seq<u8>, Seq<u8>>,
    messages: Map<Seq<u8>, Seq<u8>>,
    key: Seq<u8>,
    now: u64,
    lane_after: Map<Seq<u8>, Seq<u8>>,
    messages_after: Map<Seq<u8>, Seq<u8>>,
    e: StorageError,
) -> bool {
    e is Db || {
        &&& shrunk_from_below(lane, lane_after, now)
        &&& messages_after == messages
        &&& forall|k: Seq<u8>| #[trigger]
            taken(lane, lane_after, k) ==> !messages.contains_key(lane[k])
        &&& exists|k: Seq<u8>|
            {
                &&& #[trigger] is_first(lane_after, k)
                &&& key_due(k, now)
                &&& messages.contains_key(lane[k])
                &&& record_failure(messages[lane[k]], key, e)
            }
    }
}

/// The message with the times that the queue fills in and the priority as the
/// lane it stands for: a creation time of 0 becomes `now`, and a time of next
/// attempt of 0 becomes the creation time.
pub open spec fn normalized(m: QueuedMessageView, now: u64) -> QueuedMessageView {
    let created = if m.created == 0 {
        now
    } else {
        m.created
    };
    QueuedMessageView {
        created,
        next_attempt_at: if m.next_attempt_at == 0 {
            created
        } else {
            m.next_attempt_at
        },
        priority: lane_of(m.priority),
        ..m
    }
}

impl QueueState {
    /// Lane 0 is the high lane, every other number the normal lane.
    pub open spec fn lane(self, p: u8) -> Map<Seq<u8>, Seq<u8>> {
        if p == 0 {
            self.lane0
        } else {
            self.lane1
        }
    }

    /// This state with another lane `p`.
    pub open spec fn with_lane(self, p: u8, lane: Map<Seq<u8>, Seq<u8>>) -> QueueState {
        if p == 0 {
            QueueState { lane0: lane, ..self }
        } else {
            QueueState { lane1: lane, ..self }
        }
    }

    /// The pending message under `id`, if there is a record that gives one.
    pub open spec fn record(self, id: Seq<u8>) -> Option<QueuedMessageView> {
        if self.messages.contains_key(id) {
            stored_record(self.messages[id], self.key)
        } else {
            None
        }
    }

    /// This state without the lane entry of the pending message under `id`.
    pub open spec fn without_entry_of(self, id: Seq<u8>) -> QueueState {
        match self.record(id) {
            Some(m) => self.with_lane(
                lane_of(m.priority),
                self.lane(lane_of(m.priority)).remove(index_key(m.next_attempt_at, id)),
            ),
            None => self,
        }
    }

    /// This state after `m` was enqueued as the sealed record `sealed`: an
    /// earlier entry of the same message is gone from its lane, the record
    /// stands under the identifier, and the lane that the priority stands for
    /// has the message's entry.
    pub open spec fn enqueued(self, m: QueuedMessageView, sealed: Seq<u8>) -> QueueState {
        let cleared = self.without_entry_of(m.id);
        let p = lane_of(m.priority);
        (QueueState { messages: cleared.messages.insert(m.id, sealed), ..cleared }).with_lane(
            p,
            cleared.lane(p).insert(index_key(m.next_attempt_at, m.id), m.id),
        )
    }

    /// Every lane entry belongs to a pending message, and stands in the lane
    /// and under the key that the message's record gives.
    pub open spec fn entries_backed(self) -> bool {
        forall|p: u8, k: Seq<u8>| #[trigger]
            self.lane(p).contains_key(k) && p <= 1 ==> {
                let id = self.lane(p)[k];
                &&& self.record(id) is Some
                &&& self.record(id)->0.id == id
                &&& lane_of(self.record(id)->0.priority) == p
                &&& index_key(self.record(id)->0.next_attempt_at, id) == k
            }
    }

    /// Every pending record gives a message with the identifier that it stands
    /// under, and that message has its entry.
    pub open spec fn records_indexed(self) -> bool {
        forall|id: Seq<u8>| #[trigger]
            self.messages.contains_key(id) ==> {
                &&& self.record(id) is Some
                &&& self.record(id)->0.id == id
                &&& self.lane(lane_of(self.record(id)->0.priority)).contains_key(
                    index_key(self.record(id)->0.next_attempt_at, id),
                )
                &&& self.lane(lane_of(self.record(id)->0.priority))[index_key(
                    self.record(id)->0.next_attempt_at,
                    id,
                )] == id
            }
    }

    /// The pending store and the two lanes fit together: each pending message
    /// has exactly one lane entry, and there are no other entries.
    pub open spec fn consistent(self) -> bool {
        self.entries_backed() && self.records_indexed()
    }
}

/// What enqueueing `message` at `now` does to a queue in state `pre`.
pub open spec fn enqueue_outcome(
    pre: QueueState,
    message: QueuedMessageView,
    now: u64,
    post: QueueState,
    r: Result<(), StorageError>,
) -> bool {
    let m = normalized(message, now);
    match r {
        Ok(()) => {
            &&& post.messages.contains_key(m.id)
            &&& is_sealing_of(post.messages[m.id], pre.key, message_wire(m))
            &&& post == pre.enqueued(m, post.messages[m.id])
        },
        Err(e) => {
            &&& post.inbox == pre.inbox
            &&& post.dead_letters == pre.dead_letters
            &&& post.key == pre.key
            &&& post.ratio == pre.ratio
            &&& post.high_budget == pre.high_budget
            &&& if message_wire(m).len() + 40 > usize::MAX {
                e.is_crypto("plaintext too long"@) && post == pre
            } else {
                e is Db
            }
        },
    }
}

/// What taking the next due message out of the queue at `now` does to a queue
/// in state `pre`. The lane that the budget points at is asked first. A
/// message from it changes the budget; if it has none due the other lane is
/// asked, and the budget stays.
pub open spec fn dequeue_outcome(
    pre: QueueState,
    now: u64,
    post: QueueState,
    r: Result<Option<QueuedMessageView>, StorageError>,
) -> bool {
    let first = first_lane(pre.high_budget);
    let second = (1 - first) as u8;
    let first_gave_nothing = lane_dequeued(
        pre.lane(first),
        pre.messages,
        pre.key,
        now,
        post.lane(first),
        pre.messages,
        None,
    );
    &&& post.inbox == pre.inbox
    &&& post.dead_letters == pre.dead_letters
    &&& post.key == pre.key
    &&& post.ratio == pre.ratio
    &&& match r {
        Ok(Some(m)) => {
            ||| {
                &&& lane_dequeued(
                    pre.lane(first),
                    pre.messages,
                    pre.key,
                    now,
                    post.lane(first),
                    post.messages,
                    Some(m),
                )
                &&& post.lane(second) == pre.lane(second)
                &&& post.high_budget == budget_after(pre.ratio, pre.high_budget, first)
            }
            ||| {
                &&& first_gave_nothing
                &&& lane_dequeued(
                    pre.lane(second),
                    pre.messages,
                    pre.key,
                    now,
                    post.lane(second),
                    post.messages,
                    Some(m),
                )
                &&& post.high_budget == pre.high_budget
            }
        },
        Ok(None) => {
            &&& first_gave_nothing
            &&& lane_dequeued(
                pre.lane(second),
                pre.messages,
                pre.key,
                now,
                post.lane(second),
                post.messages,
                None,
            )
            &&& post.high_budget == pre.high_budget
        },
        Err(e) => {
            &&& post.high_budget == pre.high_budget
            &&& {
                ||| {
                    &&& lane_dequeue_failed(
                        pre.lane(first),
                        pre.messages,
                        pre.key,
                        now,
                        post.lane(first),
                        post.messages,
                        e,
                    )
                    &&& post.lane(second) == pre.lane(second)
                }
                ||| {
                    &&& first_gave_nothing
                    &&& lane_dequeue_failed(
                        pre.lane(second),
                        pre.messages,
                        pre.key,
                        now,
                        post.lane(second),
                        post.messages,
                        e,
                    )
                }
            }
        },
    }
}

/// What an attempt to take a message out gave, as mathematical values.
pub open spec fn outcome_view(r: Result<Option<QueuedMessage>, StorageError>) -> Result<
    Option<QueuedMessageView>,
    StorageError,
> {
    match r {
        Ok(Some(m)) => Ok(Some(m@)),
        Ok(None) => Ok(None),
        Err(e) => Err(e),
    }
}

/// What taking the next due message out of lane `p` at `now` does to a queue
/// in state `pre`.
pub open spec fn lane_dequeue_outcome(
    pre: QueueState,
    p: u8,
    now: u64,
    post: QueueState,
    r: Result<Option<QueuedMessageView>, StorageError>,
) -> bool {
    &&& post == (QueueState { messages: post.messages, ..pre.with_lane(p, post.lane(p)) })
    &&& match r {
        Ok(out) => lane_dequeued(
            pre.lane(p),
            pre.messages,
            pre.key,
            now,
            post.lane(p),
            post.messages,
            out,
        ),
        Err(e) => lane_dequeue_failed(
            pre.lane(p),
            pre.messages,
            pre.key,
            now,
            post.lane(p),
            post.messages,
            e,
        ),
    }
}

/// The message as it is put back after one more failed attempt at `now`: one
/// more retry counted, the next attempt put off by the backoff, and pending
/// again.
pub open spec fn after_failure(m: QueuedMessageView, base: u64, now: u64) -> QueuedMessageView {
    let retries = if m.retry_count == u32::MAX {
        u32::MAX
    } else {
        (m.retry_count + 1) as u32
    };
    QueuedMessageView {
        retry_count: retries,
        next_attempt_at: next_attempt(now, base, retries),
        status: MessageStatus::Pending,
        ..m
    }
}

/// The record that the dead-letter sink keeps of a message given up at `now`
/// for the reason `reason`.
pub open spec fn dead_letter_for(m: QueuedMessageView, reason: Seq<char>, now: u64) -> DeadLetterView {
    DeadLetterView {
        id: m.id,
        contact_id: m.contact_id,
        payload: m.payload,
        failed_at: now,
        attempts: m.retry_count,
        last_error: reason,
    }
}

/// What giving a message up does to a queue in state `pre`: the record goes
/// to the sink, and the message leaves the pending store and its lane.
pub open spec fn dead_lettered(pre: QueueState, record: DeadLetterView) -> QueueState {
    let cleared = pre.without_entry_of(record.id);
    QueueState {
        messages: cleared.messages.remove(record.id),
        dead_letters: cleared.dead_letters.insert(record.id, dead_letter_wire(record)),
        ..cleared
    }
}

/// What giving `message` up at `now` gives.
pub open spec fn dead_letter_outcome(
    pre: QueueState,
    message: QueuedMessageView,
    reason: Seq<char>,
    now: u64,
    post: QueueState,
    r: Result<(), StorageError>,
) -> bool {
    match r {
        Ok(()) => post == dead_lettered(pre, dead_letter_for(message, reason, now)),
        Err(e) => e is Db && post.inbox == pre.inbox && post.key == pre.key && post.ratio
            == pre.ratio && post.high_budget == pre.high_budget,
    }
}

/// What handling a failed attempt at `now` gives: a message that has used up
/// its retries is given up, and the answer is `false`; any other is put back
/// with its backoff, and the answer is `true`.
pub open spec fn requeue_or_dead_letter_outcome(
    pre: QueueState,
    message: QueuedMessageView,
    base: u64,
    reason: Seq<char>,
    now: u64,
    post: QueueState,
    r: Result<bool, StorageError>,
) -> bool {
    if message.retry_count >= message.max_retries {
        match r {
            Ok(requeued) => !requeued && dead_letter_outcome(
                pre,
                message,
                reason,
                now,
                post,
                Ok(()),
            ),
            Err(e) => dead_letter_outcome(pre, message, reason, now, post, Err(e)),
        }
    } else {
        match r {
            Ok(requeued) => requeued && enqueue_outcome(
                pre,
                after_failure(message, base, now),
                now,
                post,
                Ok(()),
            ),
            Err(e) => enqueue_outcome(pre, after_failure(message, base, now), now, post, Err(e)),
        }
    }
}

/// What setting the status of the pending message under `id` gives. Where
/// there is no record under `id` nothing changes. A record that does not give
/// a message is an error, and nothing changes.
pub open spec fn update_status_outcome(
    pre: QueueState,
    id: Seq<u8>,
    status: MessageStatus,
    post: QueueState,
    r: Result<(), StorageError>,
) -> bool {
    match r {
        Ok(()) => if pre.messages.contains_key(id) {
            &&& pre.record(id) is Some
            &&& post.messages.contains_key(id)
            &&& is_sealing_of(
                post.messages[id],
                pre.key,
                message_wire(QueuedMessageView { status, ..pre.record(id)->0 }),
            )
            &&& post == (QueueState {
                messages: pre.messages.insert(id, post.messages[id]),
                ..pre
            })
        } else {
            post == pre
        },
        Err(e) => {
            &&& post.lane0 == pre.lane0
            &&& post.lane1 == pre.lane1
            &&& post.inbox == pre.inbox
            &&& post.dead_letters == pre.dead_letters
            &&& post.key == pre.key
            &&& post.ratio == pre.ratio
            &&& post.high_budget == pre.high_budget
            &&& (e is Db || (post == pre && pre.messages.contains_key(id) && (record_failure(
                pre.messages[id],
                pre.key,
                e,
            ) || (pre.record(id) is Some && e.is_crypto("plaintext too long"@)))))
        },
    }
}

/// The pending messages among the records in `pairs`, in their order: those
/// whose record gives a message with status `Pending`.
pub open spec fn pending_in(pairs: Seq<(Seq<u8>, Seq<u8>)>, key: Seq<u8>) -> Seq<QueuedMessageView>
    decreases pairs.len(),
{
    if pairs.len() == 0 {
        Seq::empty()
    } else {
        let before = pending_in(pairs.drop_last(), key);
        match stored_record(pairs.last().1, key) {
            Some(m) => if m.status == MessageStatus::Pending {
                before.push(m)
            } else {
                before
            },
            None => before,
        }
    }
}

/// Every message among the pending ones has status `Pending`.
pub proof fn lemma_pending_in(pairs: Seq<(Seq<u8>, Seq<u8>)>, key: Seq<u8>)
    ensures
        pending_in(pairs, key).len() <= pairs.len(),
        forall|i: int|
            0 <= i < pending_in(pairs, key).len() ==> (#[trigger] pending_in(pairs, key)[i]).status
                == MessageStatus::Pending,
    decreases pairs.len(),
{
    if pairs.len() > 0 {
        lemma_pending_in(pairs.drop_last(), key);
        let before = pending_in(pairs.drop_last(), key);
        assert forall|i: int| 0 <= i < pending_in(pairs, key).len() implies (#[trigger] pending_in(
            pairs,
            key,
        )[i]).status == MessageStatus::Pending by {
            if i < before.len() {
                assert(pending_in(pairs, key)[i] == before[i]);
            }
        }
    }
}

/// The messages in a list, as mathematical values.
pub open spec fn message_views(list: Seq<QueuedMessage>) -> Seq<QueuedMessageView> {
    Seq::new(list.len(), |i: int| list[i]@)
}

/// The identifiers and plaintexts in a list, as mathematical values.
pub open spec fn inbox_views(list: Seq<([u8; 16], Vec<u8>)>) -> Seq<(Seq<u8>, Seq<u8>)> {
    Seq::new(list.len(), |i: int| (list[i].0@, list[i].1@))
}

/// `list` holds what the records in `pairs` give, one by one.
pub open spec fn dead_letters_of(pairs: Seq<(Seq<u8>, Seq<u8>)>, list: Seq<DeadLetterRecord>) -> bool {
    list.len() == pairs.len() && forall|i: int|
        0 <= i < list.len() ==> dead_letter_of(pairs[i].1) == Some(#[trigger] list[i]@)
}

/// `list` holds what the records in the dead-letter sink give, by ascending
/// identifier.
pub open spec fn lists_dead_letters(list: Seq<DeadLetterRecord>, sink: Map<Seq<u8>, Seq<u8>>) -> bool {
    exists|pairs: Seq<(Seq<u8>, Seq<u8>)>|
        sorted_listing(pairs, sink) && #[trigger] dead_letters_of(pairs, list)
}

/// `list` holds the pending messages of the pending store, by ascending
/// identifier.
pub open spec fn lists_pending(
    list: Seq<QueuedMessage>,
    messages: Map<Seq<u8>, Seq<u8>>,
    key: Seq<u8>,
) -> bool {
    exists|pairs: Seq<(Seq<u8>, Seq<u8>)>|
        sorted_listing(pairs, messages) && message_views(list) == #[trigger] pending_in(pairs, key)
}

/// `e` is the error owed for an inbox that cannot be listed: the store
/// failed, or a key of the inbox is no identifier of 16 bytes.
pub open spec fn inbox_list_failure(inbox: Map<Seq<u8>, Seq<u8>>, e: StorageError) -> bool {
    e is Db || (e.is_serialization("invalid inbox key"@) && exists|k: Seq<u8>| #[trigger]
        inbox.contains_key(k) && k.len() != 16)
}

/// What listing the inbox gives: everything in it, by ascending identifier.
pub open spec fn inbox_list_outcome(
    inbox: Map<Seq<u8>, Seq<u8>>,
    r: Result<Vec<([u8; 16], Vec<u8>)>, StorageError>,
) -> bool {
    match r {
        Ok(list) => sorted_listing(inbox_views(list@), inbox),
        Err(e) => inbox_list_failure(inbox, e),
    }
}

/// What looking up an identifier in the inbox gives: the plaintext under it,
/// or nothing where there is none.
pub open spec fn inbox_get_outcome(
    inbox: Map<Seq<u8>, Seq<u8>>,
    id: Seq<u8>,
    r: Result<Option<Vec<u8>>, StorageError>,
) -> bool {
    match r {
        Ok(Some(plaintext)) => inbox.contains_key(id) && inbox[id] == plaintext@,
        Ok(None) => !inbox.contains_key(id),
        Err(e) => e is Db,
    }
}

/// What listing the dead-letter sink gives: what its records give, by
/// ascending identifier, or an error where a record gives nothing.
pub open spec fn dead_letter_list_outcome(
    sink: Map<Seq<u8>, Seq<u8>>,
    r: Result<Vec<DeadLetterRecord>, StorageError>,
) -> bool {
    match r {
        Ok(list) => lists_dead_letters(list@, sink),
        Err(e) => e is Db || (e.is_serialization("invalid dead-letter record"@) && exists|
            k: Seq<u8>,
        | #[trigger] sink.contains_key(k) && dead_letter_of(sink[k]) is None),
    }
}

/// What listing the pending messages gives: those of the pending store whose
/// record gives a message with status `Pending`, by ascending identifier.
pub open spec fn pending_list_outcome(
    messages: Map<Seq<u8>, Seq<u8>>,
    key: Seq<u8>,
    r: Result<Vec<QueuedMessage>, StorageError>,
) -> bool {
    match r {
        Ok(list) => lists_pending(list@, messages, key) && forall|i: int|
            0 <= i < list@.len() ==> (#[trigger] list@[i]).status == MessageStatus::Pending,
        Err(e) => e is Db,
    }
}

/// How many messages are waiting in a queue: what both lanes hold together,
/// or the largest number there is where that does not fit.
pub open spec fn waiting(q: QueueState) -> int {
    if q.lane0.len() + q.lane1.len() > usize::MAX {
        usize::MAX as int
    } else {
        (q.lane0.len() + q.lane1.len()) as int
    }
}

/// A listing of a tree has as many pairs as the tree holds, and the tree
/// holds finitely many.
pub proof fn lemma_listing_len(pairs: Seq<(Seq<u8>, Seq<u8>)>, entries: Map<Seq<u8>, Seq<u8>>)
    requires
        sorted_listing(pairs, entries),
    ensures
        entries.dom().finite(),
        entries.len() == pairs.len(),
{
    let keys = Seq::new(pairs.len(), |i: int| pairs[i].0);
    assert forall|i: int, j: int| 0 <= i < keys.len() && 0 <= j < keys.len() && i != j implies keys[i]
        != keys[j] by {
        crate::bytes::lemma_lex_total(pairs[i].0, pairs[j].0);
        if i < j {
            assert(lex_lt(pairs[i].0, pairs[j].0));
        } else {
            assert(lex_lt(pairs[j].0, pairs[i].0));
        }
    }
    assert(keys.no_duplicates());
    assert forall|k: Seq<u8>| keys.to_set().contains(k) <==> entries.dom().contains(k) by {
        if keys.to_set().contains(k) {
            let i = choose|i: int| 0 <= i < keys.len() && keys[i] == k;
            assert(entries.contains_key(pairs[i].0));
        }
        if entries.dom().contains(k) {
            let i = choose|i: int| 0 <= i < pairs.len() && #[trigger] pairs[i].0 == k;
            assert(keys[i] == k);
        }
    }
    assert(keys.to_set() =~= entries.dom());
    keys.unique_seq_to_set();
    vstd::seq_lib::seq_to_set_is_finite(keys);
}

/// The number of pairs in a listing of a tree, or the error of a listing
/// that the store could not make.
pub fn listed_len(listing: Result<Vec<(Vec<u8>, Vec<u8>)>, sled::Error>) -> (r: Result<
    usize,
    StorageError,
>)
    ensures
        match listing {
            Ok(pairs) => r matches Ok(n) && n == pairs@.len(),
            Err(_) => r matches Err(e) && e is Db,
        },
{
    match listing {
        Ok(pairs) => Ok(pairs.len()),
        Err(e) => Err(StorageError::Db(e)),
    }
}

/// The number of pairs that a tree holds. The tree is walked; only the store
/// can make that fail.
fn count(tree: &sled::Tree) -> (r: Result<usize, StorageError>)
    ensures
        match r {
            Ok(n) => n == tree_entries(tree).len(),
            Err(e) => e is Db,
        },
{
    let listing = tree_scan(tree);
    proof {
        if listing is Ok {
            lemma_listing_len(pairs_of(listing->Ok_0@), tree_entries(tree));
        }
    }
    listed_len(listing)
}

/// The key of a lane entry.
pub fn make_index_key(next_attempt_at: u64, id: &[u8]) -> (key: Vec<u8>)
    ensures
        key@ == index_key(next_attempt_at, id@),
{
    let mut key = u64_to_be(next_attempt_at);
    put_bytes(&mut key, id);
    key
}

/// Reads the pending message under `id`.
fn read_record(messages: &sled::Tree, key: &AtRestKey, id: &[u8]) -> (r: Result<
    Option<QueuedMessage>,
    StorageError,
>)
    ensures
        match r {
            Ok(Some(m)) => tree_entries(messages).contains_key(id@) && stored_record(
                tree_entries(messages)[id@],
                key@,
            ) == Some(m@),
            Ok(None) => !tree_entries(messages).contains_key(id@),
            Err(e) => e is Db || (tree_entries(messages).contains_key(id@) && record_failure(
                tree_entries(messages)[id@],
                key@,
                e,
            )),
        },
{
    let sealed = match tree_get(messages, id) {
        Ok(Some(sealed)) => sealed,
        Ok(None) => {
            return Ok(None);
        },
        Err(e) => {
            return Err(StorageError::Db(e));
        },
    };
    let plain = match decrypt(key, sealed.as_slice()) {
        Ok(plain) => plain,
        Err(e) => {
            return Err(e);
        },
    };
    match QueuedMessage::decode(plain.as_slice()) {
        Some(m) => Ok(Some(m)),
        None => Err(StorageError::serialization("invalid queued message")),
    }
}

/// Takes the next due message out of `lane`.
fn dequeue_lane(
    messages: &mut sled::Tree,
    lane: &mut sled::Tree,
    key: &AtRestKey,
    now: u64,
) -> (r: Result<Option<QueuedMessage>, StorageError>)
    ensures
        match r {
            Ok(out) => lane_dequeued(
                tree_entries(old(lane)),
                tree_entries(old(messages)),
                key@,
                now,
                tree_entries(final(lane)),
                tree_entries(final(messages)),
                match out {
                    Some(m) => Some(m@),
                    None => None,
                },
            ),
            Err(e) => lane_dequeue_failed(
                tree_entries(old(lane)),
                tree_entries(old(messages)),
                key@,
                now,
                tree_entries(final(lane)),
                tree_entries(final(messages)),
                e,
            ),
        },
{
    let ghost lane0 = tree_entries(lane);
    let ghost msgs0 = tree_entries(messages);
    loop
        invariant
            lane0 == tree_entries(old(lane)),
            msgs0 == tree_entries(old(messages)),
            tree_entries(messages) == msgs0,
            shrunk_from_below(lane0, tree_entries(lane), now),
            forall|k: Seq<u8>| #[trigger]
                taken(lane0, tree_entries(lane), k) ==> !msgs0.contains_key(lane0[k]),
        decreases tree_entries(lane).len(),
    {
        let ghost cur = tree_entries(lane);
        let (k, id) = match tree_first(lane) {
            Ok(Some(first)) => first,
            Ok(None) => {
                proof {
                    assert forall|k2: Seq<u8>| #[trigger] is_first(cur, k2) implies false by {
                        assert(cur.contains_key(k2));
                    }
                }
                return Ok(None);
            },
            Err(e) => {
                return Err(StorageError::Db(e));
            },
        };
        proof {
            assert(is_first(cur, k@));
            assert forall|k2: Seq<u8>| #[trigger] is_first(cur, k2) implies k2 == k@ by {
                if k2 != k@ {
                    crate::bytes::lemma_lex_total(k2, k@);
                }
            }
        }
        if k.len() >= 8 {
            let scheduled = get_be(k.as_slice(), 0, 8);
            proof {
                assert(k@.take(8) =~= k@.subrange(0, 8));
            }
            if scheduled > now {
                return Ok(None);
            }
        }
        match read_record(messages, key, id.as_slice()) {
            Err(e) => {
                return Err(e);
            },
            Ok(None) => {
                match tree_remove(lane, k.as_slice()) {
                    Ok(_) => {
                        proof {
                            let next = tree_entries(lane);
                            assert(next == cur.remove(k@));
                            assert forall|a: Seq<u8>, b: Seq<u8>|
                                taken(lane0, next, a) && #[trigger] next.contains_key(
                                    b,
                                ) implies #[trigger] lex_lt(a, b) by {
                                assert(cur.contains_key(b));
                                if cur.contains_key(a) {
                                    assert(a == k@);
                                } else {
                                    assert(taken(lane0, cur, a));
                                }
                            }
                            assert forall|a: Seq<u8>| #[trigger] taken(lane0, next, a) implies key_due(
                                a,
                                now,
                            ) && !msgs0.contains_key(lane0[a]) by {
                                if cur.contains_key(a) {
                                    assert(a == k@);
                                } else {
                                    assert(taken(lane0, cur, a));
                                }
                            }
                            cur.lemma_remove_key_len(k@);
                        }
                    },
                    Err(e) => {
                        return Err(StorageError::Db(e));
                    },
                }
            },
            Ok(Some(m)) => {
                match tree_remove(messages, id.as_slice()) {
                    Ok(_) => {},
                    Err(e) => {
                        return Err(StorageError::Db(e));
                    },
                }
                match tree_remove(lane, k.as_slice()) {
                    Ok(_) => {},
                    Err(e) => {
                        return Err(StorageError::Db(e));
                    },
                }
                proof {
                    let next = tree_entries(lane);
                    assert(next == cur.remove(k@));
                    assert(taken(lane0, next, k@));
                    assert forall|a: Seq<u8>, b: Seq<u8>|
                        taken(lane0, next, a) && #[trigger] next.contains_key(
                            b,
                        ) implies #[trigger] lex_lt(a, b) by {
                        assert(cur.contains_key(b));
                        if cur.contains_key(a) {
                            assert(a == k@);
                        } else {
                            assert(taken(lane0, cur, a));
                        }
                    }
                    assert forall|a: Seq<u8>| #[trigger] taken(lane0, next, a) implies key_due(
                        a,
                        now,
                    ) by {
                        if cur.contains_key(a) {
                            assert(a == k@);
                        } else {
                            assert(taken(lane0, cur, a));
                        }
                    }
                    assert forall|a: Seq<u8>| #[trigger]
                        taken(lane0, next, a) && a != k@ implies lex_lt(a, k@)
                        && !msgs0.contains_key(lane0[a]) by {
                        assert(taken(lane0, cur, a));
                        assert(cur.contains_key(k@));
                    }
                }
                return Ok(Some(m));
            },
        }
    }
}

/// The outbound queue, with inbox and dead-letter sink, on disk.
pub struct MessageQueue {
    db: sled::Db,
    messages: sled::Tree,
    index_p0: sled::Tree,
    index_p1: sled::Tree,
    inbox: sled::Tree,
    dead_letter: sled::Tree,
    key: AtRestKey,
    ratio: u8,
    high_budget: u8,
}

impl View for MessageQueue {
    type V = QueueState;

    closed spec fn view(&self) -> QueueState {
        QueueState {
            messages: tree_entries(&self.messages),
            lane0: tree_entries(&self.index_p0),
            lane1: tree_entries(&self.index_p1),
            inbox: tree_entries(&self.inbox),
            dead_letters: tree_entries(&self.dead_letter),
            key: self.key@,
            ratio: self.ratio,
            high_budget: self.high_budget,
        }
    }
}

impl MessageQueue {
    /// Opens the queue in the directory `path`, creating it where there is
    /// none, with records sealed under `key`. What the queue holds is what is
    /// on disk. It starts with the default ratio and a full budget for the high
    /// lane.
    pub fn new(path: &str, key: AtRestKey) -> (r: Result<MessageQueue, StorageError>)
        ensures
            match r {
                Ok(q) => q@.key == key@ && q@.ratio == DEFAULT_HIGH_RATIO && q@.high_budget
                    == DEFAULT_HIGH_RATIO,
                Err(e) => e is Db,
            },
    {
        let db = match open_db(path) {
            Ok(db) => db,
            Err(e) => {
                return Err(StorageError::Db(e));
            },
        };
        let messages = match open_tree(&db, "messages") {
            Ok(t) => t,
            Err(e) => {
                return Err(StorageError::Db(e));
            },
        };
        let index_p0 = match open_tree(&db, "index_p0") {
            Ok(t) => t,
            Err(e) => {
                return Err(StorageError::Db(e));
            },
        };
        let index_p1 = match open_tree(&db, "index_p1") {
            Ok(t) => t,
            Err(e) => {
                return Err(StorageError::Db(e));
            },
        };
        let inbox = match open_tree(&db, "inbox") {
            Ok(t) => t,
            Err(e) => {
                return Err(StorageError::Db(e));
            },
        };
        let dead_letter = match open_tree(&db, "dead_letter") {
            Ok(t) => t,
            Err(e) => {
                return Err(StorageError::Db(e));
            },
        };
        Ok(
            MessageQueue {
                db,
                messages,
                index_p0,
                index_p1,
                inbox,
                dead_letter,
                key,
                ratio: DEFAULT_HIGH_RATIO,
                high_budget: DEFAULT_HIGH_RATIO,
            },
        )
    }

    /// The replay set that is kept in the same store as this queue. Every
    /// call gives a new handle on the one set, and what a handle is said to
    /// hold is right only while no other handle writes to it: use one at a
    /// time.
    pub fn nonce_store(&self) -> (r: Result<super::nonce_store::NonceStore, StorageError>)
        ensures
            match r {
                Ok(store) => store.tree() == super::nonce_store::nonce_tree_name()
                    && store@.dom().finite(),
                Err(e) => e is Db,
            },
    {
        super::nonce_store::NonceStore::open(&self.db)
    }

    /// Sets how many high-lane messages go for each normal-lane message, and
    /// fills the budget of the high lane.
    pub fn set_high_ratio(&mut self, ratio: u8)
        ensures
            final(self)@ == (QueueState { ratio, high_budget: ratio, ..old(self)@ }),
    {
        self.ratio = ratio;
        self.high_budget = ratio;
    }

    /// Puts `message` into the queue at time `now`. A creation time of 0
    /// becomes `now`, a time of next attempt of 0 becomes the creation time, and
    /// the priority becomes the lane it stands for. The record is sealed and
    /// stored under the identifier, an earlier lane entry of the same message
    /// is dropped, and the message gets its entry in its lane.
    ///
    /// A store failure is handed on as `Db`; after one nothing is known of the
    /// pending store and the lanes. A message too long to seal is refused
    /// before anything is written.
    pub fn enqueue_at(&mut self, message: QueuedMessage, now: u64) -> (r: Result<(), StorageError>)
        ensures
            enqueue_outcome(old(self)@, message@, now, final(self)@, r),
    {
        let mut m = message;
        if m.created == 0 {
            m.created = now;
        }
        if m.next_attempt_at == 0 {
            m.next_attempt_at = m.created;
        }
        if m.priority != 0 {
            m.priority = 1;
        }
        let ghost pre = self@;
        let ghost target = normalized(message@, now);
        assert(m@ == target);
        let plain = m.encode();
        let sealed = match encrypt(&self.key, plain.as_slice()) {
            Ok(sealed) => sealed,
            Err(e) => {
                return Err(e);
            },
        };
        match read_record(&self.messages, &self.key, m.id.as_slice()) {
            Ok(Some(prev)) => {
                let stale = make_index_key(prev.next_attempt_at, m.id.as_slice());
                let cleared = if prev.priority == 0 {
                    tree_remove(&mut self.index_p0, stale.as_slice())
                } else {
                    tree_remove(&mut self.index_p1, stale.as_slice())
                };
                match cleared {
                    Ok(_) => {},
                    Err(e) => {
                        return Err(StorageError::Db(e));
                    },
                }
            },
            Ok(None) => {},
            Err(StorageError::Db(e)) => {
                return Err(StorageError::Db(e));
            },
            Err(_) => {},
        }
        let ghost cleared = self@;
        proof {
            assert(cleared.lane0 =~= pre.without_entry_of(target.id).lane0);
            assert(cleared.lane1 =~= pre.without_entry_of(target.id).lane1);
            assert(cleared == pre.without_entry_of(target.id));
        }
        match tree_insert(&mut self.messages, m.id.as_slice(), sealed.as_slice()) {
            Ok(()) => {},
            Err(e) => {
                return Err(StorageError::Db(e));
            },
        }
        let entry = make_index_key(m.next_attempt_at, m.id.as_slice());
        let indexed = if m.priority == 0 {
            tree_insert(&mut self.index_p0, entry.as_slice(), m.id.as_slice())
        } else {
            tree_insert(&mut self.index_p1, entry.as_slice(), m.id.as_slice())
        };
        match indexed {
            Ok(()) => {},
            Err(e) => {
                return Err(StorageError::Db(e));
            },
        }
        proof {
            let post = self@;
            let want = pre.enqueued(target, sealed@);
            assert(post.messages =~= want.messages);
            assert(post.lane0 =~= want.lane0);
            assert(post.lane1 =~= want.lane1);
            assert(post == want);
        }
        Ok(())
    }

    /// Puts `message` into the queue now.
    pub fn enqueue(&mut self, message: QueuedMessage) -> (r: Result<(), StorageError>)
        ensures
            exists|now: u64| #[trigger] enqueue_outcome(old(self)@, message@, now, final(self)@, r),
    {
        let now = now_secs();
        self.enqueue_at(message, now)
    }

    /// Takes the next due message out of the queue at time `now`, the two lanes
    /// sharing it out by the ratio.
    pub fn dequeue_at(&mut self, now: u64) -> (r: Result<Option<QueuedMessage>, StorageError>)
        ensures
            dequeue_outcome(old(self)@, now, final(self)@, outcome_view(r)),
    {
        let first = choose_first_lane(self.high_budget);
        match self.dequeue_from_priority_at(first, now) {
            Ok(Some(m)) => {
                self.high_budget = spend(self.ratio, self.high_budget, first);
                Ok(Some(m))
            },
            Ok(None) => self.dequeue_from_priority_at(1 - first, now),
            Err(e) => Err(e),
        }
    }

    /// Takes the next due message out of the queue now.
    pub fn dequeue(&mut self) -> (r: Result<Option<QueuedMessage>, StorageError>)
        ensures
            exists|now: u64| #[trigger]
                dequeue_outcome(old(self)@, now, final(self)@, outcome_view(r)),
    {
        let now = now_secs();
        self.dequeue_at(now)
    }

    /// Takes the next due message out of lane `p` now.
    pub fn dequeue_from_priority(&mut self, p: u8) -> (r: Result<
        Option<QueuedMessage>,
        StorageError,
    >)
        ensures
            exists|now: u64| #[trigger]
                lane_dequeue_outcome(old(self)@, p, now, final(self)@, outcome_view(r)),
    {
        let now = now_secs();
        self.dequeue_from_priority_at(p, now)
    }

    /// Sets the status of the pending message under `id`. Its lane entry
    /// stays as it is.
    pub fn update_status(&mut self, id: [u8; 16], status: MessageStatus) -> (r: Result<
        (),
        StorageError,
    >)
        ensures
            update_status_outcome(old(self)@, id@, status, final(self)@, r),
    {
        let ghost pre = self@;
        let mut m = match read_record(&self.messages, &self.key, id.as_slice()) {
            Ok(Some(m)) => m,
            Ok(None) => {
                return Ok(());
            },
            Err(e) => {
                return Err(e);
            },
        };
        m.status = status;
        let plain = m.encode();
        let sealed = match encrypt(&self.key, plain.as_slice()) {
            Ok(sealed) => sealed,
            Err(e) => {
                return Err(e);
            },
        };
        match tree_insert(&mut self.messages, id.as_slice(), sealed.as_slice()) {
            Ok(()) => {
                proof {
                    assert(self@.messages =~= pre.messages.insert(id@, sealed@));
                }
                Ok(())
            },
            Err(e) => Err(StorageError::Db(e)),
        }
    }

    /// Puts `message` back after a failed attempt at `now`: one more retry is
    /// counted, the next attempt is put off by `base_backoff_secs` doubled
    /// once for each earlier failure, at most 20 times, and the message is
    /// pending again.
    pub fn requeue_with_backoff_at(
        &mut self,
        message: QueuedMessage,
        base_backoff_secs: u64,
        now: u64,
    ) -> (r: Result<(), StorageError>)
        ensures
            enqueue_outcome(
                old(self)@,
                after_failure(message@, base_backoff_secs, now),
                now,
                final(self)@,
                r,
            ),
    {
        let mut m = message;
        m.retry_count = m.retry_count.saturating_add(1);
        m.next_attempt_at = compute_next_attempt(now, base_backoff_secs, m.retry_count);
        m.status = MessageStatus::Pending;
        self.enqueue_at(m, now)
    }

    /// Puts `message` back after a failed attempt now.
    pub fn requeue_with_backoff(&mut self, message: QueuedMessage, base_backoff_secs: u64) -> (r:
        Result<(), StorageError>)
        ensures
            exists|now: u64| #[trigger]
                enqueue_outcome(
                    old(self)@,
                    after_failure(message@, base_backoff_secs, now),
                    now,
                    final(self)@,
                    r,
                ),
    {
        let now = now_secs();
        self.requeue_with_backoff_at(message, base_backoff_secs, now)
    }

    /// Gives `message` up at `now` for the reason `reason`: a record of it goes
    /// to the dead-letter sink, and no pending record of it stays behind.
    pub fn dead_letter_at(&mut self, message: QueuedMessage, reason: &str, now: u64) -> (r: Result<
        (),
        StorageError,
    >)
        ensures
            dead_letter_outcome(old(self)@, message@, reason@, now, final(self)@, r),
    {
        let ghost pre = self@;
        let record = DeadLetterRecord {
            id: message.id,
            contact_id: message.contact_id,
            payload: message.payload,
            failed_at: now,
            attempts: message.retry_count,
            last_error: reason.to_owned(),
        };
        assert(record@ == dead_letter_for(message@, reason@, now));
        let bytes = record.encode();
        match read_record(&self.messages, &self.key, record.id.as_slice()) {
            Ok(Some(prev)) => {
                let stale = make_index_key(prev.next_attempt_at, record.id.as_slice());
                let cleared = if prev.priority == 0 {
                    tree_remove(&mut self.index_p0, stale.as_slice())
                } else {
                    tree_remove(&mut self.index_p1, stale.as_slice())
                };
                match cleared {
                    Ok(_) => {},
                    Err(e) => {
                        return Err(StorageError::Db(e));
                    },
                }
            },
            Ok(None) => {},
            Err(StorageError::Db(e)) => {
                return Err(StorageError::Db(e));
            },
            Err(_) => {},
        }
        proof {
            assert(self@.lane0 =~= pre.without_entry_of(record@.id).lane0);
            assert(self@.lane1 =~= pre.without_entry_of(record@.id).lane1);
        }
        match tree_remove(&mut self.messages, record.id.as_slice()) {
            Ok(_) => {},
            Err(e) => {
                return Err(StorageError::Db(e));
            },
        }
        match tree_insert(&mut self.dead_letter, record.id.as_slice(), bytes.as_slice()) {
            Ok(()) => {},
            Err(e) => {
                return Err(StorageError::Db(e));
            },
        }
        proof {
            let want = dead_lettered(pre, record@);
            assert(self@.messages =~= want.messages);
            assert(self@.dead_letters =~= want.dead_letters);
        }
        Ok(())
    }

    /// Gives `message` up now for the reason `reason`.
    pub fn dead_letter(&mut self, message: QueuedMessage, reason: &str) -> (r: Result<
        (),
        StorageError,
    >)
        ensures
            exists|now: u64| #[trigger]
                dead_letter_outcome(old(self)@, message@, reason@, now, final(self)@, r),
    {
        let now = now_secs();
        self.dead_letter_at(message, reason, now)
    }

    /// Handles a failed attempt at `now`: a message that has used up its
    /// retries is given up, and the answer is `false`; any other is put back
    /// with its backoff, and the answer is `true`.
    pub fn requeue_or_dead_letter_at(
        &mut self,
        message: QueuedMessage,
        base_backoff_secs: u64,
        reason: &str,
        now: u64,
    ) -> (r: Result<bool, StorageError>)
        ensures
            requeue_or_dead_letter_outcome(
                old(self)@,
                message@,
                base_backoff_secs,
                reason@,
                now,
                final(self)@,
                r,
            ),
    {
        if message.retry_count >= message.max_retries {
            match self.dead_letter_at(message, reason, now) {
                Ok(()) => Ok(false),
                Err(e) => Err(e),
            }
        } else {
            match self.requeue_with_backoff_at(message, base_backoff_secs, now) {
                Ok(()) => Ok(true),
                Err(e) => Err(e),
            }
        }
    }

    /// Handles a failed attempt now.
    pub fn requeue_or_dead_letter(
        &mut self,
        message: QueuedMessage,
        base_backoff_secs: u64,
        reason: &str,
    ) -> (r: Result<bool, StorageError>)
        ensures
            exists|now: u64| #[trigger]
                requeue_or_dead_letter_outcome(
                    old(self)@,
                    message@,
                    base_backoff_secs,
                    reason@,
                    now,
                    final(self)@,
                    r,
                ),
    {
        let now = now_secs();
        self.requeue_or_dead_letter_at(message, base_backoff_secs, reason, now)
    }

    /// The number of messages waiting, both lanes together; the largest
    /// number there is where the sum does not fit. Both lanes are walked,
    /// and only the store can make that fail.
    pub fn len(&self) -> (r: Result<usize, StorageError>)
        ensures
            match r {
                Ok(n) => n == waiting(self@),
                Err(e) => e is Db,
            },
    {
        let high = match count(&self.index_p0) {
            Ok(n) => n,
            Err(e) => {
                return Err(e);
            },
        };
        let normal = match count(&self.index_p1) {
            Ok(n) => n,
            Err(e) => {
                return Err(e);
            },
        };
        Ok(high.saturating_add(normal))
    }

    /// Whether no message is waiting.
    pub fn is_empty(&self) -> (r: Result<bool, StorageError>)
        ensures
            match r {
                Ok(empty) => empty == (self@.lane0.len() + self@.lane1.len() == 0),
                Err(e) => e is Db,
            },
    {
        match self.len() {
            Ok(n) => Ok(n == 0),
            Err(e) => Err(e),
        }
    }

    /// Keeps a received plaintext under `message_id`, and sees it to disk.
    /// Only the store can make this fail, and then no other plaintext is
    /// touched.
    pub fn store_inbox(&mut self, message_id: [u8; 16], plaintext: Vec<u8>) -> (r: Result<
        (),
        StorageError,
    >)
        ensures
            final(self)@ == (QueueState { inbox: final(self)@.inbox, ..old(self)@ }),
            match r {
                Ok(()) => final(self)@.inbox == old(self)@.inbox.insert(message_id@, plaintext@),
                Err(e) => e is Db && final(self)@.inbox.remove(message_id@)
                    == old(self)@.inbox.remove(message_id@),
            },
    {
        match tree_insert(&mut self.inbox, message_id.as_slice(), plaintext.as_slice()) {
            Ok(()) => {},
            Err(e) => {
                return Err(StorageError::Db(e));
            },
        }
        match tree_flush(&self.inbox) {
            Ok(()) => Ok(()),
            Err(e) => Err(StorageError::Db(e)),
        }
    }

    /// The plaintext kept under `message_id`, if there is one.
    pub fn get_inbox(&self, message_id: [u8; 16]) -> (r: Result<Option<Vec<u8>>, StorageError>)
        ensures
            inbox_get_outcome(self@.inbox, message_id@, r),
    {
        match tree_get(&self.inbox, message_id.as_slice()) {
            Ok(found) => Ok(found),
            Err(e) => Err(StorageError::Db(e)),
        }
    }

    /// The number of plaintexts in the inbox. The inbox is walked, and only
    /// the store can make that fail.
    pub fn inbox_len(&self) -> (r: Result<usize, StorageError>)
        ensures
            match r {
                Ok(n) => n == self@.inbox.len(),
                Err(e) => e is Db,
            },
    {
        count(&self.inbox)
    }

    /// The number of records in the dead-letter sink. The sink is walked, and
    /// only the store can make that fail.
    pub fn dead_letter_len(&self) -> (r: Result<usize, StorageError>)
        ensures
            match r {
                Ok(n) => n == self@.dead_letters.len(),
                Err(e) => e is Db,
            },
    {
        count(&self.dead_letter)
    }

    /// Everything in the inbox, by ascending identifier. An inbox key that is
    /// not a 16-byte identifier is an error.
    pub fn list_inbox(&self) -> (r: Result<Vec<([u8; 16], Vec<u8>)>, StorageError>)
        ensures
            inbox_list_outcome(self@.inbox, r),
    {
        let listing = match tree_scan(&self.inbox) {
            Ok(listing) => listing,
            Err(e) => {
                return Err(StorageError::Db(e));
            },
        };
        let ghost pairs = pairs_of(listing@);
        let mut out: Vec<([u8; 16], Vec<u8>)> = Vec::new();
        let mut i: usize = 0;
        while i < listing.len()
            invariant
                i <= listing.len(),
                pairs == pairs_of(listing@),
                pairs.len() == listing.len(),
                out@.len() == i,
                sorted_listing(pairs, self@.inbox),
                inbox_views(out@) == pairs.take(i as int),
            decreases listing.len() - i,
        {
            let entry = &listing[i];
            if entry.0.len() != 16 {
                proof {
                    assert(self@.inbox.contains_key(pairs[i as int].0));
                }
                return Err(StorageError::serialization("invalid inbox key"));
            }
            let id = to_array::<16>(entry.0.as_slice());
            let plaintext = crate::bytes::copy_range(entry.1.as_slice(), 0, entry.1.len());
            let ghost before = out@;
            out.push((id, plaintext));
            i = i + 1;
            proof {
                assert(entry.1@.subrange(0, entry.1@.len() as int) =~= entry.1@);
                assert forall|j: int| 0 <= j < i implies inbox_views(out@)[j] == pairs.take(
                    i as int,
                )[j] by {
                    if j < i - 1 {
                        assert(inbox_views(before)[j] == pairs.take(i - 1)[j]);
                    } else {
                        assert(pairs[j] == (entry.0@, entry.1@));
                    }
                }
                assert(inbox_views(out@) =~= pairs.take(i as int));
            }
        }
        proof {
            assert(pairs.take(i as int) =~= pairs);
        }
        Ok(out)
    }

    /// Everything in the dead-letter sink, by ascending identifier. A record
    /// that cannot be read is an error.
    pub fn list_dead_letters(&self) -> (r: Result<Vec<DeadLetterRecord>, StorageError>)
        ensures
            dead_letter_list_outcome(self@.dead_letters, r),
    {
        let listing = match tree_scan(&self.dead_letter) {
            Ok(listing) => listing,
            Err(e) => {
                return Err(StorageError::Db(e));
            },
        };
        let ghost pairs = pairs_of(listing@);
        let mut out: Vec<DeadLetterRecord> = Vec::new();
        let mut i: usize = 0;
        while i < listing.len()
            invariant
                i <= listing.len(),
                pairs == pairs_of(listing@),
                sorted_listing(pairs, self@.dead_letters),
                out@.len() == i,
                forall|j: int| 0 <= j < i ==> dead_letter_of(pairs[j].1) == Some(#[trigger] out@[j]@),
            decreases listing.len() - i,
        {
            let entry = &listing[i];
            match DeadLetterRecord::decode(entry.1.as_slice()) {
                Some(record) => {
                    out.push(record);
                },
                None => {
                    proof {
                        assert(self@.dead_letters.contains_key(pairs[i as int].0));
                    }
                    return Err(StorageError::serialization("invalid dead-letter record"));
                },
            }
            i = i + 1;
        }
        proof {
            assert(pairs.len() == listing@.len());
            assert(dead_letters_of(pairs, out@));
            assert(sorted_listing(pairs, self@.dead_letters));
        }
        Ok(out)
    }

    /// The pending messages: those in the pending store whose record gives a
    /// message with status `Pending`, by ascending identifier. Records that give
    /// no message are passed over.
    pub fn get_pending_messages(&self) -> (r: Result<Vec<QueuedMessage>, StorageError>)
        ensures
            pending_list_outcome(self@.messages, self@.key, r),
    {
        let listing = match tree_scan(&self.messages) {
            Ok(listing) => listing,
            Err(e) => {
                return Err(StorageError::Db(e));
            },
        };
        let ghost pairs = pairs_of(listing@);
        let mut out: Vec<QueuedMessage> = Vec::new();
        let mut i: usize = 0;
        proof {
            assert(pairs.take(0) =~= Seq::empty());
            assert(message_views(out@) =~= pending_in(pairs.take(0), self@.key));
        }
        while i < listing.len()
            invariant
                i <= listing.len(),
                pairs == pairs_of(listing@),
                message_views(out@) == pending_in(pairs.take(i as int), self@.key),
            decreases listing.len() - i,
        {
            let entry = &listing[i];
            let ghost before = message_views(out@);
            proof {
                let upto = pairs.take(i + 1);
                assert(upto.drop_last() =~= pairs.take(i as int));
                assert(upto.last() == pairs[i as int]);
            }
            match decrypt(&self.key, entry.1.as_slice()) {
                Ok(plain) => {
                    match QueuedMessage::decode(plain.as_slice()) {
                        Some(m) => {
                            if m.status == MessageStatus::Pending {
                                out.push(m);
                                proof {
                                    assert(message_views(out@) =~= before.push(m@));
                                }
                            }
                        },
                        None => {},
                    }
                },
                Err(_) => {},
            }
            i = i + 1;
        }
        proof {
            assert(pairs.take(i as int) =~= pairs);
            lemma_pending_in(pairs, self@.key);
            assert forall|j: int| 0 <= j < out@.len() implies (#[trigger] out@[j]).status
                == MessageStatus::Pending by {
                assert(message_views(out@)[j] == out@[j]@);
            }
        }
        Ok(out)
    }

    /// Takes the next due message out of lane `p` at time `now`: lane 0 is the
    /// high lane, every other number the normal lane.
    pub fn dequeue_from_priority_at(&mut self, p: u8, now: u64) -> (r: Result<
        Option<QueuedMessage>,
        StorageError,
    >)
        ensures
            lane_dequeue_outcome(old(self)@, p, now, final(self)@, outcome_view(r)),
    {
        if p == 0 {
            dequeue_lane(&mut self.messages, &mut self.index_p0, &self.key, now)
        } else {
            dequeue_lane(&mut self.messages, &mut self.index_p1, &self.key, now)
        }
    }
}

} // verus!
