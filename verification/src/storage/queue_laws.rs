//! What holds of the queue whatever is done with it: a pending message never
//! has two lane entries, a lane gives its messages in the order of their
//! times and identifiers, and a queue with nothing due gives nothing and stays
//! as it is.

use vstd::prelude::*;
use crate::bytes::{lemma_lex_concat, lemma_lex_total, lemma_u64_be_order, lex_lt, u64_be};
use crate::codec::lemma_cancel;
use super::at_rest::is_sealing_of;
use super::backoff::{doublings, lemma_backoff_lower_bound, pow2};
use super::lanes::{budget_after, first_lane};
use super::queue::{
    after_failure,
    dead_letter_for,
    dead_lettered,
    dequeue_outcome,
    enqueue_outcome,
    index_key,
    is_first,
    key_due,
    lane_dequeued,
    lane_of,
    normalized,
    requeue_or_dead_letter_outcome,
    stored_record,
    taken,
    update_status_outcome,
    QueueState,
};
use super::record::{
    lemma_message_unique, message_of, message_wire, message_wire_then, starts_with_message,
    DeadLetterView, MessageStatus, QueuedMessageView,
};
use super::StorageError;

verus! {

/// A queue with an empty pending store and empty lanes is consistent.
pub proof fn lemma_empty_consistent(s: QueueState)
    requires
        s.messages == Map::<Seq<u8>, Seq<u8>>::empty(),
        s.lane0 == Map::<Seq<u8>, Seq<u8>>::empty(),
        s.lane1 == Map::<Seq<u8>, Seq<u8>>::empty(),
    ensures
        s.consistent(),
{
}

/// A sealed record of `m` gives `m`.
pub proof fn lemma_sealed_record(sealed: Seq<u8>, key: Seq<u8>, m: QueuedMessageView)
    requires
        m.wf(),
        is_sealing_of(sealed, key, message_wire(m)),
    ensures
        stored_record(sealed, key) == Some(m),
{
    let plain = message_wire(m);
    assert(plain == message_wire_then(m, Seq::empty()));
    assert(starts_with_message(plain, m));
    lemma_message_unique(plain, m, message_of(plain)->0);
}

/// Two lane keys are the same only for the same time and identifier.
pub proof fn lemma_index_key_injective(t1: u64, id1: Seq<u8>, t2: u64, id2: Seq<u8>)
    requires
        index_key(t1, id1) == index_key(t2, id2),
    ensures
        t1 == t2,
        id1 == id2,
{
    lemma_u64_be_order(t1, t2);
    lemma_u64_be_order(t2, t1);
    lemma_cancel(u64_be(t1), id1, u64_be(t2), id2);
}

/// Lane keys are ordered by time first and identifier second.
pub proof fn lemma_index_key_order(t1: u64, id1: Seq<u8>, t2: u64, id2: Seq<u8>)
    ensures
        lex_lt(index_key(t1, id1), index_key(t2, id2)) <==> (t1 < t2 || (t1 == t2 && lex_lt(
            id1,
            id2,
        ))),
{
    lemma_u64_be_order(t1, t2);
    lemma_u64_be_order(t2, t1);
    lemma_lex_concat(u64_be(t1), id1, u64_be(t2), id2);
}

/// In a consistent queue no message has two lane entries: two entries with
/// one identifier are one entry.
pub proof fn lemma_one_entry_per_message(
    s: QueueState,
    lane_a: u8,
    key_a: Seq<u8>,
    lane_b: u8,
    key_b: Seq<u8>,
)
    requires
        s.consistent(),
        lane_a <= 1,
        lane_b <= 1,
        s.lane(lane_a).contains_key(key_a),
        s.lane(lane_b).contains_key(key_b),
        s.lane(lane_a)[key_a] == s.lane(lane_b)[key_b],
    ensures
        lane_a == lane_b,
        key_a == key_b,
{
}

/// Enqueueing keeps a consistent queue consistent.
pub proof fn lemma_enqueue_keeps_consistent(pre: QueueState, m: QueuedMessageView, sealed: Seq<u8>)
    requires
        pre.consistent(),
        m.wf(),
        m.priority <= 1,
        is_sealing_of(sealed, pre.key, message_wire(m)),
    ensures
        pre.enqueued(m, sealed).consistent(),
        pre.enqueued(m, sealed).record(m.id) == Some(m),
{
    let cleared = pre.without_entry_of(m.id);
    let post = pre.enqueued(m, sealed);
    let p = lane_of(m.priority);
    let k = index_key(m.next_attempt_at, m.id);
    lemma_sealed_record(sealed, pre.key, m);
    assert(post.record(m.id) == Some(m));
    assert forall|id: Seq<u8>| id != m.id implies post.record(id) == pre.record(id)
        && post.messages.contains_key(id) == pre.messages.contains_key(id) by {}
    assert forall|q: u8, x: Seq<u8>| #[trigger] post.lane(q).contains_key(x) && q <= 1 implies {
        let id = post.lane(q)[x];
        &&& post.record(id) is Some
        &&& lane_of(post.record(id)->0.priority) == q
        &&& index_key(post.record(id)->0.next_attempt_at, id) == x
    } by {
        if q == p && x == k {
        } else {
            assert(cleared.lane(q).contains_key(x));
            assert(pre.lane(q).contains_key(x));
            let id = pre.lane(q)[x];
            if id == m.id {
                // the entry of the earlier record of this message was dropped
                assert(pre.record(id) is Some);
                assert(false);
            }
        }
    }
    assert forall|id: Seq<u8>| #[trigger] post.messages.contains_key(id) implies {
        &&& post.record(id) is Some
        &&& post.record(id)->0.id == id
        &&& post.lane(lane_of(post.record(id)->0.priority)).contains_key(
            index_key(post.record(id)->0.next_attempt_at, id),
        )
        &&& post.lane(lane_of(post.record(id)->0.priority))[index_key(
            post.record(id)->0.next_attempt_at,
            id,
        )] == id
    } by {
        if id != m.id {
            assert(pre.messages.contains_key(id));
            let r = pre.record(id)->0;
            let q = lane_of(r.priority);
            let x = index_key(r.next_attempt_at, id);
            assert(pre.lane(q).contains_key(x) && pre.lane(q)[x] == id);
            if q == p && x == k {
                lemma_index_key_injective(r.next_attempt_at, id, m.next_attempt_at, m.id);
            }
            match pre.record(m.id) {
                Some(old) => {
                    if lane_of(old.priority) == q && index_key(old.next_attempt_at, m.id) == x {
                        lemma_index_key_injective(old.next_attempt_at, m.id, r.next_attempt_at, id);
                    }
                },
                None => {},
            }
            assert(cleared.lane(q).contains_key(x));
        }
    }
}

/// What taking a message out of lane `p` of a consistent queue comes to: with
/// no message nothing changes; with a message, exactly its record and its
/// entry are gone. The queue stays consistent.
pub proof fn lemma_dequeue_keeps_consistent(
    pre: QueueState,
    p: u8,
    now: u64,
    post: QueueState,
    out: Option<QueuedMessageView>,
)
    requires
        pre.consistent(),
        p <= 1,
        post == (QueueState { messages: post.messages, ..pre.with_lane(p, post.lane(p)) }),
        lane_dequeued(
            pre.lane(p),
            pre.messages,
            pre.key,
            now,
            post.lane(p),
            post.messages,
            out,
        ),
    ensures
        post.consistent(),
        match out {
            None => post == pre,
            Some(m) => {
                &&& pre.record(m.id) == Some(m)
                &&& key_due(index_key(m.next_attempt_at, m.id), now)
                &&& post.messages == pre.messages.remove(m.id)
                &&& post.lane(p) == pre.lane(p).remove(index_key(m.next_attempt_at, m.id))
            },
        },
{
    let lane = pre.lane(p);
    let after = post.lane(p);
    // In a consistent queue every entry has its record, so none is dropped as
    // dangling.
    assert forall|x: Seq<u8>| lane.contains_key(x) implies pre.messages.contains_key(lane[x]) by {
        assert(pre.lane(p).contains_key(x));
    }
    match out {
        None => {
            assert forall|x: Seq<u8>| lane.contains_key(x) implies after.contains_key(x) by {
                if !after.contains_key(x) {
                    assert(taken(lane, after, x));
                }
            }
            assert(after =~= lane);
            assert(post.lane0 == pre.lane0 && post.lane1 == pre.lane1);
        },
        Some(m) => {
            let k = choose|k: Seq<u8>|
                {
                    &&& #[trigger] taken(lane, after, k)
                    &&& pre.messages.contains_key(lane[k])
                    &&& stored_record(pre.messages[lane[k]], pre.key) == Some(m)
                    &&& post.messages == pre.messages.remove(lane[k])
                    &&& forall|k2: Seq<u8>|
                        #[trigger] taken(lane, after, k2) && k2 != k ==> lex_lt(k2, k)
                            && !pre.messages.contains_key(lane[k2])
                };
            let id = lane[k];
            assert(pre.lane(p).contains_key(k));
            assert(pre.record(id) == Some(m));
            assert(pre.messages.contains_key(id));
            assert(m.id == id);
            assert(k == index_key(m.next_attempt_at, id));
            assert forall|x: Seq<u8>| lane.contains_key(x) && x != k implies after.contains_key(
                x,
            ) by {
                if !after.contains_key(x) {
                    assert(taken(lane, after, x));
                }
            }
            assert(after =~= lane.remove(k));
            assert forall|q: u8, x: Seq<u8>| #[trigger]
                post.lane(q).contains_key(x) && q <= 1 implies {
                let id2 = post.lane(q)[x];
                &&& post.record(id2) is Some
                &&& lane_of(post.record(id2)->0.priority) == q
                &&& index_key(post.record(id2)->0.next_attempt_at, id2) == x
            } by {
                assert(pre.lane(q).contains_key(x));
                let id2 = pre.lane(q)[x];
                if id2 == id {
                    assert(q == p && x == k);
                }
            }
            assert forall|id2: Seq<u8>| #[trigger] post.messages.contains_key(id2) implies {
                &&& post.record(id2) is Some
                &&& post.record(id2)->0.id == id2
                &&& post.lane(lane_of(post.record(id2)->0.priority)).contains_key(
                    index_key(post.record(id2)->0.next_attempt_at, id2),
                )
                &&& post.lane(lane_of(post.record(id2)->0.priority))[index_key(
                    post.record(id2)->0.next_attempt_at,
                    id2,
                )] == id2
            } by {
                assert(pre.messages.contains_key(id2));
                let r = pre.record(id2)->0;
                let q = lane_of(r.priority);
                let x = index_key(r.next_attempt_at, id2);
                assert(pre.lane(q).contains_key(x) && pre.lane(q)[x] == id2);
                if q == p && x == k {
                    assert(false);
                }
            }
        },
    }
}

/// Giving a message up leaves no pending record of it, and keeps a consistent
/// queue consistent.
pub proof fn lemma_dead_letter_leaves_no_record(pre: QueueState, record: DeadLetterView)
    ensures
        !dead_lettered(pre, record).messages.contains_key(record.id),
        forall|p: u8, k: Seq<u8>|
            p <= 1 && pre.consistent() && #[trigger] dead_lettered(pre, record).lane(
                p,
            ).contains_key(k) ==> dead_lettered(pre, record).lane(p)[k] != record.id,
        pre.consistent() ==> dead_lettered(pre, record).consistent(),
{
    let post = dead_lettered(pre, record);
    let id = record.id;
    if pre.consistent() {
        assert forall|q: u8, x: Seq<u8>| #[trigger] post.lane(q).contains_key(x) && q <= 1 implies {
            let id2 = post.lane(q)[x];
            &&& id2 != id
            &&& post.record(id2) is Some
            &&& lane_of(post.record(id2)->0.priority) == q
            &&& index_key(post.record(id2)->0.next_attempt_at, id2) == x
        } by {
            assert(pre.lane(q).contains_key(x));
            let id2 = pre.lane(q)[x];
            if id2 == id {
                assert(pre.record(id) is Some);
                assert(false);
            }
        }
        assert forall|id2: Seq<u8>| #[trigger] post.messages.contains_key(id2) implies {
            &&& post.record(id2) is Some
            &&& post.record(id2)->0.id == id2
            &&& post.lane(lane_of(post.record(id2)->0.priority)).contains_key(
                index_key(post.record(id2)->0.next_attempt_at, id2),
            )
            &&& post.lane(lane_of(post.record(id2)->0.priority))[index_key(
                post.record(id2)->0.next_attempt_at,
                id2,
            )] == id2
        } by {
            assert(pre.messages.contains_key(id2));
            let r = pre.record(id2)->0;
            let q = lane_of(r.priority);
            let x = index_key(r.next_attempt_at, id2);
            assert(pre.lane(q).contains_key(x) && pre.lane(q)[x] == id2);
            match pre.record(id) {
                Some(old) => {
                    if lane_of(old.priority) == q && index_key(old.next_attempt_at, id) == x {
                        lemma_index_key_injective(old.next_attempt_at, id, r.next_attempt_at, id2);
                    }
                },
                None => {},
            }
        }
    }
}

/// Two messages taken out of one lane of a consistent queue, one after the
/// other with nothing enqueued in between, come in the order of their times of
/// next attempt, and of their identifiers where the times are the same.
pub proof fn lemma_dequeue_order(
    pre: QueueState,
    p: u8,
    now1: u64,
    mid: QueueState,
    m1: QueuedMessageView,
    now2: u64,
    post: QueueState,
    m2: QueuedMessageView,
)
    requires
        pre.consistent(),
        p <= 1,
        mid == (QueueState { messages: mid.messages, ..pre.with_lane(p, mid.lane(p)) }),
        post == (QueueState { messages: post.messages, ..mid.with_lane(p, post.lane(p)) }),
        lane_dequeued(
            pre.lane(p),
            pre.messages,
            pre.key,
            now1,
            mid.lane(p),
            mid.messages,
            Some(m1),
        ),
        lane_dequeued(
            mid.lane(p),
            mid.messages,
            mid.key,
            now2,
            post.lane(p),
            post.messages,
            Some(m2),
        ),
    ensures
        m1.next_attempt_at < m2.next_attempt_at || (m1.next_attempt_at == m2.next_attempt_at
            && lex_lt(m1.id, m2.id)),
{
    lemma_dequeue_keeps_consistent(pre, p, now1, mid, Some(m1));
    lemma_dequeue_keeps_consistent(mid, p, now2, post, Some(m2));
    let k1 = index_key(m1.next_attempt_at, m1.id);
    let k2 = index_key(m2.next_attempt_at, m2.id);
    // The second message was still in the lane when the first one left it.
    assert(mid.record(m2.id) == Some(m2));
    assert(mid.messages.contains_key(m2.id));
    assert(mid.lane(lane_of(m2.priority)).contains_key(k2));
    assert(mid.lane(lane_of(m2.priority))[k2] == m2.id);
    assert(mid.lane(p).contains_key(k2)) by {
        if lane_of(m2.priority) != p {
            // an entry in the other lane would not have been found in this one
            assert(post.lane(p) == mid.lane(p).remove(k2));
            let q = lane_of(m2.priority);
            assert(mid.lane(q).contains_key(k2));
            let k = choose|k: Seq<u8>|
                {
                    &&& #[trigger] taken(mid.lane(p), post.lane(p), k)
                    &&& mid.messages.contains_key(mid.lane(p)[k])
                    &&& stored_record(mid.messages[mid.lane(p)[k]], mid.key) == Some(m2)
                };
            assert(mid.lane(p).contains_key(k));
            assert(mid.lane(p)[k] == m2.id);
            lemma_one_entry_per_message(mid, p, k, q, k2);
        }
    }
    assert(taken(pre.lane(p), mid.lane(p), k1));
    assert(lex_lt(k1, k2));
    lemma_index_key_order(m1.next_attempt_at, m1.id, m2.next_attempt_at, m2.id);
}

/// A lane whose first entry is not yet due gives no message and stays as it
/// is, and so does the pending store.
pub proof fn lemma_lane_not_due(
    lane: Map<Seq<u8>, Seq<u8>>,
    messages: Map<Seq<u8>, Seq<u8>>,
    key: Seq<u8>,
    now: u64,
    lane_after: Map<Seq<u8>, Seq<u8>>,
    messages_after: Map<Seq<u8>, Seq<u8>>,
    out: Option<QueuedMessageView>,
    first: Seq<u8>,
)
    requires
        lane_dequeued(lane, messages, key, now, lane_after, messages_after, out),
        is_first(lane, first),
        !key_due(first, now),
    ensures
        out is None,
        lane_after == lane,
        messages_after == messages,
{
    assert forall|x: Seq<u8>| lane.contains_key(x) implies lane_after.contains_key(x) by {
        if !lane_after.contains_key(x) {
            assert(taken(lane, lane_after, x));
            if x != first {
                if lane_after.contains_key(first) {
                    assert(lex_lt(x, first));
                    lemma_lex_total(x, first);
                } else {
                    assert(taken(lane, lane_after, first));
                }
            }
        }
    }
    assert(lane_after =~= lane);
    if out is Some {
        let k = choose|k: Seq<u8>| #[trigger] taken(lane, lane_after, k);
        assert(false);
    }
}

/// An empty lane gives no message and stays empty, and the pending store
/// stays as it is.
pub proof fn lemma_lane_empty(
    lane: Map<Seq<u8>, Seq<u8>>,
    messages: Map<Seq<u8>, Seq<u8>>,
    key: Seq<u8>,
    now: u64,
    lane_after: Map<Seq<u8>, Seq<u8>>,
    messages_after: Map<Seq<u8>, Seq<u8>>,
    out: Option<QueuedMessageView>,
)
    requires
        lane_dequeued(lane, messages, key, now, lane_after, messages_after, out),
        lane == Map::<Seq<u8>, Seq<u8>>::empty(),
    ensures
        out is None,
        lane_after == lane,
        messages_after == messages,
{
    assert(lane_after =~= lane);
    if out is Some {
        let k = choose|k: Seq<u8>| #[trigger] taken(lane, lane_after, k);
        assert(false);
    }
}

/// Each lane of `s` is empty, or has a first entry that is not due at `now`.
pub open spec fn nothing_due(s: QueueState, now: u64) -> bool {
    forall|p: u8|
        p <= 1 ==> #[trigger] s.lane(p) == Map::<Seq<u8>, Seq<u8>>::empty() || exists|k: Seq<u8>|
            #[trigger] is_first(s.lane(p), k) && !key_due(k, now)
}

/// Dequeueing from a queue with nothing due, be it empty or waiting for its
/// times, gives no message and changes nothing, unless the store fails.
pub proof fn lemma_dequeue_nothing_due(
    pre: QueueState,
    now: u64,
    post: QueueState,
    r: Result<Option<QueuedMessageView>, StorageError>,
)
    requires
        dequeue_outcome(pre, now, post, r),
        nothing_due(pre, now),
    ensures
        match r {
            Ok(out) => out is None && post == pre,
            Err(e) => e is Db,
        },
{
    let first = super::lanes::first_lane(pre.high_budget);
    let second = (1 - first) as u8;
    assert(first <= 1 && second <= 1);
    assert(pre.lane(first) == Map::<Seq<u8>, Seq<u8>>::empty() || exists|k: Seq<u8>| #[trigger]
        is_first(pre.lane(first), k) && !key_due(k, now));
    assert(pre.lane(second) == Map::<Seq<u8>, Seq<u8>>::empty() || exists|k: Seq<u8>| #[trigger]
        is_first(pre.lane(second), k) && !key_due(k, now));
    lemma_quiet_lane(pre, first, now);
    lemma_quiet_lane(pre, second, now);
    match r {
        Ok(_) => {
            assert(post.lane(first) == pre.lane(first));
            assert(post.lane(second) == pre.lane(second));
            assert(post.lane0 == pre.lane0 && post.lane1 == pre.lane1);
        },
        Err(e) => {
            if !(e is Db) {
                // a failure that is not the store's needs a due first entry
                let k1 = choose|k: Seq<u8>| #[trigger]
                    is_first(post.lane(first), k) && key_due(k, now);
                let k2 = choose|k: Seq<u8>| #[trigger]
                    is_first(post.lane(second), k) && key_due(k, now);
                assert(false);
            }
        },
    }
}

/// Of a lane that is empty or waits for its first entry: whatever taking a
/// message out of it does, it gives none and changes nothing; and a first
/// entry that is due is not to be found in what it leaves.
proof fn lemma_quiet_lane(pre: QueueState, p: u8, now: u64)
    requires
        p <= 1,
        pre.lane(p) == Map::<Seq<u8>, Seq<u8>>::empty() || exists|k: Seq<u8>| #[trigger]
            is_first(pre.lane(p), k) && !key_due(k, now),
    ensures
        forall|
            lane_after: Map<Seq<u8>, Seq<u8>>,
            messages_after: Map<Seq<u8>, Seq<u8>>,
            out: Option<QueuedMessageView>,
        | #[trigger]
            lane_dequeued(
                pre.lane(p),
                pre.messages,
                pre.key,
                now,
                lane_after,
                messages_after,
                out,
            ) ==> out is None && lane_after == pre.lane(p) && messages_after == pre.messages,
        forall|lane_after: Map<Seq<u8>, Seq<u8>>, k: Seq<u8>|
            super::queue::shrunk_from_below(pre.lane(p), lane_after, now) && #[trigger] is_first(
                lane_after,
                k,
            ) ==> !key_due(k, now),
{
    let lane = pre.lane(p);
    assert forall|
        lane_after: Map<Seq<u8>, Seq<u8>>,
        messages_after: Map<Seq<u8>, Seq<u8>>,
        out: Option<QueuedMessageView>,
    | #[trigger]
        lane_dequeued(
            lane,
            pre.messages,
            pre.key,
            now,
            lane_after,
            messages_after,
            out,
        ) implies out is None && lane_after == lane && messages_after == pre.messages by {
        if lane == Map::<Seq<u8>, Seq<u8>>::empty() {
            lemma_lane_empty(lane, pre.messages, pre.key, now, lane_after, messages_after, out);
        } else {
            let k = choose|k: Seq<u8>| #[trigger] is_first(lane, k) && !key_due(k, now);
            lemma_lane_not_due(
                lane,
                pre.messages,
                pre.key,
                now,
                lane_after,
                messages_after,
                out,
                k,
            );
        }
    }
    assert forall|lane_after: Map<Seq<u8>, Seq<u8>>, k: Seq<u8>|
        super::queue::shrunk_from_below(lane, lane_after, now) && #[trigger] is_first(
            lane_after,
            k,
        ) implies !key_due(k, now) by {
        if lane == Map::<Seq<u8>, Seq<u8>>::empty() {
            assert(lane.contains_key(k));
        } else {
            let f = choose|f: Seq<u8>| #[trigger] is_first(lane, f) && !key_due(f, now);
            if !lane_after.contains_key(f) {
                assert(taken(lane, lane_after, f));
            } else if k != f {
                assert(lane.contains_key(k));
                lemma_lex_total(k, f);
            }
        }
    }
}

/// A message that was enqueued is pending as it was normalized, and the queue
/// is as consistent as it was.
pub proof fn lemma_enqueue_consistent(
    pre: QueueState,
    message: QueuedMessageView,
    now: u64,
    post: QueueState,
)
    requires
        pre.consistent(),
        message.wf(),
        enqueue_outcome(pre, message, now, post, Ok(())),
    ensures
        post.consistent(),
        post.record(message.id) == Some(normalized(message, now)),
{
    let m = normalized(message, now);
    lemma_enqueue_keeps_consistent(pre, m, post.messages[m.id]);
}

/// Taking a message out keeps a consistent queue consistent; and what comes
/// out was pending, and due.
pub proof fn lemma_dequeue_consistent(
    pre: QueueState,
    now: u64,
    post: QueueState,
    out: Option<QueuedMessageView>,
)
    requires
        pre.consistent(),
        dequeue_outcome(pre, now, post, Ok(out)),
    ensures
        post.consistent(),
        match out {
            Some(m) => pre.record(m.id) == Some(m) && !post.messages.contains_key(m.id) && key_due(
                index_key(m.next_attempt_at, m.id),
                now,
            ),
            None => post == pre,
        },
{
    let first = first_lane(pre.high_budget);
    let second = (1 - first) as u8;
    let mid = QueueState { messages: pre.messages, ..pre.with_lane(first, post.lane(first)) };
    if lane_dequeued(
        pre.lane(first),
        pre.messages,
        pre.key,
        now,
        post.lane(first),
        post.messages,
        out,
    ) && out is Some && post.lane(second) == pre.lane(second) {
        let same = QueueState { high_budget: pre.high_budget, ..post };
        assert(same.lane(first) == post.lane(first));
        lemma_dequeue_keeps_consistent(pre, first, now, same, out);
        assert(post.consistent());
    } else {
        lemma_dequeue_keeps_consistent(pre, first, now, mid, None);
        assert(mid == pre);
        assert(post.high_budget == pre.high_budget);
        lemma_dequeue_keeps_consistent(pre, second, now, post, out);
    }
}

/// While the lane that the budget points at has a due first entry, a
/// consistent queue gives its message from that lane, and the budget moves as
/// the ratio asks: down by one after a message from the high lane, back to the
/// ratio after one from the normal lane.
pub proof fn lemma_dequeue_takes_first_lane(
    pre: QueueState,
    now: u64,
    post: QueueState,
    out: Option<QueuedMessageView>,
    k: Seq<u8>,
)
    requires
        pre.consistent(),
        is_first(pre.lane(first_lane(pre.high_budget)), k),
        key_due(k, now),
        dequeue_outcome(pre, now, post, Ok(out)),
    ensures
        out matches Some(m) && lane_of(m.priority) == first_lane(pre.high_budget) && index_key(
            m.next_attempt_at,
            m.id,
        ) == k,
        post.high_budget == budget_after(pre.ratio, pre.high_budget, first_lane(pre.high_budget)),
{
    let first = first_lane(pre.high_budget);
    let lane = pre.lane(first);
    let after = post.lane(first);
    assert(pre.lane(first).contains_key(k));
    assert(pre.messages.contains_key(lane[k]));
    // The first lane cannot have given nothing: its first entry is due and
    // has its record.
    if lane_dequeued(lane, pre.messages, pre.key, now, after, pre.messages, None) {
        if after.contains_key(k) {
            assert forall|k2: Seq<u8>| after.contains_key(k2) && k2 != k implies lex_lt(k, k2) by {
                assert(lane.contains_key(k2));
            }
            assert(is_first(after, k));
        } else {
            assert(taken(lane, after, k));
        }
        assert(false);
    }
    let m = out->0;
    let mid = QueueState { high_budget: pre.high_budget, ..post };
    assert(mid.lane(first) == post.lane(first));
    lemma_dequeue_keeps_consistent(pre, first, now, mid, out);
    let km = index_key(m.next_attempt_at, m.id);
    assert(pre.lane(lane_of(m.priority)).contains_key(km));
    assert(taken(lane, after, km)) by {
        assert(after == lane.remove(km));
        let taken_key = choose|t: Seq<u8>| #[trigger] taken(lane, after, t);
        assert(taken_key == km);
    }
    if km != k {
        assert(lex_lt(k, km));
        assert(after.contains_key(k));
        assert(lex_lt(km, k));
        lemma_lex_total(k, km);
    }
    lemma_one_entry_per_message(pre, first, km, lane_of(m.priority), km);
}

/// After the `n`-th failure in a row of a message at `now`, with base delay
/// `base`, the message is put back with a time of next attempt of no less than
/// `now + base * 2^min(n - 1, 20)`, as long as that time can be written as a
/// 64-bit number.
pub proof fn lemma_requeue_backoff(m: QueuedMessageView, base: u64, now: u64)
    requires
        m.retry_count < u32::MAX,
        now + base * pow2(doublings((m.retry_count + 1) as u32)) <= u64::MAX,
    ensures
        after_failure(m, base, now).retry_count == m.retry_count + 1,
        normalized(after_failure(m, base, now), now).next_attempt_at >= now + base * pow2(
            doublings((m.retry_count + 1) as u32),
        ),
        doublings((m.retry_count + 1) as u32) == if m.retry_count < 20 {
            m.retry_count as nat
        } else {
            20
        },
{
    let n = (m.retry_count + 1) as u32;
    lemma_backoff_lower_bound(now, base, n);
    let put_back = after_failure(m, base, now);
    if put_back.next_attempt_at == 0 {
        // then `now` and the delay are both 0, and so is the bound
        assert(now == 0);
    }
}

/// A message that has used up its retries is given up: it leaves the pending
/// store and the lanes, and its record is in the sink.
pub proof fn lemma_dead_letter_consistent(
    pre: QueueState,
    message: QueuedMessageView,
    base: u64,
    reason: Seq<char>,
    now: u64,
    post: QueueState,
)
    requires
        message.retry_count >= message.max_retries,
        requeue_or_dead_letter_outcome(pre, message, base, reason, now, post, Ok(false)),
    ensures
        !post.messages.contains_key(message.id),
        post.dead_letters.contains_key(message.id),
        pre.consistent() ==> post.consistent(),
{
    lemma_dead_letter_leaves_no_record(pre, dead_letter_for(message, reason, now));
}

/// Setting the status of a pending message keeps a consistent queue
/// consistent.
pub proof fn lemma_update_status_consistent(
    pre: QueueState,
    id: Seq<u8>,
    status: MessageStatus,
    post: QueueState,
)
    requires
        pre.consistent(),
        update_status_outcome(pre, id, status, post, Ok(())),
    ensures
        post.consistent(),
{
    if pre.messages.contains_key(id) {
        let old_record = pre.record(id)->0;
        let updated = QueuedMessageView { status, ..old_record };
        assert(old_record.id == id);
        assert(pre.lane(lane_of(old_record.priority)).contains_key(
            index_key(old_record.next_attempt_at, id),
        ));
        let k = index_key(old_record.next_attempt_at, id);
        let p = lane_of(old_record.priority);
        assert(pre.lane(p).contains_key(k) && p <= 1);
        assert(old_record.wf()) by {
            assert(pre.record(id) == Some(old_record));
            let plain = super::at_rest::unsealed(pre.messages[id], pre.key)->0;
            assert(starts_with_message(plain, old_record));
        }
        lemma_sealed_record(post.messages[id], pre.key, updated);
        assert forall|other: Seq<u8>| other != id implies post.record(other) == pre.record(
            other,
        ) by {}
        assert(post.record(id) == Some(updated));
        assert forall|q: u8, x: Seq<u8>| #[trigger] post.lane(q).contains_key(x) && q <= 1 implies {
            let id2 = post.lane(q)[x];
            &&& post.record(id2) is Some
            &&& post.record(id2)->0.id == id2
            &&& lane_of(post.record(id2)->0.priority) == q
            &&& index_key(post.record(id2)->0.next_attempt_at, id2) == x
        } by {
            assert(pre.lane(q).contains_key(x));
        }
        assert forall|id2: Seq<u8>| #[trigger] post.messages.contains_key(id2) implies {
            &&& post.record(id2) is Some
            &&& post.record(id2)->0.id == id2
            &&& post.lane(lane_of(post.record(id2)->0.priority)).contains_key(
                index_key(post.record(id2)->0.next_attempt_at, id2),
            )
            &&& post.lane(lane_of(post.record(id2)->0.priority))[index_key(
                post.record(id2)->0.next_attempt_at,
                id2,
            )] == id2
        } by {
            assert(pre.messages.contains_key(id2));
        }
    }
}

} // verus!
