//! The records that the queue keeps, and their stored form: fields in a fixed
//! order, numbers little-endian, byte strings and texts behind their length.

use vstd::prelude::*;
use vstd::utf8::encode_utf8;
use crate::bytes::{put_u32_le, put_u64_le, to_array, u32_le, u64_le};
use crate::codec::{
    lemma_cancel, lemma_cancel_len_prefixed, lemma_cancel_text, lemma_cancel_u32,
    lemma_cancel_u64, len_prefixed, put_len_prefixed, put_text, take_len_prefixed, take_text,
    take_u32, take_u64, take_u8, text_field,
};

verus! {

/// Where a queued message stands.
#[derive(Debug, Clone, Copy, PartialEq, Eq, Structural)]
pub enum MessageStatus {
    Pending,
    Transmitting,
    Canceled,
    /// Delivered at the given time, in seconds.
    Delivered(u64),
}

/// A message waiting to be sent.
#[derive(Debug, Clone, PartialEq, Eq)]
pub struct QueuedMessage {
    pub id: [u8; 16],
    pub contact_id: u64,
    pub payload: Vec<u8>,
    /// Seconds since the epoch; 0 until first enqueued.
    pub created: u64,
    /// 0 is the high lane, anything else the normal lane.
    pub priority: u8,
    pub status: MessageStatus,
    pub retry_count: u32,
    /// Seconds since the epoch from which the message may be sent.
    pub next_attempt_at: u64,
    pub max_retries: u32,
}

/// What a queued message holds, as mathematical values.
pub struct QueuedMessageView {
    pub id: Seq<u8>,
    pub contact_id: u64,
    pub payload: Seq<u8>,
    pub created: u64,
    pub priority: u8,
    pub status: MessageStatus,
    pub retry_count: u32,
    pub next_attempt_at: u64,
    pub max_retries: u32,
}

impl QueuedMessageView {
    /// The fields have lengths that the stored form can hold.
    pub open spec fn wf(self) -> bool {
        self.id.len() == 16 && self.payload.len() <= u64::MAX
    }
}

impl View for QueuedMessage {
    type V = QueuedMessageView;

    open spec fn view(&self) -> QueuedMessageView {
        QueuedMessageView {
            id: self.id@,
            contact_id: self.contact_id,
            payload: self.payload@,
            created: self.created,
            priority: self.priority,
            status: self.status,
            retry_count: self.retry_count,
            next_attempt_at: self.next_attempt_at,
            max_retries: self.max_retries,
        }
    }
}

/// A message that was given up, as the dead-letter sink keeps it.
#[derive(Debug, Clone, PartialEq, Eq)]
pub struct DeadLetterRecord {
    pub id: [u8; 16],
    pub contact_id: u64,
    pub payload: Vec<u8>,
    pub failed_at: u64,
    pub attempts: u32,
    pub last_error: String,
}

/// What a dead-letter record holds, as mathematical values.
pub struct DeadLetterView {
    pub id: Seq<u8>,
    pub contact_id: u64,
    pub payload: Seq<u8>,
    pub failed_at: u64,
    pub attempts: u32,
    pub last_error: Seq<char>,
}

impl DeadLetterView {
    /// The fields have lengths that the stored form can hold.
    pub open spec fn wf(self) -> bool {
        &&& self.id.len() == 16
        &&& self.payload.len() <= u64::MAX
        &&& encode_utf8(self.last_error).len() <= u64::MAX
    }
}

impl View for DeadLetterRecord {
    type V = DeadLetterView;

    open spec fn view(&self) -> DeadLetterView {
        DeadLetterView {
            id: self.id@,
            contact_id: self.contact_id,
            payload: self.payload@,
            failed_at: self.failed_at,
            attempts: self.attempts,
            last_error: self.last_error@,
        }
    }
}

/// The stored form of a status followed by `rest`: the variant's number as a
/// little-endian 32-bit number, and behind it the delivery time where there is
/// one.
pub open spec fn status_wire_then(status: MessageStatus, rest: Seq<u8>) -> Seq<u8> {
    match status {
        MessageStatus::Pending => u32_le(0) + rest,
        MessageStatus::Transmitting => u32_le(1) + rest,
        MessageStatus::Canceled => u32_le(2) + rest,
        MessageStatus::Delivered(at) => u32_le(3) + (u64_le(at) + rest),
    }
}

/// The number that stands for a status variant.
pub open spec fn status_tag(status: MessageStatus) -> u32 {
    match status {
        MessageStatus::Pending => 0,
        MessageStatus::Transmitting => 1,
        MessageStatus::Canceled => 2,
        MessageStatus::Delivered(_) => 3,
    }
}

/// The stored form of a queued message followed by `rest`.
pub open spec fn message_wire_then(m: QueuedMessageView, rest: Seq<u8>) -> Seq<u8> {
    len_prefixed(m.id) + (u64_le(m.contact_id) + (len_prefixed(m.payload) + (u64_le(m.created) + (
    seq![m.priority] + status_wire_then(
        m.status,
        u32_le(m.retry_count) + (u64_le(m.next_attempt_at) + (u32_le(m.max_retries) + rest)),
    )))))
}

/// The stored form of a queued message.
pub open spec fn message_wire(m: QueuedMessageView) -> Seq<u8> {
    message_wire_then(m, Seq::empty())
}

/// `bytes` starts with the stored form of `m`.
pub open spec fn starts_with_message(bytes: Seq<u8>, m: QueuedMessageView) -> bool {
    m.wf() && exists|rest: Seq<u8>| bytes == #[trigger] message_wire_then(m, rest)
}

/// What decoding `bytes` as a queued message gives: the one message that
/// `bytes` starts with, or nothing where it starts with none.
pub open spec fn message_decoding(bytes: Seq<u8>, decoded: Option<QueuedMessageView>) -> bool {
    match decoded {
        Some(m) => starts_with_message(bytes, m),
        None => forall|m: QueuedMessageView| !starts_with_message(bytes, m),
    }
}

/// The queued message that `bytes` starts with, if there is one.
pub open spec fn message_of(bytes: Seq<u8>) -> Option<QueuedMessageView> {
    if exists|m: QueuedMessageView| starts_with_message(bytes, m) {
        Some(choose|m: QueuedMessageView| starts_with_message(bytes, m))
    } else {
        None
    }
}

/// `message_of` is what decoding gives.
pub proof fn lemma_message_of(bytes: Seq<u8>, decoded: Option<QueuedMessageView>)
    ensures
        message_decoding(bytes, decoded) <==> decoded == message_of(bytes),
{
    if message_decoding(bytes, decoded) {
        match decoded {
            Some(m) => {
                lemma_message_unique(bytes, m, message_of(bytes)->0);
            },
            None => {},
        }
    }
}

/// The stored form of a dead-letter record followed by `rest`.
pub open spec fn dead_letter_wire_then(d: DeadLetterView, rest: Seq<u8>) -> Seq<u8> {
    len_prefixed(d.id) + (u64_le(d.contact_id) + (len_prefixed(d.payload) + (u64_le(d.failed_at)
        + (u32_le(d.attempts) + (text_field(d.last_error) + rest)))))
}

/// The stored form of a dead-letter record.
pub open spec fn dead_letter_wire(d: DeadLetterView) -> Seq<u8> {
    dead_letter_wire_then(d, Seq::empty())
}

/// `bytes` starts with the stored form of `d`.
pub open spec fn starts_with_dead_letter(bytes: Seq<u8>, d: DeadLetterView) -> bool {
    d.wf() && exists|rest: Seq<u8>| bytes == #[trigger] dead_letter_wire_then(d, rest)
}

/// What decoding `bytes` as a dead-letter record gives.
pub open spec fn dead_letter_decoding(bytes: Seq<u8>, decoded: Option<DeadLetterView>) -> bool {
    match decoded {
        Some(d) => starts_with_dead_letter(bytes, d),
        None => forall|d: DeadLetterView| !starts_with_dead_letter(bytes, d),
    }
}

/// The dead-letter record that `bytes` starts with, if there is one.
pub open spec fn dead_letter_of(bytes: Seq<u8>) -> Option<DeadLetterView> {
    if exists|d: DeadLetterView| starts_with_dead_letter(bytes, d) {
        Some(choose|d: DeadLetterView| starts_with_dead_letter(bytes, d))
    } else {
        None
    }
}

/// `dead_letter_of` is what decoding gives.
pub proof fn lemma_dead_letter_of(bytes: Seq<u8>, decoded: Option<DeadLetterView>)
    ensures
        dead_letter_decoding(bytes, decoded) <==> decoded == dead_letter_of(bytes),
{
    if dead_letter_decoding(bytes, decoded) {
        match decoded {
            Some(d) => {
                lemma_dead_letter_unique(bytes, d, dead_letter_of(bytes)->0);
            },
            None => {},
        }
    }
}

/// Two strings that start with a stored status and are equal hold the same
/// status, and have equal rests.
pub proof fn lemma_cancel_status(a: MessageStatus, r1: Seq<u8>, b: MessageStatus, r2: Seq<u8>)
    requires
        status_wire_then(a, r1) == status_wire_then(b, r2),
    ensures
        a == b,
        r1 == r2,
{
    let ta = match a {
        MessageStatus::Delivered(at) => u64_le(at) + r1,
        _ => r1,
    };
    let tb = match b {
        MessageStatus::Delivered(at) => u64_le(at) + r2,
        _ => r2,
    };
    assert(status_wire_then(a, r1) == u32_le(status_tag(a)) + ta);
    assert(status_wire_then(b, r2) == u32_le(status_tag(b)) + tb);
    lemma_cancel_u32(status_tag(a), ta, status_tag(b), tb);
    match (a, b) {
        (MessageStatus::Delivered(x), MessageStatus::Delivered(y)) => {
            lemma_cancel_u64(x, r1, y, r2);
        },
        _ => {},
    }
}

/// Bytes start with at most one queued message.
pub proof fn lemma_message_unique(bytes: Seq<u8>, a: QueuedMessageView, b: QueuedMessageView)
    requires
        starts_with_message(bytes, a),
        starts_with_message(bytes, b),
    ensures
        a == b,
{
    let ra = choose|rest: Seq<u8>| bytes == #[trigger] message_wire_then(a, rest);
    let rb = choose|rest: Seq<u8>| bytes == #[trigger] message_wire_then(b, rest);
    let a8 = u32_le(a.max_retries) + ra;
    let b8 = u32_le(b.max_retries) + rb;
    let a7 = u64_le(a.next_attempt_at) + a8;
    let b7 = u64_le(b.next_attempt_at) + b8;
    let a6 = u32_le(a.retry_count) + a7;
    let b6 = u32_le(b.retry_count) + b7;
    let a5 = status_wire_then(a.status, a6);
    let b5 = status_wire_then(b.status, b6);
    let a4 = seq![a.priority] + a5;
    let b4 = seq![b.priority] + b5;
    let a3 = u64_le(a.created) + a4;
    let b3 = u64_le(b.created) + b4;
    let a2 = len_prefixed(a.payload) + a3;
    let b2 = len_prefixed(b.payload) + b3;
    let a1 = u64_le(a.contact_id) + a2;
    let b1 = u64_le(b.contact_id) + b2;
    lemma_cancel_len_prefixed(a.id, a1, b.id, b1);
    lemma_cancel_u64(a.contact_id, a2, b.contact_id, b2);
    lemma_cancel_len_prefixed(a.payload, a3, b.payload, b3);
    lemma_cancel_u64(a.created, a4, b.created, b4);
    lemma_cancel(seq![a.priority], a5, seq![b.priority], b5);
    assert(seq![a.priority][0] == seq![b.priority][0]);
    lemma_cancel_status(a.status, a6, b.status, b6);
    lemma_cancel_u32(a.retry_count, a7, b.retry_count, b7);
    lemma_cancel_u64(a.next_attempt_at, a8, b.next_attempt_at, b8);
    lemma_cancel_u32(a.max_retries, ra, b.max_retries, rb);
}

/// Decoding the stored form of a queued message, whatever follows it, gives
/// that message back.
pub proof fn lemma_message_roundtrip(
    m: QueuedMessageView,
    rest: Seq<u8>,
    decoded: Option<QueuedMessageView>,
)
    requires
        m.wf(),
        message_decoding(message_wire_then(m, rest), decoded),
    ensures
        decoded == Some(m),
{
    let bytes = message_wire_then(m, rest);
    assert(starts_with_message(bytes, m));
    match decoded {
        Some(d) => {
            lemma_message_unique(bytes, d, m);
        },
        None => {},
    }
}

/// Bytes start with at most one dead-letter record.
pub proof fn lemma_dead_letter_unique(bytes: Seq<u8>, a: DeadLetterView, b: DeadLetterView)
    requires
        starts_with_dead_letter(bytes, a),
        starts_with_dead_letter(bytes, b),
    ensures
        a == b,
{
    let ra = choose|rest: Seq<u8>| bytes == #[trigger] dead_letter_wire_then(a, rest);
    let rb = choose|rest: Seq<u8>| bytes == #[trigger] dead_letter_wire_then(b, rest);
    let a5 = text_field(a.last_error) + ra;
    let b5 = text_field(b.last_error) + rb;
    let a4 = u32_le(a.attempts) + a5;
    let b4 = u32_le(b.attempts) + b5;
    let a3 = u64_le(a.failed_at) + a4;
    let b3 = u64_le(b.failed_at) + b4;
    let a2 = len_prefixed(a.payload) + a3;
    let b2 = len_prefixed(b.payload) + b3;
    let a1 = u64_le(a.contact_id) + a2;
    let b1 = u64_le(b.contact_id) + b2;
    lemma_cancel_len_prefixed(a.id, a1, b.id, b1);
    lemma_cancel_u64(a.contact_id, a2, b.contact_id, b2);
    lemma_cancel_len_prefixed(a.payload, a3, b.payload, b3);
    lemma_cancel_u64(a.failed_at, a4, b.failed_at, b4);
    lemma_cancel_u32(a.attempts, a5, b.attempts, b5);
    lemma_cancel_text(a.last_error, ra, b.last_error, rb);
}

/// Decoding the stored form of a dead-letter record, whatever follows it,
/// gives that record back.
pub proof fn lemma_dead_letter_roundtrip(
    d: DeadLetterView,
    rest: Seq<u8>,
    decoded: Option<DeadLetterView>,
)
    requires
        d.wf(),
        dead_letter_decoding(dead_letter_wire_then(d, rest), decoded),
    ensures
        decoded == Some(d),
{
    let bytes = dead_letter_wire_then(d, rest);
    assert(starts_with_dead_letter(bytes, d));
    match decoded {
        Some(x) => {
            lemma_dead_letter_unique(bytes, x, d);
        },
        None => {},
    }
}

/// Appends the stored form of a status.
pub fn put_status(out: &mut Vec<u8>, status: MessageStatus)
    ensures
        final(out)@ == old(out)@ + status_wire_then(status, Seq::empty()),
{
    let ghost before = out@;
    match status {
        MessageStatus::Pending => put_u32_le(out, 0),
        MessageStatus::Transmitting => put_u32_le(out, 1),
        MessageStatus::Canceled => put_u32_le(out, 2),
        MessageStatus::Delivered(at) => {
            put_u32_le(out, 3);
            put_u64_le(out, at);
        },
    }
    proof {
        assert(out@ =~= before + status_wire_then(status, Seq::empty()));
    }
}

/// Peels a stored status off the front of `data[pos..]`. It fails exactly when
/// what is left does not start with one.
pub fn take_status(data: &[u8], pos: usize) -> (r: Option<(MessageStatus, usize)>)
    requires
        pos <= data.len(),
    ensures
        match r {
            Some((status, next)) => next <= data.len() && data@.skip(pos as int)
                == status_wire_then(status, data@.skip(next as int)),
            None => forall|s: MessageStatus, rest: Seq<u8>|
                data@.skip(pos as int) != #[trigger] status_wire_then(s, rest),
        },
{
    let ghost left = data@.skip(pos as int);
    let tagged = take_u32(data, pos);
    let timed = match tagged {
        Some((tag, next)) => if tag == 3 {
            take_u64(data, next)
        } else {
            None
        },
        None => None,
    };
    proof {
        crate::bytes::lemma_pow256_values();
        assert forall|s: MessageStatus, rest: Seq<u8>|
            left == #[trigger] status_wire_then(s, rest) implies tagged is Some && (tagged->0).0
            == status_tag(s) && (s is Delivered ==> timed is Some) by {
            let tail = match s {
                MessageStatus::Delivered(at) => u64_le(at) + rest,
                _ => rest,
            };
            assert(status_wire_then(s, rest) == u32_le(status_tag(s)) + tail);
            crate::bytes::lemma_le_roundtrip(status_tag(s) as nat, 4);
            assert(tagged is Some);
            let next = (tagged->0).1;
            lemma_cancel_u32(status_tag(s), tail, (tagged->0).0, data@.skip(next as int));
            if let MessageStatus::Delivered(at) = s {
                crate::bytes::lemma_le_roundtrip(at as nat, 8);
            }
        }
    }
    match tagged {
        None => None,
        Some((tag, next)) => {
            if tag == 0 {
                Some((MessageStatus::Pending, next))
            } else if tag == 1 {
                Some((MessageStatus::Transmitting, next))
            } else if tag == 2 {
                Some((MessageStatus::Canceled, next))
            } else if tag == 3 {
                match timed {
                    Some((at, after)) => Some((MessageStatus::Delivered(at), after)),
                    None => None,
                }
            } else {
                None
            }
        },
    }
}

impl QueuedMessage {
    /// The stored form.
    pub fn encode(&self) -> (out: Vec<u8>)
        ensures
            out@ == message_wire(self@),
    {
        let mut out: Vec<u8> = Vec::new();
        put_len_prefixed(&mut out, self.id.as_slice());
        put_u64_le(&mut out, self.contact_id);
        put_len_prefixed(&mut out, self.payload.as_slice());
        put_u64_le(&mut out, self.created);
        out.push(self.priority);
        put_status(&mut out, self.status);
        put_u32_le(&mut out, self.retry_count);
        put_u64_le(&mut out, self.next_attempt_at);
        put_u32_le(&mut out, self.max_retries);
        proof {
            assert(out@ =~= message_wire(self@));
        }
        out
    }

    /// Reads the queued message that `bytes` starts with. Bytes behind it are
    /// ignored. Fails exactly when `bytes` starts with no queued message.
    pub fn decode(bytes: &[u8]) -> (decoded: Option<QueuedMessage>)
        ensures
            message_decoding(
                bytes@,
                match decoded {
                    Some(m) => Some(m@),
                    None => None,
                },
            ),
            message_of(bytes@) == match decoded {
                Some(m) => Some(m@),
                None => None,
            },
    {
        let decoded = Self::read_from(bytes);
        proof {
            if decoded is Some {
                lemma_message_of(bytes@, Some(decoded->0@));
            } else {
                lemma_message_of(bytes@, None);
            }
        }
        decoded
    }

    fn read_from(bytes: &[u8]) -> (decoded: Option<QueuedMessage>)
        ensures
            message_decoding(
                bytes@,
                match decoded {
                    Some(m) => Some(m@),
                    None => None,
                },
            ),
    {
        let ghost all = bytes@;
        proof {
            assert(all =~= all.skip(0));
        }
        let r1 = take_len_prefixed(bytes, 0);
        let r2 = match &r1 {
            Some((_, p)) => take_u64(bytes, *p),
            None => None,
        };
        let r3 = match r2 {
            Some((_, p)) => take_len_prefixed(bytes, p),
            None => None,
        };
        let r4 = match &r3 {
            Some((_, p)) => take_u64(bytes, *p),
            None => None,
        };
        let r5 = match r4 {
            Some((_, p)) => take_u8(bytes, p),
            None => None,
        };
        let r6 = match r5 {
            Some((_, p)) => take_status(bytes, p),
            None => None,
        };
        let r7 = match r6 {
            Some((_, p)) => take_u32(bytes, p),
            None => None,
        };
        let r8 = match r7 {
            Some((_, p)) => take_u64(bytes, p),
            None => None,
        };
        let r9 = match r8 {
            Some((_, p)) => take_u32(bytes, p),
            None => None,
        };
        proof {
            // Whatever message `bytes` starts with agrees, field by field, with
            // what has been read, as far as reading went.
            assert forall|m: QueuedMessageView| starts_with_message(all, m) implies r9 is Some && (
            QueuedMessageView {
                id: (r1->0).0@,
                contact_id: (r2->0).0,
                payload: (r3->0).0@,
                created: (r4->0).0,
                priority: (r5->0).0,
                status: (r6->0).0,
                retry_count: (r7->0).0,
                next_attempt_at: (r8->0).0,
                max_retries: (r9->0).0,
            }) == m by {
                let rest = choose|rest: Seq<u8>| all == #[trigger] message_wire_then(m, rest);
                let m8 = u32_le(m.max_retries) + rest;
                let m7 = u64_le(m.next_attempt_at) + m8;
                let m6 = u32_le(m.retry_count) + m7;
                let m5 = status_wire_then(m.status, m6);
                let m4 = seq![m.priority] + m5;
                let m3 = u64_le(m.created) + m4;
                let m2 = len_prefixed(m.payload) + m3;
                let m1 = u64_le(m.contact_id) + m2;
                crate::bytes::lemma_pow256_values();
                crate::bytes::lemma_le_roundtrip(m.contact_id as nat, 8);
                crate::bytes::lemma_le_roundtrip(m.created as nat, 8);
                crate::bytes::lemma_le_roundtrip(m.retry_count as nat, 4);
                crate::bytes::lemma_le_roundtrip(m.next_attempt_at as nat, 8);
                crate::bytes::lemma_le_roundtrip(m.max_retries as nat, 4);
                assert(r1 is Some);
                lemma_cancel_len_prefixed(m.id, m1, (r1->0).0@, all.skip((r1->0).1 as int));
                assert(r2 is Some);
                lemma_cancel_u64(m.contact_id, m2, (r2->0).0, all.skip((r2->0).1 as int));
                assert(r3 is Some);
                lemma_cancel_len_prefixed(m.payload, m3, (r3->0).0@, all.skip((r3->0).1 as int));
                assert(r4 is Some);
                lemma_cancel_u64(m.created, m4, (r4->0).0, all.skip((r4->0).1 as int));
                assert(r5 is Some);
                lemma_cancel(seq![m.priority], m5, seq![(r5->0).0], all.skip((r5->0).1 as int));
                assert(seq![m.priority][0] == seq![(r5->0).0][0]);
                assert(r6 is Some);
                lemma_cancel_status(m.status, m6, (r6->0).0, all.skip((r6->0).1 as int));
                assert(r7 is Some);
                lemma_cancel_u32(m.retry_count, m7, (r7->0).0, all.skip((r7->0).1 as int));
                assert(r8 is Some);
                lemma_cancel_u64(m.next_attempt_at, m8, (r8->0).0, all.skip((r8->0).1 as int));
                assert(r9 is Some);
                lemma_cancel_u32(m.max_retries, rest, (r9->0).0, all.skip((r9->0).1 as int));
            }
        }
        match (r1, r2, r3, r4, r5, r6, r7, r8, r9) {
            (
                Some((id, _)),
                Some((contact_id, _)),
                Some((payload, _)),
                Some((created, _)),
                Some((priority, _)),
                Some((status, _)),
                Some((retry_count, _)),
                Some((next_attempt_at, _)),
                Some((max_retries, end)),
            ) => {
                if id.len() != 16 {
                    return None;
                }
                let m = QueuedMessage {
                    id: to_array::<16>(id.as_slice()),
                    contact_id,
                    payload,
                    created,
                    priority,
                    status,
                    retry_count,
                    next_attempt_at,
                    max_retries,
                };
                proof {
                    assert(all == message_wire_then(m@, all.skip(end as int)));
                }
                Some(m)
            },
            _ => None,
        }
    }
}

impl DeadLetterRecord {
    /// The stored form.
    pub fn encode(&self) -> (out: Vec<u8>)
        ensures
            out@ == dead_letter_wire(self@),
    {
        let mut out: Vec<u8> = Vec::new();
        put_len_prefixed(&mut out, self.id.as_slice());
        put_u64_le(&mut out, self.contact_id);
        put_len_prefixed(&mut out, self.payload.as_slice());
        put_u64_le(&mut out, self.failed_at);
        put_u32_le(&mut out, self.attempts);
        put_text(&mut out, self.last_error.as_str());
        proof {
            assert(out@ =~= dead_letter_wire(self@));
        }
        out
    }

    /// Reads the dead-letter record that `bytes` starts with. Bytes behind it
    /// are ignored. Fails exactly when `bytes` starts with no such record.
    pub fn decode(bytes: &[u8]) -> (decoded: Option<DeadLetterRecord>)
        ensures
            dead_letter_decoding(
                bytes@,
                match decoded {
                    Some(d) => Some(d@),
                    None => None,
                },
            ),
            dead_letter_of(bytes@) == match decoded {
                Some(d) => Some(d@),
                None => None,
            },
    {
        let decoded = Self::read_from(bytes);
        proof {
            if decoded is Some {
                lemma_dead_letter_of(bytes@, Some(decoded->0@));
            } else {
                lemma_dead_letter_of(bytes@, None);
            }
        }
        decoded
    }

    fn read_from(bytes: &[u8]) -> (decoded: Option<DeadLetterRecord>)
        ensures
            dead_letter_decoding(
                bytes@,
                match decoded {
                    Some(d) => Some(d@),
                    None => None,
                },
            ),
    {
        let ghost all = bytes@;
        proof {
            assert(all =~= all.skip(0));
        }
        let r1 = take_len_prefixed(bytes, 0);
        let r2 = match &r1 {
            Some((_, p)) => take_u64(bytes, *p),
            None => None,
        };
        let r3 = match r2 {
            Some((_, p)) => take_len_prefixed(bytes, p),
            None => None,
        };
        let r4 = match &r3 {
            Some((_, p)) => take_u64(bytes, *p),
            None => None,
        };
        let r5 = match r4 {
            Some((_, p)) => take_u32(bytes, p),
            None => None,
        };
        let r6 = match r5 {
            Some((_, p)) => take_text(bytes, p),
            None => None,
        };
        proof {
            assert forall|d: DeadLetterView| starts_with_dead_letter(all, d) implies r6 is Some && (
            DeadLetterView {
                id: (r1->0).0@,
                contact_id: (r2->0).0,
                payload: (r3->0).0@,
                failed_at: (r4->0).0,
                attempts: (r5->0).0,
                last_error: (r6->0).0@,
            }) == d by {
                let rest = choose|rest: Seq<u8>| all == #[trigger] dead_letter_wire_then(d, rest);
                let d5 = text_field(d.last_error) + rest;
                let d4 = u32_le(d.attempts) + d5;
                let d3 = u64_le(d.failed_at) + d4;
                let d2 = len_prefixed(d.payload) + d3;
                let d1 = u64_le(d.contact_id) + d2;
                crate::bytes::lemma_pow256_values();
                crate::bytes::lemma_le_roundtrip(d.contact_id as nat, 8);
                crate::bytes::lemma_le_roundtrip(d.failed_at as nat, 8);
                crate::bytes::lemma_le_roundtrip(d.attempts as nat, 4);
                assert(r1 is Some);
                lemma_cancel_len_prefixed(d.id, d1, (r1->0).0@, all.skip((r1->0).1 as int));
                assert(r2 is Some);
                lemma_cancel_u64(d.contact_id, d2, (r2->0).0, all.skip((r2->0).1 as int));
                assert(r3 is Some);
                lemma_cancel_len_prefixed(d.payload, d3, (r3->0).0@, all.skip((r3->0).1 as int));
                assert(r4 is Some);
                lemma_cancel_u64(d.failed_at, d4, (r4->0).0, all.skip((r4->0).1 as int));
                assert(r5 is Some);
                lemma_cancel_u32(d.attempts, d5, (r5->0).0, all.skip((r5->0).1 as int));
                assert(r6 is Some);
                lemma_cancel_text(d.last_error, rest, (r6->0).0@, all.skip((r6->0).1 as int));
            }
        }
        match (r1, r2, r3, r4, r5, r6) {
            (
                Some((id, _)),
                Some((contact_id, _)),
                Some((payload, _)),
                Some((failed_at, _)),
                Some((attempts, _)),
                Some((last_error, end)),
            ) => {
                if id.len() != 16 {
                    return None;
                }
                let d = DeadLetterRecord {
                    id: to_array::<16>(id.as_slice()),
                    contact_id,
                    payload,
                    failed_at,
                    attempts,
                    last_error,
                };
                proof {
                    assert(all == dead_letter_wire_then(d@, all.skip(end as int)));
                }
                Some(d)
            },
            _ => None,
        }
    }
}

} // verus!
