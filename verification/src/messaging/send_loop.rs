//! The decisions of the send worker. The worker itself waits, dials and
//! talks; what it does with a message once an attempt is over, and how long it
//! waits between attempts to reach a peer, is decided here.

use vstd::prelude::*;
use crate::ops::Metrics;
use crate::storage::queue::{
    requeue_or_dead_letter_outcome, update_status_outcome, MessageQueue, QueueState,
};
use crate::storage::record::{MessageStatus, QueuedMessage, QueuedMessageView};
use crate::storage::StorageError;
use super::receive::{response_token, Response};

verus! {

/// How the send worker is set up.
#[derive(Clone, Debug)]
pub struct SendLoopConfig {
    pub queue_path: String,
    pub data_dir: String,
    /// The delay after a first failure, in seconds.
    pub base_backoff_secs: u64,
    /// How long the worker sleeps when nothing is due, in milliseconds.
    pub interval_ms: u64,
    /// High-lane messages sent for each normal-lane message.
    pub high_to_normal_ratio: u8,
}

/// How an attempt to deliver a message ended.
#[derive(Debug)]
pub enum Attempt {
    /// The peer answered with these bytes.
    Answered(Vec<u8>),
    /// The peer could not be reached.
    DialFailed,
    /// The connection closed before an answer came.
    ConnectionClosed,
    /// No answer came in time.
    TimedOut,
    /// The contact that the message is for is not known.
    MissingContact,
}

/// How an attempt ended, as mathematical values.
pub enum AttemptView {
    Answered(Seq<u8>),
    DialFailed,
    ConnectionClosed,
    TimedOut,
    MissingContact,
}

impl View for Attempt {
    type V = AttemptView;

    open spec fn view(&self) -> AttemptView {
        match self {
            Attempt::Answered(bytes) => AttemptView::Answered(bytes@),
            Attempt::DialFailed => AttemptView::DialFailed,
            Attempt::ConnectionClosed => AttemptView::ConnectionClosed,
            Attempt::TimedOut => AttemptView::TimedOut,
            Attempt::MissingContact => AttemptView::MissingContact,
        }
    }
}

/// What became of a message after an attempt.
#[derive(Debug, Clone, Copy, PartialEq, Eq, Structural)]
pub enum Settlement {
    /// The peer took it.
    Delivered,
    /// The peer had it already.
    AlreadyDelivered,
    /// It waits for its next attempt.
    Requeued,
    /// It was given up.
    DeadLettered,
}

/// What an answer says: `NACK` and `REPLAY` are themselves, and every other
/// answer is an acknowledgement.
pub open spec fn answer_of(bytes: Seq<u8>) -> Response {
    if bytes == response_token(Response::Nack) {
        Response::Nack
    } else if bytes == response_token(Response::Replay) {
        Response::Replay
    } else {
        Response::Ack
    }
}

/// The reason that is recorded for a failed attempt.
pub open spec fn failure_reason(attempt: AttemptView) -> Seq<char> {
    match attempt {
        AttemptView::Answered(_) => "nack"@,
        AttemptView::DialFailed => "dial failed"@,
        AttemptView::ConnectionClosed => "connection closed"@,
        AttemptView::TimedOut => "timeout"@,
        AttemptView::MissingContact => "missing contact"@,
    }
}

/// Whether the attempt counts as failed: every one that brought no answer, and
/// the answer `NACK`.
pub open spec fn attempt_failed(attempt: AttemptView) -> bool {
    match attempt {
        AttemptView::Answered(bytes) => answer_of(bytes) == Response::Nack,
        _ => true,
    }
}

/// `n + 1`, or `n` where that does not fit.
pub open spec fn bumped(n: u64) -> u64 {
    if n == u64::MAX {
        n
    } else {
        (n + 1) as u64
    }
}

/// The counters after an attempt: every attempt that reached out counts as
/// sent, an acknowledged one as delivered, a failed one as failed.
pub open spec fn counted(m: Metrics, attempt: AttemptView) -> Metrics {
    let sent = if attempt is MissingContact {
        m.sent_messages
    } else {
        bumped(m.sent_messages)
    };
    if attempt_failed(attempt) {
        Metrics { sent_messages: sent, failed_messages: bumped(m.failed_messages), ..m }
    } else if attempt matches AttemptView::Answered(bytes) && answer_of(bytes) == Response::Ack {
        Metrics { sent_messages: sent, delivered_messages: bumped(m.delivered_messages), ..m }
    } else {
        Metrics { sent_messages: sent, ..m }
    }
}

/// What settling an attempt at `now` does to a queue in state `pre`. After an
/// acknowledgement the message is marked as delivered at `now`. After the
/// answer `REPLAY` the peer has it already, and nothing is left to do. After
/// anything else the message is put back with its backoff, or given up where
/// its retries are used up.
pub open spec fn settled(
    pre: QueueState,
    message: QueuedMessageView,
    attempt: AttemptView,
    base: u64,
    now: u64,
    post: QueueState,
    r: Result<Settlement, StorageError>,
) -> bool {
    if attempt_failed(attempt) {
        match r {
            Ok(s) => s == (if message.retry_count >= message.max_retries {
                Settlement::DeadLettered
            } else {
                Settlement::Requeued
            }) && requeue_or_dead_letter_outcome(
                pre,
                message,
                base,
                failure_reason(attempt),
                now,
                post,
                Ok(s == Settlement::Requeued),
            ),
            Err(e) => requeue_or_dead_letter_outcome(
                pre,
                message,
                base,
                failure_reason(attempt),
                now,
                post,
                Err(e),
            ),
        }
    } else if attempt matches AttemptView::Answered(bytes) && answer_of(bytes)
        == Response::Replay {
        r == Ok::<Settlement, StorageError>(Settlement::AlreadyDelivered) && post == pre
    } else {
        match r {
            Ok(s) => s == Settlement::Delivered && update_status_outcome(
                pre,
                message.id,
                MessageStatus::Delivered(now),
                post,
                Ok(()),
            ),
            Err(e) => update_status_outcome(
                pre,
                message.id,
                MessageStatus::Delivered(now),
                post,
                Err(e),
            ),
        }
    }
}

/// What an answer says.
pub fn classify_answer(bytes: &[u8]) -> (answer: Response)
    ensures
        answer == answer_of(bytes@),
{
    let nack = Response::Nack.token();
    let replay = Response::Replay.token();
    if crate::bytes::bytes_eq(bytes, nack.as_slice()) {
        Response::Nack
    } else if crate::bytes::bytes_eq(bytes, replay.as_slice()) {
        Response::Replay
    } else {
        Response::Ack
    }
}

/// How an attempt ended that may not have come about: whatever kept it from
/// coming about counts as a peer that could not be reached, so that the
/// message is put back or given up like any other that failed.
pub fn attempt_or_failed_dial<E>(outcome: Result<Attempt, E>) -> (attempt: Attempt)
    ensures
        attempt@ == match outcome {
            Ok(a) => a@,
            Err(_) => AttemptView::DialFailed,
        },
{
    match outcome {
        Ok(a) => a,
        Err(_) => Attempt::DialFailed,
    }
}

/// One more, stopping at the largest number.
fn bump(n: u64) -> (m: u64)
    ensures
        m == bumped(n),
{
    n.saturating_add(1)
}

/// Settles an attempt at `now`: counts it, and does with the message what the
/// way the attempt ended asks for.
pub fn settle_at(
    queue: &mut MessageQueue,
    metrics: &mut Metrics,
    message: QueuedMessage,
    attempt: &Attempt,
    base_backoff_secs: u64,
    now: u64,
) -> (r: Result<Settlement, StorageError>)
    ensures
        *final(metrics) == counted(*old(metrics), attempt@),
        settled(old(queue)@, message@, attempt@, base_backoff_secs, now, final(queue)@, r),
{
    let answer = match attempt {
        Attempt::Answered(bytes) => Some(classify_answer(bytes.as_slice())),
        _ => None,
    };
    match attempt {
        Attempt::MissingContact => {},
        _ => {
            metrics.sent_messages = bump(metrics.sent_messages);
        },
    }
    let reason = match attempt {
        Attempt::Answered(_) => "nack",
        Attempt::DialFailed => "dial failed",
        Attempt::ConnectionClosed => "connection closed",
        Attempt::TimedOut => "timeout",
        Attempt::MissingContact => "missing contact",
    };
    match answer {
        Some(Response::Ack) => {
            metrics.delivered_messages = bump(metrics.delivered_messages);
            match queue.update_status(message.id, MessageStatus::Delivered(now)) {
                Ok(()) => Ok(Settlement::Delivered),
                Err(e) => Err(e),
            }
        },
        Some(Response::Replay) => Ok(Settlement::AlreadyDelivered),
        _ => {
            metrics.failed_messages = bump(metrics.failed_messages);
            match queue.requeue_or_dead_letter_at(message, base_backoff_secs, reason, now) {
                Ok(true) => Ok(Settlement::Requeued),
                Ok(false) => Ok(Settlement::DeadLettered),
                Err(e) => Err(e),
            }
        },
    }
}

/// Where the worker stands with its attempts to reach one peer.
#[derive(Debug, Clone, Copy, PartialEq, Eq, Structural)]
pub struct RetryState {
    /// Attempts that failed so far.
    pub attempt: u32,
    /// The wait before the next attempt, in milliseconds.
    pub delay_ms: u64,
}

/// The wait after `delay_ms`: twice as long, but no longer than
/// `max_backoff_ms`.
pub open spec fn next_delay(delay_ms: u64, max_backoff_ms: u64) -> u64 {
    if delay_ms * 2 > max_backoff_ms {
        max_backoff_ms
    } else {
        (delay_ms * 2) as u64
    }
}

/// Where the worker stands after one more failed attempt, or nothing where it
/// gives up: it gives up once more attempts have failed than there are
/// retries; else it waits `delay_ms` and then tries again with the next delay.
pub open spec fn after_failed_attempt(
    state: RetryState,
    retries: u32,
    max_backoff_ms: u64,
) -> Option<RetryState> {
    if state.attempt >= retries {
        None
    } else {
        Some(
            RetryState {
                attempt: (state.attempt + 1) as u32,
                delay_ms: next_delay(state.delay_ms, max_backoff_ms),
            },
        )
    }
}

/// Where the worker stands after one more failed attempt.
pub fn retry_after_failure(state: RetryState, retries: u32, max_backoff_ms: u64) -> (next: Option<
    RetryState,
>)
    ensures
        next == after_failed_attempt(state, retries, max_backoff_ms),
{
    if state.attempt >= retries {
        return None;
    }
    let doubled: u64 = match state.delay_ms.checked_mul(2) {
        Some(d) => d,
        None => u64::MAX,
    };
    let delay_ms: u64 = if doubled > max_backoff_ms {
        max_backoff_ms
    } else {
        doubled
    };
    Some(RetryState { attempt: state.attempt + 1, delay_ms })
}

} // verus!
