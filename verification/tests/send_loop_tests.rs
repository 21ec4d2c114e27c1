use secure_p2p_msg::messaging::receive::Response;
use secure_p2p_msg::messaging::send_loop::{
    attempt_or_failed_dial, classify_answer, retry_after_failure, settle_at, Attempt, RetryState,
    Settlement,
};
use secure_p2p_msg::ops::Metrics;
use secure_p2p_msg::storage::at_rest::AtRestKey;
use secure_p2p_msg::storage::lanes::{choose_first_lane, spend};
use secure_p2p_msg::storage::queue::MessageQueue;
use secure_p2p_msg::storage::record::{MessageStatus, QueuedMessage};

fn open(dir: &tempfile::TempDir) -> MessageQueue {
    MessageQueue::new(dir.path().to_str().unwrap(), AtRestKey::from_bytes([7u8; 32])).unwrap()
}

fn message(id: u8, retries: u32) -> QueuedMessage {
    QueuedMessage {
        id: [id; 16],
        contact_id: 1,
        payload: vec![id],
        created: 5,
        priority: 1,
        status: MessageStatus::Pending,
        retry_count: retries,
        next_attempt_at: 5,
        max_retries: 2,
    }
}

#[test]
fn answers_are_classified() {
    assert_eq!(classify_answer(b"ACK"), Response::Ack);
    assert_eq!(classify_answer(b"NACK"), Response::Nack);
    assert_eq!(classify_answer(b"REPLAY"), Response::Replay);
    assert_eq!(classify_answer(b""), Response::Ack);
    assert_eq!(classify_answer(b"nack"), Response::Ack);
    assert_eq!(classify_answer(b"NACK "), Response::Ack);
    assert_eq!(classify_answer(b"anything"), Response::Ack);
}

#[test]
fn attempts_are_settled() {
    sodiumoxide::init().unwrap();
    let dir = tempfile::tempdir().unwrap();
    let mut q = open(&dir);
    let mut metrics = Metrics::new();

    let s = settle_at(&mut q, &mut metrics, message(1, 0), &Attempt::Answered(b"NACK".to_vec()), 3, 100)
        .unwrap();
    assert_eq!(s, Settlement::Requeued);
    let s = settle_at(&mut q, &mut metrics, message(2, 2), &Attempt::DialFailed, 3, 100).unwrap();
    assert_eq!(s, Settlement::DeadLettered);
    let s = settle_at(&mut q, &mut metrics, message(3, 1), &Attempt::TimedOut, 3, 100).unwrap();
    assert_eq!(s, Settlement::Requeued);
    let s = settle_at(&mut q, &mut metrics, message(4, 5), &Attempt::ConnectionClosed, 3, 100)
        .unwrap();
    assert_eq!(s, Settlement::DeadLettered);
    let s = settle_at(&mut q, &mut metrics, message(5, 0), &Attempt::MissingContact, 3, 100).unwrap();
    assert_eq!(s, Settlement::Requeued);
    let s = settle_at(&mut q, &mut metrics, message(6, 0), &Attempt::Answered(b"REPLAY".to_vec()), 3, 100)
        .unwrap();
    assert_eq!(s, Settlement::AlreadyDelivered);
    let s = settle_at(&mut q, &mut metrics, message(7, 0), &Attempt::Answered(b"ACK".to_vec()), 3, 100)
        .unwrap();
    assert_eq!(s, Settlement::Delivered);

    assert_eq!(
        metrics,
        Metrics { sent_messages: 6, delivered_messages: 1, failed_messages: 5, received_messages: 0 }
    );
    assert_eq!(q.len().unwrap(), 3);
    let dead = q.list_dead_letters().unwrap();
    assert_eq!(dead.len(), 2);
    assert_eq!(dead[0].last_error, "dial failed");
    assert_eq!(dead[1].last_error, "connection closed");
    // first failure of messages 1 and 5: due again 3 seconds later
    assert!(q.dequeue_at(102).unwrap().is_none());
    let first = q.dequeue_at(103).unwrap().unwrap();
    assert_eq!((first.id, first.retry_count, first.next_attempt_at), ([1u8; 16], 1, 103));
    assert_eq!(q.dequeue_at(103).unwrap().unwrap().id, [5u8; 16]);
    // second failure of message 3: due again 6 seconds later
    assert!(q.dequeue_at(105).unwrap().is_none());
    let last = q.dequeue_at(106).unwrap().unwrap();
    assert_eq!((last.id, last.retry_count, last.next_attempt_at), ([3u8; 16], 2, 106));
}

#[test]
fn reconnects_back_off_up_to_the_ceiling() {
    let start = RetryState { attempt: 0, delay_ms: 500 };
    let one = retry_after_failure(start, 5, 5000).unwrap();
    assert_eq!(one, RetryState { attempt: 1, delay_ms: 1000 });
    let two = retry_after_failure(one, 5, 5000).unwrap();
    let three = retry_after_failure(two, 5, 5000).unwrap();
    let four = retry_after_failure(three, 5, 5000).unwrap();
    assert_eq!(four, RetryState { attempt: 4, delay_ms: 5000 });
    let five = retry_after_failure(four, 5, 5000).unwrap();
    assert_eq!(five, RetryState { attempt: 5, delay_ms: 5000 });
    assert_eq!(retry_after_failure(five, 5, 5000), None);
    assert_eq!(retry_after_failure(start, 0, 5000), None);
    let huge = RetryState { attempt: 0, delay_ms: u64::MAX };
    assert_eq!(retry_after_failure(huge, 1, u64::MAX).unwrap().delay_ms, u64::MAX);
}

#[test]
fn the_budget_shares_the_lanes_by_the_ratio() {
    // three from the high lane, then one from the normal lane, and again
    let ratio = 3u8;
    let mut budget = ratio;
    let mut picks = Vec::new();
    for _ in 0..8 {
        let lane = choose_first_lane(budget);
        picks.push(lane);
        budget = spend(ratio, budget, lane);
    }
    assert_eq!(picks, vec![0, 0, 0, 1, 0, 0, 0, 1]);
    // every window of ratio + 1 picks holds one from the normal lane
    for window in picks.windows(4) {
        assert_eq!(window.iter().filter(|lane| **lane == 1).count(), 1);
    }
    // a message from the lane that was not asked first leaves the budget alone
    assert_eq!(spend(3, 2, 1), 2);
    assert_eq!(spend(3, 0, 0), 0);
    assert_eq!(spend(3, 0, 1), 3);
    assert_eq!(spend(3, 1, 0), 0);
    assert_eq!(choose_first_lane(0), 1);
    assert_eq!(choose_first_lane(1), 0);
}

#[test]
fn an_attempt_that_did_not_come_about_is_a_failed_dial() {
    let kept = attempt_or_failed_dial::<String>(Ok(Attempt::Answered(b"ACK".to_vec())));
    assert!(matches!(kept, Attempt::Answered(bytes) if bytes == b"ACK"));
    assert!(matches!(attempt_or_failed_dial::<String>(Ok(Attempt::TimedOut)), Attempt::TimedOut));
    assert!(matches!(
        attempt_or_failed_dial::<String>(Ok(Attempt::MissingContact)),
        Attempt::MissingContact
    ));
    assert!(matches!(attempt_or_failed_dial(Err("no contact store")), Attempt::DialFailed));
}
