use secure_p2p_msg::storage::at_rest::AtRestKey;
use secure_p2p_msg::storage::backoff::{compute_backoff, compute_next_attempt};
use secure_p2p_msg::storage::queue::MessageQueue;
use secure_p2p_msg::storage::record::{DeadLetterRecord, MessageStatus, QueuedMessage};
use uuid::Uuid;

fn open(dir: &tempfile::TempDir) -> MessageQueue {
    MessageQueue::new(dir.path().to_str().unwrap(), AtRestKey::from_bytes([7u8; 32])).unwrap()
}

#[test]
fn exponential_backoff_and_dead_letter() {
    sodiumoxide::init().unwrap();
    let dir = tempfile::tempdir().unwrap();
    let mut q = open(&dir);

    let id = *Uuid::new_v4().as_bytes();
    let msg = QueuedMessage {
        id,
        contact_id: 7,
        payload: b"x".to_vec(),
        created: 0,
        priority: 1,
        status: MessageStatus::Pending,
        retry_count: 0,
        next_attempt_at: 0,
        max_retries: 2,
    };
    q.enqueue(msg).unwrap();

    // First dequeue should return Some (due immediately)
    let mut m = q.dequeue().unwrap().expect("expected msg");
    // Simulate failure -> requeue with backoff
    q.requeue_with_backoff(m, 1).unwrap();

    // Immediately dequeuing again should yield None due to backoff
    assert!(q.dequeue().unwrap().is_none());

    // Force schedule to now by crafting a due message
    m = QueuedMessage {
        id: *Uuid::new_v4().as_bytes(),
        contact_id: 7,
        payload: vec![],
        created: 0,
        priority: 1,
        status: MessageStatus::Pending,
        retry_count: 2,
        next_attempt_at: 0,
        max_retries: 2,
    };
    let dead_id = m.id;
    q.requeue_or_dead_letter(m, 1, "fail").unwrap();
    // Since retry_count >= max_retries, it should be placed into DLQ
    assert_eq!(q.dead_letter_len().unwrap(), 1);
    let pending = q.get_pending_messages().unwrap();
    assert!(pending.iter().all(|p| p.id != dead_id));
}

#[test]
fn backoff_doubles_up_to_twenty_times() {
    assert_eq!(compute_backoff(1, 1), 1);
    assert_eq!(compute_backoff(1, 2), 2);
    assert_eq!(compute_backoff(3, 4), 24);
    assert_eq!(compute_backoff(5, 21), 5 * (1 << 20));
    assert_eq!(compute_backoff(5, 22), 5 * (1 << 20));
    assert_eq!(compute_backoff(5, u32::MAX), 5 * (1 << 20));
    assert_eq!(compute_backoff(7, 0), 7);
    assert_eq!(compute_backoff(0, 9), 0);
    assert_eq!(compute_backoff(u64::MAX, 2), u64::MAX);
    assert_eq!(compute_next_attempt(100, 2, 3), 108);
    assert_eq!(compute_next_attempt(u64::MAX - 1, 2, 3), u64::MAX);
}

#[test]
fn requeue_counts_the_retry_and_sets_the_time() {
    sodiumoxide::init().unwrap();
    let dir = tempfile::tempdir().unwrap();
    let mut q = open(&dir);
    let m = QueuedMessage {
        id: [1u8; 16],
        contact_id: 7,
        payload: b"x".to_vec(),
        created: 50,
        priority: 0,
        status: MessageStatus::Transmitting,
        retry_count: 2,
        next_attempt_at: 60,
        max_retries: 9,
    };
    q.requeue_with_backoff_at(m, 10, 1000).unwrap();
    assert!(q.dequeue_at(1039).unwrap().is_none());
    let back = q.dequeue_at(1040).unwrap().unwrap();
    assert_eq!(back.retry_count, 3);
    assert_eq!(back.next_attempt_at, 1040);
    assert_eq!(back.status, MessageStatus::Pending);
    assert_eq!(back.created, 50);
}

#[test]
fn requeue_or_dead_letter_says_which() {
    sodiumoxide::init().unwrap();
    let dir = tempfile::tempdir().unwrap();
    let mut q = open(&dir);
    let make = |id: u8, retries: u32| QueuedMessage {
        id: [id; 16],
        contact_id: 7,
        payload: vec![id],
        created: 50,
        priority: 1,
        status: MessageStatus::Pending,
        retry_count: retries,
        next_attempt_at: 60,
        max_retries: 2,
    };
    assert_eq!(q.requeue_or_dead_letter_at(make(1, 1), 4, "nack", 100).unwrap(), true);
    assert_eq!(q.requeue_or_dead_letter_at(make(2, 2), 4, "nack", 100).unwrap(), false);
    assert_eq!(q.requeue_or_dead_letter_at(make(3, 3), 4, "timeout", 101).unwrap(), false);
    assert_eq!(q.len().unwrap(), 1);
    assert_eq!(q.dead_letter_len().unwrap(), 2);
    let dead = q.list_dead_letters().unwrap();
    assert_eq!(
        dead,
        vec![
            DeadLetterRecord {
                id: [2u8; 16],
                contact_id: 7,
                payload: vec![2],
                failed_at: 100,
                attempts: 2,
                last_error: "nack".to_string(),
            },
            DeadLetterRecord {
                id: [3u8; 16],
                contact_id: 7,
                payload: vec![3],
                failed_at: 101,
                attempts: 3,
                last_error: "timeout".to_string(),
            },
        ]
    );
}

#[test]
fn dead_letter_takes_the_pending_record_away() {
    sodiumoxide::init().unwrap();
    let dir = tempfile::tempdir().unwrap();
    let mut q = open(&dir);
    let m = QueuedMessage {
        id: [4u8; 16],
        contact_id: 7,
        payload: vec![4],
        created: 50,
        priority: 1,
        status: MessageStatus::Pending,
        retry_count: 5,
        next_attempt_at: 60,
        max_retries: 2,
    };
    q.enqueue_at(m.clone(), 50).unwrap();
    assert_eq!(q.len().unwrap(), 1);
    q.dead_letter_at(m, "gone", 70).unwrap();
    assert_eq!(q.len().unwrap(), 0);
    assert!(q.get_pending_messages().unwrap().is_empty());
    assert!(q.dequeue_at(u64::MAX).unwrap().is_none());
    assert_eq!(q.dead_letter_len().unwrap(), 1);
}
