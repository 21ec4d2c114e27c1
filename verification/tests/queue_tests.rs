use secure_p2p_msg::storage::at_rest::AtRestKey;
use secure_p2p_msg::storage::queue::{listed_len, MessageQueue};
use secure_p2p_msg::storage::StorageError;
use secure_p2p_msg::storage::record::{MessageStatus, QueuedMessage};
use uuid::Uuid;

fn temp_db() -> tempfile::TempDir {
    tempfile::tempdir().unwrap()
}

fn open(dir: &tempfile::TempDir) -> MessageQueue {
    MessageQueue::new(dir.path().to_str().unwrap(), AtRestKey::from_bytes([7u8; 32])).unwrap()
}

fn message(payload: &[u8], priority: u8) -> QueuedMessage {
    QueuedMessage {
        id: *Uuid::new_v4().as_bytes(),
        contact_id: 1,
        payload: payload.to_vec(),
        created: 0,
        priority,
        status: MessageStatus::Pending,
        retry_count: 0,
        next_attempt_at: 0,
        max_retries: 3,
    }
}

fn message_with_id(id: u8, priority: u8, next_attempt_at: u64) -> QueuedMessage {
    QueuedMessage {
        id: [id; 16],
        contact_id: 1,
        payload: vec![id],
        created: 5,
        priority,
        status: MessageStatus::Pending,
        retry_count: 0,
        next_attempt_at,
        max_retries: 3,
    }
}

#[test]
fn enqueue_dequeue_persists() {
    sodiumoxide::init().unwrap();
    let dir = temp_db();
    let id;
    {
        let mut q = open(&dir);
        let msg = QueuedMessage {
            id: *Uuid::new_v4().as_bytes(),
            contact_id: 1,
            payload: b"payload".to_vec(),
            created: 0,
            priority: 1,
            status: MessageStatus::Pending,
            retry_count: 0,
            next_attempt_at: 0,
            max_retries: 3,
        };
        id = msg.id;
        q.enqueue(msg).unwrap();
        assert_eq!(q.len().unwrap(), 1);
    }
    {
        let mut q = open(&dir);
        assert_eq!(q.len().unwrap(), 1);
        let out = q.dequeue().unwrap();
        assert!(out.is_some());
        assert_eq!(out.unwrap().id, id);
        assert_eq!(q.len().unwrap(), 0);
    }
}

#[test]
fn priority_lane_prefers_high() {
    sodiumoxide::init().unwrap();
    let dir = temp_db();
    let mut q = open(&dir);

    // Enqueue a normal message due now
    q.enqueue(message(b"n", 1)).unwrap();
    // Enqueue a high-priority message due now
    q.enqueue(message(b"h", 0)).unwrap();

    // First dequeue should fetch high-priority
    let first = q.dequeue().unwrap().unwrap();
    assert_eq!(first.payload, b"h");

    let second = q.dequeue().unwrap().unwrap();
    assert_eq!(second.payload, b"n");
}

#[test]
fn weighted_fairness_pattern() {
    sodiumoxide::init().unwrap();
    let dir = temp_db();
    let mut q = open(&dir);

    // Enqueue 4 high (h1..h4) and 2 normal (n1..n2)
    for name in ["h1", "h2", "h3", "h4"] {
        q.enqueue(message(name.as_bytes(), 0)).unwrap();
    }
    for name in ["n1", "n2"] {
        q.enqueue(message(name.as_bytes(), 1)).unwrap();
    }

    // Dequeue with manual fairness loop similar to runtime: 2 highs then 1 normal
    let ratio = 2u8;
    let mut high_budget = ratio;
    let mut order = Vec::new();
    loop {
        let pick = if high_budget > 0 {
            match q.dequeue_from_priority(0).unwrap() {
                Some(m) => {
                    high_budget -= 1;
                    Some(m)
                }
                None => q.dequeue_from_priority(1).unwrap(),
            }
        } else {
            match q.dequeue_from_priority(1).unwrap() {
                Some(m) => {
                    high_budget = ratio;
                    Some(m)
                }
                None => q.dequeue_from_priority(0).unwrap(),
            }
        };
        match pick {
            Some(m) => order.push(String::from_utf8(m.payload).unwrap()),
            None => break,
        }
    }

    // Expect first three to follow 2H then 1N pattern (names may differ due to UUID ordering)
    assert!(order.len() >= 3);
    assert!(order[0].starts_with('h'));
    assert!(order[1].starts_with('h'));
    assert!(order[2].starts_with('n'));
}

#[test]
fn weighted_fairness_by_the_queue_itself() {
    sodiumoxide::init().unwrap();
    let dir = temp_db();
    let mut q = open(&dir);
    q.set_high_ratio(2);
    for name in ["h1", "h2", "h3", "h4"] {
        q.enqueue(message(name.as_bytes(), 0)).unwrap();
    }
    for name in ["n1", "n2"] {
        q.enqueue(message(name.as_bytes(), 1)).unwrap();
    }
    let mut lanes = Vec::new();
    while let Some(m) = q.dequeue().unwrap() {
        lanes.push(m.payload[0]);
    }
    assert_eq!(lanes, vec![b'h', b'h', b'n', b'h', b'h', b'n']);
    assert!(q.is_empty().unwrap());
}

#[test]
fn dequeue_on_empty_store_returns_none() {
    let dir = temp_db();
    let mut q = open(&dir);
    assert!(q.is_empty().unwrap());
    assert!(q.dequeue().unwrap().is_none());
    assert!(q.dequeue_from_priority(0).unwrap().is_none());
    assert!(q.dequeue_from_priority(1).unwrap().is_none());
    assert_eq!(q.len().unwrap(), 0);
}

#[test]
fn dequeue_before_the_time_returns_none_and_keeps_the_message() {
    sodiumoxide::init().unwrap();
    let dir = temp_db();
    let mut q = open(&dir);
    q.enqueue_at(message_with_id(1, 1, 1000), 10).unwrap();
    assert!(q.dequeue_at(999).unwrap().is_none());
    assert_eq!(q.len().unwrap(), 1);
    assert_eq!(q.get_pending_messages().unwrap().len(), 1);
    let m = q.dequeue_at(1000).unwrap().unwrap();
    assert_eq!(m.id, [1u8; 16]);
    assert_eq!(q.len().unwrap(), 0);
}

#[test]
fn a_lane_gives_messages_by_time_then_identifier() {
    sodiumoxide::init().unwrap();
    let dir = temp_db();
    let mut q = open(&dir);
    q.enqueue_at(message_with_id(9, 1, 300), 10).unwrap();
    q.enqueue_at(message_with_id(5, 1, 100), 10).unwrap();
    q.enqueue_at(message_with_id(7, 1, 300), 10).unwrap();
    q.enqueue_at(message_with_id(2, 1, 200), 10).unwrap();
    let mut got = Vec::new();
    while let Some(m) = q.dequeue_from_priority_at(1, 1000).unwrap() {
        got.push((m.next_attempt_at, m.id[0]));
    }
    assert_eq!(got, vec![(100, 5), (200, 2), (300, 7), (300, 9)]);
}

#[test]
fn enqueue_fills_in_times_and_clamps_priority() {
    sodiumoxide::init().unwrap();
    let dir = temp_db();
    let mut q = open(&dir);
    let mut m = message_with_id(3, 200, 0);
    m.created = 0;
    q.enqueue_at(m, 77).unwrap();
    // priority 200 stands for the normal lane
    assert!(q.dequeue_from_priority_at(0, 1000).unwrap().is_none());
    let out = q.dequeue_from_priority_at(1, 77).unwrap().unwrap();
    assert_eq!(out.created, 77);
    assert_eq!(out.next_attempt_at, 77);
    assert_eq!(out.priority, 1);

    let mut kept = message_with_id(4, 0, 0);
    kept.created = 40;
    q.enqueue_at(kept, 77).unwrap();
    let out = q.dequeue_from_priority_at(0, 40).unwrap().unwrap();
    assert_eq!(out.created, 40);
    assert_eq!(out.next_attempt_at, 40);
}

#[test]
fn enqueueing_an_id_again_leaves_one_entry() {
    sodiumoxide::init().unwrap();
    let dir = temp_db();
    let mut q = open(&dir);
    q.enqueue_at(message_with_id(1, 1, 100), 10).unwrap();
    q.enqueue_at(message_with_id(1, 1, 500), 10).unwrap();
    assert_eq!(q.len().unwrap(), 1);
    q.enqueue_at(message_with_id(1, 0, 700), 10).unwrap();
    assert_eq!(q.len().unwrap(), 1);
    assert!(q.dequeue_at(699).unwrap().is_none());
    let m = q.dequeue_at(700).unwrap().unwrap();
    assert_eq!(m.next_attempt_at, 700);
    assert_eq!(m.priority, 0);
    assert!(q.dequeue_at(u64::MAX).unwrap().is_none());
}

#[test]
fn records_are_sealed_under_the_key() {
    sodiumoxide::init().unwrap();
    let dir = temp_db();
    {
        let mut q = open(&dir);
        q.enqueue_at(message_with_id(1, 1, 100), 10).unwrap();
    }
    let other = AtRestKey::from_bytes([8u8; 32]);
    let mut q = MessageQueue::new(dir.path().to_str().unwrap(), other).unwrap();
    assert_eq!(q.len().unwrap(), 1);
    assert!(q.dequeue_at(1000).is_err());
    assert!(q.get_pending_messages().unwrap().is_empty());
}

#[test]
fn update_status_rewrites_the_record_only() {
    sodiumoxide::init().unwrap();
    let dir = temp_db();
    let mut q = open(&dir);
    q.enqueue_at(message_with_id(1, 1, 100), 10).unwrap();
    q.enqueue_at(message_with_id(2, 1, 100), 10).unwrap();
    q.update_status([1u8; 16], MessageStatus::Delivered(55)).unwrap();
    q.update_status([9u8; 16], MessageStatus::Canceled).unwrap();
    let pending = q.get_pending_messages().unwrap();
    assert_eq!(pending.len(), 1);
    assert_eq!(pending[0].id, [2u8; 16]);
    assert_eq!(q.len().unwrap(), 2);
    let first = q.dequeue_at(100).unwrap().unwrap();
    assert_eq!(first.id, [1u8; 16]);
    assert_eq!(first.status, MessageStatus::Delivered(55));
}

#[test]
fn pending_messages_come_by_ascending_id() {
    sodiumoxide::init().unwrap();
    let dir = temp_db();
    let mut q = open(&dir);
    for id in [9u8, 3, 6] {
        q.enqueue_at(message_with_id(id, 1, 100), 10).unwrap();
    }
    let ids: Vec<u8> = q.get_pending_messages().unwrap().iter().map(|m| m.id[0]).collect();
    assert_eq!(ids, vec![3, 6, 9]);
}

#[test]
fn inbox_keeps_what_it_is_given() {
    let dir = temp_db();
    let mut q = open(&dir);
    assert_eq!(q.inbox_len().unwrap(), 0);
    q.store_inbox([2u8; 16], b"two".to_vec()).unwrap();
    q.store_inbox([1u8; 16], b"one".to_vec()).unwrap();
    assert_eq!(q.inbox_len().unwrap(), 2);
    assert_eq!(q.get_inbox([1u8; 16]).unwrap(), Some(b"one".to_vec()));
    assert_eq!(q.get_inbox([3u8; 16]).unwrap(), None);
    assert_eq!(
        q.list_inbox().unwrap(),
        vec![([1u8; 16], b"one".to_vec()), ([2u8; 16], b"two".to_vec())]
    );
}

#[test]
fn counting_goes_by_the_listing() {
    let pairs = vec![(vec![1u8], vec![2u8, 3]), (vec![4u8], vec![])];
    assert_eq!(listed_len(Ok(pairs)).unwrap(), 2);
    assert_eq!(listed_len(Ok(Vec::new())).unwrap(), 0);
    let failed = listed_len(Err(sled::Error::Unsupported("no".to_string())));
    assert!(matches!(failed, Err(StorageError::Db(_))));
}
