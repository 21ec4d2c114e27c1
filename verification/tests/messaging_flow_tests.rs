use secure_p2p_msg::crypto::KeyPair;
use secure_p2p_msg::messaging::compose::compose_message;
use secure_p2p_msg::messaging::receive::{receive_and_ack, receive_and_ack_at};
use secure_p2p_msg::messaging::send::send_now;
use secure_p2p_msg::storage::at_rest::AtRestKey;
use secure_p2p_msg::storage::queue::MessageQueue;
use secure_p2p_msg::storage::record::MessageStatus;

fn open(dir: &tempfile::TempDir) -> MessageQueue {
    MessageQueue::new(dir.path().to_str().unwrap(), AtRestKey::from_bytes([7u8; 32])).unwrap()
}

#[test]
fn send_enqueues_ciphertext() {
    sodiumoxide::init().unwrap();
    let a = KeyPair::generate();
    let b = KeyPair::generate();

    let dir = tempfile::tempdir().unwrap();
    let mut q = open(&dir);

    let id = send_now(&mut q, &a.secret, &b.public, 42, b"hello").unwrap();
    assert_eq!(q.len().unwrap(), 1);
    let item = q.dequeue().unwrap().unwrap();
    assert_eq!(item.id, id);
    assert!(item.payload.len() > sodiumoxide::crypto::box_::NONCEBYTES);
    assert_eq!(item.payload.len(), 24 + 5 + 16);
    assert_eq!(item.contact_id, 42);
    assert_eq!(item.priority, 1);
    assert_eq!(item.status, MessageStatus::Transmitting);
    assert_eq!(item.max_retries, 5);
    assert!(item.created > 0);
}

#[test]
fn receive_decrypts_and_stores_inbox() {
    sodiumoxide::init().unwrap();
    let a = KeyPair::generate();
    let b = KeyPair::generate();

    let dir = tempfile::tempdir().unwrap();
    let mut q = open(&dir);

    let id = send_now(&mut q, &a.secret, &b.public, 42, b"secret").unwrap();
    receive_and_ack(&mut q, &a.public, &b.secret).unwrap();

    // Check inbox stored
    assert!(q.len().unwrap() >= 1);
    assert_eq!(q.get_inbox(id).unwrap(), Some(b"secret".to_vec()));
    let back = q.dequeue().unwrap().unwrap();
    assert!(matches!(back.status, MessageStatus::Delivered(_)));
}

#[test]
fn round_trip_and_drain_on_reconnect() {
    sodiumoxide::init().unwrap();
    let a = KeyPair::generate();
    let b = KeyPair::generate();

    let dir_b = tempfile::tempdir().unwrap();
    let mut q = open(&dir_b);

    // A sends two messages to B (persisted in B's queue)
    let _ = send_now(&mut q, &a.secret, &b.public, 100, b"hello").unwrap();
    let _ = send_now(&mut q, &a.secret, &b.public, 100, b"world").unwrap();

    // Drain: every message is received once; what was received is put back
    // as delivered, so take the delivered one out again before the next.
    let mut rounds = 0;
    while !q.is_empty().unwrap() {
        // Receiver uses sender's public key (A) and its own secret key (B)
        receive_and_ack(&mut q, &a.public, &b.secret).unwrap();
        let delivered = q.dequeue().unwrap().unwrap();
        assert!(matches!(delivered.status, MessageStatus::Delivered(_)));
        rounds += 1;
    }
    assert_eq!(rounds, 2);

    // Inbox should contain both plaintext messages
    let inbox = q.list_inbox().unwrap();
    let texts: Vec<String> =
        inbox.into_iter().map(|(_, v)| String::from_utf8_lossy(&v).to_string()).collect();
    assert!(texts.contains(&"hello".to_string()));
    assert!(texts.contains(&"world".to_string()));
}

#[test]
fn compose_queues_the_plain_body() {
    sodiumoxide::init().unwrap();
    let dir = tempfile::tempdir().unwrap();
    let mut q = open(&dir);
    let id = compose_message(&mut q, 9, "héllo").unwrap();
    let other = compose_message(&mut q, 9, "again").unwrap();
    assert_ne!(id, other);
    let pending = q.get_pending_messages().unwrap();
    assert_eq!(pending.len(), 2);
    let m = pending.iter().find(|m| m.id == id).unwrap();
    assert_eq!(m.payload, "héllo".as_bytes());
    assert_eq!(m.contact_id, 9);
    assert_eq!(m.status, MessageStatus::Pending);
    assert_eq!(m.priority, 1);
}

#[test]
fn receive_with_nothing_due_and_with_the_wrong_key() {
    sodiumoxide::init().unwrap();
    let a = KeyPair::generate();
    let b = KeyPair::generate();
    let c = KeyPair::generate();
    let dir = tempfile::tempdir().unwrap();
    let mut q = open(&dir);
    assert_eq!(receive_and_ack_at(&mut q, &a.public, &b.secret, 10).unwrap(), false);
    send_now(&mut q, &a.secret, &b.public, 1, b"x").unwrap();
    assert!(receive_and_ack_at(&mut q, &a.public, &c.secret, u64::MAX).is_err());
    assert_eq!(q.inbox_len().unwrap(), 0);
}
