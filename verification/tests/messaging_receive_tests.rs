use secure_p2p_msg::identity::Identity;
use secure_p2p_msg::messaging::message::EnvelopeV1;
use secure_p2p_msg::messaging::receive::{
    answer_to, count_request, handle_request, handle_request_at, ReceiveKeys, Response,
};
use secure_p2p_msg::storage::StorageError;
use secure_p2p_msg::messaging::send::{build_envelope, build_envelope_with_nonce, new_outgoing};
use secure_p2p_msg::messaging::send_loop::{settle_at, Attempt, Settlement};
use secure_p2p_msg::ops::Metrics;
use secure_p2p_msg::storage::at_rest::AtRestKey;
use secure_p2p_msg::storage::queue::MessageQueue;
use secure_p2p_msg::storage::record::MessageStatus;

fn open(dir: &tempfile::TempDir) -> MessageQueue {
    MessageQueue::new(dir.path().to_str().unwrap(), AtRestKey::from_bytes([7u8; 32])).unwrap()
}

fn keys_of(receiver: &Identity, sender: &Identity) -> ReceiveKeys {
    ReceiveKeys {
        recipient_sk_enc: receiver.sodium_box_sk,
        sender_pk_enc: sender.sodium_box_pk,
        sender_pk_sign: sender.sign_pk,
    }
}

#[test]
fn end_to_end_deliver_then_replay() {
    sodiumoxide::init().unwrap();
    let a = Identity::generate();
    let b = Identity::generate();
    let dir_a = tempfile::tempdir().unwrap();
    let dir_b = tempfile::tempdir().unwrap();
    let mut queue_a = open(&dir_a);
    let mut queue_b = open(&dir_b);
    let mut nonces_b = queue_b.nonce_store().unwrap();
    let mut metrics = Metrics::new();

    // A encrypts for B, signs, enqueues.
    let envelope =
        build_envelope(&a.sodium_box_sk, &a.sign_sk, &b.sodium_box_pk, 1, 2, b"hello").unwrap();
    let message = new_outgoing([1u8; 16], 2, envelope, 1, MessageStatus::Pending);
    queue_a.enqueue(message).unwrap();

    // The send worker takes it and delivers it; B's handler answers.
    let due = queue_a.dequeue().unwrap().unwrap();
    let keys = keys_of(&b, &a);
    let answer = handle_request(&due.payload, &keys, false, &mut nonces_b, &mut queue_b).unwrap();
    assert_eq!(answer, Response::Ack);
    assert_eq!(answer.token(), b"ACK");
    let inbox = queue_b.list_inbox().unwrap();
    assert_eq!(inbox.len(), 1);
    assert_eq!(inbox[0].1, b"hello");

    // A second delivery of the identical envelope is a replay.
    let again = handle_request(&due.payload, &keys, false, &mut nonces_b, &mut queue_b).unwrap();
    assert_eq!(again, Response::Replay);
    assert_eq!(again.token(), b"REPLAY");
    assert_eq!(queue_b.inbox_len().unwrap(), 1);

    // The worker settles the first answer.
    let payload = due.payload.clone();
    let settled =
        settle_at(&mut queue_a, &mut metrics, due, &Attempt::Answered(answer.token()), 2, 50)
            .unwrap();
    assert_eq!(settled, Settlement::Delivered);
    assert_eq!(metrics.delivered_messages, 1);
    assert_eq!(metrics.sent_messages, 1);
    assert_eq!(metrics.failed_messages, 0);
    assert!(queue_a.is_empty().unwrap());
    assert!(!payload.is_empty());
}

#[test]
fn signature_of_the_wrong_length_is_refused() {
    sodiumoxide::init().unwrap();
    let a = Identity::generate();
    let b = Identity::generate();
    let dir = tempfile::tempdir().unwrap();
    let mut queue = open(&dir);
    let mut nonces = queue.nonce_store().unwrap();
    let keys = keys_of(&b, &a);

    let good =
        build_envelope_with_nonce(&a.sodium_box_sk, &a.sign_sk, &b.sodium_box_pk, 1, 2, b"x", [3u8; 24])
            .unwrap();
    let mut env = EnvelopeV1::decode(&good).unwrap();
    env.signature.pop();
    assert_eq!(env.signature.len(), 63);
    let r = handle_request_at(&env.encode(), &keys, false, &mut nonces, &mut queue, [9u8; 16], 5);
    assert_eq!(r.unwrap(), Response::Nack);
    env.signature.push(0);
    env.signature.push(0);
    let r = handle_request_at(&env.encode(), &keys, false, &mut nonces, &mut queue, [9u8; 16], 5);
    assert_eq!(r.unwrap(), Response::Nack);
    assert_eq!(Response::Nack.token(), b"NACK");
    assert_eq!(queue.inbox_len().unwrap(), 0);

    // refusing left no trace: the untouched envelope is still taken
    let r = handle_request_at(&good, &keys, false, &mut nonces, &mut queue, [9u8; 16], 5);
    assert_eq!(r.unwrap(), Response::Ack);
    assert_eq!(queue.get_inbox([9u8; 16]).unwrap(), Some(b"x".to_vec()));
}

#[test]
fn tampering_with_any_signed_field_is_refused() {
    sodiumoxide::init().unwrap();
    let a = Identity::generate();
    let b = Identity::generate();
    let dir = tempfile::tempdir().unwrap();
    let mut queue = open(&dir);
    let mut nonces = queue.nonce_store().unwrap();
    let keys = keys_of(&b, &a);
    let good =
        build_envelope_with_nonce(&a.sodium_box_sk, &a.sign_sk, &b.sodium_box_pk, 1, 2, b"x", [3u8; 24])
            .unwrap();
    let original = EnvelopeV1::decode(&good).unwrap();

    let mut cases = Vec::new();
    let mut e = original.clone();
    e.version = 2;
    cases.push(e);
    let mut e = original.clone();
    e.sender_id = 7;
    cases.push(e);
    let mut e = original.clone();
    e.recipient_id = 7;
    cases.push(e);
    let mut e = original.clone();
    e.nonce[0] ^= 1;
    cases.push(e);
    let mut e = original.clone();
    e.payload[0] ^= 1;
    cases.push(e);
    let mut e = original.clone();
    e.signature[0] ^= 1;
    cases.push(e);
    for env in cases {
        let r =
            handle_request_at(&env.encode(), &keys, false, &mut nonces, &mut queue, [9u8; 16], 5);
        assert_eq!(r.unwrap(), Response::Nack);
    }
    // signed by somebody else
    let c = Identity::generate();
    let forged =
        build_envelope_with_nonce(&a.sodium_box_sk, &c.sign_sk, &b.sodium_box_pk, 1, 2, b"x", [3u8; 24])
            .unwrap();
    let r = handle_request_at(&forged, &keys, false, &mut nonces, &mut queue, [9u8; 16], 5);
    assert_eq!(r.unwrap(), Response::Nack);
    assert_eq!(queue.inbox_len().unwrap(), 0);
}

#[test]
fn authentic_but_undecryptable_is_refused_and_remembered() {
    sodiumoxide::init().unwrap();
    let a = Identity::generate();
    let b = Identity::generate();
    let c = Identity::generate();
    let dir = tempfile::tempdir().unwrap();
    let mut queue = open(&dir);
    let mut nonces = queue.nonce_store().unwrap();
    let keys = keys_of(&b, &a);
    // encrypted for C, but handed to B
    let stray =
        build_envelope_with_nonce(&a.sodium_box_sk, &a.sign_sk, &c.sodium_box_pk, 1, 2, b"x", [4u8; 24])
            .unwrap();
    let r = handle_request_at(&stray, &keys, false, &mut nonces, &mut queue, [9u8; 16], 5);
    assert_eq!(r.unwrap(), Response::Nack);
    let r = handle_request_at(&stray, &keys, false, &mut nonces, &mut queue, [9u8; 16], 6);
    assert_eq!(r.unwrap(), Response::Replay);
    assert_eq!(queue.inbox_len().unwrap(), 0);
    // the same nonce from another sender is new
    let other =
        build_envelope_with_nonce(&a.sodium_box_sk, &a.sign_sk, &b.sodium_box_pk, 8, 2, b"y", [4u8; 24])
            .unwrap();
    let r = handle_request_at(&other, &keys, false, &mut nonces, &mut queue, [9u8; 16], 7);
    assert_eq!(r.unwrap(), Response::Ack);
    assert_eq!(nonces.insert_if_fresh(8, &[4u8; 24]).unwrap(), false);
    assert_eq!(nonces.insert_if_fresh(8, &[5u8; 24]).unwrap(), true);
    assert_eq!(nonces.insert_if_fresh(8, &[5u8; 24]).unwrap(), false);
}

#[test]
fn plain_bytes_are_stored_unless_hardened() {
    let a = Identity::generate();
    let b = Identity::generate();
    let dir = tempfile::tempdir().unwrap();
    let mut queue = open(&dir);
    let mut nonces = queue.nonce_store().unwrap();
    let keys = keys_of(&b, &a);
    let r = handle_request_at(b"hi there", &keys, false, &mut nonces, &mut queue, [1u8; 16], 5);
    assert_eq!(r.unwrap(), Response::Ack);
    assert_eq!(queue.get_inbox([1u8; 16]).unwrap(), Some(b"hi there".to_vec()));
    let r = handle_request_at(b"hi again", &keys, true, &mut nonces, &mut queue, [2u8; 16], 5);
    assert_eq!(r.unwrap(), Response::Nack);
    assert_eq!(queue.inbox_len().unwrap(), 1);
}

#[test]
fn only_acknowledged_requests_count_and_a_failing_store_refuses() {
    let failed = || Err(StorageError::Db(sled::Error::Unsupported("no".to_string())));
    assert_eq!(answer_to(&Ok(Response::Ack)), Response::Ack);
    assert_eq!(answer_to(&Ok(Response::Nack)), Response::Nack);
    assert_eq!(answer_to(&Ok(Response::Replay)), Response::Replay);
    assert_eq!(answer_to(&failed()), Response::Nack);

    let mut metrics = Metrics::new();
    count_request(&mut metrics, &Ok(Response::Ack));
    count_request(&mut metrics, &Ok(Response::Nack));
    count_request(&mut metrics, &Ok(Response::Replay));
    count_request(&mut metrics, &failed());
    count_request(&mut metrics, &Ok(Response::Ack));
    assert_eq!(metrics.received_messages, 2);
    assert_eq!(metrics.sent_messages + metrics.delivered_messages + metrics.failed_messages, 0);
    metrics.received_messages = u64::MAX;
    count_request(&mut metrics, &Ok(Response::Ack));
    assert_eq!(metrics.received_messages, u64::MAX);
}
