use secure_p2p_msg::identity::{Identity, LoadedIdentity};
use secure_p2p_msg::error::PigeonError;
use secure_p2p_msg::network::addr::listen_address;
use secure_p2p_msg::network::protocol::{FileExchangeCodec, MessageRequest, MessageResponse};
use secure_p2p_msg::network::rr::{protocol_name, FrameRead, PigeonCodec};
use secure_p2p_msg::storage::record::{DeadLetterRecord, MessageStatus, QueuedMessage};

#[test]
fn frames_are_length_then_body() {
    let codec = PigeonCodec;
    assert_eq!(codec.write_frame(b"ACK").unwrap(), vec![0, 0, 0, 3, b'A', b'C', b'K']);
    assert_eq!(codec.write_frame(b"").unwrap(), vec![0, 0, 0, 0]);
    let long = vec![7u8; 300];
    let framed = codec.write_frame(&long).unwrap();
    assert_eq!(&framed[..4], &[0, 0, 1, 44]);
    assert_eq!(protocol_name(), "/pigeon/1");

    match codec.read_frame(&framed) {
        FrameRead::Complete(body, used) => {
            assert_eq!(body, long);
            assert_eq!(used, 304);
        }
        FrameRead::Incomplete => panic!("the frame is all there"),
    }
    let mut two = codec.write_frame(b"NACK").unwrap();
    two.extend_from_slice(&codec.write_frame(b"REPLAY").unwrap());
    match codec.read_frame(&two) {
        FrameRead::Complete(body, used) => {
            assert_eq!(body, b"NACK");
            assert_eq!(used, 8);
            assert!(matches!(codec.read_frame(&two[used..]), FrameRead::Complete(b, 10) if b == b"REPLAY"));
        }
        FrameRead::Incomplete => panic!("the frame is all there"),
    }
    for cut in 0..framed.len() {
        assert!(matches!(codec.read_frame(&framed[..cut]), FrameRead::Incomplete));
    }
}

#[test]
fn file_exchange_bodies_are_the_bincode_form() {
    let codec = FileExchangeCodec;
    let request = MessageRequest { message_id: [5u8; 16], data: b"data".to_vec() };
    let framed = codec.write_request(&request).unwrap();
    let id = uuid::Uuid::from_bytes([5u8; 16]);
    let body = bincode::serialize(&(id, b"data".to_vec())).unwrap();
    assert_eq!(&framed[4..], &body[..]);
    assert_eq!(&framed[..4], &(body.len() as u32).to_be_bytes());
    let back = codec.read_request(&body).unwrap();
    assert_eq!(back.message_id, [5u8; 16]);
    assert_eq!(back.data, b"data");
    assert!(codec.read_request(&body[..body.len() - 1]).is_none());

    assert_eq!(codec.write_response(&MessageResponse { received: true }), vec![0, 0, 0, 1, 1]);
    assert_eq!(codec.write_response(&MessageResponse { received: false }), vec![0, 0, 0, 1, 0]);
    assert_eq!(codec.read_response(&[1]), Some(MessageResponse { received: true }));
    assert_eq!(codec.read_response(&[0]), Some(MessageResponse { received: false }));
    assert_eq!(codec.read_response(&[2]), None);
    assert_eq!(codec.read_response(&[]), None);
}

#[test]
fn stored_records_are_the_bincode_form() {
    let id = uuid::Uuid::from_bytes([9u8; 16]);
    let m = QueuedMessage {
        id: [9u8; 16],
        contact_id: 77,
        payload: b"payload".to_vec(),
        created: 1000,
        priority: 1,
        status: MessageStatus::Pending,
        retry_count: 2,
        next_attempt_at: 2000,
        max_retries: 5,
    };
    let expected =
        bincode::serialize(&(id, 77u64, b"payload".to_vec(), 1000u64, 1u8, 0u32, 2u32, 2000u64, 5u32))
            .unwrap();
    assert_eq!(m.encode(), expected);
    assert_eq!(QueuedMessage::decode(&expected), Some(m.clone()));

    let delivered = QueuedMessage { status: MessageStatus::Delivered(4242), ..m.clone() };
    let expected = bincode::serialize(&(
        id,
        77u64,
        b"payload".to_vec(),
        1000u64,
        1u8,
        (3u32, 4242u64),
        2u32,
        2000u64,
        5u32,
    ))
    .unwrap();
    assert_eq!(delivered.encode(), expected);
    assert_eq!(QueuedMessage::decode(&expected), Some(delivered));
    for (status, tag) in [(MessageStatus::Transmitting, 1u32), (MessageStatus::Canceled, 2u32)] {
        let with = QueuedMessage { status, ..m.clone() };
        let bytes = with.encode();
        assert_eq!(&bytes[24 + 8 + 8 + 7 + 8 + 1..][..4], &tag.to_le_bytes());
        assert_eq!(QueuedMessage::decode(&bytes), Some(with));
    }
    // a status that there is not, and a cut record
    let mut bad = m.encode();
    bad[24 + 8 + 8 + 7 + 8 + 1] = 4;
    assert_eq!(QueuedMessage::decode(&bad), None);
    let bytes = m.encode();
    for cut in 0..bytes.len() {
        assert_eq!(QueuedMessage::decode(&bytes[..cut]), None);
    }

    let d = DeadLetterRecord {
        id: [9u8; 16],
        contact_id: 77,
        payload: vec![1, 2],
        failed_at: 5,
        attempts: 3,
        last_error: "nack".to_string(),
    };
    let expected =
        bincode::serialize(&(id, 77u64, vec![1u8, 2], 5u64, 3u32, "nack".to_string())).unwrap();
    assert_eq!(d.encode(), expected);
    assert_eq!(DeadLetterRecord::decode(&expected), Some(d));
    let mut not_text = expected.clone();
    let last = not_text.len() - 1;
    not_text[last] = 0xff;
    assert_eq!(DeadLetterRecord::decode(&not_text), None);
}

#[test]
fn identity_file_roundtrip_and_errors() {
    sodiumoxide::init().unwrap();
    let id = Identity::generate();
    assert_eq!(id.libp2p_ed25519.len(), 64);
    let file = id.to_file_bytes();
    let expected = bincode::serialize(&(
        id.libp2p_ed25519.clone(),
        id.sodium_box_pk.to_vec(),
        id.sodium_box_sk.to_vec(),
        id.sign_pk.to_vec(),
        id.sign_sk.to_vec(),
    ))
    .unwrap();
    assert_eq!(file, expected);
    let back = Identity::from_file_bytes(&file).unwrap();
    assert_eq!(back.libp2p_ed25519, id.libp2p_ed25519);
    assert_eq!(back.sodium_box_pk, id.sodium_box_pk);
    assert_eq!(back.sodium_box_sk, id.sodium_box_sk);
    assert_eq!(back.sign_pk, id.sign_pk);
    assert_eq!(back.sign_sk, id.sign_sk);
    assert_eq!(Identity::file_path("/data"), "/data/identity.bin");

    let config_text = |r: Result<Identity, PigeonError>| match r {
        Err(PigeonError::Config(text)) => text,
        other => panic!("unexpected: {:?}", other.map(|_| ())),
    };
    assert_eq!(config_text(Identity::from_file_bytes(&file[..40])), "invalid identity file");
    let parts = |a: &[u8], b: &[u8], c: &[u8], d: &[u8], e: &[u8]| {
        bincode::serialize(&(a.to_vec(), b.to_vec(), c.to_vec(), d.to_vec(), e.to_vec())).unwrap()
    };
    let t = &id.libp2p_ed25519[..];
    let bad = parts(&[1u8; 10], &[0; 32], &[0; 32], &[0; 32], &[0; 64]);
    assert_eq!(config_text(Identity::from_file_bytes(&bad)), "ed25519 decode failed");
    let bad = parts(t, &[0; 31], &[0; 32], &[0; 32], &[0; 64]);
    assert_eq!(config_text(Identity::from_file_bytes(&bad)), "invalid sodium pk");
    let bad = parts(t, &[0; 32], &[0; 33], &[0; 32], &[0; 64]);
    assert_eq!(config_text(Identity::from_file_bytes(&bad)), "invalid sodium sk");
    let bad = parts(t, &[0; 32], &[0; 32], &[], &[0; 64]);
    assert_eq!(config_text(Identity::from_file_bytes(&bad)), "invalid sign pk");
    let bad = parts(t, &[0; 32], &[0; 32], &[0; 32], &[0; 32]);
    assert_eq!(config_text(Identity::from_file_bytes(&bad)), "invalid sign sk");
    // no transport key in the file: a fresh one is made
    let bare = parts(&[], &[1; 32], &[2; 32], &[3; 32], &[4; 64]);
    let made = Identity::from_file_bytes(&bare).unwrap();
    assert_eq!(made.libp2p_ed25519.len(), 64);
    assert_eq!(made.sign_sk, [4u8; 64]);

    match Identity::load_or_generate(None).unwrap() {
        LoadedIdentity::Created(fresh, written) => assert_eq!(written, fresh.to_file_bytes()),
        LoadedIdentity::Existing(_) => panic!("there was no file"),
    }
    assert!(matches!(
        Identity::load_or_generate(Some(&file)).unwrap(),
        LoadedIdentity::Existing(_)
    ));
}

#[test]
fn listen_address_takes_the_first_that_is_there() {
    let typed = Some("/ip4/1.2.3.4/tcp/9".to_string());
    let configured = Some("/ip4/5.6.7.8/tcp/10".to_string());
    assert_eq!(listen_address(typed.clone(), configured.clone(), Some(7)), "/ip4/1.2.3.4/tcp/9");
    assert_eq!(listen_address(typed, None, None), "/ip4/1.2.3.4/tcp/9");
    assert_eq!(listen_address(None, configured.clone(), Some(7)), "/ip4/5.6.7.8/tcp/10");
    assert_eq!(listen_address(None, configured, None), "/ip4/5.6.7.8/tcp/10");
    assert_eq!(listen_address(None, None, Some(4001)), "/ip4/0.0.0.0/tcp/4001");
    assert_eq!(listen_address(None, None, Some(0)), "/ip4/0.0.0.0/tcp/0");
    assert_eq!(listen_address(None, None, Some(7)), "/ip4/0.0.0.0/tcp/7");
    assert_eq!(listen_address(None, None, Some(10)), "/ip4/0.0.0.0/tcp/10");
    assert_eq!(listen_address(None, None, Some(65535)), "/ip4/0.0.0.0/tcp/65535");
    assert_eq!(listen_address(None, None, None), "/ip4/0.0.0.0/tcp/0");
}
