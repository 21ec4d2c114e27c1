use secure_p2p_msg::messaging::message::{signing_bytes, EnvelopeV1};

#[test]
fn envelope_roundtrip_bincode() {
    let env = EnvelopeV1::new(1, 2, [0u8; 24], b"hello".to_vec(), vec![0u8; 64]);
    let bytes = env.encode();
    let back = EnvelopeV1::decode(&bytes).unwrap();
    assert_eq!(env, back);
}

#[test]
fn envelope_wire_is_the_bincode_form() {
    let env = EnvelopeV1::new(7, 0x0102030405060708, [9u8; 24], b"payload".to_vec(), vec![3u8; 64]);
    let expected = bincode::serialize(&(
        1u8,
        7u64,
        0x0102030405060708u64,
        [9u8; 24],
        b"payload".to_vec(),
        vec![3u8; 64],
    ))
    .unwrap();
    assert_eq!(env.encode(), expected);
}

#[test]
fn envelope_wire_layout_is_exact() {
    let env = EnvelopeV1::new(1, 2, [0u8; 24], b"hello".to_vec(), vec![0u8; 64]);
    let bytes = env.encode();
    assert_eq!(bytes.len(), 1 + 8 + 8 + 24 + 8 + 5 + 8 + 64);
    assert_eq!(bytes[0], 1);
    assert_eq!(&bytes[1..9], &[1, 0, 0, 0, 0, 0, 0, 0]);
    assert_eq!(&bytes[9..17], &[2, 0, 0, 0, 0, 0, 0, 0]);
    assert_eq!(&bytes[41..49], &[5, 0, 0, 0, 0, 0, 0, 0]);
    assert_eq!(&bytes[49..54], b"hello");
    assert_eq!(&bytes[54..62], &[64, 0, 0, 0, 0, 0, 0, 0]);
}

#[test]
fn envelope_decode_ignores_trailing_bytes() {
    let env = EnvelopeV1::new(1, 2, [4u8; 24], vec![1, 2, 3], vec![5u8; 64]);
    let mut bytes = env.encode();
    bytes.extend_from_slice(b"trailing");
    assert_eq!(EnvelopeV1::decode(&bytes), Some(env));
}

#[test]
fn envelope_decode_refuses_truncated_bytes() {
    let env = EnvelopeV1::new(1, 2, [4u8; 24], vec![1, 2, 3], vec![5u8; 64]);
    let bytes = env.encode();
    for cut in 0..bytes.len() {
        assert_eq!(EnvelopeV1::decode(&bytes[..cut]), None);
    }
    assert_eq!(EnvelopeV1::decode(b"just some text"), None);
    assert_eq!(EnvelopeV1::decode(&[]), None);
}

#[test]
fn envelope_decode_keeps_foreign_version_and_short_signature() {
    let env = EnvelopeV1 {
        version: 9,
        sender_id: 3,
        recipient_id: 4,
        nonce: [1u8; 24],
        payload: vec![],
        signature: vec![1, 2],
    };
    assert_eq!(EnvelopeV1::decode(&env.encode()), Some(env));
}

#[test]
fn signing_input_is_big_endian() {
    let env = EnvelopeV1::new(1, 0x0a0b, [7u8; 24], b"ct".to_vec(), vec![0u8; 64]);
    let mut expected = vec![1u8];
    expected.extend_from_slice(&1u64.to_be_bytes());
    expected.extend_from_slice(&0x0a0bu64.to_be_bytes());
    expected.extend_from_slice(&[7u8; 24]);
    expected.extend_from_slice(b"ct");
    assert_eq!(env.to_sign(), expected);
    assert_eq!(signing_bytes(1, 1, 0x0a0b, &[7u8; 24], b"ct"), expected);
}
