use std::str::FromStr;

use simple_dht::messages::{DecodeError, Message, Payload, PeerAddr, UdpMessage, HASH_SIZE};

fn sample_hash() -> simple_dht::messages::Hash {
    simple_dht::messages::Hash::new([0x01, 0x23, 0x45, 0x67, 0x89, 0xab, 0xcd, 0xef])
}

fn sample_messages() -> Vec<Message> {
    vec![
        Message::Get(sample_hash()),
        Message::Put(sample_hash(), Payload(b"Hello, world!".to_vec())),
        Message::Put(sample_hash(), Payload(Vec::new())),
        Message::KeepAlive,
        Message::IHave(sample_hash()),
        Message::Discover(PeerAddr::V4([127, 0, 0, 1], 4242)),
        Message::Discover(PeerAddr::V6([0, 0, 0, 0, 0, 0, 0, 0, 0, 0, 0, 0, 0, 0, 0, 1], 65535)),
    ]
}

#[test]
fn serialize_get() {
    let hash = simple_dht::messages::Hash([0x01, 0x23, 0x45, 0x67, 0x89, 0xab, 0xcd, 0xef]);
    assert_eq!(
        Message::Get(hash).serialize(),
        [0x00, 0x01, 0x23, 0x45, 0x67, 0x89, 0xab, 0xcd, 0xef]
    );
}

#[test]
fn serialize_put() {
    let hash = simple_dht::messages::Hash([0x01, 0x23, 0x45, 0x67, 0x89, 0xab, 0xcd, 0xef]);
    let payload = "Hello, world!".as_bytes();

    let message = Message::Put(hash.clone(), Payload(payload.to_vec()));
    let frame = message.serialize();
    assert_eq!(frame[0], 1); // Check message type
    assert_eq!(frame[1..(1 + HASH_SIZE)], hash.0); // Check hash
    assert_eq!(frame[(1 + HASH_SIZE)..(3 + HASH_SIZE)], [0, 13]); // Check payload length
    assert_eq!(frame[(3 + HASH_SIZE)..], *payload); // Check payload payload
}

#[test]
fn format_hash() {
    let hash = simple_dht::messages::Hash::new([0x01, 0x23, 0x45, 0x67, 0x89, 0xab, 0xcd, 0xef]);
    let w = hash.to_hex();
    assert_eq!(&w, "0123456789abcdef");
}

#[test]
fn serialize_keepalive_and_discover() {
    assert_eq!(Message::KeepAlive.serialize(), vec![2]);
    assert_eq!(
        Message::Discover(PeerAddr::V4([10, 0, 0, 7], 0x1234)).serialize(),
        vec![4, 4, 10, 0, 0, 7, 0x12, 0x34]
    );
    let v6 = Message::Discover(PeerAddr::V6([0xfe, 0x80, 0, 0, 0, 0, 0, 0, 0, 0, 0, 0, 0, 0, 0, 2], 80)).serialize();
    assert_eq!(v6.len(), 1 + 1 + 16 + 2);
    assert_eq!(&v6[..4], &[4, 6, 0xfe, 0x80]);
    assert_eq!(&v6[18..], &[0, 80]);
}

#[test]
fn frame_len_matches_serialize() {
    for m in sample_messages() {
        assert_eq!(m.frame_len(), m.serialize().len());
    }
}

#[test]
fn round_trip_every_variant() {
    for m in sample_messages() {
        let frame = m.serialize();
        assert_eq!(Message::deserialize(&frame), Ok(m));
    }
}

#[test]
fn round_trip_largest_payload() {
    let m = Message::Put(sample_hash(), Payload(vec![0x5a; 65535]));
    assert!(m.fits());
    let frame = m.serialize();
    assert_eq!(&frame[9..11], &[0xff, 0xff]);
    assert_eq!(Message::deserialize(&frame), Ok(m));
}

#[test]
fn payload_too_large_does_not_fit() {
    let m = Message::Put(sample_hash(), Payload(vec![0; 65536]));
    assert!(!m.fits());
    assert!(Message::KeepAlive.fits());
}

#[test]
fn truncated_frames_are_too_short() {
    for m in sample_messages() {
        let frame = m.serialize();
        for k in 0..frame.len() {
            assert_eq!(Message::deserialize(&frame[..k]), Err(DecodeError::MessageTooShort), "{:?} cut at {}", m, k);
        }
    }
}

#[test]
fn trailing_bytes_are_ignored() {
    let mut frame = Message::IHave(sample_hash()).serialize();
    frame.extend_from_slice(&[9, 9, 9]);
    assert_eq!(Message::deserialize(&frame), Ok(Message::IHave(sample_hash())));
}

#[test]
fn decode_errors() {
    assert_eq!(Message::deserialize(&[]), Err(DecodeError::MessageTooShort));
    assert_eq!(Message::deserialize(&[5]), Err(DecodeError::InvalidMessageType));
    assert_eq!(Message::deserialize(&[255, 1, 2]), Err(DecodeError::InvalidMessageType));
    assert_eq!(Message::deserialize(&[4, 5, 1, 2, 3, 4, 0, 1]), Err(DecodeError::InvalidContent));
    assert_eq!(Message::deserialize(&[4, 4, 1, 2]), Err(DecodeError::MessageTooShort));
    // A Put whose length field announces more bytes than there are.
    let mut frame = vec![1];
    frame.extend_from_slice(&sample_hash().0);
    frame.extend_from_slice(&[0, 5, b'a', b'b']);
    assert_eq!(Message::deserialize(&frame), Err(DecodeError::MessageTooShort));
}

#[test]
fn decode_error_descriptions() {
    assert_eq!(DecodeError::MessageTooShort.description(), "input message is too short");
    assert_eq!(DecodeError::MessageTooLong.description(), "input message is too long");
    assert_eq!(DecodeError::InvalidMessageType.description(), "message type unknown");
    assert_eq!(DecodeError::InvalidContent.description(), "invalid message content");
}

#[test]
fn hash_from_str() {
    assert_eq!(
        simple_dht::messages::Hash::from_str("0123456789abcdef"),
        Ok(simple_dht::messages::Hash::new([0x01, 0x23, 0x45, 0x67, 0x89, 0xab, 0xcd, 0xef]))
    );
    assert_eq!(
        simple_dht::messages::Hash::from_str("0123456789ABCDEF"),
        Ok(sample_hash())
    );
    // Short texts stand for hashes with leading zero digits.
    assert_eq!(
        simple_dht::messages::Hash::from_str("abc").map(|h| h.0),
        Ok([0, 0, 0, 0, 0, 0, 0x0a, 0xbc])
    );
    assert_eq!(simple_dht::messages::Hash::from_str("").map(|h| h.0), Ok([0; 8]));
}

#[test]
fn hash_from_str_errors() {
    assert!(simple_dht::messages::Hash::from_str("0123456789abcdef0").is_err());
    assert!(simple_dht::messages::Hash::from_str("0123456789abcdeg").is_err());
    assert!(simple_dht::messages::Hash::from_str("xy").is_err());
    assert!(simple_dht::messages::Hash::from_str("é").is_err());
    let e = simple_dht::messages::Hash::from_hex("zz").unwrap_err();
    assert_eq!(e.description(), "invalid hash syntax");
}

#[test]
fn hash_hex_round_trip() {
    let h = simple_dht::messages::Hash::new([0xff, 0x00, 0x10, 0x0f, 0xa5, 0x5a, 0x01, 0x80]);
    assert_eq!(h.to_hex(), "ff00100fa55a0180");
    assert_eq!(simple_dht::messages::Hash::from_hex(&h.to_hex()), Ok(h));
}

#[test]
fn hash_from_slice() {
    assert_eq!(simple_dht::messages::Hash::from_slice(&[1, 2, 3]), None);
    assert_eq!(
        simple_dht::messages::Hash::from_slice(&[1, 2, 3, 4, 5, 6, 7, 8, 9]).map(|h| h.0),
        Some([1, 2, 3, 4, 5, 6, 7, 8])
    );
}

#[test]
fn hash_equality() {
    let a = sample_hash();
    let mut bytes = a.0;
    assert!(a.same(&simple_dht::messages::Hash::new(bytes)));
    bytes[7] = 0;
    assert!(!a.same(&simple_dht::messages::Hash::new(bytes)));
    assert_ne!(a, simple_dht::messages::Hash::new(bytes));
}

#[test]
fn payload_from_text_and_default() {
    assert_eq!(Payload::from_text("hi"), Payload(vec![b'h', b'i']));
    assert_eq!(Payload::default(), Payload(Vec::new()));
    let p = Payload(vec![1, 2, 3]);
    assert_eq!(p.duplicate(), p);
}

#[test]
fn peer_addr_equality_and_port() {
    let a = PeerAddr::V4([1, 2, 3, 4], 80);
    assert!(a.same(&PeerAddr::V4([1, 2, 3, 4], 80)));
    assert!(!a.same(&PeerAddr::V4([1, 2, 3, 4], 81)));
    assert!(!a.same(&PeerAddr::V4([1, 2, 3, 5], 80)));
    assert!(!a.same(&PeerAddr::V6([0; 16], 80)));
    assert_eq!(a.port(), 80);
}

#[test]
fn udp_codec_decode_and_encode() {
    let mut codec = UdpMessage;
    let from = PeerAddr::V4([192, 168, 1, 2], 5000);
    let frame = Message::Get(sample_hash()).serialize();
    assert_eq!(codec.decode(&from, &frame), Ok((from, Message::Get(sample_hash()))));
    assert_eq!(codec.decode(&from, &[7]), Err(DecodeError::InvalidMessageType));

    let mut buf = vec![0xaa];
    let to = codec.encode((from, Message::KeepAlive), &mut buf);
    assert_eq!(to, from);
    assert_eq!(buf, vec![0xaa, 2]);
}

#[test]
fn message_duplicate() {
    for m in sample_messages() {
        assert_eq!(m.duplicate(), m);
    }
}
