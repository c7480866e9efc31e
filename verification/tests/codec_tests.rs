use bork::codec::{Codec, DecodeOutcome, InvalidReason};
use bork::message::{ExtendedMessageType, Message, MessageType};
use bork::wire::{put_le, read_le};

fn samples(len: usize) -> Vec<Message> {
    let body: Vec<u8> = (0..len).map(|i| (i % 251) as u8).collect();
    vec![
        Message::ChatMsg { sender_id: 0x0102_0304_0506_0708_090a_0b0c_0d0e_0f10, text: body.clone() },
        Message::Join { username: body.clone() },
        Message::Leave,
        Message::Version { major: 0, minor: 2, patch: 0 },
        Message::Version { major: 65535, minor: 256, patch: 1 },
        Message::Welcome { text: body.clone() },
        Message::Extended { extended_type: ExtendedMessageType::FUTURE, content: body.clone() },
        Message::Extended { extended_type: u64::MAX, content: body.clone() },
        Message::UserJoined { user_id: u128::MAX, username: body.clone() },
        Message::UserLeft { user_id: 0 },
        Message::UserLeft { user_id: 0xffee_ddcc_bbaa_9988_7766_5544_3322_1100 },
    ]
}

#[test]
fn tags_are_as_on_the_wire() {
    assert_eq!(MessageType::CHATMSG, 0);
    assert_eq!(MessageType::JOIN, 1);
    assert_eq!(MessageType::LEAVE, 2);
    assert_eq!(MessageType::VERSION, 3);
    assert_eq!(MessageType::WELCOME, 4);
    assert_eq!(MessageType::EXTENDED, 5);
    assert_eq!(MessageType::USERJOINED, 6);
    assert_eq!(MessageType::USERLEFT, 7);
    assert_eq!(ExtendedMessageType::FUTURE, 0);
    for m in samples(3) {
        let frame = Codec::new(16).encode(&m);
        assert_eq!(frame[0], m.tag());
    }
}

#[test]
fn little_endian_fields() {
    let mut out = vec![9u8];
    put_le(&mut out, 0x1234, 2);
    assert_eq!(out, vec![9, 0x34, 0x12]);
    let mut out = Vec::new();
    put_le(&mut out, 0x0102_0304_0506_0708, 8);
    assert_eq!(out, vec![8, 7, 6, 5, 4, 3, 2, 1]);
    let mut out = Vec::new();
    put_le(&mut out, 1u128 << 120, 16);
    assert_eq!(out, vec![0, 0, 0, 0, 0, 0, 0, 0, 0, 0, 0, 0, 0, 0, 0, 1]);
    assert_eq!(read_le(&[0xff, 0x34, 0x12, 0xff], 1, 2), 0x1234);
    assert_eq!(read_le(&[1, 2, 3, 4, 5, 6, 7, 8], 0, 8), 0x0807_0605_0403_0201);
    assert_eq!(read_le(&[7], 0, 0), 0);
    assert_eq!(read_le(&[0xff; 16], 0, 16), u128::MAX);
}

#[test]
fn version_frame_bytes() {
    let codec = Codec::new(Codec::LARGEST_PAYLOAD);
    let frame = codec.encode(&Message::Version { major: 0, minor: 2, patch: 0 });
    assert_eq!(frame, vec![3, 0, 0, 2, 0, 0, 0]);
    let frame = codec.encode(&Message::Version { major: 0x0102, minor: 0x0304, patch: 0x0506 });
    assert_eq!(frame, vec![3, 2, 1, 4, 3, 6, 5]);
}

#[test]
fn join_frame_bytes() {
    let codec = Codec::new(Codec::LARGEST_PAYLOAD);
    let frame = codec.encode(&Message::Join { username: b"Guest42".to_vec() });
    assert_eq!(frame, vec![1, 7, 0, b'G', b'u', b'e', b's', b't', b'4', b'2']);
}

#[test]
fn leave_frame_bytes() {
    let codec = Codec::new(0);
    assert_eq!(codec.encode(&Message::Leave), vec![2]);
}

#[test]
fn welcome_frame_bytes() {
    let codec = Codec::new(Codec::LARGEST_PAYLOAD);
    let text = vec![b'x'; 300];
    let frame = codec.encode(&Message::Welcome { text: text.clone() });
    assert_eq!(frame.len(), 303);
    assert_eq!(&frame[..3], &[4, 0x2c, 0x01]);
    assert_eq!(&frame[3..], &text[..]);
}

#[test]
fn chat_frame_bytes() {
    let codec = Codec::new(Codec::LARGEST_PAYLOAD);
    let frame = codec.encode(&Message::ChatMsg {
        sender_id: 0x0f0e_0d0c_0b0a_0908_0706_0504_0302_0100,
        text: b"hi".to_vec(),
    });
    let mut expected = vec![0u8];
    expected.extend(0u8..16);
    expected.extend([2, 0, b'h', b'i']);
    assert_eq!(frame, expected);
}

#[test]
fn extended_frame_bytes() {
    let codec = Codec::new(Codec::LARGEST_PAYLOAD);
    let frame = codec.encode(&Message::Extended { extended_type: 0x0102, content: vec![9, 8, 7] });
    assert_eq!(frame, vec![5, 2, 1, 0, 0, 0, 0, 0, 0, 3, 0, 9, 8, 7]);
}

#[test]
fn user_joined_and_left_frame_bytes() {
    let codec = Codec::new(Codec::LARGEST_PAYLOAD);
    let frame = codec.encode(&Message::UserJoined { user_id: 1, username: b"ab".to_vec() });
    let mut expected = vec![6u8, 1];
    expected.extend([0u8; 15]);
    expected.extend([2, 0, b'a', b'b']);
    assert_eq!(frame, expected);
    let frame = codec.encode(&Message::UserLeft { user_id: 0x0100 });
    let mut expected = vec![7u8, 0, 1];
    expected.extend([0u8; 14]);
    assert_eq!(frame, expected);
}

#[test]
fn round_trip_every_variant_and_size() {
    let codec = Codec::new(Codec::LARGEST_PAYLOAD);
    for len in [0usize, 1, 2, 255, 256, 1000, 65534, 65535] {
        for m in samples(len) {
            assert!(codec.fits(&m));
            let frame = codec.encode(&m);
            let n = frame.len();
            assert_eq!(codec.decode(&frame), DecodeOutcome::Complete(m, n));
        }
    }
}

#[test]
fn every_proper_prefix_is_incomplete() {
    let codec = Codec::new(Codec::LARGEST_PAYLOAD);
    for len in [0usize, 1, 5, 40] {
        for m in samples(len) {
            let frame = codec.encode(&m);
            for k in 0..frame.len() {
                assert_eq!(codec.decode(&frame[..k]), DecodeOutcome::Incomplete);
            }
            assert_eq!(codec.decode(&frame), DecodeOutcome::Complete(m, frame.len()));
        }
    }
}

#[test]
fn empty_buffer_is_incomplete() {
    assert_eq!(Codec::new(10).decode(&[]), DecodeOutcome::Incomplete);
}

#[test]
fn two_frames_in_one_buffer() {
    let codec = Codec::new(Codec::LARGEST_PAYLOAD);
    for m1 in samples(3) {
        for m2 in samples(4) {
            let mut buf = codec.encode(&m1);
            let first = buf.len();
            buf.extend(codec.encode(&m2));
            assert_eq!(codec.decode(&buf), DecodeOutcome::Complete(m1.clone(), first));
            let rest = &buf[first..];
            assert_eq!(codec.decode(rest), DecodeOutcome::Complete(m2.clone(), rest.len()));
            assert_eq!(codec.decode(&rest[rest.len()..]), DecodeOutcome::Incomplete);
        }
    }
}

#[test]
fn trailing_bytes_do_not_change_a_frame() {
    let codec = Codec::new(100);
    let m = Message::Join { username: b"ann".to_vec() };
    let mut buf = codec.encode(&m);
    buf.extend([200, 201, 202]);
    assert_eq!(codec.decode(&buf), DecodeOutcome::Complete(m, 6));
}

#[test]
fn unknown_tag_is_invalid() {
    let codec = Codec::new(Codec::LARGEST_PAYLOAD);
    assert_eq!(codec.decode(&[8]), DecodeOutcome::Invalid(InvalidReason::UnknownTag(8)));
    assert_eq!(
        codec.decode(&[255, 0, 0, 0]),
        DecodeOutcome::Invalid(InvalidReason::UnknownTag(255))
    );
}

#[test]
fn oversized_payload_is_invalid() {
    let codec = Codec::new(4);
    assert_eq!(
        codec.decode(&[1, 5, 0]),
        DecodeOutcome::Invalid(InvalidReason::PayloadTooLarge(5))
    );
    assert_eq!(
        codec.decode(&[4, 0, 1, 1, 2, 3]),
        DecodeOutcome::Invalid(InvalidReason::PayloadTooLarge(256))
    );
    let mut chat = vec![0u8];
    chat.extend([0u8; 16]);
    chat.extend([0xff, 0xff]);
    assert_eq!(
        codec.decode(&chat),
        DecodeOutcome::Invalid(InvalidReason::PayloadTooLarge(65535))
    );
    assert_eq!(codec.decode(&[1, 5]), DecodeOutcome::Incomplete);
    assert_eq!(codec.decode(&[1, 4, 0, 1, 2, 3]), DecodeOutcome::Incomplete);
    assert_eq!(
        codec.decode(&[1, 4, 0, 1, 2, 3, 4]),
        DecodeOutcome::Complete(Message::Join { username: vec![1, 2, 3, 4] }, 7)
    );
}

#[test]
fn try_encode_refuses_what_does_not_fit() {
    let codec = Codec::new(3);
    let long = Message::Welcome { text: vec![1, 2, 3, 4] };
    assert!(!codec.fits(&long));
    assert_eq!(codec.try_encode(&long), None);
    let short = Message::Welcome { text: vec![1, 2, 3] };
    assert!(codec.fits(&short));
    assert_eq!(codec.try_encode(&short), Some(vec![4, 3, 0, 1, 2, 3]));
    assert_eq!(codec.try_encode(&Message::Leave), Some(vec![2]));
    let huge = Message::Join { username: vec![0; 70000] };
    assert_eq!(Codec::new(Codec::LARGEST_PAYLOAD).try_encode(&huge), None);
}

#[test]
fn duplicate_says_the_same() {
    for m in samples(7) {
        assert_eq!(m.duplicate(), m);
        assert_eq!(m.payload_len(), match &m {
            Message::Leave | Message::Version { .. } | Message::UserLeft { .. } => 0,
            _ => 7,
        });
    }
}
