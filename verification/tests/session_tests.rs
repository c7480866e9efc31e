use bork::codec::Codec;
use bork::message::{ExtendedMessageType, Message};
use bork::session::{
    guest_name, random_guest_name, ClientSession, JoinState, Peer, ServerVersion, SessionError,
};

fn codec() -> Codec {
    Codec::new(Codec::LARGEST_PAYLOAD)
}

fn online() -> ClientSession {
    let mut s = ClientSession::new(codec());
    s.connect();
    s
}

fn frames(messages: &[Message]) -> Vec<u8> {
    let mut out = Vec::new();
    for m in messages {
        out.extend(codec().encode(m));
    }
    out
}

fn peer(name: &[u8], id: u128) -> Peer {
    Peer { username: name.to_vec(), id }
}

#[test]
fn new_session_has_nothing() {
    let s = ClientSession::new(codec());
    assert!(!s.is_connected());
    assert_eq!(s.server_version(), None);
    assert!(s.active_users().is_empty());
    assert!(s.text().is_empty());
    assert_eq!(s.pending_bytes(), 0);
    assert_eq!(s.user_id(), None);
    assert_eq!(s.join_state(), JoinState::Idle);
}

#[test]
fn greeting_sets_version_and_text() {
    let mut s = online();
    s.receive(&frames(&[
        Message::Version { major: 0, minor: 2, patch: 0 },
        Message::Welcome { text: b"hello".to_vec() },
    ]));
    assert_eq!(s.server_version(), Some(ServerVersion { major: 0, minor: 2, patch: 0 }));
    assert_eq!(s.text(), b"hello");
    assert_eq!(s.pending_bytes(), 0);
}

#[test]
fn chat_text_is_added_to_the_text() {
    let mut s = online();
    s.receive(&frames(&[
        Message::Welcome { text: b"hi ".to_vec() },
        Message::ChatMsg { sender_id: 1, text: b"woof".to_vec() },
        Message::ChatMsg { sender_id: 2, text: b"".to_vec() },
        Message::ChatMsg { sender_id: 2, text: b"!".to_vec() },
    ]));
    assert_eq!(s.text(), b"hi woof!");
}

#[test]
fn byte_by_byte_is_the_same_as_at_once() {
    let stream = frames(&[
        Message::Version { major: 1, minor: 2, patch: 3 },
        Message::Welcome { text: b"hello".to_vec() },
        Message::UserJoined { user_id: 7, username: b"ann".to_vec() },
        Message::UserJoined { user_id: 8, username: b"bob".to_vec() },
        Message::ChatMsg { sender_id: 7, text: b"woof".to_vec() },
        Message::UserLeft { user_id: 7 },
        Message::Extended { extended_type: 0, content: vec![1, 2, 3] },
    ]);
    let mut whole = online();
    whole.receive(&stream);
    let mut bytewise = online();
    for byte in &stream {
        bytewise.receive(&[*byte]);
    }
    for split in 0..=stream.len() {
        let mut two = online();
        two.receive(&stream[..split]);
        assert_eq!(two.pending_bytes() == 0, [0, 7, 15, 37, 59, 82, 99, 113].contains(&split));
        two.receive(&stream[split..]);
        assert_eq!(two.active_users(), whole.active_users());
        assert_eq!(two.text(), whole.text());
        assert_eq!(two.server_version(), whole.server_version());
        assert_eq!(two.pending_bytes(), 0);
    }
    assert_eq!(bytewise.active_users(), vec![peer(b"bob", 8)]);
    assert_eq!(whole.active_users(), vec![peer(b"bob", 8)]);
    assert_eq!(bytewise.text(), b"hellowoof");
    assert_eq!(whole.text(), b"hellowoof");
    assert_eq!(whole.server_version(), Some(ServerVersion { major: 1, minor: 2, patch: 3 }));
    assert_eq!(bytewise.server_version(), whole.server_version());
    assert_eq!(bytewise.pending_bytes(), 0);
}

#[test]
fn partial_frame_waits_in_the_buffer() {
    let mut s = online();
    let frame = frames(&[Message::Welcome { text: b"hello".to_vec() }]);
    s.receive(&frame[..6]);
    assert_eq!(s.pending_bytes(), 6);
    assert!(s.text().is_empty());
    s.receive(&frame[6..]);
    assert_eq!(s.pending_bytes(), 0);
    assert_eq!(s.text(), b"hello");
}

#[test]
fn peers_follow_joins_and_leaves() {
    let mut s = online();
    s.apply_message(&Message::UserJoined { user_id: 1, username: b"ann".to_vec() });
    s.apply_message(&Message::UserJoined { user_id: 2, username: b"bob".to_vec() });
    s.apply_message(&Message::UserJoined { user_id: 3, username: b"ann".to_vec() });
    assert_eq!(s.active_users(), vec![peer(b"ann", 3), peer(b"bob", 2)]);
    s.apply_message(&Message::UserLeft { user_id: 1 });
    assert_eq!(s.active_users(), vec![peer(b"ann", 3), peer(b"bob", 2)]);
    s.apply_message(&Message::UserJoined { user_id: 4, username: b"".to_vec() });
    s.apply_message(&Message::UserJoined { user_id: 5, username: b"az".to_vec() });
    assert_eq!(
        s.active_users(),
        vec![peer(b"", 4), peer(b"ann", 3), peer(b"az", 5), peer(b"bob", 2)]
    );
    s.apply_message(&Message::UserLeft { user_id: 4 });
    s.apply_message(&Message::UserLeft { user_id: 5 });
    s.apply_message(&Message::UserLeft { user_id: 2 });
    assert_eq!(s.active_users(), vec![peer(b"ann", 3)]);
}

#[test]
fn invalid_frame_breaks_the_connection() {
    let mut s = online();
    let mut stream = frames(&[Message::Welcome { text: b"hello".to_vec() }]);
    stream.push(77);
    stream.extend(frames(&[Message::Welcome { text: b"again".to_vec() }]));
    s.receive(&stream);
    assert!(!s.is_connected());
    assert_eq!(s.text(), b"hello");
    assert_eq!(s.pending_bytes(), 0);
    s.receive(&frames(&[Message::Welcome { text: b"more".to_vec() }]));
    assert_eq!(s.text(), b"hello");
    assert_eq!(s.pending_bytes(), 0);
}

#[test]
fn oversized_payload_breaks_the_connection() {
    let mut s = ClientSession::new(Codec::new(4));
    s.connect();
    s.receive(&[4, 5, 0]);
    assert!(!s.is_connected());
}

#[test]
fn without_connection_nothing_is_taken_in() {
    let mut s = ClientSession::new(codec());
    s.receive(&frames(&[Message::Welcome { text: b"hello".to_vec() }]));
    assert!(s.text().is_empty());
    assert_eq!(s.pending_bytes(), 0);
}

#[test]
fn join_sends_a_join_frame_and_waits() {
    let mut s = online();
    assert_eq!(s.join(b"Guest42"), Ok(vec![1, 7, 0, b'G', b'u', b'e', b's', b't', b'4', b'2']));
    assert_eq!(s.join_state(), JoinState::Pending(b"Guest42".to_vec()));
    assert_eq!(s.join(b"other"), Err(SessionError::AlreadyJoined));
    assert_eq!(s.user_id(), None);
    s.receive(&frames(&[Message::UserJoined { user_id: 5, username: b"someone".to_vec() }]));
    assert_eq!(s.user_id(), None);
    s.receive(&frames(&[Message::UserJoined { user_id: 9, username: b"Guest42".to_vec() }]));
    assert_eq!(s.user_id(), Some(9));
    assert_eq!(s.join_state(), JoinState::Joined { username: b"Guest42".to_vec(), id: 9 });
    assert_eq!(s.join(b"other"), Err(SessionError::AlreadyJoined));
    assert_eq!(s.active_users(), vec![peer(b"Guest42", 9), peer(b"someone", 5)]);
}

#[test]
fn rejected_join_can_be_tried_again() {
    let mut s = online();
    s.join(b"ann").unwrap();
    s.receive(&frames(&[Message::Extended {
        extended_type: ExtendedMessageType::FUTURE,
        content: b"ann".to_vec(),
    }]));
    assert_eq!(s.join_state(), JoinState::Pending(b"ann".to_vec()));
    s.receive(&frames(&[Message::Extended {
        extended_type: ExtendedMessageType::JOIN_REJECTED,
        content: b"bob".to_vec(),
    }]));
    assert_eq!(s.join_state(), JoinState::Pending(b"ann".to_vec()));
    s.receive(&frames(&[Message::Extended {
        extended_type: ExtendedMessageType::JOIN_REJECTED,
        content: b"ann".to_vec(),
    }]));
    assert_eq!(s.join_state(), JoinState::Idle);
    assert!(s.join(b"ann2").is_ok());
}

#[test]
fn join_errors() {
    let mut s = ClientSession::new(Codec::new(4));
    assert_eq!(s.join(b"ann"), Err(SessionError::NotConnected));
    s.connect();
    assert_eq!(s.join(b"12345"), Err(SessionError::TooLong));
    assert_eq!(s.join_state(), JoinState::Idle);
    assert_eq!(s.join(b"1234"), Ok(vec![1, 4, 0, b'1', b'2', b'3', b'4']));
}

#[test]
fn send_chat_frames_and_errors() {
    let mut s = ClientSession::new(Codec::new(4));
    assert_eq!(s.send_chat(b"hi"), Err(SessionError::NotConnected));
    s.connect();
    assert_eq!(s.send_chat(b"hi"), Err(SessionError::NotJoined));
    s.join(b"ann").unwrap();
    assert_eq!(s.send_chat(b"hi"), Err(SessionError::NotJoined));
    s.receive(&Codec::new(4).encode(&Message::UserJoined { user_id: 0x0201, username: b"ann".to_vec() }));
    assert_eq!(s.send_chat(b"12345"), Err(SessionError::TooLong));
    let mut expected = vec![0u8, 1, 2];
    expected.extend([0u8; 14]);
    expected.extend([2, 0, b'h', b'i']);
    assert_eq!(s.send_chat(b"hi"), Ok(expected));
}

#[test]
fn disconnect_sends_leave_only_when_joined() {
    let mut s = ClientSession::new(codec());
    assert_eq!(s.disconnect(), None);
    s.connect();
    assert_eq!(s.disconnect(), None);
    s.connect();
    s.join(b"ann").unwrap();
    assert_eq!(s.disconnect(), None);
    s.connect();
    s.join(b"ann").unwrap();
    s.receive(&frames(&[
        Message::Version { major: 0, minor: 2, patch: 0 },
        Message::Welcome { text: b"hello".to_vec() },
        Message::UserJoined { user_id: 9, username: b"ann".to_vec() },
    ]));
    s.receive(&[4, 9]);
    assert_eq!(s.disconnect(), Some(vec![2]));
    assert!(!s.is_connected());
    assert_eq!(s.server_version(), None);
    assert_eq!(s.user_id(), None);
    assert_eq!(s.pending_bytes(), 0);
    assert_eq!(s.text(), b"hello");
    assert_eq!(s.active_users(), vec![peer(b"ann", 9)]);
    assert_eq!(s.disconnect(), None);
}

#[test]
fn connect_keeps_version_peers_and_text() {
    let mut s = online();
    s.join(b"ann").unwrap();
    s.receive(&frames(&[
        Message::Version { major: 0, minor: 2, patch: 0 },
        Message::Welcome { text: b"hello".to_vec() },
        Message::UserJoined { user_id: 9, username: b"ann".to_vec() },
    ]));
    assert_eq!(s.user_id(), Some(9));
    s.connect();
    assert!(s.is_connected());
    assert_eq!(s.server_version(), Some(ServerVersion { major: 0, minor: 2, patch: 0 }));
    assert_eq!(s.text(), b"hello");
    assert_eq!(s.active_users(), vec![peer(b"ann", 9)]);
    assert_eq!(s.join_state(), JoinState::Idle);
    assert_eq!(s.user_id(), None);
    assert_eq!(s.pending_bytes(), 0);
}

#[test]
fn connect_on_a_new_session_changes_only_the_connection() {
    let mut s = ClientSession::new(codec());
    s.connect();
    assert!(s.is_connected());
    assert_eq!(s.server_version(), None);
    assert!(s.text().is_empty());
    assert!(s.active_users().is_empty());
    assert_eq!(s.join_state(), JoinState::Idle);
}

#[test]
fn connect_starts_with_an_empty_buffer() {
    let mut s = online();
    s.receive(&[4, 9]);
    assert_eq!(s.pending_bytes(), 2);
    s.connect();
    assert!(s.is_connected());
    assert_eq!(s.pending_bytes(), 0);
}

#[test]
fn guest_names() {
    assert_eq!(guest_name(42), b"Guest42".to_vec());
    assert_eq!(guest_name(0), b"Guest0".to_vec());
    assert_eq!(guest_name(9), b"Guest9".to_vec());
    assert_eq!(guest_name(10), b"Guest10".to_vec());
    assert_eq!(guest_name(1000), b"Guest1000".to_vec());
    assert_eq!(guest_name(u32::MAX), b"Guest4294967295".to_vec());
}

#[test]
fn random_guest_names_are_in_range() {
    let mut seen = Vec::new();
    for _ in 0..300 {
        let name = String::from_utf8(random_guest_name()).unwrap();
        let n: u32 = name.strip_prefix("Guest").unwrap().parse().unwrap();
        assert!((1..=1000).contains(&n));
        assert_eq!(name, format!("Guest{n}"));
        seen.push(n);
    }
    seen.sort();
    seen.dedup();
    assert!(seen.len() > 1);
}
