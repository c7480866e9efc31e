use bork::codec::Codec;
use bork::connection::{
    Connection, SERVER_ADDRESS, SERVER_PORT, VERSION_MAJOR, VERSION_MINOR, VERSION_PATCH, WELCOME,
};
use bork::dispatch::{Outbound, Target};
use bork::message::{ExtendedMessageType, Message};
use bork::registry::{Registry, User};

fn codec() -> Codec {
    Codec::new(Codec::LARGEST_PAYLOAD)
}

fn join(name: &[u8]) -> Message {
    Message::Join { username: name.to_vec() }
}

#[test]
fn server_constants() {
    assert_eq!(SERVER_PORT, 6556);
    assert_eq!(SERVER_ADDRESS, "0.0.0.0");
    assert_eq!((VERSION_MAJOR, VERSION_MINOR, VERSION_PATCH), (0, 2, 0));
    assert!(WELCOME.ends_with("WELCOME TO BORK BORK, A PLACE\n    FOR LAKEDOGS TO BORK ABOUT\n"));
    assert!(WELCOME.len() <= 65535);
}

#[test]
fn greeting_is_version_then_welcome() {
    let (conn, out) = Connection::with_candidate(4, 99, b"hello");
    assert_eq!(conn.id(), 4);
    assert!(!conn.is_closed());
    assert_eq!(conn.user(), None);
    assert_eq!(conn.pending_bytes(), 0);
    assert_eq!(
        out,
        vec![
            Outbound {
                message: Message::Version { major: 0, minor: 2, patch: 0 },
                target: Target::One(4),
            },
            Outbound { message: Message::Welcome { text: b"hello".to_vec() }, target: Target::One(4) },
        ]
    );
}

#[test]
fn open_draws_a_candidate_id() {
    let mut registry = Registry::new();
    let (mut a, hello) = Connection::open(1, WELCOME.as_bytes());
    let (mut b, _) = Connection::open(2, WELCOME.as_bytes());
    assert_eq!(hello.len(), 2);
    assert_eq!(hello[1].message, Message::Welcome { text: WELCOME.as_bytes().to_vec() });
    a.handle(&join(b"ann"), &mut registry);
    b.handle(&join(b"bob"), &mut registry);
    let (ann, bob) = (a.user().unwrap(), b.user().unwrap());
    assert_ne!(ann.id, bob.id);
    assert_eq!((ann.id >> 76) & 0xf, 4);
    assert_eq!(registry.len(), 2);
}

#[test]
fn accepted_join_binds_and_is_announced_to_all() {
    let mut registry = Registry::new();
    let (mut conn, _) = Connection::with_candidate(4, 99, b"");
    let out = conn.handle(&join(b"ann"), &mut registry);
    assert_eq!(
        out,
        vec![Outbound {
            message: Message::UserJoined { user_id: 99, username: b"ann".to_vec() },
            target: Target::All,
        }]
    );
    let user = User { display_name: b"ann".to_vec(), id: 99, online: true };
    assert_eq!(conn.user(), Some(user.clone()));
    assert_eq!(registry.snapshot(), vec![user]);
}

#[test]
fn taken_name_is_rejected_and_connection_stays_open() {
    let mut registry = Registry::new();
    registry.register_with_id(b"ann", 1).unwrap();
    let (mut conn, _) = Connection::with_candidate(4, 99, b"");
    let out = conn.handle(&join(b"ann"), &mut registry);
    assert_eq!(
        out,
        vec![Outbound {
            message: Message::Extended {
                extended_type: ExtendedMessageType::JOIN_REJECTED,
                content: b"ann".to_vec(),
            },
            target: Target::One(4),
        }]
    );
    assert_eq!(ExtendedMessageType::JOIN_REJECTED, 1);
    assert!(!conn.is_closed());
    assert_eq!(conn.user(), None);
    assert_eq!(registry.len(), 1);
    let out = conn.handle(&join(b"bob"), &mut registry);
    assert_eq!(out[0].target, Target::All);
    assert_eq!(conn.user().unwrap().display_name, b"bob".to_vec());
}

#[test]
fn candidate_id_in_use_is_rejected() {
    let mut registry = Registry::new();
    registry.register_with_id(b"ann", 99).unwrap();
    let (mut conn, _) = Connection::with_candidate(4, 99, b"");
    let out = conn.handle(&join(b"bob"), &mut registry);
    assert_eq!(out[0].target, Target::One(4));
    assert_eq!(conn.user(), None);
    assert_eq!(registry.len(), 1);
}

#[test]
fn second_join_is_ignored() {
    let mut registry = Registry::new();
    let (mut conn, _) = Connection::with_candidate(4, 99, b"");
    conn.handle(&join(b"ann"), &mut registry);
    assert!(conn.handle(&join(b"bob"), &mut registry).is_empty());
    assert_eq!(conn.user().unwrap().display_name, b"ann".to_vec());
    assert_eq!(registry.len(), 1);
}

#[test]
fn chat_is_forwarded_only_when_authenticated() {
    let mut registry = Registry::new();
    let (mut conn, _) = Connection::with_candidate(4, 99, b"");
    let chat = Message::ChatMsg { sender_id: 5, text: b"woof".to_vec() };
    assert!(conn.handle(&chat, &mut registry).is_empty());
    conn.handle(&join(b"ann"), &mut registry);
    assert_eq!(
        conn.handle(&chat, &mut registry),
        vec![Outbound { message: chat.clone(), target: Target::All }]
    );
}

#[test]
fn other_messages_are_passed_over() {
    let mut registry = Registry::new();
    let (mut conn, _) = Connection::with_candidate(4, 99, b"");
    conn.handle(&join(b"ann"), &mut registry);
    for m in [
        Message::Version { major: 1, minor: 2, patch: 3 },
        Message::Welcome { text: vec![1] },
        Message::Extended { extended_type: 0, content: vec![] },
        Message::UserJoined { user_id: 1, username: vec![] },
        Message::UserLeft { user_id: 99 },
    ] {
        assert!(conn.handle(&m, &mut registry).is_empty());
    }
    assert!(!conn.is_closed());
    assert_eq!(registry.len(), 1);
}

#[test]
fn leave_unregisters_and_tells_the_others() {
    let mut registry = Registry::new();
    let (mut conn, _) = Connection::with_candidate(4, 99, b"");
    conn.handle(&join(b"ann"), &mut registry);
    let out = conn.handle(&Message::Leave, &mut registry);
    assert_eq!(
        out,
        vec![Outbound { message: Message::UserLeft { user_id: 99 }, target: Target::AllExcept(4) }]
    );
    assert!(conn.is_closed());
    assert_eq!(conn.user(), None);
    assert_eq!(registry.len(), 0);
    assert!(conn.handle(&join(b"ann"), &mut registry).is_empty());
    assert!(conn.handle(&Message::Leave, &mut registry).is_empty());
    assert_eq!(registry.len(), 0);
}

#[test]
fn leave_before_join_just_closes() {
    let mut registry = Registry::new();
    let (mut conn, _) = Connection::with_candidate(4, 99, b"");
    assert!(conn.handle(&Message::Leave, &mut registry).is_empty());
    assert!(conn.is_closed());
}

#[test]
fn lost_socket_unregisters_and_tells_the_others() {
    let mut registry = Registry::new();
    registry.register_with_id(b"bob", 1).unwrap();
    let (mut conn, _) = Connection::with_candidate(4, 99, b"");
    conn.handle(&join(b"ann"), &mut registry);
    let out = conn.close(&mut registry);
    assert_eq!(
        out,
        vec![Outbound { message: Message::UserLeft { user_id: 99 }, target: Target::AllExcept(4) }]
    );
    assert!(conn.is_closed());
    assert_eq!(registry.snapshot().len(), 1);
    assert!(registry.contains_name(b"bob"));
    assert!(conn.close(&mut registry).is_empty());
}

#[test]
fn receive_handles_frames_across_reads() {
    let mut registry = Registry::new();
    let (mut conn, _) = Connection::with_candidate(4, 99, b"");
    let mut stream = codec().encode(&join(b"ann"));
    stream.extend(codec().encode(&Message::ChatMsg { sender_id: 99, text: b"hi".to_vec() }));
    stream.extend(codec().encode(&Message::Leave));
    let mut whole = Vec::new();
    for byte in &stream {
        whole.extend(conn.receive(&[*byte], &mut registry, &codec()));
    }
    let mut registry2 = Registry::new();
    let (mut conn2, _) = Connection::with_candidate(4, 99, b"");
    let at_once = conn2.receive(&stream, &mut registry2, &codec());
    assert_eq!(whole, at_once);
    assert_eq!(whole.len(), 3);
    assert_eq!(whole[0].message, Message::UserJoined { user_id: 99, username: b"ann".to_vec() });
    assert_eq!(whole[1].message, Message::ChatMsg { sender_id: 99, text: b"hi".to_vec() });
    assert_eq!(whole[2].message, Message::UserLeft { user_id: 99 });
    assert!(conn.is_closed() && conn2.is_closed());
    assert_eq!(registry.len(), 0);
}

#[test]
fn receive_keeps_a_partial_frame_waiting() {
    let mut registry = Registry::new();
    let (mut conn, _) = Connection::with_candidate(4, 99, b"");
    let frame = codec().encode(&join(b"ann"));
    assert!(conn.receive(&frame[..4], &mut registry, &codec()).is_empty());
    assert_eq!(conn.pending_bytes(), 4);
    assert_eq!(conn.user(), None);
    let out = conn.receive(&frame[4..], &mut registry, &codec());
    assert_eq!(out.len(), 1);
    assert_eq!(conn.pending_bytes(), 0);
}

#[test]
fn invalid_frame_closes_the_connection() {
    let mut registry = Registry::new();
    let (mut conn, _) = Connection::with_candidate(4, 99, b"");
    let mut stream = codec().encode(&join(b"ann"));
    stream.push(200);
    stream.extend(codec().encode(&Message::ChatMsg { sender_id: 99, text: b"hi".to_vec() }));
    let out = conn.receive(&stream, &mut registry, &codec());
    assert_eq!(out.len(), 2);
    assert_eq!(out[1].message, Message::UserLeft { user_id: 99 });
    assert_eq!(out[1].target, Target::AllExcept(4));
    assert!(conn.is_closed());
    assert_eq!(conn.pending_bytes(), 0);
    assert_eq!(registry.len(), 0);
    assert!(conn.receive(&[2], &mut registry, &codec()).is_empty());
    assert_eq!(conn.pending_bytes(), 0);
}

#[test]
fn oversized_name_closes_the_connection() {
    let mut registry = Registry::new();
    let (mut conn, _) = Connection::with_candidate(4, 99, b"");
    let out = conn.receive(&[1, 9, 0, 1], &mut registry, &Codec::new(8));
    assert!(out.is_empty());
    assert!(conn.is_closed());
}

#[test]
fn one_failing_connection_leaves_the_others_alone() {
    let mut registry = Registry::new();
    let (mut a, _) = Connection::with_candidate(1, 10, b"");
    let (mut b, _) = Connection::with_candidate(2, 20, b"");
    a.handle(&join(b"ann"), &mut registry);
    b.handle(&join(b"bob"), &mut registry);
    a.receive(&[99], &mut registry, &codec());
    assert!(a.is_closed());
    assert!(!b.is_closed());
    assert_eq!(b.user().unwrap().id, 20);
    assert_eq!(registry.snapshot(), vec![User { display_name: b"bob".to_vec(), id: 20, online: true }]);
}

#[test]
fn connections_with_distinct_names_all_join() {
    let mut registry = Registry::new();
    let mut conns: Vec<Connection> =
        (0..40u64).map(|id| Connection::open(id, WELCOME.as_bytes()).0).collect();
    let order: Vec<usize> = (0..40).map(|i| (i * 7) % 40).collect();
    for (done, at) in order.iter().enumerate() {
        let name = format!("client{at}").into_bytes();
        let out = conns[*at].handle(&join(&name), &mut registry);
        let user = conns[*at].user().unwrap();
        assert_eq!(user.display_name, name);
        assert!(user.online);
        assert_eq!(
            out,
            vec![Outbound {
                message: Message::UserJoined { user_id: user.id, username: name.clone() },
                target: Target::All,
            }]
        );
        assert_eq!(registry.len(), done + 1);
        let stored = registry.snapshot().into_iter().find(|u| u.display_name == name).unwrap();
        assert_eq!(stored, user);
    }
    let snap = registry.snapshot();
    let mut ids: Vec<u128> = snap.iter().map(|u| u.id).collect();
    ids.sort();
    ids.dedup();
    assert_eq!(ids.len(), 40);
    assert!(snap.iter().all(|u| u.online));
}
