use bork::codec::Codec;
use bork::dispatch::{Delivery, Dispatcher, Target};
use bork::message::Message;

fn table(conns: &[u64]) -> Dispatcher {
    let mut d = Dispatcher::new(Codec::new(8));
    for c in conns {
        assert!(d.attach(*c));
    }
    d
}

#[test]
fn target_includes() {
    assert!(Target::One(3).includes(3));
    assert!(!Target::One(3).includes(4));
    assert!(Target::All.includes(0));
    assert!(Target::AllExcept(3).includes(4));
    assert!(!Target::AllExcept(3).includes(3));
}

#[test]
fn attach_enters_each_connection_once() {
    let mut d = table(&[5, 1, 9]);
    assert!(!d.attach(1));
    assert_eq!(d.recipients(Target::All), vec![5, 1, 9]);
    assert!(d.is_open(9));
    assert!(!d.is_open(2));
}

#[test]
fn detach_strikes_the_connection() {
    let mut d = table(&[5, 1, 9]);
    assert!(d.detach(1));
    assert!(!d.detach(1));
    assert_eq!(d.recipients(Target::All), vec![5, 9]);
    assert!(!d.is_open(1));
}

#[test]
fn recipients_of_each_target() {
    let d = table(&[5, 1, 9]);
    assert_eq!(d.recipients(Target::One(1)), vec![1]);
    assert_eq!(d.recipients(Target::One(2)), Vec::<u64>::new());
    assert_eq!(d.recipients(Target::All), vec![5, 1, 9]);
    assert_eq!(d.recipients(Target::AllExcept(5)), vec![1, 9]);
    assert_eq!(d.recipients(Target::AllExcept(2)), vec![5, 1, 9]);
    assert_eq!(table(&[]).recipients(Target::All), Vec::<u64>::new());
}

#[test]
fn send_writes_the_frame_to_each_recipient() {
    let d = table(&[5, 1, 9]);
    let out = d.send(&Message::UserLeft { user_id: 2 }, Target::AllExcept(1));
    let mut frame = vec![7u8, 2];
    frame.extend([0u8; 15]);
    assert_eq!(
        out,
        vec![
            Delivery { conn: 5, bytes: frame.clone() },
            Delivery { conn: 9, bytes: frame.clone() },
        ]
    );
}

#[test]
fn send_to_a_closed_connection_is_dropped() {
    let mut d = table(&[5, 1]);
    d.detach(5);
    assert!(d.send(&Message::Leave, Target::One(5)).is_empty());
    assert_eq!(d.send(&Message::Leave, Target::One(1)), vec![Delivery { conn: 1, bytes: vec![2] }]);
}

#[test]
fn send_drops_what_no_frame_can_carry() {
    let d = table(&[5, 1]);
    assert!(d.send(&Message::Welcome { text: vec![0; 9] }, Target::All).is_empty());
    assert_eq!(d.send(&Message::Welcome { text: vec![0; 8] }, Target::All).len(), 2);
}
