use bork::events::{handle_key, Action, AppEvent, Key};

#[test]
fn keys_that_quit() {
    assert_eq!(handle_key(Key::Esc, false), Some(AppEvent::Quit));
    assert_eq!(handle_key(Key::Esc, true), Some(AppEvent::Quit));
    assert_eq!(handle_key(Key::Char('q'), false), Some(AppEvent::Quit));
    assert_eq!(handle_key(Key::Char('q'), true), Some(AppEvent::Quit));
    assert_eq!(handle_key(Key::Char('c'), true), Some(AppEvent::Quit));
    assert_eq!(handle_key(Key::Char('C'), true), Some(AppEvent::Quit));
}

#[test]
fn keys_that_connect_disconnect_and_join() {
    assert_eq!(handle_key(Key::Char('c'), false), Some(AppEvent::ConnectServer));
    assert_eq!(handle_key(Key::Char('C'), false), Some(AppEvent::ConnectServer));
    for control in [false, true] {
        assert_eq!(handle_key(Key::Char('d'), control), Some(AppEvent::DisconnectServer));
        assert_eq!(handle_key(Key::Char('D'), control), Some(AppEvent::DisconnectServer));
        assert_eq!(handle_key(Key::Char('j'), control), Some(AppEvent::JoinUser));
        assert_eq!(handle_key(Key::Char('J'), control), Some(AppEvent::JoinUser));
    }
}

#[test]
fn other_keys_ask_for_nothing() {
    assert_eq!(handle_key(Key::Char('Q'), false), None);
    assert_eq!(handle_key(Key::Char('x'), false), None);
    assert_eq!(handle_key(Key::Char(' '), true), None);
    assert_eq!(handle_key(Key::Other, false), None);
    assert_eq!(handle_key(Key::Other, true), None);
}

#[test]
fn actions_compare() {
    assert_eq!(Action::SendMessage("hi".to_string()), Action::SendMessage("hi".to_string()));
    assert_ne!(Action::Quit, Action::ConnectServer);
    assert_ne!(Action::DisconnectServer, Action::SwitchScreen);
}
