//! What the user of the client can ask for, and which key asks for what.

use vstd::prelude::*;

verus! {

/// What the user asks of the client.
#[derive(Clone, Debug, PartialEq, Eq)]
pub enum Action {
    Quit,
    ConnectServer,
    DisconnectServer,
    SwitchScreen,
    SendMessage(String),
}

/// What a key press asks of the client.
#[derive(Clone, Copy, Debug, PartialEq, Eq, Structural)]
pub enum AppEvent {
    ConnectServer,
    DisconnectServer,
    JoinUser,
    Quit,
}

/// A key, as far as the client tells keys apart.
#[derive(Clone, Copy, Debug, PartialEq, Eq, Structural)]
pub enum Key {
    Esc,
    Char(char),
    Other,
}

/// What a key asks for. `control` says that Control, and no other modifier,
/// is held.
///
/// Escape and `q` quit, and so does Control with `c`. Without Control, `c`
/// connects; `d` disconnects and `j` joins. Letters count in either case.
pub open spec fn key_meaning(key: Key, control: bool) -> Option<AppEvent> {
    match key {
        Key::Esc => Some(AppEvent::Quit),
        Key::Char(c) => if c == 'q' {
            Some(AppEvent::Quit)
        } else if c == 'c' || c == 'C' {
            if control {
                Some(AppEvent::Quit)
            } else {
                Some(AppEvent::ConnectServer)
            }
        } else if c == 'd' || c == 'D' {
            Some(AppEvent::DisconnectServer)
        } else if c == 'j' || c == 'J' {
            Some(AppEvent::JoinUser)
        } else {
            None
        },
        Key::Other => None,
    }
}

/// What a key asks for: see [`key_meaning`].
pub fn handle_key(key: Key, control: bool) -> (event: Option<AppEvent>)
    ensures
        event == key_meaning(key, control),
{
    match key {
        Key::Esc => Some(AppEvent::Quit),
        Key::Char(c) => {
            if c == 'q' {
                Some(AppEvent::Quit)
            } else if c == 'c' || c == 'C' {
                if control {
                    Some(AppEvent::Quit)
                } else {
                    Some(AppEvent::ConnectServer)
                }
            } else if c == 'd' || c == 'D' {
                Some(AppEvent::DisconnectServer)
            } else if c == 'j' || c == 'J' {
                Some(AppEvent::JoinUser)
            } else {
                None
            }
        },
        Key::Other => None,
    }
}

} // verus!
