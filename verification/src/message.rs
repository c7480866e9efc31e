//! The messages of the protocol and their type tags.

use vstd::prelude::*;
use crate::wire::copy_range;

verus! {

/// The type tag that opens every frame.
pub struct MessageType;

impl MessageType {
    pub const CHATMSG: u8 = 0;

    pub const JOIN: u8 = 1;

    pub const LEAVE: u8 = 2;

    pub const VERSION: u8 = 3;

    pub const WELCOME: u8 = 4;

    pub const EXTENDED: u8 = 5;

    pub const USERJOINED: u8 = 6;

    pub const USERLEFT: u8 = 7;
}

/// The kinds of `Extended` message.
pub struct ExtendedMessageType;

impl ExtendedMessageType {
    /// Reserved for later use.
    pub const FUTURE: u64 = 0;

    /// The server's answer to a `Join` it did not accept; the content is the
    /// name that was asked for.
    pub const JOIN_REJECTED: u64 = 1;
}

/// One message of the protocol. Names and texts are byte strings, exactly as
/// they travel on the wire.
#[derive(Clone, Debug, PartialEq, Eq)]
pub enum Message {
    ChatMsg { sender_id: u128, text: Vec<u8> },
    Join { username: Vec<u8> },
    Leave,
    Version { major: u16, minor: u16, patch: u16 },
    Welcome { text: Vec<u8> },
    Extended { extended_type: u64, content: Vec<u8> },
    UserJoined { user_id: u128, username: Vec<u8> },
    UserLeft { user_id: u128 },
}

/// What a [`Message`] says, with its byte strings as sequences.
pub enum MessageView {
    ChatMsg { sender_id: u128, text: Seq<u8> },
    Join { username: Seq<u8> },
    Leave,
    Version { major: u16, minor: u16, patch: u16 },
    Welcome { text: Seq<u8> },
    Extended { extended_type: u64, content: Seq<u8> },
    UserJoined { user_id: u128, username: Seq<u8> },
    UserLeft { user_id: u128 },
}

impl View for Message {
    type V = MessageView;

    open spec fn view(&self) -> MessageView {
        match *self {
            Message::ChatMsg { sender_id, text } => MessageView::ChatMsg { sender_id, text: text@ },
            Message::Join { username } => MessageView::Join { username: username@ },
            Message::Leave => MessageView::Leave,
            Message::Version { major, minor, patch } => MessageView::Version {
                major,
                minor,
                patch,
            },
            Message::Welcome { text } => MessageView::Welcome { text: text@ },
            Message::Extended { extended_type, content } => MessageView::Extended {
                extended_type,
                content: content@,
            },
            Message::UserJoined { user_id, username } => MessageView::UserJoined {
                user_id,
                username: username@,
            },
            Message::UserLeft { user_id } => MessageView::UserLeft { user_id },
        }
    }
}

impl MessageView {
    /// The type tag of the message.
    pub open spec fn tag(self) -> u8 {
        match self {
            MessageView::ChatMsg { .. } => 0,
            MessageView::Join { .. } => 1,
            MessageView::Leave => 2,
            MessageView::Version { .. } => 3,
            MessageView::Welcome { .. } => 4,
            MessageView::Extended { .. } => 5,
            MessageView::UserJoined { .. } => 6,
            MessageView::UserLeft { .. } => 7,
        }
    }

    /// The variable-length part of the message; empty where it has none.
    pub open spec fn payload(self) -> Seq<u8> {
        match self {
            MessageView::ChatMsg { text, .. } => text,
            MessageView::Join { username } => username,
            MessageView::Welcome { text } => text,
            MessageView::Extended { content, .. } => content,
            MessageView::UserJoined { username, .. } => username,
            _ => Seq::empty(),
        }
    }
}

impl Message {
    /// The type tag of the message.
    pub fn tag(&self) -> (t: u8)
        ensures
            t == self@.tag(),
    {
        match self {
            Message::ChatMsg { .. } => MessageType::CHATMSG,
            Message::Join { .. } => MessageType::JOIN,
            Message::Leave => MessageType::LEAVE,
            Message::Version { .. } => MessageType::VERSION,
            Message::Welcome { .. } => MessageType::WELCOME,
            Message::Extended { .. } => MessageType::EXTENDED,
            Message::UserJoined { .. } => MessageType::USERJOINED,
            Message::UserLeft { .. } => MessageType::USERLEFT,
        }
    }

    /// The length of the variable-length part of the message.
    pub fn payload_len(&self) -> (n: usize)
        ensures
            n == self@.payload().len(),
    {
        match self {
            Message::ChatMsg { text, .. } => text.len(),
            Message::Join { username } => username.len(),
            Message::Welcome { text } => text.len(),
            Message::Extended { content, .. } => content.len(),
            Message::UserJoined { username, .. } => username.len(),
            _ => 0,
        }
    }

    /// A copy that says the same.
    pub fn duplicate(&self) -> (copy: Message)
        ensures
            copy@ == self@,
    {
        match self {
            Message::ChatMsg { sender_id, text } => Message::ChatMsg {
                sender_id: *sender_id,
                text: copy_bytes(text),
            },
            Message::Join { username } => Message::Join { username: copy_bytes(username) },
            Message::Leave => Message::Leave,
            Message::Version { major, minor, patch } => Message::Version {
                major: *major,
                minor: *minor,
                patch: *patch,
            },
            Message::Welcome { text } => Message::Welcome { text: copy_bytes(text) },
            Message::Extended { extended_type, content } => Message::Extended {
                extended_type: *extended_type,
                content: copy_bytes(content),
            },
            Message::UserJoined { user_id, username } => Message::UserJoined {
                user_id: *user_id,
                username: copy_bytes(username),
            },
            Message::UserLeft { user_id } => Message::UserLeft { user_id: *user_id },
        }
    }
}

/// A fresh vector with the bytes of `v`.
pub fn copy_bytes(v: &Vec<u8>) -> (out: Vec<u8>)
    ensures
        out@ == v@,
{
    let out = copy_range(v.as_slice(), 0, v.len());
    assert(v@.subrange(0, v@.len() as int) =~= v@);
    out
}

} // verus!
