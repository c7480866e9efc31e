//! The frame codec: a message to its bytes, and the head of a byte buffer
//! back to a message.
//!
//! A frame is one tag byte followed by the fields of its message, integers
//! little-endian; a byte string is preceded by its length in two bytes.

use vstd::prelude::*;
use crate::message::{Message, MessageType, MessageView};
use crate::wire::{append, copy_range, le_bytes, le_value, lemma_radix_pow_values, put_le, read_le};

verus! {

/// Why a buffer cannot be the start of any frame.
#[derive(Clone, Copy, Debug, PartialEq, Eq, Structural)]
pub enum InvalidReason {
    /// The first byte is no known type tag.
    UnknownTag(u8),
    /// The length prefix promises more bytes than the codec admits.
    PayloadTooLarge(u16),
}

/// What decoding the head of a buffer gave.
#[derive(Clone, Debug, PartialEq, Eq)]
pub enum DecodeOutcome {
    /// The buffer starts with a whole frame of this many bytes.
    Complete(Message, usize),
    /// The buffer is a proper prefix of a frame: more bytes are needed.
    Incomplete,
    /// Framing is lost.
    Invalid(InvalidReason),
}

pub enum DecodeOutcomeView {
    Complete(MessageView, nat),
    Incomplete,
    Invalid(InvalidReason),
}

impl View for DecodeOutcome {
    type V = DecodeOutcomeView;

    open spec fn view(&self) -> DecodeOutcomeView {
        match *self {
            DecodeOutcome::Complete(m, n) => DecodeOutcomeView::Complete(m@, n as nat),
            DecodeOutcome::Incomplete => DecodeOutcomeView::Incomplete,
            DecodeOutcome::Invalid(r) => DecodeOutcomeView::Invalid(r),
        }
    }
}

/// A length-prefixed byte string as found in a buffer.
pub enum PayloadView {
    /// The prefix or the bytes it counts are not all there yet.
    Short,
    /// The prefix counts more bytes than admitted.
    TooLarge(u16),
    /// The bytes that the prefix counts.
    Present(Seq<u8>),
}

/// The byte string whose two-byte length prefix stands at `at` in `buf`.
pub open spec fn sized_payload(buf: Seq<u8>, at: int, max: u16) -> PayloadView {
    if buf.len() < at + 2 {
        PayloadView::Short
    } else {
        let n = le_value(buf.subrange(at, at + 2));
        if n > max {
            PayloadView::TooLarge(n as u16)
        } else if buf.len() < at + 2 + n {
            PayloadView::Short
        } else {
            PayloadView::Present(buf.subrange(at + 2, at + 2 + n))
        }
    }
}

/// The frame of a message.
pub open spec fn encoding(m: MessageView) -> Seq<u8> {
    match m {
        MessageView::ChatMsg { sender_id, text } => seq![0u8] + le_bytes(sender_id as nat, 16)
            + le_bytes(text.len(), 2) + text,
        MessageView::Join { username } => seq![1u8] + le_bytes(username.len(), 2) + username,
        MessageView::Leave => seq![2u8],
        MessageView::Version { major, minor, patch } => seq![3u8] + le_bytes(major as nat, 2)
            + le_bytes(minor as nat, 2) + le_bytes(patch as nat, 2),
        MessageView::Welcome { text } => seq![4u8] + le_bytes(text.len(), 2) + text,
        MessageView::Extended { extended_type, content } => seq![5u8] + le_bytes(
            extended_type as nat,
            8,
        ) + le_bytes(content.len(), 2) + content,
        MessageView::UserJoined { user_id, username } => seq![6u8] + le_bytes(user_id as nat, 16)
            + le_bytes(username.len(), 2) + username,
        MessageView::UserLeft { user_id } => seq![7u8] + le_bytes(user_id as nat, 16),
    }
}

/// What the head of `buf` decodes to when byte strings may be up to `max`
/// bytes long.
pub open spec fn decoding(buf: Seq<u8>, max: u16) -> DecodeOutcomeView {
    if buf.len() == 0 {
        DecodeOutcomeView::Incomplete
    } else if buf[0] == 0 {
        match sized_payload(buf, 17, max) {
            PayloadView::Short => DecodeOutcomeView::Incomplete,
            PayloadView::TooLarge(n) => DecodeOutcomeView::Invalid(
                InvalidReason::PayloadTooLarge(n),
            ),
            PayloadView::Present(text) => DecodeOutcomeView::Complete(
                MessageView::ChatMsg { sender_id: le_value(buf.subrange(1, 17)) as u128, text },
                19 + text.len(),
            ),
        }
    } else if buf[0] == 1 {
        match sized_payload(buf, 1, max) {
            PayloadView::Short => DecodeOutcomeView::Incomplete,
            PayloadView::TooLarge(n) => DecodeOutcomeView::Invalid(
                InvalidReason::PayloadTooLarge(n),
            ),
            PayloadView::Present(username) => DecodeOutcomeView::Complete(
                MessageView::Join { username },
                3 + username.len(),
            ),
        }
    } else if buf[0] == 2 {
        DecodeOutcomeView::Complete(MessageView::Leave, 1)
    } else if buf[0] == 3 {
        if buf.len() < 7 {
            DecodeOutcomeView::Incomplete
        } else {
            DecodeOutcomeView::Complete(
                MessageView::Version {
                    major: le_value(buf.subrange(1, 3)) as u16,
                    minor: le_value(buf.subrange(3, 5)) as u16,
                    patch: le_value(buf.subrange(5, 7)) as u16,
                },
                7,
            )
        }
    } else if buf[0] == 4 {
        match sized_payload(buf, 1, max) {
            PayloadView::Short => DecodeOutcomeView::Incomplete,
            PayloadView::TooLarge(n) => DecodeOutcomeView::Invalid(
                InvalidReason::PayloadTooLarge(n),
            ),
            PayloadView::Present(text) => DecodeOutcomeView::Complete(
                MessageView::Welcome { text },
                3 + text.len(),
            ),
        }
    } else if buf[0] == 5 {
        match sized_payload(buf, 9, max) {
            PayloadView::Short => DecodeOutcomeView::Incomplete,
            PayloadView::TooLarge(n) => DecodeOutcomeView::Invalid(
                InvalidReason::PayloadTooLarge(n),
            ),
            PayloadView::Present(content) => DecodeOutcomeView::Complete(
                MessageView::Extended {
                    extended_type: le_value(buf.subrange(1, 9)) as u64,
                    content,
                },
                11 + content.len(),
            ),
        }
    } else if buf[0] == 6 {
        match sized_payload(buf, 17, max) {
            PayloadView::Short => DecodeOutcomeView::Incomplete,
            PayloadView::TooLarge(n) => DecodeOutcomeView::Invalid(
                InvalidReason::PayloadTooLarge(n),
            ),
            PayloadView::Present(username) => DecodeOutcomeView::Complete(
                MessageView::UserJoined {
                    user_id: le_value(buf.subrange(1, 17)) as u128,
                    username,
                },
                19 + username.len(),
            ),
        }
    } else if buf[0] == 7 {
        if buf.len() < 17 {
            DecodeOutcomeView::Incomplete
        } else {
            DecodeOutcomeView::Complete(
                MessageView::UserLeft { user_id: le_value(buf.subrange(1, 17)) as u128 },
                17,
            )
        }
    } else {
        DecodeOutcomeView::Invalid(InvalidReason::UnknownTag(buf[0]))
    }
}

/// A length-prefixed byte string as read from a buffer.
enum Payload {
    Short,
    TooLarge(u16),
    Present(Vec<u8>),
}

impl Payload {
    spec fn seen(self) -> PayloadView {
        match self {
            Payload::Short => PayloadView::Short,
            Payload::TooLarge(n) => PayloadView::TooLarge(n),
            Payload::Present(p) => PayloadView::Present(p@),
        }
    }
}

/// The codec, with the longest byte string it lets a frame carry.
#[derive(Clone, Copy, Debug, PartialEq, Eq, Structural)]
pub struct Codec {
    pub max_payload: u16,
}

impl Codec {
    /// The longest byte string that a length prefix can count.
    pub const LARGEST_PAYLOAD: u16 = 65535;

    /// A codec that admits byte strings of up to `max_payload` bytes.
    pub fn new(max_payload: u16) -> (codec: Codec)
        ensures
            codec.max_payload == max_payload,
    {
        Codec { max_payload }
    }

    /// Whether the codec admits the message: its byte string is no longer
    /// than the maximum.
    pub open spec fn admits(&self, m: MessageView) -> bool {
        m.payload().len() <= self.max_payload
    }

    /// Whether the codec admits the message.
    pub fn fits(&self, m: &Message) -> (ok: bool)
        ensures
            ok == self.admits(m@),
    {
        m.payload_len() <= self.max_payload as usize
    }

    /// The frame of `m`.
    pub fn encode(&self, m: &Message) -> (out: Vec<u8>)
        requires
            self.admits(m@),
        ensures
            out@ == encoding(m@),
    {
        let mut out: Vec<u8> = Vec::new();
        out.push(m.tag());
        match m {
            Message::ChatMsg { sender_id, text } => {
                put_le(&mut out, *sender_id, 16);
                put_le(&mut out, text.len() as u128, 2);
                append(&mut out, text.as_slice());
            },
            Message::Join { username } => {
                put_le(&mut out, username.len() as u128, 2);
                append(&mut out, username.as_slice());
            },
            Message::Leave => {},
            Message::Version { major, minor, patch } => {
                put_le(&mut out, *major as u128, 2);
                put_le(&mut out, *minor as u128, 2);
                put_le(&mut out, *patch as u128, 2);
            },
            Message::Welcome { text } => {
                put_le(&mut out, text.len() as u128, 2);
                append(&mut out, text.as_slice());
            },
            Message::Extended { extended_type, content } => {
                put_le(&mut out, *extended_type as u128, 8);
                put_le(&mut out, content.len() as u128, 2);
                append(&mut out, content.as_slice());
            },
            Message::UserJoined { user_id, username } => {
                put_le(&mut out, *user_id, 16);
                put_le(&mut out, username.len() as u128, 2);
                append(&mut out, username.as_slice());
            },
            Message::UserLeft { user_id } => {
                put_le(&mut out, *user_id, 16);
            },
        }
        assert(out@ =~= encoding(m@));
        out
    }

    /// The frame of `m`, or `None` where the codec does not admit it.
    pub fn try_encode(&self, m: &Message) -> (out: Option<Vec<u8>>)
        ensures
            match out {
                Some(bytes) => self.admits(m@) && bytes@ == encoding(m@),
                None => !self.admits(m@),
            },
    {
        if self.fits(m) {
            Some(self.encode(m))
        } else {
            None
        }
    }

    /// Reads the byte string whose length prefix stands at `at`.
    fn read_payload(&self, buf: &[u8], at: usize) -> (p: Payload)
        requires
            at <= 32,
        ensures
            p.seen() == sized_payload(buf@, at as int, self.max_payload),
    {
        let total: usize = buf.len();
        if total < at + 2 {
            return Payload::Short;
        }
        let n: u128 = read_le(buf, at, 2);
        proof {
            lemma_radix_pow_values();
        }
        if n > self.max_payload as u128 {
            return Payload::TooLarge(n as u16);
        }
        let n: usize = n as usize;
        if total - (at + 2) < n {
            return Payload::Short;
        }
        Payload::Present(copy_range(buf, at + 2, at + 2 + n))
    }

    /// Decodes the frame at the head of `buf`. Reads nothing beyond `buf`
    /// and changes nothing: the same buffer gives the same outcome.
    pub fn decode(&self, buf: &[u8]) -> (out: DecodeOutcome)
        ensures
            out@ == decoding(buf@, self.max_payload),
    {
        if buf.len() == 0 {
            return DecodeOutcome::Incomplete;
        }
        let tag: u8 = buf[0];
        proof {
            lemma_radix_pow_values();
        }
        if tag == MessageType::CHATMSG {
            match self.read_payload(buf, 17) {
                Payload::Short => DecodeOutcome::Incomplete,
                Payload::TooLarge(n) => DecodeOutcome::Invalid(InvalidReason::PayloadTooLarge(n)),
                Payload::Present(text) => {
                    let sender_id: u128 = read_le(buf, 1, 16);
                    let used: usize = 19 + text.len();
                    DecodeOutcome::Complete(Message::ChatMsg { sender_id, text }, used)
                },
            }
        } else if tag == MessageType::JOIN {
            match self.read_payload(buf, 1) {
                Payload::Short => DecodeOutcome::Incomplete,
                Payload::TooLarge(n) => DecodeOutcome::Invalid(InvalidReason::PayloadTooLarge(n)),
                Payload::Present(username) => {
                    let used: usize = 3 + username.len();
                    DecodeOutcome::Complete(Message::Join { username }, used)
                },
            }
        } else if tag == MessageType::LEAVE {
            DecodeOutcome::Complete(Message::Leave, 1)
        } else if tag == MessageType::VERSION {
            if buf.len() < 7 {
                DecodeOutcome::Incomplete
            } else {
                let major: u16 = read_le(buf, 1, 2) as u16;
                let minor: u16 = read_le(buf, 3, 2) as u16;
                let patch: u16 = read_le(buf, 5, 2) as u16;
                DecodeOutcome::Complete(Message::Version { major, minor, patch }, 7)
            }
        } else if tag == MessageType::WELCOME {
            match self.read_payload(buf, 1) {
                Payload::Short => DecodeOutcome::Incomplete,
                Payload::TooLarge(n) => DecodeOutcome::Invalid(InvalidReason::PayloadTooLarge(n)),
                Payload::Present(text) => {
                    let used: usize = 3 + text.len();
                    DecodeOutcome::Complete(Message::Welcome { text }, used)
                },
            }
        } else if tag == MessageType::EXTENDED {
            match self.read_payload(buf, 9) {
                Payload::Short => DecodeOutcome::Incomplete,
                Payload::TooLarge(n) => DecodeOutcome::Invalid(InvalidReason::PayloadTooLarge(n)),
                Payload::Present(content) => {
                    let extended_type: u64 = read_le(buf, 1, 8) as u64;
                    let used: usize = 11 + content.len();
                    DecodeOutcome::Complete(Message::Extended { extended_type, content }, used)
                },
            }
        } else if tag == MessageType::USERJOINED {
            match self.read_payload(buf, 17) {
                Payload::Short => DecodeOutcome::Incomplete,
                Payload::TooLarge(n) => DecodeOutcome::Invalid(InvalidReason::PayloadTooLarge(n)),
                Payload::Present(username) => {
                    let user_id: u128 = read_le(buf, 1, 16);
                    let used: usize = 19 + username.len();
                    DecodeOutcome::Complete(Message::UserJoined { user_id, username }, used)
                },
            }
        } else if tag == MessageType::USERLEFT {
            if buf.len() < 17 {
                DecodeOutcome::Incomplete
            } else {
                let user_id: u128 = read_le(buf, 1, 16);
                DecodeOutcome::Complete(Message::UserLeft { user_id }, 17)
            }
        } else {
            DecodeOutcome::Invalid(InvalidReason::UnknownTag(tag))
        }
    }
}

} // verus!
