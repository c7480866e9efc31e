//! What holds of the codec on every message and every buffer: frames decode
//! to what was encoded, their proper prefixes are incomplete, and an outcome
//! once reached is not changed by bytes that arrive later.

use vstd::prelude::*;
use crate::codec::{decoding, encoding, sized_payload, DecodeOutcomeView, PayloadView};
use crate::message::MessageView;
use crate::wire::{le_bytes, le_value, lemma_le_bytes_len, lemma_le_round_trip, lemma_radix_pow_values};

verus! {

/// A byte string written behind its length prefix is found again, whatever
/// follows it.
proof fn lemma_payload_found(head: Seq<u8>, p: Seq<u8>, rest: Seq<u8>, max: u16)
    requires
        p.len() <= max,
    ensures
        sized_payload(head + le_bytes(p.len(), 2) + p + rest, head.len() as int, max)
            == PayloadView::Present(p),
{
    let buf = head + le_bytes(p.len(), 2) + p + rest;
    let at = head.len() as int;
    lemma_le_bytes_len(p.len(), 2);
    lemma_radix_pow_values();
    lemma_le_round_trip(p.len(), 2);
    assert(buf.subrange(at, at + 2) =~= le_bytes(p.len(), 2));
    assert(buf.subrange(at + 2, at + 2 + p.len()) =~= p);
}

/// Cut short, a length-prefixed byte string is not there yet.
proof fn lemma_payload_short(head: Seq<u8>, p: Seq<u8>, k: int, max: u16)
    requires
        p.len() <= max,
        0 <= k < head.len() + 2 + p.len(),
    ensures
        sized_payload((head + le_bytes(p.len(), 2) + p).take(k), head.len() as int, max)
            == PayloadView::Short,
{
    let whole = head + le_bytes(p.len(), 2) + p;
    let at = head.len() as int;
    lemma_le_bytes_len(p.len(), 2);
    lemma_radix_pow_values();
    lemma_le_round_trip(p.len(), 2);
    if k >= at + 2 {
        assert(whole.take(k).subrange(at, at + 2) =~= le_bytes(p.len(), 2));
    }
}

/// A fixed-width field is read back as it was written.
proof fn lemma_field_found(buf: Seq<u8>, at: int, x: nat, width: nat)
    requires
        0 <= at,
        at + width <= buf.len(),
        width == 2 || width == 8 || width == 16,
        width == 2 ==> x < 0x1_0000,
        width == 8 ==> x < 0x1_0000_0000_0000_0000,
        width == 16 ==> x < 0x1_0000_0000_0000_0000_0000_0000_0000_0000,
        buf.subrange(at, at + width) == le_bytes(x, width),
    ensures
        le_value(buf.subrange(at, at + width)) == x,
{
    lemma_radix_pow_values();
    lemma_le_round_trip(x, width);
}

/// The length of a frame: the tag, the fixed fields, and for a byte string
/// its prefix and its bytes.
pub open spec fn frame_len(m: MessageView) -> nat {
    match m {
        MessageView::ChatMsg { text, .. } => 19 + text.len(),
        MessageView::Join { username } => 3 + username.len(),
        MessageView::Leave => 1,
        MessageView::Version { .. } => 7,
        MessageView::Welcome { text } => 3 + text.len(),
        MessageView::Extended { content, .. } => 11 + content.len(),
        MessageView::UserJoined { username, .. } => 19 + username.len(),
        MessageView::UserLeft { .. } => 17,
    }
}

/// A frame is as long as `frame_len` says and opens with the message's tag.
pub proof fn lemma_encoding_shape(m: MessageView)
    ensures
        encoding(m).len() == frame_len(m),
        encoding(m)[0] == m.tag(),
{
    lemma_le_bytes_len(m.payload().len(), 2);
    match m {
        MessageView::ChatMsg { sender_id, text } => {
            lemma_le_bytes_len(sender_id as nat, 16);
        },
        MessageView::Version { major, minor, patch } => {
            lemma_le_bytes_len(major as nat, 2);
            lemma_le_bytes_len(minor as nat, 2);
            lemma_le_bytes_len(patch as nat, 2);
        },
        MessageView::Extended { extended_type, content } => {
            lemma_le_bytes_len(extended_type as nat, 8);
        },
        MessageView::UserJoined { user_id, username } => {
            lemma_le_bytes_len(user_id as nat, 16);
        },
        MessageView::UserLeft { user_id } => {
            lemma_le_bytes_len(user_id as nat, 16);
        },
        _ => {},
    }
}

/// A buffer that starts with the frame of `m` decodes to `m` and the
/// frame's length, whatever follows the frame.
pub proof fn lemma_decode_leading_frame(m: MessageView, rest: Seq<u8>, max: u16)
    requires
        m.payload().len() <= max,
    ensures
        decoding(encoding(m) + rest, max) == DecodeOutcomeView::Complete(m, encoding(m).len()),
{
    let buf = encoding(m) + rest;
    lemma_encoding_shape(m);
    assert(buf[0] == m.tag());
    match m {
        MessageView::ChatMsg { sender_id, text } => {
            let head = seq![0u8] + le_bytes(sender_id as nat, 16);
            lemma_le_bytes_len(sender_id as nat, 16);
            lemma_payload_found(head, text, rest, max);
            assert(buf.subrange(1, 17) =~= le_bytes(sender_id as nat, 16));
            lemma_field_found(buf, 1, sender_id as nat, 16);
        },
        MessageView::Join { username } => {
            lemma_payload_found(seq![1u8], username, rest, max);
        },
        MessageView::Leave => {},
        MessageView::Version { major, minor, patch } => {
            lemma_le_bytes_len(major as nat, 2);
            lemma_le_bytes_len(minor as nat, 2);
            lemma_le_bytes_len(patch as nat, 2);
            assert(buf.subrange(1, 3) =~= le_bytes(major as nat, 2));
            assert(buf.subrange(3, 5) =~= le_bytes(minor as nat, 2));
            assert(buf.subrange(5, 7) =~= le_bytes(patch as nat, 2));
            lemma_field_found(buf, 1, major as nat, 2);
            lemma_field_found(buf, 3, minor as nat, 2);
            lemma_field_found(buf, 5, patch as nat, 2);
        },
        MessageView::Welcome { text } => {
            lemma_payload_found(seq![4u8], text, rest, max);
        },
        MessageView::Extended { extended_type, content } => {
            let head = seq![5u8] + le_bytes(extended_type as nat, 8);
            lemma_le_bytes_len(extended_type as nat, 8);
            lemma_payload_found(head, content, rest, max);
            assert(buf.subrange(1, 9) =~= le_bytes(extended_type as nat, 8));
            lemma_field_found(buf, 1, extended_type as nat, 8);
        },
        MessageView::UserJoined { user_id, username } => {
            let head = seq![6u8] + le_bytes(user_id as nat, 16);
            lemma_le_bytes_len(user_id as nat, 16);
            lemma_payload_found(head, username, rest, max);
            assert(buf.subrange(1, 17) =~= le_bytes(user_id as nat, 16));
            lemma_field_found(buf, 1, user_id as nat, 16);
        },
        MessageView::UserLeft { user_id } => {
            lemma_le_bytes_len(user_id as nat, 16);
            assert(buf.subrange(1, 17) =~= le_bytes(user_id as nat, 16));
            lemma_field_found(buf, 1, user_id as nat, 16);
        },
    }
}

/// Decoding the frame of a message gives the message back, and consumes
/// the whole frame.
pub proof fn lemma_round_trip(m: MessageView, max: u16)
    requires
        m.payload().len() <= max,
    ensures
        decoding(encoding(m), max) == DecodeOutcomeView::Complete(m, encoding(m).len()),
{
    lemma_decode_leading_frame(m, Seq::empty(), max);
    assert(encoding(m) + Seq::<u8>::empty() =~= encoding(m));
}

/// Every proper prefix of a frame is incomplete.
pub proof fn lemma_prefix_incomplete(m: MessageView, k: int, max: u16)
    requires
        m.payload().len() <= max,
        0 <= k < encoding(m).len(),
    ensures
        decoding(encoding(m).take(k), max) == DecodeOutcomeView::Incomplete,
{
    let pre = encoding(m).take(k);
    lemma_encoding_shape(m);
    if k > 0 {
        assert(pre[0] == m.tag());
        match m {
            MessageView::ChatMsg { sender_id, text } => {
                lemma_le_bytes_len(sender_id as nat, 16);
                lemma_payload_short(seq![0u8] + le_bytes(sender_id as nat, 16), text, k, max);
            },
            MessageView::Join { username } => {
                lemma_payload_short(seq![1u8], username, k, max);
            },
            MessageView::Welcome { text } => {
                lemma_payload_short(seq![4u8], text, k, max);
            },
            MessageView::Extended { extended_type, content } => {
                lemma_le_bytes_len(extended_type as nat, 8);
                lemma_payload_short(seq![5u8] + le_bytes(extended_type as nat, 8), content, k, max);
            },
            MessageView::UserJoined { user_id, username } => {
                lemma_le_bytes_len(user_id as nat, 16);
                lemma_payload_short(seq![6u8] + le_bytes(user_id as nat, 16), username, k, max);
            },
            _ => {},
        }
    }
}

/// Fed in two parts cut anywhere, a frame is incomplete after the first
/// part and decodes to its message once the second part has joined it.
pub proof fn lemma_split_anywhere(m: MessageView, k: int, max: u16)
    requires
        m.payload().len() <= max,
        0 <= k < encoding(m).len(),
    ensures
        decoding(encoding(m).take(k), max) == DecodeOutcomeView::Incomplete,
        decoding(encoding(m).take(k) + encoding(m).skip(k), max) == DecodeOutcomeView::Complete(
            m,
            encoding(m).len(),
        ),
{
    lemma_prefix_incomplete(m, k, max);
    lemma_round_trip(m, max);
    assert(encoding(m).take(k) + encoding(m).skip(k) =~= encoding(m));
}

/// Two frames in one buffer decode to the first message, then, from where
/// the first frame ended, to the second, and nothing is left over.
pub proof fn lemma_two_frames(m1: MessageView, m2: MessageView, max: u16)
    requires
        m1.payload().len() <= max,
        m2.payload().len() <= max,
    ensures
        decoding(encoding(m1) + encoding(m2), max) == DecodeOutcomeView::Complete(
            m1,
            encoding(m1).len(),
        ),
        decoding((encoding(m1) + encoding(m2)).skip(encoding(m1).len() as int), max)
            == DecodeOutcomeView::Complete(m2, encoding(m2).len()),
        (encoding(m1) + encoding(m2)).skip((encoding(m1).len() + encoding(m2).len()) as int)
            == Seq::<u8>::empty(),
{
    lemma_decode_leading_frame(m1, encoding(m2), max);
    lemma_round_trip(m2, max);
    assert((encoding(m1) + encoding(m2)).skip(encoding(m1).len() as int) =~= encoding(m2));
    assert((encoding(m1) + encoding(m2)).skip((encoding(m1).len() + encoding(m2).len()) as int)
        =~= Seq::<u8>::empty());
}

/// A whole frame lies within the buffer it was decoded from and is not
/// empty, and the message found fits the codec.
pub proof fn lemma_complete_within(buf: Seq<u8>, max: u16)
    ensures
        match decoding(buf, max) {
            DecodeOutcomeView::Complete(m, n) => 1 <= n <= buf.len() && m.payload().len() <= max,
            _ => true,
        },
{
}

/// A byte string found, or found too long, stays so when bytes are added.
proof fn lemma_payload_stable(buf: Seq<u8>, more: Seq<u8>, at: int, max: u16)
    requires
        0 <= at,
        sized_payload(buf, at, max) != PayloadView::Short,
    ensures
        sized_payload(buf + more, at, max) == sized_payload(buf, at, max),
{
    let ext = buf + more;
    assert(ext.subrange(at, at + 2) =~= buf.subrange(at, at + 2));
    let n = le_value(buf.subrange(at, at + 2));
    if n <= max {
        assert(ext.subrange(at + 2, at + 2 + n) =~= buf.subrange(at + 2, at + 2 + n));
    }
}

/// Once a buffer decodes to a frame or is found invalid, bytes appended to
/// it do not change the outcome.
pub proof fn lemma_outcome_stable(buf: Seq<u8>, more: Seq<u8>, max: u16)
    requires
        decoding(buf, max) != DecodeOutcomeView::Incomplete,
    ensures
        decoding(buf + more, max) == decoding(buf, max),
{
    let ext = buf + more;
    assert(buf.len() > 0);
    assert(ext[0] == buf[0]);
    let tag = buf[0];
    if tag == 0 || tag == 6 {
        lemma_payload_stable(buf, more, 17, max);
        assert(ext.subrange(1, 17) =~= buf.subrange(1, 17));
    } else if tag == 1 || tag == 4 {
        lemma_payload_stable(buf, more, 1, max);
    } else if tag == 5 {
        lemma_payload_stable(buf, more, 9, max);
        assert(ext.subrange(1, 9) =~= buf.subrange(1, 9));
    } else if tag == 3 {
        assert(ext.subrange(1, 3) =~= buf.subrange(1, 3));
        assert(ext.subrange(3, 5) =~= buf.subrange(3, 5));
        assert(ext.subrange(5, 7) =~= buf.subrange(5, 7));
    } else if tag == 7 {
        assert(ext.subrange(1, 17) =~= buf.subrange(1, 17));
    }
}

} // verus!
