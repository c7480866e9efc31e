//! What holds of the two incremental decoders, the client's session and the
//! server's connection, however the stream is cut into reads: they end in
//! the same state, having said the same, whether bytes arrive at once or in
//! parts.

use vstd::prelude::*;
use crate::codec::{decoding, encoding, DecodeOutcomeView};
use crate::connection::{closing, received, run, step, ConnectionView};
use crate::dispatch::OutboundView;
use crate::registry::UserView;
use crate::framing::{
    lemma_complete_within, lemma_outcome_stable, lemma_prefix_incomplete, lemma_round_trip,
};
use crate::message::MessageView;
use crate::session::{apply, dropped, fed, settle, SessionView};

verus! {

/// Applying a message neither reads nor changes the buffer, the connection
/// or the codec's limit.
pub proof fn lemma_apply_keeps_buffer(s: SessionView, m: MessageView, buffer: Seq<u8>)
    ensures
        apply(SessionView { buffer, ..s }, m) == (SessionView { buffer, ..apply(s, m) }),
        apply(s, m).buffer == s.buffer,
        apply(s, m).connected == s.connected,
        apply(s, m).max_payload == s.max_payload,
{
}

/// Bytes that arrive after the buffer was settled lead to the same state
/// as if they had been in the buffer from the start.
pub proof fn lemma_settle_then_feed(s: SessionView, more: Seq<u8>)
    requires
        s.connected,
    ensures
        fed(settle(s), more) == settle(SessionView { buffer: s.buffer + more, ..s }),
    decreases s.buffer.len(),
{
    let t = SessionView { buffer: s.buffer + more, ..s };
    match decoding(s.buffer, s.max_payload) {
        DecodeOutcomeView::Incomplete => {},
        DecodeOutcomeView::Invalid(_) => {
            lemma_outcome_stable(s.buffer, more, s.max_payload);
            assert(dropped(t) == dropped(s));
        },
        DecodeOutcomeView::Complete(m, n) => {
            lemma_outcome_stable(s.buffer, more, s.max_payload);
            lemma_complete_within(s.buffer, s.max_payload);
            let rest = s.buffer.skip(n as int);
            assert(t.buffer.skip(n as int) =~= rest + more);
            let cut = SessionView { buffer: rest, ..s };
            let next = apply(cut, m);
            lemma_apply_keeps_buffer(cut, m, rest + more);
            lemma_apply_keeps_buffer(cut, m, rest);
            assert(next.buffer == rest);
            assert(apply(SessionView { buffer: rest + more, ..s }, m) == (SessionView {
                buffer: next.buffer + more,
                ..next
            }));
            lemma_settle_then_feed(next, more);
        },
    }
}

/// Fragmentation changes nothing: taking in `a` and then `b` leaves the
/// session as taking in `a + b` at once does, wherever the stream is cut.
pub proof fn lemma_fed_in_parts(s: SessionView, a: Seq<u8>, b: Seq<u8>)
    ensures
        fed(fed(s, a), b) == fed(s, a + b),
{
    if s.connected {
        let t = SessionView { buffer: s.buffer + a, ..s };
        lemma_settle_then_feed(t, b);
        assert(t.buffer + b =~= s.buffer + (a + b));
    }
}

/// A frame that arrives whole on an empty buffer is applied, and the buffer
/// is empty again.
pub proof fn lemma_frame_fed(s: SessionView, m: MessageView)
    requires
        s.connected,
        s.buffer.len() == 0,
        m.payload().len() <= s.max_payload,
    ensures
        fed(s, encoding(m)) == apply(s, m),
{
    let frame = encoding(m);
    lemma_round_trip(m, s.max_payload);
    let t = SessionView { buffer: s.buffer + frame, ..s };
    assert(t.buffer =~= frame);
    assert(frame.skip(frame.len() as int) =~= Seq::<u8>::empty());
    assert(s.buffer =~= Seq::<u8>::empty());
    let cut = SessionView { buffer: Seq::<u8>::empty(), ..s };
    assert(cut == s);
    lemma_apply_keeps_buffer(s, m, s.buffer);
    assert(settle(apply(s, m)) == apply(s, m));
}

/// A frame cut in two anywhere: after the first part nothing is applied and
/// the part waits in the buffer; after the second the message is applied,
/// exactly as if the frame had arrived whole.
pub proof fn lemma_frame_fed_in_two_parts(s: SessionView, m: MessageView, k: int)
    requires
        s.connected,
        s.buffer.len() == 0,
        m.payload().len() <= s.max_payload,
        0 <= k < encoding(m).len(),
    ensures
        fed(s, encoding(m).take(k)) == (SessionView { buffer: encoding(m).take(k), ..s }),
        fed(fed(s, encoding(m).take(k)), encoding(m).skip(k)) == apply(s, m),
{
    let frame = encoding(m);
    lemma_prefix_incomplete(m, k, s.max_payload);
    assert(s.buffer + frame.take(k) =~= frame.take(k));
    lemma_fed_in_parts(s, frame.take(k), frame.skip(k));
    assert(frame.take(k) + frame.skip(k) =~= frame);
    lemma_frame_fed(s, m);
}

/// Two frames that arrive in one read are applied one after the other, and
/// the buffer is empty again.
pub proof fn lemma_two_frames_fed(s: SessionView, m1: MessageView, m2: MessageView)
    requires
        s.connected,
        s.buffer.len() == 0,
        m1.payload().len() <= s.max_payload,
        m2.payload().len() <= s.max_payload,
    ensures
        fed(s, encoding(m1) + encoding(m2)) == apply(apply(s, m1), m2),
{
    lemma_fed_in_parts(s, encoding(m1), encoding(m2));
    lemma_frame_fed(s, m1);
    lemma_apply_keeps_buffer(s, m1, s.buffer);
    lemma_frame_fed(apply(s, m1), m2);
}

/// What a message does to a connection does not depend on the bytes that
/// wait behind it: they stay as they are, unless the connection closes and
/// drops them.
pub proof fn lemma_step_keeps_inbound(
    conn: ConnectionView,
    m: MessageView,
    users: Seq<UserView>,
    inbound: Seq<u8>,
)
    ensures
        step(ConnectionView { inbound, ..conn }, m, users).users == step(conn, m, users).users,
        step(ConnectionView { inbound, ..conn }, m, users).out == step(conn, m, users).out,
        step(conn, m, users).conn.state is Closed && !(conn.state is Closed) ==> step(
            ConnectionView { inbound, ..conn },
            m,
            users,
        ).conn == step(conn, m, users).conn,
        !(step(conn, m, users).conn.state is Closed) ==> step(
            ConnectionView { inbound, ..conn },
            m,
            users,
        ).conn == (ConnectionView { inbound, ..step(conn, m, users).conn }),
        !(step(conn, m, users).conn.state is Closed) ==> step(conn, m, users).conn.inbound
            == conn.inbound,
{
}

/// Bytes that arrive after a connection's buffer was run lead to the same
/// connection and registry as if they had been in the buffer from the
/// start, and the same messages are sent in the same order.
pub proof fn lemma_run_then_receive(
    conn: ConnectionView,
    users: Seq<UserView>,
    more: Seq<u8>,
    max: u16,
)
    requires
        !(conn.state is Closed),
    ensures
        ({
            let first = run(conn, users, max);
            let second = received(first.conn, more, first.users, max);
            let whole = run(ConnectionView { inbound: conn.inbound + more, ..conn }, users, max);
            &&& whole.conn == second.conn
            &&& whole.users == second.users
            &&& whole.out == first.out + second.out
        }),
    decreases conn.inbound.len(),
{
    let first = run(conn, users, max);
    let second = received(first.conn, more, first.users, max);
    let longer = ConnectionView { inbound: conn.inbound + more, ..conn };
    let whole = run(longer, users, max);
    let none = Seq::<OutboundView>::empty();
    match decoding(conn.inbound, max) {
        DecodeOutcomeView::Incomplete => {
            assert(none + second.out =~= second.out);
        },
        DecodeOutcomeView::Invalid(_) => {
            lemma_outcome_stable(conn.inbound, more, max);
            assert(closing(longer, users) == closing(conn, users));
            assert(first.out + none =~= first.out);
        },
        DecodeOutcomeView::Complete(m, n) => {
            lemma_outcome_stable(conn.inbound, more, max);
            lemma_complete_within(conn.inbound, max);
            let rest = conn.inbound.skip(n as int);
            assert(longer.inbound.skip(n as int) =~= rest + more);
            let cut = ConnectionView { inbound: rest, ..conn };
            let head = step(cut, m, users);
            let head_longer = step(ConnectionView { inbound: rest + more, ..conn }, m, users);
            lemma_step_keeps_inbound(cut, m, users, rest + more);
            let tail = run(head.conn, head.users, max);
            if head.conn.state is Closed {
                assert(head_longer.conn == head.conn);
                assert(tail.out == none);
                assert(second.out == none);
                assert(first.out + none =~= first.out);
            } else {
                assert(head.conn.inbound == rest);
                assert(head_longer.conn == ConnectionView {
                    inbound: head.conn.inbound + more,
                    ..head.conn
                });
                lemma_run_then_receive(head.conn, head.users, more, max);
                assert(head.out + (tail.out + second.out) =~= (head.out + tail.out) + second.out);
            }
        },
    }
}

/// Fragmentation changes nothing on the server either: taking in `a` and
/// then `b` leaves the connection and the registry as taking in `a + b` at
/// once does, and the messages sent are the same, in the same order.
pub proof fn lemma_received_in_parts(
    conn: ConnectionView,
    users: Seq<UserView>,
    a: Seq<u8>,
    b: Seq<u8>,
    max: u16,
)
    ensures
        ({
            let first = received(conn, a, users, max);
            let second = received(first.conn, b, first.users, max);
            let whole = received(conn, a + b, users, max);
            &&& whole.conn == second.conn
            &&& whole.users == second.users
            &&& whole.out == first.out + second.out
        }),
{
    let none = Seq::<OutboundView>::empty();
    if conn.state is Closed {
        assert(none + none =~= none);
    } else {
        let longer = ConnectionView { inbound: conn.inbound + a, ..conn };
        lemma_run_then_receive(longer, users, b, max);
        assert(longer.inbound + b =~= conn.inbound + (a + b));
    }
}

} // verus!
