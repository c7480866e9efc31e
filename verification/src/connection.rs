//! The server's side of one connection: what it answers to each frame, and
//! what it leaves behind when it closes.
//!
//! A connection starts unauthenticated, is bound to a user by an accepted
//! `Join`, and is closed by a `Leave`, by a frame that cannot be decoded, or
//! by the loss of its socket. It writes to no socket: what it has to say it
//! hands out as [`Outbound`] messages.

use vstd::prelude::*;
use crate::codec::{decoding, Codec, DecodeOutcome, DecodeOutcomeView};
use crate::dispatch::{outbound_views, Outbound, OutboundView, Target};
use crate::message::{copy_bytes, ExtendedMessageType, Message, MessageView};
use crate::registry::{
    after_register, fresh_id, is_random_uuid, register_answer, without_id, Registry, User,
    UserView,
};
use crate::wire::{append, copy_range};

verus! {

/// The port the server listens on.
pub const SERVER_PORT: u16 = 6556;

/// The address the server binds to.
pub const SERVER_ADDRESS: &'static str = "0.0.0.0";

/// The version the server announces.
pub const VERSION_MAJOR: u16 = 0;

pub const VERSION_MINOR: u16 = 2;

pub const VERSION_PATCH: u16 = 0;

/// The text the server welcomes a new connection with.
pub const WELCOME: &'static str = "
        __
     __/o \\_
     \\____  \\
         /   \\
   __   //\\   \\
__/o \\-//--\\   \\_/
\\____  ___  \\  |
     ||   \\ |\\ |
    _||   _||_||

WELCOME TO BORK BORK, A PLACE
    FOR LAKEDOGS TO BORK ABOUT
";

/// Where a connection stands.
#[derive(Clone, Debug, PartialEq, Eq)]
pub enum ConnState {
    /// Open, not yet bound to a user.
    Connected,
    /// Bound to the user that its `Join` registered.
    Authenticated(User),
    /// Done: nothing is read from it any more.
    Closed,
}

pub enum ConnStateView {
    Connected,
    Authenticated(UserView),
    Closed,
}

impl View for ConnState {
    type V = ConnStateView;

    open spec fn view(&self) -> ConnStateView {
        match *self {
            ConnState::Connected => ConnStateView::Connected,
            ConnState::Authenticated(u) => ConnStateView::Authenticated(u@),
            ConnState::Closed => ConnStateView::Closed,
        }
    }
}

/// One accepted connection.
pub struct Connection {
    id: u64,
    candidate_id: u128,
    state: ConnState,
    inbound: Vec<u8>,
}

pub struct ConnectionView {
    /// The number by which the dispatcher knows the connection.
    pub id: u64,
    /// The identifier its user will get when it joins.
    pub candidate_id: u128,
    pub state: ConnStateView,
    /// The bytes received and not yet decoded.
    pub inbound: Seq<u8>,
}

impl View for Connection {
    type V = ConnectionView;

    closed spec fn view(&self) -> ConnectionView {
        ConnectionView {
            id: self.id,
            candidate_id: self.candidate_id,
            state: self.state@,
            inbound: self.inbound@,
        }
    }
}

/// A connection, the registry and the messages sent, after something
/// happened on the connection.
pub struct Step {
    pub conn: ConnectionView,
    pub users: Seq<UserView>,
    pub out: Seq<OutboundView>,
}

/// What the server says first on a new connection: its version, then its
/// welcome, both to that connection alone.
pub open spec fn greeting(id: u64, welcome: Seq<u8>) -> Seq<OutboundView> {
    seq![
        OutboundView {
            message: MessageView::Version {
                major: VERSION_MAJOR,
                minor: VERSION_MINOR,
                patch: VERSION_PATCH,
            },
            target: Target::One(id),
        },
        OutboundView { message: MessageView::Welcome { text: welcome }, target: Target::One(id) },
    ]
}

/// The end of a connection. Its unread bytes are dropped. If it was bound to
/// a user, the user leaves the registry and every other connection is told
/// so.
pub open spec fn closing(conn: ConnectionView, users: Seq<UserView>) -> Step {
    let closed = ConnectionView { state: ConnStateView::Closed, inbound: Seq::empty(), ..conn };
    match conn.state {
        ConnStateView::Authenticated(user) => Step {
            conn: closed,
            users: without_id(users, user.id),
            out: seq![
                OutboundView {
                    message: MessageView::UserLeft { user_id: user.id },
                    target: Target::AllExcept(conn.id),
                },
            ],
        },
        _ => Step { conn: closed, users, out: Seq::empty() },
    }
}

/// What one decoded message does.
///
/// A `Join` on an unauthenticated connection registers the name under the
/// connection's candidate id: accepted, it binds the connection and is
/// announced to all; refused, the name is sent back to the connection in an
/// `Extended` message of kind `JOIN_REJECTED`, and the connection stays
/// open. A `ChatMsg` on an authenticated connection goes to all. A `Leave`
/// ends the connection. Everything else is passed over.
pub open spec fn step(conn: ConnectionView, m: MessageView, users: Seq<UserView>) -> Step {
    let ignored = Step { conn, users, out: Seq::empty() };
    match conn.state {
        ConnStateView::Connected => match m {
            MessageView::Join { username } => match register_answer(
                users,
                username,
                conn.candidate_id,
            ) {
                Ok(user) => Step {
                    conn: ConnectionView { state: ConnStateView::Authenticated(user), ..conn },
                    users: after_register(users, username, conn.candidate_id),
                    out: seq![
                        OutboundView {
                            message: MessageView::UserJoined { user_id: user.id, username },
                            target: Target::All,
                        },
                    ],
                },
                Err(_) => Step {
                    conn,
                    users,
                    out: seq![
                        OutboundView {
                            message: MessageView::Extended {
                                extended_type: ExtendedMessageType::JOIN_REJECTED,
                                content: username,
                            },
                            target: Target::One(conn.id),
                        },
                    ],
                },
            },
            MessageView::Leave => closing(conn, users),
            _ => ignored,
        },
        ConnStateView::Authenticated(_) => match m {
            MessageView::ChatMsg { .. } => Step {
                conn,
                users,
                out: seq![OutboundView { message: m, target: Target::All }],
            },
            MessageView::Leave => closing(conn, users),
            _ => ignored,
        },
        ConnStateView::Closed => ignored,
    }
}

/// What the bytes waiting on a connection do: frame after frame is decoded
/// and acted on, until the bytes left are no whole frame or the connection
/// is closed. A frame that cannot be decoded closes the connection.
pub open spec fn run(conn: ConnectionView, users: Seq<UserView>, max: u16) -> Step
    decreases conn.inbound.len(),
{
    if conn.state is Closed {
        Step { conn, users, out: Seq::empty() }
    } else {
        match decoding(conn.inbound, max) {
            DecodeOutcomeView::Incomplete => Step { conn, users, out: Seq::empty() },
            DecodeOutcomeView::Invalid(_) => closing(conn, users),
            DecodeOutcomeView::Complete(m, n) => {
                let first = step(
                    ConnectionView { inbound: conn.inbound.skip(n as int), ..conn },
                    m,
                    users,
                );
                let then = run(first.conn, first.users, max);
                Step { conn: then.conn, users: then.users, out: first.out + then.out }
            },
        }
    }
}

/// What bytes that arrive on a connection do: they join the bytes waiting,
/// and the whole is run. A closed connection takes nothing in.
pub open spec fn received(conn: ConnectionView, data: Seq<u8>, users: Seq<UserView>, max: u16)
    -> Step {
    if conn.state is Closed {
        Step { conn, users, out: Seq::empty() }
    } else {
        run(ConnectionView { inbound: conn.inbound + data, ..conn }, users, max)
    }
}

impl Connection {
    /// Opens connection `id`, with the identifier that its user will get
    /// drawn at random. Returns the connection and the server's greeting.
    pub fn open(id: u64, welcome: &[u8]) -> (opened: (Connection, Vec<Outbound>))
        ensures
            opened.0@.id == id,
            opened.0@.state == ConnStateView::Connected,
            opened.0@.inbound == Seq::<u8>::empty(),
            is_random_uuid(opened.0@.candidate_id),
            outbound_views(opened.1@) == greeting(id, welcome@),
    {
        Connection::with_candidate(id, fresh_id(), welcome)
    }

    /// Opens connection `id`, whose user will get the identifier
    /// `candidate_id`. Returns the connection and the server's greeting.
    pub fn with_candidate(id: u64, candidate_id: u128, welcome: &[u8]) -> (opened: (
        Connection,
        Vec<Outbound>,
    ))
        ensures
            opened.0@ == (ConnectionView {
                id,
                candidate_id,
                state: ConnStateView::Connected,
                inbound: Seq::empty(),
            }),
            outbound_views(opened.1@) == greeting(id, welcome@),
    {
        let conn = Connection { id, candidate_id, state: ConnState::Connected, inbound: Vec::new() };
        let text = copy_range(welcome, 0, welcome.len());
        assert(welcome@.subrange(0, welcome@.len() as int) =~= welcome@);
        let mut out: Vec<Outbound> = Vec::new();
        out.push(
            Outbound {
                message: Message::Version {
                    major: VERSION_MAJOR,
                    minor: VERSION_MINOR,
                    patch: VERSION_PATCH,
                },
                target: Target::One(id),
            },
        );
        out.push(Outbound { message: Message::Welcome { text }, target: Target::One(id) });
        assert(outbound_views(out@) =~= greeting(id, welcome@));
        (conn, out)
    }

    /// The number by which the dispatcher knows the connection.
    pub fn id(&self) -> (id: u64)
        ensures
            id == self@.id,
    {
        self.id
    }

    /// The number of bytes received and not yet decoded.
    pub fn pending_bytes(&self) -> (n: usize)
        ensures
            n == self@.inbound.len(),
    {
        self.inbound.len()
    }

    /// Whether the connection is closed.
    pub fn is_closed(&self) -> (closed: bool)
        ensures
            closed == (self@.state is Closed),
    {
        match self.state {
            ConnState::Closed => true,
            _ => false,
        }
    }

    /// The user the connection is bound to, if any.
    pub fn user(&self) -> (user: Option<User>)
        ensures
            match user {
                Some(u) => self@.state == ConnStateView::Authenticated(u@),
                None => !(self@.state is Authenticated),
            },
    {
        match &self.state {
            ConnState::Authenticated(u) => Some(u.duplicate()),
            _ => None,
        }
    }

    /// Ends the connection: see [`closing`]. To be called when the socket
    /// fails or reaches its end.
    pub fn close(&mut self, registry: &mut Registry) -> (out: Vec<Outbound>)
        requires
            old(registry).wf(),
        ensures
            final(registry).wf(),
            (Step { conn: final(self)@, users: final(registry)@, out: outbound_views(out@) })
                == closing(old(self)@, old(registry)@),
    {
        let mut out: Vec<Outbound> = Vec::new();
        match &self.state {
            ConnState::Authenticated(user) => {
                let user_id = user.id;
                let _ = registry.unregister(user_id);
                out.push(
                    Outbound {
                        message: Message::UserLeft { user_id },
                        target: Target::AllExcept(self.id),
                    },
                );
            },
            _ => {},
        }
        self.state = ConnState::Closed;
        self.inbound = Vec::new();
        assert(outbound_views(out@) =~= closing(old(self)@, old(registry)@).out);
        out
    }

    /// Acts on one decoded message: see [`step`].
    pub fn handle(&mut self, message: &Message, registry: &mut Registry) -> (out: Vec<Outbound>)
        requires
            old(registry).wf(),
        ensures
            final(registry).wf(),
            (Step { conn: final(self)@, users: final(registry)@, out: outbound_views(out@) })
                == step(old(self)@, message@, old(registry)@),
    {
        let mut out: Vec<Outbound> = Vec::new();
        let bound = match &self.state {
            ConnState::Connected => Some(false),
            ConnState::Authenticated(_) => Some(true),
            ConnState::Closed => None,
        };
        match message {
            Message::Join { username } => {
                if bound == Some(false) {
                    match registry.register_with_id(username.as_slice(), self.candidate_id) {
                        Ok(user) => {
                            out.push(
                                Outbound {
                                    message: Message::UserJoined {
                                        user_id: user.id,
                                        username: copy_bytes(username),
                                    },
                                    target: Target::All,
                                },
                            );
                            self.state = ConnState::Authenticated(user);
                        },
                        Err(_) => {
                            out.push(
                                Outbound {
                                    message: Message::Extended {
                                        extended_type: ExtendedMessageType::JOIN_REJECTED,
                                        content: copy_bytes(username),
                                    },
                                    target: Target::One(self.id),
                                },
                            );
                        },
                    }
                }
            },
            Message::ChatMsg { .. } => {
                if bound == Some(true) {
                    out.push(Outbound { message: message.duplicate(), target: Target::All });
                }
            },
            Message::Leave => {
                if bound.is_some() {
                    return self.close(registry);
                }
            },
            _ => {},
        }
        assert(outbound_views(out@) =~= step(old(self)@, message@, old(registry)@).out);
        out
    }

    /// Takes in bytes read from the socket and acts on every whole frame
    /// that is now waiting: see [`received`].
    pub fn receive(&mut self, data: &[u8], registry: &mut Registry, codec: &Codec) -> (out: Vec<
        Outbound,
    >)
        requires
            old(registry).wf(),
        ensures
            final(registry).wf(),
            (Step { conn: final(self)@, users: final(registry)@, out: outbound_views(out@) })
                == received(old(self)@, data@, old(registry)@, codec.max_payload),
    {
        let mut out: Vec<Outbound> = Vec::new();
        if self.is_closed() {
            assert(outbound_views(out@) =~= Seq::<OutboundView>::empty());
            return out;
        }
        append(&mut self.inbound, data);
        let ghost goal = run(self@, registry@, codec.max_payload);
        let mut done = false;
        while !done
            invariant
                registry.wf(),
                goal.conn == run(self@, registry@, codec.max_payload).conn,
                goal.users == run(self@, registry@, codec.max_payload).users,
                goal.out == outbound_views(out@) + run(self@, registry@, codec.max_payload).out,
                done ==> run(self@, registry@, codec.max_payload) == (Step {
                    conn: self@,
                    users: registry@,
                    out: Seq::empty(),
                }),
            decreases self@.inbound.len() + (if done { 0int } else { 1int }),
        {
            if self.is_closed() {
                done = true;
            } else {
                let ghost before = self@;
                let ghost users = registry@;
                let ghost sent = outbound_views(out@);
                match codec.decode(self.inbound.as_slice()) {
                    DecodeOutcome::Incomplete => {
                        done = true;
                    },
                    DecodeOutcome::Invalid(_) => {
                        let mut more = self.close(registry);
                        let ghost last = outbound_views(more@);
                        out.append(&mut more);
                        assert(outbound_views(out@) =~= sent + last);
                        assert(sent + last + Seq::<OutboundView>::empty() =~= sent + last);
                        done = true;
                    },
                    DecodeOutcome::Complete(message, used) => {
                        self.inbound = copy_range(
                            self.inbound.as_slice(),
                            used,
                            self.inbound.len(),
                        );
                        assert(self@.inbound =~= before.inbound.skip(used as int));
                        let mut more = self.handle(&message, registry);
                        let ghost first = outbound_views(more@);
                        out.append(&mut more);
                        assert(outbound_views(out@) =~= sent + first);
                        let ghost rest = run(self@, registry@, codec.max_payload).out;
                        assert(sent + (first + rest) =~= (sent + first) + rest);
                    },
                }
            }
        }
        assert(outbound_views(out@) + Seq::<OutboundView>::empty() =~= outbound_views(out@));
        out
    }
}

} // verus!
