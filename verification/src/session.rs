//! The client's session: the bytes received and not yet decoded, and the
//! state that the decoded messages build up.
//!
//! Bytes are taken in as they arrive, in pieces of any size. Every whole
//! frame that the buffer holds is decoded and applied; what is left waits
//! for more. The session writes to no socket: what it has to send it hands
//! out as frames.

use vstd::prelude::*;
use rand::Rng;
use crate::codec::{decoding, encoding, Codec, DecodeOutcome, DecodeOutcomeView};
use crate::message::{ExtendedMessageType, Message, MessageView};
use crate::order::{bytes_less, lex_less};
use crate::wire::{append, copy_range, same_bytes};

verus! {

/// The version that a server announced.
#[derive(Clone, Copy, Debug, PartialEq, Eq, Structural)]
pub struct ServerVersion {
    pub major: u16,
    pub minor: u16,
    pub patch: u16,
}

/// A user that the server has announced.
#[derive(Clone, Debug, PartialEq, Eq)]
pub struct Peer {
    pub username: Vec<u8>,
    pub id: u128,
}

pub struct PeerView {
    pub username: Seq<u8>,
    pub id: u128,
}

impl View for Peer {
    type V = PeerView;

    open spec fn view(&self) -> PeerView {
        PeerView { username: self.username@, id: self.id }
    }
}

/// How far the session has come in joining.
#[derive(Clone, Debug, PartialEq, Eq)]
pub enum JoinState {
    /// No name asked for.
    Idle,
    /// A `Join` for this name was sent and not yet answered.
    Pending(Vec<u8>),
    /// The server announced the name with this id.
    Joined { username: Vec<u8>, id: u128 },
}

pub enum JoinStateView {
    Idle,
    Pending(Seq<u8>),
    Joined { username: Seq<u8>, id: u128 },
}

impl View for JoinState {
    type V = JoinStateView;

    open spec fn view(&self) -> JoinStateView {
        match *self {
            JoinState::Idle => JoinStateView::Idle,
            JoinState::Pending(name) => JoinStateView::Pending(name@),
            JoinState::Joined { username, id } => JoinStateView::Joined { username: username@, id },
        }
    }
}

/// Why the session cannot send what was asked.
#[derive(Clone, Copy, Debug, PartialEq, Eq, Structural)]
pub enum SessionError {
    /// There is no connection.
    NotConnected,
    /// A name was asked for already.
    AlreadyJoined,
    /// The server has not accepted a name yet.
    NotJoined,
    /// The name or text is longer than a frame can carry.
    TooLong,
}

/// The client's session.
pub struct ClientSession {
    codec: Codec,
    connected: bool,
    version: Option<ServerVersion>,
    peers: Vec<Peer>,
    text: Vec<u8>,
    buffer: Vec<u8>,
    join: JoinState,
}

pub struct SessionView {
    /// The longest byte string a frame of this session carries.
    pub max_payload: u16,
    pub connected: bool,
    /// The version the server announced, once it has.
    pub version: Option<ServerVersion>,
    /// The users the server announced and has not reported gone, in the
    /// order of their names.
    pub peers: Seq<PeerView>,
    /// The welcome and chat texts received, one after the other.
    pub text: Seq<u8>,
    /// The bytes received and not yet decoded.
    pub buffer: Seq<u8>,
    pub join: JoinStateView,
}

impl View for ClientSession {
    type V = SessionView;

    closed spec fn view(&self) -> SessionView {
        SessionView {
            max_payload: self.codec.max_payload,
            connected: self.connected,
            version: self.version,
            peers: peer_views(self.peers@),
            text: self.text@,
            buffer: self.buffer@,
            join: self.join@,
        }
    }
}

/// The views of a sequence of peers.
pub open spec fn peer_views(s: Seq<Peer>) -> Seq<PeerView> {
    Seq::new(s.len(), |i: int| s[i]@)
}

/// The peers that `keep` lets stay, in their order.
pub open spec fn peers_where(peers: Seq<PeerView>, keep: spec_fn(PeerView) -> bool) -> Seq<
    PeerView,
>
    decreases peers.len(),
{
    if peers.len() == 0 {
        peers
    } else if keep(peers.last()) {
        peers_where(peers.drop_last(), keep).push(peers.last())
    } else {
        peers_where(peers.drop_last(), keep)
    }
}

/// The place of `name` among the peers: behind the leading peers whose
/// names stand before it.
pub open spec fn peer_slot(peers: Seq<PeerView>, name: Seq<u8>) -> nat
    decreases peers.len(),
{
    if peers.len() == 0 || !lex_less(peers[0].username, name) {
        0
    } else {
        1 + peer_slot(peers.skip(1), name)
    }
}

/// The peers once `username` was announced with `id`: an older entry of
/// that name goes, and the new one is entered at the place of its name.
pub open spec fn peers_joined(peers: Seq<PeerView>, username: Seq<u8>, id: u128) -> Seq<PeerView> {
    let others = peers_where(peers, |p: PeerView| p.username != username);
    others.insert(peer_slot(others, username) as int, PeerView { username, id })
}

/// Whether the peers stand in the order of their names, which makes every
/// name occur once.
pub open spec fn peers_ordered(peers: Seq<PeerView>) -> bool {
    forall|i: int, j: int|
        0 <= i < j < peers.len() ==> lex_less(
            #[trigger] peers[i].username,
            #[trigger] peers[j].username,
        )
}

/// The peers once `id` was reported gone.
pub open spec fn peers_left(peers: Seq<PeerView>, id: u128) -> Seq<PeerView> {
    peers_where(peers, |p: PeerView| p.id != id)
}

/// What one message from the server does to the session.
///
/// `Version` sets the server's version. `Welcome` and `ChatMsg` add their
/// text to the text received. `UserJoined` enters the user among the peers,
/// and completes a pending join for that name. `UserLeft` strikes the user.
/// An `Extended` message of kind `JOIN_REJECTED` for the pending name ends
/// the attempt. Everything else is passed over.
pub open spec fn apply(s: SessionView, m: MessageView) -> SessionView {
    match m {
        MessageView::Version { major, minor, patch } => SessionView {
            version: Some(ServerVersion { major, minor, patch }),
            ..s
        },
        MessageView::Welcome { text } => SessionView { text: s.text + text, ..s },
        MessageView::ChatMsg { text, .. } => SessionView { text: s.text + text, ..s },
        MessageView::UserJoined { user_id, username } => SessionView {
            peers: peers_joined(s.peers, username, user_id),
            join: if s.join == JoinStateView::Pending(username) {
                JoinStateView::Joined { username, id: user_id }
            } else {
                s.join
            },
            ..s
        },
        MessageView::UserLeft { user_id } => SessionView {
            peers: peers_left(s.peers, user_id),
            ..s
        },
        MessageView::Extended { extended_type, content } => SessionView {
            join: if extended_type == ExtendedMessageType::JOIN_REJECTED && s.join
                == JoinStateView::Pending(content) {
                JoinStateView::Idle
            } else {
                s.join
            },
            ..s
        },
        _ => s,
    }
}

/// The session without its connection: the server's version and the join
/// are forgotten and the undecoded bytes dropped; the peers and the text
/// received stay.
pub open spec fn dropped(s: SessionView) -> SessionView {
    SessionView {
        connected: false,
        version: None,
        buffer: Seq::empty(),
        join: JoinStateView::Idle,
        ..s
    }
}

/// The session after every whole frame in its buffer was decoded and
/// applied. A frame that cannot be decoded breaks the connection.
pub open spec fn settle(s: SessionView) -> SessionView
    decreases s.buffer.len(),
{
    if !s.connected {
        s
    } else {
        match decoding(s.buffer, s.max_payload) {
            DecodeOutcomeView::Incomplete => s,
            DecodeOutcomeView::Invalid(_) => dropped(s),
            DecodeOutcomeView::Complete(m, n) => settle(
                apply(SessionView { buffer: s.buffer.skip(n as int), ..s }, m),
            ),
        }
    }
}

/// The session after `data` arrived. Without a connection nothing is
/// taken in.
pub open spec fn fed(s: SessionView, data: Seq<u8>) -> SessionView {
    if !s.connected {
        s
    } else {
        settle(SessionView { buffer: s.buffer + data, ..s })
    }
}

/// The decimal digits of `n` in ASCII.
pub open spec fn decimal(n: nat) -> Seq<u8>
    decreases n,
{
    if n < 10 {
        seq![(48 + n) as u8]
    } else {
        decimal(n / 10).push((48 + n % 10) as u8)
    }
}

/// The name of guest number `n`: `Guest` and the number.
pub open spec fn guest_name_of(n: nat) -> Seq<u8> {
    seq![71u8, 117u8, 101u8, 115u8, 116u8] + decimal(n)
}

/// What asking for `username` answers.
pub open spec fn join_answer(s: SessionView, username: Seq<u8>) -> Result<Seq<u8>, SessionError> {
    if !s.connected {
        Err(SessionError::NotConnected)
    } else if !(s.join is Idle) {
        Err(SessionError::AlreadyJoined)
    } else if username.len() > s.max_payload {
        Err(SessionError::TooLong)
    } else {
        Ok(encoding(MessageView::Join { username }))
    }
}

/// What asking to send `text` answers.
pub open spec fn chat_answer(s: SessionView, text: Seq<u8>) -> Result<Seq<u8>, SessionError> {
    if !s.connected {
        Err(SessionError::NotConnected)
    } else {
        match s.join {
            JoinStateView::Joined { id, .. } => if text.len() > s.max_payload {
                Err(SessionError::TooLong)
            } else {
                Ok(encoding(MessageView::ChatMsg { sender_id: id, text }))
            },
            _ => Err(SessionError::NotJoined),
        }
    }
}

/// Draws a number with `rand::Rng::random_range` on the thread's generator,
/// `rand::rng()`. The number is random; all that is claimed of it is that it
/// lies in the range asked for, bounds included. The range must not be
/// empty: on an empty range `random_range` panics.
#[verifier::external_body]
fn random_between(low: u32, high: u32) -> (n: u32)
    requires
        low <= high,
    ensures
        low <= n <= high,
{
    rand::rng().random_range(low..=high)
}

/// Appends the decimal digits of `n`.
fn push_decimal(out: &mut Vec<u8>, n: u32)
    ensures
        final(out)@ == old(out)@ + decimal(n as nat),
    decreases n,
{
    if n < 10 {
        out.push(48 + n as u8);
        assert(out@ =~= old(out)@ + decimal(n as nat));
    } else {
        push_decimal(out, n / 10);
        out.push(48 + (n % 10) as u8);
        assert(out@ =~= old(out)@ + decimal(n as nat));
    }
}

/// The name of guest number `n`.
pub fn guest_name(n: u32) -> (name: Vec<u8>)
    ensures
        name@ == guest_name_of(n as nat),
{
    let mut name: Vec<u8> = Vec::new();
    name.push(71);
    name.push(117);
    name.push(101);
    name.push(115);
    name.push(116);
    assert(name@ =~= seq![71u8, 117u8, 101u8, 115u8, 116u8]);
    push_decimal(&mut name, n);
    name
}

/// The name of a guest whose number, from 1 to 1000, is drawn at random.
pub fn random_guest_name() -> (name: Vec<u8>)
    ensures
        exists|n: nat| 1 <= n <= 1000 && name@ == #[trigger] guest_name_of(n),
{
    let n = random_between(1, 1000);
    guest_name(n)
}

impl ClientSession {
    /// A session without a connection, with nothing received.
    pub fn new(codec: Codec) -> (session: ClientSession)
        ensures
            session@ == (SessionView {
                max_payload: codec.max_payload,
                connected: false,
                version: None,
                peers: Seq::empty(),
                text: Seq::empty(),
                buffer: Seq::empty(),
                join: JoinStateView::Idle,
            }),
    {
        let session = ClientSession {
            codec,
            connected: false,
            version: None,
            peers: Vec::new(),
            text: Vec::new(),
            buffer: Vec::new(),
            join: JoinState::Idle,
        };
        assert(session@.peers =~= Seq::<PeerView>::empty());
        session
    }

    /// Whether the session has a connection.
    pub fn is_connected(&self) -> (yes: bool)
        ensures
            yes == self@.connected,
    {
        self.connected
    }

    /// The version the server announced, once it has.
    pub fn server_version(&self) -> (v: Option<ServerVersion>)
        ensures
            v == self@.version,
    {
        self.version
    }

    /// The texts received so far.
    pub fn text(&self) -> (t: &[u8])
        ensures
            t@ == self@.text,
    {
        self.text.as_slice()
    }

    /// The number of bytes received and not yet decoded.
    pub fn pending_bytes(&self) -> (n: usize)
        ensures
            n == self@.buffer.len(),
    {
        self.buffer.len()
    }

    /// The id under which the server accepted the session's name, once it
    /// has.
    pub fn user_id(&self) -> (id: Option<u128>)
        ensures
            match self@.join {
                JoinStateView::Joined { id: joined, .. } => id == Some(joined),
                _ => id is None,
            },
    {
        match &self.join {
            JoinState::Joined { id, .. } => Some(*id),
            _ => None,
        }
    }

    /// How far the session has come in joining.
    pub fn join_state(&self) -> (state: JoinState)
        ensures
            state@ == self@.join,
    {
        match &self.join {
            JoinState::Idle => JoinState::Idle,
            JoinState::Pending(name) => {
                let copy = copy_range(name.as_slice(), 0, name.len());
                assert(name@.subrange(0, name@.len() as int) =~= name@);
                JoinState::Pending(copy)
            },
            JoinState::Joined { username, id } => {
                let copy = copy_range(username.as_slice(), 0, username.len());
                assert(username@.subrange(0, username@.len() as int) =~= username@);
                JoinState::Joined { username: copy, id: *id }
            },
        }
    }

    /// A copy of the peers.
    pub fn active_users(&self) -> (out: Vec<Peer>)
        ensures
            peer_views(out@) == self@.peers,
    {
        let mut out: Vec<Peer> = Vec::new();
        let mut i: usize = 0;
        while i < self.peers.len()
            invariant
                i <= self.peers@.len(),
                out@.len() == i,
                forall|k: int| 0 <= k < i ==> #[trigger] out@[k]@ == self.peers@[k]@,
            decreases self.peers@.len() - i,
        {
            let p = &self.peers[i];
            let name = copy_range(p.username.as_slice(), 0, p.username.len());
            assert(p.username@.subrange(0, p.username@.len() as int) =~= p.username@);
            out.push(Peer { username: name, id: p.id });
            i += 1;
        }
        assert(peer_views(out@) =~= peer_views(self.peers@));
        out
    }

    /// Notes that the socket is connected. The session is connected from
    /// now on; the undecoded bytes of an earlier connection are dropped, and
    /// a join asked for or accepted on an earlier connection is forgotten.
    /// The server's version, the peers and the text received stay as they
    /// were.
    pub fn connect(&mut self)
        ensures
            final(self)@ == (SessionView {
                connected: true,
                buffer: Seq::empty(),
                join: JoinStateView::Idle,
                ..old(self)@
            }),
    {
        self.connected = true;
        self.buffer = Vec::new();
        self.join = JoinState::Idle;
    }

    fn disconnect_state(&mut self)
        ensures
            final(self)@ == dropped(old(self)@),
    {
        self.connected = false;
        self.version = None;
        self.buffer = Vec::new();
        self.join = JoinState::Idle;
    }

    /// Ends the connection: see [`dropped`]. Returns the `Leave` frame to
    /// send before the socket is closed, where the server had accepted the
    /// session's name.
    pub fn disconnect(&mut self) -> (frame: Option<Vec<u8>>)
        ensures
            final(self)@ == dropped(old(self)@),
            match frame {
                Some(bytes) => old(self)@.connected && old(self)@.join is Joined && bytes@
                    == encoding(MessageView::Leave),
                None => !(old(self)@.connected && old(self)@.join is Joined),
            },
    {
        let joined = match &self.join {
            JoinState::Joined { .. } => true,
            _ => false,
        };
        let frame = if self.connected && joined {
            Some(self.codec.encode(&Message::Leave))
        } else {
            None
        };
        self.disconnect_state();
        frame
    }

    /// Asks the server for `username`. Returns the `Join` frame to send; the
    /// join is then pending until the server answers.
    pub fn join(&mut self, username: &[u8]) -> (frame: Result<Vec<u8>, SessionError>)
        ensures
            match frame {
                Ok(bytes) => join_answer(old(self)@, username@) == Ok::<Seq<u8>, SessionError>(
                    bytes@,
                ) && final(self)@ == (SessionView {
                    join: JoinStateView::Pending(username@),
                    ..old(self)@
                }),
                Err(e) => join_answer(old(self)@, username@) == Err::<Seq<u8>, SessionError>(e)
                    && final(self)@ == old(self)@,
            },
    {
        if !self.connected {
            return Err(SessionError::NotConnected);
        }
        match &self.join {
            JoinState::Idle => {},
            _ => {
                return Err(SessionError::AlreadyJoined);
            },
        }
        if username.len() > self.codec.max_payload as usize {
            return Err(SessionError::TooLong);
        }
        let name = copy_range(username, 0, username.len());
        assert(username@.subrange(0, username@.len() as int) =~= username@);
        let bytes = self.codec.encode(&Message::Join { username: name });
        let name = copy_range(username, 0, username.len());
        self.join = JoinState::Pending(name);
        Ok(bytes)
    }

    /// The `ChatMsg` frame by which the session says `text`, under the id
    /// that the server gave it.
    pub fn send_chat(&self, text: &[u8]) -> (frame: Result<Vec<u8>, SessionError>)
        ensures
            match frame {
                Ok(bytes) => chat_answer(self@, text@) == Ok::<Seq<u8>, SessionError>(bytes@),
                Err(e) => chat_answer(self@, text@) == Err::<Seq<u8>, SessionError>(e),
            },
    {
        if !self.connected {
            return Err(SessionError::NotConnected);
        }
        match &self.join {
            JoinState::Joined { id, .. } => {
                if text.len() > self.codec.max_payload as usize {
                    return Err(SessionError::TooLong);
                }
                let body = copy_range(text, 0, text.len());
                assert(text@.subrange(0, text@.len() as int) =~= text@);
                Ok(self.codec.encode(&Message::ChatMsg { sender_id: *id, text: body }))
            },
            _ => Err(SessionError::NotJoined),
        }
    }

    /// The place of `name` among the peers.
    fn slot_of(&self, name: &[u8]) -> (at: usize)
        ensures
            at == peer_slot(self@.peers, name@),
            at <= self@.peers.len(),
    {
        let ghost peers = peer_views(self.peers@);
        let mut at: usize = 0;
        let mut found = false;
        assert(peers.skip(0) =~= peers);
        while !found && at < self.peers.len()
            invariant
                peers == peer_views(self.peers@),
                at <= self.peers@.len(),
                peer_slot(peers, name@) == at + peer_slot(peers.skip(at as int), name@),
                found ==> peer_slot(peers.skip(at as int), name@) == 0,
            decreases self.peers@.len() - at + (if found { 0int } else { 1int }),
        {
            assert(peers.skip(at as int)[0] == peers[at as int]);
            if bytes_less(self.peers[at].username.as_slice(), name) {
                assert(peers.skip(at as int).skip(1) =~= peers.skip(at + 1));
                at += 1;
            } else {
                found = true;
            }
        }
        at
    }

    /// Rebuilds the peers without the entries of that name.
    fn strike_name(&mut self, username: &[u8])
        ensures
            final(self)@ == (SessionView {
                peers: peers_where(old(self)@.peers, |p: PeerView| p.username != username@),
                ..old(self)@
            }),
    {
        let ghost keep = |p: PeerView| p.username != username@;
        let ghost all = peer_views(self.peers@);
        let mut kept: Vec<Peer> = Vec::new();
        let mut i: usize = 0;
        while i < self.peers.len()
            invariant
                i <= self.peers@.len(),
                all == peer_views(self.peers@),
                keep == |p: PeerView| p.username != username@,
                peer_views(kept@) == peers_where(all.take(i as int), keep),
            decreases self.peers@.len() - i,
        {
            let p = &self.peers[i];
            proof {
                let now = all.take(i + 1);
                assert(now.drop_last() =~= all.take(i as int));
                assert(now.last() == p@);
            }
            if !same_bytes(p.username.as_slice(), username) {
                let name = copy_range(p.username.as_slice(), 0, p.username.len());
                assert(p.username@.subrange(0, p.username@.len() as int) =~= p.username@);
                kept.push(Peer { username: name, id: p.id });
                assert(peer_views(kept@) =~= peers_where(all.take(i as int), keep).push(p@));
            }
            i += 1;
        }
        assert(all.take(i as int) =~= all);
        self.peers = kept;
    }

    /// Rebuilds the peers without the entries of that id.
    fn strike_id(&mut self, id: u128)
        ensures
            final(self)@ == (SessionView { peers: peers_left(old(self)@.peers, id), ..old(self)@ }),
    {
        let ghost keep = |p: PeerView| p.id != id;
        let ghost all = peer_views(self.peers@);
        let mut kept: Vec<Peer> = Vec::new();
        let mut i: usize = 0;
        while i < self.peers.len()
            invariant
                i <= self.peers@.len(),
                all == peer_views(self.peers@),
                keep == |p: PeerView| p.id != id,
                peer_views(kept@) == peers_where(all.take(i as int), keep),
            decreases self.peers@.len() - i,
        {
            let p = &self.peers[i];
            proof {
                let now = all.take(i + 1);
                assert(now.drop_last() =~= all.take(i as int));
                assert(now.last() == p@);
            }
            if p.id != id {
                let name = copy_range(p.username.as_slice(), 0, p.username.len());
                assert(p.username@.subrange(0, p.username@.len() as int) =~= p.username@);
                kept.push(Peer { username: name, id: p.id });
                assert(peer_views(kept@) =~= peers_where(all.take(i as int), keep).push(p@));
            }
            i += 1;
        }
        assert(all.take(i as int) =~= all);
        self.peers = kept;
    }

    /// Applies one message from the server: see [`apply`].
    pub fn apply_message(&mut self, message: &Message)
        ensures
            final(self)@ == apply(old(self)@, message@),
    {
        match message {
            Message::Version { major, minor, patch } => {
                self.version = Some(
                    ServerVersion { major: *major, minor: *minor, patch: *patch },
                );
            },
            Message::Welcome { text } => {
                append(&mut self.text, text.as_slice());
            },
            Message::ChatMsg { text, .. } => {
                append(&mut self.text, text.as_slice());
            },
            Message::UserJoined { user_id, username } => {
                self.strike_name(username.as_slice());
                let name = copy_range(username.as_slice(), 0, username.len());
                assert(username@.subrange(0, username@.len() as int) =~= username@);
                let at = self.slot_of(username.as_slice());
                let ghost others = self@.peers;
                self.peers.insert(at, Peer { username: name, id: *user_id });
                assert(self@.peers =~= others.insert(
                    at as int,
                    PeerView { username: username@, id: *user_id },
                ));
                let pending = match &self.join {
                    JoinState::Pending(name) => same_bytes(name.as_slice(), username.as_slice()),
                    _ => false,
                };
                if pending {
                    let name = copy_range(username.as_slice(), 0, username.len());
                    self.join = JoinState::Joined { username: name, id: *user_id };
                }
            },
            Message::UserLeft { user_id } => {
                self.strike_id(*user_id);
            },
            Message::Extended { extended_type, content } => {
                let pending = match &self.join {
                    JoinState::Pending(name) => same_bytes(name.as_slice(), content.as_slice()),
                    _ => false,
                };
                if *extended_type == ExtendedMessageType::JOIN_REJECTED && pending {
                    self.join = JoinState::Idle;
                }
            },
            _ => {},
        }
    }

    /// Takes in bytes read from the socket, then decodes and applies every
    /// whole frame that the buffer now holds: see [`fed`]. However the bytes
    /// of a frame are spread over calls, the frame is applied once, when its
    /// last byte has arrived.
    pub fn receive(&mut self, data: &[u8])
        ensures
            final(self)@ == fed(old(self)@, data@),
    {
        if !self.connected {
            return ;
        }
        append(&mut self.buffer, data);
        let ghost goal = settle(self@);
        let mut done = false;
        while !done
            invariant
                goal == settle(self@),
                done ==> settle(self@) == self@,
            decreases self@.buffer.len() + (if done { 0int } else { 1int }),
        {
            if !self.connected {
                done = true;
            } else {
                let ghost before = self@;
                match self.codec.decode(self.buffer.as_slice()) {
                    DecodeOutcome::Incomplete => {
                        done = true;
                    },
                    DecodeOutcome::Invalid(_) => {
                        self.disconnect_state();
                        done = true;
                    },
                    DecodeOutcome::Complete(message, used) => {
                        self.buffer = copy_range(self.buffer.as_slice(), used, self.buffer.len());
                        assert(self@.buffer =~= before.buffer.skip(used as int));
                        self.apply_message(&message);
                    },
                }
            }
        }
    }
}

} // verus!
