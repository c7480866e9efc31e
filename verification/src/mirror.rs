//! What holds of the client's list of peers whatever the server sends: it
//! stays in the order of the names, with every name in it once.

use vstd::prelude::*;
use crate::codec::{decoding, DecodeOutcomeView};
use crate::message::MessageView;
use crate::order::{lemma_lex_irreflexive, lemma_lex_total, lemma_lex_transitive, lex_less};
use crate::session::{
    apply, fed, peer_slot, peers_joined, peers_ordered, peers_where, settle, PeerView, SessionView,
};

verus! {

/// The place of a name lies within the peers; the names before it stand
/// before the name, and the name at it does not.
pub proof fn lemma_peer_slot_divides(peers: Seq<PeerView>, name: Seq<u8>)
    ensures
        peer_slot(peers, name) <= peers.len(),
        forall|i: int| 0 <= i < peer_slot(peers, name) ==> lex_less(#[trigger] peers[i].username, name),
        peer_slot(peers, name) < peers.len() ==> !lex_less(
            peers[peer_slot(peers, name) as int].username,
            name,
        ),
    decreases peers.len(),
{
    if peers.len() > 0 && lex_less(peers[0].username, name) {
        let rest = peers.skip(1);
        lemma_peer_slot_divides(rest, name);
        assert forall|i: int| 0 <= i < peer_slot(peers, name) implies lex_less(
            #[trigger] peers[i].username,
            name,
        ) by {
            if i > 0 {
                assert(peers[i] == rest[i - 1]);
            }
        }
        if peer_slot(peers, name) < peers.len() {
            assert(peers[peer_slot(peers, name) as int] == rest[peer_slot(rest, name) as int]);
        }
    }
}

/// The peers that stay were there, are let stay, and keep their order.
pub proof fn lemma_peers_where_ordered(peers: Seq<PeerView>, keep: spec_fn(PeerView) -> bool)
    requires
        peers_ordered(peers),
    ensures
        peers_ordered(peers_where(peers, keep)),
        forall|j: int|
            0 <= j < peers_where(peers, keep).len() ==> keep(#[trigger] peers_where(peers, keep)[j])
                && peers.contains(peers_where(peers, keep)[j]),
    decreases peers.len(),
{
    if peers.len() > 0 {
        let init = peers.drop_last();
        let last = peers.last();
        assert forall|i: int| 0 <= i < init.len() implies #[trigger] init[i] == peers[i] by {}
        lemma_peers_where_ordered(init, keep);
        let kept = peers_where(init, keep);
        let all = peers_where(peers, keep);
        assert forall|j: int| 0 <= j < all.len() implies keep(#[trigger] all[j]) && peers.contains(
            all[j],
        ) by {
            if j < kept.len() {
                assert(all[j] == kept[j]);
                let i = choose|i: int| 0 <= i < init.len() && init[i] == kept[j];
                assert(peers[i] == all[j]);
            } else {
                assert(peers[peers.len() - 1] == all[j]);
            }
        }
        assert forall|i: int, j: int| 0 <= i < j < all.len() implies lex_less(
            #[trigger] all[i].username,
            #[trigger] all[j].username,
        ) by {
            if j < kept.len() {
                assert(all[i] == kept[i] && all[j] == kept[j]);
            } else {
                assert(all[i] == kept[i]);
                let k = choose|k: int| 0 <= k < init.len() && init[k] == kept[i];
                assert(lex_less(peers[k].username, peers[peers.len() - 1].username));
            }
        }
    }
}

/// A user announced is entered so that the peers stay in order.
pub proof fn lemma_peers_joined_ordered(peers: Seq<PeerView>, username: Seq<u8>, id: u128)
    requires
        peers_ordered(peers),
    ensures
        peers_ordered(peers_joined(peers, username, id)),
        peers_joined(peers, username, id).contains(PeerView { username, id }),
{
    let keep = |p: PeerView| p.username != username;
    let others = peers_where(peers, keep);
    lemma_peers_where_ordered(peers, keep);
    lemma_peer_slot_divides(others, username);
    let at = peer_slot(others, username) as int;
    let next = others.insert(at, PeerView { username, id });
    assert(next[at] == PeerView { username, id });
    let was = |i: int| if i < at { i } else { i - 1 };
    assert forall|i: int| 0 <= i < next.len() && i != at implies #[trigger] next[i] == others[was(
        i,
    )] && next[i].username != username by {
        assert(keep(others[was(i)]));
    }
    assert forall|j: int| at < j < next.len() implies lex_less(
        username,
        #[trigger] next[j].username,
    ) by {
        assert(keep(others[at]));
        lemma_lex_total(username, others[at].username);
        if j - 1 > at {
            assert(lex_less(others[at].username, others[j - 1].username));
            lemma_lex_transitive(username, others[at].username, others[j - 1].username);
        }
    }
    assert forall|i: int, j: int| 0 <= i < j < next.len() implies lex_less(
        #[trigger] next[i].username,
        #[trigger] next[j].username,
    ) by {
        if i != at && j != at {
            assert(was(i) < was(j));
            assert(lex_less(others[was(i)].username, others[was(j)].username));
        }
    }
}

/// Peers in order hold every name once.
pub proof fn lemma_ordered_names_differ(peers: Seq<PeerView>, i: int, j: int)
    requires
        peers_ordered(peers),
        0 <= i < peers.len(),
        0 <= j < peers.len(),
        peers[i].username == peers[j].username,
    ensures
        i == j,
{
    lemma_lex_irreflexive(peers[i].username);
    if i < j {
        assert(lex_less(peers[i].username, peers[j].username));
    } else if j < i {
        assert(lex_less(peers[j].username, peers[i].username));
    }
}

/// Whatever message is applied, the peers stay in order.
pub proof fn lemma_apply_keeps_order(s: SessionView, m: MessageView)
    requires
        peers_ordered(s.peers),
    ensures
        peers_ordered(apply(s, m).peers),
{
    match m {
        MessageView::UserJoined { user_id, username } => {
            lemma_peers_joined_ordered(s.peers, username, user_id);
        },
        MessageView::UserLeft { user_id } => {
            lemma_peers_where_ordered(s.peers, |p: PeerView| p.id != user_id);
        },
        _ => {},
    }
}

/// Whatever frames wait in the buffer, the peers are in order after them.
pub proof fn lemma_settle_keeps_order(s: SessionView)
    requires
        peers_ordered(s.peers),
    ensures
        peers_ordered(settle(s).peers),
    decreases s.buffer.len(),
{
    if s.connected {
        match decoding(s.buffer, s.max_payload) {
            DecodeOutcomeView::Complete(m, n) => {
                let cut = SessionView { buffer: s.buffer.skip(n as int), ..s };
                lemma_apply_keeps_order(cut, m);
                lemma_settle_keeps_order(apply(cut, m));
            },
            _ => {},
        }
    }
}

/// Whatever bytes arrive, the peers are in order after them.
pub proof fn lemma_fed_keeps_order(s: SessionView, data: Seq<u8>)
    requires
        peers_ordered(s.peers),
    ensures
        peers_ordered(fed(s, data).peers),
{
    if s.connected {
        lemma_settle_keeps_order(SessionView { buffer: s.buffer + data, ..s });
    }
}

} // verus!
