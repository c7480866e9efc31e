//! What the other connections see when a user goes.

use vstd::prelude::*;
use crate::codec::encoding;
use crate::connection::{closing, step, ConnStateView, ConnectionView};
use crate::dispatch::{
    deliveries, lemma_selected_members, lemma_selected_once, selected, DeliveryView, OutboundView,
    Target,
};
use crate::message::MessageView;
use crate::registry::{without_id, UserView};

verus! {

/// A `Leave` ends a connection exactly as the loss of its socket does.
pub proof fn lemma_leave_is_closing(conn: ConnectionView, users: Seq<UserView>)
    requires
        !(conn.state is Closed),
    ensures
        step(conn, MessageView::Leave, users) == closing(conn, users),
{
}

/// When the connection of an authenticated user ends, the user leaves the
/// registry, and one `UserLeft` with the user's id is sent to all other
/// connections: every other open connection is written its frame exactly
/// once, and the connection that ended is written nothing.
pub proof fn lemma_departure_reaches_every_peer_once(
    conn: ConnectionView,
    user: UserView,
    users: Seq<UserView>,
    open: Seq<u64>,
    max: u16,
    peer: u64,
)
    requires
        conn.state == ConnStateView::Authenticated(user),
        open.no_duplicates(),
        open.contains(peer),
        peer != conn.id,
    ensures
        closing(conn, users).conn.state == ConnStateView::Closed,
        closing(conn, users).users == without_id(users, user.id),
        closing(conn, users).out == seq![
            OutboundView {
                message: MessageView::UserLeft { user_id: user.id },
                target: Target::AllExcept(conn.id),
            },
        ],
        ({
            let left = MessageView::UserLeft { user_id: user.id };
            let writes = deliveries(open, left, Target::AllExcept(conn.id), max);
            &&& exists|i: int|
                0 <= i < writes.len() && #[trigger] writes[i] == (DeliveryView {
                    conn: peer,
                    bytes: encoding(left),
                }) && forall|j: int| 0 <= j < writes.len() && writes[j].conn == peer ==> j == i
            &&& forall|j: int| 0 <= j < writes.len() ==> (#[trigger] writes[j]).conn != conn.id
        }),
{
    let left = MessageView::UserLeft { user_id: user.id };
    let target = Target::AllExcept(conn.id);
    let to = selected(open, target);
    let writes = deliveries(open, left, target, max);
    lemma_selected_members(open, target, peer);
    lemma_selected_once(open, target);
    let i = choose|i: int| 0 <= i < to.len() && to[i] == peer;
    assert(writes[i] == DeliveryView { conn: peer, bytes: encoding(left) });
    assert forall|j: int| 0 <= j < writes.len() && writes[j].conn == peer implies j == i by {
        assert(to[j] == to[i]);
    }
    assert forall|j: int| 0 <= j < writes.len() implies (#[trigger] writes[j]).conn
        != conn.id by {
        lemma_selected_members(open, target, to[j]);
        assert(to.contains(to[j]));
    }
}

/// When a `Join` is accepted, its `UserJoined` is written to every open
/// connection, the new user's own among them.
pub proof fn lemma_join_reaches_everyone(open: Seq<u64>, conn: u64)
    requires
        open.contains(conn),
    ensures
        selected(open, Target::All).contains(conn),
        selected(open, Target::All) == open,
    decreases open.len(),
{
    lemma_selected_members(open, Target::All, conn);
    lemma_all_selected(open);
}

/// The target `All` selects the whole table.
pub proof fn lemma_all_selected(open: Seq<u64>)
    ensures
        selected(open, Target::All) == open,
    decreases open.len(),
{
    if open.len() > 0 {
        lemma_all_selected(open.drop_last());
        assert(open.drop_last().push(open.last()) =~= open);
    }
}

} // verus!
