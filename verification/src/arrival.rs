//! What happens when the users of several connections join: whatever the
//! order in which their `Join` frames are taken in, all are registered and
//! announced, each under the id of its own connection.

use vstd::prelude::*;
use crate::connection::{step, ConnStateView, ConnectionView};
use crate::dispatch::{OutboundView, Target};
use crate::message::MessageView;
use crate::registry::{after_register, entry, well_formed, UserView};
use crate::uniqueness::{
    after_calls, holds_first, joins, lemma_always_well_formed, lemma_distinct_joins_all_accepted,
    RegistryCall,
};

verus! {

/// The candidate ids of the connections, in their order.
pub open spec fn candidates(conns: Seq<ConnectionView>) -> Seq<u128> {
    Seq::new(conns.len(), |i: int| conns[i].candidate_id)
}

/// The registry, empty at first, after the first `k` connections have each
/// taken in a `Join` for the name at their place in `names`, one after the
/// other.
pub open spec fn after_joining(conns: Seq<ConnectionView>, names: Seq<Seq<u8>>, k: int) -> Seq<
    UserView,
>
    decreases k,
{
    if k <= 0 {
        Seq::empty()
    } else {
        step(
            conns[k - 1],
            MessageView::Join { username: names[k - 1] },
            after_joining(conns, names, k - 1),
        ).users
    }
}

/// A `Join` on an unauthenticated connection does to the registry what
/// registering the name under the connection's candidate id does.
pub proof fn lemma_joining_is_registering(
    conns: Seq<ConnectionView>,
    names: Seq<Seq<u8>>,
    k: int,
)
    requires
        conns.len() == names.len(),
        0 <= k <= names.len(),
        forall|i: int| 0 <= i < conns.len() ==> (#[trigger] conns[i]).state is Connected,
    ensures
        after_joining(conns, names, k) == after_calls(
            Seq::empty(),
            joins(names, candidates(conns)).take(k),
        ),
    decreases k,
{
    let calls = joins(names, candidates(conns));
    if k > 0 {
        lemma_joining_is_registering(conns, names, k - 1);
        let before = after_joining(conns, names, k - 1);
        assert(conns[k - 1].state is Connected);
        assert(step(conns[k - 1], MessageView::Join { username: names[k - 1] }, before).users
            == after_register(before, names[k - 1], conns[k - 1].candidate_id));
        assert(calls.take(k).drop_last() =~= calls.take(k - 1));
        assert(calls.take(k).last() == RegistryCall::Register {
            name: names[k - 1],
            id: conns[k - 1].candidate_id,
        });
    } else {
        assert(calls.take(0) =~= Seq::<RegistryCall>::empty());
    }
}

/// Connections whose users ask for names that all differ, and whose
/// candidate ids all differ, all join, in whatever order their frames are
/// taken in. When the `k`-th `Join` is acted on, the registry holds exactly
/// the users of the `k` connections before it; the connection is bound to
/// the user of its name and its own candidate id; that user is in the
/// registry afterwards, and the one `UserJoined` sent, to all, carries the
/// id stored under the name. The registry stays well formed throughout.
pub proof fn lemma_distinct_joins_all_announced(
    conns: Seq<ConnectionView>,
    names: Seq<Seq<u8>>,
    k: int,
)
    requires
        conns.len() == names.len(),
        forall|i: int| 0 <= i < conns.len() ==> (#[trigger] conns[i]).state is Connected,
        forall|i: int, j: int| 0 <= i < j < names.len() ==> names[i] != names[j],
        forall|i: int, j: int|
            0 <= i < j < conns.len() ==> conns[i].candidate_id != conns[j].candidate_id,
        0 <= k < names.len(),
    ensures
        ({
            let before = after_joining(conns, names, k);
            let joined = entry(names[k], conns[k].candidate_id);
            let after = step(conns[k], MessageView::Join { username: names[k] }, before);
            &&& holds_first(before, names, candidates(conns), k)
            &&& after.conn == (ConnectionView {
                state: ConnStateView::Authenticated(joined),
                ..conns[k]
            })
            &&& after.out == seq![
                OutboundView {
                    message: MessageView::UserJoined {
                        user_id: conns[k].candidate_id,
                        username: names[k],
                    },
                    target: Target::All,
                },
            ]
            &&& after.users == after_joining(conns, names, k + 1)
            &&& holds_first(after.users, names, candidates(conns), k + 1)
            &&& after.users.contains(joined)
            &&& well_formed(after.users)
        }),
{
    let ids = candidates(conns);
    lemma_joining_is_registering(conns, names, k);
    lemma_joining_is_registering(conns, names, k + 1);
    lemma_distinct_joins_all_accepted(names, ids, k);
    lemma_distinct_joins_all_accepted(names, ids, k + 1);
    lemma_always_well_formed(joins(names, ids).take(k + 1));
    let after = after_joining(conns, names, k + 1);
    assert(after.contains(entry(names[k], ids[k])));
}

} // verus!
