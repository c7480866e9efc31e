//! What holds of the registry after any sequence of calls: no name and no
//! id is ever held by two entries, and users who ask for names that differ
//! are all accepted.

use vstd::prelude::*;
use crate::registry::{
    after_register, entry, has_id, lemma_after_register_well_formed, lemma_slot_divides,
    lemma_without_id_well_formed, lemma_without_present_id, name_online, register_answer, slot,
    well_formed, without_id, RegistryError, UserView,
};

verus! {

/// One call that changes a registry.
pub enum RegistryCall {
    Register { name: Seq<u8>, id: u128 },
    Unregister { id: u128 },
}

/// The entries after one call.
pub open spec fn after_call(users: Seq<UserView>, call: RegistryCall) -> Seq<UserView> {
    match call {
        RegistryCall::Register { name, id } => after_register(users, name, id),
        RegistryCall::Unregister { id } => without_id(users, id),
    }
}

/// The entries after a sequence of calls, made in order.
pub open spec fn after_calls(users: Seq<UserView>, calls: Seq<RegistryCall>) -> Seq<UserView>
    decreases calls.len(),
{
    if calls.len() == 0 {
        users
    } else {
        after_call(after_calls(users, calls.drop_last()), calls.last())
    }
}

/// Whatever calls are made on a registry that starts empty, it stays well
/// formed: its entries are online, and no two share a name or an id.
pub proof fn lemma_always_well_formed(calls: Seq<RegistryCall>)
    ensures
        well_formed(after_calls(Seq::empty(), calls)),
    decreases calls.len(),
{
    if calls.len() > 0 {
        lemma_always_well_formed(calls.drop_last());
        let before = after_calls(Seq::empty(), calls.drop_last());
        match calls.last() {
            RegistryCall::Register { name, id } => {
                lemma_after_register_well_formed(before, name, id);
            },
            RegistryCall::Unregister { id } => {
                lemma_without_id_well_formed(before, id);
            },
        }
    }
}

/// After any sequence of calls, at most one online entry has a given name.
pub proof fn lemma_one_online_entry_per_name(calls: Seq<RegistryCall>, i: int, j: int)
    requires
        0 <= i < after_calls(Seq::empty(), calls).len(),
        0 <= j < after_calls(Seq::empty(), calls).len(),
        after_calls(Seq::empty(), calls)[i].online,
        after_calls(Seq::empty(), calls)[j].online,
        after_calls(Seq::empty(), calls)[i].display_name == after_calls(
            Seq::empty(),
            calls,
        )[j].display_name,
    ensures
        i == j,
{
    lemma_always_well_formed(calls);
    let users = after_calls(Seq::empty(), calls);
    if i < j {
        assert(users[i].display_name != users[j].display_name);
    } else if j < i {
        assert(users[j].display_name != users[i].display_name);
    }
}

/// While a user is online under a name, registering that name again is
/// refused with `NameTaken` and changes nothing, whatever id is offered.
pub proof fn lemma_duplicate_name_rejected(users: Seq<UserView>, name: Seq<u8>, id: u128)
    requires
        name_online(users, name),
    ensures
        register_answer(users, name, id) == Err::<UserView, RegistryError>(
            RegistryError::NameTaken,
        ),
        after_register(users, name, id) == users,
{
}

/// Once a user has left, the name is free again.
pub proof fn lemma_name_free_after_leaving(users: Seq<UserView>, at: int)
    requires
        well_formed(users),
        0 <= at < users.len(),
    ensures
        !name_online(without_id(users, users[at].id), users[at].display_name),
        !has_id(without_id(users, users[at].id), users[at].id),
{
    let id = users[at].id;
    let name = users[at].display_name;
    lemma_without_present_id(users, id, at);
    let rest = users.remove(at);
    assert forall|i: int| 0 <= i < rest.len() implies #[trigger] rest[i].display_name != name
        && rest[i].id != id by {
        if i < at {
            assert(rest[i] == users[i]);
            assert(users[i].display_name != users[at].display_name);
        } else {
            assert(rest[i] == users[i + 1]);
            assert(users[at].display_name != users[i + 1].display_name);
        }
    }
}

/// The calls by which the users named in `names` register, one after the
/// other, each under the id at the same place in `ids`.
pub open spec fn joins(names: Seq<Seq<u8>>, ids: Seq<u128>) -> Seq<RegistryCall> {
    Seq::new(names.len(), |i: int| RegistryCall::Register { name: names[i], id: ids[i] })
}

/// Whether `users` holds the first `k` of the users named, each once, and
/// nobody else.
pub open spec fn holds_first(users: Seq<UserView>, names: Seq<Seq<u8>>, ids: Seq<u128>, k: int)
    -> bool {
    &&& users.len() == k
    &&& forall|i: int| 0 <= i < k ==> users.contains(#[trigger] entry(names[i], ids[i]))
    &&& forall|j: int|
        0 <= j < users.len() ==> exists|i: int|
            0 <= i < k && #[trigger] users[j] == entry(names[i], ids[i])
}

/// Users who register under names that all differ, with ids that all
/// differ, are all accepted, in whatever order they come: after the first
/// `k` registrations the registry holds exactly the first `k` users, and the
/// next registration is answered with the next user.
pub proof fn lemma_distinct_joins_all_accepted(names: Seq<Seq<u8>>, ids: Seq<u128>, k: int)
    requires
        names.len() == ids.len(),
        forall|i: int, j: int| 0 <= i < j < names.len() ==> names[i] != names[j],
        forall|i: int, j: int| 0 <= i < j < ids.len() ==> ids[i] != ids[j],
        0 <= k <= names.len(),
    ensures
        holds_first(after_calls(Seq::empty(), joins(names, ids).take(k)), names, ids, k),
        k < names.len() ==> register_answer(
            after_calls(Seq::empty(), joins(names, ids).take(k)),
            names[k],
            ids[k],
        ) == Ok::<UserView, RegistryError>(entry(names[k], ids[k])),
    decreases k,
{
    let calls = joins(names, ids);
    let now = after_calls(Seq::empty(), calls.take(k));
    if k > 0 {
        lemma_distinct_joins_all_accepted(names, ids, k - 1);
        let before = after_calls(Seq::empty(), calls.take(k - 1));
        let joined = entry(names[k - 1], ids[k - 1]);
        let at = slot(before, names[k - 1]) as int;
        lemma_slot_divides(before, names[k - 1]);
        assert(calls.take(k).drop_last() =~= calls.take(k - 1));
        assert(calls.take(k).last() == RegistryCall::Register {
            name: names[k - 1],
            id: ids[k - 1],
        });
        assert(now == before.insert(at, joined));
        assert(now[at] == joined);
        assert forall|i: int| 0 <= i < k implies now.contains(
            #[trigger] entry(names[i], ids[i]),
        ) by {
            if i < k - 1 {
                assert(before.contains(entry(names[i], ids[i])));
                let j = choose|j: int|
                    0 <= j < before.len() && before[j] == entry(names[i], ids[i]);
                if j < at {
                    assert(now[j] == before[j]);
                } else {
                    assert(now[j + 1] == before[j]);
                }
            }
        }
        assert forall|j: int| 0 <= j < now.len() implies exists|i: int|
            0 <= i < k && #[trigger] now[j] == entry(names[i], ids[i]) by {
            if j == at {
                assert(now[j] == entry(names[k - 1], ids[k - 1]));
            } else {
                let was = if j < at {
                    j
                } else {
                    j - 1
                };
                assert(now[j] == before[was]);
                let i = choose|i: int| 0 <= i < k - 1 && before[was] == entry(names[i], ids[i]);
                assert(now[j] == entry(names[i], ids[i]));
            }
        }
    } else {
        assert(calls.take(0) =~= Seq::<RegistryCall>::empty());
    }
    if k < names.len() {
        assert(!name_online(now, names[k])) by {
            if name_online(now, names[k]) {
                let j = choose|j: int|
                    0 <= j < now.len() && #[trigger] now[j].display_name == names[k]
                        && now[j].online;
                let i = choose|i: int| 0 <= i < k && now[j] == entry(names[i], ids[i]);
                assert(names[i] != names[k]);
            }
        }
        assert(!has_id(now, ids[k])) by {
            if has_id(now, ids[k]) {
                let j = choose|j: int| 0 <= j < now.len() && #[trigger] now[j].id == ids[k];
                let i = choose|i: int| 0 <= i < k && now[j] == entry(names[i], ids[i]);
                assert(ids[i] != ids[k]);
            }
        }
    }
}

} // verus!
