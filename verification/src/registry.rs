//! The presence registry: who is connected under which name.
//!
//! The registry holds one entry per connected user, in the order of their
//! names. No two entries share a name or an id.

use vstd::prelude::*;
use crate::order::{bytes_less, lemma_lex_total, lemma_lex_transitive, lex_less};
use crate::wire::{copy_range, same_bytes};

verus! {

/// A user known to the server.
#[derive(Clone, Debug, PartialEq, Eq)]
pub struct User {
    /// The display name, the key of the registry. It never changes.
    pub display_name: Vec<u8>,
    /// The 128-bit identifier drawn when the user registered.
    pub id: u128,
    /// Whether the user is connected.
    pub online: bool,
}

pub struct UserView {
    pub display_name: Seq<u8>,
    pub id: u128,
    pub online: bool,
}

impl View for User {
    type V = UserView;

    open spec fn view(&self) -> UserView {
        UserView { display_name: self.display_name@, id: self.id, online: self.online }
    }
}

/// Why a registration was refused.
#[derive(Clone, Copy, Debug, PartialEq, Eq, Structural)]
pub enum RegistryError {
    /// A connected user already has the name.
    NameTaken,
    /// The identifier offered for the new user belongs to a connected user.
    IdInUse,
}

/// Whether `id` has the form of a random (version 4) UUID: version nibble
/// 4, variant bits `10`.
pub open spec fn is_random_uuid(id: u128) -> bool {
    (id >> 76u128) & 0xf == 4 && (id >> 62u128) & 0x3 == 2
}

/// Draws an identifier with `uuid::Uuid::new_v4` and hands it out as the
/// number that `Uuid::as_u128` gives. The value is random; all that is
/// claimed of it is the version and variant that `new_v4` always sets.
#[verifier::external_body]
pub(crate) fn fresh_id() -> (id: u128)
    ensures
        is_random_uuid(id),
{
    uuid::Uuid::new_v4().as_u128()
}

impl User {
    /// A connected user of that name with a freshly drawn identifier.
    pub fn new(display_name: Vec<u8>) -> (user: User)
        ensures
            user.display_name == display_name,
            user.online,
            is_random_uuid(user.id),
    {
        User { display_name, online: true, id: fresh_id() }
    }

    /// A copy that says the same.
    pub fn duplicate(&self) -> (copy: User)
        ensures
            copy@ == self@,
    {
        let name = copy_range(self.display_name.as_slice(), 0, self.display_name.len());
        assert(self.display_name@.subrange(0, self.display_name@.len() as int)
            =~= self.display_name@);
        User { display_name: name, id: self.id, online: self.online }
    }
}

/// Whether a connected user has the name.
pub open spec fn name_online(users: Seq<UserView>, name: Seq<u8>) -> bool {
    exists|i: int| 0 <= i < users.len() && #[trigger] users[i].display_name == name && users[i].online
}

/// Whether an entry has the id.
pub open spec fn has_id(users: Seq<UserView>, id: u128) -> bool {
    exists|i: int| 0 <= i < users.len() && #[trigger] users[i].id == id
}

/// What every registry satisfies: its entries are connected users, they
/// stand in the order of their names, and no two of them share a name or an
/// id.
pub open spec fn well_formed(users: Seq<UserView>) -> bool {
    &&& forall|i: int| 0 <= i < users.len() ==> #[trigger] users[i].online
    &&& forall|i: int, j: int|
        0 <= i < j < users.len() ==> lex_less(
            #[trigger] users[i].display_name,
            #[trigger] users[j].display_name,
        )
    &&& forall|i: int, j: int|
        0 <= i < j < users.len() ==> #[trigger] users[i].display_name
            != #[trigger] users[j].display_name
    &&& forall|i: int, j: int|
        0 <= i < j < users.len() ==> #[trigger] users[i].id != #[trigger] users[j].id
}

/// The entry that a registration of `name` under `id` creates.
pub open spec fn entry(name: Seq<u8>, id: u128) -> UserView {
    UserView { display_name: name, id, online: true }
}

/// What registering `name` under `id` answers.
pub open spec fn register_answer(users: Seq<UserView>, name: Seq<u8>, id: u128) -> Result<
    UserView,
    RegistryError,
> {
    if name_online(users, name) {
        Err(RegistryError::NameTaken)
    } else if has_id(users, id) {
        Err(RegistryError::IdInUse)
    } else {
        Ok(entry(name, id))
    }
}

/// Whether `answer` is the answer `expected`, the user taken by its view.
pub open spec fn answers(answer: Result<User, RegistryError>, expected: Result<
    UserView,
    RegistryError,
>) -> bool {
    match answer {
        Ok(user) => expected == Ok::<UserView, RegistryError>(user@),
        Err(e) => expected == Err::<UserView, RegistryError>(e),
    }
}

/// The place of `name` among the entries: behind the leading entries whose
/// names stand before it.
pub open spec fn slot(users: Seq<UserView>, name: Seq<u8>) -> nat
    decreases users.len(),
{
    if users.len() == 0 || !lex_less(users[0].display_name, name) {
        0
    } else {
        1 + slot(users.skip(1), name)
    }
}

/// The entries after registering `name` under `id`: one more, at the place
/// of its name, where the registration is accepted; unchanged where it is
/// refused.
pub open spec fn after_register(users: Seq<UserView>, name: Seq<u8>, id: u128) -> Seq<UserView> {
    if register_answer(users, name, id) is Ok {
        users.insert(slot(users, name) as int, entry(name, id))
    } else {
        users
    }
}

/// The place of a name lies within the entries; the names before it stand
/// before the name, and the name at it does not.
pub proof fn lemma_slot_divides(users: Seq<UserView>, name: Seq<u8>)
    ensures
        slot(users, name) <= users.len(),
        forall|i: int|
            0 <= i < slot(users, name) ==> lex_less(#[trigger] users[i].display_name, name),
        slot(users, name) < users.len() ==> !lex_less(
            users[slot(users, name) as int].display_name,
            name,
        ),
    decreases users.len(),
{
    if users.len() > 0 && lex_less(users[0].display_name, name) {
        let rest = users.skip(1);
        lemma_slot_divides(rest, name);
        assert forall|i: int| 0 <= i < slot(users, name) implies lex_less(
            #[trigger] users[i].display_name,
            name,
        ) by {
            if i > 0 {
                assert(users[i] == rest[i - 1]);
            }
        }
        if slot(users, name) < users.len() {
            assert(users[slot(users, name) as int] == rest[slot(rest, name) as int]);
        }
    }
}

/// The entries without those that have the id, in their order.
pub open spec fn without_id(users: Seq<UserView>, id: u128) -> Seq<UserView>
    decreases users.len(),
{
    if users.len() == 0 {
        users
    } else if users.last().id == id {
        without_id(users.drop_last(), id)
    } else {
        without_id(users.drop_last(), id).push(users.last())
    }
}

/// Where no entry has the id, nothing is taken out.
pub proof fn lemma_without_absent_id(users: Seq<UserView>, id: u128)
    requires
        !has_id(users, id),
    ensures
        without_id(users, id) == users,
    decreases users.len(),
{
    if users.len() > 0 {
        let init = users.drop_last();
        assert(users.last() == users[users.len() - 1]);
        assert forall|i: int| 0 <= i < init.len() implies init[i].id != id by {
            assert(init[i] == users[i]);
        }
        lemma_without_absent_id(init, id);
        assert(init.push(users.last()) =~= users);
    }
}

/// In a registry, taking out an id takes out the one entry that has it.
pub proof fn lemma_without_present_id(users: Seq<UserView>, id: u128, at: int)
    requires
        well_formed(users),
        0 <= at < users.len(),
        users[at].id == id,
    ensures
        without_id(users, id) == users.remove(at),
    decreases users.len(),
{
    let init = users.drop_last();
    let last = users.len() - 1;
    if at == last {
        assert forall|i: int| 0 <= i < init.len() implies init[i].id != id by {
            assert(init[i] == users[i]);
        }
        lemma_without_absent_id(init, id);
        assert(users.remove(at) =~= init);
    } else {
        assert(users[at].id != users[last].id);
        assert(well_formed(init)) by {
            assert forall|i: int| 0 <= i < init.len() implies init[i] == users[i] by {}
        }
        assert(init[at] == users[at]);
        lemma_without_present_id(init, id, at);
        assert(init.remove(at).push(users.last()) =~= users.remove(at));
    }
}

/// Taking entries out keeps a registry a registry, and what stays was there.
pub proof fn lemma_without_id_well_formed(users: Seq<UserView>, id: u128)
    requires
        well_formed(users),
    ensures
        well_formed(without_id(users, id)),
        !has_id(without_id(users, id), id),
        forall|name: Seq<u8>|
            name_online(without_id(users, id), name) ==> name_online(users, name),
{
    if has_id(users, id) {
        let at = choose|i: int| 0 <= i < users.len() && #[trigger] users[i].id == id;
        lemma_without_present_id(users, id, at);
        let rest = users.remove(at);
        assert forall|i: int| 0 <= i < rest.len() implies rest[i] == users[if i < at {
            i
        } else {
            i + 1
        }] by {}
        assert forall|name: Seq<u8>| name_online(rest, name) implies name_online(users, name) by {
            let i = choose|i: int|
                0 <= i < rest.len() && #[trigger] rest[i].display_name == name && rest[i].online;
            let j = if i < at {
                i
            } else {
                i + 1
            };
            assert(users[j].display_name == name && users[j].online);
        }
    } else {
        lemma_without_absent_id(users, id);
    }
}

/// Registering keeps a registry a registry.
pub proof fn lemma_after_register_well_formed(users: Seq<UserView>, name: Seq<u8>, id: u128)
    requires
        well_formed(users),
    ensures
        well_formed(after_register(users, name, id)),
{
    if register_answer(users, name, id) is Ok {
        let at = slot(users, name) as int;
        let next = users.insert(at, entry(name, id));
        lemma_slot_divides(users, name);
        let was = |i: int| if i < at { i } else { i - 1 };
        assert forall|i: int| 0 <= i < next.len() && i != at implies #[trigger] next[i]
            == users[was(i)] && users[was(i)].online && next[i].display_name != name && next[i].id
            != id by {}
        assert forall|j: int| at < j < next.len() implies lex_less(
            name,
            #[trigger] next[j].display_name,
        ) by {
            lemma_lex_total(name, users[at].display_name);
            if j - 1 > at {
                assert(lex_less(users[at].display_name, users[j - 1].display_name));
                lemma_lex_transitive(name, users[at].display_name, users[j - 1].display_name);
            }
        }
        assert forall|i: int, j: int| 0 <= i < j < next.len() implies lex_less(
            #[trigger] next[i].display_name,
            #[trigger] next[j].display_name,
        ) && next[i].display_name != next[j].display_name && next[i].id != next[j].id by {
            if i != at && j != at {
                assert(was(i) < was(j));
                assert(lex_less(users[was(i)].display_name, users[was(j)].display_name));
            }
        }
    }
}

/// The presence registry.
pub struct Registry {
    users: Vec<User>,
}

impl View for Registry {
    type V = Seq<UserView>;

    closed spec fn view(&self) -> Seq<UserView> {
        Seq::new(self.users@.len(), |i: int| self.users@[i]@)
    }
}

impl Registry {
    /// The invariant of the registry: see [`well_formed`].
    pub open spec fn wf(&self) -> bool {
        well_formed(self@)
    }

    /// A registry without entries.
    pub fn new() -> (registry: Registry)
        ensures
            registry@ == Seq::<UserView>::empty(),
            registry.wf(),
    {
        let registry = Registry { users: Vec::new() };
        assert(registry@ =~= Seq::<UserView>::empty());
        registry
    }

    /// The number of entries.
    pub fn len(&self) -> (n: usize)
        ensures
            n == self@.len(),
    {
        self.users.len()
    }

    /// Whether a connected user has the name.
    pub fn contains_name(&self, name: &[u8]) -> (found: bool)
        ensures
            found == name_online(self@, name@),
    {
        let mut i: usize = 0;
        while i < self.users.len()
            invariant
                i <= self.users@.len(),
                forall|k: int|
                    0 <= k < i ==> !(#[trigger] self@[k].display_name == name@ && self@[k].online),
            decreases self.users@.len() - i,
        {
            if self.users[i].online && same_bytes(self.users[i].display_name.as_slice(), name) {
                assert(self@[i as int].display_name == name@ && self@[i as int].online);
                return true;
            }
            i += 1;
        }
        false
    }

    /// Where the entry with the id stands.
    fn position_of_id(&self, id: u128) -> (at: Option<usize>)
        ensures
            match at {
                Some(p) => p < self@.len() && self@[p as int].id == id,
                None => !has_id(self@, id),
            },
    {
        let mut i: usize = 0;
        while i < self.users.len()
            invariant
                i <= self.users@.len(),
                forall|k: int| 0 <= k < i ==> #[trigger] self@[k].id != id,
            decreases self.users@.len() - i,
        {
            if self.users[i].id == id {
                return Some(i);
            }
            i += 1;
        }
        None
    }

    /// The place of `name` among the entries.
    fn slot_of(&self, name: &[u8]) -> (at: usize)
        ensures
            at == slot(self@, name@),
            at <= self@.len(),
    {
        let mut at: usize = 0;
        let mut found = false;
        assert(self@.skip(0) =~= self@);
        while !found && at < self.users.len()
            invariant
                at <= self.users@.len(),
                slot(self@, name@) == at + slot(self@.skip(at as int), name@),
                found ==> slot(self@.skip(at as int), name@) == 0,
            decreases self.users@.len() - at + (if found { 0int } else { 1int }),
        {
            assert(self@.skip(at as int)[0] == self@[at as int]);
            if bytes_less(self.users[at].display_name.as_slice(), name) {
                assert(self@.skip(at as int).skip(1) =~= self@.skip(at + 1));
                at += 1;
            } else {
                found = true;
            }
        }
        at
    }

    /// Registers `name` under the identifier `id`.
    ///
    /// Refused with `NameTaken` exactly when a connected user has the name,
    /// else with `IdInUse` exactly when an entry has the identifier; a
    /// refusal changes nothing. Otherwise the new user is entered at the
    /// place of its name and a copy of it returned.
    pub fn register_with_id(&mut self, name: &[u8], id: u128) -> (answer: Result<
        User,
        RegistryError,
    >)
        requires
            old(self).wf(),
        ensures
            final(self).wf(),
            final(self)@ == after_register(old(self)@, name@, id),
            answers(answer, register_answer(old(self)@, name@, id)),
    {
        proof {
            lemma_after_register_well_formed(self@, name@, id);
        }
        if self.contains_name(name) {
            return Err(RegistryError::NameTaken);
        }
        if self.position_of_id(id).is_some() {
            return Err(RegistryError::IdInUse);
        }
        let stored = User { display_name: copy_range(name, 0, name.len()), id, online: true };
        let user = stored.duplicate();
        assert(name@.subrange(0, name@.len() as int) =~= name@);
        let at = self.slot_of(name);
        self.users.insert(at, stored);
        assert(self@ =~= old(self)@.insert(at as int, entry(name@, id)));
        Ok(user)
    }

    /// Registers `name` under a freshly drawn identifier: what
    /// [`Registry::register_with_id`] does with a random UUID.
    ///
    /// So the registration is refused with `NameTaken` exactly when a
    /// connected user has the name. Otherwise the new user is entered at the
    /// place of its name and a copy returned, unless the identifier drawn
    /// belongs to an entry, which is refused with `IdInUse`. A refusal
    /// changes nothing.
    pub fn register(&mut self, name: &[u8]) -> (answer: Result<User, RegistryError>)
        requires
            old(self).wf(),
        ensures
            final(self).wf(),
            exists|id: u128|
                #[trigger] is_random_uuid(id) && answers(
                    answer,
                    register_answer(old(self)@, name@, id),
                ) && final(self)@ == after_register(old(self)@, name@, id),
    {
        let id = fresh_id();
        self.register_with_id(name, id)
    }

    /// Takes out the entry with the id and returns it, marked offline;
    /// `None`, and nothing changed, where no entry has the id.
    pub fn unregister(&mut self, id: u128) -> (gone: Option<User>)
        requires
            old(self).wf(),
        ensures
            final(self).wf(),
            final(self)@ == without_id(old(self)@, id),
            gone is Some <==> has_id(old(self)@, id),
            match gone {
                Some(user) => exists|i: int|
                    0 <= i < old(self)@.len() && #[trigger] old(self)@[i].id == id && user@ == (
                    UserView { online: false, ..old(self)@[i] }),
                None => true,
            },
    {
        proof {
            lemma_without_id_well_formed(self@, id);
        }
        match self.position_of_id(id) {
            Some(at) => {
                proof {
                    lemma_without_present_id(self@, id, at as int);
                }
                let mut user = self.users.remove(at);
                assert(self@ =~= old(self)@.remove(at as int));
                assert(user@ == old(self)@[at as int]);
                user.online = false;
                Some(user)
            },
            None => {
                proof {
                    lemma_without_absent_id(self@, id);
                }
                None
            },
        }
    }

    /// A copy of the entries at this moment, in the order of their names.
    pub fn snapshot(&self) -> (users: Vec<User>)
        ensures
            users@.len() == self@.len(),
            forall|i: int| 0 <= i < users@.len() ==> #[trigger] users@[i]@ == self@[i],
    {
        let mut out: Vec<User> = Vec::new();
        let mut i: usize = 0;
        while i < self.users.len()
            invariant
                i <= self.users@.len(),
                out@.len() == i,
                forall|k: int| 0 <= k < i ==> #[trigger] out@[k]@ == self@[k],
            decreases self.users@.len() - i,
        {
            out.push(self.users[i].duplicate());
            i += 1;
        }
        out
    }
}

} // verus!
