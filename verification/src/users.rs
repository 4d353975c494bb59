//! The table of connected users that every session of one server shares.
//!
//! A user is known by a 128-bit identifier and holds the last position it
//! reported. The table keeps the users in the order in which they first
//! appeared and never holds one identifier twice.

use crate::message::Coord;
use vstd::prelude::*;

verus! {

/// One connected user.
#[derive(Clone, Copy, Debug, PartialEq, Eq, Structural)]
pub struct User {
    pub id: u128,
    pub coord: Coord,
}

/// Whether some entry of `users` has the identifier `id`.
pub open spec fn has_user(users: Seq<User>, id: u128) -> bool {
    exists|i: int| 0 <= i < users.len() && (#[trigger] users[i]).id == id
}

/// No identifier occurs in two entries.
pub open spec fn distinct_ids(users: Seq<User>) -> bool {
    forall|i: int, j: int|
        0 <= i < j < users.len() ==> (#[trigger] users[i]).id != (#[trigger] users[j]).id
}

/// Index of an entry with the identifier `id`; meaningful when there is one.
pub open spec fn position_of(users: Seq<User>, id: u128) -> int {
    choose|i: int| 0 <= i < users.len() && (#[trigger] users[i]).id == id
}

/// The position recorded for `id`, if the table knows it.
pub open spec fn coordinate_in(users: Seq<User>, id: u128) -> Option<Coord> {
    if has_user(users, id) {
        Some(users[position_of(users, id)].coord)
    } else {
        None
    }
}

/// The table after `id` reported `coord`: its entry is overwritten in place,
/// or a new entry is added at the end.
pub open spec fn placed(users: Seq<User>, id: u128, coord: Coord) -> Seq<User> {
    if has_user(users, id) {
        users.update(position_of(users, id), User { id, coord })
    } else {
        users.push(User { id, coord })
    }
}

/// The table without the entry of `id`; the others keep their order.
pub open spec fn released(users: Seq<User>, id: u128) -> Seq<User> {
    if has_user(users, id) {
        users.remove(position_of(users, id))
    } else {
        users
    }
}

/// In a table without repeats the entry of an identifier is at one index only.
pub proof fn position_is_unique(users: Seq<User>, id: u128, i: int)
    requires
        distinct_ids(users),
        0 <= i < users.len(),
        users[i].id == id,
    ensures
        has_user(users, id),
        position_of(users, id) == i,
{
    let p = position_of(users, id);
    if p < i {
        assert(users[p].id != users[i].id);
    } else if i < p {
        assert(users[i].id != users[p].id);
    }
}

/// Recording a position keeps the table free of repeats, makes that position
/// the one found for the identifier, and changes no other user's.
pub proof fn placed_properties(users: Seq<User>, id: u128, coord: Coord, other: u128)
    requires
        distinct_ids(users),
    ensures
        distinct_ids(placed(users, id, coord)),
        coordinate_in(placed(users, id, coord), id) == Some(coord),
        other != id ==> coordinate_in(placed(users, id, coord), other)
            == coordinate_in(users, other),
        has_user(users, id) ==> placed(users, id, coord).len() == users.len(),
        !has_user(users, id) ==> placed(users, id, coord).len() == users.len() + 1,
{
    let after = placed(users, id, coord);
    let at = if has_user(users, id) {
        position_of(users, id)
    } else {
        users.len() as int
    };
    assert(after[at] == User { id, coord });
    assert forall|i: int| 0 <= i < after.len() && i != at implies
        #[trigger] after[i] == users[i] && users[i].id != id
    by {
        if users[i].id == id {
            position_is_unique(users, id, i);
        }
    }
    assert(distinct_ids(after)) by {
        assert forall|i: int, j: int| 0 <= i < j < after.len() implies
            (#[trigger] after[i]).id != (#[trigger] after[j]).id
        by {
            if i != at && j != at {
                assert(users[i].id != users[j].id);
            }
        }
    }
    position_is_unique(after, id, at);
    if other != id {
        if has_user(users, other) {
            let q = position_of(users, other);
            assert(after[q] == users[q]);
            position_is_unique(after, other, q);
        } else if has_user(after, other) {
            let q = position_of(after, other);
            assert(users[q].id == other);
        }
    }
}

/// Releasing a user keeps the table free of repeats, forgets that user, and
/// changes no other user's position.
pub proof fn released_properties(users: Seq<User>, id: u128, other: u128)
    requires
        distinct_ids(users),
    ensures
        distinct_ids(released(users, id)),
        !has_user(released(users, id), id),
        other != id ==> coordinate_in(released(users, id), other) == coordinate_in(users, other),
        has_user(users, id) ==> released(users, id).len() == users.len() - 1,
{
    let after = released(users, id);
    if has_user(users, id) {
        let at = position_of(users, id);
        assert forall|i: int| 0 <= i < after.len() implies
            #[trigger] after[i] == users[if i < at { i } else { i + 1 }]
        by {}
        assert(distinct_ids(after)) by {
            assert forall|i: int, j: int| 0 <= i < j < after.len() implies
                (#[trigger] after[i]).id != (#[trigger] after[j]).id
            by {
                let oi = if i < at { i } else { i + 1 };
                let oj = if j < at { j } else { j + 1 };
                assert(users[oi].id != users[oj].id);
            }
        }
        if has_user(after, id) {
            let q = position_of(after, id);
            let oq = if q < at { q } else { q + 1 };
            assert(users[oq].id == id);
            position_is_unique(users, id, oq);
        }
        if other != id {
            if has_user(users, other) {
                let q = position_of(users, other);
                let nq = if q < at { q } else { q - 1 };
                assert(after[nq] == users[q]);
                position_is_unique(after, other, nq);
            } else if has_user(after, other) {
                let q = position_of(after, other);
                let oq = if q < at { q } else { q + 1 };
                assert(users[oq].id == other);
            }
        }
    }
}

/// The users of one server.
#[derive(Debug)]
pub struct ServerState {
    users: Vec<User>,
}

impl View for ServerState {
    type V = Seq<User>;

    closed spec fn view(&self) -> Seq<User> {
        self.users@
    }
}

impl ServerState {
    /// Holds of every table: no identifier is held twice.
    #[verifier::type_invariant]
    pub open spec fn no_repeats(self) -> bool {
        distinct_ids(self@)
    }

    /// A table without users.
    pub fn new() -> (state: ServerState)
        ensures
            state@ == Seq::<User>::empty(),
    {
        ServerState { users: Vec::new() }
    }

    /// Number of users.
    pub fn len(&self) -> (n: usize)
        ensures
            n == self@.len(),
    {
        self.users.len()
    }

    /// The users in order of first appearance. No identifier occurs twice.
    pub fn snapshot(&self) -> (all: Vec<User>)
        ensures
            all@ == self@,
            distinct_ids(all@),
    {
        proof {
            use_type_invariant(self);
        }
        self.users.clone()
    }

    fn find(&self, id: u128) -> (at: Option<usize>)
        ensures
            at is Some <==> has_user(self@, id),
            at matches Some(i) ==> i < self@.len() && i == position_of(self@, id),
    {
        proof {
            use_type_invariant(self);
        }
        let mut i: usize = 0;
        while i < self.users.len()
            invariant
                i <= self.users.len(),
                distinct_ids(self.users@),
                forall|k: int| 0 <= k < i ==> (#[trigger] self.users@[k]).id != id,
            decreases self.users.len() - i,
        {
            if self.users[i].id == id {
                proof {
                    position_is_unique(self.users@, id, i as int);
                }
                return Some(i);
            }
            i += 1;
        }
        None
    }

    /// The position that `id` last reported.
    pub fn coordinate_of(&self, id: u128) -> (found: Option<Coord>)
        ensures
            found == coordinate_in(self@, id),
    {
        match self.find(id) {
            Some(i) => Some(self.users[i].coord),
            None => None,
        }
    }

    /// Records that `id` is at `coord`, adding the user if it is new.
    pub fn place(&mut self, id: u128, coord: Coord)
        ensures
            final(self)@ == placed(old(self)@, id, coord),
            distinct_ids(final(self)@),
    {
        proof {
            use_type_invariant(&*self);
            placed_properties(self@, id, coord, id);
        }
        let at = self.find(id);
        let mut list: Vec<User> = Vec::new();
        core::mem::swap(&mut self.users, &mut list);
        match at {
            Some(i) => {
                list.set(i, User { id, coord });
            },
            None => {
                list.push(User { id, coord });
            },
        }
        self.users = list;
    }

    /// Forgets `id`. Returns whether the table held it.
    pub fn release(&mut self, id: u128) -> (held: bool)
        ensures
            final(self)@ == released(old(self)@, id),
            held == has_user(old(self)@, id),
            distinct_ids(final(self)@),
    {
        proof {
            use_type_invariant(&*self);
            released_properties(self@, id, id);
        }
        match self.find(id) {
            Some(i) => {
                let mut list: Vec<User> = Vec::new();
                core::mem::swap(&mut self.users, &mut list);
                list.remove(i);
                self.users = list;
                true
            },
            None => false,
        }
    }
}

} // verus!
