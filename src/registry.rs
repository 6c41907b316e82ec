use std::collections::HashMap;
use vstd::prelude::*;
use vstd::set_lib::{lemma_int_range, lemma_len_subset, lemma_map_size, set_int_range};

use crate::random::random_in_range;
use crate::room::{strings_view, Room};

verus! {

broadcast use vstd::std_specs::hash::group_hash_axioms;

/// Room ids are drawn from `[0, ROOM_ID_SPACE)`.
pub const ROOM_ID_SPACE: u64 = 1000000;

/// How many random candidates are drawn before the ids are scanned in order.
pub const RANDOM_ATTEMPTS: u64 = 32;

/// Why a room operation did not go through.
#[derive(Debug, Clone, Copy, PartialEq, Eq, Structural)]
pub enum RoomError {
    /// No room has this id.
    NotFound,
    /// The room exists but the user is not a member of it.
    MustJoinFirst,
    /// The user is a member of the room already.
    AlreadyMember,
}

/// The directory of all live rooms, keyed by room id.
pub struct Registry {
    rooms: HashMap<u64, Room>,
}

/// What viewing room `id` as `user` gives in the state `rooms`.
pub open spec fn view_outcome(rooms: Map<u64, Room>, id: u64, user: u64) -> Result<
    Seq<Seq<char>>,
    RoomError,
> {
    if !rooms.contains_key(id) {
        Err(RoomError::NotFound)
    } else if !rooms[id].contains(user) {
        Err(RoomError::MustJoinFirst)
    } else {
        Ok(rooms[id].nicknames())
    }
}

/// What joining room `id` as `user` gives in the state `rooms`.
pub open spec fn join_outcome(rooms: Map<u64, Room>, id: u64, user: u64) -> Result<(), RoomError> {
    if !rooms.contains_key(id) {
        Err(RoomError::NotFound)
    } else if rooms[id].contains(user) {
        Err(RoomError::AlreadyMember)
    } else {
        Ok(())
    }
}

/// `after` is `before` with room `id` added, whose only member is `creator`.
pub open spec fn created(
    before: Map<u64, Room>,
    after: Map<u64, Room>,
    id: u64,
    capacity: u64,
    creator: u64,
    nickname: Seq<char>,
) -> bool {
    &&& !before.contains_key(id)
    &&& id < ROOM_ID_SPACE
    &&& after.dom() == before.dom().insert(id)
    &&& forall|k: u64| k != id && before.contains_key(k) ==> after[k] == before[k]
    &&& after[id].members_view() == seq![(creator, nickname)]
    &&& after[id].capacity_view() == capacity
    &&& forall|u: u64| after[id].contains(u) <==> u == creator
}

/// `after` is `before` after `user` joined room `id` with `nickname`.
pub open spec fn joined(
    before: Map<u64, Room>,
    after: Map<u64, Room>,
    id: u64,
    user: u64,
    nickname: Seq<char>,
) -> bool {
    &&& after.dom() == before.dom()
    &&& forall|k: u64| k != id && before.contains_key(k) ==> after[k] == before[k]
    &&& after[id].members_view() == before[id].members_view().push((user, nickname))
    &&& after[id].capacity_view() == before[id].capacity_view()
    &&& forall|u: u64| after[id].contains(u) <==> (before[id].contains(u) || u == user)
}

impl Registry {
    pub closed spec fn rooms_view(&self) -> Map<u64, Room> {
        self.rooms@
    }

    /// Every room is well formed and every id lies in the id space.
    pub open spec fn wf(&self) -> bool {
        &&& forall|k: u64| #[trigger] self.rooms_view().contains_key(k) ==> k < ROOM_ID_SPACE
        &&& forall|k: u64| #[trigger] self.rooms_view().contains_key(k) ==> self.rooms_view()[k].wf()
    }

    pub fn new() -> (r: Registry)
        ensures
            r.wf(),
            r.rooms_view() == Map::<u64, Room>::empty(),
    {
        Registry { rooms: HashMap::new() }
    }

    pub fn len(&self) -> (r: usize)
        ensures
            r == self.rooms_view().len(),
    {
        self.rooms.len()
    }

    pub fn contains_room(&self, id: u64) -> (r: bool)
        ensures
            r == self.rooms_view().contains_key(id),
    {
        self.rooms.contains_key(&id)
    }

    /// The room with this id, if there is one.
    pub fn get(&self, id: u64) -> (r: Option<&Room>)
        ensures
            r is Some <==> self.rooms_view().contains_key(id),
            r matches Some(room) ==> *room == self.rooms_view()[id],
    {
        self.rooms.get(&id)
    }

    /// Whether room `id` exists and has `user` among its members.
    pub fn contains_member(&self, id: u64, user: u64) -> (r: bool)
        ensures
            r == (self.rooms_view().contains_key(id) && self.rooms_view()[id].contains(user)),
    {
        match self.rooms.get(&id) {
            Some(room) => room.has_member(user),
            None => false,
        }
    }

    /// Creates a room at `id` with `creator` as its only member, unless `id`
    /// is outside the id space or taken. Returns whether the room was created.
    pub fn create_room_at(&mut self, id: u64, capacity: u64, creator: u64, nickname: String) -> (r:
        bool)
        requires
            old(self).wf(),
        ensures
            final(self).wf(),
            r == (id < ROOM_ID_SPACE && !old(self).rooms_view().contains_key(id)),
            r ==> created(
                old(self).rooms_view(),
                final(self).rooms_view(),
                id,
                capacity,
                creator,
                nickname@,
            ),
            !r ==> final(self).rooms_view() == old(self).rooms_view(),
    {
        if id >= ROOM_ID_SPACE || self.rooms.contains_key(&id) {
            return false;
        }
        let room = Room::new(capacity, creator, nickname);
        self.rooms.insert(id, room);
        assert forall|k: u64| #[trigger] self.rooms_view().contains_key(k) implies k < ROOM_ID_SPACE
            && self.rooms_view()[k].wf() by {
            if k != id {
                assert(old(self).rooms_view().contains_key(k));
            }
        }
        true
    }

    /// Creates a room with `creator` as its only member at a fresh id, and
    /// returns that id. Ids are first drawn at random; if every draw is
    /// taken, the id space is scanned in order, so this ends and fails only
    /// when every id is in use.
    pub fn create_room(&mut self, capacity: u64, creator: u64, nickname: String) -> (r: Option<u64>)
        requires
            old(self).wf(),
        ensures
            final(self).wf(),
            r is Some <==> old(self).rooms_view().len() < ROOM_ID_SPACE,
            r matches Some(id) ==> created(
                old(self).rooms_view(),
                final(self).rooms_view(),
                id,
                capacity,
                creator,
                nickname@,
            ),
            r is None ==> final(self).rooms_view() == old(self).rooms_view(),
    {
        let mut attempt: u64 = 0;
        while attempt < RANDOM_ATTEMPTS
            invariant
                self.wf(),
                self.rooms_view() == old(self).rooms_view(),
            decreases RANDOM_ATTEMPTS - attempt,
        {
            let candidate = random_in_range(0, ROOM_ID_SPACE);
            if !self.rooms.contains_key(&candidate) {
                proof { self.lemma_not_full(); }
                self.create_room_at(candidate, capacity, creator, nickname);
                return Some(candidate);
            }
            attempt = attempt + 1;
        }
        match self.first_free_id() {
            Some(id) => {
                self.create_room_at(id, capacity, creator, nickname);
                Some(id)
            },
            None => None,
        }
    }

    /// The roster of room `id` as seen by `user`: `NotFound` when there is no
    /// such room, `MustJoinFirst` when `user` is not a member.
    pub fn view_room(&self, id: u64, user: u64) -> (r: Result<Vec<String>, RoomError>)
        ensures
            r is Ok <==> view_outcome(self.rooms_view(), id, user) is Ok,
            r matches Ok(v) ==> view_outcome(self.rooms_view(), id, user) == Ok::<
                Seq<Seq<char>>,
                RoomError,
            >(strings_view(v@)),
            r matches Ok(v) ==> v@.len() == self.rooms_view()[id].members_view().len(),
            r matches Err(e) ==> view_outcome(self.rooms_view(), id, user) == Err::<
                Seq<Seq<char>>,
                RoomError,
            >(e),
    {
        match self.rooms.get(&id) {
            None => Err(RoomError::NotFound),
            Some(room) => {
                if room.has_member(user) {
                    let roster = room.roster();
                    assert(strings_view(roster@).len() == roster@.len());
                    Ok(roster)
                } else {
                    Err(RoomError::MustJoinFirst)
                }
            },
        }
    }

    /// Adds `user` with `nickname` to room `id`, testing and inserting in one
    /// step: `NotFound` when there is no such room, `AlreadyMember` when
    /// `user` is in it already. Capacity is not checked.
    pub fn join_room(&mut self, id: u64, user: u64, nickname: String) -> (r: Result<(), RoomError>)
        requires
            old(self).wf(),
        ensures
            final(self).wf(),
            r == join_outcome(old(self).rooms_view(), id, user),
            r is Ok ==> joined(old(self).rooms_view(), final(self).rooms_view(), id, user, nickname@),
            r is Err ==> final(self).rooms_view() == old(self).rooms_view(),
    {
        match self.rooms.remove(&id) {
            None => Err(RoomError::NotFound),
            Some(mut room) => {
                assert(old(self).rooms_view().contains_key(id));
                let added = room.try_add_member(user, nickname);
                self.rooms.insert(id, room);
                assert forall|k: u64| #[trigger] self.rooms_view().contains_key(k) implies k
                    < ROOM_ID_SPACE && self.rooms_view()[k].wf() by {
                    assert(old(self).rooms_view().contains_key(k));
                }
                if added {
                    Ok(())
                } else {
                    assert(self.rooms_view() =~= old(self).rooms_view());
                    Err(RoomError::AlreadyMember)
                }
            },
        }
    }

    /// A room id not in use, found by scanning the id space in order; `None`
    /// when every id is taken.
    fn first_free_id(&self) -> (r: Option<u64>)
        requires
            self.wf(),
        ensures
            r is Some <==> self.rooms_view().len() < ROOM_ID_SPACE,
            r matches Some(id) ==> id < ROOM_ID_SPACE && !self.rooms_view().contains_key(id),
    {
        let mut i: u64 = 0;
        while i < ROOM_ID_SPACE
            invariant
                i <= ROOM_ID_SPACE,
                self.wf(),
                forall|k: u64| k < i ==> #[trigger] self.rooms_view().contains_key(k),
            decreases ROOM_ID_SPACE - i,
        {
            if !self.rooms.contains_key(&i) {
                proof { self.lemma_not_full(); }
                return Some(i);
            }
            i = i + 1;
        }
        proof { self.lemma_full(); }
        None
    }

    /// A registry with a free id in the id space has fewer rooms than ids.
    proof fn lemma_not_full(&self)
        requires
            self.wf(),
        ensures
            self.rooms_view().len() <= ROOM_ID_SPACE,
            (exists|k: u64| k < ROOM_ID_SPACE && !self.rooms_view().contains_key(k))
                ==> self.rooms_view().len() < ROOM_ID_SPACE,
    {
        let dom = self.rooms_view().dom();
        let f = |k: u64| k as int;
        let ints = dom.map(f);
        lemma_map_size(dom, ints, f);
        lemma_int_range(0, ROOM_ID_SPACE as int);
        assert(ints.subset_of(set_int_range(0, ROOM_ID_SPACE as int))) by {
            assert forall|x: int| ints.contains(x) implies 0 <= x < ROOM_ID_SPACE by {
                let k = choose|k: u64| dom.contains(k) && f(k) == x;
            }
        }
        lemma_len_subset(ints, set_int_range(0, ROOM_ID_SPACE as int));
        if exists|k: u64| k < ROOM_ID_SPACE && !self.rooms_view().contains_key(k) {
            let k = choose|k: u64| k < ROOM_ID_SPACE && !self.rooms_view().contains_key(k);
            let big = set_int_range(0, ROOM_ID_SPACE as int);
            assert(ints.subset_of(big.remove(k as int))) by {
                assert forall|x: int| ints.contains(x) implies big.remove(k as int).contains(x) by {
                    let j = choose|j: u64| dom.contains(j) && f(j) == x;
                }
            }
            lemma_len_subset(ints, big.remove(k as int));
        }
    }

    /// A registry that holds every id of the id space has as many rooms.
    proof fn lemma_full(&self)
        requires
            self.wf(),
            forall|k: u64| k < ROOM_ID_SPACE ==> #[trigger] self.rooms_view().contains_key(k),
        ensures
            self.rooms_view().len() >= ROOM_ID_SPACE,
    {
        let dom = self.rooms_view().dom();
        let f = |k: u64| k as int;
        let ints = dom.map(f);
        lemma_map_size(dom, ints, f);
        lemma_int_range(0, ROOM_ID_SPACE as int);
        assert(set_int_range(0, ROOM_ID_SPACE as int).subset_of(ints)) by {
            assert forall|x: int| set_int_range(0, ROOM_ID_SPACE as int).contains(x) implies ints.contains(x) by {
                assert(dom.contains(x as u64) && f(x as u64) == x);
            }
        }
        lemma_len_subset(set_int_range(0, ROOM_ID_SPACE as int), ints);
    }
}

/// Room ids handed out by successive creations are pairwise distinct: an id
/// created into a state is absent from it, present afterwards, and no
/// operation removes a room.
pub proof fn lemma_created_ids_distinct(
    s0: Map<u64, Room>,
    s1: Map<u64, Room>,
    s2: Map<u64, Room>,
    s3: Map<u64, Room>,
    id1: u64,
    cap1: u64,
    user1: u64,
    nick1: Seq<char>,
    id2: u64,
    cap2: u64,
    user2: u64,
    nick2: Seq<char>,
)
    requires
        created(s0, s1, id1, cap1, user1, nick1),
        s1.dom().subset_of(s2.dom()),
        created(s2, s3, id2, cap2, user2, nick2),
    ensures
        id1 != id2,
{
    assert(s1.dom().contains(id1));
}

/// Once a join has succeeded, viewing the room as the same user is not
/// refused with `MustJoinFirst`: it gives the roster.
pub proof fn lemma_view_after_join(
    s0: Map<u64, Room>,
    s1: Map<u64, Room>,
    id: u64,
    user: u64,
    nickname: Seq<char>,
)
    requires
        join_outcome(s0, id, user) is Ok,
        joined(s0, s1, id, user, nickname),
    ensures
        view_outcome(s1, id, user) is Ok,
        view_outcome(s1, id, user) != Err::<Seq<Seq<char>>, RoomError>(RoomError::MustJoinFirst),
{
    assert(s1[id].identities().last() == user);
    assert(s1[id].identities()[s1[id].identities().len() - 1] == user);
}

/// Joining twice with the same user: the first join succeeds where the user
/// is not yet a member, and the second gives `AlreadyMember`.
pub proof fn lemma_join_twice(
    s0: Map<u64, Room>,
    s1: Map<u64, Room>,
    id: u64,
    user: u64,
    nickname: Seq<char>,
)
    requires
        s0.contains_key(id),
        !s0[id].contains(user),
        joined(s0, s1, id, user, nickname),
    ensures
        join_outcome(s0, id, user) == Ok::<(), RoomError>(()),
        join_outcome(s1, id, user) == Err::<(), RoomError>(RoomError::AlreadyMember),
{
    assert(s1[id].identities()[s1[id].identities().len() - 1] == user);
}

/// Viewing an id that no creation produced gives `NotFound`: a registry
/// starts empty, a creation adds only the id it returns, and a join adds
/// no room.
pub proof fn lemma_view_unknown_id(
    s0: Map<u64, Room>,
    s1: Map<u64, Room>,
    s2: Map<u64, Room>,
    created_id: u64,
    cap: u64,
    creator: u64,
    nick: Seq<char>,
    room: u64,
    joiner: u64,
    joiner_nick: Seq<char>,
    id: u64,
    user: u64,
)
    requires
        id != created_id,
        !s0.contains_key(id),
        created(s0, s1, created_id, cap, creator, nick),
        joined(s1, s2, room, joiner, joiner_nick),
    ensures
        view_outcome(Map::<u64, Room>::empty(), id, user) == Err::<Seq<Seq<char>>, RoomError>(
            RoomError::NotFound,
        ),
        view_outcome(s1, id, user) == Err::<Seq<Seq<char>>, RoomError>(RoomError::NotFound),
        view_outcome(s2, id, user) == Err::<Seq<Seq<char>>, RoomError>(RoomError::NotFound),
{
    assert(!s1.dom().contains(id));
}

/// The roster that a view gives has one entry for each distinct member, and
/// a successful join adds exactly one member, so no join is lost.
pub proof fn lemma_roster_size(
    s0: Map<u64, Room>,
    s1: Map<u64, Room>,
    id: u64,
    user: u64,
    nickname: Seq<char>,
)
    requires
        s0.contains_key(id),
        s0[id].wf(),
        join_outcome(s0, id, user) is Ok,
        joined(s0, s1, id, user, nickname),
    ensures
        s1[id].wf(),
        s1[id].identities().to_set() == s0[id].identities().to_set().insert(user),
        s1[id].nicknames().len() == s1[id].identities().to_set().len(),
        s1[id].identities().to_set().len() == s0[id].identities().to_set().len() + 1,
{
    let a = s0[id].identities();
    let b = s1[id].identities();
    assert(b =~= a.push(user));
    assert(b.to_set() =~= a.to_set().insert(user)) by {
        assert forall|x: u64| b.to_set().contains(x) <==> a.to_set().insert(user).contains(x) by {
            if b.contains(x) && x != user {
                let i = choose|i: int| 0 <= i < b.len() && b[i] == x;
                assert(a[i] == x);
            }
            if a.contains(x) {
                let i = choose|i: int| 0 <= i < a.len() && a[i] == x;
                assert(b[i] == x);
            }
            if x == user {
                assert(b[a.len() as int] == x);
            }
        }
    }
    assert(b.no_duplicates()) by {
        assert forall|i: int, j: int| 0 <= i < b.len() && 0 <= j < b.len() && i != j implies b[i]
            != b[j] by {
            if i == a.len() as int && j < a.len() {
                assert(a.contains(a[j]));
            } else if j == a.len() as int && i < a.len() {
                assert(a.contains(a[i]));
            }
        }
    }
    a.unique_seq_to_set();
    b.unique_seq_to_set();
}

} // verus!
