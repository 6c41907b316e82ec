use vstd::prelude::*;

verus! {

/// One occupant of a room: an opaque identity and the nickname shown for it.
pub struct Member {
    pub identity: u64,
    pub nickname: String,
}

/// A room: its members in the order in which they joined, and the capacity
/// it was created with. Capacity is recorded but not enforced.
pub struct Room {
    members: Vec<Member>,
    capacity: u64,
}

/// The contents of a sequence of strings.
pub open spec fn strings_view(v: Seq<String>) -> Seq<Seq<char>> {
    v.map_values(|s: String| s@)
}

impl Member {
    pub open spec fn view(&self) -> (u64, Seq<char>) {
        (self.identity, self.nickname@)
    }
}

impl Room {
    /// The members as (identity, nickname) pairs, in order of joining.
    pub closed spec fn members_view(&self) -> Seq<(u64, Seq<char>)> {
        self.members@.map_values(|m: Member| m.view())
    }

    pub closed spec fn capacity_view(&self) -> u64 {
        self.capacity
    }

    /// The identities of the members, in order of joining.
    pub open spec fn identities(&self) -> Seq<u64> {
        self.members_view().map_values(|p: (u64, Seq<char>)| p.0)
    }

    /// The roster: the nicknames of the members, in order of joining.
    pub open spec fn nicknames(&self) -> Seq<Seq<char>> {
        self.members_view().map_values(|p: (u64, Seq<char>)| p.1)
    }

    pub open spec fn contains(&self, user: u64) -> bool {
        self.identities().contains(user)
    }

    /// No identity occurs twice among the members.
    pub open spec fn wf(&self) -> bool {
        self.identities().no_duplicates()
    }

    /// A room whose only member is its creator.
    pub fn new(capacity: u64, creator: u64, nickname: String) -> (r: Room)
        ensures
            r.wf(),
            r.members_view() == seq![(creator, nickname@)],
            r.capacity_view() == capacity,
            forall|u: u64| r.contains(u) <==> u == creator,
    {
        let mut members: Vec<Member> = Vec::new();
        members.push(Member { identity: creator, nickname });
        let r = Room { members, capacity };
        assert(r.members_view() =~= seq![(creator, nickname@)]);
        assert(r.identities() =~= seq![creator]);
        assert(r.identities()[0] == creator);
        r
    }

    pub fn capacity(&self) -> (r: u64)
        ensures
            r == self.capacity_view(),
    {
        self.capacity
    }

    pub fn len(&self) -> (r: usize)
        ensures
            r == self.members_view().len(),
    {
        self.members.len()
    }

    pub fn has_member(&self, user: u64) -> (r: bool)
        ensures
            r == self.contains(user),
    {
        let mut i: usize = 0;
        while i < self.members.len()
            invariant
                0 <= i <= self.members@.len(),
                forall|j: int| 0 <= j < i ==> self.identities()[j] != user,
            decreases self.members@.len() - i,
        {
            if self.members[i].identity == user {
                assert(self.identities()[i as int] == user);
                return true;
            }
            i = i + 1;
        }
        false
    }

    /// Adds `user` unless it is a member already, in one step: the test and
    /// the insertion cannot be separated by another join. Returns whether it
    /// was added.
    pub fn try_add_member(&mut self, user: u64, nickname: String) -> (added: bool)
        requires
            old(self).wf(),
        ensures
            final(self).wf(),
            added == !old(self).contains(user),
            final(self).capacity_view() == old(self).capacity_view(),
            added ==> final(self).members_view() == old(self).members_view().push((user, nickname@)),
            !added ==> *final(self) == *old(self),
            forall|u: u64| final(self).contains(u) <==> (old(self).contains(u) || u == user),
    {
        if self.has_member(user) {
            return false;
        }
        self.members.push(Member { identity: user, nickname });
        assert(self.members_view() =~= old(self).members_view().push((user, nickname@)));
        assert(self.identities() =~= old(self).identities().push(user));
        assert forall|u: u64| self.contains(u) <==> (old(self).contains(u) || u == user) by {
            let a = old(self).identities();
            let b = self.identities();
            if b.contains(u) && u != user {
                let i = choose|i: int| 0 <= i < b.len() && b[i] == u;
                assert(a[i] == u);
            }
            if a.contains(u) {
                let i = choose|i: int| 0 <= i < a.len() && a[i] == u;
                assert(b[i] == u);
            }
            if u == user {
                assert(b[a.len() as int] == u);
            }
        }
        true
    }

    /// The nicknames of all members, in order of joining.
    pub fn roster(&self) -> (r: Vec<String>)
        ensures
            strings_view(r@) == self.nicknames(),
    {
        let mut r: Vec<String> = Vec::new();
        let mut i: usize = 0;
        while i < self.members.len()
            invariant
                0 <= i <= self.members@.len(),
                r@.map_values(|s: String| s@) == self.nicknames().take(i as int),
            decreases self.members@.len() - i,
        {
            let nick = self.members[i].nickname.clone();
            assert(self.nicknames().take(i as int + 1) =~= self.nicknames().take(i as int).push(nick@));
            r.push(nick);
            assert(r@.map_values(|s: String| s@) =~= self.nicknames().take(i as int + 1));
            i = i + 1;
        }
        assert(self.nicknames().take(i as int) =~= self.nicknames());
        r
    }
}

/// The roster of a well-formed room has one entry for each distinct member.
pub proof fn lemma_roster_counts_distinct_members(room: Room)
    requires
        room.wf(),
    ensures
        room.nicknames().len() == room.identities().to_set().len(),
{
    room.identities().unique_seq_to_set();
}

} // verus!
