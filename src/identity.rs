use vstd::prelude::*;

use crate::random::{random_in_range, random_u64};

verus! {

/// How many nicknames the pool holds.
pub const NAME_POOL_LEN: u64 = 12;

/// What a session holds under one key.
pub enum Stored<T> {
    Absent,
    Present(T),
    /// A value of the wrong shape.
    Malformed,
}

/// A user as a session knows it: an opaque identity and a display nickname.
pub struct Identity {
    pub user_id: u64,
    pub nickname: String,
}

/// The identity of a session, and whether it was made just now and must be
/// written back to the session.
pub struct Resolution {
    pub identity: Identity,
    pub is_new: bool,
}

/// A session holds one of identity and nickname without the other, or a
/// value of the wrong shape.
#[derive(Debug, Clone, Copy, PartialEq, Eq, Structural)]
pub enum SessionError {
    SessionCorrupt,
}

/// The nickname at position `i` of the pool.
pub open spec fn pool_name_spec(i: int) -> Seq<char> {
    if i == 0 {
        "Anonymous Aardvark"@
    } else if i == 1 {
        "Anonymous Badger"@
    } else if i == 2 {
        "Anonymous Capybara"@
    } else if i == 3 {
        "Anonymous Dolphin"@
    } else if i == 4 {
        "Anonymous Echidna"@
    } else if i == 5 {
        "Anonymous Ferret"@
    } else if i == 6 {
        "Anonymous Gecko"@
    } else if i == 7 {
        "Anonymous Heron"@
    } else if i == 8 {
        "Anonymous Ibex"@
    } else if i == 9 {
        "Anonymous Jackal"@
    } else if i == 10 {
        "Anonymous Koala"@
    } else {
        "Anonymous Lemur"@
    }
}

/// Whether `s` is one of the pool's nicknames.
pub open spec fn in_name_pool(s: Seq<char>) -> bool {
    exists|i: int| 0 <= i < NAME_POOL_LEN && pool_name_spec(i) == s
}

pub open spec fn stored_text(s: Stored<String>) -> Stored<Seq<char>> {
    match s {
        Stored::Absent => Stored::Absent,
        Stored::Present(t) => Stored::Present(t@),
        Stored::Malformed => Stored::Malformed,
    }
}

/// What resolving a session gives: the stored pair when both are there, the
/// fresh pair (to be stored) when neither is, and `SessionCorrupt` otherwise.
pub open spec fn resolution_spec(
    id: Stored<u64>,
    nick: Stored<Seq<char>>,
    fresh_id: u64,
    fresh_nick: Seq<char>,
) -> Result<(u64, Seq<char>, bool), SessionError> {
    match (id, nick) {
        (Stored::Present(i), Stored::Present(n)) => Ok((i, n, false)),
        (Stored::Absent, Stored::Absent) => Ok((fresh_id, fresh_nick, true)),
        _ => Err(SessionError::SessionCorrupt),
    }
}

impl Resolution {
    pub open spec fn view(&self) -> (u64, Seq<char>, bool) {
        (self.identity.user_id, self.identity.nickname@, self.is_new)
    }
}

/// The nickname at position `i` of the pool.
pub fn pool_name(i: u64) -> (r: String)
    requires
        i < NAME_POOL_LEN,
    ensures
        r@ == pool_name_spec(i as int),
{
    let s: &str = if i == 0 {
        "Anonymous Aardvark"
    } else if i == 1 {
        "Anonymous Badger"
    } else if i == 2 {
        "Anonymous Capybara"
    } else if i == 3 {
        "Anonymous Dolphin"
    } else if i == 4 {
        "Anonymous Echidna"
    } else if i == 5 {
        "Anonymous Ferret"
    } else if i == 6 {
        "Anonymous Gecko"
    } else if i == 7 {
        "Anonymous Heron"
    } else if i == 8 {
        "Anonymous Ibex"
    } else if i == 9 {
        "Anonymous Jackal"
    } else if i == 10 {
        "Anonymous Koala"
    } else {
        "Anonymous Lemur"
    };
    s.to_string()
}

/// Resolves a session's identity from what it stores, taking `fresh_id` and
/// `fresh_nick` as the new identity where the session holds none.
pub fn resolve_with(id: Stored<u64>, nick: Stored<String>, fresh_id: u64, fresh_nick: String) -> (r:
    Result<Resolution, SessionError>)
    ensures
        r is Ok <==> resolution_spec(id, stored_text(nick), fresh_id, fresh_nick@) is Ok,
        r matches Ok(res) ==> resolution_spec(id, stored_text(nick), fresh_id, fresh_nick@) == Ok::<
            (u64, Seq<char>, bool),
            SessionError,
        >(res.view()),
        r matches Err(e) ==> resolution_spec(id, stored_text(nick), fresh_id, fresh_nick@) == Err::<
            (u64, Seq<char>, bool),
            SessionError,
        >(e),
{
    match (id, nick) {
        (Stored::Present(i), Stored::Present(n)) => Ok(
            Resolution { identity: Identity { user_id: i, nickname: n }, is_new: false },
        ),
        (Stored::Absent, Stored::Absent) => Ok(
            Resolution { identity: Identity { user_id: fresh_id, nickname: fresh_nick }, is_new: true },
        ),
        _ => Err(SessionError::SessionCorrupt),
    }
}

/// Resolves a session's identity. Where the session holds neither value, a
/// random identity and a nickname drawn from the pool are returned, marked
/// as new so that the caller stores them.
pub fn resolve_identity(id: Stored<u64>, nick: Stored<String>) -> (r: Result<Resolution, SessionError>)
    ensures
        r is Ok <==> resolution_spec(id, stored_text(nick), 0, Seq::empty()) is Ok,
        r matches Err(e) ==> e == SessionError::SessionCorrupt,
        (id, nick) matches (Stored::Present(i), Stored::Present(n)) ==> r matches Ok(res) && res.view()
            == (i, n@, false),
        (id, nick) matches (Stored::Absent, Stored::Absent) ==> r matches Ok(res) && res.is_new
            && in_name_pool(res.identity.nickname@),
{
    if matches!(id, Stored::Absent) && matches!(nick, Stored::Absent) {
        let fresh_id = random_u64();
        let k = random_in_range(0, NAME_POOL_LEN);
        let fresh_nick = pool_name(k);
        resolve_with(id, nick, fresh_id, fresh_nick)
    } else {
        // Neither fresh value is read when the session holds something.
        resolve_with(id, nick, 0, String::new())
    }
}

/// Resolving is idempotent: once a resolution's identity is stored in the
/// session, resolving again gives the same identity, marked as not new,
/// whatever fresh values are offered; and resolving a session that holds
/// both values twice gives the same result both times.
pub proof fn lemma_resolve_idempotent(
    id: Stored<u64>,
    nick: Stored<Seq<char>>,
    fresh_id: u64,
    fresh_nick: Seq<char>,
    other_id: u64,
    other_nick: Seq<char>,
)
    requires
        resolution_spec(id, nick, fresh_id, fresh_nick) is Ok,
    ensures
        ({
            let (i, n, w) = resolution_spec(id, nick, fresh_id, fresh_nick)->Ok_0;
            &&& resolution_spec(Stored::Present(i), Stored::Present(n), other_id, other_nick) == Ok::<
                (u64, Seq<char>, bool),
                SessionError,
            >((i, n, false))
            &&& !w ==> resolution_spec(id, nick, other_id, other_nick) == resolution_spec(
                id,
                nick,
                fresh_id,
                fresh_nick,
            )
        }),
{
}

} // verus!
