use rooms::identity::{
    pool_name, resolve_identity, resolve_with, SessionError, Stored, NAME_POOL_LEN,
};
use rooms::registry::{Registry, RoomError, ROOM_ID_SPACE};
use rooms::room::Room;

fn nick(s: &str) -> String {
    s.to_string()
}

#[test]
fn scenario_create_view_join() {
    let mut reg = Registry::new();
    let (a, b, c) = (1u64, 2u64, 3u64);
    let r = reg.create_room(2, a, nick("Alice")).unwrap();
    assert_eq!(reg.view_room(r, a), Ok(vec![nick("Alice")]));
    assert_eq!(reg.join_room(r, b, nick("Bob")), Ok(()));
    let roster = reg.view_room(r, b).unwrap();
    assert_eq!(roster.len(), 2);
    assert!(roster.contains(&nick("Alice")));
    assert!(roster.contains(&nick("Bob")));
    assert_eq!(reg.join_room(r, b, nick("Bob")), Err(RoomError::AlreadyMember));
    assert_eq!(reg.view_room(r, c), Err(RoomError::MustJoinFirst));
    if r != 999999 {
        assert_eq!(reg.view_room(999999, a), Err(RoomError::NotFound));
    }
}

#[test]
fn created_ids_are_distinct_and_in_range() {
    let mut reg = Registry::new();
    let mut ids: Vec<u64> = Vec::new();
    for user in 0..500u64 {
        let id = reg.create_room(4, user, nick("X")).unwrap();
        assert!(id < ROOM_ID_SPACE);
        assert!(!ids.contains(&id));
        ids.push(id);
    }
    assert_eq!(reg.len(), 500);
    for (user, id) in ids.iter().enumerate() {
        assert!(reg.contains_member(*id, user as u64));
    }
}

#[test]
fn create_room_at_refuses_taken_and_out_of_range_ids() {
    let mut reg = Registry::new();
    assert!(reg.create_room_at(7, 3, 1, nick("A")));
    assert!(!reg.create_room_at(7, 5, 2, nick("B")));
    assert!(!reg.create_room_at(ROOM_ID_SPACE, 5, 2, nick("B")));
    assert_eq!(reg.len(), 1);
    assert_eq!(reg.view_room(7, 1), Ok(vec![nick("A")]));
    assert_eq!(reg.view_room(7, 2), Err(RoomError::MustJoinFirst));
}

#[test]
fn join_then_view_is_not_refused() {
    let mut reg = Registry::new();
    let r = reg.create_room(10, 1, nick("A")).unwrap();
    assert_eq!(reg.join_room(r, 2, nick("B")), Ok(()));
    assert_eq!(reg.view_room(r, 2), Ok(vec![nick("A"), nick("B")]));
}

#[test]
fn join_twice_gives_already_member() {
    let mut reg = Registry::new();
    let r = reg.create_room(10, 1, nick("A")).unwrap();
    assert_eq!(reg.join_room(r, 5, nick("E")), Ok(()));
    assert_eq!(reg.join_room(r, 5, nick("E")), Err(RoomError::AlreadyMember));
    assert_eq!(reg.join_room(r, 1, nick("A")), Err(RoomError::AlreadyMember));
    assert_eq!(reg.view_room(r, 5).unwrap().len(), 2);
}

#[test]
fn unknown_room_is_not_found() {
    let mut reg = Registry::new();
    assert_eq!(reg.view_room(42, 1), Err(RoomError::NotFound));
    assert_eq!(reg.join_room(42, 1, nick("A")), Err(RoomError::NotFound));
    assert!(reg.create_room_at(41, 1, 1, nick("A")));
    assert_eq!(reg.view_room(42, 1), Err(RoomError::NotFound));
    assert!(!reg.contains_room(42));
    assert!(!reg.contains_member(42, 1));
}

#[test]
fn roster_counts_each_joined_user_once() {
    let mut reg = Registry::new();
    let r = reg.create_room(0, 100, nick("Creator")).unwrap();
    for user in 0..20u64 {
        assert_eq!(reg.join_room(r, user, format!("user{}", user)), Ok(()));
        let _ = reg.join_room(r, user, format!("again{}", user));
    }
    let roster = reg.view_room(r, 100).unwrap();
    assert_eq!(roster.len(), 21);
    assert_eq!(roster[0], "Creator");
    assert_eq!(roster[20], "user19");
}

#[test]
fn zero_capacity_is_accepted_and_not_enforced() {
    let mut reg = Registry::new();
    let r = reg.create_room(0, 1, nick("A")).unwrap();
    assert_eq!(reg.join_room(r, 2, nick("B")), Ok(()));
    assert_eq!(reg.view_room(r, 1).unwrap().len(), 2);
}

#[test]
fn room_try_add_member_tests_and_inserts() {
    let mut room = Room::new(2, 9, nick("Nine"));
    assert_eq!(room.capacity(), 2);
    assert!(room.has_member(9));
    assert!(!room.has_member(8));
    assert!(room.try_add_member(8, nick("Eight")));
    assert!(!room.try_add_member(8, nick("Other")));
    assert!(room.try_add_member(7, nick("Seven")));
    assert_eq!(room.len(), 3);
    assert_eq!(room.roster(), vec![nick("Nine"), nick("Eight"), nick("Seven")]);
}

#[test]
fn resolve_keeps_a_stored_identity() {
    let r = resolve_identity(Stored::Present(77), Stored::Present(nick("Owl"))).unwrap();
    assert_eq!(r.identity.user_id, 77);
    assert_eq!(r.identity.nickname, "Owl");
    assert!(!r.is_new);
}

#[test]
fn resolve_is_idempotent() {
    let first = resolve_identity(Stored::Absent, Stored::Absent).unwrap();
    assert!(first.is_new);
    let id = first.identity.user_id;
    let name = first.identity.nickname.clone();
    let second = resolve_identity(Stored::Present(id), Stored::Present(name.clone())).unwrap();
    let third = resolve_identity(Stored::Present(id), Stored::Present(name.clone())).unwrap();
    assert_eq!(second.identity.user_id, id);
    assert_eq!(second.identity.nickname, name);
    assert!(!second.is_new);
    assert_eq!(third.identity.user_id, id);
    assert_eq!(third.identity.nickname, name);
}

#[test]
fn fresh_nickname_comes_from_the_pool() {
    let pool: Vec<String> = (0..NAME_POOL_LEN).map(pool_name).collect();
    for _ in 0..50 {
        let r = resolve_identity(Stored::Absent, Stored::Absent).unwrap();
        assert!(pool.contains(&r.identity.nickname));
    }
}

#[test]
fn pool_names_are_fixed() {
    assert_eq!(NAME_POOL_LEN, 12);
    assert_eq!(pool_name(0), "Anonymous Aardvark");
    assert_eq!(pool_name(11), "Anonymous Lemur");
}

#[test]
fn resolve_with_uses_fresh_values_only_for_an_empty_session() {
    let r = resolve_with(Stored::Absent, Stored::Absent, 5, nick("Fresh")).unwrap();
    assert_eq!((r.identity.user_id, r.identity.nickname.as_str(), r.is_new), (5, "Fresh", true));
    let r = resolve_with(Stored::Present(3), Stored::Present(nick("Old")), 5, nick("Fresh")).unwrap();
    assert_eq!((r.identity.user_id, r.identity.nickname.as_str(), r.is_new), (3, "Old", false));
}

#[test]
fn half_filled_or_malformed_session_is_corrupt() {
    assert_eq!(
        resolve_identity(Stored::Present(1), Stored::Absent).err(),
        Some(SessionError::SessionCorrupt)
    );
    assert_eq!(
        resolve_identity(Stored::Absent, Stored::Present(nick("A"))).err(),
        Some(SessionError::SessionCorrupt)
    );
    assert_eq!(
        resolve_identity(Stored::Malformed, Stored::Present(nick("A"))).err(),
        Some(SessionError::SessionCorrupt)
    );
    assert_eq!(
        resolve_with(Stored::Present(1), Stored::Malformed, 2, nick("B")).err(),
        Some(SessionError::SessionCorrupt)
    );
}

#[test]
fn get_returns_the_created_room() {
    let mut reg = Registry::new();
    assert!(reg.get(3).is_none());
    assert!(reg.create_room_at(3, 6, 1, nick("A")));
    let room = reg.get(3).unwrap();
    assert_eq!(room.capacity(), 6);
    assert_eq!(room.roster(), vec![nick("A")]);
}
