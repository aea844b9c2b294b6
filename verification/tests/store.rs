use p2panda_spaces::orderer::AuthOrderer;
use p2panda_spaces::roster::AuthGroupState;
use p2panda_spaces::space::SpaceState;
use p2panda_spaces::store::{MemoryStore, TestKeyStore};
use p2panda_spaces::types::{Access, Action, Operation};

fn created(by: usize, id: u64, initial: &[(usize, Access)]) -> SpaceState {
    let mut s = SpaceState::new();
    let op = Operation { id, author: by, seq: 0, deps: vec![], action: Action::CreateSpace { initial: initial.to_vec() } };
    assert_eq!(s.apply(&op), Ok(true));
    s
}

#[test]
fn new_store_is_empty() {
    let store = MemoryStore::new();
    assert!(!store.has_space(&0));
    assert!(store.space(&0).is_none());
    assert!(store.spaces_ids().is_empty());
    assert!(store.message(&1).is_none());
    assert_eq!(store.auth().level_of(1), None);
    assert_eq!(store.highest_access(1), None);
}

#[test]
fn space_is_read_as_it_was_set() {
    let mut store = MemoryStore::new();
    store.set_space(&5, created(1, 10, &[]));
    store.set_space(&3, created(2, 20, &[(1, Access::Read)]));
    assert!(store.has_space(&5));
    assert!(store.has_space(&3));
    assert!(!store.has_space(&4));
    assert_eq!(store.spaces_ids(), vec![5, 3]);
    let five = store.space(&5).unwrap();
    assert_eq!(five.access_of(1), Some(Access::Admin));
    assert_eq!(five.access_of(2), None);
    let three = store.space(&3).unwrap();
    assert_eq!(three.access_of(2), Some(Access::Admin));
    assert_eq!(three.access_of(1), Some(Access::Read));
    assert!(store.space(&4).is_none());
}

#[test]
fn setting_a_space_again_replaces_it() {
    let mut store = MemoryStore::new();
    store.set_space(&5, created(1, 10, &[]));
    store.set_space(&5, created(2, 20, &[]));
    assert_eq!(store.spaces_ids(), vec![5]);
    let five = store.space(&5).unwrap();
    assert_eq!(five.access_of(1), None);
    assert_eq!(five.access_of(2), Some(Access::Admin));
}

#[test]
fn highest_access_looks_at_every_space() {
    let mut store = MemoryStore::new();
    store.set_space(&1, created(1, 10, &[(2, Access::Read)]));
    store.set_space(&2, created(3, 20, &[(2, Access::Write)]));
    store.set_space(&3, created(4, 30, &[(2, Access::Read)]));
    assert_eq!(store.highest_access(2), Some(Access::Write));
    assert_eq!(store.highest_access(1), Some(Access::Admin));
    assert_eq!(store.highest_access(9), None);
}

#[test]
fn message_is_read_as_it_was_set() {
    let mut store = MemoryStore::new();
    let op = Operation { id: 7, author: 1, seq: 4, deps: vec![5, 6], action: Action::SendContent { ciphertext: vec![1, 2, 3] } };
    store.set_message(&7, &op);
    let got = store.message(&7).unwrap();
    assert_eq!((got.id, got.author, got.seq), (7, 1, 4));
    assert_eq!(got.deps, vec![5, 6]);
    assert!(matches!(got.action, Action::SendContent { ref ciphertext } if ciphertext == &vec![1u8, 2, 3]));
    assert!(store.message(&8).is_none());
    let other = Operation { id: 7, author: 2, seq: 0, deps: vec![], action: Action::RemoveMember { actor: 3 } };
    store.set_message(&7, &other);
    let got = store.message(&7).unwrap();
    assert_eq!(got.author, 2);
    assert!(matches!(got.action, Action::RemoveMember { actor: 3 }));
}

#[test]
fn roster_is_read_as_it_was_set() {
    let mut store = MemoryStore::new();
    let mut orderer = AuthOrderer::init();
    orderer.mark_applied(3);
    let mut roster = AuthGroupState::new(orderer);
    roster.set_level(1, Some(Access::Admin));
    roster.set_level(2, Some(Access::Read));
    roster.set_level(2, None);
    store.set_auth(&roster);
    let mut got = store.auth();
    assert_eq!(got.level_of(1), Some(Access::Admin));
    assert_eq!(got.level_of(2), None);
    assert!(got.orderer().has_applied(3));
    assert!(!got.orderer().has_applied(4));
    // What was read is a copy.
    got.set_level(1, None);
    assert_eq!(store.auth().level_of(1), Some(Access::Admin));
}

#[test]
fn new_key_store_knows_nobody() {
    let keys = TestKeyStore::new();
    assert!(!keys.has_identity(1));
    assert!(!keys.has_identity(0));
}

#[test]
fn key_material_is_read_as_it_was_set() {
    let mut keys = TestKeyStore::new();
    let registry = keys.key_registry();
    let secrets = keys.prekey_secrets();
    keys.set_key_registry(&registry);
    keys.set_prekey_secrets(&secrets);
    assert!(!keys.has_identity(1));
}

#[test]
fn roster_view_lists_each_actor_with_its_highest_level() {
    let mut store = MemoryStore::new();
    assert!(store.roster_view().is_empty());
    store.set_space(&1, created(1, 10, &[(2, Access::Read)]));
    store.set_space(&2, created(3, 20, &[(2, Access::Write), (1, Access::Read)]));
    let mut roster = store.roster_view();
    roster.sort();
    assert_eq!(roster, vec![(1, Access::Admin), (2, Access::Write), (3, Access::Admin)]);
}

#[test]
fn replace_levels_drops_what_was_there() {
    let mut roster = AuthGroupState::new(AuthOrderer::init());
    roster.set_level(1, Some(Access::Admin));
    roster.set_level(2, Some(Access::Read));
    roster.replace_levels(&vec![(2, Access::Write), (3, Access::Read)]);
    assert_eq!(roster.level_of(1), None);
    assert_eq!(roster.level_of(2), Some(Access::Write));
    assert_eq!(roster.level_of(3), Some(Access::Read));
}

#[test]
fn refresh_roster_takes_the_levels_from_the_spaces() {
    let mut store = MemoryStore::new();
    let mut roster = AuthGroupState::new(AuthOrderer::init());
    roster.set_level(9, Some(Access::Admin));
    store.set_auth(&roster);
    store.set_space(&1, created(1, 10, &[(2, Access::Read)]));
    store.refresh_roster();
    let got = store.auth();
    assert_eq!(got.level_of(9), None);
    assert_eq!(got.level_of(1), Some(Access::Admin));
    assert_eq!(got.level_of(2), Some(Access::Read));
}
