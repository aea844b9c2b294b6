use p2panda_spaces::forge::Forge;
use p2panda_spaces::keys::{recipients, rotation, KeyRing};
use p2panda_spaces::manager::{
    act, add_member, author, change_access, create_space, receive, receive_and_store,
    remove_member, send,
};
use p2panda_spaces::orderer::AuthOrderer;
use p2panda_spaces::space::SpaceState;
use p2panda_spaces::store::MemoryStore;
use p2panda_spaces::types::{Access, Action, Operation, SpaceError};

const ALICE: usize = 1;
const BOB: usize = 2;
const CAROL: usize = 3;

fn made(id: u64, author: usize, seq: u64, deps: &[u64], action: Action) -> Operation {
    Operation { id, author, seq, deps: deps.to_vec(), action }
}

fn in_order<T: Ord>(mut v: Vec<T>) -> Vec<T> {
    v.sort();
    v
}

#[test]
fn create_space_makes_the_caller_admin() {
    let mut store = MemoryStore::new();
    let mut alice = Forge::new(ALICE);
    let d = create_space(&mut store, &mut alice, &0, 100, vec![(BOB, Access::Read)]).unwrap();
    assert_eq!(d.outcome, Ok(true));
    assert_eq!((d.op.id, d.op.author, d.op.seq), (100, ALICE, 0));
    assert!(d.op.deps.is_empty());
    assert!(store.has_space(&0));
    let space = store.space(&0).unwrap();
    assert_eq!(space.access_of(ALICE), Some(Access::Admin));
    assert_eq!(space.access_of(BOB), Some(Access::Read));
    assert_eq!(space.epoch(), 1);
    assert_eq!(store.message(&100).unwrap().author, ALICE);
    assert_eq!(alice.next_seq(), 1);
}

#[test]
fn create_space_rejects_an_existing_id() {
    let mut store = MemoryStore::new();
    let mut alice = Forge::new(ALICE);
    create_space(&mut store, &mut alice, &0, 100, vec![]).unwrap();
    let mut bob = Forge::new(BOB);
    let again = create_space(&mut store, &mut bob, &0, 200, vec![]);
    assert!(matches!(again, Err(SpaceError::Validation)));
    assert_eq!(bob.next_seq(), 0);
    assert!(store.message(&200).is_none());
    assert_eq!(store.space(&0).unwrap().access_of(BOB), None);
    assert_eq!(store.spaces_ids(), vec![0]);
}

#[test]
fn action_in_an_unknown_space_is_denied() {
    let mut store = MemoryStore::new();
    let mut alice = Forge::new(ALICE);
    let r = add_member(&mut store, &mut alice, &9, 100, BOB, Access::Read);
    assert!(matches!(r, Err(SpaceError::PermissionDenied)));
    assert_eq!(alice.next_seq(), 0);
    assert!(!store.has_space(&9));
    assert!(store.message(&100).is_none());
}

#[test]
fn admin_manages_the_members() {
    let mut store = MemoryStore::new();
    let mut alice = Forge::new(ALICE);
    create_space(&mut store, &mut alice, &0, 100, vec![]).unwrap();
    let added = add_member(&mut store, &mut alice, &0, 101, BOB, Access::Write).unwrap();
    assert_eq!(added.outcome, Ok(true));
    assert_eq!(added.op.seq, 1);
    assert_eq!(added.op.deps, vec![100]);
    assert_eq!(store.space(&0).unwrap().access_of(BOB), Some(Access::Write));
    let changed = change_access(&mut store, &mut alice, &0, 102, BOB, Access::Read).unwrap();
    assert_eq!(changed.outcome, Ok(true));
    assert_eq!(changed.op.deps, vec![101]);
    assert_eq!(store.space(&0).unwrap().access_of(BOB), Some(Access::Read));
    let removed = remove_member(&mut store, &mut alice, &0, 103, BOB).unwrap();
    assert_eq!(removed.outcome, Ok(true));
    assert_eq!(store.space(&0).unwrap().access_of(BOB), None);
    assert_eq!(store.space(&0).unwrap().epoch(), 4);
    assert!(matches!(store.message(&103).unwrap().action, Action::RemoveMember { actor: BOB }));
}

#[test]
fn write_member_is_denied_and_the_operation_is_kept() {
    let mut store = MemoryStore::new();
    let mut alice = Forge::new(ALICE);
    create_space(&mut store, &mut alice, &0, 100, vec![(BOB, Access::Write), (CAROL, Access::Write)])
        .unwrap();
    let mut bob = Forge::new(BOB);
    let d = remove_member(&mut store, &mut bob, &0, 200, CAROL).unwrap();
    assert_eq!(d.outcome, Err(SpaceError::PermissionDenied));
    let space = store.space(&0).unwrap();
    assert_eq!(space.access_of(CAROL), Some(Access::Write));
    assert_eq!(space.access_of(BOB), Some(Access::Write));
    assert_eq!(space.epoch(), 1);
    assert!(space.has_operation(200));
    let kept = store.message(&200).unwrap();
    assert_eq!((kept.id, kept.author, kept.seq), (200, BOB, 0));
    assert!(matches!(kept.action, Action::RemoveMember { actor: CAROL }));
}

#[test]
fn send_needs_write_access() {
    let mut store = MemoryStore::new();
    let mut alice = Forge::new(ALICE);
    create_space(&mut store, &mut alice, &0, 100, vec![(BOB, Access::Write), (CAROL, Access::Read)])
        .unwrap();
    let mut bob = Forge::new(BOB);
    let mut carol = Forge::new(CAROL);
    let sent = send(&mut store, &mut bob, &0, 200, b"hello".to_vec()).unwrap();
    assert_eq!(sent.outcome, Ok(true));
    assert!(matches!(sent.op.action, Action::SendContent { ref ciphertext } if ciphertext == b"hello"));
    let refused = send(&mut store, &mut carol, &0, 300, b"hi".to_vec()).unwrap();
    assert_eq!(refused.outcome, Err(SpaceError::PermissionDenied));
    assert_eq!(store.space(&0).unwrap().epoch(), 1);
}

#[test]
fn forge_out_of_step_writes_an_invalid_operation() {
    let mut store = MemoryStore::new();
    let mut alice = Forge::new(ALICE);
    create_space(&mut store, &mut alice, &0, 100, vec![]).unwrap();
    let mut stale = Forge::new(ALICE);
    let d = act(&mut store, &mut stale, &0, 101, Action::RemoveMember { actor: BOB }).unwrap();
    assert_eq!(d.outcome, Err(SpaceError::Validation));
    assert!(store.message(&101).is_none());
    assert!(!store.space(&0).unwrap().has_operation(101));
}

#[test]
fn author_depends_on_the_frontier() {
    let mut space = SpaceState::new();
    let mut alice = Forge::new(ALICE);
    let a = author(&mut alice, &mut space, 1, Action::CreateSpace { initial: vec![] });
    assert_eq!(a.outcome, Ok(true));
    let b = author(&mut alice, &mut space, 2, Action::AddMember { actor: BOB, access: Access::Admin });
    assert_eq!(b.op.deps, vec![1]);
    let mut bob = Forge::new(BOB);
    let c = author(&mut bob, &mut space, 3, Action::AddMember { actor: CAROL, access: Access::Read });
    assert_eq!(c.outcome, Ok(true));
    assert_eq!((c.op.seq, c.op.deps.clone()), (0, vec![2]));
    assert_eq!(space.frontier(), vec![3]);
}

#[test]
fn deliver_releases_what_waited() {
    let mut orderer = AuthOrderer::init();
    let mut space = SpaceState::new();
    let third = made(3, ALICE, 2, &[2], Action::RemoveMember { actor: BOB });
    let second = made(2, ALICE, 1, &[1], Action::AddMember { actor: BOB, access: Access::Write });
    let first = made(1, ALICE, 0, &[], Action::CreateSpace { initial: vec![] });

    assert!(receive(&mut orderer, &mut space, third).is_empty());
    assert!(receive(&mut orderer, &mut space, second).is_empty());
    assert_eq!(orderer.waiting(), 2);
    assert_eq!(space.epoch(), 0);

    let done = receive(&mut orderer, &mut space, first);
    let ids: Vec<u64> = done.iter().map(|d| d.op.id).collect();
    assert_eq!(ids, vec![1, 2, 3]);
    assert!(done.iter().all(|d| d.outcome == Ok(true)));
    assert_eq!(orderer.waiting(), 0);
    assert_eq!(space.access_of(ALICE), Some(Access::Admin));
    assert_eq!(space.access_of(BOB), None);
    assert_eq!(space.epoch(), 3);
    assert!(orderer.has_applied(3));
}

#[test]
fn deliver_reports_each_outcome() {
    let mut orderer = AuthOrderer::init();
    let mut space = SpaceState::new();
    let first = made(1, ALICE, 0, &[], Action::CreateSpace { initial: vec![(BOB, Access::Write)] });
    assert_eq!(receive(&mut orderer, &mut space, first.clone()).len(), 1);
    let again = receive(&mut orderer, &mut space, first);
    assert_eq!(again.len(), 1);
    assert_eq!(again[0].outcome, Ok(false));
    let denied = receive(&mut orderer, &mut space, made(5, BOB, 0, &[1], Action::RemoveMember { actor: ALICE }));
    assert_eq!(denied[0].outcome, Err(SpaceError::PermissionDenied));
    assert!(orderer.has_applied(5));
    let invalid = receive(&mut orderer, &mut space, made(6, BOB, 5, &[5], Action::RemoveMember { actor: ALICE }));
    assert_eq!(invalid[0].outcome, Err(SpaceError::Validation));
    assert!(!orderer.has_applied(6));
    assert_eq!(space.access_of(ALICE), Some(Access::Admin));
    assert_eq!(space.epoch(), 1);
}

#[test]
fn replicas_converge_on_the_same_operations() {
    let ops = vec![
        made(1, ALICE, 0, &[], Action::CreateSpace { initial: vec![(CAROL, Access::Admin)] }),
        made(2, ALICE, 1, &[1], Action::AddMember { actor: BOB, access: Access::Write }),
        made(3, ALICE, 2, &[2], Action::RemoveMember { actor: BOB }),
        made(4, CAROL, 0, &[2], Action::ChangeAccess { actor: BOB, access: Access::Admin }),
        made(5, CAROL, 1, &[4], Action::AddMember { actor: 7, access: Access::Read }),
    ];
    let orders: [[usize; 5]; 4] = [[0, 1, 2, 3, 4], [4, 3, 2, 1, 0], [3, 0, 4, 1, 2], [1, 4, 0, 3, 2]];
    let mut views = Vec::new();
    for order in orders {
        let mut orderer = AuthOrderer::init();
        let mut space = SpaceState::new();
        for i in order {
            receive(&mut orderer, &mut space, ops[i].clone());
        }
        assert_eq!(orderer.waiting(), 0);
        views.push((in_order(space.members()), space.epoch(), in_order(space.frontier())));
    }
    let expected = (
        vec![(ALICE, Access::Admin), (CAROL, Access::Admin), (7, Access::Read)],
        5,
        vec![3, 5],
    );
    for view in views {
        assert_eq!(view.0, expected.0);
        assert_eq!(view.1, expected.1);
        assert_eq!(view.2, expected.2);
    }
}

#[test]
fn members_lists_each_member_once() {
    let mut space = SpaceState::new();
    space.apply(&made(1, ALICE, 0, &[], Action::CreateSpace { initial: vec![(BOB, Access::Read), (BOB, Access::Write), (ALICE, Access::Read)] })).unwrap();
    space.apply(&made(2, ALICE, 1, &[1], Action::AddMember { actor: CAROL, access: Access::Write })).unwrap();
    space.apply(&made(3, ALICE, 2, &[2], Action::ChangeAccess { actor: CAROL, access: Access::Read })).unwrap();
    assert_eq!(
        in_order(space.members()),
        vec![(ALICE, Access::Admin), (BOB, Access::Write), (CAROL, Access::Read)]
    );
    assert_eq!(in_order(recipients(&space)), vec![ALICE, BOB, CAROL]);
    space.apply(&made(4, ALICE, 3, &[3], Action::RemoveMember { actor: BOB })).unwrap();
    assert_eq!(in_order(recipients(&space)), vec![ALICE, CAROL]);
}

#[test]
fn removed_member_cannot_open_later_content() {
    let mut space = SpaceState::new();
    let mut alice = Forge::new(ALICE);
    let mut bob_keys = KeyRing::new();
    let mut carol_keys = KeyRing::new();

    author(&mut alice, &mut space, 0, Action::CreateSpace { initial: vec![] });
    author(&mut alice, &mut space, 1, Action::AddMember { actor: BOB, access: Access::Write });
    if recipients(&space).contains(&BOB) {
        bob_keys.accept(space.epoch());
    }
    let hello = space.epoch();
    author(&mut alice, &mut space, 2, Action::SendContent { ciphertext: b"hello".to_vec() });
    assert_eq!(bob_keys.key_for(hello), Ok(hello));

    author(&mut alice, &mut space, 3, Action::RemoveMember { actor: BOB });
    if recipients(&space).contains(&BOB) {
        bob_keys.accept(space.epoch());
    }
    let secret = space.epoch();
    author(&mut alice, &mut space, 4, Action::SendContent { ciphertext: b"secret".to_vec() });
    assert_eq!(bob_keys.key_for(secret), Err(SpaceError::Crypto));
    assert!(!bob_keys.holds(secret));

    author(&mut alice, &mut space, 5, Action::AddMember { actor: CAROL, access: Access::Read });
    if recipients(&space).contains(&CAROL) {
        carol_keys.accept(space.epoch());
    }
    assert_eq!(carol_keys.key_for(hello), Err(SpaceError::Crypto));
    assert_eq!(carol_keys.key_for(secret), Err(SpaceError::Crypto));
    assert_eq!(carol_keys.key_for(space.epoch()), Ok(4));
}

#[test]
fn receive_and_store_writes_what_the_space_keeps() {
    let mut store = MemoryStore::new();
    let mut orderer = AuthOrderer::init();
    let second = made(2, ALICE, 1, &[1], Action::AddMember { actor: BOB, access: Access::Write });
    let first = made(1, ALICE, 0, &[], Action::CreateSpace { initial: vec![] });
    let denied = made(3, BOB, 0, &[2], Action::RemoveMember { actor: ALICE });
    let invalid = made(4, BOB, 7, &[3], Action::RemoveMember { actor: ALICE });

    assert!(receive_and_store(&mut store, &mut orderer, &0, second).is_empty());
    assert!(store.has_space(&0));
    assert!(store.message(&2).is_none());
    assert_eq!(receive_and_store(&mut store, &mut orderer, &0, first).len(), 2);
    assert_eq!(receive_and_store(&mut store, &mut orderer, &0, denied)[0].outcome, Err(SpaceError::PermissionDenied));
    assert_eq!(receive_and_store(&mut store, &mut orderer, &0, invalid)[0].outcome, Err(SpaceError::Validation));

    let space = store.space(&0).unwrap();
    assert_eq!(space.access_of(ALICE), Some(Access::Admin));
    assert_eq!(space.access_of(BOB), Some(Access::Write));
    assert_eq!(space.epoch(), 2);
    assert_eq!(store.message(&1).unwrap().seq, 0);
    assert_eq!(store.message(&2).unwrap().seq, 1);
    assert_eq!(store.message(&3).unwrap().author, BOB);
    assert!(store.message(&4).is_none());
    assert_eq!(store.spaces_ids(), vec![0]);
}

#[test]
fn roster_follows_the_spaces() {
    let mut store = MemoryStore::new();
    let mut alice = Forge::new(ALICE);
    create_space(&mut store, &mut alice, &0, 100, vec![]).unwrap();
    assert_eq!(store.auth().level_of(ALICE), Some(Access::Admin));
    assert_eq!(store.auth().level_of(BOB), None);
    add_member(&mut store, &mut alice, &0, 101, BOB, Access::Write).unwrap();
    assert_eq!(store.auth().level_of(BOB), Some(Access::Write));

    let mut in_other = Forge::new(ALICE);
    create_space(&mut store, &mut in_other, &1, 200, vec![(BOB, Access::Read)]).unwrap();
    assert_eq!(store.auth().level_of(BOB), Some(Access::Write));

    remove_member(&mut store, &mut alice, &0, 102, BOB).unwrap();
    assert_eq!(store.auth().level_of(BOB), Some(Access::Read));
    remove_member(&mut store, &mut in_other, &1, 201, BOB).unwrap();
    assert_eq!(store.auth().level_of(BOB), None);
    assert_eq!(store.auth().level_of(ALICE), Some(Access::Admin));
}

#[test]
fn key_changes_with_the_members_only() {
    let mut space = SpaceState::new();
    let mut alice = Forge::new(ALICE);
    let created = author(&mut alice, &mut space, 0, Action::CreateSpace { initial: vec![(BOB, Access::Write)] });
    let first = rotation(&space, &created).unwrap();
    assert_eq!(first.epoch, 1);
    assert_eq!(in_order(first.recipients), vec![ALICE, BOB]);

    let sent = author(&mut alice, &mut space, 1, Action::SendContent { ciphertext: vec![1] });
    assert!(rotation(&space, &sent).is_none());

    let mut bob = Forge::new(BOB);
    let denied = author(&mut bob, &mut space, 2, Action::RemoveMember { actor: ALICE });
    assert_eq!(denied.outcome, Err(SpaceError::PermissionDenied));
    assert!(rotation(&space, &denied).is_none());

    let removed = author(&mut alice, &mut space, 3, Action::RemoveMember { actor: BOB });
    let second = rotation(&space, &removed).unwrap();
    assert_eq!(second.epoch, 2);
    assert_eq!(second.recipients, vec![ALICE]);
}
