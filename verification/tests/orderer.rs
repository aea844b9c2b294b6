use p2panda_spaces::forge::Forge;
use p2panda_spaces::orderer::AuthOrderer;
use p2panda_spaces::types::{Access, Action, Operation};

fn plain(id: u64, seq: u64, deps: &[u64]) -> Operation {
    Operation { id, author: 1, seq, deps: deps.to_vec(), action: Action::AddMember { actor: 2, access: Access::Read } }
}

#[test]
fn ready_operation_comes_straight_back() {
    let mut o = AuthOrderer::init();
    assert_eq!(o.waiting(), 0);
    let got = o.submit(plain(1, 0, &[]));
    assert_eq!(got.map(|op| op.id), Some(1));
    assert_eq!(o.waiting(), 0);
}

#[test]
fn operation_waits_for_its_dependencies() {
    let mut o = AuthOrderer::init();
    assert!(o.submit(plain(3, 2, &[2])).is_none());
    assert!(o.submit(plain(2, 1, &[1])).is_none());
    assert_eq!(o.waiting(), 2);
    assert!(o.release().is_none());
    assert_eq!(o.waiting(), 2);

    let first = o.submit(plain(1, 0, &[])).unwrap();
    o.mark_applied(first.id);
    assert!(o.has_applied(1));
    assert!(!o.has_applied(2));

    let second = o.release().unwrap();
    assert_eq!(second.id, 2);
    assert_eq!(o.waiting(), 1);
    assert!(o.release().is_none());
    o.mark_applied(second.id);

    let third = o.release().unwrap();
    assert_eq!(third.id, 3);
    assert_eq!(third.deps, vec![2]);
    assert_eq!(o.waiting(), 0);
    assert!(o.release().is_none());
}

#[test]
fn release_takes_the_first_that_is_ready() {
    let mut o = AuthOrderer::init();
    assert!(o.submit(plain(5, 0, &[1, 9])).is_none());
    assert!(o.submit(plain(6, 0, &[1])).is_none());
    assert!(o.submit(plain(7, 0, &[1])).is_none());
    o.mark_applied(1);
    assert!(!o.is_ready(&plain(5, 0, &[1, 9])));
    assert!(o.is_ready(&plain(6, 0, &[1])));
    assert_eq!(o.release().map(|op| op.id), Some(6));
    assert_eq!(o.release().map(|op| op.id), Some(7));
    assert!(o.release().is_none());
    assert_eq!(o.waiting(), 1);
}

#[test]
fn copy_of_an_orderer_keeps_what_waits() {
    let mut o = AuthOrderer::init();
    assert!(o.submit(plain(2, 1, &[1])).is_none());
    o.mark_applied(7);
    let mut copy = o.clone();
    assert_eq!(copy.waiting(), 1);
    assert!(copy.has_applied(7));
    copy.mark_applied(1);
    assert_eq!(copy.release().map(|op| op.id), Some(2));
    assert_eq!(o.waiting(), 1);
    assert!(o.release().is_none());
}

#[test]
fn forge_numbers_from_zero() {
    let mut f = Forge::new(7);
    assert_eq!(f.actor(), 7);
    assert_eq!(f.next_seq(), 0);
    let a = f.forge(100, vec![], Action::CreateSpace { initial: vec![] });
    assert_eq!((a.id, a.author, a.seq), (100, 7, 0));
    let b = f.forge(101, vec![100], Action::RemoveMember { actor: 3 });
    assert_eq!((b.id, b.author, b.seq), (101, 7, 1));
    assert_eq!(b.deps, vec![100]);
    assert_eq!(f.next_seq(), 2);
}

#[test]
fn ephemeral_operation_has_number_zero() {
    let mut f = Forge::new(7);
    f.forge(100, vec![], Action::CreateSpace { initial: vec![] });
    let e = f.forge_ephemeral(99, 200, vec![100], Action::RemoveMember { actor: 3 });
    assert_eq!((e.id, e.author, e.seq), (200, 99, 0));
    assert_eq!(e.deps, vec![100]);
    assert_eq!(f.next_seq(), 1);
}
