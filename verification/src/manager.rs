use vstd::prelude::*;
use vstd::multiset::Multiset;
use crate::forge::Forge;
use crate::model::SpaceModel;
use crate::orderer::{ready, AuthOrderer};
use crate::space::SpaceState;
use crate::store::{derived_roster, MemoryStore};
use crate::types::{
    Access, Action, ActionView, ActorId, Operation, OperationId, OperationView, SpaceError,
    SpaceId,
};

verus! {

broadcast use vstd::multiset::group_multiset_axioms;

/// An operation that was handed to the state machine, and what became of it.
pub struct Delivered {
    pub op: Operation,
    pub outcome: Result<bool, SpaceError>,
}

impl Delivered {
    /// Whether the space keeps the operation: it was accepted, or it was refused
    /// by the access gate and is kept for ordering.
    pub fn was_kept(&self) -> (r: bool)
        ensures
            r == kept(self.outcome),
    {
        match self.outcome {
            Ok(true) => true,
            Err(SpaceError::PermissionDenied) => true,
            _ => false,
        }
    }
}

/// The state after the operations `ops` have been handed over one after another.
pub open spec fn run(s: SpaceModel, ops: Seq<OperationView>) -> SpaceModel
    decreases ops.len(),
{
    if ops.len() == 0 {
        s
    } else {
        run(s, ops.drop_last()).step(ops.last())
    }
}

/// The operations of `out`, in their order.
pub open spec fn operations(out: Seq<Delivered>) -> Seq<OperationView> {
    out.map_values(|d: Delivered| d.op@)
}

/// Whether an operation with this outcome is kept by the space.
pub open spec fn kept(outcome: Result<bool, SpaceError>) -> bool {
    outcome == Ok::<bool, SpaceError>(true) || outcome == Err::<bool, SpaceError>(
        SpaceError::PermissionDenied,
    )
}

/// What waits, together with the operation that is about to be applied.
pub open spec fn held(pending: Seq<OperationView>, next: Option<Operation>) -> Multiset<
    OperationView,
> {
    match next {
        Some(c) => pending.to_multiset().insert(c@),
        None => pending.to_multiset(),
    }
}

proof fn lemma_run_push(s: SpaceModel, ops: Seq<OperationView>, op: OperationView)
    ensures
        run(s, ops.push(op)) == run(s, ops).step(op),
{
    assert(ops.push(op).drop_last() =~= ops);
}

/// Takes in an operation that arrived from another replica. If its
/// dependencies are there it is handed to the state machine, and after it every
/// waiting operation that has become ready, until none is. Else it waits.
/// The result lists what was handed over, in that order, each with its outcome.
/// No operation is lost: each is either in the result or still waits.
pub fn receive(orderer: &mut AuthOrderer, space: &mut SpaceState, op: Operation) -> (r: Vec<
    Delivered,
>)
    requires
        old(orderer).applied() == old(space)@.past.dom(),
        old(space)@.epoch + old(orderer).pending().len() + 1 <= u64::MAX,
    ensures
        final(space)@ == run(old(space)@, operations(r@)),
        forall|i: int|
            0 <= i < r@.len() ==> (#[trigger] r@[i]).outcome == run(
                old(space)@,
                operations(r@).take(i),
            ).verdict(r@[i].op@),
        final(orderer).applied() == final(space)@.past.dom(),
        forall|j: int|
            0 <= j < final(orderer).pending().len() ==> !ready(
                final(orderer).applied(),
                #[trigger] final(orderer).pending()[j],
            ),
        !ready(old(orderer).applied(), op@) && (forall|j: int|
            0 <= j < old(orderer).pending().len() ==> !ready(
                old(orderer).applied(),
                #[trigger] old(orderer).pending()[j],
            )) ==> r@.len() == 0 && final(orderer).pending() == old(orderer).pending().push(op@),
        ready(old(orderer).applied(), op@) ==> r@.len() > 0 && r@[0].op == op,
        final(orderer).pending().to_multiset().add(operations(r@).to_multiset()) == old(
            orderer,
        ).pending().push(op@).to_multiset(),
{
    let ghost start = space@;
    let ghost all = old(orderer).pending().push(op@).to_multiset();
    let ghost was_ready = ready(old(orderer).applied(), op@);
    let ghost quiet = forall|j: int|
        0 <= j < old(orderer).pending().len() ==> !ready(
            old(orderer).applied(),
            #[trigger] old(orderer).pending()[j],
        );
    let mut out: Vec<Delivered> = Vec::new();
    proof {
        old(orderer).pending().to_multiset_ensures();
        assert(operations(out@) =~= Seq::<OperationView>::empty());
        Seq::<OperationView>::empty().to_multiset_ensures();
        assert(forall|a: OperationView| !Seq::<OperationView>::empty().contains(a));
        assert(operations(out@).to_multiset() =~= Multiset::<OperationView>::empty());
    }
    let mut next = orderer.submit(op);
    if next.is_none() {
        proof {
            assert(held(orderer.pending(), next).add(operations(out@).to_multiset()) =~= all);
        }
        let probe = orderer.release();
        next = probe;
        proof {
            let before = old(orderer).pending().push(op@);
            if next is Some {
                let c = next->0;
                let i = choose|i: int|
                    0 <= i < before.len() && #[trigger] before[i] == c@ && ready(
                        orderer.applied(),
                        c@,
                    ) && orderer.pending() == before.remove(i);
                before.to_multiset_ensures();
                assert(before.contains(c@));
                assert(held(orderer.pending(), next) =~= all);
                if quiet {
                    if i < old(orderer).pending().len() {
                        assert(before[i] == old(orderer).pending()[i]);
                    }
                }
            }
            assert(held(orderer.pending(), next).add(operations(out@).to_multiset()) =~= all);
        }
    } else {
        proof {
            assert(held(orderer.pending(), next).add(operations(out@).to_multiset()) =~= all);
        }
    }
    while next.is_some()
        invariant
            orderer.applied() == space@.past.dom(),
            space@.epoch + orderer.pending().len() + (if next is Some {
                1int
            } else {
                0int
            }) <= u64::MAX,
            space@ == run(start, operations(out@)),
            forall|i: int|
                0 <= i < out@.len() ==> (#[trigger] out@[i]).outcome == run(
                    start,
                    operations(out@).take(i),
                ).verdict(out@[i].op@),
            next is Some ==> ready(orderer.applied(), next->0@),
            next is None ==> forall|j: int|
                0 <= j < orderer.pending().len() ==> !ready(
                    orderer.applied(),
                    #[trigger] orderer.pending()[j],
                ),
            held(orderer.pending(), next).add(operations(out@).to_multiset()) == all,
            was_ready && out@.len() == 0 ==> next == Some(op),
            was_ready && out@.len() > 0 ==> out@[0].op == op,
            !was_ready && quiet ==> out@.len() == 0 && next is None && orderer.pending() == old(
                orderer,
            ).pending().push(op@),
        decreases orderer.pending().len() + (if next is Some { 1int } else { 0int }),
    {
        let cur = next.unwrap();
        let ghost before = space@;
        let ghost done = out@;
        let ghost waiting = orderer.pending();
        let outcome = space.apply(&cur);
        let keep = match outcome {
            Ok(true) => true,
            Err(SpaceError::PermissionDenied) => true,
            _ => false,
        };
        if keep {
            orderer.mark_applied(cur.id);
            proof {
                assert(space@.past.dom() =~= before.past.dom().insert(cur.id));
            }
        }
        proof {
            assert(space@.epoch <= before.epoch + 1);
            lemma_run_push(start, operations(done), cur@);
            waiting.to_multiset_ensures();
            operations(done).to_multiset_ensures();
        }
        out.push(Delivered { op: cur, outcome });
        proof {
            assert(operations(out@) =~= operations(done).push(cur@));
            assert forall|i: int| 0 <= i < out@.len() implies (#[trigger] out@[i]).outcome == run(
                start,
                operations(out@).take(i),
            ).verdict(out@[i].op@) by {
                if i < done.len() {
                    assert(out@[i] == done[i]);
                    assert(operations(out@).take(i) =~= operations(done).take(i));
                } else {
                    assert(operations(out@).take(i) =~= operations(done));
                }
            }
        }
        next = orderer.release();
        proof {
            if next is Some {
                let c = next->0;
                let i = choose|i: int|
                    0 <= i < waiting.len() && #[trigger] waiting[i] == c@ && orderer.pending()
                        == waiting.remove(i);
                assert(waiting.contains(c@));
                assert(held(orderer.pending(), next) =~= waiting.to_multiset());
            }
            assert(held(orderer.pending(), next).add(operations(out@).to_multiset()) =~= all);
        }
    }
    out
}

/// Writes the next operation of the local actor, with the frontier of the space
/// as its dependencies, and hands it to the state machine. The operation comes
/// back with its outcome: where the access gate refuses it, it is kept by the
/// space all the same, and changes no member.
pub fn author(forge: &mut Forge, space: &mut SpaceState, id: OperationId, action: Action) -> (r:
    Delivered)
    requires
        old(forge).upcoming() < u64::MAX,
        old(space)@.epoch < u64::MAX,
    ensures
        r.op.id == id,
        r.op.author == old(forge).author(),
        r.op.seq == old(forge).upcoming(),
        r.op.deps@.to_set() == old(space)@.frontier,
        r.op.action == action,
        r.outcome == old(space)@.verdict(r.op@),
        final(space)@ == old(space)@.step(r.op@),
        final(forge).author() == old(forge).author(),
        final(forge).upcoming() == old(forge).upcoming() + 1,
{
    let deps = space.frontier();
    let op = forge.forge(id, deps, action);
    let outcome = space.apply(&op);
    Delivered { op, outcome }
}

/// What a local action does to the store. In an unknown space nobody holds a
/// level, so the action is refused and nothing is written. In a known space the
/// operation is written by `author` with the number `seq` and the frontier of the
/// space as its dependencies, and handed to the state machine; where the space
/// keeps it, the store gets the new state of the space and the operation.
pub open spec fn acted(
    spaces: Map<SpaceId, SpaceModel>,
    messages: Map<OperationId, OperationView>,
    author: ActorId,
    seq: u64,
    space_id: SpaceId,
    id: OperationId,
    action: ActionView,
    r: Result<Delivered, SpaceError>,
    spaces_after: Map<SpaceId, SpaceModel>,
    messages_after: Map<OperationId, OperationView>,
) -> bool {
    match r {
        Err(e) => {
            &&& !spaces.dom().contains(space_id)
            &&& e == SpaceError::PermissionDenied
            &&& spaces_after == spaces
            &&& messages_after == messages
        },
        Ok(d) => {
            &&& spaces.dom().contains(space_id)
            &&& d.op@.id == id
            &&& d.op@.author == author
            &&& d.op@.seq == seq
            &&& d.op@.deps.to_set() == spaces[space_id].frontier
            &&& d.op@.action == action
            &&& d.outcome == spaces[space_id].verdict(d.op@)
            &&& spaces_after == (if kept(d.outcome) {
                spaces.insert(space_id, spaces[space_id].step(d.op@))
            } else {
                spaces
            })
            &&& messages_after == (if kept(d.outcome) {
                messages.insert(id, d.op@)
            } else {
                messages
            })
        },
    }
}

/// Whether a local action in the space `space_id` can be taken: the counters
/// that it moves have room.
pub open spec fn can_act(store: MemoryStore, forge: Forge, space_id: SpaceId) -> bool {
    &&& store.wf()
    &&& forge.upcoming() < u64::MAX
    &&& store.spaces().dom().contains(space_id) ==> store.spaces()[space_id].epoch < u64::MAX
}

/// Takes a local action in the space `space_id`.
pub fn act(
    store: &mut MemoryStore,
    forge: &mut Forge,
    space_id: &SpaceId,
    id: OperationId,
    action: Action,
) -> (r: Result<Delivered, SpaceError>)
    requires
        can_act(*old(store), *old(forge), *space_id),
    ensures
        final(store).wf(),
        acted(
            old(store).spaces(),
            old(store).messages(),
            old(forge).author(),
            old(forge).upcoming(),
            *space_id,
            id,
            action@,
            r,
            final(store).spaces(),
            final(store).messages(),
        ),
        final(forge).author() == old(forge).author(),
        final(forge).upcoming() == (if r is Ok {
            old(forge).upcoming() + 1
        } else {
            old(forge).upcoming() as int
        }),
        final(store).levels() == (match r {
            Ok(d) if kept(d.outcome) => derived_roster(final(store).spaces()),
            _ => old(store).levels(),
        }),
        final(store).applied() == old(store).applied(),
        final(store).pending() == old(store).pending(),
{
    match store.space(space_id) {
        None => Err(SpaceError::PermissionDenied),
        Some(y) => {
            let mut space = y;
            let d = author(forge, &mut space, id, action);
            if d.was_kept() {
                store.set_message(&id, &d.op);
                store.set_space(space_id, space);
                store.refresh_roster();
            }
            Ok(d)
        },
    }
}

/// Creates the space `space_id`, with the local actor as its admin and the
/// members `initial`. A space that exists already is not created again.
pub fn create_space(
    store: &mut MemoryStore,
    forge: &mut Forge,
    space_id: &SpaceId,
    id: OperationId,
    initial: Vec<(ActorId, Access)>,
) -> (r: Result<Delivered, SpaceError>)
    requires
        old(store).wf(),
        old(forge).upcoming() < u64::MAX,
    ensures
        final(store).wf(),
        final(forge).author() == old(forge).author(),
        final(store).levels() == (match r {
            Ok(d) if kept(d.outcome) => derived_roster(final(store).spaces()),
            _ => old(store).levels(),
        }),
        final(store).applied() == old(store).applied(),
        final(store).pending() == old(store).pending(),
        match r {
            Err(e) => {
                &&& old(store).spaces().dom().contains(*space_id)
                &&& e == SpaceError::Validation
                &&& final(store).spaces() == old(store).spaces()
                &&& final(store).messages() == old(store).messages()
                &&& final(forge).upcoming() == old(forge).upcoming()
            },
            Ok(d) => {
                &&& !old(store).spaces().dom().contains(*space_id)
                &&& d.op@ == (OperationView {
                    id,
                    author: old(forge).author(),
                    seq: old(forge).upcoming(),
                    deps: Seq::<OperationId>::empty(),
                    action: ActionView::CreateSpace { initial: initial@ },
                })
                &&& d.outcome == SpaceModel::empty().verdict(d.op@)
                &&& final(forge).upcoming() == old(forge).upcoming() + 1
                &&& final(store).spaces() == (if kept(d.outcome) {
                    old(store).spaces().insert(*space_id, SpaceModel::empty().step(d.op@))
                } else {
                    old(store).spaces()
                })
                &&& final(store).messages() == (if kept(d.outcome) {
                    old(store).messages().insert(id, d.op@)
                } else {
                    old(store).messages()
                })
            },
        },
{
    if store.has_space(space_id) {
        return Err(SpaceError::Validation);
    }
    let mut space = SpaceState::new();
    let d = author(forge, &mut space, id, Action::CreateSpace { initial });
    proof {
        assert(d.op.deps@.to_set() == Set::<OperationId>::empty());
        if d.op.deps@.len() > 0 {
            assert(d.op.deps@.to_set().contains(d.op.deps@[0]));
        }
        assert(d.op.deps@ =~= Seq::<OperationId>::empty());
    }
    if d.was_kept() {
        store.set_message(&id, &d.op);
        store.set_space(space_id, space);
        store.refresh_roster();
    }
    Ok(d)
}

/// Gives `actor` the level `access` in the space `space_id`.
pub fn add_member(
    store: &mut MemoryStore,
    forge: &mut Forge,
    space_id: &SpaceId,
    id: OperationId,
    actor: ActorId,
    access: Access,
) -> (r: Result<Delivered, SpaceError>)
    requires
        can_act(*old(store), *old(forge), *space_id),
    ensures
        final(store).wf(),
        acted(
            old(store).spaces(),
            old(store).messages(),
            old(forge).author(),
            old(forge).upcoming(),
            *space_id,
            id,
            (ActionView::AddMember { actor, access }),
            r,
            final(store).spaces(),
            final(store).messages(),
        ),
        final(forge).author() == old(forge).author(),
{
    act(store, forge, space_id, id, Action::AddMember { actor, access })
}

/// Removes `actor` from the space `space_id`.
pub fn remove_member(
    store: &mut MemoryStore,
    forge: &mut Forge,
    space_id: &SpaceId,
    id: OperationId,
    actor: ActorId,
) -> (r: Result<Delivered, SpaceError>)
    requires
        can_act(*old(store), *old(forge), *space_id),
    ensures
        final(store).wf(),
        acted(
            old(store).spaces(),
            old(store).messages(),
            old(forge).author(),
            old(forge).upcoming(),
            *space_id,
            id,
            (ActionView::RemoveMember { actor }),
            r,
            final(store).spaces(),
            final(store).messages(),
        ),
        final(forge).author() == old(forge).author(),
{
    act(store, forge, space_id, id, Action::RemoveMember { actor })
}

/// Changes the level of `actor` in the space `space_id` to `access`.
pub fn change_access(
    store: &mut MemoryStore,
    forge: &mut Forge,
    space_id: &SpaceId,
    id: OperationId,
    actor: ActorId,
    access: Access,
) -> (r: Result<Delivered, SpaceError>)
    requires
        can_act(*old(store), *old(forge), *space_id),
    ensures
        final(store).wf(),
        acted(
            old(store).spaces(),
            old(store).messages(),
            old(forge).author(),
            old(forge).upcoming(),
            *space_id,
            id,
            (ActionView::ChangeAccess { actor, access }),
            r,
            final(store).spaces(),
            final(store).messages(),
        ),
        final(forge).author() == old(forge).author(),
{
    act(store, forge, space_id, id, Action::ChangeAccess { actor, access })
}

/// Sends content to the space `space_id`. The caller has sealed it under the
/// key of the current epoch.
pub fn send(
    store: &mut MemoryStore,
    forge: &mut Forge,
    space_id: &SpaceId,
    id: OperationId,
    ciphertext: Vec<u8>,
) -> (r: Result<Delivered, SpaceError>)
    requires
        can_act(*old(store), *old(forge), *space_id),
    ensures
        final(store).wf(),
        acted(
            old(store).spaces(),
            old(store).messages(),
            old(forge).author(),
            old(forge).upcoming(),
            *space_id,
            id,
            (ActionView::SendContent { ciphertext: ciphertext@ }),
            r,
            final(store).spaces(),
            final(store).messages(),
        ),
        final(forge).author() == old(forge).author(),
{
    act(store, forge, space_id, id, Action::SendContent { ciphertext })
}

/// The space `space_id` as the store holds it, or one that no operation has
/// reached where the store holds none.
pub open spec fn space_or_empty(spaces: Map<SpaceId, SpaceModel>, space_id: SpaceId) -> SpaceModel {
    if spaces.dom().contains(space_id) {
        spaces[space_id]
    } else {
        SpaceModel::empty()
    }
}

/// The operations of a store after those of `out` that their space keeps have
/// been put into it, one after another.
pub open spec fn filed(messages: Map<OperationId, OperationView>, out: Seq<Delivered>) -> Map<
    OperationId,
    OperationView,
>
    decreases out.len(),
{
    if out.len() == 0 {
        messages
    } else if kept(out.last().outcome) {
        filed(messages, out.drop_last()).insert(out.last().op@.id, out.last().op@)
    } else {
        filed(messages, out.drop_last())
    }
}

/// Takes in an operation for the space `space_id` that arrived from another
/// replica, as `receive` does, on the state that the store holds of that space,
/// and writes to the store what came of it: the new state of the space, and
/// every operation that the space keeps.
pub fn receive_and_store(
    store: &mut MemoryStore,
    orderer: &mut AuthOrderer,
    space_id: &SpaceId,
    op: Operation,
) -> (r: Vec<Delivered>)
    requires
        old(store).wf(),
        old(orderer).applied() == space_or_empty(old(store).spaces(), *space_id).past.dom(),
        space_or_empty(old(store).spaces(), *space_id).epoch + old(orderer).pending().len() + 1
            <= u64::MAX,
    ensures
        final(store).wf(),
        final(store).spaces() == old(store).spaces().insert(
            *space_id,
            run(space_or_empty(old(store).spaces(), *space_id), operations(r@)),
        ),
        final(store).messages() == filed(old(store).messages(), r@),
        forall|i: int|
            0 <= i < r@.len() ==> (#[trigger] r@[i]).outcome == run(
                space_or_empty(old(store).spaces(), *space_id),
                operations(r@).take(i),
            ).verdict(r@[i].op@),
        final(orderer).applied() == final(store).spaces()[*space_id].past.dom(),
        forall|j: int|
            0 <= j < final(orderer).pending().len() ==> !ready(
                final(orderer).applied(),
                #[trigger] final(orderer).pending()[j],
            ),
        final(orderer).pending().to_multiset().add(operations(r@).to_multiset()) == old(
            orderer,
        ).pending().push(op@).to_multiset(),
        final(store).levels() == derived_roster(final(store).spaces()),
        final(store).applied() == old(store).applied(),
        final(store).pending() == old(store).pending(),
{
    let mut space = match store.space(space_id) {
        Some(y) => y,
        None => SpaceState::new(),
    };
    let out = receive(orderer, &mut space, op);
    let mut i: usize = 0;
    while i < out.len()
        invariant
            i <= out.len(),
            store.wf(),
            store.spaces() == old(store).spaces(),
            store.messages() == filed(old(store).messages(), out@.take(i as int)),
            store.levels() == old(store).levels(),
            store.applied() == old(store).applied(),
            store.pending() == old(store).pending(),
        decreases out.len() - i,
    {
        proof {
            assert(out@.take(i + 1).drop_last() =~= out@.take(i as int));
            assert(out@.take(i + 1).last() == out@[i as int]);
        }
        if out[i].was_kept() {
            store.set_message(&out[i].op.id, &out[i].op);
        }
        i += 1;
    }
    proof {
        assert(out@.take(i as int) =~= out@);
    }
    store.set_space(space_id, space);
    store.refresh_roster();
    out
}

} // verus!
