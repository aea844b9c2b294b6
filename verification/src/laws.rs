use vstd::prelude::*;
use crate::model::{Grant, Removal, SpaceModel};
use crate::types::{Access, ActionView, ActorId, OperationId, OperationView, SpaceError};

verus! {

/// Whether handing `op` to the state machine changes the state at all.
pub open spec fn kept_by(s: SpaceModel, op: OperationView) -> bool {
    s.verdict(op) == Ok::<bool, SpaceError>(true) || s.verdict(op) == Err::<bool, SpaceError>(
        SpaceError::PermissionDenied,
    )
}

/// A state that is reached from a well-formed one is well-formed.
pub proof fn law_step_keeps_well_formed(s: SpaceModel, op: OperationView)
    requires
        s.wf(),
    ensures
        s.step(op).wf(),
{
    let t = s.step(op);
    assert forall|g: Grant| #[trigger] t.grants.contains(g) implies t.past.dom().contains(g.op) by {
        if !s.grants.contains(g) {
            assert(g.op == op.id);
        }
    }
    assert forall|k: OperationId, x: OperationId|
        t.past.dom().contains(k) && #[trigger] t.past[k].contains(x) implies t.past.dom().contains(
        x,
    ) by {
        if s.past.dom().contains(k) {
            assert(t.past[k] == s.past[k]);
        } else {
            assert(k == op.id);
            let deps = op.deps.to_set();
            assert(s.past_of(deps).contains(x));
            if !deps.contains(x) {
                let d = choose|d: OperationId|
                    deps.contains(d) && s.past.dom().contains(d) && #[trigger] s.past[d].contains(x);
                assert(s.past.dom().contains(x));
            }
        }
    }
}

/// The state before any operation is well-formed.
pub proof fn law_empty_is_well_formed()
    ensures
        SpaceModel::empty().wf(),
{
}

/// Strong removal: once a removal is accepted, the removed actor is no member,
/// whatever grants to it were accepted before, from whichever replica. Only a
/// grant that comes causally after the removal can bring the actor back.
pub proof fn law_accepted_removal_removes(s: SpaceModel, op: OperationView, actor: ActorId)
    requires
        s.wf(),
        s.verdict(op) == Ok::<bool, SpaceError>(true),
        op.action == (ActionView::RemoveMember { actor }),
    ensures
        !s.step(op).is_member(actor),
        forall|a: Access| !s.step(op).holds(actor, a),
{
    let t = s.step(op);
    let r = Removal { op: op.id, target: actor };
    assert(t.removals.contains(r));
    assert forall|g: Grant|
        #[trigger] t.grants.contains(g) && g.target == r.target && t.past.dom().contains(
            g.op,
        ) implies !t.past[g.op].contains(r.op) by {
        assert(s.grants.contains(g));
        assert(s.past.dom().contains(g.op));
        assert(t.past[g.op] == s.past[g.op]);
        if s.past[g.op].contains(op.id) {
            assert(s.past.dom().contains(op.id));
        }
    }
    law_removal_defeats_unaware_grants(t, r);
}

/// Handing the same operation over twice gives the state that handing it over
/// once gives.
pub proof fn law_apply_is_idempotent(s: SpaceModel, op: OperationView)
    ensures
        s.step(op).step(op) == s.step(op),
{
    if kept_by(s, op) {
        assert(s.step(op).past.dom().contains(op.id));
    }
}

/// An operation identifier is used once: whatever comes under the identifier of
/// a kept operation changes nothing.
pub proof fn law_known_identifier_is_no_op(s: SpaceModel, op: OperationView)
    requires
        s.past.dom().contains(op.id),
    ensures
        s.verdict(op) == Ok::<bool, SpaceError>(false),
        s.step(op) == s,
{
}

/// The causal past of an operation does not change when an operation that it
/// does not depend on is kept.
proof fn lemma_past_of_stable(s: SpaceModel, a: OperationView, b: OperationView)
    requires
        !s.past.dom().contains(a.id),
        !b.deps.contains(a.id),
    ensures
        s.retain(a).past_of(b.deps.to_set()) == s.past_of(b.deps.to_set()),
{
    let t = s.retain(a);
    let deps = b.deps.to_set();
    assert forall|x: u64| t.past_of(deps).contains(x) implies s.past_of(deps).contains(x) by {
        if !deps.contains(x) {
            let d = choose|d: u64|
                deps.contains(d) && t.past.dom().contains(d) && #[trigger] t.past[d].contains(x);
            assert(d != a.id);
            assert(s.past.dom().contains(d) && s.past[d].contains(x));
        }
    }
    assert forall|x: u64| s.past_of(deps).contains(x) implies t.past_of(deps).contains(x) by {
        if !deps.contains(x) {
            let d = choose|d: u64|
                deps.contains(d) && s.past.dom().contains(d) && #[trigger] s.past[d].contains(x);
            assert(d != a.id);
            assert(t.past.dom().contains(d) && t.past[d].contains(x));
        }
    }
    assert(t.past_of(deps) =~= s.past_of(deps));
}

/// Whether handing `op` to the state machine changes the members or the epoch.
pub open spec fn takes_effect(s: SpaceModel, op: OperationView) -> bool {
    s.verdict(op) == Ok::<bool, SpaceError>(true) && !(op.action is SendContent)
}

/// Two concurrent operations, neither of which depends on the other, give the
/// same state in either order, provided that the order does not decide whether
/// either of them is kept or takes effect: the access gate looks at the members
/// as they are when an operation arrives.
pub proof fn law_concurrent_operations_commute(s: SpaceModel, a: OperationView, b: OperationView)
    requires
        a.id != b.id,
        !a.deps.contains(b.id),
        !b.deps.contains(a.id),
        kept_by(s.step(b), a) == kept_by(s, a),
        kept_by(s.step(a), b) == kept_by(s, b),
        takes_effect(s.step(b), a) == takes_effect(s, a),
        takes_effect(s.step(a), b) == takes_effect(s, b),
    ensures
        s.step(a).step(b) == s.step(b).step(a),
{
    if kept_by(s, a) && kept_by(s, b) {
        let sa = s.retain(a);
        let sb = s.retain(b);
        lemma_past_of_stable(s, a, b);
        lemma_past_of_stable(s, b, a);
        assert(s.step(a).past == sa.past);
        assert(s.step(b).past == sb.past);
        assert(s.step(a).last_seq == sa.last_seq);
        assert(s.step(b).last_seq == sb.last_seq);
        assert(a.author != b.author) by {
            if a.author == b.author {
                assert(s.seq_expected(a.author, a.seq));
                assert(s.seq_expected(b.author, b.seq));
                assert(s.step(b).seq_expected(a.author, a.seq));
                assert(s.step(b).last_seq[b.author] == b.seq);
            }
        }
        let x = s.step(a).step(b);
        let y = s.step(b).step(a);
        assert(x.past =~= y.past);
        assert(x.last_seq =~= y.last_seq);
        assert(x.frontier =~= y.frontier);
        assert(x.grants =~= y.grants);
        assert(x.removals =~= y.removals);
        assert(x.created == y.created);
        assert(x.epoch == y.epoch);
    }
}

/// The condition of the law above cannot be weakened: where the order decides
/// whether one of two operations is kept or takes effect, the two orders give
/// different states.
pub proof fn law_order_dependent_gate_breaks_commuting(
    s: SpaceModel,
    a: OperationView,
    b: OperationView,
)
    requires
        a.id != b.id,
        kept_by(s.step(b), a) != kept_by(s, a) || takes_effect(s.step(b), a) != takes_effect(s, a),
        kept_by(s.step(a), b) == kept_by(s, b),
        takes_effect(s.step(a), b) == takes_effect(s, b),
    ensures
        s.step(a).step(b) != s.step(b).step(a),
{
    let x = s.step(a).step(b);
    let y = s.step(b).step(a);
    if kept_by(s.step(b), a) != kept_by(s, a) {
        if kept_by(s, a) {
            assert(x.past.dom().contains(a.id));
            assert(!y.past.dom().contains(a.id));
        } else {
            assert(y.past.dom().contains(a.id));
            assert(!x.past.dom().contains(a.id));
        }
    } else {
        assert(x.epoch != y.epoch);
    }
}

/// A removal defeats every grant to the same actor that did not know of it: if
/// no grant to `actor` has the removal in its causal past, `actor` is no member.
pub proof fn law_removal_defeats_unaware_grants(s: SpaceModel, r: Removal)
    requires
        s.removals.contains(r),
        forall|g: Grant|
            #[trigger] s.grants.contains(g) && g.target == r.target && s.past.dom().contains(g.op)
                ==> !s.past[g.op].contains(r.op),
    ensures
        !s.is_member(r.target),
        forall|a: Access| !s.holds(r.target, a),
{
    assert forall|g: Grant| g.target == r.target implies !s.head(g) by {
        if s.live(g) {
            assert(s.removals.contains(r) && r.target == g.target);
        }
    }
}

/// The sequence numbers of one author go 0, 1, 2, ...: an operation is kept only
/// with the next number of its author, and one with another number is refused
/// as invalid once its dependencies are there.
pub proof fn law_sequence_numbers_have_no_gaps(s: SpaceModel, op: OperationView)
    ensures
        kept_by(s, op) ==> s.seq_expected(op.author, op.seq) && s.step(op).last_seq.dom().contains(
            op.author,
        ) && s.step(op).last_seq[op.author] == op.seq,
        kept_by(s, op) && s.last_seq.dom().contains(op.author) ==> op.seq == s.last_seq[op.author]
            + 1,
        kept_by(s, op) && !s.last_seq.dom().contains(op.author) ==> op.seq == 0,
        !s.past.dom().contains(op.id) && op.deps.to_set().subset_of(s.past.dom())
            && !s.seq_expected(op.author, op.seq) ==> s.verdict(op) == Err::<bool, SpaceError>(
            SpaceError::Validation,
        ) && s.step(op) == s,
{
}

/// The epoch grows by exactly one with every accepted operation that touches
/// the members, and stays as it is with every other operation.
pub proof fn law_epoch_counts_membership_changes(s: SpaceModel, op: OperationView)
    ensures
        s.verdict(op) == Ok::<bool, SpaceError>(true) && !(op.action is SendContent) ==> s.step(
            op,
        ).epoch == s.epoch + 1,
        !(s.verdict(op) == Ok::<bool, SpaceError>(true)) || op.action is SendContent ==> s.step(
            op,
        ).epoch == s.epoch,
        s.step(op).epoch >= s.epoch,
{
}

/// Keeping an operation for ordering leaves every member as it was.
proof fn lemma_retain_keeps_members(s: SpaceModel, op: OperationView)
    requires
        s.wf(),
        !s.past.dom().contains(op.id),
    ensures
        forall|g: Grant| s.retain(op).live(g) == s.live(g),
        forall|g: Grant| s.retain(op).head(g) == s.head(g),
        forall|actor: ActorId, a: Access| s.retain(op).holds(actor, a) == s.holds(actor, a),
{
    let t = s.retain(op);
    assert(t.grants == s.grants);
    assert(t.removals == s.removals);
    assert forall|g: Grant| t.live(g) == s.live(g) by {
        if s.grants.contains(g) {
            assert(s.past.dom().contains(g.op));
            assert(g.op != op.id);
            assert(t.past.dom().contains(g.op));
            assert(t.past[g.op] == s.past[g.op]);
            if s.live(g) {
                assert forall|r: Removal| #[trigger]
                    t.removals.contains(r) && r.target == g.target implies t.past[g.op].contains(
                    r.op,
                ) by {
                    assert(s.removals.contains(r));
                }
                assert(t.live(g));
            }
            if t.live(g) {
                assert forall|r: Removal| #[trigger]
                    s.removals.contains(r) && r.target == g.target implies s.past[g.op].contains(
                    r.op,
                ) by {
                    assert(t.removals.contains(r));
                }
                assert(s.live(g));
            }
        }
    }
    assert forall|g: Grant| t.head(g) == s.head(g) by {
        if s.live(g) {
            assert forall|h: Grant| s.live(h) implies t.past[h.op] == s.past[h.op] by {
                assert(h.op != op.id);
            }
            if s.head(g) {
                assert forall|h: Grant| #[trigger] t.live(h) && h.target == g.target implies !t.past[h.op].contains(
                    g.op,
                ) by {
                    assert(s.live(h));
                }
            }
            if t.head(g) {
                assert forall|h: Grant| #[trigger] s.live(h) && h.target == g.target implies !s.past[h.op].contains(
                    g.op,
                ) by {
                    assert(t.live(h));
                }
            }
        }
    }
    assert forall|actor: ActorId, a: Access| t.holds(actor, a) == s.holds(actor, a) by {
        if s.holds(actor, a) {
            let g = choose|g: Grant|
                #![trigger s.head(g)]
                s.head(g) && g.target == actor && g.access == a && forall|h: Grant| #[trigger]
                    s.head(h) && h.target == actor ==> SpaceModel::outranks(g, h);
            assert(t.head(g));
            assert forall|h: Grant| #[trigger] t.head(h) && h.target == actor implies SpaceModel::outranks(
                g,
                h,
            ) by {
                assert(s.head(h));
            }
        }
        if t.holds(actor, a) {
            let g = choose|g: Grant|
                #![trigger t.head(g)]
                t.head(g) && g.target == actor && g.access == a && forall|h: Grant| #[trigger]
                    t.head(h) && h.target == actor ==> SpaceModel::outranks(g, h);
            assert(s.head(g));
            assert forall|h: Grant| #[trigger] s.head(h) && h.target == actor implies SpaceModel::outranks(
                g,
                h,
            ) by {
                assert(t.head(h));
            }
        }
    }
}

/// An operation that the access gate refuses is refused because its author does
/// not hold the level that its action asks for. It changes no member and no
/// epoch, and it is kept, so that later operations can depend on it.
pub proof fn law_denied_operation_changes_no_member(s: SpaceModel, op: OperationView)
    requires
        s.wf(),
        s.verdict(op) == Err::<bool, SpaceError>(SpaceError::PermissionDenied),
    ensures
        op.action is RemoveMember || op.action is AddMember || op.action is ChangeAccess
            ==> !s.holds(op.author, Access::Admin),
        s.step(op).grants == s.grants,
        s.step(op).removals == s.removals,
        s.step(op).epoch == s.epoch,
        forall|actor: ActorId, a: Access| s.step(op).holds(actor, a) == s.holds(actor, a),
        forall|actor: ActorId| s.step(op).is_member(actor) == s.is_member(actor),
        s.step(op).past.dom().contains(op.id),
{
    lemma_retain_keeps_members(s, op);
    assert forall|actor: ActorId| s.step(op).is_member(actor) == s.is_member(actor) by {
        if s.is_member(actor) {
            let a = choose|a: Access| s.holds(actor, a);
            assert(s.step(op).holds(actor, a));
        }
        if s.step(op).is_member(actor) {
            let a = choose|a: Access| s.step(op).holds(actor, a);
            assert(s.holds(actor, a));
        }
    }
}

/// A member holds one level only.
pub proof fn law_access_is_unique(s: SpaceModel, actor: ActorId, a: Access, b: Access)
    requires
        s.holds(actor, a),
        s.holds(actor, b),
    ensures
        a == b,
{
    let g = choose|g: Grant|
        #![trigger s.head(g)]
        s.head(g) && g.target == actor && g.access == a && forall|h: Grant| #[trigger]
            s.head(h) && h.target == actor ==> SpaceModel::outranks(g, h);
    let w = choose|w: Grant|
        #![trigger s.head(w)]
        s.head(w) && w.target == actor && w.access == b && forall|h: Grant| #[trigger]
            s.head(h) && h.target == actor ==> SpaceModel::outranks(w, h);
    assert(SpaceModel::outranks(g, w));
    assert(SpaceModel::outranks(w, g));
}

} // verus!
