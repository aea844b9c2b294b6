use vstd::prelude::*;
use crate::types::{Access, ActionView, ActorId, OperationId, OperationView, SpaceError};

verus! {

/// An access level given to an actor by an operation.
#[derive(Clone, Copy, Debug, PartialEq, Eq, Structural)]
pub struct Grant {
    pub op: OperationId,
    pub target: ActorId,
    pub access: Access,
    pub seq: u64,
    pub author: ActorId,
}

/// The removal of an actor by an operation.
#[derive(Clone, Copy, Debug, PartialEq, Eq, Structural)]
pub struct Removal {
    pub op: OperationId,
    pub target: ActorId,
}

/// The state of one space as a mathematical value. It is made of sets and maps
/// only, so two replicas that hold the same operations hold the same value,
/// in whatever order the operations reached them.
pub struct SpaceModel {
    /// Whether the space has been created.
    pub created: bool,
    /// The operations kept so far, each with its causal past: every operation
    /// that it depends on, directly or through others.
    pub past: Map<OperationId, Set<OperationId>>,
    /// The sequence number of the last operation that the space keeps of each
    /// author. Each space has a log of its own for each author.
    pub last_seq: Map<ActorId, u64>,
    /// The grants of all accepted operations.
    pub grants: Set<Grant>,
    /// The removals of all accepted operations.
    pub removals: Set<Removal>,
    /// The kept operations that no other kept operation depends on directly.
    pub frontier: Set<OperationId>,
    /// The generation of the content key.
    pub epoch: nat,
}

/// The grant that an operation makes to `target`.
pub open spec fn grant_of(op: OperationView, target: ActorId, access: Access) -> Grant {
    Grant { op: op.id, target, access, seq: op.seq, author: op.author }
}

/// The grants that the creation of a space makes to its initial members.
pub open spec fn initial_grants(op: OperationView, initial: Seq<(ActorId, Access)>) -> Set<Grant> {
    Set::new(
        |g: Grant|
            exists|i: int|
                0 <= i < initial.len() && g == grant_of(op, (#[trigger] initial[i]).0, initial[i].1),
    )
}

impl SpaceModel {
    /// The state before any operation.
    pub open spec fn empty() -> SpaceModel {
        SpaceModel {
            created: false,
            past: Map::empty(),
            last_seq: Map::empty(),
            grants: Set::empty(),
            removals: Set::empty(),
            frontier: Set::empty(),
            epoch: 0,
        }
    }

    /// Every grant comes from a kept operation, and the causal past of a kept
    /// operation holds kept operations only.
    pub open spec fn wf(self) -> bool {
        &&& forall|g: Grant| #[trigger] self.grants.contains(g) ==> self.past.dom().contains(g.op)
        &&& forall|k: OperationId, x: OperationId|
            self.past.dom().contains(k) && #[trigger] self.past[k].contains(x)
                ==> self.past.dom().contains(x)
    }

    /// The causal past of an operation with the direct dependencies `deps`.
    pub open spec fn past_of(self, deps: Set<OperationId>) -> Set<OperationId> {
        Set::new(
            |x: OperationId|
                deps.contains(x) || exists|d: OperationId|
                    deps.contains(d) && self.past.dom().contains(d)
                        && #[trigger] self.past[d].contains(x),
        )
    }

    /// A grant is live when its operation has every removal of its target in its
    /// causal past: a removal that the grant did not know of defeats it.
    pub open spec fn live(self, g: Grant) -> bool {
        &&& self.grants.contains(g)
        &&& self.past.dom().contains(g.op)
        &&& forall|r: Removal| #[trigger]
            self.removals.contains(r) && r.target == g.target ==> self.past[g.op].contains(r.op)
    }

    /// A live grant is a head when no other live grant to the same actor came
    /// causally after it.
    pub open spec fn head(self, g: Grant) -> bool {
        &&& self.live(g)
        &&& forall|h: Grant| #[trigger]
            self.live(h) && h.target == g.target ==> !self.past[h.op].contains(g.op)
    }

    /// The order that breaks ties between concurrent grants: by sequence number,
    /// then author, then level. `g` wins over `h`, or equals it.
    pub open spec fn outranks(g: Grant, h: Grant) -> bool {
        ||| h.seq < g.seq
        ||| (h.seq == g.seq && h.author < g.author)
        ||| (h.seq == g.seq && h.author == g.author && h.access.level() <= g.access.level())
    }

    /// `actor` is a member with the level `access`: the head that outranks all
    /// other heads grants it.
    pub open spec fn holds(self, actor: ActorId, access: Access) -> bool {
        exists|g: Grant|
            #![trigger self.head(g)]
            self.head(g) && g.target == actor && g.access == access && forall|h: Grant| #[trigger]
                self.head(h) && h.target == actor ==> Self::outranks(g, h)
    }

    /// `actor` is a member of the space.
    pub open spec fn is_member(self, actor: ActorId) -> bool {
        exists|a: Access| self.holds(actor, a)
    }

    /// `actor` holds at least the level `access`.
    pub open spec fn holds_at_least(self, actor: ActorId, access: Access) -> bool {
        exists|a: Access| self.holds(actor, a) && a.level() >= access.level()
    }

    /// Whether `seq` is the next sequence number of `author`: 0 for the first
    /// operation, one more than the last one after that.
    pub open spec fn seq_expected(self, author: ActorId, seq: u64) -> bool {
        if self.last_seq.dom().contains(author) {
            seq == self.last_seq[author] + 1
        } else {
            seq == 0
        }
    }

    /// The access gate, on the members as they are before the operation.
    pub open spec fn permits(self, op: OperationView) -> bool {
        match op.action {
            ActionView::CreateSpace { .. } => true,
            ActionView::SendContent { .. } => self.holds_at_least(op.author, Access::Write),
            _ => self.holds(op.author, Access::Admin),
        }
    }

    /// What becomes of an operation: `Ok(true)` when it is accepted, `Ok(false)`
    /// when it was kept before, else the reason why it has no effect.
    pub open spec fn verdict(self, op: OperationView) -> Result<bool, SpaceError> {
        if self.past.dom().contains(op.id) {
            Ok(false)
        } else if !op.deps.to_set().subset_of(self.past.dom()) {
            Err(SpaceError::DependencyMissing)
        } else if !self.seq_expected(op.author, op.seq) {
            Err(SpaceError::Validation)
        } else if self.created && op.action is CreateSpace {
            Err(SpaceError::Validation)
        } else if !self.permits(op) {
            Err(SpaceError::PermissionDenied)
        } else {
            Ok(true)
        }
    }

    /// The state after the operation has been kept for ordering.
    pub open spec fn retain(self, op: OperationView) -> SpaceModel {
        SpaceModel {
            past: self.past.insert(op.id, self.past_of(op.deps.to_set())),
            last_seq: self.last_seq.insert(op.author, op.seq),
            frontier: self.frontier.difference(op.deps.to_set()).insert(op.id),
            ..self
        }
    }

    /// The state after the action of an accepted operation has taken effect.
    pub open spec fn effect(self, op: OperationView) -> SpaceModel {
        match op.action {
            ActionView::CreateSpace { initial } => SpaceModel {
                created: true,
                grants: self.grants.insert(grant_of(op, op.author, Access::Admin)).union(
                    initial_grants(op, initial),
                ),
                epoch: self.epoch + 1,
                ..self
            },
            ActionView::AddMember { actor, access } => SpaceModel {
                grants: self.grants.insert(grant_of(op, actor, access)),
                epoch: self.epoch + 1,
                ..self
            },
            ActionView::ChangeAccess { actor, access } => SpaceModel {
                grants: self.grants.insert(grant_of(op, actor, access)),
                epoch: self.epoch + 1,
                ..self
            },
            ActionView::RemoveMember { actor } => SpaceModel {
                removals: self.removals.insert(Removal { op: op.id, target: actor }),
                epoch: self.epoch + 1,
                ..self
            },
            ActionView::SendContent { .. } => self,
        }
    }

    /// The state after `op` has been handed to the state machine.
    pub open spec fn step(self, op: OperationView) -> SpaceModel {
        match self.verdict(op) {
            Ok(true) => self.retain(op).effect(op),
            Err(SpaceError::PermissionDenied) => self.retain(op),
            _ => self,
        }
    }
}

} // verus!
