use vstd::prelude::*;
use crate::space::holds_id;
use crate::types::{copy_of, Operation, OperationId, OperationView};

verus! {

/// Whether an operation with the dependencies of `op` can be applied once the
/// operations `applied` have been.
pub open spec fn ready(applied: Set<OperationId>, op: OperationView) -> bool {
    op.deps.to_set().subset_of(applied)
}

/// Holds back the operations that arrived before their dependencies, and hands
/// them out once those have been applied.
pub struct AuthOrderer {
    applied: Vec<OperationId>,
    pending: Vec<Operation>,
}

impl AuthOrderer {
    /// The operations that have been applied.
    pub closed spec fn applied(&self) -> Set<OperationId> {
        self.applied@.to_set()
    }

    /// The operations that wait for a dependency, in the order of their arrival.
    pub closed spec fn pending(&self) -> Seq<OperationView> {
        self.pending@.map_values(|o: Operation| o@)
    }

    /// An orderer that has seen nothing.
    pub fn init() -> (r: AuthOrderer)
        ensures
            r.applied() == Set::<OperationId>::empty(),
            r.pending() == Seq::<OperationView>::empty(),
    {
        let r = AuthOrderer { applied: Vec::new(), pending: Vec::new() };
        proof {
            assert(r.applied() =~= Set::<OperationId>::empty());
            assert(r.pending() =~= Seq::<OperationView>::empty());
        }
        r
    }

    /// The number of operations that wait.
    pub fn waiting(&self) -> (r: usize)
        ensures
            r == self.pending().len(),
    {
        self.pending.len()
    }

    /// Whether `id` has been applied.
    pub fn has_applied(&self, id: OperationId) -> (r: bool)
        ensures
            r == self.applied().contains(id),
    {
        holds_id(&self.applied, id)
    }

    /// Whether all dependencies of `op` have been applied.
    pub fn is_ready(&self, op: &Operation) -> (r: bool)
        ensures
            r == ready(self.applied(), op@),
    {
        let mut i: usize = 0;
        while i < op.deps.len()
            invariant
                i <= op.deps.len(),
                forall|k: int| 0 <= k < i ==> self.applied().contains(op.deps@[k]),
            decreases op.deps.len() - i,
        {
            if !holds_id(&self.applied, op.deps[i]) {
                proof {
                    assert(op.deps@.to_set().contains(op.deps@[i as int]));
                }
                return false;
            }
            i += 1;
        }
        proof {
            assert forall|x: OperationId| op.deps@.to_set().contains(x) implies self.applied().contains(
                x,
            ) by {
                let k = choose|k: int| 0 <= k < op.deps@.len() && op.deps@[k] == x;
                assert(self.applied().contains(op.deps@[k]));
            }
        }
        true
    }

    /// Takes an operation in. One whose dependencies have all been applied comes
    /// straight back, for the caller to apply; any other is put at the end of
    /// those that wait.
    pub fn submit(&mut self, op: Operation) -> (r: Option<Operation>)
        ensures
            final(self).applied() == old(self).applied(),
            ready(old(self).applied(), op@) ==> r == Some(op) && final(self).pending() == old(
                self,
            ).pending(),
            !ready(old(self).applied(), op@) ==> r is None && final(self).pending() == old(
                self,
            ).pending().push(op@),
    {
        if self.is_ready(&op) {
            Some(op)
        } else {
            proof {
                assert(self.pending@.push(op).map_values(|o: Operation| o@) =~= self.pending().push(
                    op@,
                ));
            }
            self.pending.push(op);
            None
        }
    }

    /// Notes that the operation `id` has been applied.
    pub fn mark_applied(&mut self, id: OperationId)
        ensures
            final(self).applied() == old(self).applied().insert(id),
            final(self).pending() == old(self).pending(),
    {
        proof {
            self.applied@.lemma_push_to_set_commute(id);
        }
        self.applied.push(id);
    }

    /// Hands out the first waiting operation whose dependencies have all been
    /// applied, and `None` where every waiting operation still lacks one.
    pub fn release(&mut self) -> (r: Option<Operation>)
        ensures
            final(self).applied() == old(self).applied(),
            match r {
                Some(op) => exists|i: int|
                    0 <= i < old(self).pending().len() && #[trigger] old(self).pending()[i] == op@
                        && ready(old(self).applied(), op@) && final(self).pending() == old(
                        self,
                    ).pending().remove(i) && forall|j: int|
                        0 <= j < i ==> !ready(old(self).applied(), #[trigger] old(self).pending()[j]),
                None => final(self).pending() == old(self).pending() && forall|j: int|
                    0 <= j < old(self).pending().len() ==> !ready(
                        old(self).applied(),
                        #[trigger] old(self).pending()[j],
                    ),
            },
    {
        let mut i: usize = 0;
        while i < self.pending.len()
            invariant
                i <= self.pending.len(),
                *self == *old(self),
                forall|j: int|
                    0 <= j < i ==> !ready(self.applied(), #[trigger] self.pending()[j]),
            decreases self.pending.len() - i,
        {
            if self.is_ready(&self.pending[i]) {
                let op = self.pending.remove(i);
                proof {
                    assert(old(self).pending()[i as int] == op@);
                    assert(self.pending() =~= old(self).pending().remove(i as int));
                }
                return Some(op);
            }
            i += 1;
        }
        None
    }
}

impl Clone for AuthOrderer {
    fn clone(&self) -> (r: AuthOrderer)
        ensures
            r.applied() == self.applied(),
            r.pending() == self.pending(),
    {
        let mut pending: Vec<Operation> = Vec::new();
        let mut i: usize = 0;
        while i < self.pending.len()
            invariant
                i <= self.pending.len(),
                pending@.len() == i,
                forall|k: int| 0 <= k < i ==> (#[trigger] pending@[k])@ == self.pending@[k]@,
            decreases self.pending.len() - i,
        {
            pending.push(self.pending[i].clone());
            i += 1;
        }
        let r = AuthOrderer { applied: copy_of(&self.applied), pending };
        proof {
            assert(r.pending() =~= self.pending());
        }
        r
    }
}

} // verus!
