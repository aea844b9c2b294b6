use vstd::prelude::*;
use crate::types::{Action, ActorId, Operation, OperationId};

verus! {

/// Writes the operations of one actor in one space, and numbers them 0, 1, 2, ...
pub struct Forge {
    actor: ActorId,
    next_seq: u64,
}

impl Forge {
    /// The actor whose operations this forge writes.
    pub closed spec fn author(&self) -> ActorId {
        self.actor
    }

    /// The sequence number that the next operation gets.
    pub closed spec fn upcoming(&self) -> u64 {
        self.next_seq
    }

    /// A forge for `actor`, who has written nothing yet.
    pub fn new(actor: ActorId) -> (r: Forge)
        ensures
            r.author() == actor,
            r.upcoming() == 0,
    {
        Forge { actor, next_seq: 0 }
    }

    /// The actor whose operations this forge writes.
    pub fn actor(&self) -> (r: ActorId)
        ensures
            r == self.author(),
    {
        self.actor
    }

    /// The sequence number that the next operation gets.
    pub fn next_seq(&self) -> (r: u64)
        ensures
            r == self.upcoming(),
    {
        self.next_seq
    }

    /// Writes the next operation of the actor: it gets the next sequence number,
    /// and depends on the frontier `deps` that the caller read from the space.
    pub fn forge(&mut self, id: OperationId, deps: Vec<OperationId>, action: Action) -> (r:
        Operation)
        requires
            old(self).upcoming() < u64::MAX,
        ensures
            r == (Operation { id, author: old(self).author(), seq: old(self).upcoming(), deps, action }),
            final(self).author() == old(self).author(),
            final(self).upcoming() == old(self).upcoming() + 1,
    {
        let seq = self.next_seq;
        self.next_seq = seq + 1;
        Operation { id, author: self.actor, seq, deps, action }
    }

    /// Writes an operation under a key that is used once: its author is
    /// `one_time`, its sequence number 0, and the forge's own count stays.
    pub fn forge_ephemeral(
        &self,
        one_time: ActorId,
        id: OperationId,
        deps: Vec<OperationId>,
        action: Action,
    ) -> (r: Operation)
        ensures
            r == (Operation { id, author: one_time, seq: 0, deps, action }),
    {
        Operation { id, author: one_time, seq: 0, deps, action }
    }
}

} // verus!
