use vstd::prelude::*;
use crate::manager::Delivered;
use crate::space::{holds_id, SpaceState};
use crate::types::{Access, Action, ActorId, SpaceError};

verus! {

/// The epochs of one space whose content key the local actor was given.
pub struct KeyRing {
    epochs: Vec<u64>,
}

impl KeyRing {
    /// The epochs whose key the ring holds.
    pub closed spec fn held(&self) -> Set<u64> {
        self.epochs@.to_set()
    }

    /// A ring without keys.
    pub fn new() -> (r: KeyRing)
        ensures
            r.held() == Set::<u64>::empty(),
    {
        let r = KeyRing { epochs: Vec::new() };
        proof {
            assert(r.held() =~= Set::<u64>::empty());
        }
        r
    }

    /// Notes that the key of `epoch` was given to the local actor.
    pub fn accept(&mut self, epoch: u64)
        ensures
            final(self).held() == old(self).held().insert(epoch),
    {
        proof {
            self.epochs@.lemma_push_to_set_commute(epoch);
        }
        self.epochs.push(epoch);
    }

    /// Whether the ring holds the key of `epoch`.
    pub fn holds(&self, epoch: u64) -> (r: bool)
        ensures
            r == self.held().contains(epoch),
    {
        holds_id(&self.epochs, epoch)
    }

    /// Looks for the key under which content of `epoch` was sealed. Content of an
    /// epoch whose key the ring does not hold cannot be opened.
    pub fn key_for(&self, epoch: u64) -> (r: Result<u64, SpaceError>)
        ensures
            self.held().contains(epoch) ==> r == Ok::<u64, SpaceError>(epoch),
            !self.held().contains(epoch) ==> r == Err::<u64, SpaceError>(SpaceError::Crypto),
    {
        if self.holds(epoch) {
            Ok(epoch)
        } else {
            Err(SpaceError::Crypto)
        }
    }
}

/// The actors to whom the content key of the current epoch of `space` goes: its
/// members, each once, and nobody else.
pub fn recipients(space: &SpaceState) -> (r: Vec<ActorId>)
    ensures
        forall|actor: ActorId| r@.contains(actor) <==> space@.is_member(actor),
        r@.no_duplicates(),
{
    let members = space.members();
    let mut out: Vec<ActorId> = Vec::new();
    let mut i: usize = 0;
    while i < members.len()
        invariant
            i <= members.len(),
            out@.len() == i,
            forall|k: int| 0 <= k < i ==> out@[k] == members@[k].0,
        decreases members.len() - i,
    {
        out.push(members[i].0);
        i += 1;
    }
    proof {
        assert forall|actor: ActorId| out@.contains(actor) implies space@.is_member(actor) by {
            let k = choose|k: int| 0 <= k < out@.len() && out@[k] == actor;
            assert(members@.contains(members@[k]));
            assert(space@.holds(members@[k].0, members@[k].1));
        }
        assert forall|actor: ActorId| space@.is_member(actor) implies out@.contains(actor) by {
            let a = choose|a: Access| space@.holds(actor, a);
            assert(members@.contains((actor, a)));
            let k = choose|k: int| 0 <= k < members@.len() && members@[k] == (actor, a);
            assert(out@[k] == actor);
        }
    }
    out
}

/// A change of the content key: the epoch of the new key, and the actors to
/// whom it goes.
pub struct Rotation {
    pub epoch: u64,
    pub recipients: Vec<ActorId>,
}

/// Whether an operation with this outcome asks for a new content key: it was
/// accepted, and it touches the members.
pub open spec fn rotates(d: Delivered) -> bool {
    d.outcome == Ok::<bool, SpaceError>(true) && !(d.op@.action is SendContent)
}

/// Says whether the content key of `space` has to change after `d` was handed
/// to it, and if so, for which epoch and to whom the new key goes: to the
/// members as they are after `d`, so to nobody whom it removed.
pub fn rotation(space: &SpaceState, d: &Delivered) -> (r: Option<Rotation>)
    ensures
        r is Some <==> rotates(*d),
        match r {
            Some(x) => {
                &&& x.epoch == space@.epoch
                &&& x.recipients@.no_duplicates()
                &&& forall|actor: ActorId|
                    x.recipients@.contains(actor) <==> space@.is_member(actor)
            },
            None => true,
        },
{
    let touches = match &d.op.action {
        Action::SendContent { .. } => false,
        _ => true,
    };
    match d.outcome {
        Ok(true) => {
            if touches {
                Some(Rotation { epoch: space.epoch(), recipients: recipients(space) })
            } else {
                None
            }
        },
        _ => None,
    }
}

} // verus!
