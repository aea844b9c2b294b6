use vstd::prelude::*;
use std::collections::HashMap;
use crate::orderer::AuthOrderer;
use crate::types::{Access, ActorId, OperationId, OperationView};

verus! {

broadcast use vstd::std_specs::hash::group_hash_axioms;

/// Whether `levels` give `actor` the level `a`.
pub open spec fn gives(levels: Map<ActorId, Access>, actor: ActorId, a: Access) -> bool {
    levels.dom().contains(actor) && levels[actor] == a
}

/// The roster of all actors: the orderer of the operations that reached this
/// replica, and the highest level that each actor holds in any space.
pub struct AuthGroupState {
    orderer: AuthOrderer,
    levels: HashMap<ActorId, Access>,
}

impl AuthGroupState {
    /// The level of each actor that has one.
    pub closed spec fn levels(&self) -> Map<ActorId, Access> {
        self.levels@
    }

    /// The operations that the orderer counts as applied.
    pub closed spec fn applied(&self) -> Set<OperationId> {
        self.orderer.applied()
    }

    /// The operations that wait in the orderer.
    pub closed spec fn pending(&self) -> Seq<OperationView> {
        self.orderer.pending()
    }

    /// A roster without actors, around `orderer`.
    pub fn new(orderer: AuthOrderer) -> (r: AuthGroupState)
        ensures
            r.levels() == Map::<ActorId, Access>::empty(),
            r.applied() == orderer.applied(),
            r.pending() == orderer.pending(),
    {
        AuthGroupState { orderer, levels: HashMap::new() }
    }

    /// The level of `actor`, if it has one.
    pub fn level_of(&self, actor: ActorId) -> (r: Option<Access>)
        ensures
            r == (if self.levels().dom().contains(actor) {
                Some(self.levels()[actor])
            } else {
                None::<Access>
            }),
    {
        match self.levels.get(&actor) {
            Some(a) => Some(*a),
            None => None,
        }
    }

    /// Sets the level of `actor`, or takes it off the roster with `None`.
    pub fn set_level(&mut self, actor: ActorId, level: Option<Access>)
        ensures
            final(self).levels() == (match level {
                Some(a) => old(self).levels().insert(actor, a),
                None => old(self).levels().remove(actor),
            }),
            final(self).applied() == old(self).applied(),
            final(self).pending() == old(self).pending(),
    {
        match level {
            Some(a) => {
                self.levels.insert(actor, a);
            },
            None => {
                self.levels.remove(&actor);
            },
        }
    }

    /// Puts the levels of `entries` in the place of all levels.
    pub fn replace_levels(&mut self, entries: &Vec<(ActorId, Access)>)
        requires
            forall|i: int, j: int| 0 <= i < j < entries@.len() ==> entries@[i].0 != entries@[j].0,
        ensures
            forall|actor: ActorId, a: Access| #[trigger]
                gives(final(self).levels(), actor, a) <==> entries@.contains((actor, a)),
            final(self).applied() == old(self).applied(),
            final(self).pending() == old(self).pending(),
    {
        let mut levels: HashMap<ActorId, Access> = HashMap::new();
        let mut i: usize = 0;
        while i < entries.len()
            invariant
                i <= entries.len(),
                forall|k: int, j: int|
                    0 <= k < j < entries@.len() ==> entries@[k].0 != entries@[j].0,
                forall|actor: ActorId, a: Access| #[trigger]
                    gives(levels@, actor, a) <==> (exists|k: int|
                        0 <= k < i && entries@[k] == (actor, a)),
            decreases entries.len() - i,
        {
            let entry = entries[i];
            let ghost before = levels@;
            levels.insert(entry.0, entry.1);
            proof {
                assert forall|actor: ActorId, a: Access| #[trigger]
                    gives(levels@, actor, a) <==> (exists|k: int|
                        0 <= k < i + 1 && entries@[k] == (actor, a)) by {
                    if actor == entry.0 {
                        if before.dom().contains(actor) {
                            let b = before[actor];
                            assert(gives(before, actor, b));
                            let k = choose|k: int| 0 <= k < i && entries@[k] == (actor, b);
                            assert(entries@[k].0 == entries@[i as int].0);
                        }
                        if exists|k: int| 0 <= k < i + 1 && entries@[k] == (actor, a) {
                            let k = choose|k: int| 0 <= k < i + 1 && entries@[k] == (actor, a);
                            if k < i {
                                assert(entries@[k].0 == entries@[i as int].0);
                            }
                        }
                        if a == entry.1 {
                            assert(entries@[i as int] == (actor, a));
                        }
                    } else {
                        assert(gives(levels@, actor, a) == gives(before, actor, a));
                        if gives(before, actor, a) {
                            let k = choose|k: int| 0 <= k < i && entries@[k] == (actor, a);
                            assert(0 <= k < i + 1 && entries@[k] == (actor, a));
                        }
                        if exists|k: int| 0 <= k < i + 1 && entries@[k] == (actor, a) {
                            let k = choose|k: int| 0 <= k < i + 1 && entries@[k] == (actor, a);
                            assert(k < i);
                        }
                    }
                }
            }
            i += 1;
        }
        self.levels = levels;
        proof {
            assert forall|actor: ActorId, a: Access| #[trigger]
                gives(self.levels(), actor, a) <==> entries@.contains((actor, a)) by {
                if entries@.contains((actor, a)) {
                    let k = choose|k: int| 0 <= k < entries@.len() && entries@[k] == (actor, a);
                    assert(0 <= k < i && entries@[k] == (actor, a));
                }
            }
        }
    }

    /// The orderer, to hand operations to.
    pub fn orderer(&mut self) -> (r: &mut AuthOrderer)
        ensures
            r.applied() == old(self).applied(),
            r.pending() == old(self).pending(),
            final(self).applied() == final(r).applied(),
            final(self).pending() == final(r).pending(),
            final(self).levels() == old(self).levels(),
    {
        &mut self.orderer
    }
}

impl Clone for AuthGroupState {
    fn clone(&self) -> (r: AuthGroupState)
        ensures
            r.levels() == self.levels(),
            r.applied() == self.applied(),
            r.pending() == self.pending(),
    {
        AuthGroupState { orderer: self.orderer.clone(), levels: self.levels.clone() }
    }
}

} // verus!
