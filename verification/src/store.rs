use vstd::prelude::*;
use std::collections::HashMap;
use p2panda_encryption::key_manager::PreKeyBundlesState;
use p2panda_encryption::key_registry::{KeyRegistry, KeyRegistryState};
use p2panda_encryption::traits::IdentityRegistry;
use crate::model::SpaceModel;
use crate::orderer::AuthOrderer;
use crate::roster::{gives, AuthGroupState};
use crate::space::SpaceState;
use crate::types::{copy_of, Access, ActorId, Operation, OperationId, OperationView, SpaceId};

verus! {

broadcast use vstd::std_specs::hash::group_hash_axioms;

/// The pre-keys of an actor with their secrets, as p2panda-encryption holds
/// them. Nothing inside is visible here.
#[verifier::external_type_specification]
#[verifier::external_body]
pub struct ExPreKeyBundlesState(PreKeyBundlesState);

/// The state of a key registry of p2panda-encryption, with the actors of this
/// library as its identities. Nothing inside is visible here: what is known of
/// it is what the functions below say.
#[verifier::external_body]
pub struct RegistryState {
    inner: KeyRegistryState<ActorId>,
}

/// The actors whose identity key a key registry holds.
pub uninterp spec fn registry_identities(y: RegistryState) -> Set<ActorId>;

/// The number of pre-key bundles that a collection of pre-keys holds.
pub uninterp spec fn prekey_count(y: PreKeyBundlesState) -> nat;

/// `KeyRegistry::init` of p2panda-encryption. Trusted: the registry that it
/// returns holds the identity key of no actor.
#[verifier::external_body]
fn fresh_registry() -> (r: RegistryState)
    ensures
        registry_identities(r) == Set::<ActorId>::empty(),
{
    RegistryState { inner: KeyRegistry::<ActorId>::init() }
}

/// `KeyRegistry::identity_key` of p2panda-encryption. Trusted: it finds a key
/// for the actors whose identity key the registry holds, and for no other.
#[verifier::external_body]
fn registry_knows(y: &RegistryState, actor: ActorId) -> (r: bool)
    ensures
        r == registry_identities(*y).contains(actor),
{
    match KeyRegistry::<ActorId>::identity_key(&y.inner, &actor) {
        Ok(key) => key.is_some(),
    }
}

/// `PreKeyBundlesState::default` of p2panda-encryption. Trusted: the collection
/// that it returns holds no pre-key bundle.
#[verifier::external_body]
fn fresh_prekeys() -> (r: PreKeyBundlesState)
    ensures
        prekey_count(r) == 0,
{
    PreKeyBundlesState::default()
}

/// `Clone::clone` on the `KeyRegistryState` of p2panda-encryption. Trusted: the
/// copy equals the value that was copied.
#[verifier::external_body]
fn copy_registry(y: &RegistryState) -> (r: RegistryState)
    ensures
        r == *y,
{
    RegistryState { inner: y.inner.clone() }
}

/// `Clone::clone` on the `PreKeyBundlesState` of p2panda-encryption. Trusted:
/// the copy equals the value that was copied.
#[verifier::external_body]
fn copy_prekeys(y: &PreKeyBundlesState) -> (r: PreKeyBundlesState)
    ensures
        r == *y,
{
    y.clone()
}

/// What a key store holds: the pre-keys of the local actor with their secrets,
/// and the published key material of the others.
pub struct TestKeyStoreInner {
    prekey_secrets: PreKeyBundlesState,
    key_registry: RegistryState,
}

/// A key store in memory.
pub struct TestKeyStore {
    pub(crate) inner: TestKeyStoreInner,
}

impl TestKeyStore {
    /// The key registry that the store holds.
    pub closed spec fn registry(&self) -> RegistryState {
        self.inner.key_registry
    }

    /// The pre-keys that the store holds.
    pub closed spec fn secrets(&self) -> PreKeyBundlesState {
        self.inner.prekey_secrets
    }

    /// A store with no pre-key and an empty registry.
    pub fn new() -> (r: TestKeyStore)
        ensures
            prekey_count(r.secrets()) == 0,
            registry_identities(r.registry()) == Set::<ActorId>::empty(),
    {
        let inner = TestKeyStoreInner {
            prekey_secrets: fresh_prekeys(),
            key_registry: fresh_registry(),
        };
        TestKeyStore { inner }
    }

    /// Whether the key registry holds the identity key of `actor`.
    pub fn has_identity(&self, actor: ActorId) -> (r: bool)
        ensures
            r == registry_identities(self.registry()).contains(actor),
    {
        registry_knows(&self.inner.key_registry, actor)
    }

    /// A copy of the key registry.
    pub fn key_registry(&self) -> (r: RegistryState)
        ensures
            r == self.registry(),
    {
        copy_registry(&self.inner.key_registry)
    }

    /// Puts a copy of `y` in the place of the key registry.
    pub fn set_key_registry(&mut self, y: &RegistryState)
        ensures
            final(self).registry() == *y,
            final(self).secrets() == old(self).secrets(),
    {
        self.inner.key_registry = copy_registry(y);
    }

    /// A copy of the pre-keys.
    pub fn prekey_secrets(&self) -> (r: PreKeyBundlesState)
        ensures
            r == self.secrets(),
    {
        copy_prekeys(&self.inner.prekey_secrets)
    }

    /// Puts a copy of `y` in the place of the pre-keys.
    pub fn set_prekey_secrets(&mut self, y: &PreKeyBundlesState)
        ensures
            final(self).secrets() == *y,
            final(self).registry() == old(self).registry(),
    {
        self.inner.prekey_secrets = copy_prekeys(y);
    }
}

/// `access` is the highest level that `actor` holds in any of `spaces`.
pub open spec fn tops(spaces: Map<SpaceId, SpaceModel>, actor: ActorId, access: Access) -> bool {
    &&& exists|id: SpaceId|
        spaces.dom().contains(id) && (#[trigger] spaces[id]).holds(actor, access)
    &&& forall|id: SpaceId, b: Access|
        spaces.dom().contains(id) && (#[trigger] spaces[id].holds(actor, b)) ==> b.level()
            <= access.level()
}

/// An actor has one highest level.
pub proof fn lemma_tops_unique(spaces: Map<SpaceId, SpaceModel>, actor: ActorId, a: Access, b: Access)
    requires
        tops(spaces, actor, a),
        tops(spaces, actor, b),
    ensures
        a == b,
{
    let i = choose|id: SpaceId| spaces.dom().contains(id) && (#[trigger] spaces[id]).holds(actor, a);
    let j = choose|id: SpaceId| spaces.dom().contains(id) && (#[trigger] spaces[id]).holds(actor, b);
    assert(spaces[i].holds(actor, a));
    assert(spaces[j].holds(actor, b));
    assert(a.level() <= b.level());
    assert(b.level() <= a.level());
}

/// The roster that `spaces` give: every actor that is a member of some space,
/// with the highest level that it holds in any.
pub open spec fn derived_roster(spaces: Map<SpaceId, SpaceModel>) -> Map<ActorId, Access> {
    Map::new(
        |actor: ActorId| exists|a: Access| tops(spaces, actor, a),
        |actor: ActorId| choose|a: Access| tops(spaces, actor, a),
    )
}

/// What a store holds: the roster, the spaces by their identifiers, and the
/// operations by theirs.
pub struct MemoryStoreInner {
    auth: AuthGroupState,
    spaces: HashMap<SpaceId, SpaceState>,
    ids: Vec<SpaceId>,
    messages: HashMap<OperationId, Operation>,
}

/// A store in memory. Every read hands out a copy, so that nothing read from
/// the store changes when the store does.
pub struct MemoryStore {
    pub(crate) inner: MemoryStoreInner,
}

impl MemoryStore {
    /// The spaces that the store holds.
    pub closed spec fn spaces(&self) -> Map<SpaceId, SpaceModel> {
        Map::new(
            |k: SpaceId| self.inner.spaces@.contains_key(k),
            |k: SpaceId| self.inner.spaces@[k]@,
        )
    }

    /// The operations that the store holds.
    pub closed spec fn messages(&self) -> Map<OperationId, OperationView> {
        Map::new(
            |k: OperationId| self.inner.messages@.contains_key(k),
            |k: OperationId| self.inner.messages@[k]@,
        )
    }

    /// The level of each actor on the roster.
    pub closed spec fn levels(&self) -> Map<ActorId, Access> {
        self.inner.auth.levels()
    }

    /// The operations that the roster's orderer counts as applied.
    pub closed spec fn applied(&self) -> Set<OperationId> {
        self.inner.auth.applied()
    }

    /// The operations that wait in the roster's orderer.
    pub closed spec fn pending(&self) -> Seq<OperationView> {
        self.inner.auth.pending()
    }

    /// The store lists each of its spaces once.
    pub closed spec fn wf(&self) -> bool {
        &&& self.inner.ids@.no_duplicates()
        &&& self.inner.ids@.to_set() == self.inner.spaces@.dom()
    }

    /// A store without spaces and operations, with an empty roster.
    pub fn new() -> (r: MemoryStore)
        ensures
            r.wf(),
            r.spaces() == Map::<SpaceId, SpaceModel>::empty(),
            r.messages() == Map::<OperationId, OperationView>::empty(),
            r.levels() == Map::<ActorId, Access>::empty(),
            r.applied() == Set::<OperationId>::empty(),
            r.pending() == Seq::<OperationView>::empty(),
    {
        let orderer = AuthOrderer::init();
        let auth = AuthGroupState::new(orderer);
        let inner = MemoryStoreInner {
            auth,
            spaces: HashMap::new(),
            ids: Vec::new(),
            messages: HashMap::new(),
        };
        let r = MemoryStore { inner };
        proof {
            assert(r.spaces() =~= Map::<SpaceId, SpaceModel>::empty());
            assert(r.messages() =~= Map::<OperationId, OperationView>::empty());
            assert(r.inner.ids@.to_set() =~= r.inner.spaces@.dom());
        }
        r
    }

    /// A copy of the space `id`, if the store holds it.
    pub fn space(&self, id: &SpaceId) -> (r: Option<SpaceState>)
        ensures
            match r {
                Some(y) => self.spaces().dom().contains(*id) && y@ == self.spaces()[*id],
                None => !self.spaces().dom().contains(*id),
            },
    {
        match self.inner.spaces.get(id) {
            Some(y) => Some(y.clone()),
            None => None,
        }
    }

    /// Whether the store holds the space `id`.
    pub fn has_space(&self, id: &SpaceId) -> (r: bool)
        ensures
            r == self.spaces().dom().contains(*id),
    {
        self.inner.spaces.contains_key(id)
    }

    /// The identifiers of the spaces that the store holds, each once, in the
    /// order in which the spaces were first set.
    pub fn spaces_ids(&self) -> (r: Vec<SpaceId>)
        requires
            self.wf(),
        ensures
            r@.no_duplicates(),
            r@.to_set() == self.spaces().dom(),
    {
        let r = copy_of(&self.inner.ids);
        proof {
            assert(r@.to_set() =~= self.spaces().dom());
        }
        r
    }

    /// Puts `y` in the place of the space `id`, or adds it.
    pub fn set_space(&mut self, id: &SpaceId, y: SpaceState)
        requires
            old(self).wf(),
        ensures
            final(self).wf(),
            final(self).spaces() == old(self).spaces().insert(*id, y@),
            final(self).messages() == old(self).messages(),
            final(self).levels() == old(self).levels(),
            final(self).applied() == old(self).applied(),
            final(self).pending() == old(self).pending(),
    {
        if !self.inner.spaces.contains_key(id) {
            proof {
                self.inner.ids@.lemma_push_to_set_commute(*id);
                assert(!self.inner.ids@.contains(*id)) by {
                    if self.inner.ids@.contains(*id) {
                        assert(self.inner.ids@.to_set().contains(*id));
                    }
                }
            }
            self.inner.ids.push(*id);
        }
        self.inner.spaces.insert(*id, y);
        proof {
            assert(self.inner.ids@.to_set() =~= self.inner.spaces@.dom());
            assert(self.spaces() =~= old(self).spaces().insert(*id, y@));
        }
    }

    /// A copy of the roster.
    pub fn auth(&self) -> (r: AuthGroupState)
        ensures
            r.levels() == self.levels(),
            r.applied() == self.applied(),
            r.pending() == self.pending(),
    {
        self.inner.auth.clone()
    }

    /// Puts a copy of `y` in the place of the roster.
    pub fn set_auth(&mut self, y: &AuthGroupState)
        ensures
            final(self).levels() == y.levels(),
            final(self).applied() == y.applied(),
            final(self).pending() == y.pending(),
            final(self).spaces() == old(self).spaces(),
            final(self).messages() == old(self).messages(),
            final(self).wf() == old(self).wf(),
    {
        self.inner.auth = y.clone();
    }

    /// A copy of the operation `id`, if the store holds it.
    pub fn message(&self, id: &OperationId) -> (r: Option<Operation>)
        ensures
            match r {
                Some(m) => self.messages().dom().contains(*id) && m@ == self.messages()[*id],
                None => !self.messages().dom().contains(*id),
            },
    {
        match self.inner.messages.get(id) {
            Some(m) => Some(m.clone()),
            None => None,
        }
    }

    /// Puts a copy of `message` in the place of the operation `id`, or adds it.
    pub fn set_message(&mut self, id: &OperationId, message: &Operation)
        ensures
            final(self).messages() == old(self).messages().insert(*id, message@),
            final(self).spaces() == old(self).spaces(),
            final(self).levels() == old(self).levels(),
            final(self).applied() == old(self).applied(),
            final(self).pending() == old(self).pending(),
            final(self).wf() == old(self).wf(),
    {
        let copy = message.clone();
        self.inner.messages.insert(*id, copy);
        proof {
            assert(self.messages() =~= old(self).messages().insert(*id, message@));
        }
    }

    /// The highest level that `actor` holds in any space of the store, or `None`
    /// where `actor` is a member of none.
    pub fn highest_access(&self, actor: ActorId) -> (r: Option<Access>)
        requires
            self.wf(),
        ensures
            match r {
                Some(a) => tops(self.spaces(), actor, a),
                None => forall|id: SpaceId, b: Access|
                    self.spaces().dom().contains(id) ==> !(#[trigger] self.spaces()[id].holds(actor, b)),
            },
            forall|a: Access| tops(self.spaces(), actor, a) ==> r == Some(a),
    {
        let mut best: Option<Access> = None;
        let mut i: usize = 0;
        while i < self.inner.ids.len()
            invariant
                i <= self.inner.ids.len(),
                self.wf(),
                match best {
                    Some(a) => (exists|k: int|
                        0 <= k < i && (#[trigger] self.spaces()[self.inner.ids@[k]]).holds(actor, a))
                        && forall|k: int, b: Access|
                        0 <= k < i && (#[trigger] self.spaces()[self.inner.ids@[k]].holds(actor, b))
                            ==> b.level() <= a.level(),
                    None => forall|k: int, b: Access|
                        0 <= k < i ==> !(#[trigger] self.spaces()[self.inner.ids@[k]].holds(actor, b)),
                },
            decreases self.inner.ids.len() - i,
        {
            let id = self.inner.ids[i];
            proof {
                assert(self.inner.ids@.to_set().contains(self.inner.ids@[i as int]));
                assert(self.inner.spaces@.dom().contains(id));
            }
            let y = self.inner.spaces.get(&id).unwrap();
            let found = y.access_of(actor);
            proof {
                assert(y@ == self.spaces()[id]);
            }
            match found {
                Some(a) => {
                    let better = match best {
                        Some(b) => !b.at_least(a),
                        None => true,
                    };
                    if better {
                        best = Some(a);
                    }
                },
                None => {},
            }
            i += 1;
        }
        proof {
            assert forall|id: SpaceId| self.spaces().dom().contains(id) implies exists|k: int|
                0 <= k < self.inner.ids@.len() && self.inner.ids@[k] == id by {
                assert(self.inner.ids@.to_set().contains(id));
            }
            match best {
                Some(a) => {
                    let k = choose|k: int|
                        0 <= k < i && (#[trigger] self.spaces()[self.inner.ids@[k]]).holds(actor, a);
                    assert(self.inner.ids@.to_set().contains(self.inner.ids@[k]));
                    assert(self.spaces().dom().contains(self.inner.ids@[k]));
                    assert forall|id: SpaceId, b: Access|
                        self.spaces().dom().contains(id) && (#[trigger] self.spaces()[id].holds(
                            actor,
                            b,
                        )) implies b.level() <= a.level() by {
                        let j = choose|j: int|
                            0 <= j < self.inner.ids@.len() && self.inner.ids@[j] == id;
                        assert(self.spaces()[self.inner.ids@[j]].holds(actor, b));
                    }
                },
                None => {
                    assert forall|id: SpaceId, b: Access|
                        self.spaces().dom().contains(id) implies !(#[trigger] self.spaces()[id].holds(
                        actor,
                        b,
                    )) by {
                        let j = choose|j: int|
                            0 <= j < self.inner.ids@.len() && self.inner.ids@[j] == id;
                        if self.spaces()[id].holds(actor, b) {
                            assert(self.spaces()[self.inner.ids@[j]].holds(actor, b));
                        }
                    }
                },
            }
        }
        proof {
            assert forall|a: Access| tops(self.spaces(), actor, a) implies best == Some(a) by {
                let id = choose|id: SpaceId|
                    self.spaces().dom().contains(id) && (#[trigger] self.spaces()[id]).holds(
                        actor,
                        a,
                    );
                assert(self.spaces()[id].holds(actor, a));
                match best {
                    Some(b) => {
                        let other = choose|other: SpaceId|
                            self.spaces().dom().contains(other) && (
                            #[trigger] self.spaces()[other]).holds(actor, b);
                        assert(self.spaces()[other].holds(actor, b));
                        assert(a.level() <= b.level());
                        assert(b.level() <= a.level());
                    },
                    None => {},
                }
            }
        }
        best
    }

    /// The roster as the spaces give it: every actor that is a member of some
    /// space, once, with the highest level that it holds in any.
    pub fn roster_view(&self) -> (r: Vec<(ActorId, Access)>)
        requires
            self.wf(),
        ensures
            forall|actor: ActorId, a: Access|
                r@.contains((actor, a)) <==> tops(self.spaces(), actor, a),
            forall|i: int, j: int| 0 <= i < j < r@.len() ==> r@[i].0 != r@[j].0,
    {
        let mut out: Vec<(ActorId, Access)> = Vec::new();
        let mut i: usize = 0;
        while i < self.inner.ids.len()
            invariant
                i <= self.inner.ids.len(),
                self.wf(),
                forall|k: int| 0 <= k < out@.len() ==> tops(self.spaces(), out@[k].0, out@[k].1),
                forall|k: int, j: int| 0 <= k < j < out@.len() ==> out@[k].0 != out@[j].0,
                forall|k: int, actor: ActorId, b: Access|
                    0 <= k < i && #[trigger] self.spaces()[self.inner.ids@[k]].holds(actor, b)
                        ==> exists|w: int| 0 <= w < out@.len() && out@[w].0 == actor,
            decreases self.inner.ids.len() - i,
        {
            let id = self.inner.ids[i];
            proof {
                assert(self.inner.ids@.to_set().contains(self.inner.ids@[i as int]));
                assert(self.inner.spaces@.dom().contains(id));
            }
            let y = self.inner.spaces.get(&id).unwrap();
            proof {
                assert(y@ == self.spaces()[id]);
            }
            let members = y.members();
            let mut m: usize = 0;
            while m < members.len()
                invariant
                    m <= members.len(),
                    i < self.inner.ids.len(),
                    self.wf(),
                    id == self.inner.ids@[i as int],
                    self.spaces().dom().contains(id),
                    forall|actor: ActorId, a: Access|
                        members@.contains((actor, a)) <==> self.spaces()[id].holds(actor, a),
                    forall|k: int|
                        0 <= k < out@.len() ==> tops(self.spaces(), out@[k].0, out@[k].1),
                    forall|k: int, j: int| 0 <= k < j < out@.len() ==> out@[k].0 != out@[j].0,
                    forall|k: int, actor: ActorId, b: Access|
                        0 <= k < i && #[trigger] self.spaces()[self.inner.ids@[k]].holds(actor, b)
                            ==> exists|w: int| 0 <= w < out@.len() && out@[w].0 == actor,
                    forall|k: int|
                        0 <= k < m ==> exists|w: int|
                            0 <= w < out@.len() && out@[w].0 == (#[trigger] members@[k]).0,
                decreases members.len() - m,
            {
                let actor = members[m].0;
                let mut seen = false;
                let mut j: usize = 0;
                while j < out.len()
                    invariant
                        j <= out@.len(),
                        seen <==> exists|k: int| 0 <= k < j && out@[k].0 == actor,
                    decreases out.len() - j,
                {
                    if out[j].0 == actor {
                        seen = true;
                    }
                    j += 1;
                }
                let ghost before = out@;
                if !seen {
                    proof {
                        assert(members@.contains(members@[m as int]));
                        assert(self.spaces()[id].holds(actor, members@[m as int].1));
                    }
                    match self.highest_access(actor) {
                        Some(a) => {
                            out.push((actor, a));
                        },
                        None => {},
                    }
                }
                proof {
                    assert forall|k: int| 0 <= k < before.len() implies out@[k] == before[k] by {}
                    assert(exists|w: int| 0 <= w < out@.len() && out@[w].0 == actor) by {
                        if seen {
                            let w = choose|w: int| 0 <= w < before.len() && before[w].0 == actor;
                            assert(out@[w].0 == actor);
                        } else {
                            assert(out@[out@.len() - 1].0 == actor);
                        }
                    }
                    assert forall|k: int, who: ActorId, b: Access|
                        0 <= k < i && #[trigger] self.spaces()[self.inner.ids@[k]].holds(
                            who,
                            b,
                        ) implies exists|w: int| 0 <= w < out@.len() && out@[w].0 == who by {
                        let w = choose|w: int| 0 <= w < before.len() && before[w].0 == who;
                        assert(out@[w].0 == who);
                    }
                    assert forall|k: int| 0 <= k < m + 1 implies exists|w: int|
                        0 <= w < out@.len() && out@[w].0 == (#[trigger] members@[k]).0 by {
                        if k < m {
                            let w = choose|w: int|
                                0 <= w < before.len() && before[w].0 == members@[k].0;
                            assert(out@[w].0 == members@[k].0);
                        }
                    }
                }
                m += 1;
            }
            proof {
                assert forall|k: int, actor: ActorId, b: Access|
                    0 <= k < i + 1 && #[trigger] self.spaces()[self.inner.ids@[k]].holds(
                        actor,
                        b,
                    ) implies exists|w: int| 0 <= w < out@.len() && out@[w].0 == actor by {
                    if k == i {
                        assert(members@.contains((actor, b)));
                        let q = choose|q: int| 0 <= q < members@.len() && members@[q] == (actor, b);
                        assert(members@[q].0 == actor);
                    }
                }
            }
            i += 1;
        }
        proof {
            assert forall|actor: ActorId, a: Access| tops(self.spaces(), actor, a) implies out@.contains(
                (actor, a),
            ) by {
                let id = choose|id: SpaceId|
                    self.spaces().dom().contains(id) && (#[trigger] self.spaces()[id]).holds(
                        actor,
                        a,
                    );
                assert(self.inner.ids@.to_set().contains(id));
                let k = choose|k: int| 0 <= k < self.inner.ids@.len() && self.inner.ids@[k] == id;
                assert(self.spaces()[self.inner.ids@[k]].holds(actor, a));
                let w = choose|w: int| 0 <= w < out@.len() && out@[w].0 == actor;
                let b = out@[w].1;
                assert(tops(self.spaces(), out@[w].0, out@[w].1));
                let other = choose|other: SpaceId|
                    self.spaces().dom().contains(other) && (#[trigger] self.spaces()[other]).holds(
                        actor,
                        b,
                    );
                assert(self.spaces()[other].holds(actor, b));
                assert(self.spaces()[id].holds(actor, a));
                assert(a.level() <= b.level());
                assert(b.level() <= a.level());
                assert(out@[w] == (actor, a));
            }
            assert forall|actor: ActorId, a: Access| out@.contains((actor, a)) implies tops(
                self.spaces(),
                actor,
                a,
            ) by {
                let w = choose|w: int| 0 <= w < out@.len() && out@[w] == (actor, a);
                assert(tops(self.spaces(), out@[w].0, out@[w].1));
            }
        }
        out
    }

    /// Brings the levels of the roster in line with the spaces.
    pub fn refresh_roster(&mut self)
        requires
            old(self).wf(),
        ensures
            final(self).wf(),
            final(self).levels() == derived_roster(old(self).spaces()),
            final(self).spaces() == old(self).spaces(),
            final(self).messages() == old(self).messages(),
            final(self).applied() == old(self).applied(),
            final(self).pending() == old(self).pending(),
    {
        let view = self.roster_view();
        self.inner.auth.replace_levels(&view);
        proof {
            let want = derived_roster(old(self).spaces());
            let spaces = old(self).spaces();
            assert forall|actor: ActorId| self.levels().dom().contains(actor) <==> want.dom().contains(
                actor,
            ) by {
                if self.levels().dom().contains(actor) {
                    let a = self.levels()[actor];
                    assert(gives(self.levels(), actor, a));
                    assert(view@.contains((actor, a)));
                    assert(tops(spaces, actor, a));
                }
                if want.dom().contains(actor) {
                    let a = choose|a: Access| tops(spaces, actor, a);
                    assert(view@.contains((actor, a)));
                    assert(gives(self.levels(), actor, a));
                }
            }
            assert forall|actor: ActorId| self.levels().dom().contains(actor) implies self.levels()[actor]
                == want[actor] by {
                let a = self.levels()[actor];
                assert(gives(self.levels(), actor, a));
                assert(view@.contains((actor, a)));
                assert(tops(spaces, actor, a));
                let b = choose|b: Access| tops(spaces, actor, b);
                lemma_tops_unique(spaces, actor, a, b);
            }
            assert(self.levels() =~= want);
        }
    }
}

} // verus!
