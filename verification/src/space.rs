use vstd::prelude::*;
use std::collections::HashMap;
use crate::laws::law_step_keeps_well_formed;
use crate::model::{grant_of, initial_grants, Grant, Removal, SpaceModel};
use crate::types::{copy_of, Access, Action, ActorId, Operation, OperationId, SpaceError};

verus! {

broadcast use vstd::std_specs::hash::group_hash_axioms;

/// Whether `x` occurs in `v`.
pub fn holds_id(v: &Vec<OperationId>, x: OperationId) -> (r: bool)
    ensures
        r == v@.contains(x),
{
    let mut i: usize = 0;
    while i < v.len()
        invariant
            i <= v.len(),
            forall|k: int| 0 <= k < i ==> v@[k] != x,
        decreases v.len() - i,
    {
        if v[i] == x {
            return true;
        }
        i += 1;
    }
    false
}

/// Whether `g` wins over `h` where both are heads.
fn beats(g: Grant, h: Grant) -> (r: bool)
    ensures
        r == SpaceModel::outranks(g, h),
{
    h.seq < g.seq || (h.seq == g.seq && (h.author < g.author || (h.author == g.author
        && g.access.at_least(h.access))))
}

/// What `s.push(v)` holds: what `s` holds, and `v`.
proof fn push_contains<A>(s: Seq<A>, v: A)
    ensures
        forall|x: A| #[trigger] s.push(v).contains(x) <==> (s.contains(x) || x == v),
        s.push(v).to_set() == s.to_set().insert(v),
{
    assert forall|x: A| s.push(v).contains(x) <==> (s.contains(x) || x == v) by {
        if s.push(v).contains(x) {
            let k = choose|k: int| 0 <= k < s.push(v).len() && s.push(v)[k] == x;
            if k < s.len() {
                assert(s[k] == x);
            }
        }
        if s.contains(x) {
            let k = choose|k: int| 0 <= k < s.len() && s[k] == x;
            assert(s.push(v)[k] == x);
        }
        if x == v {
            assert(s.push(v)[s.len() as int] == x);
        }
    }
    s.lemma_push_to_set_commute(v);
}

/// The frontier after an operation `id` with the dependencies `deps`.
fn advance(frontier: &Vec<OperationId>, deps: &Vec<OperationId>, id: OperationId) -> (r: Vec<
    OperationId,
>)
    ensures
        r@.to_set() == frontier@.to_set().difference(deps@.to_set()).insert(id),
{
    let mut out: Vec<OperationId> = Vec::new();
    out.push(id);
    proof {
        push_contains(Seq::<OperationId>::empty(), id);
        assert(out@ =~= Seq::<OperationId>::empty().push(id));
        assert(frontier@.subrange(0, 0).to_set() =~= Set::<OperationId>::empty());
        assert(out@.to_set() =~= frontier@.subrange(0, 0).to_set().difference(
            deps@.to_set(),
        ).insert(id));
    }
    let mut i: usize = 0;
    while i < frontier.len()
        invariant
            i <= frontier.len(),
            out@.to_set() == frontier@.subrange(0, i as int).to_set().difference(
                deps@.to_set(),
            ).insert(id),
        decreases frontier.len() - i,
    {
        let f = frontier[i];
        proof {
            push_contains(frontier@.subrange(0, i as int), f);
            assert(frontier@.subrange(0, i + 1) =~= frontier@.subrange(0, i as int).push(f));
            push_contains(out@, f);
        }
        if !holds_id(deps, f) {
            out.push(f);
        }
        proof {
            assert(out@.to_set() =~= frontier@.subrange(0, i + 1).to_set().difference(
                deps@.to_set(),
            ).insert(id));
        }
        i += 1;
    }
    proof {
        assert(frontier@.subrange(0, i as int) =~= frontier@);
    }
    out
}

/// The membership view of one space, with what is needed to order and merge the
/// operations that reach it.
pub struct SpaceState {
    created: bool,
    past: HashMap<OperationId, Vec<OperationId>>,
    last_seq: HashMap<ActorId, u64>,
    grants: Vec<Grant>,
    removals: Vec<Removal>,
    frontier: Vec<OperationId>,
    epoch: u64,
}

impl View for SpaceState {
    type V = SpaceModel;

    closed spec fn view(&self) -> SpaceModel {
        SpaceModel {
            created: self.created,
            past: Map::new(
                |k: OperationId| self.past@.contains_key(k),
                |k: OperationId| self.past@[k]@.to_set(),
            ),
            last_seq: self.last_seq@,
            grants: self.grants@.to_set(),
            removals: self.removals@.to_set(),
            frontier: self.frontier@.to_set(),
            epoch: self.epoch as nat,
        }
    }
}

impl SpaceState {
    /// A space that no operation has reached yet.
    pub fn new() -> (r: SpaceState)
        ensures
            r@ == SpaceModel::empty(),
            r@.wf(),
    {
        let r = SpaceState {
            created: false,
            past: HashMap::new(),
            last_seq: HashMap::new(),
            grants: Vec::new(),
            removals: Vec::new(),
            frontier: Vec::new(),
            epoch: 0,
        };
        proof {
            assert(r@.past =~= Map::empty());
            assert(r@.last_seq =~= Map::empty());
            assert(r@.grants =~= Set::empty());
            assert(r@.removals =~= Set::empty());
            assert(r@.frontier =~= Set::empty());
        }
        r
    }

    /// The generation of the content key.
    pub fn epoch(&self) -> (r: u64)
        ensures
            r == self@.epoch,
    {
        self.epoch
    }

    /// Whether the space has been created.
    pub fn is_created(&self) -> (r: bool)
        ensures
            r == self@.created,
    {
        self.created
    }

    /// Whether the operation `id` has been kept.
    pub fn has_operation(&self, id: OperationId) -> (r: bool)
        ensures
            r == self@.past.dom().contains(id),
    {
        self.past.contains_key(&id)
    }

    /// Whether the kept operation `op` has `x` in its causal past.
    pub fn knows(&self, op: OperationId, x: OperationId) -> (r: bool)
        ensures
            r == (self@.past.dom().contains(op) && self@.past[op].contains(x)),
    {
        match self.past.get(&op) {
            Some(v) => holds_id(v, x),
            None => false,
        }
    }

    /// Whether every operation of `deps` has been kept.
    pub fn has_all(&self, deps: &Vec<OperationId>) -> (r: bool)
        ensures
            r == deps@.to_set().subset_of(self@.past.dom()),
    {
        let mut i: usize = 0;
        while i < deps.len()
            invariant
                i <= deps.len(),
                forall|k: int| 0 <= k < i ==> self@.past.dom().contains(deps@[k]),
            decreases deps.len() - i,
        {
            if !self.past.contains_key(&deps[i]) {
                proof {
                    assert(deps@.to_set().contains(deps@[i as int]));
                }
                return false;
            }
            i += 1;
        }
        proof {
            assert forall|x: OperationId| deps@.to_set().contains(x) implies self@.past.dom().contains(
                x,
            ) by {
                let k = choose|k: int| 0 <= k < deps@.len() && deps@[k] == x;
                assert(self@.past.dom().contains(deps@[k]));
            }
        }
        true
    }

    /// The operations that the next operation written here depends on.
    pub fn frontier(&self) -> (r: Vec<OperationId>)
        ensures
            r@.to_set() == self@.frontier,
    {
        copy_of(&self.frontier)
    }
}

impl SpaceState {
    /// The causal past of an operation with the dependencies `deps`, all kept.
    fn gather(&self, deps: &Vec<OperationId>) -> (r: Vec<OperationId>)
        requires
            deps@.to_set().subset_of(self@.past.dom()),
        ensures
            r@.to_set() == self@.past_of(deps@.to_set()),
    {
        let mut out: Vec<OperationId> = Vec::new();
        let mut i: usize = 0;
        proof {
            assert(out@.to_set() =~= self@.past_of(deps@.subrange(0, 0).to_set()));
        }
        while i < deps.len()
            invariant
                i <= deps.len(),
                deps@.to_set().subset_of(self@.past.dom()),
                out@.to_set() == self@.past_of(deps@.subrange(0, i as int).to_set()),
            decreases deps.len() - i,
        {
            let d = deps[i];
            let ghost done = deps@.subrange(0, i as int);
            proof {
                assert(deps@.to_set().contains(deps@[i as int]));
                assert(self@.past.dom().contains(d));
                push_contains(done, d);
                assert(deps@.subrange(0, i + 1) =~= done.push(d));
                push_contains(out@, d);
            }
            let ghost before = out@;
            out.push(d);
            let v = self.past.get(&d).unwrap();
            let mut j: usize = 0;
            while j < v.len()
                invariant
                    j <= v.len(),
                    v@.to_set() == self@.past[d],
                    out@.to_set() == before.to_set().insert(d).union(
                        v@.subrange(0, j as int).to_set(),
                    ),
                decreases v.len() - j,
            {
                proof {
                    push_contains(v@.subrange(0, j as int), v@[j as int]);
                    assert(v@.subrange(0, j + 1) =~= v@.subrange(0, j as int).push(v@[j as int]));
                    push_contains(out@, v@[j as int]);
                }
                out.push(v[j]);
                proof {
                    assert(out@.to_set() =~= before.to_set().insert(d).union(
                        v@.subrange(0, j + 1).to_set(),
                    ));
                }
                j += 1;
            }
            proof {
                assert(v@.subrange(0, j as int) =~= v@);
                assert(out@.to_set() =~= self@.past_of(done.push(d).to_set())) by {
                    let lhs = out@.to_set();
                    let rhs = self@.past_of(done.push(d).to_set());
                    assert forall|x: OperationId| lhs.contains(x) implies rhs.contains(x) by {
                        if self@.past[d].contains(x) {
                            assert(done.push(d).to_set().contains(d));
                        } else if x != d {
                            assert(self@.past_of(done.to_set()).contains(x));
                            if !done.to_set().contains(x) {
                                let e = choose|e: OperationId|
                                    done.to_set().contains(e) && self@.past.dom().contains(e)
                                        && #[trigger] self@.past[e].contains(x);
                                assert(done.push(d).to_set().contains(e));
                            }
                        }
                    }
                    assert forall|x: OperationId| rhs.contains(x) implies lhs.contains(x) by {
                        if !done.push(d).to_set().contains(x) {
                            let e = choose|e: OperationId|
                                done.push(d).to_set().contains(e) && self@.past.dom().contains(e)
                                    && #[trigger] self@.past[e].contains(x);
                            if e != d {
                                assert(done.to_set().contains(e));
                                assert(self@.past_of(done.to_set()).contains(x));
                            }
                        } else if x != d {
                            assert(done.to_set().contains(x));
                            assert(self@.past_of(done.to_set()).contains(x));
                        }
                    }
                }
            }
            i += 1;
        }
        proof {
            assert(deps@.subrange(0, i as int) =~= deps@);
        }
        out
    }

    /// Whether the operation of `g` is kept and knows of every removal of its target.
    fn covered(&self, g: Grant) -> (r: bool)
        requires
            self@.grants.contains(g),
        ensures
            r == self@.live(g),
    {
        if !self.past.contains_key(&g.op) {
            return false;
        }
        let mut j: usize = 0;
        while j < self.removals.len()
            invariant
                j <= self.removals.len(),
                self@.past.dom().contains(g.op),
                forall|k: int|
                    0 <= k < j && self.removals@[k].target == g.target ==> self@.past[g.op].contains(
                        #[trigger] self.removals@[k].op,
                    ),
            decreases self.removals.len() - j,
        {
            let r = self.removals[j];
            if r.target == g.target && !self.knows(g.op, r.op) {
                proof {
                    assert(self.removals@[j as int] == r);
                    assert(self@.removals.contains(r));
                }
                return false;
            }
            j += 1;
        }
        proof {
            assert forall|r: Removal| #[trigger]
                self@.removals.contains(r) && r.target == g.target implies self@.past[g.op].contains(
                r.op,
            ) by {
                let k = choose|k: int| 0 <= k < self.removals@.len() && self.removals@[k] == r;
                assert(self.removals@[k].op == r.op);
            }
        }
        true
    }

    /// Whether `g` is live and no live grant to its target came causally after it.
    fn leads(&self, g: Grant) -> (r: bool)
        requires
            self@.grants.contains(g),
        ensures
            r == self@.head(g),
    {
        if !self.covered(g) {
            return false;
        }
        let mut j: usize = 0;
        while j < self.grants.len()
            invariant
                j <= self.grants.len(),
                self@.live(g),
                forall|k: int|
                    0 <= k < j && self@.live(#[trigger] self.grants@[k]) && self.grants@[k].target
                        == g.target ==> !self@.past[self.grants@[k].op].contains(g.op),
            decreases self.grants.len() - j,
        {
            let h = self.grants[j];
            proof {
                assert(self.grants@[j as int] == h);
                assert(self@.grants.contains(h));
            }
            if h.target == g.target && self.covered(h) && self.knows(h.op, g.op) {
                return false;
            }
            j += 1;
        }
        proof {
            assert forall|h: Grant| #[trigger] self@.live(h) && h.target == g.target implies !self@.past[h.op].contains(
                g.op,
            ) by {
                let k = choose|k: int| 0 <= k < self.grants@.len() && self.grants@[k] == h;
                assert(self@.live(self.grants@[k]));
            }
        }
        true
    }

    /// The level that `actor` holds, or `None` where `actor` is no member.
    pub fn access_of(&self, actor: ActorId) -> (r: Option<Access>)
        ensures
            forall|a: Access| r == Some(a) <==> self@.holds(actor, a),
            r is None <==> !self@.is_member(actor),
    {
        let mut best: Option<Grant> = None;
        let mut i: usize = 0;
        while i < self.grants.len()
            invariant
                i <= self.grants.len(),
                match best {
                    Some(b) => self@.head(b) && b.target == actor && forall|k: int|
                        0 <= k < i && self@.head(#[trigger] self.grants@[k]) && self.grants@[k].target
                            == actor ==> SpaceModel::outranks(b, self.grants@[k]),
                    None => forall|k: int|
                        0 <= k < i ==> !(self@.head(#[trigger] self.grants@[k])
                            && self.grants@[k].target == actor),
                },
            decreases self.grants.len() - i,
        {
            let g = self.grants[i];
            proof {
                assert(self.grants@[i as int] == g);
                assert(self@.grants.contains(g));
            }
            if g.target == actor && self.leads(g) {
                match best {
                    Some(b) => {
                        if !beats(b, g) {
                            best = Some(g);
                        }
                    },
                    None => {
                        best = Some(g);
                    },
                }
            }
            i += 1;
        }
        proof {
            match best {
                Some(b) => {
                    assert forall|h: Grant| #[trigger]
                        self@.head(h) && h.target == actor implies SpaceModel::outranks(b, h) by {
                        let k = choose|k: int| 0 <= k < self.grants@.len() && self.grants@[k] == h;
                        assert(self@.head(self.grants@[k]));
                    }
                    assert(self@.holds(actor, b.access));
                    assert forall|a: Access| self@.holds(actor, a) implies a == b.access by {
                        let w = choose|w: Grant|
                            #![trigger self@.head(w)]
                            self@.head(w) && w.target == actor && w.access == a && forall|
                                h: Grant,
                            | #[trigger]
                                self@.head(h) && h.target == actor ==> SpaceModel::outranks(w, h);
                        assert(SpaceModel::outranks(w, b));
                        assert(SpaceModel::outranks(b, w));
                    }
                },
                None => {
                    assert forall|a: Access| !self@.holds(actor, a) by {
                        if self@.holds(actor, a) {
                            let w = choose|w: Grant|
                                #![trigger self@.head(w)]
                                self@.head(w) && w.target == actor && w.access == a;
                            let k = choose|k: int|
                                0 <= k < self.grants@.len() && self.grants@[k] == w;
                            assert(self@.head(self.grants@[k]));
                        }
                    }
                },
            }
        }
        match best {
            Some(b) => Some(b.access),
            None => None,
        }
    }

    /// The members of the space, each once, with the level that it holds. These
    /// are the actors who get the content key of the current epoch.
    pub fn members(&self) -> (r: Vec<(ActorId, Access)>)
        ensures
            forall|actor: ActorId, a: Access| r@.contains((actor, a)) <==> self@.holds(actor, a),
            forall|i: int, j: int| 0 <= i < j < r@.len() ==> r@[i].0 != r@[j].0,
    {
        let mut out: Vec<(ActorId, Access)> = Vec::new();
        let mut i: usize = 0;
        while i < self.grants.len()
            invariant
                i <= self.grants.len(),
                forall|k: int| 0 <= k < out@.len() ==> self@.holds(out@[k].0, out@[k].1),
                forall|k: int, j: int| 0 <= k < j < out@.len() ==> out@[k].0 != out@[j].0,
                forall|k: int, a: Access|
                    0 <= k < i && #[trigger] self@.holds(self.grants@[k].target, a) ==> out@.contains(
                        (self.grants@[k].target, a),
                    ),
            decreases self.grants.len() - i,
        {
            let t = self.grants[i].target;
            let mut seen = false;
            let mut j: usize = 0;
            while j < out.len()
                invariant
                    j <= out@.len(),
                    seen <==> exists|k: int| 0 <= k < j && out@[k].0 == t,
                decreases out.len() - j,
            {
                if out[j].0 == t {
                    seen = true;
                }
                j += 1;
            }
            let found = self.access_of(t);
            let ghost before = out@;
            if !seen {
                match found {
                    Some(a) => {
                        out.push((t, a));
                    },
                    None => {},
                }
            }
            proof {
                assert forall|k: int, a: Access|
                    0 <= k < i + 1 && #[trigger] self@.holds(
                        self.grants@[k].target,
                        a,
                    ) implies out@.contains((self.grants@[k].target, a)) by {
                    if k < i {
                        assert(before.contains((self.grants@[k].target, a)));
                        let w = choose|w: int|
                            0 <= w < before.len() && before[w] == (self.grants@[k].target, a);
                        assert(out@[w] == before[w]);
                    } else {
                        assert(found == Some(a));
                        if seen {
                            let w = choose|w: int| 0 <= w < before.len() && before[w].0 == t;
                            assert(self@.holds(before[w].0, before[w].1));
                            assert(before[w] == (t, a));
                            assert(out@[w] == (t, a));
                        } else {
                            assert(out@[out@.len() - 1] == (t, a));
                        }
                    }
                }
            }
            i += 1;
        }
        proof {
            assert forall|actor: ActorId, a: Access| self@.holds(actor, a) implies out@.contains(
                (actor, a),
            ) by {
                let g = choose|g: Grant|
                    #![trigger self@.head(g)]
                    self@.head(g) && g.target == actor && g.access == a;
                let k = choose|k: int| 0 <= k < self.grants@.len() && self.grants@[k] == g;
                assert(self@.holds(self.grants@[k].target, a));
            }
            assert forall|actor: ActorId, a: Access| out@.contains((actor, a)) implies self@.holds(
                actor,
                a,
            ) by {
                let k = choose|k: int| 0 <= k < out@.len() && out@[k] == (actor, a);
                assert(self@.holds(out@[k].0, out@[k].1));
            }
        }
        out
    }

    /// Whether `seq` is the next sequence number of `author`.
    fn in_sequence(&self, author: ActorId, seq: u64) -> (r: bool)
        ensures
            r == self@.seq_expected(author, seq),
    {
        match self.last_seq.get(&author) {
            Some(last) => *last < u64::MAX && seq == *last + 1,
            None => seq == 0,
        }
    }

    /// The access gate for `op`, on the members as they are now.
    pub fn permits(&self, op: &Operation) -> (r: bool)
        ensures
            r == self@.permits(op@),
    {
        match &op.action {
            Action::CreateSpace { .. } => true,
            Action::SendContent { .. } => {
                match self.access_of(op.author) {
                    Some(a) => a.at_least(Access::Write),
                    None => false,
                }
            },
            _ => {
                match self.access_of(op.author) {
                    Some(Access::Admin) => true,
                    _ => false,
                }
            },
        }
    }
}

impl SpaceState {
    /// Keeps `op` for ordering: its causal past, its sequence number, the frontier.
    fn keep(&mut self, op: &Operation)
        requires
            op.deps@.to_set().subset_of(old(self)@.past.dom()),
        ensures
            final(self)@ == old(self)@.retain(op@),
    {
        let past = self.gather(&op.deps);
        let frontier = advance(&self.frontier, &op.deps, op.id);
        self.past.insert(op.id, past);
        self.last_seq.insert(op.author, op.seq);
        self.frontier = frontier;
        proof {
            let want = old(self)@.retain(op@);
            assert(self@.past =~= want.past);
            assert(self@.last_seq =~= want.last_seq);
            assert(self@.frontier =~= want.frontier);
        }
    }

    /// Lets the action of `op` take effect, once `op` is kept and accepted.
    fn enact(&mut self, op: &Operation)
        requires
            old(self)@.epoch < u64::MAX,
        ensures
            final(self)@ == old(self)@.effect(op@),
    {
        match &op.action {
            Action::CreateSpace { initial } => {
                let ghost base = self.grants@;
                let creator = Grant {
                    op: op.id,
                    target: op.author,
                    access: Access::Admin,
                    seq: op.seq,
                    author: op.author,
                };
                self.created = true;
                self.epoch = self.epoch + 1;
                self.grants.push(creator);
                proof {
                    push_contains(base, creator);
                    assert(initial_grants(op@, initial@.subrange(0, 0)) =~= Set::<Grant>::empty());
                    assert(self.grants@.to_set() =~= base.to_set().insert(creator).union(
                        initial_grants(op@, initial@.subrange(0, 0)),
                    ));
                }
                let mut i: usize = 0;
                while i < initial.len()
                    invariant
                        i <= initial.len(),
                        self.created,
                        self.epoch == old(self).epoch + 1,
                        self.past == old(self).past,
                        self.last_seq == old(self).last_seq,
                        self.removals == old(self).removals,
                        self.frontier == old(self).frontier,
                        self.grants@.to_set() == base.to_set().insert(creator).union(
                            initial_grants(op@, initial@.subrange(0, i as int)),
                        ),
                    decreases initial.len() - i,
                {
                    let entry = initial[i];
                    let g = Grant {
                        op: op.id,
                        target: entry.0,
                        access: entry.1,
                        seq: op.seq,
                        author: op.author,
                    };
                    proof {
                        push_contains(self.grants@, g);
                        let done = initial@.subrange(0, i as int);
                        let next = initial@.subrange(0, i + 1);
                        assert(next[i as int] == entry);
                        assert(initial_grants(op@, next) =~= initial_grants(op@, done).insert(g)) by {
                            assert forall|x: Grant| initial_grants(op@, next).contains(x) implies (
                            initial_grants(op@, done).contains(x) || x == g) by {
                                let k = choose|k: int|
                                    0 <= k < next.len() && x == grant_of(
                                        op@,
                                        (#[trigger] next[k]).0,
                                        next[k].1,
                                    );
                                if k < i {
                                    assert(done[k] == next[k]);
                                }
                            }
                            assert forall|x: Grant| initial_grants(op@, done).contains(x) implies initial_grants(
                                op@,
                                next,
                            ).contains(x) by {
                                let k = choose|k: int|
                                    0 <= k < done.len() && x == grant_of(
                                        op@,
                                        (#[trigger] done[k]).0,
                                        done[k].1,
                                    );
                                assert(next[k] == done[k]);
                            }
                            assert(g == grant_of(op@, next[i as int].0, next[i as int].1));
                        }
                    }
                    self.grants.push(g);
                    proof {
                        assert(self.grants@.to_set() =~= base.to_set().insert(creator).union(
                            initial_grants(op@, initial@.subrange(0, i + 1)),
                        ));
                    }
                    i += 1;
                }
                proof {
                    assert(initial@.subrange(0, i as int) =~= initial@);
                }
            },
            Action::AddMember { actor, access } => {
                let g = Grant {
                    op: op.id,
                    target: *actor,
                    access: *access,
                    seq: op.seq,
                    author: op.author,
                };
                proof {
                    push_contains(self.grants@, g);
                }
                self.grants.push(g);
                self.epoch = self.epoch + 1;
            },
            Action::ChangeAccess { actor, access } => {
                let g = Grant {
                    op: op.id,
                    target: *actor,
                    access: *access,
                    seq: op.seq,
                    author: op.author,
                };
                proof {
                    push_contains(self.grants@, g);
                }
                self.grants.push(g);
                self.epoch = self.epoch + 1;
            },
            Action::RemoveMember { actor } => {
                let r = Removal { op: op.id, target: *actor };
                proof {
                    push_contains(self.removals@, r);
                }
                self.removals.push(r);
                self.epoch = self.epoch + 1;
            },
            Action::SendContent { .. } => {},
        }
    }

    /// Hands `op` to the state machine. An operation that was kept before changes
    /// nothing. One whose dependencies are not all kept, or whose sequence number
    /// is not the next of its author, or that creates the space a second time,
    /// changes nothing either. One that the access gate refuses is kept for
    /// ordering and has no effect on the members. Any other takes effect, and
    /// where it touches the members the epoch grows by one.
    pub fn apply(&mut self, op: &Operation) -> (r: Result<bool, SpaceError>)
        requires
            old(self)@.epoch < u64::MAX,
        ensures
            r == old(self)@.verdict(op@),
            final(self)@ == old(self)@.step(op@),
            old(self)@.wf() ==> final(self)@.wf(),
    {
        proof {
            if self@.wf() {
                law_step_keeps_well_formed(self@, op@);
            }
        }
        if self.past.contains_key(&op.id) {
            return Ok(false);
        }
        if !self.has_all(&op.deps) {
            return Err(SpaceError::DependencyMissing);
        }
        if !self.in_sequence(op.author, op.seq) {
            return Err(SpaceError::Validation);
        }
        let creates = match &op.action {
            Action::CreateSpace { .. } => true,
            _ => false,
        };
        if self.created && creates {
            return Err(SpaceError::Validation);
        }
        let allowed = self.permits(op);
        self.keep(op);
        if !allowed {
            return Err(SpaceError::PermissionDenied);
        }
        self.enact(op);
        Ok(true)
    }
}

impl Clone for SpaceState {
    fn clone(&self) -> (r: SpaceState)
        ensures
            r@ == self@,
    {
        let r = SpaceState {
            created: self.created,
            past: self.past.clone(),
            last_seq: self.last_seq.clone(),
            grants: copy_of(&self.grants),
            removals: copy_of(&self.removals),
            frontier: copy_of(&self.frontier),
            epoch: self.epoch,
        };
        proof {
            assert(r@.past =~= self@.past);
        }
        r
    }
}

} // verus!
