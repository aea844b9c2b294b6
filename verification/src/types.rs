use vstd::prelude::*;

verus! {

/// Identifier of an actor, derived from its long-term public key.
pub type ActorId = usize;

/// Identifier of an operation: the content hash of its author and sequence number.
pub type OperationId = u64;

/// Identifier of a space.
pub type SpaceId = u64;

/// What a member of a space may do. The levels are ordered: `Read < Write < Admin`.
#[derive(Clone, Copy, Debug, PartialEq, Eq, PartialOrd, Ord, Hash, Structural)]
pub enum Access {
    Read,
    Write,
    Admin,
}

impl Access {
    /// The place of a level in the order.
    pub open spec fn level(self) -> nat {
        match self {
            Access::Read => 0,
            Access::Write => 1,
            Access::Admin => 2,
        }
    }

    /// Whether this level grants everything that `other` grants.
    pub fn at_least(self, other: Access) -> (r: bool)
        ensures
            r == (self.level() >= other.level()),
    {
        match (self, other) {
            (Access::Admin, _) => true,
            (Access::Write, Access::Admin) => false,
            (Access::Write, _) => true,
            (Access::Read, Access::Read) => true,
            (Access::Read, _) => false,
        }
    }
}

/// The ways in which an operation can fail to take effect.
#[derive(Clone, Copy, Debug, PartialEq, Eq, Structural)]
pub enum SpaceError {
    /// The operation is malformed: its sequence number is reused or out of order,
    /// or it creates a space that exists already. It is discarded.
    Validation,
    /// A dependency of the operation has not been applied yet.
    DependencyMissing,
    /// The author lacked the access level that the action asks for. The operation
    /// is kept for ordering, but has no effect on the members.
    PermissionDenied,
    /// The content was sealed under the key of an epoch that the reader does not
    /// hold.
    Crypto,
}

/// The payload of an operation.
#[derive(Debug)]
pub enum Action {
    CreateSpace { initial: Vec<(ActorId, Access)> },
    AddMember { actor: ActorId, access: Access },
    RemoveMember { actor: ActorId },
    ChangeAccess { actor: ActorId, access: Access },
    SendContent { ciphertext: Vec<u8> },
}

/// A unit of change, authored by one actor.
#[derive(Debug)]
pub struct Operation {
    pub id: OperationId,
    pub author: ActorId,
    pub seq: u64,
    pub deps: Vec<OperationId>,
    pub action: Action,
}

/// What an action holds, as a mathematical value.
pub enum ActionView {
    CreateSpace { initial: Seq<(ActorId, Access)> },
    AddMember { actor: ActorId, access: Access },
    RemoveMember { actor: ActorId },
    ChangeAccess { actor: ActorId, access: Access },
    SendContent { ciphertext: Seq<u8> },
}

/// What an operation holds, as a mathematical value.
pub struct OperationView {
    pub id: OperationId,
    pub author: ActorId,
    pub seq: u64,
    pub deps: Seq<OperationId>,
    pub action: ActionView,
}

impl View for Action {
    type V = ActionView;

    open spec fn view(&self) -> ActionView {
        match *self {
            Action::CreateSpace { initial } => ActionView::CreateSpace { initial: initial@ },
            Action::AddMember { actor, access } => ActionView::AddMember { actor, access },
            Action::RemoveMember { actor } => ActionView::RemoveMember { actor },
            Action::ChangeAccess { actor, access } => ActionView::ChangeAccess { actor, access },
            Action::SendContent { ciphertext } => ActionView::SendContent {
                ciphertext: ciphertext@,
            },
        }
    }
}

impl View for Operation {
    type V = OperationView;

    open spec fn view(&self) -> OperationView {
        OperationView {
            id: self.id,
            author: self.author,
            seq: self.seq,
            deps: self.deps@,
            action: self.action@,
        }
    }
}

/// A copy of `v`.
pub fn copy_of<T: Copy>(v: &Vec<T>) -> (r: Vec<T>)
    ensures
        r@ == v@,
{
    let mut out: Vec<T> = Vec::new();
    let mut i: usize = 0;
    while i < v.len()
        invariant
            i <= v.len(),
            out@ == v@.subrange(0, i as int),
        decreases v.len() - i,
    {
        out.push(v[i]);
        proof {
            assert(out@ =~= v@.subrange(0, i + 1));
        }
        i += 1;
    }
    proof {
        assert(out@ =~= v@);
    }
    out
}

impl Clone for Action {
    fn clone(&self) -> (r: Action)
        ensures
            r@ == self@,
    {
        match self {
            Action::CreateSpace { initial } => Action::CreateSpace { initial: copy_of(initial) },
            Action::AddMember { actor, access } => Action::AddMember {
                actor: *actor,
                access: *access,
            },
            Action::RemoveMember { actor } => Action::RemoveMember { actor: *actor },
            Action::ChangeAccess { actor, access } => Action::ChangeAccess {
                actor: *actor,
                access: *access,
            },
            Action::SendContent { ciphertext } => Action::SendContent {
                ciphertext: copy_of(ciphertext),
            },
        }
    }
}

impl Clone for Operation {
    fn clone(&self) -> (r: Operation)
        ensures
            r@ == self@,
    {
        Operation {
            id: self.id,
            author: self.author,
            seq: self.seq,
            deps: copy_of(&self.deps),
            action: self.action.clone(),
        }
    }
}

} // verus!
