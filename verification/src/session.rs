//! Sessions and the allocator of their transient identifiers.

use crate::channel::Tx;
use std::collections::VecDeque;
use std::sync::Arc;
use vstd::prelude::*;

verus! {

/// The part a peer plays. It is fixed when the peer registers.
#[derive(Debug, Clone, Copy, PartialEq, Eq, Structural)]
pub enum Role {
    Server,
    Client,
}

/// A registered peer.
#[derive(Debug)]
pub struct Session {
    /// Where frames for this peer are queued.
    pub tx: Tx,
    pub role: Role,
    /// The durable identity that a client presented; a server has none.
    pub client_id: Option<[u8; 16]>,
    /// The transient identifier, unique among live sessions.
    pub session_id: u8,
}

impl Session {
    pub fn new(tx: Tx, role: Role, client_id: Option<[u8; 16]>, session_id: u8) -> (session: Arc<
        Self,
    >)
        ensures
            *session == (Session { tx, role, client_id, session_id }),
    {
        Arc::new(Session { tx, role, client_id, session_id })
    }
}

/// The session behind a shared handle.
pub open spec fn held(session: Arc<Session>) -> Session {
    *session
}

/// Calls `Arc::clone`: the result is another handle to the same session.
#[verifier::external_body]
pub(crate) fn share(session: &Arc<Session>) -> (other: Arc<Session>)
    ensures
        *other == **session,
{
    Arc::clone(session)
}

/// The largest transient identifier. Zero is never one.
pub const MAX_SESSION_ID: u8 = 255;

/// What a [`SessionAllocator`] holds: the identifiers handed back and not
/// yet handed out again, oldest first, and the next identifier that was
/// never handed out.
pub struct IdPool {
    pub free: Seq<u8>,
    pub next: u8,
}

impl IdPool {
    /// Zero is neither waiting for reuse nor next in line.
    pub open spec fn wf(self) -> bool {
        &&& self.next >= 1
        &&& forall|i: int| 0 <= i < self.free.len() ==> self.free[i] != 0
    }

    /// The pool after one allocation, and the identifier handed out: the
    /// oldest returned one if there is any, else the next fresh one, else
    /// none, once the fresh ones have run out.
    pub open spec fn allocate(self) -> (IdPool, Option<u8>) {
        if self.free.len() > 0 {
            (IdPool { free: self.free.skip(1), next: self.next }, Some(self.free[0]))
        } else if self.next == MAX_SESSION_ID {
            (self, None)
        } else {
            (IdPool { free: self.free, next: (self.next + 1) as u8 }, Some(self.next))
        }
    }

    /// The pool after `id` was handed back. Zero is ignored.
    pub open spec fn deallocate(self, id: u8) -> IdPool {
        if id == 0 {
            self
        } else {
            IdPool { free: self.free.push(id), next: self.next }
        }
    }

    /// Whether `id` was handed out and has not come back since.
    pub open spec fn is_live(self, id: u8) -> bool {
        1 <= id < self.next && !self.free.contains(id)
    }

    /// Every returned identifier was handed out before, and waits only once.
    /// This holds as long as no identifier is handed back that is not live.
    pub open spec fn consistent(self) -> bool {
        &&& self.wf()
        &&& self.free.no_duplicates()
        &&& forall|i: int| 0 <= i < self.free.len() ==> self.free[i] < self.next
    }
}

/// Issues and recycles the transient identifiers of sessions.
pub struct SessionAllocator {
    free_ids: VecDeque<u8>,
    next_id: u8,
}

impl View for SessionAllocator {
    type V = IdPool;

    closed spec fn view(&self) -> IdPool {
        IdPool { free: self.free_ids@, next: self.next_id }
    }
}

impl SessionAllocator {
    /// Whether the allocator keeps to the rules of its pool.
    pub open spec fn wf(&self) -> bool {
        self@.wf()
    }

    /// An allocator that has handed out nothing yet.
    pub fn new() -> (allocator: SessionAllocator)
        ensures
            allocator.wf(),
            allocator@ == (IdPool { free: Seq::empty(), next: 1 }),
    {
        SessionAllocator { free_ids: VecDeque::new(), next_id: 1 }
    }

    /// Hands out an identifier, or `None` when none is left.
    pub fn allocate(&mut self) -> (id: Option<u8>)
        requires
            old(self).wf(),
        ensures
            final(self).wf(),
            (final(self)@, id) == old(self)@.allocate(),
            id != Some(0u8),
    {
        if let Some(id) = self.free_ids.pop_front() {
            proof {
                let before = old(self).free_ids@;
                assert(self.free_ids@ =~= before.skip(1));
                assert forall|i: int| 0 <= i < self.free_ids@.len() implies self.free_ids@[i]
                    != 0 by {
                    assert(old(self)@.free[i + 1] != 0);
                }
            }
            return Some(id);
        }
        if self.next_id == MAX_SESSION_ID {
            return None;
        }
        let id = self.next_id;
        self.next_id = self.next_id.wrapping_add(1);
        if self.next_id == 0 {
            self.next_id = 1;
        }
        Some(id)
    }

    /// Takes `id` back for reuse. Zero is ignored.
    pub fn deallocate(&mut self, id: u8)
        requires
            old(self).wf(),
        ensures
            final(self).wf(),
            final(self)@ == old(self)@.deallocate(id),
    {
        if id == 0 {
            return ;
        }
        self.free_ids.push_back(id);
        proof {
            let before = old(self).free_ids@;
            assert forall|i: int| 0 <= i < self.free_ids@.len() implies self.free_ids@[i] != 0 by {
                if i < before.len() {
                    assert(old(self)@.free[i] != 0);
                }
            }
        }
    }
}

/// One use of a pool of identifiers.
pub enum PoolOp {
    Allocate,
    Release(u8),
}

impl IdPool {
    /// The identifiers that sessions hold.
    pub open spec fn live(self) -> Set<u8> {
        Set::new(|id: u8| self.is_live(id))
    }

    /// The pool after `op`.
    pub open spec fn step(self, op: PoolOp) -> IdPool {
        match op {
            PoolOp::Allocate => self.allocate().0,
            PoolOp::Release(id) => self.deallocate(id),
        }
    }

    /// The identifier that `op` hands out, if it hands one out.
    pub open spec fn issued(self, op: PoolOp) -> Option<u8> {
        match op {
            PoolOp::Allocate => self.allocate().1,
            PoolOp::Release(_) => None,
        }
    }

    /// Whether `op` keeps to the rule that only a live identifier is handed
    /// back.
    pub open spec fn permits(self, op: PoolOp) -> bool {
        match op {
            PoolOp::Allocate => true,
            PoolOp::Release(id) => id == 0 || self.is_live(id),
        }
    }

    /// The pool after `ops`, in order.
    pub open spec fn run(self, ops: Seq<PoolOp>) -> IdPool
        decreases ops.len(),
    {
        if ops.len() == 0 {
            self
        } else {
            self.run(ops.drop_last()).step(ops.last())
        }
    }

    /// Whether each of `ops` keeps to the rule at the moment it is made.
    pub open spec fn orderly(self, ops: Seq<PoolOp>) -> bool {
        forall|k: int| 0 <= k < ops.len() ==> #[trigger] self.run(ops.take(k)).permits(ops[k])
    }
}

/// An allocation hands out an identifier between 1 and 255 that no session
/// holds, and from then on a session holds it.
pub proof fn lemma_allocate_fresh(pool: IdPool)
    requires
        pool.consistent(),
    ensures
        pool.allocate().0.consistent(),
        match pool.allocate().1 {
            Some(id) => {
                &&& 1 <= id <= MAX_SESSION_ID
                &&& !pool.is_live(id)
                &&& pool.allocate().0.live() == pool.live().insert(id)
            },
            None => pool.allocate().0 == pool,
        },
{
    let after = pool.allocate().0;
    if pool.free.len() > 0 {
        let id = pool.free[0];
        assert(pool.free.contains(id));
        assert forall|i: int| 0 <= i < after.free.len() implies after.free[i] != 0
            && after.free[i] < after.next by {
            assert(after.free[i] == pool.free[i + 1]);
        }
        assert forall|v: u8| after.is_live(v) == (pool.is_live(v) || v == id) by {
            if pool.free.contains(v) && v != id {
                let i = choose|i: int| 0 <= i < pool.free.len() && pool.free[i] == v;
                assert(after.free[i - 1] == v);
            }
            if after.free.contains(v) {
                let i = choose|i: int| 0 <= i < after.free.len() && after.free[i] == v;
                assert(pool.free[i + 1] == v);
                assert(v != id);
            }
        }
        assert(after.live() =~= pool.live().insert(id));
    } else if pool.next != MAX_SESSION_ID {
        assert(after.live() =~= pool.live().insert(pool.next));
    }
}

/// Handing back an identifier that a session holds frees exactly that one.
pub proof fn lemma_release_live(pool: IdPool, id: u8)
    requires
        pool.consistent(),
        pool.is_live(id),
    ensures
        pool.deallocate(id).consistent(),
        pool.deallocate(id).live() == pool.live().remove(id),
{
    let after = pool.deallocate(id);
    assert(after.free.last() == id);
    assert forall|i: int| 0 <= i < after.free.len() implies after.free[i] != 0 && after.free[i]
        < after.next by {
        if i < pool.free.len() {
            assert(after.free[i] == pool.free[i]);
        }
    }
    assert forall|v: u8| after.is_live(v) == (pool.is_live(v) && v != id) by {
        if pool.free.contains(v) {
            let i = choose|i: int| 0 <= i < pool.free.len() && pool.free[i] == v;
            assert(after.free[i] == v);
        }
        if after.free.contains(v) && v != id {
            let i = choose|i: int| 0 <= i < after.free.len() && after.free[i] == v;
            assert(pool.free[i] == v);
        }
    }
    assert(after.live() =~= pool.live().remove(id));
}

proof fn lemma_step_consistent(pool: IdPool, op: PoolOp)
    requires
        pool.consistent(),
        pool.permits(op),
    ensures
        pool.step(op).consistent(),
        forall|id: u8|
            pool.is_live(id) && op != PoolOp::Release(id) ==> pool.step(op).is_live(id)
                && pool.issued(op) != Some(id),
{
    match op {
        PoolOp::Allocate => {
            lemma_allocate_fresh(pool);
            assert forall|id: u8| pool.is_live(id) implies pool.step(op).is_live(id)
                && pool.issued(op) != Some(id) by {
                if pool.allocate().1 is Some {
                    assert(pool.live().insert(pool.allocate().1.unwrap()).contains(id));
                }
            }
        },
        PoolOp::Release(id) => {
            if id != 0 {
                lemma_release_live(pool, id);
                assert forall|v: u8| pool.is_live(v) && v != id implies pool.step(op).is_live(
                    v,
                ) by {
                    assert(pool.live().remove(id).contains(v));
                }
            }
        },
    }
}

/// As long as only live identifiers are handed back, every returned
/// identifier waits once and no identifier is both held and waiting.
pub proof fn lemma_orderly_run_consistent(pool: IdPool, ops: Seq<PoolOp>)
    requires
        pool.consistent(),
        pool.orderly(ops),
    ensures
        pool.run(ops).consistent(),
    decreases ops.len(),
{
    if ops.len() > 0 {
        let before = ops.drop_last();
        assert forall|k: int| 0 <= k < before.len() implies #[trigger] pool.run(
            before.take(k),
        ).permits(before[k]) by {
            assert(before.take(k) =~= ops.take(k));
            assert(pool.run(ops.take(k)).permits(ops[k]));
        }
        lemma_orderly_run_consistent(pool, before);
        assert(ops.take(ops.len() - 1) =~= before);
        assert(pool.run(ops.take(ops.len() - 1)).permits(ops[ops.len() - 1]));
        lemma_step_consistent(pool.run(before), ops.last());
    }
}

/// The identifier of a live session is handed to no one else: while `id` is
/// held and not handed back, it stays held, and no allocation returns it.
pub proof fn lemma_held_id_not_reissued(pool: IdPool, ops: Seq<PoolOp>, id: u8)
    requires
        pool.consistent(),
        pool.is_live(id),
        pool.orderly(ops),
        forall|k: int| 0 <= k < ops.len() ==> ops[k] != PoolOp::Release(id),
    ensures
        pool.run(ops).is_live(id),
        forall|k: int|
            0 <= k < ops.len() ==> #[trigger] pool.run(ops.take(k)).issued(ops[k]) != Some(id),
    decreases ops.len(),
{
    if ops.len() > 0 {
        let before = ops.drop_last();
        assert forall|k: int| 0 <= k < before.len() implies #[trigger] pool.run(
            before.take(k),
        ).permits(before[k]) by {
            assert(before.take(k) =~= ops.take(k));
            assert(pool.run(ops.take(k)).permits(ops[k]));
        }
        lemma_held_id_not_reissued(pool, before, id);
        lemma_orderly_run_consistent(pool, before);
        assert(ops.take(ops.len() - 1) =~= before);
        assert(pool.run(ops.take(ops.len() - 1)).permits(ops[ops.len() - 1]));
        lemma_step_consistent(pool.run(before), ops.last());
        assert forall|k: int| 0 <= k < ops.len() implies #[trigger] pool.run(ops.take(k)).issued(
            ops[k],
        ) != Some(id) by {
            if k < before.len() {
                assert(before.take(k) =~= ops.take(k));
                assert(pool.run(before.take(k)).issued(before[k]) != Some(id));
            }
        }
    }
}

} // verus!
