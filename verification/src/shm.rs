//! Per-process shared-memory table: the mapping from process-local segment
//! identifiers to the attached virtual address and the shared guard that
//! keeps the segment's physical frames alive.
use vstd::prelude::*;
use crate::{ShmId, VirtAddr};
use std::sync::Arc;

verus! {

/// The ownership handle for the physical frames backing one shared segment.
/// The frames themselves live with the memory manager outside this crate;
/// the table records the key and size the guard was created with, and keeps
/// the segment alive by sharing the handle (through `Arc`) with every holder.
pub struct ShmGuard {
    /// The key under which the segment was created.
    pub key: usize,
    /// Size of the segment in bytes.
    pub size: usize,
}

impl ShmGuard {
    /// A fresh guard for the segment created under `key` with `size` bytes.
    pub fn new(key: usize, size: usize) -> (g: ShmGuard)
        ensures
            g.key == key,
            g.size == size,
    {
        ShmGuard { key, size }
    }
}

/// One attachment: the virtual address the segment is mapped at (0 while not
/// yet attached) and the shared guard of its frames.
pub struct ShmIdentifier {
    pub addr: VirtAddr,
    pub shared_guard: Arc<ShmGuard>,
}

/// Shared-memory table in a process.
pub struct ShmProc {
    /// Attachments held by this process, indexed by identifier.
    entries: Vec<Option<ShmIdentifier>>,
}

impl ShmProc {
    /// The identifier slots, in identifier order.
    pub closed spec fn entries_seq(self) -> Seq<Option<ShmIdentifier>> {
        self.entries@
    }

    /// Whether `id` currently names an attachment in this table.
    pub open spec fn shm_has_id(self, id: ShmId) -> bool {
        id < self.entries_seq().len() && self.entries_seq()[id as int] is Some
    }

    /// The attachment held under `id`.
    pub open spec fn shm_at(self, id: ShmId) -> ShmIdentifier
        recommends
            self.shm_has_id(id),
    {
        self.entries_seq()[id as int].unwrap()
    }

    /// An empty table.
    pub fn new() -> (p: ShmProc)
        ensures
            p.entries_seq().len() == 0,
    {
        ShmProc { entries: Vec::new() }
    }

    /// The smallest identifier not currently in use.
    fn get_free_id(&self) -> (id: ShmId)
        ensures
            !self.shm_has_id(id),
            forall|j: ShmId| j < id ==> self.shm_has_id(j),
            id <= self.entries_seq().len(),
    {
        let mut i: usize = 0;
        while i < self.entries.len()
            invariant
                i <= self.entries@.len(),
                forall|j: ShmId| j < i ==> self.shm_has_id(j),
            decreases self.entries@.len() - i,
        {
            if self.entries[i].is_none() {
                return i;
            }
            i = i + 1;
        }
        i
    }

    /// Insert an attachment holding `shared_guard`, not yet attached
    /// (`addr == 0`), and return its identifier: the smallest one free.
    pub fn add(&mut self, shared_guard: Arc<ShmGuard>) -> (id: ShmId)
        ensures
            shm_add_post(*old(self), *final(self), shared_guard, id),
    {
        let id = self.get_free_id();
        let entry = ShmIdentifier { addr: 0, shared_guard };
        if id < self.entries.len() {
            self.entries[id] = Some(entry);
        } else {
            self.entries.push(Some(entry));
        }
        id
    }

    /// Get the attachment held under `id`: a copy sharing the guard, or
    /// nothing when `id` names no attachment.
    pub fn get(&self, id: ShmId) -> (r: Option<ShmIdentifier>)
        ensures
            r == if self.shm_has_id(id) {
                Some(self.shm_at(id))
            } else {
                None::<ShmIdentifier>
            },
    {
        if id < self.entries.len() {
            match &self.entries[id] {
                Some(e) => Some(ShmIdentifier { addr: e.addr, shared_guard: e.shared_guard.clone() }),
                None => None,
            }
        } else {
            None
        }
    }

    /// Store `entry` under `id`, overwriting what was there; used to persist
    /// the resolved virtual address after attachment.
    pub fn set(&mut self, id: ShmId, entry: ShmIdentifier)
        ensures
            final(self).shm_has_id(id),
            final(self).shm_at(id) == entry,
            forall|j: ShmId| j != id ==> (#[trigger] final(self).shm_has_id(j) <==> old(self).shm_has_id(j)),
            forall|j: ShmId|
                j != id && old(self).shm_has_id(j) ==> #[trigger] final(self).shm_at(j) == old(self).shm_at(j),
    {
        while self.entries.len() <= id
            invariant
                self.entries@.len() >= old(self).entries@.len(),
                forall|j: int|
                    0 <= j < old(self).entries@.len() ==> #[trigger] self.entries@[j] == old(
                        self,
                    ).entries@[j],
                forall|j: int|
                    old(self).entries@.len() <= j < self.entries@.len()
                        ==> #[trigger] self.entries@[j] is None,
            decreases id - self.entries.len() + 1,
        {
            self.entries.push(None);
        }
        self.entries[id] = Some(entry);
    }

    /// The identifier of the attachment recorded at virtual address `addr`:
    /// the smallest matching one, or nothing when no attachment matches.
    #[allow(non_snake_case)]
    pub fn getId(&self, addr: VirtAddr) -> (r: Option<ShmId>)
        ensures
            match r {
                Some(id) => self.shm_has_id(id) && self.shm_at(id).addr == addr && forall|j: ShmId|
                    j < id && #[trigger] self.shm_has_id(j) ==> self.shm_at(j).addr != addr,
                None => forall|j: ShmId|
                    #[trigger] self.shm_has_id(j) ==> self.shm_at(j).addr != addr,
            },
    {
        let mut i: usize = 0;
        while i < self.entries.len()
            invariant
                i <= self.entries@.len(),
                forall|j: ShmId|
                    j < i && #[trigger] self.shm_has_id(j) ==> self.shm_at(j).addr != addr,
            decreases self.entries@.len() - i,
        {
            match &self.entries[i] {
                Some(e) => {
                    if e.addr == addr {
                        return Some(i);
                    }
                },
                None => {},
            }
            i = i + 1;
        }
        None
    }

    /// Drop the attachment held under `id`, releasing this process's share
    /// of the guard; every other attachment is untouched.
    pub fn pop(&mut self, id: ShmId)
        ensures
            shm_pop_post(*old(self), *final(self), id),
    {
        if id < self.entries.len() {
            self.entries[id] = None;
        }
    }

    /// Fork the table: the child holds the same attachments, sharing the
    /// guards, including the recorded addresses.
    pub fn fork(&self) -> (r: ShmProc)
        ensures
            forall|j: ShmId| (#[trigger] r.shm_has_id(j)) <==> self.shm_has_id(j),
            forall|j: ShmId| self.shm_has_id(j) ==> #[trigger] r.shm_at(j) == self.shm_at(j),
    {
        let mut entries: Vec<Option<ShmIdentifier>> = Vec::new();
        let mut i: usize = 0;
        while i < self.entries.len()
            invariant
                i <= self.entries@.len(),
                entries@.len() == i,
                forall|j: int| 0 <= j < i ==> entries@[j] == self.entries@[j],
            decreases self.entries@.len() - i,
        {
            match &self.entries[i] {
                Some(e) => {
                    entries.push(
                        Some(ShmIdentifier { addr: e.addr, shared_guard: e.shared_guard.clone() }),
                    );
                },
                None => {
                    entries.push(None);
                },
            }
            i = i + 1;
        }
        ShmProc { entries }
    }
}

/// What `ShmProc::add` guarantees: the returned identifier was the smallest
/// free one, it now holds an unattached entry with the given guard, and
/// every other slot is untouched.
pub open spec fn shm_add_post(
    pre: ShmProc,
    post: ShmProc,
    shared_guard: Arc<ShmGuard>,
    id: ShmId,
) -> bool {
    &&& !pre.shm_has_id(id)
    &&& forall|j: ShmId| j < id ==> pre.shm_has_id(j)
    &&& post.shm_has_id(id)
    &&& post.shm_at(id).addr == 0
    &&& post.shm_at(id).shared_guard == shared_guard
    &&& forall|j: ShmId| j != id ==> (#[trigger] post.shm_has_id(j) <==> pre.shm_has_id(j))
    &&& forall|j: ShmId|
        j != id && pre.shm_has_id(j) ==> #[trigger] post.shm_at(j) == pre.shm_at(j)
}

/// What `ShmProc::pop` guarantees: `id` names nothing afterwards and every
/// other slot is untouched.
pub open spec fn shm_pop_post(pre: ShmProc, post: ShmProc, id: ShmId) -> bool {
    &&& !post.shm_has_id(id)
    &&& forall|j: ShmId| j != id ==> (#[trigger] post.shm_has_id(j) <==> pre.shm_has_id(j))
    &&& forall|j: ShmId|
        j != id && pre.shm_has_id(j) ==> #[trigger] post.shm_at(j) == pre.shm_at(j)
}

/// Law: on a table whose identifiers are exactly `{0, …, n-1}`, an insertion
/// is assigned identifier `n`; repeated insertion into an empty table hence
/// returns 0, 1, 2, … in order of first assignment.
pub proof fn lemma_shm_add_sequential(
    pre: ShmProc,
    post: ShmProc,
    guard: Arc<ShmGuard>,
    id: ShmId,
    n: ShmId,
)
    requires
        shm_add_post(pre, post, guard, id),
        forall|j: ShmId| (#[trigger] pre.shm_has_id(j)) <==> j < n,
    ensures
        id == n,
        forall|j: ShmId| (#[trigger] post.shm_has_id(j)) <==> j < n + 1,
        post.shm_at(n).shared_guard == guard,
{
    if id < n {
        assert(pre.shm_has_id(id));
    }
    if id > n {
        assert(pre.shm_has_id(n));
    }
}

/// Law: after removing identifier `k` from a table that also holds every
/// identifier below `k`, the next insertion reuses `k`, and no other
/// attachment changes.
pub proof fn lemma_shm_pop_then_add_reuses(
    pre: ShmProc,
    mid: ShmProc,
    post: ShmProc,
    k: ShmId,
    guard: Arc<ShmGuard>,
    id: ShmId,
)
    requires
        pre.shm_has_id(k),
        forall|j: ShmId| j < k ==> #[trigger] pre.shm_has_id(j),
        shm_pop_post(pre, mid, k),
        shm_add_post(mid, post, guard, id),
    ensures
        id == k,
        forall|j: ShmId|
            j != k && #[trigger] pre.shm_has_id(j) ==> post.shm_has_id(j) && post.shm_at(j)
                == pre.shm_at(j),
{
    if id < k {
        assert(pre.shm_has_id(id));
        assert(mid.shm_has_id(id));
    }
    if id > k {
        assert(!mid.shm_has_id(k));
    }
}

} // verus!
