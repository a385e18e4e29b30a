//! Syscall-level protocol for the IPC objects: argument validation, the
//! global key registries, and the decisions each call makes against the
//! calling process's tables.
//!
//! Blocking semaphore work and address-space mapping happen outside this
//! crate.  A call that needs them is split in two: a `prepare` step that
//! validates and says what has to be done on which handle, and — where the
//! call records an outcome — a `commit` step that writes the result back
//! into the table.  The caller performs the blocking or mapping work between
//! the two, outside any lock on the table.
use vstd::prelude::*;
use crate::{SemId, ShmId, SemNum, SysError, VirtAddr};
use crate::sem::{SemArray, SemProc, sem_add_post};
use crate::shm::{ShmGuard, ShmIdentifier, ShmProc, shm_add_post, shm_pop_post};
use std::sync::Arc;

verus! {

/// The maximum semaphores per semaphore set.
pub const SEMMSL: usize = 256;

/// The smallest mappable address: 0 is reserved to mean "let the kernel
/// choose", so an attachment hint of 0 is replaced by this.
pub const PAGE_SIZE: usize = 4096;

/// Flag bit asking for a non-blocking request (unsupported here).
pub const IPC_NOWAIT: i16 = 0x800;

/// Flag bit asking for an automatic undo when the process terminates.
pub const SEM_UNDO: i16 = 0x1000;

/// Control command: read one semaphore's value (unsupported here).
pub const GETVAL: usize = 12;

/// Control command: read all semaphore values (unsupported here).
pub const GETALL: usize = 13;

/// Control command: set one semaphore's value directly.
pub const SETVAL: usize = 16;

/// Control command: set all semaphore values (unsupported here).
pub const SETALL: usize = 17;

/// An operation to be performed on a single semaphore: index within the
/// array, signed delta, and flag bits.
#[derive(Clone, Copy, PartialEq, Eq, Structural, Debug)]
pub struct SemBuf {
    pub num: u16,
    pub op: i16,
    pub flags: i16,
}

/// The flag bits of one semaphore operation, decoded.
#[derive(Clone, Copy, PartialEq, Eq, Structural, Debug)]
pub struct SemFlags {
    pub ipc_nowait: bool,
    pub sem_undo: bool,
}

impl SemFlags {
    /// Decode the defined flag bits, ignoring the rest.
    pub fn from_bits_truncate(bits: i16) -> (f: SemFlags)
        ensures
            f.ipc_nowait == ((bits & IPC_NOWAIT) != 0),
            f.sem_undo == ((bits & SEM_UNDO) != 0),
    {
        SemFlags { ipc_nowait: (bits & IPC_NOWAIT) != 0, sem_undo: (bits & SEM_UNDO) != 0 }
    }
}

/// The value stored under `key` in an association list: the first entry with
/// that key, or nothing.
pub open spec fn reg_lookup<T>(s: Seq<(usize, T)>, key: usize) -> Option<T>
    decreases s.len(),
{
    if s.len() == 0 {
        None
    } else if s[0].0 == key {
        Some(s[0].1)
    } else {
        reg_lookup(s.drop_first(), key)
    }
}

/// The global key registry of semaphore arrays: every process resolving the
/// same key receives a handle to the same array.
pub struct SemRegistry {
    entries: Vec<(usize, Arc<SemArray>)>,
}

/// What resolving `key` against the registry guarantees: an existing array
/// is returned untouched, otherwise a fresh one sized `nsems` is created
/// under `key` and appended.
pub open spec fn sem_reg_resolve_post(
    pre: SemRegistry,
    post: SemRegistry,
    key: usize,
    nsems: usize,
    r: Arc<SemArray>,
) -> bool {
    match reg_lookup(pre.entries_seq(), key) {
        Some(a) => r == a && post.entries_seq() == pre.entries_seq(),
        None => r.key == key && r.nsems == nsems && post.entries_seq() == pre.entries_seq().push(
            (key, r),
        ),
    }
}

impl SemRegistry {
    /// The registered `(key, array)` pairs, in creation order.
    pub closed spec fn entries_seq(self) -> Seq<(usize, Arc<SemArray>)> {
        self.entries@
    }

    /// An empty registry.
    pub fn new() -> (r: SemRegistry)
        ensures
            r.entries_seq().len() == 0,
    {
        SemRegistry { entries: Vec::new() }
    }

    /// Resolve or create the global semaphore array for `key`, sized `nsems`
    /// when newly created.  Creation flags beyond plain resolve-or-create
    /// are not modelled here.
    pub fn get_or_create(&mut self, key: usize, nsems: usize, _flags: usize) -> (r: Arc<SemArray>)
        ensures
            sem_reg_resolve_post(*old(self), *final(self), key, nsems, r),
    {
        let mut i: usize = 0;
        while i < self.entries.len()
            invariant
                i <= self.entries@.len(),
                forall|j: int| 0 <= j < i ==> (#[trigger] self.entries@[j].0) != key,
            decreases self.entries@.len() - i,
        {
            if self.entries[i].0 == key {
                proof {
                    lemma_reg_lookup_first_match(self.entries@, i as int, key);
                }
                return self.entries[i].1.clone();
            }
            i = i + 1;
        }
        proof {
            lemma_reg_lookup_absent(self.entries@, key);
        }
        let a = Arc::new(SemArray::new(key, nsems));
        self.entries.push((key, a.clone()));
        a
    }
}

/// The global key registry of shared-memory segment guards.
pub struct ShmRegistry {
    entries: Vec<(usize, Arc<ShmGuard>)>,
}

/// What resolving `key` against the registry guarantees: an existing guard
/// is returned untouched, otherwise a fresh one sized `size` is created
/// under `key` and appended.
pub open spec fn shm_reg_resolve_post(
    pre: ShmRegistry,
    post: ShmRegistry,
    key: usize,
    size: usize,
    r: Arc<ShmGuard>,
) -> bool {
    match reg_lookup(pre.entries_seq(), key) {
        Some(g) => r == g && post.entries_seq() == pre.entries_seq(),
        None => r.key == key && r.size == size && post.entries_seq() == pre.entries_seq().push(
            (key, r),
        ),
    }
}

impl ShmRegistry {
    /// The registered `(key, guard)` pairs, in creation order.
    pub closed spec fn entries_seq(self) -> Seq<(usize, Arc<ShmGuard>)> {
        self.entries@
    }

    /// An empty registry.
    pub fn new() -> (r: ShmRegistry)
        ensures
            r.entries_seq().len() == 0,
    {
        ShmRegistry { entries: Vec::new() }
    }

    /// Obtain or create the shared segment guard for `key`, sized `size`
    /// when newly created.
    pub fn get_or_create(&mut self, key: usize, size: usize) -> (r: Arc<ShmGuard>)
        ensures
            shm_reg_resolve_post(*old(self), *final(self), key, size, r),
    {
        let mut i: usize = 0;
        while i < self.entries.len()
            invariant
                i <= self.entries@.len(),
                forall|j: int| 0 <= j < i ==> (#[trigger] self.entries@[j].0) != key,
            decreases self.entries@.len() - i,
        {
            if self.entries[i].0 == key {
                proof {
                    lemma_reg_lookup_first_match(self.entries@, i as int, key);
                }
                return self.entries[i].1.clone();
            }
            i = i + 1;
        }
        proof {
            lemma_reg_lookup_absent(self.entries@, key);
        }
        let g = Arc::new(ShmGuard::new(key, size));
        self.entries.push((key, g.clone()));
        g
    }
}

/// When `i` is the first entry keyed `key`, the lookup returns its value.
proof fn lemma_reg_lookup_first_match<T>(s: Seq<(usize, T)>, i: int, key: usize)
    requires
        0 <= i < s.len(),
        s[i].0 == key,
        forall|j: int| 0 <= j < i ==> (#[trigger] s[j].0) != key,
    ensures
        reg_lookup(s, key) == Some(s[i].1),
    decreases s.len(),
{
    if i > 0 {
        assert(s[0].0 != key);
        assert forall|j: int| 0 <= j < i - 1 implies (#[trigger] s.drop_first()[j].0) != key by {
            assert(s.drop_first()[j] == s[j + 1]);
        }
        assert(s.drop_first()[i - 1] == s[i]);
        lemma_reg_lookup_first_match(s.drop_first(), i - 1, key);
    }
}

/// A registry without `key` resolves it to nothing.
proof fn lemma_reg_lookup_absent<T>(s: Seq<(usize, T)>, key: usize)
    requires
        forall|j: int| 0 <= j < s.len() ==> (#[trigger] s[j].0) != key,
    ensures
        reg_lookup(s, key) is None,
    decreases s.len(),
{
    if s.len() > 0 {
        assert(s[0].0 != key);
        assert forall|j: int|
            0 <= j < s.drop_first().len() implies (#[trigger] s.drop_first()[j].0) != key by {
            assert(s.drop_first()[j] == s[j + 1]);
        }
        lemma_reg_lookup_absent(s.drop_first(), key);
    }
}

/// `semget`: validate `nsems`, resolve or create the global array for
/// `key`, register it in the calling process's table and return the new
/// identifier.  A count outside `0 ..= SEMMSL` is an invalid argument and
/// changes neither the table nor the registry.
pub fn sys_semget(
    proc: &mut SemProc,
    reg: &mut SemRegistry,
    key: usize,
    nsems: isize,
    flags: usize,
) -> (r: Result<SemId, SysError>)
    ensures
        (nsems < 0 || nsems > SEMMSL) ==> r == Err::<SemId, SysError>(SysError::Einval)
            && *final(proc) == *old(proc) && *final(reg) == *old(reg),
        (0 <= nsems <= SEMMSL) ==> r is Ok && exists|a: Arc<SemArray>|
            #[trigger] sem_reg_resolve_post(*old(reg), *final(reg), key, nsems as usize, a)
                && sem_add_post(*old(proc), *final(proc), a, r.unwrap()),
{
    if nsems < 0 || (nsems as usize) > SEMMSL {
        return Err(SysError::Einval);
    }
    let array = reg.get_or_create(key, nsems as usize, flags);
    let ghost a = array;
    let id = proc.add(array);
    proof {
        assert(sem_reg_resolve_post(*old(reg), *final(reg), key, nsems as usize, a));
    }
    Ok(id)
}

/// What one semaphore operation requires of the collaborating primitive:
/// release (increment and wake a waiter) or a possibly blocking acquire.
#[derive(Clone, Copy, PartialEq, Eq, Structural, Debug)]
pub enum SemAction {
    Release,
    Acquire,
}

/// What `sys_semop_prepare` decides for one operation, in the order the
/// checks are made: unknown identifier and out-of-range semaphore index are
/// invalid arguments, `IPC_NOWAIT` and any delta other than +1/-1 are
/// unsupported, and otherwise the array handle and the action to perform on
/// its semaphore `op.num` are handed out.
pub open spec fn semop_prepare_post(
    p: SemProc,
    id: SemId,
    op: SemBuf,
    r: Result<(Arc<SemArray>, SemAction), SysError>,
) -> bool {
    if !p.sem_has_id(id) {
        r == Err::<(Arc<SemArray>, SemAction), SysError>(SysError::Einval)
    } else if (op.flags & IPC_NOWAIT) != 0 {
        r == Err::<(Arc<SemArray>, SemAction), SysError>(SysError::Unsupported)
    } else if op.num as usize >= p.sem_at(id).nsems {
        r == Err::<(Arc<SemArray>, SemAction), SysError>(SysError::Einval)
    } else if op.op == 1 {
        r == Ok::<(Arc<SemArray>, SemAction), SysError>((p.sem_at(id), SemAction::Release))
    } else if op.op == -1 {
        r == Ok::<(Arc<SemArray>, SemAction), SysError>((p.sem_at(id), SemAction::Acquire))
    } else {
        r == Err::<(Arc<SemArray>, SemAction), SysError>(SysError::Unsupported)
    }
}

/// `semop`, deciding step: resolve `id` and validate one operation of the
/// batch, returning the handle and the action the caller must perform on it
/// — outside any lock on the table, since an acquire may block.  Operations
/// of one batch are prepared and performed strictly in the given order.
pub fn sys_semop_prepare(proc: &SemProc, id: SemId, op: &SemBuf) -> (r: Result<
    (Arc<SemArray>, SemAction),
    SysError,
>)
    ensures
        semop_prepare_post(*proc, id, *op, r),
{
    let array = match proc.get(id) {
        Some(a) => a,
        None => {
            return Err(SysError::Einval);
        },
    };
    let flags = SemFlags::from_bits_truncate(op.flags);
    if flags.ipc_nowait {
        return Err(SysError::Unsupported);
    }
    if (op.num as usize) >= array.nsems {
        return Err(SysError::Einval);
    }
    if op.op == 1 {
        Ok((array, SemAction::Release))
    } else if op.op == -1 {
        Ok((array, SemAction::Acquire))
    } else {
        Err(SysError::Unsupported)
    }
}

/// `semop`, recording step, run after the operation completed: when the
/// operation carries `SEM_UNDO`, accumulate the compensating `-op` in the
/// process's undo table; otherwise nothing changes.
pub fn sys_semop_commit(proc: &mut SemProc, id: SemId, op: &SemBuf)
    requires
        (op.flags & SEM_UNDO) != 0 ==> i16::MIN <= old(proc).undo_of(id, op.num) - op.op
            <= i16::MAX,
    ensures
        (op.flags & SEM_UNDO) == 0 ==> *final(proc) == *old(proc),
        (op.flags & SEM_UNDO) != 0 ==> {
            &&& final(proc).undo_of(id, op.num) == old(proc).undo_of(id, op.num) - op.op
            &&& forall|id2: SemId, num2: SemNum|
                !(id2 == id && num2 == op.num) ==> #[trigger] final(proc).undo_of(id2, num2)
                    == old(proc).undo_of(id2, num2)
            &&& final(proc).arrays_seq() == old(proc).arrays_seq()
            &&& old(proc).undo_keys_unique() ==> final(proc).undo_keys_unique()
        },
{
    let flags = SemFlags::from_bits_truncate(op.flags);
    if flags.sem_undo {
        proc.add_undo(id, op.num, op.op);
    }
}

/// `semctl`: resolve `id` and `num`; only `SETVAL` is implemented, and for
/// it the caller receives the array handle on whose semaphore `num` it must
/// set the value.  An unknown identifier or out-of-range index is an
/// invalid argument, any other command unsupported.
pub fn sys_semctl_prepare(proc: &SemProc, id: SemId, num: usize, cmd: usize) -> (r: Result<
    Arc<SemArray>,
    SysError,
>)
    ensures
        !proc.sem_has_id(id) ==> r == Err::<Arc<SemArray>, SysError>(SysError::Einval),
        proc.sem_has_id(id) && num >= proc.sem_at(id).nsems ==> r == Err::<
            Arc<SemArray>,
            SysError,
        >(SysError::Einval),
        proc.sem_has_id(id) && num < proc.sem_at(id).nsems && cmd != SETVAL ==> r == Err::<
            Arc<SemArray>,
            SysError,
        >(SysError::Unsupported),
        proc.sem_has_id(id) && num < proc.sem_at(id).nsems && cmd == SETVAL ==> r == Ok::<
            Arc<SemArray>,
            SysError,
        >(proc.sem_at(id)),
{
    let array = match proc.get(id) {
        Some(a) => a,
        None => {
            return Err(SysError::Einval);
        },
    };
    if num >= array.nsems {
        return Err(SysError::Einval);
    }
    if cmd == SETVAL {
        Ok(array)
    } else {
        Err(SysError::Unsupported)
    }
}

/// `shmget`: obtain or create the shared segment guard for `key`, register
/// an unattached entry for it in the calling process's table and return the
/// new identifier.
pub fn sys_shmget(
    proc: &mut ShmProc,
    reg: &mut ShmRegistry,
    key: usize,
    size: usize,
    _shmflg: usize,
) -> (r: Result<ShmId, SysError>)
    ensures
        r is Ok,
        exists|g: Arc<ShmGuard>|
            #[trigger] shm_reg_resolve_post(*old(reg), *final(reg), key, size, g) && shm_add_post(
                *old(proc),
                *final(proc),
                g,
                r.unwrap(),
            ),
{
    let guard = reg.get_or_create(key, size);
    let ghost g = guard;
    let id = proc.add(guard);
    proof {
        assert(shm_reg_resolve_post(*old(reg), *final(reg), key, size, g));
    }
    Ok(id)
}

/// `shmat`, deciding step: resolve `id`; an address hint of 0 is replaced
/// by `PAGE_SIZE` ("let the kernel choose", away from the 0 failure
/// sentinel).  The caller must then reserve a free region of the returned
/// size near the returned hint, map it backed by the returned guard, and
/// commit the resolved address.
pub fn sys_shmat_prepare(proc: &ShmProc, id: ShmId, addr: VirtAddr) -> (r: Result<
    (VirtAddr, usize, Arc<ShmGuard>),
    SysError,
>)
    ensures
        !proc.shm_has_id(id) ==> r == Err::<(VirtAddr, usize, Arc<ShmGuard>), SysError>(
            SysError::Einval,
        ),
        proc.shm_has_id(id) ==> r == Ok::<(VirtAddr, usize, Arc<ShmGuard>), SysError>(
            (
                if addr == 0 {
                    PAGE_SIZE
                } else {
                    addr
                },
                proc.shm_at(id).shared_guard.size,
                proc.shm_at(id).shared_guard,
            ),
        ),
{
    let entry = match proc.get(id) {
        Some(e) => e,
        None => {
            return Err(SysError::Einval);
        },
    };
    let hint = if addr == 0 {
        // NULL would read as an allocation failure to callers, so never map there
        PAGE_SIZE
    } else {
        addr
    };
    let size = entry.shared_guard.size;
    Ok((hint, size, entry.shared_guard))
}

/// `shmat`, recording step, run after the region was mapped: persist the
/// resolved virtual address into the entry, keeping its guard — a
/// re-attachment updates the address and never drops the guard reference.
pub fn sys_shmat_commit(proc: &mut ShmProc, id: ShmId, addr: VirtAddr) -> (r: Result<
    VirtAddr,
    SysError,
>)
    ensures
        !old(proc).shm_has_id(id) ==> r == Err::<VirtAddr, SysError>(SysError::Einval)
            && *final(proc) == *old(proc),
        old(proc).shm_has_id(id) ==> {
            &&& r == Ok::<VirtAddr, SysError>(addr)
            &&& final(proc).shm_has_id(id)
            &&& final(proc).shm_at(id).addr == addr
            &&& final(proc).shm_at(id).shared_guard == old(proc).shm_at(id).shared_guard
            &&& forall|j: ShmId|
                j != id ==> (#[trigger] final(proc).shm_has_id(j) <==> old(proc).shm_has_id(j))
            &&& forall|j: ShmId|
                j != id && old(proc).shm_has_id(j) ==> #[trigger] final(proc).shm_at(j)
                    == old(proc).shm_at(j)
        },
{
    let entry = match proc.get(id) {
        Some(e) => e,
        None => {
            return Err(SysError::Einval);
        },
    };
    proc.set(id, ShmIdentifier { addr, shared_guard: entry.shared_guard });
    Ok(addr)
}

/// What `sys_shmdt` guarantees: when some attachment is recorded at `addr`,
/// exactly the first such (smallest identifier) is removed and every other
/// attachment is untouched; detaching an address with no matching
/// attachment is a silent no-op.
pub open spec fn shmdt_post(pre: ShmProc, post: ShmProc, addr: VirtAddr) -> bool {
    if exists|j: ShmId| (#[trigger] pre.shm_has_id(j)) && pre.shm_at(j).addr == addr {
        exists|k: ShmId|
            (#[trigger] pre.shm_has_id(k)) && pre.shm_at(k).addr == addr && (forall|j: ShmId|
                j < k && #[trigger] pre.shm_has_id(j) ==> pre.shm_at(j).addr != addr)
                && shm_pop_post(pre, post, k)
    } else {
        post == pre
    }
}

/// `shmdt`: look up the attachment recorded at `addr` and drop it,
/// releasing this process's share of the guard; an address with no matching
/// attachment is a silent no-op.  Always succeeds with 0.
pub fn sys_shmdt(proc: &mut ShmProc, addr: VirtAddr, _shmflg: usize) -> (r: Result<usize, SysError>)
    ensures
        r == Ok::<usize, SysError>(0),
        shmdt_post(*old(proc), *final(proc), addr),
{
    match proc.getId(addr) {
        Some(id) => {
            proc.pop(id);
        },
        None => {},
    }
    Ok(0)
}

} // verus!
