//! System-V style inter-process communication bookkeeping: the per-process
//! semaphore and shared-memory tables a kernel keeps for each process, and the
//! syscall-level protocol (`semget`, `semop`, `semctl`, `shmget`, `shmat`,
//! `shmdt`) that validates arguments and drives those tables.
//!
//! The blocking semaphore primitive itself, the physical frames behind a
//! shared segment and the address-space manager are collaborators outside this
//! crate: the protocol functions here decide what has to be done and record
//! the outcome, and the surrounding kernel performs the blocking or mapping
//! work on the handles this crate hands out.
use vstd::prelude::*;

pub mod sem;
pub mod shm;
pub mod syscall;

verus! {

/// Semaphore set identifier (process-local, smallest free integer).
pub type SemId = usize;

/// Shared-memory segment identifier (process-local, smallest free integer).
pub type ShmId = usize;

/// Index of one semaphore within an array.
pub type SemNum = u16;

/// Signed adjustment applied to one semaphore.
pub type SemOp = i16;

/// A virtual address in the owning process's address space.
pub type VirtAddr = usize;

/// Error kinds surfaced by the syscall protocol.
#[derive(Clone, Copy, PartialEq, Eq, Structural, Debug)]
pub enum SysError {
    /// Invalid argument: unknown identifier or out-of-range size/count.
    Einval,
    /// The request names a feature this subsystem does not implement
    /// (non-unit semaphore delta, non-`SETVAL` command, `IPC_NOWAIT`).
    Unsupported,
}

} // verus!
