use std::sync::Arc;
use sysv_ipc::sem::SemProc;
use sysv_ipc::syscall::{
    sys_semctl_prepare, sys_semget, sys_semop_commit, sys_semop_prepare, SemAction, SemBuf,
    SemFlags, SemRegistry, IPC_NOWAIT, SEM_UNDO, SETVAL,
};
use sysv_ipc::SysError;

#[test]
fn sem_flags_decode_defined_bits() {
    let f = SemFlags::from_bits_truncate(IPC_NOWAIT | SEM_UNDO);
    assert!(f.ipc_nowait && f.sem_undo);
    let f = SemFlags::from_bits_truncate(IPC_NOWAIT);
    assert!(f.ipc_nowait && !f.sem_undo);
    let f = SemFlags::from_bits_truncate(SEM_UNDO);
    assert!(!f.ipc_nowait && f.sem_undo);
    let f = SemFlags::from_bits_truncate(0);
    assert!(!f.ipc_nowait && !f.sem_undo);
}

#[test]
fn semget_rejects_nsems_over_max_and_inserts_nothing() {
    let mut p = SemProc::new();
    let mut reg = SemRegistry::new();
    assert_eq!(sys_semget(&mut p, &mut reg, 7, 300, 0), Err(SysError::Einval));
    assert_eq!(sys_semget(&mut p, &mut reg, 7, -1, 0), Err(SysError::Einval));
    // nothing was inserted: the next valid call is still assigned id 0
    assert_eq!(sys_semget(&mut p, &mut reg, 7, 1, 0), Ok(0));
}

#[test]
fn semget_accepts_boundary_counts() {
    let mut p = SemProc::new();
    let mut reg = SemRegistry::new();
    // 0 and the maximum of 256 are both within range
    assert_eq!(sys_semget(&mut p, &mut reg, 1, 0, 0), Ok(0));
    assert_eq!(sys_semget(&mut p, &mut reg, 2, 256, 0), Ok(1));
    assert_eq!(sys_semget(&mut p, &mut reg, 3, 257, 0), Err(SysError::Einval));
}

#[test]
fn semget_same_key_shares_one_array() {
    let mut reg = SemRegistry::new();
    let mut p1 = SemProc::new();
    let mut p2 = SemProc::new();
    assert_eq!(sys_semget(&mut p1, &mut reg, 42, 1, 0), Ok(0));
    assert_eq!(sys_semget(&mut p2, &mut reg, 42, 1, 0), Ok(0));
    let a1 = p1.get(0).unwrap();
    let a2 = p2.get(0).unwrap();
    assert!(Arc::ptr_eq(&a1, &a2));
    assert_eq!(a1.key, 42);
    assert_eq!(a1.nsems, 1);
    // a different key resolves to a different array
    let mut p3 = SemProc::new();
    assert_eq!(sys_semget(&mut p3, &mut reg, 43, 1, 0), Ok(0));
    assert!(!Arc::ptr_eq(&a1, &p3.get(0).unwrap()));
}

#[test]
fn semop_blocks_until_release_and_records_undo() {
    // Two threads of the same application share the array created under key
    // 42; this test plays the scheduler and the blocking primitive.
    let mut reg = SemRegistry::new();
    let mut waiter = SemProc::new();
    let mut releaser = SemProc::new();
    assert_eq!(sys_semget(&mut waiter, &mut reg, 42, 1, 0), Ok(0));
    assert_eq!(sys_semget(&mut releaser, &mut reg, 42, 1, 0), Ok(0));

    // the semaphore primitive: one counter, initially 0
    let mut value: i64 = 0;

    // waiter: semop(0, [{num:0, op:-1, flags:SEM_UNDO}]) — must block
    let acquire = SemBuf { num: 0, op: -1, flags: SEM_UNDO };
    let (a_w, action) = sys_semop_prepare(&waiter, 0, &acquire).unwrap();
    assert_eq!(action, SemAction::Acquire);
    assert_eq!(value, 0); // the acquire cannot proceed yet: the thread blocks

    // releaser: semop(0, [{num:0, op:+1, flags:0}]) on the same array
    let release = SemBuf { num: 0, op: 1, flags: 0 };
    let (a_r, action) = sys_semop_prepare(&releaser, 0, &release).unwrap();
    assert_eq!(action, SemAction::Release);
    assert!(Arc::ptr_eq(&a_w, &a_r)); // both drive the same semaphore
    value += 1;
    sys_semop_commit(&mut releaser, 0, &release);
    assert_eq!(releaser.undo_count(), 0); // no SEM_UNDO flag: nothing recorded

    // the release wakes the waiter, whose acquire now completes
    assert!(value >= 1);
    value -= 1;
    sys_semop_commit(&mut waiter, 0, &acquire);

    // after the call returns, the waiter's undo table holds {(0,0): 1}
    assert_eq!(waiter.undo_value(0, 0), 1);
    assert_eq!(waiter.undo_count(), 1);
}

#[test]
fn fork_shares_semaphore_with_parent() {
    let mut reg = SemRegistry::new();
    let mut parent = SemProc::new();
    assert_eq!(sys_semget(&mut parent, &mut reg, 42, 1, 0), Ok(0));
    let child = parent.fork();

    // one counter per array object, as the semaphore primitive keeps it
    let mut value: i64 = 0;

    // the parent releases on its handle to the array
    let release = SemBuf { num: 0, op: 1, flags: 0 };
    let (pa, action) = sys_semop_prepare(&parent, 0, &release).unwrap();
    assert_eq!(action, SemAction::Release);
    value += 1;

    // the child acquires through its own handle: the same array object, so
    // the same counter — the parent's release is visible, nothing blocks
    let acquire = SemBuf { num: 0, op: -1, flags: 0 };
    let (ca, action) = sys_semop_prepare(&child, 0, &acquire).unwrap();
    assert_eq!(action, SemAction::Acquire);
    assert!(Arc::ptr_eq(&pa, &ca));
    assert!(value >= 1);
    value -= 1;
    assert_eq!(value, 0);
}

#[test]
fn semop_rejects_unknown_id() {
    let p = SemProc::new();
    let op = SemBuf { num: 0, op: 1, flags: 0 };
    assert!(matches!(sys_semop_prepare(&p, 0, &op), Err(SysError::Einval)));
}

#[test]
fn semop_rejects_ipc_nowait() {
    let mut p = SemProc::new();
    let mut reg = SemRegistry::new();
    sys_semget(&mut p, &mut reg, 1, 1, 0).unwrap();
    let op = SemBuf { num: 0, op: 1, flags: IPC_NOWAIT };
    assert!(matches!(sys_semop_prepare(&p, 0, &op), Err(SysError::Unsupported)));
}

#[test]
fn semop_rejects_out_of_range_num() {
    let mut p = SemProc::new();
    let mut reg = SemRegistry::new();
    sys_semget(&mut p, &mut reg, 1, 1, 0).unwrap();
    let op = SemBuf { num: 1, op: 1, flags: 0 };
    assert!(matches!(sys_semop_prepare(&p, 0, &op), Err(SysError::Einval)));
}

#[test]
fn semop_rejects_non_unit_delta() {
    let mut p = SemProc::new();
    let mut reg = SemRegistry::new();
    sys_semget(&mut p, &mut reg, 1, 1, 0).unwrap();
    let op = SemBuf { num: 0, op: 2, flags: 0 };
    assert!(matches!(sys_semop_prepare(&p, 0, &op), Err(SysError::Unsupported)));
    let op = SemBuf { num: 0, op: 0, flags: 0 };
    assert!(matches!(sys_semop_prepare(&p, 0, &op), Err(SysError::Unsupported)));
}

#[test]
fn semctl_setval_hands_out_the_array() {
    let mut p = SemProc::new();
    let mut reg = SemRegistry::new();
    sys_semget(&mut p, &mut reg, 9, 2, 0).unwrap();
    let a = sys_semctl_prepare(&p, 0, 1, SETVAL).unwrap();
    assert!(Arc::ptr_eq(&a, &p.get(0).unwrap()));
}

#[test]
fn semctl_rejects_bad_arguments_and_commands() {
    let mut p = SemProc::new();
    let mut reg = SemRegistry::new();
    sys_semget(&mut p, &mut reg, 9, 2, 0).unwrap();
    // unknown identifier
    assert!(matches!(sys_semctl_prepare(&p, 1, 0, SETVAL), Err(SysError::Einval)));
    // out-of-range semaphore index
    assert!(matches!(sys_semctl_prepare(&p, 0, 2, SETVAL), Err(SysError::Einval)));
    // any command other than SETVAL is unimplemented
    assert!(matches!(sys_semctl_prepare(&p, 0, 0, 12), Err(SysError::Unsupported)));
    assert!(matches!(sys_semctl_prepare(&p, 0, 0, 17), Err(SysError::Unsupported)));
}
