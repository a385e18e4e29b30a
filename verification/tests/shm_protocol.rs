use std::sync::Arc;
use sysv_ipc::shm::ShmProc;
use sysv_ipc::syscall::{
    sys_shmat_commit, sys_shmat_prepare, sys_shmdt, sys_shmget, ShmRegistry, PAGE_SIZE,
};
use sysv_ipc::SysError;

#[test]
fn shmget_returns_id_zero_and_registers_guard() {
    let mut p = ShmProc::new();
    let mut reg = ShmRegistry::new();
    assert_eq!(sys_shmget(&mut p, &mut reg, 5, 4096, 0), Ok(0));
    let e = p.get(0).unwrap();
    assert_eq!(e.addr, 0);
    assert_eq!(e.shared_guard.key, 5);
    assert_eq!(e.shared_guard.size, 4096);
}

#[test]
fn shmget_same_key_shares_one_guard() {
    let mut reg = ShmRegistry::new();
    let mut p1 = ShmProc::new();
    let mut p2 = ShmProc::new();
    assert_eq!(sys_shmget(&mut p1, &mut reg, 5, 4096, 0), Ok(0));
    assert_eq!(sys_shmget(&mut p2, &mut reg, 5, 4096, 0), Ok(0));
    assert!(Arc::ptr_eq(&p1.get(0).unwrap().shared_guard, &p2.get(0).unwrap().shared_guard));
}

#[test]
fn shmat_resolves_nonzero_address_and_keeps_guard() {
    let mut p = ShmProc::new();
    let mut reg = ShmRegistry::new();
    assert_eq!(sys_shmget(&mut p, &mut reg, 5, 4096, 0), Ok(0));
    let g = p.get(0).unwrap().shared_guard;

    // an address hint of 0 means "let the kernel choose": never the 0 sentinel
    let (hint, size, guard) = sys_shmat_prepare(&p, 0, 0).unwrap();
    assert_eq!(hint, PAGE_SIZE);
    assert_ne!(hint, 0);
    assert_eq!(size, 4096);
    assert!(Arc::ptr_eq(&guard, &g));

    // the kernel mapped the region at the hint; the table records it
    assert_eq!(sys_shmat_commit(&mut p, 0, hint), Ok(hint));
    assert_eq!(p.get(0).unwrap().addr, hint);
    assert!(Arc::ptr_eq(&p.get(0).unwrap().shared_guard, &g));

    // a second attachment before detaching must not lose the guard reference
    let (hint2, _size2, guard2) = sys_shmat_prepare(&p, 0, 0x40000).unwrap();
    assert_eq!(hint2, 0x40000);
    assert!(Arc::ptr_eq(&guard2, &g));
    assert_eq!(sys_shmat_commit(&mut p, 0, hint2), Ok(hint2));
    assert!(Arc::ptr_eq(&p.get(0).unwrap().shared_guard, &g));
}

#[test]
fn shmat_rejects_unknown_id() {
    let mut p = ShmProc::new();
    assert!(matches!(sys_shmat_prepare(&p, 3, 0), Err(SysError::Einval)));
    assert!(matches!(sys_shmat_commit(&mut p, 3, 0x5000), Err(SysError::Einval)));
}

#[test]
fn shmdt_removes_exactly_the_matching_attachment() {
    let mut p = ShmProc::new();
    let mut reg = ShmRegistry::new();
    assert_eq!(sys_shmget(&mut p, &mut reg, 1, 4096, 0), Ok(0));
    assert_eq!(sys_shmget(&mut p, &mut reg, 2, 4096, 0), Ok(1));
    let a0 = sys_shmat_prepare(&p, 0, 0).unwrap().0;
    sys_shmat_commit(&mut p, 0, a0).unwrap();
    let a1 = 0x90000;
    sys_shmat_commit(&mut p, 1, a1).unwrap();

    // detach the address returned for id 0: exactly that entry goes
    assert_eq!(sys_shmdt(&mut p, a0, 0), Ok(0));
    assert!(p.get(0).is_none());
    assert_eq!(p.get(1).unwrap().addr, a1);
}

#[test]
fn shmdt_on_unmapped_address_is_a_noop() {
    let mut p = ShmProc::new();
    let mut reg = ShmRegistry::new();
    assert_eq!(sys_shmget(&mut p, &mut reg, 1, 4096, 0), Ok(0));
    assert_eq!(sys_shmdt(&mut p, 0xdead000, 0), Ok(0));
    // the table is untouched
    assert!(p.get(0).is_some());
}
