use std::sync::Arc;
use sysv_ipc::shm::{ShmGuard, ShmIdentifier, ShmProc};

#[test]
fn shm_add_assigns_sequential_ids_unattached() {
    let mut p = ShmProc::new();
    let g0 = Arc::new(ShmGuard::new(1, 4096));
    let g1 = Arc::new(ShmGuard::new(2, 8192));
    assert_eq!(p.add(g0.clone()), 0);
    assert_eq!(p.add(g1.clone()), 1);
    let e0 = p.get(0).unwrap();
    assert_eq!(e0.addr, 0);
    assert!(Arc::ptr_eq(&e0.shared_guard, &g0));
    let e1 = p.get(1).unwrap();
    assert_eq!(e1.addr, 0);
    assert!(Arc::ptr_eq(&e1.shared_guard, &g1));
}

#[test]
fn shm_pop_then_add_reuses_id_and_keeps_others() {
    let mut p = ShmProc::new();
    let g0 = Arc::new(ShmGuard::new(1, 4096));
    let g1 = Arc::new(ShmGuard::new(2, 4096));
    let g2 = Arc::new(ShmGuard::new(3, 4096));
    assert_eq!(p.add(g0.clone()), 0);
    assert_eq!(p.add(g1.clone()), 1);
    assert_eq!(p.add(g2.clone()), 2);

    p.pop(1);
    assert!(p.get(1).is_none());
    // no other existing identifier changes
    assert!(Arc::ptr_eq(&p.get(0).unwrap().shared_guard, &g0));
    assert!(Arc::ptr_eq(&p.get(2).unwrap().shared_guard, &g2));

    // a subsequent add reuses the freed identifier
    let g3 = Arc::new(ShmGuard::new(4, 4096));
    assert_eq!(p.add(g3.clone()), 1);
    assert!(Arc::ptr_eq(&p.get(1).unwrap().shared_guard, &g3));
    assert!(Arc::ptr_eq(&p.get(0).unwrap().shared_guard, &g0));
    assert!(Arc::ptr_eq(&p.get(2).unwrap().shared_guard, &g2));
}

#[test]
fn shm_set_updates_entry_and_keeps_others() {
    let mut p = ShmProc::new();
    let g0 = Arc::new(ShmGuard::new(1, 4096));
    let g1 = Arc::new(ShmGuard::new(2, 4096));
    p.add(g0.clone());
    p.add(g1.clone());
    p.set(0, ShmIdentifier { addr: 0x5000, shared_guard: g0.clone() });
    assert_eq!(p.get(0).unwrap().addr, 0x5000);
    assert!(Arc::ptr_eq(&p.get(0).unwrap().shared_guard, &g0));
    assert_eq!(p.get(1).unwrap().addr, 0);
}

#[test]
fn shm_get_id_finds_smallest_matching_address() {
    let mut p = ShmProc::new();
    let g = Arc::new(ShmGuard::new(1, 4096));
    p.add(g.clone());
    p.add(g.clone());
    p.add(g.clone());
    p.set(1, ShmIdentifier { addr: 0x7000, shared_guard: g.clone() });
    p.set(2, ShmIdentifier { addr: 0x7000, shared_guard: g.clone() });
    assert_eq!(p.getId(0x7000), Some(1));
    assert_eq!(p.getId(0x9999), None);
}

#[test]
fn shm_fork_copies_entries_and_shares_guards() {
    let mut p = ShmProc::new();
    let g = Arc::new(ShmGuard::new(1, 4096));
    p.add(g.clone());
    p.set(0, ShmIdentifier { addr: 0x5000, shared_guard: g.clone() });
    let child = p.fork();
    let e = child.get(0).unwrap();
    assert_eq!(e.addr, 0x5000);
    assert!(Arc::ptr_eq(&e.shared_guard, &g));
}
