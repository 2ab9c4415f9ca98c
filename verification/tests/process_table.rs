use rost::process::pcb::{
    alloc_kernel_stack, free_kernel_stack, CapKind, Capability, KernelStackPool, ProcessState,
    CAP_G, CAP_R, CAP_TABLE_SIZE, CAP_W, KERNEL_GUARD_SIZE, KERNEL_SLOT_SIZE, KERNEL_STACK_SIZE,
    MAX_KERNEL_STACKS,
};
use rost::process::table::{ProcList, ProcessTable, MAX_PROCESSES};
use rost::process::ProcessId;

#[test]
fn test_create_and_get() {
    let mut table = ProcessTable::new();
    let pid = table.create_process(0x1000, 0, 0).expect("create failed");
    let pcb = table.get_process(pid).expect("get failed");
    assert_eq!(pcb.pid, pid);
    assert!(matches!(pcb.state, ProcessState::Ready));
}

#[test]
fn test_unique_pids() {
    let mut table = ProcessTable::new();
    let p1 = table.create_process(0x1000, 0, 0).unwrap();
    let p2 = table.create_process(0x2000, 0, 0).unwrap();
    let p3 = table.create_process(0x3000, 0, 0).unwrap();
    assert_ne!(p1, p2);
    assert_ne!(p2, p3);
    assert_ne!(p1, p3);
}

#[test]
fn test_get_ready_with_priority() {
    let mut table = ProcessTable::new();
    let p1 = table.create_process(0x1000, 0, 0).unwrap();
    let p2 = table.create_process(0x2000, 0, 0).unwrap();
    if let Some(pcb) = table.get_process(p2) {
        pcb.state = ProcessState::Terminated;
    }
    let ready = table.get_ready_with_priority();
    assert_eq!(ready.len(), 1);
    assert_eq!(ready.get(0).0, p1);
}

#[test]
fn test_terminate_clears_slot() {
    let mut table = ProcessTable::new();
    let pid = table.create_process(0x1000, 0, 0).unwrap();
    assert!(table.get_process(pid).is_some());
    table.terminate_process(pid);
    assert!(table.get_process(pid).is_none());
}

#[test]
fn test_slot_reuse_after_terminate() {
    let mut table = ProcessTable::new();
    let p1 = table.create_process(0x1000, 0, 0).unwrap();
    table.terminate_process(p1);
    let p2 = table.create_process(0x2000, 0, 0).unwrap();
    assert!(table.get_process(p2).is_some());
}

#[test]
fn test_check_deadlines() {
    let mut table = ProcessTable::new();
    let p1 = table.create_process(0x1000, 0, 0).unwrap();
    let p2 = table.create_process(0x2000, 0, 0).unwrap();
    if let Some(pcb) = table.get_process(p1) {
        pcb.state = ProcessState::Blocked;
        pcb.blocked_deadline = 50;
    }
    if let Some(pcb) = table.get_process(p2) {
        pcb.state = ProcessState::Blocked;
        pcb.blocked_deadline = 200;
    }
    table.check_deadlines(60);
    assert!(matches!(table.get_process(p1).unwrap().state, ProcessState::Ready));
    assert!(matches!(table.get_process(p2).unwrap().state, ProcessState::Blocked));
}

#[test]
fn test_earliest_deadline_no_blocked() {
    let table = ProcessTable::new();
    assert_eq!(table.earliest_blocked_deadline(), u64::MAX);
}

#[test]
fn test_earliest_deadline_all_ready() {
    let mut table = ProcessTable::new();
    table.create_process(0x1000, 0, 0).unwrap();
    table.create_process(0x2000, 0, 0).unwrap();
    assert_eq!(table.earliest_blocked_deadline(), u64::MAX);
}

#[test]
fn test_earliest_deadline_single_blocked() {
    let mut table = ProcessTable::new();
    let p1 = table.create_process(0x1000, 0, 0).unwrap();
    if let Some(pcb) = table.get_process(p1) {
        pcb.state = ProcessState::Blocked;
        pcb.blocked_deadline = 42;
    }
    assert_eq!(table.earliest_blocked_deadline(), 42);
}

#[test]
fn test_earliest_deadline_multiple_blocked() {
    let mut table = ProcessTable::new();
    let p1 = table.create_process(0x1000, 0, 0).unwrap();
    let p2 = table.create_process(0x2000, 0, 0).unwrap();
    let p3 = table.create_process(0x3000, 0, 0).unwrap();
    if let Some(pcb) = table.get_process(p1) {
        pcb.state = ProcessState::Blocked;
        pcb.blocked_deadline = 100;
    }
    if let Some(pcb) = table.get_process(p2) {
        pcb.state = ProcessState::Blocked;
        pcb.blocked_deadline = 50;
    }
    if let Some(pcb) = table.get_process(p3) {
        pcb.state = ProcessState::Blocked;
        pcb.blocked_deadline = 200;
    }
    assert_eq!(table.earliest_blocked_deadline(), 50);
}

#[test]
fn test_earliest_deadline_skips_indefinite() {
    let mut table = ProcessTable::new();
    let p1 = table.create_process(0x1000, 0, 0).unwrap();
    let p2 = table.create_process(0x2000, 0, 0).unwrap();
    if let Some(pcb) = table.get_process(p1) {
        pcb.state = ProcessState::Blocked;
        pcb.blocked_deadline = u64::MAX;
    }
    if let Some(pcb) = table.get_process(p2) {
        pcb.state = ProcessState::Blocked;
        pcb.blocked_deadline = 77;
    }
    assert_eq!(table.earliest_blocked_deadline(), 77);
}

#[test]
fn test_cap_alloc_returns_slot() {
    let mut table = ProcessTable::new();
    let pid = table.create_process(0x1000, 0, 0).unwrap();
    let cap = Capability::new(CapKind::Channel, CAP_R | CAP_W | CAP_G, 42);
    let slot = table.cap_alloc(pid, cap).expect("cap_alloc failed");
    assert!(slot < CAP_TABLE_SIZE, "slot index must be in bounds");
}

#[test]
fn test_cap_find_after_alloc() {
    let mut table = ProcessTable::new();
    let pid = table.create_process(0x1000, 0, 0).unwrap();
    let cap = Capability::new(CapKind::Channel, CAP_W, 7);
    let slot = table.cap_alloc(pid, cap).unwrap();
    let (found_slot, found_cap) = table
        .cap_find(pid, CapKind::Channel, 7)
        .expect("cap_find failed");
    assert_eq!(found_slot, slot);
    assert_eq!(found_cap.object_id, 7);
    assert_eq!(found_cap.rights & CAP_W, CAP_W);
}

#[test]
fn test_cap_grant_copies_to_target() {
    let mut table = ProcessTable::new();
    let p1 = table.create_process(0x1000, 0, 0).unwrap();
    let p2 = table.create_process(0x2000, 0, 0).unwrap();
    let cap = Capability::new(CapKind::Memory, CAP_R | CAP_W | CAP_G, 0x1234);
    let slot1 = table.cap_alloc(p1, cap).unwrap();
    let slot2 = table.cap_grant(p1, slot1, p2).expect("cap_grant failed");
    assert!(table.cap_find(p1, CapKind::Memory, 0x1234).is_some());
    let (_, granted) = table.cap_find(p2, CapKind::Memory, 0x1234).unwrap();
    assert_eq!(granted.object_id, 0x1234);
    assert_eq!(slot2, table.cap_find(p2, CapKind::Memory, 0x1234).unwrap().0);
}

#[test]
fn test_cap_grant_requires_cap_g() {
    let mut table = ProcessTable::new();
    let p1 = table.create_process(0x1000, 0, 0).unwrap();
    let p2 = table.create_process(0x2000, 0, 0).unwrap();
    let cap = Capability::new(CapKind::Channel, CAP_W, 5);
    let slot = table.cap_alloc(p1, cap).unwrap();
    assert!(table.cap_grant(p1, slot, p2).is_none(), "grant without CAP_G must fail");
}

#[test]
fn test_cap_revoke_clears_slot() {
    let mut table = ProcessTable::new();
    let pid = table.create_process(0x1000, 0, 0).unwrap();
    let cap = Capability::new(CapKind::Channel, CAP_R | CAP_W | CAP_G, 99);
    let slot = table.cap_alloc(pid, cap).unwrap();
    assert!(table.cap_find(pid, CapKind::Channel, 99).is_some());
    table.cap_revoke(pid, slot);
    assert!(table.cap_find(pid, CapKind::Channel, 99).is_none());
}

#[test]
fn test_cap_table_full_returns_none() {
    let mut table = ProcessTable::new();
    let pid = table.create_process(0x1000, 0, 0).unwrap();
    for i in 0..CAP_TABLE_SIZE {
        let cap = Capability::new(CapKind::Channel, CAP_W, i as u32);
        assert!(table.cap_alloc(pid, cap).is_some(), "slot {i} should succeed");
    }
    let cap = Capability::new(CapKind::Channel, CAP_W, 0xFF);
    assert!(table.cap_alloc(pid, cap).is_none(), "overflow must return None");
}

#[test]
fn test_cap_slot_reuse_after_revoke() {
    let mut table = ProcessTable::new();
    let pid = table.create_process(0x1000, 0, 0).unwrap();
    let cap = Capability::new(CapKind::Service, CAP_R, 1);
    let slot = table.cap_alloc(pid, cap).unwrap();
    table.cap_revoke(pid, slot);
    let cap2 = Capability::new(CapKind::Service, CAP_R, 2);
    let slot2 = table.cap_alloc(pid, cap2).unwrap();
    assert_eq!(slot, slot2, "revoked slot must be reused");
}

#[test]
fn test_detect_cycle_no_links() {
    let mut table = ProcessTable::new();
    let a = table.create_process(0x1000, 0, 0).unwrap();
    let b = table.create_process(0x2000, 0, 0).unwrap();
    assert!(!table.detect_cycle(a, b), "no links -> no cycle");
}

#[test]
fn test_detect_cycle_chain_no_cycle() {
    let mut table = ProcessTable::new();
    let a = table.create_process(0x1000, 0, 0).unwrap();
    let b = table.create_process(0x2000, 0, 0).unwrap();
    let c = table.create_process(0x3000, 0, 0).unwrap();
    if let Some(pcb) = table.get_process(b) {
        pcb.waiting_for = Some(c);
    }
    assert!(!table.detect_cycle(a, b),
        "chain b->c with no link back to a must not be a cycle");
}

#[test]
fn test_detect_cycle_direct() {
    let mut table = ProcessTable::new();
    let a = table.create_process(0x1000, 0, 0).unwrap();
    let b = table.create_process(0x2000, 0, 0).unwrap();
    if let Some(pcb) = table.get_process(b) {
        pcb.waiting_for = Some(a);
    }
    assert!(table.detect_cycle(a, b),
        "direct cycle a->b->a must be detected");
}

#[test]
fn test_detect_cycle_indirect() {
    let mut table = ProcessTable::new();
    let a = table.create_process(0x1000, 0, 0).unwrap();
    let b = table.create_process(0x2000, 0, 0).unwrap();
    let c = table.create_process(0x3000, 0, 0).unwrap();
    if let Some(pcb) = table.get_process(b) { pcb.waiting_for = Some(c); }
    if let Some(pcb) = table.get_process(c) { pcb.waiting_for = Some(a); }
    assert!(table.detect_cycle(a, b),
        "three-party cycle a->b->c->a must be detected");
}

#[test]
fn test_detect_cycle_unknown_pid() {
    let table = ProcessTable::new();
    let ghost = ProcessId::new(999);
    let a     = ProcessId::new(1);
    assert!(!table.detect_cycle(a, ghost),
        "unknown target pid must be treated as no-path (not a cycle)");
}

#[test]
fn test_reset_cpu_budget_counters() {
    let mut table = ProcessTable::new();
    let p1 = table.create_process(0x1000, 0, 0).unwrap();
    let p2 = table.create_process(0x2000, 0, 0).unwrap();
    if let Some(pcb) = table.get_process(p1) { pcb.cpu_budget_used = 42; }
    if let Some(pcb) = table.get_process(p2) { pcb.cpu_budget_used = 99; }
    table.reset_cpu_budget_counters();
    assert_eq!(table.get_process(p1).unwrap().cpu_budget_used, 0);
    assert_eq!(table.get_process(p2).unwrap().cpu_budget_used, 0);
}

#[test]
fn test_free_kernel_stack_out_of_range() {
    let mut pool = KernelStackPool::new(0x100_0000);
    free_kernel_stack(&mut pool, MAX_KERNEL_STACKS);
    free_kernel_stack(&mut pool, MAX_KERNEL_STACKS + 1);
    free_kernel_stack(&mut pool, usize::MAX);
    assert!(pool.reclaim.is_empty());
}

#[test]
fn test_kernel_stack_zeroed_on_free() {
    let mut pool = KernelStackPool::new(0x100_0000);
    let (id, _guard, _top) = alloc_kernel_stack(&mut pool).expect("alloc");

    let start = id * KERNEL_SLOT_SIZE + KERNEL_GUARD_SIZE;
    for b in &mut pool.memory[start..start + KERNEL_STACK_SIZE] {
        *b = 0xCC;
    }

    free_kernel_stack(&mut pool, id);

    assert!(
        pool.memory[start..start + KERNEL_STACK_SIZE].iter().all(|&b| b == 0),
        "every byte of the usable stack must be zero after free"
    );
}

#[test]
fn test_kernel_stack_reclaim_lifo() {
    let mut pool = KernelStackPool::new(0x100_0000);
    let (id, _, _) = alloc_kernel_stack(&mut pool).expect("alloc");

    let depth_before = pool.reclaim.len();

    free_kernel_stack(&mut pool, id);

    let depth_after = pool.reclaim.len();
    assert!(
        depth_after > depth_before,
        "reclaim pool depth must grow after free (before={depth_before}, after={depth_after})"
    );

    assert!(
        pool.reclaim[..depth_after].contains(&id),
        "freed slot id {id} must be in the reclaim pool"
    );

    let (id2, _, _) = alloc_kernel_stack(&mut pool).expect("realloc");
    free_kernel_stack(&mut pool, id2);
}

#[test]
fn kernel_stacks_lie_above_their_guards() {
    let mut pool = KernelStackPool::new(0x100_0000);
    assert_eq!(alloc_kernel_stack(&mut pool), Some((0, 0x100_0000, 0x100_3000)));
    assert_eq!(alloc_kernel_stack(&mut pool), Some((1, 0x100_3000, 0x100_6000)));
    free_kernel_stack(&mut pool, 0);
    assert_eq!(alloc_kernel_stack(&mut pool), Some((0, 0x100_0000, 0x100_3000)));
    for id in 2..MAX_KERNEL_STACKS {
        assert_eq!(alloc_kernel_stack(&mut pool).unwrap().0, id);
    }
    assert_eq!(alloc_kernel_stack(&mut pool), None);
}

#[test]
fn full_table_refuses_processes() {
    let mut table = ProcessTable::new();
    for i in 0..MAX_PROCESSES as u32 {
        assert_eq!(table.create_process(0x1000, 0, 0), Some(ProcessId::new(i + 1)));
    }
    assert_eq!(table.create_process(0x1000, 0, 0), None);
    table.terminate_process(ProcessId::new(5));
    // A PID is never used twice.
    assert_eq!(table.create_process(0x1000, 0, 0), Some(ProcessId::new(33)));
}

#[test]
fn list_drops_what_does_not_fit() {
    let mut list: ProcList<u32> = ProcList::new();
    assert!(list.is_empty());
    for i in 0..MAX_PROCESSES as u32 + 3 {
        list.push(i);
    }
    assert_eq!(list.len(), MAX_PROCESSES);
    assert_eq!(list.as_slice()[MAX_PROCESSES - 1], 31);
    assert_eq!(list.iter().copied().sum::<u32>(), 496);
}

#[test]
fn expired_wait_leaves_no_trace() {
    let mut table = ProcessTable::new();
    let p = table.create_process(0x1000, 0, 0).unwrap();
    let q = table.create_process(0x2000, 0, 0).unwrap();
    {
        let pcb = table.get_process(p).unwrap();
        pcb.state = ProcessState::Blocked;
        pcb.blocked_deadline = 50;
        pcb.waiting_for = Some(q);
    }
    table.check_deadlines(49);
    assert_eq!(table.get_process_ref(p).unwrap().state, ProcessState::Blocked);
    table.check_deadlines(50);
    assert_eq!(table.get_process_ref(p).unwrap().state, ProcessState::Ready);
    assert_eq!(table.list_all().as_slice(), &[(p, 0, 128), (q, 0, 128)]);
}

#[test]
fn granted_capability_can_be_revoked_alone() {
    let mut table = ProcessTable::new();
    let p = table.create_process(0x1000, 0, 0).unwrap();
    let q = table.create_process(0x2000, 0, 0).unwrap();
    let s = table.cap_alloc(p, Capability::new(CapKind::Memory, CAP_R | CAP_G, 9)).unwrap();
    let t = table.cap_grant(p, s, q).unwrap();
    table.cap_revoke(p, s);
    assert!(table.cap_find(p, CapKind::Memory, 9).is_none());
    assert_eq!(table.cap_find(q, CapKind::Memory, 9).unwrap().0, t);
    assert_eq!(table.cap_grant(p, CAP_TABLE_SIZE, q), None);
    assert_eq!(table.cap_grant(p, s, q), None, "empty slot");
}
