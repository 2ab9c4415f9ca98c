use rost::ipc::Message;
use rost::process::pcb::{CapKind, Capability, ProcessState, CAP_G, CAP_R, CAP_W};
use rost::process::ProcessId;
use rost::scheduler::round_robin::CPU_BUDGET_FRAME_TICKS;
use rost::scheduler::{AuditKind, Scheduler};
use rost::service_registry::{lookup, register, ServiceRegistry};

fn dummy_msg() -> Message {
    Message { sender: ProcessId::new(0), data: [0u64; 8] }
}

#[test]
fn test_priority_selection() {
    let mut sched = Scheduler::new();
    let pid_lo = sched.add_process(0x1000, 0, 0).unwrap();
    let pid_hi = sched.add_process(0x2000, 0, 0).unwrap();
    sched.set_priority(pid_hi, 10);
    sched.set_priority(pid_lo, 200);

    let picked = sched.schedule();
    assert_eq!(picked, Some(pid_hi),
        "expected high-priority process (prio=10) to be picked over prio=200");
}

#[test]
fn test_round_robin_within_priority() {
    let mut sched = Scheduler::new();
    let pid_a = sched.add_process(0x1000, 0, 0).unwrap();
    let pid_b = sched.add_process(0x2000, 0, 0).unwrap();
    sched.set_priority(pid_a, 50);
    sched.set_priority(pid_b, 50);

    sched.schedule();
    let first = sched.current_process().unwrap();

    for _ in 0..10 {
        let _ = sched.timer_tick();
    }
    let second = sched.current_process().unwrap();
    assert_ne!(first, second,
        "expected round-robin to alternate between two equal-priority processes");
}

#[test]
fn test_edf_preempts_best_effort() {
    let mut sched = Scheduler::new();
    let pid_be = sched.add_process(0x1000, 0, 0).unwrap();
    let pid_rt = sched.add_process(0x2000, 0, 0).unwrap();
    sched.set_priority(pid_be, 0);
    sched.set_realtime(pid_rt, 100);

    let picked = sched.schedule();
    assert_eq!(picked, Some(pid_rt),
        "RT process must preempt best-effort regardless of BE priority number");
}

#[test]
fn test_edf_earliest_deadline_first() {
    let mut sched = Scheduler::new();
    let pid_a = sched.add_process(0x1000, 0, 0).unwrap();
    let pid_b = sched.add_process(0x2000, 0, 0).unwrap();
    sched.set_realtime(pid_a, 200);
    sched.set_realtime(pid_b, 100);

    let picked = sched.schedule();
    assert_eq!(picked, Some(pid_b),
        "EDF must select the process with the earlier absolute deadline (100 < 200)");
}

#[test]
fn test_edf_period_renewal() {
    let mut sched = Scheduler::new();
    let pid_rt = sched.add_process(0x1000, 0, 0).unwrap();
    sched.set_realtime(pid_rt, 20);

    sched.schedule();

    for _ in 0..20 {
        let _ = sched.timer_tick();
    }

    let new_deadline = sched.rt_deadline_for(pid_rt).unwrap();
    assert_eq!(new_deadline, 40,
        "deadline must be renewed to old_deadline + period (no drift)");
}

#[test]
fn test_priority_inheritance() {
    let mut sched = Scheduler::new();
    let client = sched.add_process(0x1000, 0, 0).unwrap();
    let server = sched.add_process(0x2000, 0, 0).unwrap();
    let bystander = sched.add_process(0x3000, 0, 0).unwrap();
    sched.set_priority(client,    10);
    sched.set_priority(server,   100);
    sched.set_priority(bystander, 50);

    let _ = sched.blocking_receive(server, u64::MAX);
    let _ = sched.send_message(client, server, dummy_msg());
    let _ = sched.blocking_receive(client, u64::MAX);

    let picked = sched.schedule();
    assert_eq!(picked, Some(server),
        "server must inherit client priority (10) and preempt bystander (50)");
}

#[test]
fn test_ticks_until_next_event_no_blocked() {
    let sched = Scheduler::new();
    assert_eq!(sched.ticks_until_next_event(), 1);
}

#[test]
fn test_ticks_until_next_event_ticks_advance() {
    let mut sched = Scheduler::new();
    for _ in 0..50 { sched.timer_tick(); }
    assert_eq!(sched.ticks_until_next_event(), 1);
}

#[test]
fn test_deadlock_none_when_no_wait_chain() {
    let mut sched = Scheduler::new();
    let a = sched.add_process(0x1000, 0, 0).unwrap();
    let b = sched.add_process(0x2000, 0, 0).unwrap();
    assert!(!sched.detect_deadlock(a, b),
        "no wait chain -> no deadlock");
}

#[test]
fn test_deadlock_no_cycle_chain() {
    let mut sched = Scheduler::new();
    let a = sched.add_process(0x1000, 0, 0).unwrap();
    let b = sched.add_process(0x2000, 0, 0).unwrap();
    let c = sched.add_process(0x3000, 0, 0).unwrap();
    let _ = sched.send_message(b, c, dummy_msg());
    let _ = sched.blocking_receive(b, u64::MAX);
    assert!(!sched.detect_deadlock(a, b),
        "chain B->C with no link back to A must not be a deadlock");
}

#[test]
fn test_deadlock_direct_cycle() {
    let mut sched = Scheduler::new();
    let a = sched.add_process(0x1000, 0, 0).unwrap();
    let b = sched.add_process(0x2000, 0, 0).unwrap();
    let _ = sched.send_message(b, a, dummy_msg());
    let _ = sched.blocking_receive(b, u64::MAX);
    assert!(sched.detect_deadlock(a, b),
        "direct cycle A->B->A must be detected");
}

#[test]
fn test_deadlock_indirect_cycle() {
    let mut sched = Scheduler::new();
    let a = sched.add_process(0x1000, 0, 0).unwrap();
    let b = sched.add_process(0x2000, 0, 0).unwrap();
    let c = sched.add_process(0x3000, 0, 0).unwrap();
    let _ = sched.send_message(b, c, dummy_msg());
    let _ = sched.blocking_receive(b, u64::MAX);
    let _ = sched.send_message(c, a, dummy_msg());
    assert!(sched.detect_deadlock(a, b),
        "three-party cycle A->B->C->A must be detected");
}

#[test]
fn test_memory_quota_unlimited() {
    let mut sched = Scheduler::new();
    let pid = sched.add_process(0x1000, 0, 0).unwrap();
    for _ in 0..50 {
        assert!(sched.check_memory_quota(pid),
            "unlimited quota must always pass");
        sched.use_memory_page(pid);
    }
}

#[test]
fn test_memory_quota_enforced() {
    let mut sched = Scheduler::new();
    let pid = sched.add_process(0x1000, 0, 0).unwrap();
    sched.set_quotas(pid, 2, 0, 0);
    assert!(sched.check_memory_quota(pid), "first page must be allowed");
    sched.use_memory_page(pid);
    assert!(sched.check_memory_quota(pid), "second page must be allowed");
    sched.use_memory_page(pid);
    assert!(!sched.check_memory_quota(pid),
        "third page must be rejected (quota=2, used=2)");
}

#[test]
fn test_memory_quota_boundary() {
    let mut sched = Scheduler::new();
    let pid = sched.add_process(0x1000, 0, 0).unwrap();
    sched.set_quotas(pid, 1, 0, 0);
    assert!(sched.check_memory_quota(pid), "0 of 1 used: must pass");
    sched.use_memory_page(pid);
    assert!(!sched.check_memory_quota(pid), "1 of 1 used: must be rejected");
}

#[test]
fn test_cpu_budget_frame_reset() {
    let mut sched = Scheduler::new();
    let pid = sched.add_process(0x1000, 0, 0).unwrap();
    sched.set_quotas(pid, 5, 5, 0);
    sched.set_priority(pid, 1);
    for _ in 0..5 { sched.use_memory_page(pid); }
    assert!(!sched.check_memory_quota(pid), "quota exhausted before reset");
    sched.schedule();
    for _ in 0..CPU_BUDGET_FRAME_TICKS { let _ = sched.timer_tick(); }
    assert!(!sched.check_memory_quota(pid),
        "memory quota must not reset at frame boundary");
    let selected = sched.schedule();
    assert_eq!(selected, Some(pid),
        "process must be schedulable after cpu budget frame reset");
}

#[test]
fn sender_cannot_be_forged() {
    let mut sched = Scheduler::new();
    let a = sched.add_process(0x1000, 0, 0).unwrap();
    let b = sched.add_process(0x2000, 0, 0).unwrap();
    assert!(sched.send_message(a, b, dummy_msg()));
    let got = sched.blocking_receive(b, u64::MAX).unwrap();
    assert_eq!(got.sender, a);
    let log = sched.audit_entries();
    assert_eq!(log[0].kind, AuditKind::Send);
    assert_eq!(log[0].sender, a.as_u32());
    assert_eq!(log[0].target, b.as_u32());
}

#[test]
fn terminated_process_loses_its_service() {
    let mut sched = Scheduler::new();
    let mut services = ServiceRegistry::new();
    let a = sched.add_process(0x1000, 0, 0).unwrap();
    sched.schedule();
    assert_eq!(sched.current_process(), Some(a));
    assert!(register(&mut services, b"echo", a.as_u32()));
    sched.terminate_process(&mut services, a);
    assert_eq!(lookup(&services, b"echo"), None);
    assert_eq!(sched.current_process(), None);
    assert_eq!(sched.get_process_pml4(a), None);
    assert!(sched.force_schedule_next().is_none());
}

#[test]
fn rate_limit_refuses_messages() {
    let mut sched = Scheduler::new();
    let a = sched.add_process(0x1000, 0, 0).unwrap();
    let b = sched.add_process(0x2000, 0, 0).unwrap();
    sched.set_quotas(a, 0, 0, 2);
    assert!(sched.send_message(a, b, dummy_msg()));
    assert!(sched.send_message(a, b, dummy_msg()));
    assert!(!sched.send_message(a, b, dummy_msg()));
    // The counters start again every hundred ticks.
    for _ in 0..100 {
        sched.timer_tick();
    }
    assert!(sched.send_message(a, b, dummy_msg()));
}

#[test]
fn message_to_nobody_is_refused() {
    let mut sched = Scheduler::new();
    let a = sched.add_process(0x1000, 0, 0).unwrap();
    assert!(!sched.send_message(a, ProcessId::new(99), dummy_msg()));
    assert!(!sched.notify_process(ProcessId::new(99), 1));
}

#[test]
fn capability_slots_can_be_looked_up() {
    let mut sched = Scheduler::new();
    let a = sched.add_process(0x1000, 0, 0).unwrap();
    let b = sched.add_process(0x2000, 0, 0).unwrap();
    let s = sched.cap_alloc(a, Capability::new(CapKind::Memory, CAP_R | CAP_W | CAP_G, 3)).unwrap();
    assert_eq!(sched.cap_slot_rights(a, s), Some(CAP_R | CAP_W | CAP_G));
    assert_eq!(
        sched.cap_slot_info(a, s),
        Some((CapKind::Memory, CAP_R | CAP_W | CAP_G, 3))
    );
    let t = sched.cap_grant(a, s, b).unwrap();
    sched.cap_revoke(b, t);
    assert_eq!(sched.cap_slot_rights(b, t), None);
    assert_eq!(sched.cap_slot_rights(a, s), Some(CAP_R | CAP_W | CAP_G));
}

#[test]
fn sleeping_process_wakes_at_its_deadline() {
    let mut sched = Scheduler::new();
    let a = sched.add_process(0x1000, 0, 0).unwrap();
    sched.schedule();
    assert!(sched.blocking_receive(a, 5).is_none());
    assert_eq!(sched.schedule(), None);
    for _ in 0..5 {
        sched.timer_tick();
    }
    assert_eq!(sched.schedule(), Some(a));
}

#[test]
fn yielding_lets_an_equal_run() {
    let mut sched = Scheduler::new();
    let a = sched.add_process(0x1000, 0, 0).unwrap();
    let b = sched.add_process(0x2000, 0, 0x7000).unwrap();
    let first = sched.schedule().unwrap();
    let switch = sched.yield_switch().unwrap();
    let other = if first == a { b } else { a };
    assert_eq!(switch.from, first);
    assert_eq!(switch.to, other);
    assert_eq!(sched.current_process(), Some(other));
}

#[test]
fn at_most_one_process_runs() {
    let mut sched = Scheduler::new();
    for i in 0..4 {
        let p = sched.add_process(0x1000 * (i + 1), 0, 0).unwrap();
        sched.set_priority(p, 100 + (i as u8) % 2);
    }
    let first = sched.schedule().unwrap();
    sched.set_current(first);
    for step in 0..60 {
        if step % 7 == 0 {
            sched.yield_switch();
        } else {
            sched.timer_tick();
        }
        let running: Vec<ProcessId> = sched
            .process_table
            .processes
            .iter()
            .filter_map(|s| s.as_ref())
            .filter(|p| matches!(p.state, ProcessState::Running))
            .map(|p| p.pid)
            .collect();
        assert!(running.len() <= 1);
        assert!(running.iter().all(|&p| sched.current_process() == Some(p)));
    }
}

#[test]
fn granting_adds_no_rights() {
    let mut sched = Scheduler::new();
    let a = sched.add_process(0x1000, 0, 0).unwrap();
    let b = sched.add_process(0x2000, 0, 0).unwrap();
    let own = Capability::new(CapKind::Channel, CAP_R | CAP_G, 4);
    let slot = sched.cap_alloc(a, own).unwrap();
    let made = sched.cap_grant(a, slot, b).unwrap();
    assert_eq!(sched.cap_slot_info(b, made), Some((CapKind::Channel, CAP_R | CAP_G, 4)));
    let kept = sched.cap_alloc(a, Capability::new(CapKind::Channel, CAP_R | CAP_W, 5)).unwrap();
    assert_eq!(sched.cap_grant(a, kept, b), None);
}

#[test]
fn checked_waits_never_deadlock() {
    let mut sched = Scheduler::new();
    let a = sched.add_process(0x1000, 0, 0).unwrap();
    let b = sched.add_process(0x2000, 0, 0).unwrap();
    let c = sched.add_process(0x3000, 0, 0).unwrap();
    assert!(!sched.detect_deadlock(a, b));
    assert!(sched.send_message(a, b, dummy_msg()));
    assert!(!sched.detect_deadlock(b, c));
    assert!(sched.send_message(b, c, dummy_msg()));
    assert!(sched.detect_deadlock(c, a));
    assert!(sched.detect_deadlock(c, b));
    assert!(!sched.detect_deadlock(a, c));
}

#[test]
fn blocked_process_gives_way() {
    let mut sched = Scheduler::new();
    let a = sched.add_process(0x1000, 0, 0).unwrap();
    let b = sched.add_process(0x2000, 0, 0x9000).unwrap();
    sched.set_current(a);
    assert!(sched.blocking_receive(a, 5).is_none());
    let ready = sched.process_table.get_ready_processes();
    assert_eq!(ready.len(), 1);
    assert_eq!(ready.get(0), b);
    let switch = sched.prepare_block_switch(a).unwrap();
    assert_eq!((switch.from, switch.to, switch.pml4), (a, b, 0x9000));
    assert_eq!(sched.current_process(), Some(b));
    assert_eq!(sched.prepare_block_switch(ProcessId::new(99)), None);
    sched.timer_tick();
    assert_eq!(sched.cpu_time_for(b), Some(1));
    assert_eq!(sched.cpu_time_for(a), Some(0));
    assert_eq!(sched.cpu_time_for(ProcessId::new(99)), None);
}

#[test]
fn used_up_budget_preempts() {
    let mut sched = Scheduler::new();
    let a = sched.add_process(0x1000, 0, 0).unwrap();
    let b = sched.add_process(0x2000, 0, 0).unwrap();
    sched.set_quotas(a, 0, 2, 0);
    assert_eq!(sched.schedule(), Some(a));
    assert!(sched.timer_tick().is_none());
    let switch = sched.timer_tick().unwrap();
    assert_eq!((switch.from, switch.to), (a, b));
    assert_eq!(sched.cpu_time_for(a), Some(2));
}

#[test]
fn timer_fires_at_the_next_quantum_boundary() {
    let mut sched = Scheduler::new();
    let a = sched.add_process(0x1000, 0, 0).unwrap();
    let b = sched.add_process(0x2000, 0, 0).unwrap();
    assert!(sched.blocking_receive(a, 50).is_none());
    assert_eq!(sched.ticks_until_next_event(), 1);
    assert!(sched.blocking_receive(b, 1).is_none());
    assert_eq!(sched.ticks_until_next_event(), 1);
}

#[test]
fn terminated_process_loses_all_its_services() {
    let mut sched = Scheduler::new();
    let mut services = ServiceRegistry::new();
    let a = sched.add_process(0x1000, 0, 0).unwrap();
    let b = sched.add_process(0x2000, 0, 0x9000).unwrap();
    sched.set_current(a);
    assert!(register(&mut services, b"one", a.as_u32()));
    assert!(register(&mut services, b"other", b.as_u32()));
    assert!(register(&mut services, b"two", a.as_u32()));
    sched.terminate_process(&mut services, a);
    assert_eq!(lookup(&services, b"one"), None);
    assert_eq!(lookup(&services, b"two"), None);
    assert_eq!(lookup(&services, b"other"), Some(b.as_u32()));
    assert_eq!(sched.get_process_pml4(a), None);
    assert_eq!(sched.get_process_pml4(b), Some(0x9000));
    assert_ne!(sched.current_process(), Some(a));
    let last = *sched.audit_entries().last().unwrap();
    assert_eq!((last.kind, last.target), (AuditKind::Terminate, a.as_u32()));
}

#[test]
fn terminated_process_gives_up_its_frames() {
    let mut sched = Scheduler::new();
    let mut services = ServiceRegistry::new();
    let a = sched.add_process(0x1000, 0, 0).unwrap();
    sched.register_user_frames(a, &[0x5000, 0x7000]);
    sched.register_user_frames(a, &[0x9000]);
    sched.register_user_frames(ProcessId::new(99), &[0xB000]);
    assert_eq!(sched.terminate_process(&mut services, a), vec![0x5000, 0x7000, 0x9000]);
    assert_eq!(sched.terminate_process(&mut services, a), Vec::<u64>::new());
}

#[test]
fn every_process_of_a_level_gets_its_turn() {
    let mut sched = Scheduler::new();
    let pids: Vec<ProcessId> =
        (0..5).map(|i| sched.add_process(0x1000 + i, 0, 0).unwrap()).collect();
    sched.set_priority(pids[2], 200);
    sched.schedule();
    let mut picked: Vec<u32> = (0..4).map(|_| sched.schedule().unwrap().as_u32()).collect();
    picked.sort();
    assert_eq!(picked, vec![1, 2, 4, 5]);
}

#[test]
fn windows_and_frames_start_with_fresh_counters() {
    let mut sched = Scheduler::new();
    let a = sched.add_process(0x1000, 0, 0).unwrap();
    let b = sched.add_process(0x2000, 0, 0).unwrap();
    sched.set_quotas(a, 9, 2000, 0);
    sched.set_quotas(b, 9, 2000, 0);
    sched.use_memory_page(a);
    sched.schedule();
    for _ in 0..CPU_BUDGET_FRAME_TICKS - 1 {
        sched.timer_tick();
    }
    assert!(sched.send_message(a, b, dummy_msg()));
    assert!(sched.blocking_receive(a, 1).is_none());
    let current = sched.current_process().unwrap();
    sched.timer_tick();
    for pid in [a, b] {
        let p = sched.process_table.get_process_ref(pid).unwrap();
        assert_eq!(p.ipc_rate_used, 0);
        assert_eq!(p.cpu_budget_used, if pid == current { 1 } else { 0 });
        assert!(!matches!(p.state, ProcessState::Blocked));
    }
    assert_eq!(sched.process_table.get_process_ref(a).unwrap().memory_pages_used, 1);
}
