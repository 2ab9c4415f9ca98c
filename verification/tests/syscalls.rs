use rost::cpu::control::{ProtectionRegisters, CR0_WP, CR4_SMAP, CR4_SMEP, EFER_NXE};
use rost::cpu::{block_current, init_protection};
use rost::cpu::syscall::{
    self, dispatch_syscall, resume_call, uart_read_value, Reply, EAGAIN, EDEADLK, EINVAL, ENOENT,
    ENOMEM, ENOSYS, EPERM, ETIMEDOUT, SYS_CALL, SYS_CAP_GRANT, SYS_CHAN_BIND, SYS_CLOCK, SYS_EXIT,
    SYS_GETPID, SYS_LOOKUP, SYS_LOOKUP_CAP, SYS_MAP, SYS_MAP_CAP, SYS_MAP_SHARE, SYS_NOTIFY,
    SYS_RECV, SYS_RECV_MSG, SYS_REGISTER, SYS_RESTART_SERVER, SYS_SEND, SYS_SEND_CAP, SYS_SEND_MSG,
    SYS_SETPRIO, SYS_SETQUOTA, SYS_SETRT, SYS_SPAWN, SYS_SPAWN_ELF, SYS_UART_READ, SYS_UART_WRITE,
    SYS_YIELD,
};
use rost::cpu::user_memory::{
    read_message, read_name, validate_user_ptr, validate_user_vaddr, write_message,
};
use rost::elf_spawn::{
    set_elf_spawn_fn, set_restart_server_fn, Programs, ServerImages, SpawnHooks,
};
use rost::ipc::Message;
use rost::kernel::Kernel;
use rost::memory::{
    frame_stats, init_global_allocator, translate_address, FrameAllocator, KernelMemory,
    PhysMemory, PtPool,
};
use rost::process::pcb::{CapKind, Capability, ProcessState, CAP_R, CAP_W};
use rost::process::ProcessId;
use rost::scheduler::{init_global, set_kernel_pml4, Scheduler};
use rost::uart_irq::get_uart_drv_pid;

/// Where the user memory of these tests lies.
const USER: u64 = 0x40_0000;

/// Top-level tables of both processes; the frames follow.
const RAM: u64 = 0x10_0000;

/// A kernel with two processes, of which the first runs.
fn kernel() -> (Kernel, PhysMemory, ProcessId, ProcessId) {
    let mut frames = FrameAllocator::empty();
    init_global_allocator(&mut frames, RAM + 0x2000, 16 * 4096);
    let mem = KernelMemory {
        ram: PhysMemory::new(RAM, 18 * 4096),
        frames,
        pool: PtPool::new(),
    };
    let mut k = Kernel::new(mem);
    let mut sched = Scheduler::new();
    let a = sched.add_process(0x1000, 0, RAM).unwrap();
    let b = sched.add_process(0x2000, 0, RAM + 0x1000).unwrap();
    sched.set_current(a);
    init_global(&mut k.global, sched);
    set_kernel_pml4(&mut k.global, RAM);
    k.global.current_pid = a.as_u32();
    (k, PhysMemory::new(USER, 4096), a, b)
}

fn call(k: &mut Kernel, user: &mut PhysMemory, number: u64, args: [u64; 4]) -> u64 {
    match reply_to(k, user, number, args) {
        Reply::Value(v) => v,
        other => panic!("unexpected reply {other:?}"),
    }
}

fn reply_to(k: &mut Kernel, user: &mut PhysMemory, number: u64, a: [u64; 4]) -> Reply {
    dispatch_syscall(k, user, &programs(), number, a[0], a[1], a[2], a[3], 0, 0)
}

/// Both services are on; there is one server.
fn programs() -> Programs {
    let mut hooks = SpawnHooks::new();
    set_elf_spawn_fn(&mut hooks);
    set_restart_server_fn(&mut hooks);
    let images =
        ServerImages { uart_drv: program(), vfs: vec![], shell: vec![], net: vec![] };
    Programs { hooks, images, trampoline: 0x7777 }
}

/// A program with one page at 0x40_0000 that starts there.
fn program() -> Vec<u8> {
    let mut e = vec![0u8; 128];
    e[..4].copy_from_slice(b"\x7FELF");
    e[4] = 2;
    e[5] = 1;
    e[18] = 0x3E;
    e[24..32].copy_from_slice(&0x40_0000u64.to_le_bytes());
    e[32] = 64;
    e[54] = 56;
    e[56] = 1;
    e[64] = 1;
    e[68] = 5;
    e[72] = 120;
    e[80..88].copy_from_slice(&0x40_0000u64.to_le_bytes());
    e[96] = 8;
    e[104] = 8;
    e
}

/// The kernel of these tests with room for programs.
fn large_kernel() -> (Kernel, PhysMemory) {
    let mut frames = FrameAllocator::empty();
    init_global_allocator(&mut frames, RAM + 0x2000, 128 * 4096);
    let mem = KernelMemory {
        ram: PhysMemory::new(RAM, 130 * 4096),
        frames,
        pool: PtPool::new(),
    };
    let mut k = Kernel::new(mem);
    let mut sched = Scheduler::new();
    let a = sched.add_process(0x1000, 0, RAM).unwrap();
    sched.set_current(a);
    init_global(&mut k.global, sched);
    set_kernel_pml4(&mut k.global, RAM);
    k.global.current_pid = a.as_u32();
    (k, PhysMemory::new(USER, 4096))
}

fn run_as(k: &mut Kernel, pid: ProcessId) {
    k.global.current_pid = pid.as_u32();
}

fn put_name(user: &mut PhysMemory, addr: u64, name: &[u8]) {
    let mut bytes = [0u8; 16];
    bytes[..name.len()].copy_from_slice(name);
    user.copy_in(addr, &bytes, 0, 16);
}

#[test]
fn unknown_calls_are_refused() {
    let (mut k, mut user, _, _) = kernel();
    assert_eq!(call(&mut k, &mut user, 25, [1, 2, 3, 4]), ENOSYS);
    assert_eq!(call(&mut k, &mut user, 28, [1, 2, 3, 4]), ENOSYS);
    assert_eq!(call(&mut k, &mut user, u64::MAX, [0; 4]), ENOSYS);
}

#[test]
fn identity_and_clock() {
    let (mut k, mut user, a, _) = kernel();
    assert_eq!(call(&mut k, &mut user, SYS_GETPID, [0; 4]), a.as_u32() as u64);
    k.ticks = 7;
    assert_eq!(call(&mut k, &mut user, SYS_CLOCK, [0; 4]), 70_000_000);
    assert_eq!(call(&mut k, &mut user, SYS_YIELD, [0; 4]), 0);
}

#[test]
fn serial_port_calls_are_left_to_the_caller() {
    let (mut k, mut user, _, _) = kernel();
    assert_eq!(
        reply_to(&mut k, &mut user, SYS_UART_WRITE, [0x141, 0, 0, 0]),
        Reply::UartWrite(0x41)
    );
    assert_eq!(
        reply_to(&mut k, &mut user, SYS_UART_READ, [0; 4]),
        Reply::UartRead
    );
    assert_eq!(uart_read_value(Some(9)), 9);
    assert_eq!(uart_read_value(None), u64::MAX);
}

#[test]
fn words_are_sent_and_received() {
    let (mut k, mut user, a, b) = kernel();
    assert_eq!(call(&mut k, &mut user, SYS_SEND, [b.as_u32() as u64, 11, 22, 0]), 0);
    run_as(&mut k, b);
    assert_eq!(call(&mut k, &mut user, SYS_RECV, [10, 0, 0, 0]), 11);
    assert_eq!(call(&mut k, &mut user, SYS_RECV, [10, 0, 0, 0]), u64::MAX);
    let sched = k.global.scheduler.as_ref().unwrap();
    assert_eq!(sched.process_table.get_process_ref(b).unwrap().blocked_deadline, 10);
    let _ = a;
}

#[test]
fn message_to_a_full_mailbox_is_refused() {
    let (mut k, mut user, _, b) = kernel();
    for i in 0..16 {
        assert_eq!(call(&mut k, &mut user, SYS_SEND, [b.as_u32() as u64, i, 0, 0]), 0);
    }
    let r = call(&mut k, &mut user, SYS_SEND, [b.as_u32() as u64, 16, 0, 0]);
    assert_eq!(r, EINVAL);
    assert_ne!(call(&mut k, &mut user, SYS_SEND, [99, 1, 0, 0]), 0);
}

#[test]
fn whole_messages_carry_the_true_sender() {
    let (mut k, mut user, a, b) = kernel();
    let mut msg = Message::new(ProcessId::new(77));
    for i in 0..8 {
        msg.data[i] = 100 + i as u64;
    }
    write_message(&mut user, USER, msg);
    assert_eq!(call(&mut k, &mut user, SYS_SEND_MSG, [b.as_u32() as u64, USER, 0, 0]), 0);
    run_as(&mut k, b);
    assert_eq!(call(&mut k, &mut user, SYS_RECV_MSG, [5, USER + 0x100, 0, 0]), 0);
    assert_eq!(user.read_u64(USER + 0x100), a.as_u32() as u64);
    assert_eq!(user.read_u64(USER + 0x108), 100);
    assert_eq!(user.read_u64(USER + 0x140), 107);
}

#[test]
fn bad_pointers_are_refused() {
    let (mut k, mut user, _, b) = kernel();
    let to = b.as_u32() as u64;
    for bad in [0, USER + 4, 0x0000_7FFF_FFFF_FFC0, 0xFFFF_8000_0000_0000, u64::MAX - 7] {
        assert_eq!(call(&mut k, &mut user, SYS_SEND_MSG, [to, bad, 0, 0]), EINVAL);
        assert_eq!(call(&mut k, &mut user, SYS_RECV_MSG, [5, bad, 0, 0]), EINVAL);
        assert_eq!(call(&mut k, &mut user, SYS_CALL, [to, bad, USER, 5]), EINVAL);
        assert_eq!(call(&mut k, &mut user, SYS_CALL, [to, USER, bad, 5]), EINVAL);
    }
    for bad in [0, 0x0000_7FFF_FFFF_FFF1, u64::MAX] {
        assert_eq!(call(&mut k, &mut user, SYS_REGISTER, [bad, 0, 0, 0]), EINVAL);
        assert_eq!(call(&mut k, &mut user, SYS_LOOKUP, [bad, 0, 0, 0]), EINVAL);
        assert_eq!(call(&mut k, &mut user, SYS_LOOKUP_CAP, [bad, 0, 0, 0]), EINVAL);
    }
    // Nothing was sent.
    run_as(&mut k, b);
    assert_eq!(call(&mut k, &mut user, SYS_RECV, [0, 0, 0, 0]), u64::MAX);
}

#[test]
fn user_ranges_end_at_the_top_of_user_space() {
    assert!(validate_user_ptr(0x0000_7FFF_FFFF_FFF8, 8, 8));
    assert!(!validate_user_ptr(0x0000_7FFF_FFFF_FFF8, 9, 8));
    assert!(!validate_user_ptr(4, 4, 8));
    assert!(!validate_user_ptr(0, 0, 1));
    assert!(!validate_user_ptr(u64::MAX, 1, 1));
    assert!(validate_user_vaddr(0x1000));
    assert!(!validate_user_vaddr(0));
    assert!(!validate_user_vaddr(0x1001));
    assert!(!validate_user_vaddr(0x0000_8000_0000_0000));
}

#[test]
fn messages_and_names_in_user_memory() {
    let mut user = PhysMemory::new(USER, 4096);
    let mut msg = Message::new(ProcessId::new(3));
    msg.data[7] = u64::MAX;
    write_message(&mut user, USER + 8, msg);
    assert_eq!(user.read_u64(USER + 8), 3);
    let read = read_message(&user, USER + 8, ProcessId::new(5));
    assert_eq!(read.sender, ProcessId::new(5));
    assert_eq!(read.data, msg.data);
    put_name(&mut user, USER, b"abc");
    assert_eq!(&read_name(&user, USER)[..4], b"abc\0");
}

#[test]
fn notifications_reach_their_process() {
    let (mut k, mut user, _, b) = kernel();
    assert_eq!(call(&mut k, &mut user, SYS_NOTIFY, [b.as_u32() as u64, 0b101, 0, 0]), 0);
    assert_ne!(call(&mut k, &mut user, SYS_NOTIFY, [99, 1, 0, 0]), 0);
    let sched = k.global.scheduler.as_mut().unwrap();
    let pcb = sched.process_table.get_process(b).unwrap();
    assert_eq!(pcb.mailbox.poll_notification(), Some(0b101));
}

#[test]
fn services_are_registered_and_found() {
    let (mut k, mut user, a, b) = kernel();
    put_name(&mut user, USER, b"echo");
    assert_eq!(call(&mut k, &mut user, SYS_LOOKUP, [USER, 0, 0, 0]), EINVAL);
    assert_eq!(call(&mut k, &mut user, SYS_LOOKUP_CAP, [USER, 0, 0, 0]), ENOENT);
    assert_eq!(call(&mut k, &mut user, SYS_REGISTER, [USER, 0, 0, 0]), 0);
    run_as(&mut k, b);
    assert_eq!(call(&mut k, &mut user, SYS_LOOKUP, [USER, 0, 0, 0]), a.as_u32() as u64);
    assert_eq!(get_uart_drv_pid(&k.uart_irq), u32::MAX);
    put_name(&mut user, USER, b"uart-drv");
    assert_eq!(call(&mut k, &mut user, SYS_REGISTER, [USER, 0, 0, 0]), 0);
    assert_eq!(get_uart_drv_pid(&k.uart_irq), b.as_u32());
}

#[test]
fn channel_capability_lets_a_process_send() {
    let (mut k, mut user, _, b) = kernel();
    put_name(&mut user, USER, b"echo");
    run_as(&mut k, b);
    assert_eq!(call(&mut k, &mut user, SYS_REGISTER, [USER, 0, 0, 0]), 0);
    run_as(&mut k, ProcessId::new(1));
    let slot = call(&mut k, &mut user, SYS_LOOKUP_CAP, [USER, 0, 0, 0]);
    assert!(slot < 64, "got {slot:#x}");
    let mut msg = Message::new(ProcessId::new(0));
    msg.data[0] = 42;
    write_message(&mut user, USER + 0x100, msg);
    assert_eq!(call(&mut k, &mut user, SYS_SEND_CAP, [slot, USER + 0x100, 0, 0]), 0);
    assert_eq!(call(&mut k, &mut user, SYS_SEND_CAP, [slot + 1, USER + 0x100, 0, 0]), EPERM);
    assert_eq!(call(&mut k, &mut user, SYS_SEND_CAP, [64, USER + 0x100, 0, 0]), EINVAL);
    run_as(&mut k, b);
    assert_eq!(call(&mut k, &mut user, SYS_RECV, [0, 0, 0, 0]), 42);
}

#[test]
fn bound_channel_can_be_granted() {
    let (mut k, mut user, a, b) = kernel();
    let to = b.as_u32() as u64;
    let slot = call(&mut k, &mut user, SYS_CHAN_BIND, [to, (CAP_R | CAP_W) as u64, 0, 0]);
    assert!(slot < 64, "got {slot:#x}");
    let sched = k.global.scheduler.as_ref().unwrap();
    let (kind, rights, object) = sched.cap_slot_info(a, slot as usize).unwrap();
    assert_eq!(kind, CapKind::Channel);
    assert_eq!(object, b.as_u32());
    assert_eq!(rights & CAP_W, CAP_W);
    assert_eq!(call(&mut k, &mut user, SYS_CAP_GRANT, [99, to, 0, 0]), EINVAL);
}

#[test]
fn pages_are_mapped_within_the_quota() {
    let (mut k, mut user, a, _) = kernel();
    assert_eq!(call(&mut k, &mut user, SYS_MAP, [0x1001, 0, 3, 0]), EINVAL);
    assert_eq!(call(&mut k, &mut user, SYS_MAP, [0x1000, 0x123, 3, 0]), EINVAL);
    assert_eq!(call(&mut k, &mut user, SYS_SETQUOTA, [0, 1, 0, 0]), 0);
    assert_eq!(call(&mut k, &mut user, SYS_MAP, [0x1000, 0, 3, 0]), 0);
    assert_eq!(translate_address(&k.mem.ram, RAM, 0x1008), Some(RAM + 0x2008));
    assert_eq!(frame_stats(&k.mem.frames)[2], 1);
    assert_eq!(call(&mut k, &mut user, SYS_MAP, [0x2000, 0, 3, 0]), ENOMEM);
    assert_eq!(translate_address(&k.mem.ram, RAM, 0x2008), None);
    assert_eq!(call(&mut k, &mut user, SYS_MAP_SHARE, [0x2000, 1, 0, 0]), ENOMEM);
    let _ = a;
}

#[test]
fn shared_frame_is_the_same_for_both() {
    let (mut k, mut user, a, b) = kernel();
    let slot = call(&mut k, &mut user, SYS_MAP_SHARE, [0x5000, 1, 0, 0]);
    assert!(slot < 64, "got {slot:#x}");
    let phys = translate_address(&k.mem.ram, RAM, 0x5000).unwrap();
    let theirs = call(&mut k, &mut user, SYS_CAP_GRANT, [slot, b.as_u32() as u64, 0, 0]);
    assert!(theirs < 64, "got {theirs:#x}");
    run_as(&mut k, b);
    assert_eq!(call(&mut k, &mut user, SYS_MAP_CAP, [0x9000, theirs, 1, 0]), 0);
    assert_eq!(translate_address(&k.mem.ram, RAM + 0x1000, 0x9000), Some(phys));
    assert_eq!(call(&mut k, &mut user, SYS_MAP_CAP, [0xA000, theirs + 1, 1, 0]), EPERM);
    assert_eq!(call(&mut k, &mut user, SYS_MAP_CAP, [0xA000, 64, 1, 0]), EINVAL);
    assert_eq!(call(&mut k, &mut user, SYS_MAP_CAP, [0xA001, theirs, 1, 0]), EINVAL);
    let _ = a;
}

#[test]
fn mapping_a_capability_of_another_kind_is_refused() {
    let (mut k, mut user, a, _) = kernel();
    let sched = k.global.scheduler.as_mut().unwrap();
    let slot = sched.cap_alloc(a, Capability::new(CapKind::Channel, CAP_R | CAP_W, 1)).unwrap();
    assert_eq!(call(&mut k, &mut user, SYS_MAP_CAP, [0xA000, slot as u64, 1, 0]), EPERM);
}

#[test]
fn processes_are_configured() {
    let (mut k, mut user, _, b) = kernel();
    let to = b.as_u32() as u64;
    assert_eq!(call(&mut k, &mut user, SYS_SETPRIO, [to, 5, 0, 0]), 0);
    assert_eq!(call(&mut k, &mut user, SYS_SETRT, [to, 20, 0, 0]), 0);
    assert_eq!(call(&mut k, &mut user, SYS_SETQUOTA, [to, 7, 8, 9]), 0);
    let sched = k.global.scheduler.as_ref().unwrap();
    let pcb = sched.process_table.get_process_ref(b).unwrap();
    assert_eq!(pcb.priority, 5);
    assert_eq!(pcb.rt_period, 20);
    assert_eq!(pcb.rt_deadline, 20);
    assert_eq!(pcb.memory_quota_pages, 7);
    assert_eq!(pcb.cpu_budget_ticks, 8);
    assert_eq!(pcb.ipc_rate_limit, 9);
}

#[test]
fn spawned_process_gets_the_next_pid() {
    let (mut k, mut user, _, _) = kernel();
    assert_eq!(call(&mut k, &mut user, SYS_SPAWN, [0x9000, RAM, 10, 0]), 3);
    let sched = k.global.scheduler.as_ref().unwrap();
    let pcb = sched.process_table.get_process_ref(ProcessId::new(3)).unwrap();
    assert_eq!(pcb.priority, 10);
    assert_eq!(pcb.page_table_base, RAM);
}

#[test]
fn exit_ends_the_caller() {
    let (mut k, mut user, a, _) = kernel();
    assert_eq!(call(&mut k, &mut user, SYS_EXIT, [17, 0, 0, 0]), 17);
    assert_eq!(k.global.scheduler.as_ref().unwrap().get_process_pml4(a), None);
}

#[test]
fn call_delivers_and_waits() {
    let (mut k, mut user, a, b) = kernel();
    let mut msg = Message::new(ProcessId::new(0));
    msg.data[0] = 5;
    write_message(&mut user, USER, msg);
    let reply = reply_to(&mut k, &mut user, SYS_CALL, [b.as_u32() as u64, USER, USER + 0x100, 50]);
    assert_eq!(reply, Reply::Blocked { reply: USER + 0x100, deadline: 50 });
    let sched = k.global.scheduler.as_ref().unwrap();
    assert_eq!(sched.process_table.get_process_ref(b).unwrap().mailbox.len(), 1);
    assert_eq!(sched.process_table.get_process_ref(a).unwrap().waiting_for, Some(b));
    assert_eq!(sched.process_table.get_process_ref(a).unwrap().blocked_deadline, 50);
}

#[test]
fn reply_ends_the_call() {
    let (mut k, mut user, a, b) = kernel();
    let args = [b.as_u32() as u64, USER, USER + 0x100, 0];
    assert_eq!(
        reply_to(&mut k, &mut user, SYS_CALL, args),
        Reply::Blocked { reply: USER + 0x100, deadline: u64::MAX }
    );
    let switch = block_current(&mut k).unwrap();
    assert_eq!((switch.from, switch.to), (a, b));
    assert_eq!(k.global.current_pid, b.as_u32());
    assert_eq!(call(&mut k, &mut user, SYS_RECV, [0; 4]), 0);
    assert_eq!(call(&mut k, &mut user, SYS_SEND, [a.as_u32() as u64, 42, 0, 0]), 0);
    run_as(&mut k, a);
    assert_eq!(resume_call(&mut k, &mut user, USER + 0x100, u64::MAX), Reply::Value(0));
    assert_eq!(user.read_u64(USER + 0x100), b.as_u32() as u64);
    assert_eq!(user.read_u64(USER + 0x108), 42);
}

#[test]
fn call_times_out_at_its_deadline() {
    let (mut k, mut user, a, b) = kernel();
    let args = [b.as_u32() as u64, USER, USER + 0x100, 2];
    let blocked = Reply::Blocked { reply: USER + 0x100, deadline: 2 };
    assert_eq!(reply_to(&mut k, &mut user, SYS_CALL, args), blocked);
    // A notification wakes the caller, which then has to go on waiting.
    run_as(&mut k, b);
    assert_eq!(call(&mut k, &mut user, SYS_NOTIFY, [a.as_u32() as u64, 1, 0, 0]), 0);
    run_as(&mut k, a);
    k.global.scheduler.as_mut().unwrap().timer_tick();
    assert_eq!(resume_call(&mut k, &mut user, USER + 0x100, 2), blocked);
    let sched = k.global.scheduler.as_mut().unwrap();
    assert_eq!(sched.process_table.get_process_ref(a).unwrap().blocked_deadline, 2);
    sched.timer_tick();
    assert_eq!(resume_call(&mut k, &mut user, USER + 0x100, 2), Reply::Value(ETIMEDOUT));
    assert_eq!(resume_call(&mut k, &mut user, USER + 1, 2), Reply::Value(EINVAL));
}

#[test]
fn call_that_would_deadlock_is_refused() {
    let (mut k, mut user, a, b) = kernel();
    // The other side has sent to the caller and so waits for it.
    run_as(&mut k, b);
    assert_eq!(call(&mut k, &mut user, SYS_SEND, [a.as_u32() as u64, 1, 0, 0]), 0);
    run_as(&mut k, a);
    let args = [b.as_u32() as u64, USER, USER + 0x100, 0];
    // As long as a message is there, nobody has to wait.
    assert_eq!(call(&mut k, &mut user, SYS_CALL, args), 0);
    assert_eq!(call(&mut k, &mut user, SYS_CALL, args), EDEADLK);
    let sched = k.global.scheduler.as_ref().unwrap();
    assert!(!matches!(
        sched.process_table.get_process_ref(a).unwrap().state,
        ProcessState::Blocked
    ));
    // A call to oneself finds its own message.
    let own = [a.as_u32() as u64, USER, USER + 0x100, 0];
    assert_eq!(call(&mut k, &mut user, SYS_CALL, own), 0);
}

#[test]
fn call_to_a_full_mailbox_is_refused() {
    let (mut k, mut user, _, b) = kernel();
    for i in 0..16 {
        assert_eq!(call(&mut k, &mut user, SYS_SEND, [b.as_u32() as u64, i, 0, 0]), 0);
    }
    let args = [b.as_u32() as u64, USER, USER + 0x100, 0];
    assert_eq!(call(&mut k, &mut user, SYS_CALL, args), EAGAIN);
}

#[test]
fn programs_are_started_from_user_memory() {
    let (mut k, mut user) = large_kernel();
    let image = program();
    user.copy_in(USER + 0x200, &image, 0, image.len());
    let len = image.len() as u64;
    assert_eq!(call(&mut k, &mut user, SYS_SPAWN_ELF, [USER + 0x200, len, 77, 0]), 2);
    let sched = k.global.scheduler.as_ref().unwrap();
    let pcb = sched.process_table.get_process_ref(ProcessId::new(2)).unwrap();
    assert_eq!(pcb.priority, 77);
    assert_eq!((pcb.context.rip, pcb.context.r12), (0x7777, 0x40_0000));
    for (ptr, len) in [
        (0, len),
        (USER, len),
        (USER + 0x200, 100),
        (USER + 0xFFF, 2),
        (USER - 1, len),
        (0x0000_7FFF_FFFF_FFFF, 2),
        (u64::MAX, 1),
    ] {
        assert_eq!(call(&mut k, &mut user, SYS_SPAWN_ELF, [ptr, len, 0, 0]), EINVAL);
    }
}

#[test]
fn servers_are_restarted_by_name() {
    let (mut k, mut user) = large_kernel();
    put_name(&mut user, USER, b"uart-drv");
    assert_eq!(call(&mut k, &mut user, SYS_RESTART_SERVER, [USER, 0, 0, 0]), 2);
    let sched = k.global.scheduler.as_ref().unwrap();
    assert_eq!(sched.process_table.get_process_ref(ProcessId::new(2)).unwrap().priority, 64);
    put_name(&mut user, USER, b"rost-vfs");
    assert_eq!(call(&mut k, &mut user, SYS_RESTART_SERVER, [USER, 0, 0, 0]), EINVAL);
    put_name(&mut user, USER, b"unknown");
    assert_eq!(call(&mut k, &mut user, SYS_RESTART_SERVER, [USER, 0, 0, 0]), EINVAL);
    assert_eq!(call(&mut k, &mut user, SYS_RESTART_SERVER, [0, 0, 0, 0]), EINVAL);
}

#[test]
fn services_that_are_off_start_nothing() {
    let (mut k, mut user) = large_kernel();
    put_name(&mut user, USER, b"uart-drv");
    let off = Programs { hooks: SpawnHooks::new(), ..programs() };
    let image = program();
    user.copy_in(USER + 0x200, &image, 0, image.len());
    let len = image.len() as u64;
    for (number, a0, a1) in [(SYS_RESTART_SERVER, USER, 0), (SYS_SPAWN_ELF, USER + 0x200, len)] {
        let r = dispatch_syscall(&mut k, &mut user, &off, number, a0, a1, 0, 0, 0, 0);
        assert_eq!(r, Reply::Value(EINVAL));
    }
    assert_eq!(k.global.scheduler.as_ref().unwrap().process_table.list_all().len(), 1);
}

#[test]
fn system_call_registers() {
    assert_eq!(
        syscall::init(0x500, 0xFFFF_8000_0000_1234),
        [
            (0xC000_0080, 0x501),
            (0xC000_0081, 0x0010_0008_0000_0000),
            (0xC000_0082, 0xFFFF_8000_0000_1234),
            (0xC000_0084, 0x600),
        ]
    );
}

#[test]
fn protection_bits_are_added() {
    let r = init_protection(ProtectionRegisters { efer: 1, cr0: 2, cr4: 4 });
    assert_eq!(r.efer, 1 | EFER_NXE);
    assert_eq!(r.cr0, 2 | CR0_WP);
    assert_eq!(r.cr4, 4 | CR4_SMEP | CR4_SMAP);
    assert_eq!((EFER_NXE, CR0_WP, CR4_SMEP, CR4_SMAP), (1 << 11, 1 << 16, 1 << 20, 1 << 21));
}

#[test]
fn call_writes_only_its_buffer() {
    let (mut k, mut user, _, b) = kernel();
    for i in 0..512 {
        user.write_u64(USER + 8 * i, 0xEEEE);
    }
    assert_eq!(call(&mut k, &mut user, SYS_SEND, [b.as_u32() as u64, 7, 8, 0]), 0);
    run_as(&mut k, b);
    assert_eq!(call(&mut k, &mut user, SYS_RECV_MSG, [0, USER + 0x100, 0, 0]), 0);
    assert_eq!(user.read_u64(USER + 0x108), 7);
    assert_eq!(user.read_u64(USER + 0xF8), 0xEEEE);
    assert_eq!(user.read_u64(USER + 0x100 + 72), 0xEEEE);
}

#[test]
fn mapped_page_moves_no_other() {
    let (mut k, mut user, _, _) = kernel();
    assert_eq!(call(&mut k, &mut user, SYS_MAP, [0x40_0000, 0x5000, 3, 0]), 0);
    assert_eq!(call(&mut k, &mut user, SYS_MAP, [0x40_1000, 0, 3, 0]), 0);
    assert_eq!(translate_address(&k.mem.ram, RAM, 0x40_0000), Some(0x5000));
    let second = translate_address(&k.mem.ram, RAM, 0x40_1000).unwrap();
    assert!(second >= RAM + 0x2000);
    assert_eq!(translate_address(&k.mem.ram, RAM, 0x40_2000), None);
    assert_eq!(call(&mut k, &mut user, SYS_MAP, [0x8000_0000_0000, 0x5000, 3, 0]), EINVAL);
}

#[test]
fn messages_arrive_in_order() {
    let (mut k, mut user, a, b) = kernel();
    for i in 0..5 {
        assert_eq!(call(&mut k, &mut user, SYS_SEND, [b.as_u32() as u64, 40 + i, 0, 0]), 0);
    }
    run_as(&mut k, b);
    for i in 0..5 {
        assert_eq!(call(&mut k, &mut user, SYS_RECV_MSG, [0, USER, 0, 0]), 0);
        assert_eq!(user.read_u64(USER), a.as_u32() as u64);
        assert_eq!(user.read_u64(USER + 8), 40 + i);
    }
}
