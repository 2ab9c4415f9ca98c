use rost::cpu::gdt::{GdtEntry, GlobalDescriptorTable};
use rost::cpu::idt::{IdtEntry, InterruptDescriptorTable};
use rost::cpu::tss::{init_tss, set_rsp0, TaskStateSegment};
use rost::crash_log::{self, CrashLog};
use rost::interrupts::dump::dump_registers;
use rost::interrupts::handlers::{
    from_user, handle_divide_by_zero, handle_double_fault, handle_general_protection,
    handle_machine_check, handle_page_fault, handle_uart_rx, timer_interrupt, ExceptionFrame,
    FaultOutcome,
};
use rost::interrupts::init;
use rost::irq_registry::{self, IrqRegistry};
use rost::kernel::Kernel;
use rost::memory::{FrameAllocator, KernelMemory, PhysMemory, PtPool};
use rost::process::ProcessId;
use rost::scheduler::{init_global, Scheduler};
use rost::service_registry::{lookup, register};
use rost::stack_guard::{__security_check_cookie, SECURITY_COOKIE};
use rost::uart_irq::{get_uart_drv_pid, set_uart_drv_pid, UartIrq};

fn kernel() -> (Kernel, ProcessId, ProcessId) {
    let mem = KernelMemory {
        ram: PhysMemory::new(0, 0),
        frames: FrameAllocator::empty(),
        pool: PtPool::new(),
    };
    let mut k = Kernel::new(mem);
    let mut sched = Scheduler::new();
    let monitor = sched.add_process(0x1000, 0, 0x5000).unwrap();
    let worker = sched.add_process(0x2000, 0, 0x6000).unwrap();
    sched.set_current(worker);
    init_global(&mut k.global, sched);
    k.global.current_pid = worker.as_u32();
    k.ticks = 99;
    (k, monitor, worker)
}

fn frame(cs: u64) -> ExceptionFrame {
    ExceptionFrame {
        r15: 15,
        r14: 14,
        r13: 13,
        r12: 12,
        r11: 11,
        r10: 10,
        r9: 9,
        r8: 8,
        rdi: 7,
        rsi: 6,
        rdx: 5,
        rcx: 4,
        rbx: 3,
        rbp: 2,
        rax: 1,
        error_code: 0xE,
        rip: 0x1234,
        cs,
        rflags: 0x202,
    }
}

#[test]
fn user_fault_ends_the_process_and_tells_the_monitor() {
    let (mut k, monitor, worker) = kernel();
    let mut log = CrashLog::blank();
    assert!(register(&mut k.services, b"echo", worker.as_u32()));
    let outcome = handle_page_fault(&mut k, &mut log, &frame(0x23), 0xDEAD);
    match outcome {
        FaultOutcome::Switch(t) => {
            assert_eq!(t.to, monitor);
            assert_eq!(t.pml4, 0x5000);
        }
        other => panic!("unexpected outcome {other:?}"),
    }
    assert_eq!(k.global.current_pid, monitor.as_u32());
    assert_eq!(lookup(&k.services, b"echo"), None);
    let sched = k.global.scheduler.as_mut().unwrap();
    assert_eq!(sched.get_process_pml4(worker), None);
    let msg = sched.process_table.get_process(monitor).unwrap().mailbox.receive().unwrap();
    assert_eq!(msg.sender, worker);
    assert_eq!(msg.data, [0x0E, worker.as_u32() as u64, 0, 0, 0, 0, 0, 0]);
    assert_eq!(crash_log::drain(&mut log).1, 0);
}

#[test]
fn fault_codes() {
    for (n, code) in [(0, 0xDE), (1, 0x0D)] {
        let (mut k, monitor, _) = kernel();
        let mut log = CrashLog::blank();
        if n == 0 {
            handle_divide_by_zero(&mut k, &mut log, &frame(0x23));
        } else {
            handle_general_protection(&mut k, &mut log, &frame(0x23));
        }
        let sched = k.global.scheduler.as_mut().unwrap();
        let msg = sched.process_table.get_process(monitor).unwrap().mailbox.receive().unwrap();
        assert_eq!(msg.data[0], code);
    }
}

#[test]
fn last_process_leaves_nothing_to_run() {
    let (mut k, monitor, _) = kernel();
    let mut log = CrashLog::blank();
    handle_page_fault(&mut k, &mut log, &frame(0x23), 0);
    assert_eq!(k.global.current_pid, monitor.as_u32());
    assert_eq!(handle_page_fault(&mut k, &mut log, &frame(0x23), 0), FaultOutcome::Wait);
}

#[test]
fn kernel_fault_is_recorded() {
    let (mut k, _, worker) = kernel();
    let mut log = CrashLog::blank();
    crash_log::init(&mut log);
    assert_eq!(handle_page_fault(&mut k, &mut log, &frame(0x08), 0xDEAD), FaultOutcome::Halt);
    assert_eq!(handle_general_protection(&mut k, &mut log, &frame(0x08)), FaultOutcome::Halt);
    assert_eq!(handle_divide_by_zero(&mut k, &mut log, &frame(0x08)), FaultOutcome::Halt);
    assert_eq!(handle_double_fault(&k, &mut log, &frame(0x23)), FaultOutcome::Halt);
    assert_eq!(handle_machine_check(&k, &mut log, &frame(0x23)), FaultOutcome::Halt);
    let (records, total) = crash_log::drain(&mut log);
    assert_eq!(total, 5);
    let vectors: Vec<u64> = records.iter().map(|r| r.vector).collect();
    assert_eq!(vectors, [0x0E, 0x0D, 0x00, 0x08, 0x12]);
    assert_eq!(records[0].cr2, 0xDEAD);
    assert_eq!(records[0].tick, 99);
    assert_eq!(records[0].pid, worker.as_u32() as u64);
    assert_eq!(records[0].rip, 0x1234);
    assert_eq!(records[0].rflags, 0x202);
    assert_eq!(records[1].cr2, 0);
    assert!(k.global.scheduler.as_ref().unwrap().get_process_pml4(worker).is_some());
}

#[test]
fn crash_log_keeps_the_newest_records() {
    let mut log = CrashLog::blank();
    let (k, _, _) = kernel();
    for _ in 0..17 {
        handle_double_fault(&k, &mut log, &frame(0x08));
    }
    handle_machine_check(&k, &mut log, &frame(0x08));
    let (records, total) = crash_log::drain(&mut log);
    assert_eq!(total, 18);
    assert_eq!(records.len(), 16);
    assert_eq!(records[15].vector, 0x12);
    assert_eq!(records[14].vector, 0x08);
    // A drained log holds nothing.
    let (records, total) = crash_log::drain(&mut log);
    assert_eq!((records.len(), total), (0, 0));
}

#[test]
fn origin_of_a_fault() {
    assert!(from_user(&frame(0x23)));
    assert!(!from_user(&frame(0x08)));
    assert!(!from_user(&frame(0x22)));
}

#[test]
fn serial_bytes_go_to_the_driver() {
    let (mut k, monitor, _) = kernel();
    handle_uart_rx(&mut k, b"x");
    let sched = k.global.scheduler.as_mut().unwrap();
    assert!(sched.process_table.get_process(monitor).unwrap().mailbox.is_empty());
    set_uart_drv_pid(&mut k.uart_irq, monitor.as_u32());
    handle_uart_rx(&mut k, b"ok");
    let sched = k.global.scheduler.as_mut().unwrap();
    let mailbox = &mut sched.process_table.get_process(monitor).unwrap().mailbox;
    let first = mailbox.receive().unwrap();
    assert_eq!(first.sender, ProcessId::new(0));
    assert_eq!(&first.data[..2], &[2, b'o' as u64]);
    assert_eq!(mailbox.receive().unwrap().data[1], b'k' as u64);
}

#[test]
fn timer_interrupt_counts_and_preempts() {
    let (mut k, monitor, worker) = kernel();
    for _ in 0..9 {
        assert!(timer_interrupt(&mut k).is_none());
    }
    let switch = timer_interrupt(&mut k).unwrap();
    assert_eq!(switch.from, worker);
    assert_eq!(switch.to, monitor);
    assert_eq!(switch.pml4, 0x5000);
    assert_eq!(k.global.current_pid, monitor.as_u32());
    assert_eq!(k.ticks, 109);
}

#[test]
fn register_dump() {
    let text = String::from_utf8(dump_registers(&frame(0x23))).unwrap();
    let lines: Vec<&str> = text.lines().collect();
    assert_eq!(lines.len(), 5);
    assert_eq!(
        lines[0],
        "  rax=0x0000000000000001  rbx=0x0000000000000003  rcx=0x0000000000000004  \
         rdx=0x0000000000000005"
    );
    assert_eq!(
        lines[4],
        "  rip=0x0000000000001234  rfl=0x0000000000000202  err=0x000000000000000E"
    );
    assert!(lines[2].starts_with("  r8 =0x0000000000000008  r9 ="));
}

#[test]
fn gates_are_wired() {
    let mut idt = InterruptDescriptorTable::new();
    assert_eq!(idt.entries[7], IdtEntry::null());
    let mut handlers = [0u64; 256];
    for (i, h) in handlers.iter_mut().enumerate() {
        *h = 0xFFFF_8000_1234_0000 + i as u64;
    }
    init(&mut idt, &handlers);
    for (i, g) in idt.entries.iter().enumerate() {
        let handler = g.offset_low as u64
            | (g.offset_mid as u64) << 16
            | (g.offset_high as u64) << 32;
        assert_eq!(handler, handlers[i]);
        assert_eq!(g.selector, 0x08);
        assert_eq!(g.type_attr, 0x8E);
        let ist = match i {
            2 => 2,
            8 => 1,
            18 => 3,
            _ => 0,
        };
        assert_eq!(g.ist, ist, "vector {i}");
    }
    assert_eq!(IdtEntry::interrupt_gate_ist(0, 8, 9).ist, 1);
    idt.set_entry(255, IdtEntry::null());
    assert_eq!(idt.entries[255], IdtEntry::null());
    let d = idt.descriptor(0x1000);
    assert_eq!((d.size, d.offset), (4095, 0x1000));
}

#[test]
fn task_state_segment_is_described() {
    let mut gdt = GlobalDescriptorTable::new();
    assert_eq!(gdt.entries[0], GdtEntry::null());
    assert_eq!(gdt.entries[1], GdtEntry::code());
    assert_eq!(gdt.entries[2], GdtEntry::data());
    assert_eq!(gdt.entries[3].access, 0xF2);
    assert_eq!(gdt.entries[4].access, 0xFA);
    gdt.install_tss(0x1122_3344_5566_7788);
    assert_eq!(gdt.tss_low, 0x5500_8966_7788_0067);
    assert_eq!(gdt.tss_high, 0x1122_3344);
    let d = gdt.descriptor(0x2000);
    assert_eq!((d.size, d.offset), (55, 0x2000));
}

#[test]
fn interrupt_stacks_grow_down() {
    let mut tss = TaskStateSegment::new();
    assert_eq!(tss.iopb, 104);
    init_tss(&mut tss, 0x1_0000, 0x2_0000, 0x3_0000);
    assert_eq!((tss.ist1, tss.ist2, tss.ist3, tss.ist4), (0x1_2000, 0x2_2000, 0x3_2000, 0));
    set_rsp0(&mut tss, 0x9000);
    assert_eq!(tss.rsp0, 0x9000);
    assert_eq!(tss.ist1, 0x1_2000);
}

#[test]
fn interrupts_are_registered() {
    let mut reg = IrqRegistry::new();
    assert_eq!(irq_registry::lookup(&reg, 4), None);
    assert!(irq_registry::register(&mut reg, 4, 7, 0xC100));
    assert!(irq_registry::register(&mut reg, 5, 8, 0xC200));
    assert_eq!(irq_registry::lookup(&reg, 4), Some((7, 0xC100)));
    assert_eq!(irq_registry::lookup(&reg, 5), Some((8, 0xC200)));
    assert!(!irq_registry::register(&mut reg, 16, 9, 0));
    assert_eq!(irq_registry::lookup(&reg, 16), None);
}

#[test]
fn serial_driver_is_remembered() {
    let mut u = UartIrq::new();
    assert_eq!(get_uart_drv_pid(&u), u32::MAX);
    set_uart_drv_pid(&mut u, 3);
    assert_eq!(get_uart_drv_pid(&u), 3);
}

#[test]
fn damaged_cookie_is_noticed() {
    assert!(__security_check_cookie(SECURITY_COOKIE));
    assert!(!__security_check_cookie(SECURITY_COOKIE ^ 1));
}

#[test]
fn crash_log_survives_in_its_page() {
    let (k, _, _) = kernel();
    let mut mem = PhysMemory::new(0x4000, 4096);
    let mut log = crash_log::read_page(&mem);
    assert_eq!(log.header_magic, 0);
    handle_double_fault(&k, &mut log, &frame(0x08));
    handle_machine_check(&k, &mut log, &frame(0x08));
    crash_log::write_page(&log, &mut mem);
    assert_eq!(mem.read_u64(0x4010), 2);
    assert_eq!(mem.read_u64(0x4048), 0x08);
    assert_eq!(mem.read_u64(0x4088), 0x12);
    let mut read = crash_log::read_page(&mem);
    let (records, total) = crash_log::drain(&mut read);
    assert_eq!(total, 2);
    assert_eq!(records[1].vector, 0x12);
    assert_eq!(records[1].rip, 0x1234);
}
