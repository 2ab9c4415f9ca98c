use rost::cpu::syscall::sys_exit;
use rost::elf::{load, spawn_elf, USER_STACK_BASE, USER_STACK_TOP};
use rost::elf_spawn::{
    call_elf_spawn, call_restart_server, server_named, set_elf_spawn_fn, set_restart_server_fn,
    Server, ServerImages, SpawnHooks,
};
use rost::interrupts::handlers::terminate_faulting_process;
use rost::kernel::Kernel;
use rost::memory::{
    frame_kind, frame_stats, init_global_allocator, map_page_global, translate_address, FrameAllocator,
    FrameKind, KernelMemory, PhysMemory, PtPool, PTE_NO_EXECUTE, PTE_PRESENT, PTE_USER, PTE_WRITABLE,
};
use rost::process::ProcessId;
use rost::scheduler::{init_global, set_kernel_pml4, Scheduler};

/// The kernel's top-level table; the frames follow.
const RAM: u64 = 0x10_0000;

struct Segment {
    flags: u32,
    vaddr: u64,
    contents: Vec<u8>,
    memsz: u64,
}

fn image(segments: &[Segment]) -> Vec<u8> {
    let mut e = vec![0u8; 64 + 56 * segments.len()];
    e[..4].copy_from_slice(b"\x7FELF");
    e[4] = 2;
    e[5] = 1;
    e[18..20].copy_from_slice(&0x3Eu16.to_le_bytes());
    e[24..32].copy_from_slice(&0x40_0123u64.to_le_bytes());
    e[32..40].copy_from_slice(&64u64.to_le_bytes());
    e[54..56].copy_from_slice(&56u16.to_le_bytes());
    e[56..58].copy_from_slice(&(segments.len() as u16).to_le_bytes());
    for (i, s) in segments.iter().enumerate() {
        let ph = 64 + 56 * i;
        let offset = e.len() as u64;
        e[ph..ph + 4].copy_from_slice(&1u32.to_le_bytes());
        e[ph + 4..ph + 8].copy_from_slice(&s.flags.to_le_bytes());
        e[ph + 8..ph + 16].copy_from_slice(&offset.to_le_bytes());
        e[ph + 16..ph + 24].copy_from_slice(&s.vaddr.to_le_bytes());
        e[ph + 32..ph + 40].copy_from_slice(&(s.contents.len() as u64).to_le_bytes());
        e[ph + 40..ph + 48].copy_from_slice(&s.memsz.to_le_bytes());
        e.extend_from_slice(&s.contents);
    }
    e
}

fn program() -> Vec<u8> {
    image(&[
        Segment { flags: 5, vaddr: 0x40_0890, contents: vec![0xAB; 0x1000], memsz: 0x1000 },
        Segment { flags: 6, vaddr: 0x60_0000, contents: vec![0xCD; 16], memsz: 0x1800 },
    ])
}

fn memory(frames: u64) -> KernelMemory {
    let mut alloc = FrameAllocator::empty();
    init_global_allocator(&mut alloc, RAM + 0x1000, frames * 4096);
    KernelMemory {
        ram: PhysMemory::new(RAM, (frames as usize + 1) * 4096),
        frames: alloc,
        pool: PtPool::new(),
    }
}

fn kernel(frames: u64) -> Kernel {
    let mut k = Kernel::new(memory(frames));
    init_global(&mut k.global, Scheduler::new());
    set_kernel_pml4(&mut k.global, RAM);
    k
}

fn leaf(mem: &PhysMemory, pml4: u64, virt: u64) -> u64 {
    let mut table = pml4;
    for shift in [39, 30, 21] {
        table = mem.read_u64(table + 8 * ((virt >> shift) & 0x1FF)) & 0x000F_FFFF_FFFF_F000;
    }
    mem.read_u64(table + 8 * ((virt >> 12) & 0x1FF))
}

#[test]
fn segments_are_mapped_with_their_contents() {
    let mut mem = memory(32);
    let loaded = load(&mut mem, &program(), None).unwrap();
    assert_eq!(loaded.entry, 0x40_0123);
    // The address space, two pages of code and two pages of data.
    assert_eq!(loaded.frame_count, 5);
    assert_eq!(loaded.frames[0], loaded.pml4_phys);
    let at = |virt: u64| mem.ram.read_u8(translate_address(&mem.ram, loaded.pml4_phys, virt).unwrap());
    assert_eq!(at(0x40_088F), 0);
    assert_eq!(at(0x40_0890), 0xAB);
    assert_eq!(at(0x40_188F), 0xAB);
    assert_eq!(at(0x40_1890), 0);
    assert_eq!(at(0x60_000F), 0xCD);
    assert_eq!(at(0x60_0010), 0);
    assert_eq!(at(0x60_1FFF), 0);
    assert_eq!(translate_address(&mem.ram, loaded.pml4_phys, 0x60_2000), None);
    let code = leaf(&mem.ram, loaded.pml4_phys, 0x40_0000);
    assert_eq!(code & PTE_WRITABLE, 0);
    assert_eq!(code & PTE_NO_EXECUTE, 0);
    assert_ne!(code & PTE_USER, 0);
    let data = leaf(&mem.ram, loaded.pml4_phys, 0x60_1000);
    assert_ne!(data & PTE_WRITABLE, 0);
    assert_ne!(data & PTE_NO_EXECUTE, 0);
}

#[test]
fn program_is_loaded_into_a_given_address_space() {
    let mut mem = memory(32);
    let loaded = load(&mut mem, &program(), Some(RAM)).unwrap();
    assert_eq!(loaded.pml4_phys, RAM);
    assert_eq!(loaded.frame_count, 4);
    assert!(translate_address(&mem.ram, RAM, 0x40_0890).is_some());
}

#[test]
fn malformed_images_are_refused() {
    let good = program();
    let refused = |change: &dyn Fn(&mut Vec<u8>)| {
        let mut e = good.clone();
        change(&mut e);
        load(&mut memory(32), &e, None).is_none()
    };
    assert!(!refused(&|_| {}));
    assert!(refused(&|e| e.truncate(63)), "too small");
    assert!(refused(&|e| e[1] = b'X'), "magic");
    assert!(refused(&|e| e[4] = 1), "class");
    assert!(refused(&|e| e[5] = 2), "byte order");
    assert!(refused(&|e| e[18] = 3), "machine");
    assert!(refused(&|e| e[54] = 32), "header size");
    assert!(refused(&|e| e[56] = 0), "no headers");
    assert!(refused(&|e| e[57] = 1), "headers outside the image");
    assert!(refused(&|e| e[32..40].fill(0xFF)), "header offset");
    assert!(refused(&|e| e[64 + 32..64 + 40].fill(0xFF)), "contents outside the image");
    assert!(refused(&|e| e[64 + 40..64 + 48].fill(0xFF)), "size in memory");
}

#[test]
fn other_headers_load_nothing() {
    let mut e = program();
    e[64] = 4;
    let mut mem = memory(32);
    let loaded = load(&mut mem, &e, None).unwrap();
    assert_eq!(translate_address(&mem.ram, loaded.pml4_phys, 0x40_0890), None);
    assert!(translate_address(&mem.ram, loaded.pml4_phys, 0x60_0000).is_some());
}

#[test]
fn loading_without_memory_fails() {
    for frames in 0..5 {
        assert!(load(&mut memory(frames), &program(), None).is_none());
    }
}

#[test]
fn spawned_program_has_a_stack_and_the_kernel() {
    let mut k = kernel(96);
    // The kernel maps a page of its own above 2 MB.
    assert!(map_page_global(&mut k.mem, RAM, 0x20_0000, 0x20_0000, PTE_PRESENT | PTE_WRITABLE));
    let pid = spawn_elf(&mut k, &program(), 64, 0x7777).unwrap();
    assert_eq!(pid, ProcessId::new(1));
    let sched = k.global.scheduler.as_ref().unwrap();
    let pcb = sched.process_table.get_process_ref(pid).unwrap();
    assert_eq!(pcb.priority, 64);
    assert_eq!(pcb.context.r12, 0x40_0123);
    assert_eq!(pcb.context.r13, USER_STACK_TOP);
    let root = pcb.page_table_base;
    let ram = &k.mem.ram;
    for virt in [USER_STACK_BASE, USER_STACK_TOP - 8] {
        let e = leaf(ram, root, virt);
        assert_ne!(e & PTE_NO_EXECUTE, 0);
        assert_ne!(e & PTE_USER, 0);
    }
    assert_eq!(translate_address(ram, root, USER_STACK_TOP), None);
    assert_eq!(translate_address(ram, root, USER_STACK_BASE - 1), None);
    assert_eq!(translate_address(ram, root, 0x20_0123), Some(0x20_0123));
    assert_eq!(leaf(ram, root, 0x20_0000) & PTE_USER, 0);
    assert_eq!(translate_address(ram, root, 0x4000), Some(0x4000));
    assert_eq!(leaf(ram, root, 0x4000) & PTE_USER, 0);
}

#[test]
fn priority_zero_is_the_default() {
    let mut k = kernel(64);
    let pid = spawn_elf(&mut k, &program(), 0, 0).unwrap();
    let sched = k.global.scheduler.as_ref().unwrap();
    assert_eq!(sched.process_table.get_process_ref(pid).unwrap().priority, 128);
}

#[test]
fn failed_start_makes_no_process() {
    let mut k = kernel(20);
    assert_eq!(spawn_elf(&mut k, &program(), 64, 0), None);
    let sched = k.global.scheduler.as_ref().unwrap();
    assert_eq!(sched.process_table.list_all().len(), 0);
    assert_eq!(frame_stats(&k.mem.frames)[0], 0);
}

/// Starts the program as the current process; the frames it owns and how many
/// are free.
fn started(k: &mut Kernel) -> (Vec<u64>, usize) {
    let pid = spawn_elf(k, &program(), 64, 0).unwrap();
    k.global.current_pid = pid.as_u32();
    let sched = k.global.scheduler.as_ref().unwrap();
    let pcb = sched.process_table.get_process_ref(pid).unwrap();
    let frames = pcb.user_frames.clone();
    // The top-level table comes first, and the 32 pages of the stack last.
    assert_eq!(frames[0], pcb.page_table_base);
    let stack = translate_address(&k.mem.ram, pcb.page_table_base, USER_STACK_TOP - 4096);
    assert_eq!(frames.last().copied(), stack);
    assert!(frames.len() > 33);
    assert!(frames.iter().all(|&f| frame_kind(&k.mem.frames, f) != FrameKind::Free));
    (frames, frame_stats(&k.mem.frames)[0] as usize)
}

#[test]
fn exit_gives_the_frames_of_a_program_back() {
    let mut k = kernel(96);
    let (frames, free) = started(&mut k);
    assert_eq!(sys_exit(&mut k, 7), 7);
    assert_eq!(frame_stats(&k.mem.frames)[0] as usize, free + frames.len());
    assert!(frames.iter().all(|&f| frame_kind(&k.mem.frames, f) == FrameKind::Free));
    // Nothing is given back twice.
    sys_exit(&mut k, 0);
    assert_eq!(frame_stats(&k.mem.frames)[0] as usize, free + frames.len());
}

#[test]
fn fault_gives_the_frames_of_a_program_back() {
    let mut k = kernel(96);
    let (frames, free) = started(&mut k);
    assert!(terminate_faulting_process(&mut k, 14).is_none());
    assert_eq!(frame_stats(&k.mem.frames)[0] as usize, free + frames.len());
    // The program can be started again and again.
    for _ in 0..3 {
        started(&mut k);
        sys_exit(&mut k, 0);
    }
}

fn images() -> ServerImages {
    ServerImages { uart_drv: program(), vfs: vec![], shell: program(), net: program() }
}

#[test]
fn servers_are_known_by_name() {
    assert_eq!(server_named(b"uart-drv\0\0\0\0\0\0\0\0"), Some(Server::UartDrv));
    assert_eq!(server_named(b"uart-drv"), Some(Server::UartDrv));
    assert_eq!(server_named(b"rost-vfs"), Some(Server::Vfs));
    assert_eq!(server_named(b"rost-shell"), Some(Server::Shell));
    assert_eq!(server_named(b"rost-net\0junk"), Some(Server::Net));
    assert_eq!(server_named(b"rost"), None);
    assert_eq!(server_named(b""), None);
}

#[test]
fn services_are_off_until_they_are_set() {
    let mut hooks = SpawnHooks::new();
    let mut k = kernel(200);
    assert_eq!(call_elf_spawn(&hooks, &mut k, &program(), 10, 0), None);
    assert_eq!(call_restart_server(&hooks, &mut k, &images(), b"rost-net", 0), None);
    set_elf_spawn_fn(&mut hooks);
    set_restart_server_fn(&mut hooks);
    assert_eq!(call_elf_spawn(&hooks, &mut k, &program(), 10, 0), Some(1));
    assert_eq!(call_elf_spawn(&hooks, &mut k, b"junk", 10, 0), None);
    assert_eq!(call_restart_server(&hooks, &mut k, &images(), b"rost-net", 0), Some(2));
    assert_eq!(call_restart_server(&hooks, &mut k, &images(), b"rost-vfs", 0), None);
    assert_eq!(call_restart_server(&hooks, &mut k, &images(), b"nobody", 0), None);
    let sched = k.global.scheduler.as_ref().unwrap();
    assert_eq!(sched.process_table.get_process_ref(ProcessId::new(1)).unwrap().priority, 10);
    assert_eq!(sched.process_table.get_process_ref(ProcessId::new(2)).unwrap().priority, 48);
}

#[test]
fn later_segment_takes_over_a_page() {
    let mut mem = memory(32);
    let data = image(&[
        Segment { flags: 6, vaddr: 0x40_0000, contents: vec![1; 0x2000], memsz: 0x2000 },
        Segment { flags: 6, vaddr: 0x40_1800, contents: vec![2; 8], memsz: 8 },
    ]);
    let loaded = load(&mut mem, &data, None).unwrap();
    let at = |virt: u64| mem.ram.read_u8(translate_address(&mem.ram, loaded.pml4_phys, virt).unwrap());
    assert_eq!(at(0x40_0FFF), 1);
    assert_eq!(at(0x40_1000), 0);
    assert_eq!(at(0x40_1800), 2);
    assert_eq!(at(0x40_1808), 0);
}
