//! Programs started and restarted on request of user processes.
//!
//! Both services are refused until the kernel has switched them on.

use vstd::prelude::*;

use crate::elf::spawn_elf;
use crate::kernel::Kernel;
use crate::service_registry::{same_bytes, trim_name};

verus! {

/// Which services are switched on.
#[derive(Copy, Clone, Debug, PartialEq, Eq, Structural)]
pub struct SpawnHooks {
    pub elf_spawn: bool,
    pub restart_server: bool,
}

/// The servers the kernel can restart.
#[derive(Copy, Clone, Debug, PartialEq, Eq, Structural)]
pub enum Server {
    UartDrv,
    Vfs,
    Shell,
    Net,
}

/// Images of the servers the kernel can restart.
#[derive(Debug)]
pub struct ServerImages {
    pub uart_drv: Vec<u8>,
    pub vfs: Vec<u8>,
    pub shell: Vec<u8>,
    pub net: Vec<u8>,
}

/// What the system calls that start programs need: which of them are switched
/// on, the images of the servers, and the address of the ring-3 trampoline.
#[derive(Debug)]
pub struct Programs {
    pub hooks: SpawnHooks,
    pub images: ServerImages,
    pub trampoline: u64,
}

/// `uart-drv`
pub const NAME_UART_DRV: [u8; 8] = [117, 97, 114, 116, 45, 100, 114, 118];

/// `rost-vfs`
pub const NAME_VFS: [u8; 8] = [114, 111, 115, 116, 45, 118, 102, 115];

/// `rost-shell`
pub const NAME_SHELL: [u8; 10] = [114, 111, 115, 116, 45, 115, 104, 101, 108, 108];

/// `rost-net`
pub const NAME_NET: [u8; 8] = [114, 111, 115, 116, 45, 110, 101, 116];

impl SpawnHooks {
    pub fn new() -> (r: Self)
        ensures
            !r.elf_spawn,
            !r.restart_server,
    {
        SpawnHooks { elf_spawn: false, restart_server: false }
    }
}

/// Switches the spawn service on.
pub fn set_elf_spawn_fn(h: &mut SpawnHooks)
    ensures
        *final(h) == (SpawnHooks { elf_spawn: true, ..*old(h) }),
{
    h.elf_spawn = true;
}

/// Switches the restart service on.
pub fn set_restart_server_fn(h: &mut SpawnHooks)
    ensures
        *final(h) == (SpawnHooks { restart_server: true, ..*old(h) }),
{
    h.restart_server = true;
}

/// The server with the given name; the name ends at its first NUL.
pub open spec fn server_of(name: Seq<u8>) -> Option<Server> {
    let key = crate::service_registry::trimmed(name);
    if key == NAME_UART_DRV@ {
        Some(Server::UartDrv)
    } else if key == NAME_VFS@ {
        Some(Server::Vfs)
    } else if key == NAME_SHELL@ {
        Some(Server::Shell)
    } else if key == NAME_NET@ {
        Some(Server::Net)
    } else {
        None
    }
}

/// The server with the given name.
pub fn server_named(name: &[u8]) -> (r: Option<Server>)
    ensures
        r == server_of(name@),
{
    let key = trim_name(name);
    if same_bytes(key, &NAME_UART_DRV) {
        Some(Server::UartDrv)
    } else if same_bytes(key, &NAME_VFS) {
        Some(Server::Vfs)
    } else if same_bytes(key, &NAME_SHELL) {
        Some(Server::Shell)
    } else if same_bytes(key, &NAME_NET) {
        Some(Server::Net)
    } else {
        None
    }
}

/// The priority a server is started with.
pub open spec fn server_priority(server: Server) -> u8 {
    if server is Net {
        48
    } else {
        64
    }
}

/// The image of a server.
pub open spec fn server_image(images: ServerImages, server: Server) -> Seq<u8> {
    match server {
        Server::UartDrv => images.uart_drv@,
        Server::Vfs => images.vfs@,
        Server::Shell => images.shell@,
        Server::Net => images.net@,
    }
}

/// Outcome of starting the program in `data`.
pub open spec fn program_started(
    before: Kernel,
    after: Kernel,
    data: Seq<u8>,
    priority: u8,
    trampoline: u64,
    r: Option<u32>,
) -> bool {
    exists|made: Option<crate::process::ProcessId>|
        #[trigger] crate::elf::elf_spawned(before, after, data, priority, trampoline, made)
            && r == match made {
            Some(pid) => Some(pid.0),
            None => None,
        }
}

/// Outcome `r` of a request to start the program in `data`.
pub open spec fn spawn_served(
    h: SpawnHooks,
    before: Kernel,
    after: Kernel,
    data: Seq<u8>,
    priority: u8,
    trampoline: u64,
    r: Option<u32>,
) -> bool {
    if h.elf_spawn {
        program_started(before, after, data, priority, trampoline, r)
    } else {
        r is None && after == before
    }
}

/// Outcome `r` of a request to start the server with the given name anew.
pub open spec fn restart_served(
    h: SpawnHooks,
    before: Kernel,
    after: Kernel,
    images: ServerImages,
    name: Seq<u8>,
    trampoline: u64,
    r: Option<u32>,
) -> bool {
    if h.restart_server && server_of(name) is Some {
        let server = server_of(name)->0;
        program_started(
            before,
            after,
            server_image(images, server),
            server_priority(server),
            trampoline,
            r,
        )
    } else {
        r is None && after == before
    }
}

/// Starts the program in `data`; `None` if the service is off or the start fails.
pub fn call_elf_spawn(
    h: &SpawnHooks,
    k: &mut Kernel,
    data: &[u8],
    priority: u8,
    trampoline: u64,
) -> (r: Option<u32>)
    requires
        old(k).wf(),
        crate::memory::paging::table_addr(old(k).global.kernel_pml4),
        old(k).scheduling() ==> old(k).sched().process_table.next_pid < u32::MAX,
    ensures
        final(k).wf(),
        spawn_served(*h, *old(k), *final(k), data@, priority, trampoline, r),
{
    if !h.elf_spawn {
        return None;
    }
    let made = spawn_elf(k, data, priority, trampoline);
    assert(crate::elf::elf_spawned(*old(k), *k, data@, priority, trampoline, made));
    match made {
        Some(pid) => Some(pid.as_u32()),
        None => None,
    }
}

/// Starts the server with the given name anew; `None` if the service is off,
/// the name is unknown or the start fails.
pub fn call_restart_server(
    h: &SpawnHooks,
    k: &mut Kernel,
    images: &ServerImages,
    name: &[u8],
    trampoline: u64,
) -> (r: Option<u32>)
    requires
        old(k).wf(),
        crate::memory::paging::table_addr(old(k).global.kernel_pml4),
        old(k).scheduling() ==> old(k).sched().process_table.next_pid < u32::MAX,
    ensures
        final(k).wf(),
        restart_served(*h, *old(k), *final(k), *images, name@, trampoline, r),
{
    if !h.restart_server {
        return None;
    }
    let made = match server_named(name) {
        Some(Server::UartDrv) => spawn_elf(k, images.uart_drv.as_slice(), 64, trampoline),
        Some(Server::Vfs) => spawn_elf(k, images.vfs.as_slice(), 64, trampoline),
        Some(Server::Shell) => spawn_elf(k, images.shell.as_slice(), 64, trampoline),
        Some(Server::Net) => spawn_elf(k, images.net.as_slice(), 48, trampoline),
        None => return None,
    };
    proof {
        let server = server_of(name@)->0;
        assert(crate::elf::elf_spawned(
            *old(k),
            *k,
            server_image(*images, server),
            server_priority(server),
            trampoline,
            made,
        ));
    }
    match made {
        Some(pid) => Some(pid.as_u32()),
        None => None,
    }
}

/// A server is known by its name, `uart-drv`, `rost-vfs`, `rost-shell` or
/// `rost-net`, whatever follows the name's first NUL, and nothing else is one.
/// Each has its own image; the network server is more urgent than the others, and
/// all of them are more urgent than an ordinary process.
pub proof fn law_servers_are_known_by_name(name: Seq<u8>, images: ServerImages)
    ensures
        ({
            let key = crate::service_registry::trimmed(name);
            &&& server_of(name) == Some(Server::UartDrv) <==> key == seq![
                117u8, 97u8, 114u8, 116u8, 45u8, 100u8, 114u8, 118u8,
            ]
            &&& server_of(name) == Some(Server::Vfs) <==> key == seq![
                114u8, 111u8, 115u8, 116u8, 45u8, 118u8, 102u8, 115u8,
            ]
            &&& server_of(name) == Some(Server::Shell) <==> key == seq![
                114u8, 111u8, 115u8, 116u8, 45u8, 115u8, 104u8, 101u8, 108u8, 108u8,
            ]
            &&& server_of(name) == Some(Server::Net) <==> key == seq![
                114u8, 111u8, 115u8, 116u8, 45u8, 110u8, 101u8, 116u8,
            ]
        }),
        server_of(name) matches Some(server) ==> {
            &&& server_priority(server) < 128
            &&& server is Net ==> server_priority(server) < server_priority(Server::Vfs)
            &&& server !is Net ==> server_priority(server) == server_priority(Server::Vfs)
            &&& server is UartDrv ==> server_image(images, server) == images.uart_drv@
            &&& server is Vfs ==> server_image(images, server) == images.vfs@
            &&& server is Shell ==> server_image(images, server) == images.shell@
            &&& server is Net ==> server_image(images, server) == images.net@
        },
{
    let uart = seq![117u8, 97u8, 114u8, 116u8, 45u8, 100u8, 114u8, 118u8];
    let vfs = seq![114u8, 111u8, 115u8, 116u8, 45u8, 118u8, 102u8, 115u8];
    let shell = seq![114u8, 111u8, 115u8, 116u8, 45u8, 115u8, 104u8, 101u8, 108u8, 108u8];
    let net = seq![114u8, 111u8, 115u8, 116u8, 45u8, 110u8, 101u8, 116u8];
    assert(NAME_UART_DRV@ =~= uart);
    assert(NAME_VFS@ =~= vfs);
    assert(NAME_SHELL@ =~= shell);
    assert(NAME_NET@ =~= net);
    assert(uart[0] != vfs[0] && uart[0] != net[0] && uart[0] != shell[0]);
    assert(vfs[5] != net[5] && vfs[5] != shell[5] && net[5] != shell[5]);
}

} // verus!
