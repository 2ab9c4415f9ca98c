//! Messages and names in the memory of a user process.
//!
//! A message occupies nine words: the sender's PID and the eight words of its
//! payload.

use vstd::prelude::*;
use vstd::slice::slice_subrange;

use crate::ipc::message::DATA_FIELDS;
use crate::ipc::Message;
use crate::memory::PhysMemory;
use crate::process::ProcessId;

verus! {

/// Bytes of a message in user memory.
pub const MESSAGE_SIZE: u64 = 72;

/// Alignment of a message in user memory.
pub const MESSAGE_ALIGN: u64 = 8;

/// Bytes of a service name in user memory.
pub const NAME_BUFFER: usize = 16;

/// First address above user space.
pub const USER_VA_END: u64 = 0x0000_8000_0000_0000;

/// The `size` bytes at `ptr` lie in user space, and `ptr` is not null and is a
/// multiple of `align`.
pub open spec fn user_range(ptr: u64, size: u64, align: u64) -> bool {
    ptr != 0 && ptr % align == 0 && ptr + size <= USER_VA_END
}

/// `vaddr` is the address of a page in user space other than the first.
pub open spec fn user_page(vaddr: u64) -> bool {
    vaddr != 0 && vaddr % 4096 == 0 && vaddr < USER_VA_END
}

/// Whether the `size` bytes at `ptr` may be accessed for a user process: `ptr`
/// is not null, is a multiple of `align`, and the range ends inside user space.
pub fn validate_user_ptr(ptr: u64, size: u64, align: u64) -> (r: bool)
    requires
        align > 0,
    ensures
        r == user_range(ptr, size, align),
{
    if ptr == 0 {
        return false;
    }
    if ptr % align != 0 {
        return false;
    }
    match ptr.checked_add(size) {
        Some(end) => end <= USER_VA_END,
        None => false,
    }
}

/// Whether a user process may map a page at `vaddr`.
pub fn validate_user_vaddr(vaddr: u64) -> (r: bool)
    ensures
        r == user_page(vaddr),
{
    vaddr != 0 && vaddr % 4096 == 0 && vaddr < USER_VA_END
}

/// The words of a message.
pub open spec fn message_words(msg: Message) -> Seq<u64> {
    seq![msg.sender.0 as u64] + msg.data@
}

/// The message whose payload is stored at `addr`, sent by `sender`.
pub open spec fn is_message_at(
    m: crate::memory::ram::Ram,
    addr: int,
    sender: ProcessId,
    msg: Message,
) -> bool {
    &&& msg.sender == sender
    &&& forall|i: int| 0 <= i < DATA_FIELDS ==> #[trigger] msg.data@[i] == m.word(addr + 8 + 8 * i)
}

/// The sixteen bytes at `addr`.
pub open spec fn name_at(m: crate::memory::ram::Ram, addr: int) -> Seq<u8> {
    Seq::new(16, |i: int| m.byte(addr + i))
}

/// The `len` bytes at `ptr` lie in user space and are backed by memory.
pub open spec fn readable(m: crate::memory::ram::Ram, ptr: u64, len: u64) -> bool {
    user_range(ptr, len, 1) && m.covers(ptr as int, len as int)
}

/// The `len` bytes at `ptr`.
pub open spec fn bytes_at(m: crate::memory::ram::Ram, ptr: int, len: int) -> Seq<u8> {
    Seq::new(len as nat, |i: int| m.byte(ptr + i))
}

/// The `len` bytes at `ptr`; `None` if they are not all readable.
pub fn read_bytes(user: &PhysMemory, ptr: u64, len: u64) -> (r: Option<&[u8]>)
    requires
        user.wf(),
    ensures
        match r {
            Some(s) => readable(user@, ptr, len) && s@ == bytes_at(user@, ptr as int, len as int),
            None => !readable(user@, ptr, len),
        },
{
    if !validate_user_ptr(ptr, len, 1) || ptr < user.base {
        return None;
    }
    let start: u64 = ptr - user.base;
    let size: u64 = user.bytes.len() as u64;
    if start > size || len > size - start {
        return None;
    }
    let r = slice_subrange(user.bytes.as_slice(), start as usize, (start + len) as usize);
    assert(r@ =~= bytes_at(user@, ptr as int, len as int));
    Some(r)
}

/// The message at `addr`, with the true sender in place of the stored one.
pub fn read_message(user: &PhysMemory, addr: u64, sender: ProcessId) -> (r: Message)
    requires
        user.wf(),
        addr + MESSAGE_SIZE <= USER_VA_END,
    ensures
        is_message_at(user@, addr as int, sender, r),
{
    let mut msg = Message::new(sender);
    let mut i: usize = 0;
    while i < DATA_FIELDS
        invariant
            user.wf(),
            addr + MESSAGE_SIZE <= USER_VA_END,
            i <= DATA_FIELDS,
            msg.sender == sender,
            forall|k: int|
                0 <= k < i ==> #[trigger] msg.data@[k] == user@.word(addr + 8 + 8 * k),
        decreases DATA_FIELDS - i,
    {
        msg.set_data(i, user.read_u64(addr + 8 + 8 * i as u64));
        i = i + 1;
    }
    msg
}

/// Stores `msg` at `addr`.
pub fn write_message(user: &mut PhysMemory, addr: u64, msg: Message)
    requires
        old(user).wf(),
        addr + MESSAGE_SIZE <= USER_VA_END,
    ensures
        final(user).wf(),
        final(user)@ == crate::memory::ram::with_words(old(user)@, addr as int, message_words(msg)),
{
    let ghost ws = message_words(msg);
    user.write_u64(addr, msg.sender.as_u32() as u64);
    proof {
        assert(ws.take(1) =~= seq![msg.sender.0 as u64]);
        assert(ws.take(1).drop_last() =~= Seq::<u64>::empty());
        reveal_with_fuel(crate::memory::ram::with_words, 2);
        assert(user@ == crate::memory::ram::with_words(old(user)@, addr as int, ws.take(1)));
    }
    let mut i: usize = 0;
    while i < DATA_FIELDS
        invariant
            user.wf(),
            addr + MESSAGE_SIZE <= USER_VA_END,
            i <= DATA_FIELDS,
            ws == message_words(msg),
            user@ == crate::memory::ram::with_words(old(user)@, addr as int, ws.take(i + 1)),
        decreases DATA_FIELDS - i,
    {
        user.write_u64(addr + 8 + 8 * i as u64, msg.data[i]);
        proof {
            assert(ws.take(i + 2).drop_last() =~= ws.take(i + 1));
            assert(ws.take(i + 2).last() == msg.data@[i as int]);
        }
        i = i + 1;
    }
    assert(ws.take(9) =~= ws);
}

/// The name buffer at `addr`.
pub fn read_name(user: &PhysMemory, addr: u64) -> (r: [u8; NAME_BUFFER])
    requires
        user.wf(),
        addr + NAME_BUFFER <= USER_VA_END,
    ensures
        r@ == name_at(user@, addr as int),
{
    let mut name: [u8; NAME_BUFFER] = [0;NAME_BUFFER];
    let mut i: usize = 0;
    while i < NAME_BUFFER
        invariant
            user.wf(),
            addr + NAME_BUFFER <= USER_VA_END,
            i <= NAME_BUFFER,
            forall|k: int| 0 <= k < i ==> name@[k] == user@.byte(addr + k),
        decreases NAME_BUFFER - i,
    {
        name[i] = user.read_u8(addr + i as u64);
        i = i + 1;
    }
    assert(name@ =~= name_at(user@, addr as int));
    name
}

/// A message stored in a buffer reads back with the payload it had and the
/// sender that the kernel puts in.
pub proof fn law_written_message_is_read(
    m: crate::memory::ram::Ram,
    addr: int,
    msg: Message,
    sender: ProcessId,
    read: Message,
)
    requires
        m.covers(addr, MESSAGE_SIZE as int),
        is_message_at(crate::memory::ram::with_words(m, addr, message_words(msg)), addr, sender, read),
    ensures
        read.data@ == msg.data@,
        read.sender == sender,
{
    let ws = message_words(msg);
    assert forall|i: int| 0 <= i < DATA_FIELDS implies read.data@[i] == msg.data@[i] by {
        crate::memory::ram::lemma_with_words(m, addr, ws, i + 1);
        assert(ws[i + 1] == msg.data@[i]);
        assert(addr + 8 * (i + 1) == addr + 8 + 8 * i);
    }
    assert(read.data@ =~= msg.data@);
}

/// Every byte of a range that a user process may access lies above address 0 and
/// in the lower half of the address space, where the kernel never is. Such
/// ranges are accepted if they are aligned.
pub proof fn law_user_ranges_stay_in_user_space(ptr: u64, size: u64, align: u64, k: int)
    requires
        align > 0,
        0 <= k < size,
    ensures
        user_range(ptr, size, align) ==> 0 < ptr + k < 0x8000_0000_0000 && ptr % align == 0,
        ptr > 0 && ptr % align == 0 && ptr + size <= 0x8000_0000_0000 ==> user_range(
            ptr,
            size,
            align,
        ),
{
}

/// The pages that a user process may map are the aligned ones above page 0 that
/// lie whole in the lower half of the address space.
pub proof fn law_user_pages_stay_in_user_space(vaddr: u64)
    ensures
        user_page(vaddr) <==> vaddr >= 4096 && vaddr % 4096 == 0 && vaddr + 4096
            <= 0x8000_0000_0000,
{
}

/// What is read from user memory is what lies there, byte by byte: sixteen bytes
/// for a name, and as many as asked for otherwise. Memory is read only if all of it
/// is there and lies in user space.
pub proof fn law_user_bytes_are_read_in_order(
    m: crate::memory::ram::Ram,
    ptr: u64,
    len: u64,
    i: int,
)
    ensures
        name_at(m, ptr as int).len() == 16,
        0 <= i < 16 ==> name_at(m, ptr as int)[i] == m.byte(ptr + i),
        bytes_at(m, ptr as int, len as int).len() == len,
        0 <= i < len ==> bytes_at(m, ptr as int, len as int)[i] == m.byte(ptr + i),
        readable(m, ptr, len) && 0 <= i < len ==> m.covers(ptr + i, 1) && 0 < ptr + i
            < 0x8000_0000_0000,
{
}

/// A message in memory is the PID of its sender and then its eight words.
pub proof fn law_message_is_nine_words(msg: Message, i: int)
    ensures
        message_words(msg).len() == 9,
        message_words(msg)[0] == msg.sender.0,
        0 <= i < 8 ==> message_words(msg)[i + 1] == msg.data@[i],
{
}

/// User memory can be read wherever it lies in user space and is there, whatever its
/// alignment.
pub proof fn law_user_memory_is_readable(m: crate::memory::ram::Ram, ptr: u64, len: u64)
    ensures
        readable(m, ptr, len) <==> 0 < ptr && ptr + len <= 0x8000_0000_0000 && m.covers(
            ptr as int,
            len as int,
        ),
{
}

} // verus!
