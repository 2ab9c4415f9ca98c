//! A window of physical memory.
//!
//! Addresses inside the window are backed by bytes. Reading outside the window
//! gives zero, and writing there has no effect.

use vstd::prelude::*;

use crate::bytes::{get_u16, get_u32, get_u64, put_u64};

verus! {

/// The physical addresses `base .. base + bytes.len()` and their contents.
#[derive(Debug)]
pub struct PhysMemory {
    pub base: u64,
    pub bytes: Vec<u8>,
}

/// Contents of a memory window.
#[verifier::ext_equal]
pub struct Ram {
    pub base: int,
    pub bytes: Seq<u8>,
}

impl Ram {
    /// The `n` bytes at `addr` lie in the window.
    pub open spec fn covers(self, addr: int, n: int) -> bool {
        self.base <= addr && addr + n <= self.base + self.bytes.len()
    }

    pub open spec fn byte(self, addr: int) -> u8 {
        if self.covers(addr, 1) {
            self.bytes[addr - self.base]
        } else {
            0
        }
    }

    pub open spec fn word16(self, addr: int) -> u16 {
        if self.covers(addr, 2) {
            crate::bytes::le16(self.bytes, addr - self.base)
        } else {
            0
        }
    }

    pub open spec fn word32(self, addr: int) -> u32 {
        if self.covers(addr, 4) {
            crate::bytes::le32(self.bytes, addr - self.base)
        } else {
            0
        }
    }

    pub open spec fn word(self, addr: int) -> u64 {
        if self.covers(addr, 8) {
            crate::bytes::le64(self.bytes, addr - self.base)
        } else {
            0
        }
    }

    pub open spec fn with_word(self, addr: int, v: u64) -> Ram {
        if self.covers(addr, 8) {
            Ram { bytes: crate::bytes::with_le64(self.bytes, addr - self.base, v), ..self }
        } else {
            self
        }
    }

    /// The window with the bytes of `addr .. addr + n` set to zero.
    pub open spec fn zeroed(self, addr: int, n: int) -> Ram {
        Ram {
            bytes: Seq::new(
                self.bytes.len(),
                |k: int|
                    if addr <= self.base + k < addr + n {
                        0u8
                    } else {
                        self.bytes[k]
                    },
            ),
            ..self
        }
    }

    /// The window with `data` stored at `addr`.
    pub open spec fn with_data(self, addr: int, data: Seq<u8>) -> Ram {
        Ram {
            bytes: Seq::new(
                self.bytes.len(),
                |k: int|
                    if addr <= self.base + k < addr + data.len() {
                        data[self.base + k - addr]
                    } else {
                        self.bytes[k]
                    },
            ),
            ..self
        }
    }
}

/// A word reads back as it was written.
pub proof fn lemma_word_same(m: Ram, addr: int, v: u64)
    requires
        m.covers(addr, 8),
    ensures
        m.with_word(addr, v).word(addr) == v,
{
    crate::bytes::lemma_le64_roundtrip(m.bytes, addr - m.base, v);
}

/// Writing a word does not affect words that do not overlap it.
pub proof fn lemma_word_other(m: Ram, addr: int, v: u64, other: int)
    requires
        other + 8 <= addr || addr + 8 <= other,
    ensures
        m.with_word(addr, v).word(other) == m.word(other),
{
    if m.covers(addr, 8) && m.covers(other, 8) {
        crate::bytes::lemma_le64_frame(m.bytes, addr - m.base, v, other - m.base);
    }
}

/// A word inside a zeroed range is zero; one outside it is unaffected.
pub proof fn lemma_word_zeroed(m: Ram, addr: int, n: int, other: int)
    ensures
        addr <= other && other + 8 <= addr + n ==> m.zeroed(addr, n).word(other) == 0,
        other + 8 <= addr || addr + n <= other ==> m.zeroed(addr, n).word(other) == m.word(other),
{
    reveal(crate::bytes::le64);
}

/// The memory after the words `ws` are stored one after the other at `addr`.
pub open spec fn with_words(m: Ram, addr: int, ws: Seq<u64>) -> Ram
    decreases ws.len(),
{
    if ws.len() == 0 {
        m
    } else {
        with_words(m, addr, ws.drop_last()).with_word(addr + 8 * (ws.len() - 1), ws.last())
    }
}

proof fn lemma_with_words_keeps_shape(m: Ram, addr: int, ws: Seq<u64>)
    ensures
        with_words(m, addr, ws).base == m.base,
        with_words(m, addr, ws).bytes.len() == m.bytes.len(),
    decreases ws.len(),
{
    if ws.len() > 0 {
        lemma_with_words_keeps_shape(m, addr, ws.drop_last());
    }
}

/// Each of the stored words reads back.
pub proof fn lemma_with_words(m: Ram, addr: int, ws: Seq<u64>, i: int)
    requires
        m.covers(addr, 8 * ws.len() as int),
        0 <= i < ws.len(),
    ensures
        with_words(m, addr, ws).word(addr + 8 * i) == ws[i],
    decreases ws.len(),
{
    let init = ws.drop_last();
    let before = with_words(m, addr, init);
    lemma_with_words_keeps_shape(m, addr, init);
    if i == ws.len() - 1 {
        lemma_word_same(before, addr + 8 * i, ws.last());
    } else {
        lemma_with_words(m, addr, init, i);
        lemma_word_other(
            before,
            addr + 8 * (ws.len() - 1),
            ws.last(),
            addr + 8 * i,
        );
    }
}

impl View for PhysMemory {
    type V = Ram;

    open spec fn view(&self) -> Ram {
        Ram { base: self.base as int, bytes: self.bytes@ }
    }
}

impl PhysMemory {
    /// The window does not reach past the end of the address space.
    pub open spec fn wf(&self) -> bool {
        self.base + self.bytes@.len() <= u64::MAX
    }

    /// A zeroed window of `size` bytes at `base`.
    pub fn new(base: u64, size: usize) -> (r: Self)
        requires
            base + size <= u64::MAX,
        ensures
            r.wf(),
            r.base == base,
            r.bytes@.len() == size,
            forall|k: int| 0 <= k < size ==> r.bytes@[k] == 0,
    {
        PhysMemory { base, bytes: vec![0u8; size] }
    }

    /// A window at `base` with the given contents.
    pub fn from_bytes(base: u64, bytes: Vec<u8>) -> (r: Self)
        requires
            base + bytes@.len() <= u64::MAX,
        ensures
            r.wf(),
            r.base == base,
            r.bytes@ == bytes@,
    {
        PhysMemory { base, bytes }
    }

    /// Offset of `addr` in the window if the `n` bytes there lie in it.
    fn offset(&self, addr: u64, n: usize) -> (r: Option<usize>)
        requires
            self.wf(),
        ensures
            r == (if self@.covers(addr as int, n as int) {
                Some((addr - self.base) as usize)
            } else {
                None
            }),
            r matches Some(off) ==> off == addr - self.base,
    {
        if addr < self.base {
            return None;
        }
        let off: u64 = addr - self.base;
        let len: usize = self.bytes.len();
        if off > len as u64 {
            return None;
        }
        let off: usize = off as usize;
        if n > len - off {
            return None;
        }
        Some(off)
    }

    pub fn read_u8(&self, addr: u64) -> (r: u8)
        requires
            self.wf(),
        ensures
            r == self@.byte(addr as int),
    {
        match self.offset(addr, 1) {
            Some(off) => self.bytes[off],
            None => 0,
        }
    }

    pub fn read_u16(&self, addr: u64) -> (r: u16)
        requires
            self.wf(),
        ensures
            r == self@.word16(addr as int),
    {
        match self.offset(addr, 2) {
            Some(off) => get_u16(self.bytes.as_slice(), off),
            None => 0,
        }
    }

    pub fn read_u32(&self, addr: u64) -> (r: u32)
        requires
            self.wf(),
        ensures
            r == self@.word32(addr as int),
    {
        match self.offset(addr, 4) {
            Some(off) => get_u32(self.bytes.as_slice(), off),
            None => 0,
        }
    }

    pub fn read_u64(&self, addr: u64) -> (r: u64)
        requires
            self.wf(),
        ensures
            r == self@.word(addr as int),
    {
        match self.offset(addr, 8) {
            Some(off) => get_u64(self.bytes.as_slice(), off),
            None => 0,
        }
    }

    pub fn write_u64(&mut self, addr: u64, v: u64)
        requires
            old(self).wf(),
        ensures
            final(self).wf(),
            final(self)@ == old(self)@.with_word(addr as int, v),
    {
        if let Some(off) = self.offset(addr, 8) {
            put_u64(&mut self.bytes, off, v);
        }
    }

    /// Stores `data[from .. from + n]` at `addr`.
    pub fn copy_in(&mut self, addr: u64, data: &[u8], from: usize, n: usize)
        requires
            old(self).wf(),
            from + n <= data@.len(),
        ensures
            final(self).wf(),
            final(self)@ == old(self)@.with_data(
                addr as int,
                data@.subrange(from as int, from + n),
            ),
    {
        let ghost part = data@.subrange(from as int, from + n);
        let mut i: usize = 0;
        while i < n
            invariant
                old(self).wf(),
                self.wf(),
                i <= n,
                from + n <= data@.len(),
                part == data@.subrange(from as int, from + n),
                self@ =~= old(self)@.with_data(addr as int, part.take(i as int)),
            decreases n - i,
        {
            assert(data.len() == data@.len());
            let delta: u64 = i as u64;
            if delta <= u64::MAX - addr {
                if let Some(off) = self.offset(addr + delta, 1) {
                    self.bytes[off] = data[from + i];
                }
            }
            i = i + 1;
        }
        assert(part.take(n as int) =~= part);
    }

    /// Sets the bytes of `addr .. addr + n` to zero.
    pub fn zero(&mut self, addr: u64, n: usize)
        requires
            old(self).wf(),
        ensures
            final(self).wf(),
            final(self)@ == old(self)@.zeroed(addr as int, n as int),
    {
        let mut i: usize = 0;
        while i < n
            invariant
                old(self).wf(),
                self.wf(),
                i <= n,
                self@ =~= old(self)@.zeroed(addr as int, i as int),
            decreases n - i,
        {
            let delta: u64 = i as u64;
            if delta <= u64::MAX - addr {
                if let Some(off) = self.offset(addr + delta, 1) {
                    self.bytes[off] = 0;
                }
            }
            i = i + 1;
        }
    }
}

/// Words lie in memory with their lowest byte first: a word is made up of the bytes
/// and of the shorter words at its addresses, and the lowest byte of a word that was
/// written is at its own address.
pub proof fn law_words_start_with_their_lowest_byte(m: Ram, addr: int, v: u64)
    requires
        m.covers(addr, 8),
    ensures
        m.word16(addr) == m.byte(addr) + 0x100 * m.byte(addr + 1),
        m.word32(addr) == m.word16(addr) + 0x1_0000 * m.word16(addr + 2),
        m.word(addr) == m.word32(addr) + 0x1_0000_0000 * m.word32(addr + 4),
        m.with_word(addr, v).byte(addr) == v % 0x100,
        m.with_word(addr, v).byte(addr + 7) == v / 0x100_0000_0000_0000,
{
    reveal(crate::bytes::le64);
}

/// Data that is stored is found at its place, and no other byte changes. A cleared
/// range is zero, and no other byte changes.
pub proof fn law_stored_bytes_are_read(m: Ram, addr: int, data: Seq<u8>, n: int, k: int)
    requires
        m.covers(k, 1),
    ensures
        addr <= k < addr + data.len() ==> m.with_data(addr, data).byte(k) == data[k - addr],
        !(addr <= k < addr + data.len()) ==> m.with_data(addr, data).byte(k) == m.byte(k),
        addr <= k < addr + n ==> m.zeroed(addr, n).byte(k) == 0,
        !(addr <= k < addr + n) ==> m.zeroed(addr, n).byte(k) == m.byte(k),
{
}

} // verus!
