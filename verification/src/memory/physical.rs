//! Physical frame allocation.

use vstd::prelude::*;

verus! {

/// Bytes of a frame.
pub const FRAME_SIZE: u64 = 4096;

/// Frames the allocator tracks.
pub const MAX_TRACKED_FRAMES: usize = 65536;

/// Words of the bitmap of free frames.
pub const BITMAP_WORDS: usize = 1024;

/// One past the largest physical address.
pub const PHYS_ADDR_END: u64 = 0x0010_0000_0000_0000;

/// What a frame is used for.
#[derive(Copy, Clone, Debug, PartialEq, Eq, Structural)]
pub enum FrameKind {
    /// Not allocated.
    Free,
    /// Page tables, stacks and other kernel data.
    KernelData,
    /// Owned by a user process.
    UserOwned,
    /// Deliberately unmapped.
    Guard,
    /// Device registers or reserved memory.
    Mmio,
}

/// Allocator of single frames, lowest address first, and record of what each
/// frame is used for.
#[derive(Debug)]
pub struct FrameAllocator {
    /// Address of frame 0.
    pub base: u64,
    /// One past the last address that may be handed out.
    pub end: u64,
    /// One bit per frame, set if it is free, 64 frames to a word.
    pub bitmap: Vec<u64>,
    /// What each frame is used for.
    pub tags: Vec<FrameKind>,
}

/// `a` is the address of a frame.
pub open spec fn is_frame(a: u64) -> bool {
    a % 4096 == 0 && a < PHYS_ADDR_END
}

/// Lowest free frame at or after `from`; the number of frames if there is none.
pub open spec fn lowest_free(free: Seq<bool>, from: int) -> int
    decreases free.len() - from,
{
    if from >= free.len() || free[from] {
        from
    } else {
        lowest_free(free, from + 1)
    }
}

pub proof fn lemma_lowest_free(free: Seq<bool>, from: int)
    requires
        0 <= from <= free.len(),
    ensures
        from <= lowest_free(free, from) <= free.len(),
        lowest_free(free, from) < free.len() ==> free[lowest_free(free, from)],
        forall|k: int| from <= k < lowest_free(free, from) ==> !free[k],
    decreases free.len() - from,
{
    if from < free.len() && !free[from] {
        lemma_lowest_free(free, from + 1);
    }
}

/// Bit `b` of `w` is set.
pub open spec fn bit_at(w: u64, b: int) -> bool {
    (w >> (b as u64)) & 1 == 1
}

/// The bits of a bitmap, lowest first.
pub open spec fn bits(words: Seq<u64>) -> Seq<bool> {
    Seq::new(words.len() * 64, |i: int| bit_at(words[i / 64], i % 64))
}

/// State of a frame allocator.
#[verifier::ext_equal]
pub struct Frames {
    pub base: u64,
    pub end: u64,
    pub free: Seq<bool>,
    pub tags: Seq<FrameKind>,
}

/// The frames of `base .. base + size`, all free.
pub open spec fn fresh_frames(base: u64, size: u64) -> Frames {
    Frames {
        base,
        end: (base + size) as u64,
        free: Seq::new(MAX_TRACKED_FRAMES as nat, |i: int| i < size / 4096),
        tags: Seq::new(MAX_TRACKED_FRAMES as nat, |i: int| FrameKind::Free),
    }
}

impl Frames {
    /// Every tracked frame has a bit and a tag, and every free one an address.
    pub open spec fn wf(self) -> bool {
        &&& self.free.len() == MAX_TRACKED_FRAMES
        &&& self.tags.len() == MAX_TRACKED_FRAMES
        &&& forall|i: int|
            0 <= i < MAX_TRACKED_FRAMES && #[trigger] self.free[i] ==> self.addr(i) <= u64::MAX
    }

    /// Index of the frame that contains `phys`.
    pub open spec fn index(self, phys: u64) -> Option<int> {
        if phys >= self.base && (phys - self.base) / 4096 < MAX_TRACKED_FRAMES {
            Some((phys - self.base) / 4096)
        } else {
            None
        }
    }

    /// Address of frame `i`.
    pub open spec fn addr(self, i: int) -> int {
        self.base + i * 4096
    }

    /// The frame that is handed out next, and the state afterwards.
    pub open spec fn take(self) -> Option<(u64, Frames)> {
        let i = lowest_free(self.free, 0);
        if i < self.free.len() && self.addr(i) < self.end {
            Some(
                (
                    self.addr(i) as u64,
                    Frames {
                        free: self.free.update(i, false),
                        tags: self.tags.update(i, FrameKind::KernelData),
                        ..self
                    },
                ),
            )
        } else {
            None
        }
    }

    /// The state after the frame of `phys` is tagged.
    pub open spec fn tagged(self, phys: u64, kind: FrameKind) -> Frames {
        match self.index(phys) {
            Some(i) => Frames { tags: self.tags.update(i, kind), ..self },
            None => self,
        }
    }

    /// The state after the frame of `phys` is given back.
    pub open spec fn returned(self, phys: u64) -> Frames {
        match self.index(phys) {
            Some(i) => Frames {
                free: self.free.update(i, true),
                tags: self.tags.update(i, FrameKind::Free),
                ..self
            },
            None => self,
        }
    }

    /// One of `addrs` lies in frame `i`.
    pub open spec fn in_frame(self, addrs: Seq<u64>, i: int) -> bool {
        exists|k: int| 0 <= k < addrs.len() && self.index(#[trigger] addrs[k]) == Some(i)
    }

    /// The state after the frames of all of `addrs` are given back.
    pub open spec fn all_returned(self, addrs: Seq<u64>) -> Frames
        decreases addrs.len(),
    {
        if addrs.len() == 0 {
            self
        } else {
            self.all_returned(addrs.drop_last()).returned(addrs.last())
        }
    }

    /// Frames that the statistics count.
    pub open spec fn managed(self) -> int {
        if self.end <= self.base {
            0
        } else if (self.end - self.base) / 4096 < MAX_TRACKED_FRAMES {
            (self.end - self.base) / 4096
        } else {
            MAX_TRACKED_FRAMES as int
        }
    }
}

/// Frames among the first `n` whose tag is `kind`.
pub open spec fn count_tag(tags: Seq<FrameKind>, n: int, kind: FrameKind) -> nat
    decreases n,
{
    if n <= 0 {
        0
    } else {
        count_tag(tags, n - 1, kind) + if tags[n - 1] == kind {
            1nat
        } else {
            0nat
        }
    }
}

proof fn lemma_count_tag_bound(tags: Seq<FrameKind>, n: int, kind: FrameKind)
    requires
        0 <= n,
    ensures
        count_tag(tags, n, kind) <= n,
    decreases n,
{
    if n > 0 {
        lemma_count_tag_bound(tags, n - 1, kind);
    }
}

impl View for FrameAllocator {
    type V = Frames;

    open spec fn view(&self) -> Frames {
        Frames { base: self.base, end: self.end, free: bits(self.bitmap@), tags: self.tags@ }
    }
}

impl FrameAllocator {
    pub open spec fn wf(&self) -> bool {
        &&& self.bitmap@.len() == BITMAP_WORDS
        &&& self@.wf()
    }

    /// Every frame of the range is a frame of physical memory.
    pub open spec fn paged(&self) -> bool {
        self.base % 4096 == 0 && self.end <= PHYS_ADDR_END
    }

    /// An allocator without frames.
    pub fn empty() -> (r: Self)
        ensures
            r.wf(),
            r.paged(),
            r@ == fresh_frames(0, 0),
    {
        let mut bitmap: Vec<u64> = Vec::new();
        while bitmap.len() < BITMAP_WORDS
            invariant
                bitmap@.len() <= BITMAP_WORDS,
                forall|k: int| 0 <= k < bitmap@.len() ==> bitmap@[k] == 0,
            decreases BITMAP_WORDS - bitmap@.len(),
        {
            bitmap.push(0);
        }
        let mut tags: Vec<FrameKind> = Vec::new();
        while tags.len() < MAX_TRACKED_FRAMES
            invariant
                tags@.len() <= MAX_TRACKED_FRAMES,
                forall|k: int| 0 <= k < tags@.len() ==> tags@[k] is Free,
            decreases MAX_TRACKED_FRAMES - tags@.len(),
        {
            tags.push(FrameKind::Free);
        }
        let r = FrameAllocator { base: 0, end: 0, bitmap, tags };
        proof {
            lemma_no_bits();
            assert(r@ =~= fresh_frames(0, 0));
        }
        r
    }
}

// ── Bitmap ───────────────────────────────────────────────────────────────────
/// The word 0 has no bits.
proof fn lemma_no_bits()
    ensures
        forall|b: int| 0 <= b < 64 ==> !#[trigger] bit_at(0, b),
{
    assert forall|b: int| 0 <= b < 64 implies !#[trigger] bit_at(0, b) by {
        let c = b as u64;
        assert((0u64 >> c) & 1 != 1) by (bit_vector);
    }
}

/// Setting a bit sets that bit, and clearing it clears that bit; the others stay.
proof fn lemma_bit_changed(w: u64, b: u64, c: u64)
    requires
        b < 64,
        c < 64,
    ensures
        bit_at(w | (1u64 << b), c as int) == (b == c || bit_at(w, c as int)),
        bit_at(w & !(1u64 << b), c as int) == (b != c && bit_at(w, c as int)),
{
    assert((((w | (1u64 << b)) >> c) & 1 == 1) == (b == c || (w >> c) & 1 == 1) && (((w & !(1u64
        << b)) >> c) & 1 == 1) == (b != c && (w >> c) & 1 == 1)) by (bit_vector)
        requires
            b < 64,
            c < 64,
    ;
}

/// Marks frame `idx` as free.
fn bitmap_set(bitmap: &mut Vec<u64>, idx: usize)
    requires
        idx < old(bitmap)@.len() * 64,
    ensures
        final(bitmap)@.len() == old(bitmap)@.len(),
        bits(final(bitmap)@) == bits(old(bitmap)@).update(idx as int, true),
{
    let b: u64 = (idx % 64) as u64;
    bitmap[idx / 64] = bitmap[idx / 64] | (1u64 << b);
    assert forall|k: int| 0 <= k < bitmap@.len() * 64 implies #[trigger] bits(bitmap@)[k] == bits(
        old(bitmap)@,
    ).update(idx as int, true)[k] by {
        if k / 64 == idx / 64 {
            lemma_bit_changed(old(bitmap)@[k / 64], b, (k % 64) as u64);
        }
    }
    assert(bits(bitmap@) =~= bits(old(bitmap)@).update(idx as int, true));
}

/// Marks frame `idx` as taken.
fn bitmap_clear(bitmap: &mut Vec<u64>, idx: usize)
    requires
        idx < old(bitmap)@.len() * 64,
    ensures
        final(bitmap)@.len() == old(bitmap)@.len(),
        bits(final(bitmap)@) == bits(old(bitmap)@).update(idx as int, false),
{
    let b: u64 = (idx % 64) as u64;
    bitmap[idx / 64] = bitmap[idx / 64] & !(1u64 << b);
    assert forall|k: int| 0 <= k < bitmap@.len() * 64 implies #[trigger] bits(bitmap@)[k] == bits(
        old(bitmap)@,
    ).update(idx as int, false)[k] by {
        if k / 64 == idx / 64 {
            lemma_bit_changed(old(bitmap)@[k / 64], b, (k % 64) as u64);
        }
    }
    assert(bits(bitmap@) =~= bits(old(bitmap)@).update(idx as int, false));
}

/// The lowest free frame.
fn bitmap_find_free(bitmap: &Vec<u64>) -> (r: Option<usize>)
    requires
        bitmap@.len() == BITMAP_WORDS,
    ensures
        match r {
            Some(i) => i == lowest_free(bits(bitmap@), 0) && i < MAX_TRACKED_FRAMES,
            None => lowest_free(bits(bitmap@), 0) == MAX_TRACKED_FRAMES,
        },
{
    let ghost free = bits(bitmap@);
    proof {
        lemma_lowest_free(free, 0);
    }
    let mut i: usize = 0;
    while i < BITMAP_WORDS
        invariant
            i <= BITMAP_WORDS,
            bitmap@.len() == BITMAP_WORDS,
            free == bits(bitmap@),
            0 <= lowest_free(free, 0) <= MAX_TRACKED_FRAMES,
            lowest_free(free, 0) < MAX_TRACKED_FRAMES ==> free[lowest_free(free, 0)],
            forall|k: int| 0 <= k < lowest_free(free, 0) ==> !free[k],
            forall|k: int| 0 <= k < i * 64 ==> !free[k],
        decreases BITMAP_WORDS - i,
    {
        let word: u64 = bitmap[i];
        if word != 0 {
            let b: u32 = word.trailing_zeros();
            let idx: usize = i * 64 + b as usize;
            proof {
                assert(free[idx as int]);
                assert forall|k: int| i * 64 <= k < idx implies !free[k] by {
                    let j = (k % 64) as u64;
                    assert((word >> j) & 1 == 0);
                }
            }
            return Some(idx);
        }
        proof {
            lemma_no_bits();
            assert forall|k: int| i * 64 <= k < i * 64 + 64 implies !free[k] by {
                assert(!bit_at(0, k % 64));
            }
        }
        i = i + 1;
    }
    None
}

/// Index of the frame that contains `phys`, if it is tracked.
fn frame_index(alloc: &FrameAllocator, phys: u64) -> (r: Option<usize>)
    ensures
        match r {
            Some(i) => alloc@.index(phys) == Some(i as int) && i < MAX_TRACKED_FRAMES,
            None => alloc@.index(phys) is None,
        },
{
    if phys < alloc.base {
        return None;
    }
    let idx: u64 = (phys - alloc.base) / FRAME_SIZE;
    if idx >= MAX_TRACKED_FRAMES as u64 {
        None
    } else {
        Some(idx as usize)
    }
}

/// Tags the frame of `phys`; an address that is not tracked is ignored.
pub fn frame_tag(alloc: &mut FrameAllocator, phys: u64, kind: FrameKind)
    requires
        old(alloc).wf(),
    ensures
        final(alloc).wf(),
        final(alloc)@ == old(alloc)@.tagged(phys, kind),
{
    if let Some(i) = frame_index(alloc, phys) {
        alloc.tags[i] = kind;
    }
}

/// What the frame of `phys` is used for; untracked addresses count as free.
pub fn frame_kind(alloc: &FrameAllocator, phys: u64) -> (r: FrameKind)
    requires
        alloc.wf(),
    ensures
        r == match alloc@.index(phys) {
            Some(i) => alloc.tags@[i],
            None => FrameKind::Free,
        },
{
    match frame_index(alloc, phys) {
        Some(i) => alloc.tags[i],
        None => FrameKind::Free,
    }
}

/// Number of managed frames that are free, kernel data, user owned, guards and
/// device memory.
pub fn frame_stats(alloc: &FrameAllocator) -> (r: [u32; 5])
    requires
        alloc.wf(),
    ensures
        r@[0] == count_tag(alloc.tags@, alloc@.managed(), FrameKind::Free),
        r@[1] == count_tag(alloc.tags@, alloc@.managed(), FrameKind::KernelData),
        r@[2] == count_tag(alloc.tags@, alloc@.managed(), FrameKind::UserOwned),
        r@[3] == count_tag(alloc.tags@, alloc@.managed(), FrameKind::Guard),
        r@[4] == count_tag(alloc.tags@, alloc@.managed(), FrameKind::Mmio),
{
    let total: usize = if alloc.end > alloc.base {
        let n: u64 = (alloc.end - alloc.base) / FRAME_SIZE;
        if n < MAX_TRACKED_FRAMES as u64 {
            n as usize
        } else {
            MAX_TRACKED_FRAMES
        }
    } else {
        0
    };
    let mut stats: [u32; 5] = [0;5];
    let mut i: usize = 0;
    while i < total
        invariant
            alloc.wf(),
            i <= total <= MAX_TRACKED_FRAMES,
            stats@[0] == count_tag(alloc.tags@, i as int, FrameKind::Free),
            stats@[1] == count_tag(alloc.tags@, i as int, FrameKind::KernelData),
            stats@[2] == count_tag(alloc.tags@, i as int, FrameKind::UserOwned),
            stats@[3] == count_tag(alloc.tags@, i as int, FrameKind::Guard),
            stats@[4] == count_tag(alloc.tags@, i as int, FrameKind::Mmio),
        decreases total - i,
    {
        proof {
            lemma_count_tag_bound(alloc.tags@, i as int, FrameKind::Free);
            lemma_count_tag_bound(alloc.tags@, i as int, FrameKind::KernelData);
            lemma_count_tag_bound(alloc.tags@, i as int, FrameKind::UserOwned);
            lemma_count_tag_bound(alloc.tags@, i as int, FrameKind::Guard);
            lemma_count_tag_bound(alloc.tags@, i as int, FrameKind::Mmio);
        }
        let k: usize = match alloc.tags[i] {
            FrameKind::Free => 0,
            FrameKind::KernelData => 1,
            FrameKind::UserOwned => 2,
            FrameKind::Guard => 3,
            FrameKind::Mmio => 4,
        };
        stats[k] = stats[k] + 1;
        i = i + 1;
    }
    stats
}

/// Makes `alloc` manage the frames of `base .. base + size`, all free.
pub fn init_global_allocator(alloc: &mut FrameAllocator, base: u64, size: u64)
    requires
        base + size <= u64::MAX,
    ensures
        final(alloc).wf(),
        final(alloc)@ == fresh_frames(base, size),
{
    *alloc = FrameAllocator::empty();
    alloc.base = base;
    alloc.end = base + size;
    let n: u64 = size / FRAME_SIZE;
    let frames: usize = if n < MAX_TRACKED_FRAMES as u64 {
        n as usize
    } else {
        MAX_TRACKED_FRAMES
    };
    let mut i: usize = 0;
    while i < frames
        invariant
            i <= frames <= MAX_TRACKED_FRAMES,
            alloc.bitmap@.len() == BITMAP_WORDS,
            alloc.base == base,
            alloc.end == base + size,
            alloc.tags@ == fresh_frames(0, 0).tags,
            forall|k: int| 0 <= k < MAX_TRACKED_FRAMES ==> #[trigger] alloc@.free[k] == (k < i),
        decreases frames - i,
    {
        let ghost before = alloc@.free;
        bitmap_set(&mut alloc.bitmap, i);
        assert(alloc@.free == before.update(i as int, true));
        i = i + 1;
    }
    assert(alloc@ =~= fresh_frames(base, size));
}

/// Takes the lowest free frame and tags it as kernel data; `None` if no frame
/// is available.
pub fn global_alloc_4k(alloc: &mut FrameAllocator) -> (r: Option<u64>)
    requires
        old(alloc).wf(),
    ensures
        final(alloc).wf(),
        match old(alloc)@.take() {
            Some((phys, after)) => r == Some(phys) && final(alloc)@ == after && (old(
                alloc,
            ).paged() ==> is_frame(phys)),
            None => r is None && *final(alloc) == *old(alloc),
        },
{
    let i: usize = match bitmap_find_free(&alloc.bitmap) {
        Some(i) => i,
        None => return None,
    };
    proof {
        lemma_lowest_free(alloc@.free, 0);
        assert(alloc@.addr(i as int) <= u64::MAX);
    }
    let phys: u64 = alloc.base + i as u64 * FRAME_SIZE;
    if phys >= alloc.end {
        return None;
    }
    bitmap_clear(&mut alloc.bitmap, i);
    assert(alloc@.index(phys) == Some(i as int));
    assert(alloc@.free == old(alloc)@.free.update(i as int, false));
    frame_tag(alloc, phys, FrameKind::KernelData);
    Some(phys)
}

/// Gives the frame of `phys` back; an address that is not tracked is ignored.
pub fn global_free_4k(alloc: &mut FrameAllocator, phys: u64)
    requires
        old(alloc).wf(),
    ensures
        final(alloc).wf(),
        final(alloc)@ == old(alloc)@.returned(phys),
{
    if let Some(i) = frame_index(alloc, phys) {
        bitmap_set(&mut alloc.bitmap, i);
        assert(alloc@.free == old(alloc)@.free.update(i as int, true));
        frame_tag(alloc, phys, FrameKind::Free);
    }
}

/// Gives the frames of all of `addrs` back; addresses that are not tracked are
/// ignored.
pub fn free_all(alloc: &mut FrameAllocator, addrs: &[u64])
    requires
        old(alloc).wf(),
    ensures
        final(alloc).wf(),
        final(alloc)@ == old(alloc)@.all_returned(addrs@),
        final(alloc).base == old(alloc).base,
        final(alloc).end == old(alloc).end,
{
    let mut i: usize = 0;
    while i < addrs.len()
        invariant
            alloc.wf(),
            i <= addrs@.len(),
            alloc@ == old(alloc)@.all_returned(addrs@.take(i as int)),
            alloc.base == old(alloc).base,
            alloc.end == old(alloc).end,
        decreases addrs@.len() - i,
    {
        assert(addrs@.take(i + 1).drop_last() =~= addrs@.take(i as int));
        global_free_4k(alloc, addrs[i]);
        i = i + 1;
    }
    assert(addrs@.take(addrs@.len() as int) =~= addrs@);
}

/// After frames are given back, each one that is tracked is free, and every
/// other frame is as it was.
pub proof fn law_returned_frames_are_free(f: Frames, addrs: Seq<u64>, i: int)
    requires
        f.free.len() == MAX_TRACKED_FRAMES,
        f.tags.len() == MAX_TRACKED_FRAMES,
        0 <= i < MAX_TRACKED_FRAMES,
    ensures
        ({
            let g = f.all_returned(addrs);
            let given = f.in_frame(addrs, i);
            &&& g.base == f.base
            &&& g.end == f.end
            &&& g.free.len() == f.free.len()
            &&& g.tags.len() == f.tags.len()
            &&& g.free[i] == (given || f.free[i])
            &&& g.tags[i] == if given {
                FrameKind::Free
            } else {
                f.tags[i]
            }
        }),
    decreases addrs.len(),
{
    if addrs.len() > 0 {
        let init = addrs.drop_last();
        law_returned_frames_are_free(f, init, i);
        assert forall|k: int| 0 <= k < init.len() implies #[trigger] init[k] == addrs[k] by {}
        if f.in_frame(init, i) {
            let k = choose|k: int| 0 <= k < init.len() && f.index(#[trigger] init[k]) == Some(i);
            assert(f.index(addrs[k]) == Some(i));
        }
        if f.in_frame(addrs, i) {
            let k = choose|k: int| 0 <= k < addrs.len() && f.index(#[trigger] addrs[k]) == Some(i);
            if k < init.len() {
                assert(f.index(init[k]) == Some(i));
            }
        }
        if f.index(addrs.last()) == Some(i) {
            assert(f.index(addrs[addrs.len() - 1]) == Some(i));
        }
        assert(f.all_returned(init).index(addrs.last()) == f.index(addrs.last()));
    }
}

/// A frame that was handed out is not handed out again before it is given
/// back, and it is tagged as kernel data.
pub proof fn law_taken_frame_is_not_free(f: Frames)
    requires
        f.wf(),
        f.take() is Some,
    ensures
        ({
            let (phys, after) = f.take()->0;
            let i = f.index(phys)->0;
            &&& f.index(phys) is Some
            &&& f.free[i]
            &&& !after.free[i]
            &&& after.tags[i] == FrameKind::KernelData
            &&& after.take() is Some ==> (after.take()->0).0 != phys
        }),
{
    let i = lowest_free(f.free, 0);
    lemma_lowest_free(f.free, 0);
    let after = (f.take()->0).1;
    lemma_lowest_free(after.free, 0);
    assert(f.index(f.addr(i) as u64) == Some(i));
}

/// A frame given back while no lower frame is free is the one handed out next.
pub proof fn law_returned_frame_is_reused(f: Frames, phys: u64)
    requires
        f.wf(),
        f.index(phys) is Some,
        phys == f.addr(f.index(phys)->0),
        phys < f.end,
        forall|k: int| 0 <= k < f.index(phys)->0 ==> !f.free[k],
    ensures
        f.returned(phys).tags[f.index(phys)->0] == FrameKind::Free,
        f.returned(phys).take() is Some,
        (f.returned(phys).take()->0).0 == phys,
{
    let g = f.returned(phys);
    let i = f.index(phys)->0;
    lemma_lowest_free(g.free, 0);
    assert(g.free[i]);
    assert(lowest_free(g.free, 0) == i);
}

// ── The allocator over time ──────────────────────────────────────────────────
/// What is asked of a frame allocator.
pub enum FrameOp {
    /// A frame is taken.
    Take,
    /// The frame of an address is given back.
    Return(u64),
}

impl Frames {
    /// The state after `op`.
    pub open spec fn after(self, op: FrameOp) -> Frames {
        match op {
            FrameOp::Take => match self.take() {
                Some((_, f)) => f,
                None => self,
            },
            FrameOp::Return(phys) => self.returned(phys),
        }
    }

    /// The state after all of `ops`.
    pub open spec fn run(self, ops: Seq<FrameOp>) -> Frames
        decreases ops.len(),
    {
        if ops.len() == 0 {
            self
        } else {
            self.run(ops.drop_last()).after(ops.last())
        }
    }

    /// The allocator manages `base .. base + size`, and only frames of that
    /// range are free.
    pub open spec fn serves(self, base: u64, size: u64) -> bool {
        &&& self.wf()
        &&& self.base == base
        &&& self.end == base + size
        &&& forall|i: int|
            0 <= i < MAX_TRACKED_FRAMES && #[trigger] self.free[i] ==> i < size / 4096
    }
}

/// Only addresses of `base .. base + size` are given back.
pub open spec fn ops_within(ops: Seq<FrameOp>, base: u64, size: u64) -> bool {
    forall|k: int|
        0 <= k < ops.len() ==> (#[trigger] ops[k] matches FrameOp::Return(phys) ==> base <= phys
            < base + size)
}

/// A range of whole frames that can be tracked.
pub open spec fn whole_frames(base: u64, size: u64) -> bool {
    size % 4096 == 0 && size <= MAX_TRACKED_FRAMES * 4096 && base + size <= u64::MAX
}

proof fn lemma_after_serves(f: Frames, base: u64, size: u64, op: FrameOp)
    requires
        whole_frames(base, size),
        f.serves(base, size),
        op matches FrameOp::Return(phys) ==> base <= phys < base + size,
    ensures
        f.after(op).serves(base, size),
{
    lemma_lowest_free(f.free, 0);
    let g = f.after(op);
    assert forall|i: int| 0 <= i < MAX_TRACKED_FRAMES && #[trigger] g.free[i] implies i < size / 4096
        && g.addr(i) <= u64::MAX by {
        if f.free[i] {
            assert(f.addr(i) <= u64::MAX);
        }
    }
}

/// However frames of its range are taken and given back, the allocator goes on
/// to manage that range.
pub proof fn lemma_run_serves(f: Frames, base: u64, size: u64, ops: Seq<FrameOp>)
    requires
        whole_frames(base, size),
        f.serves(base, size),
        ops_within(ops, base, size),
    ensures
        f.run(ops).serves(base, size),
    decreases ops.len(),
{
    if ops.len() > 0 {
        let init = ops.drop_last();
        assert forall|k: int| 0 <= k < init.len() implies (#[trigger] init[k] matches FrameOp::Return(
            phys,
        ) ==> base <= phys < base + size) by {
            assert(ops[k] == init[k]);
        }
        lemma_run_serves(f, base, size, init);
        assert(ops[ops.len() - 1] == ops.last());
        lemma_after_serves(f.run(init), base, size, ops.last());
    }
}

/// Whatever was taken and given back of its range since the allocator was set
/// up, the frame that is taken next is the lowest free one of the range, and is
/// then taken and tagged as kernel data; none is taken exactly when no frame of
/// the range is free. Once all are taken, a frame that is given back is the one
/// taken next.
pub proof fn law_lowest_free_frame_is_taken(
    base: u64,
    size: u64,
    ops: Seq<FrameOp>,
    phys: u64,
)
    requires
        whole_frames(base, size),
        ops_within(ops, base, size),
        base <= phys < base + size,
        (phys - base) % 4096 == 0,
    ensures
        ({
            let f = fresh_frames(base, size).run(ops);
            let full = forall|i: int| 0 <= i < size / 4096 ==> !#[trigger] f.free[i];
            &&& f.take() is None <==> full
            &&& f.take() matches Some((p, g)) ==> {
                let i = (p - base) / 4096;
                &&& base <= p && p + 4096 <= base + size && (p - base) % 4096 == 0
                &&& f.free[i]
                &&& forall|k: int| 0 <= k < i ==> !#[trigger] f.free[k]
                &&& g.index(p) == Some(i)
                &&& g.tags[i] == FrameKind::KernelData
                &&& !g.free[i]
            }
            &&& full ==> f.returned(phys).take() is Some && (f.returned(phys).take()->0).0 == phys
        }),
{
    let f = fresh_frames(base, size).run(ops);
    assert(fresh_frames(base, size).serves(base, size));
    lemma_run_serves(fresh_frames(base, size), base, size, ops);
    lemma_lowest_free(f.free, 0);
    let i = lowest_free(f.free, 0);
    if i < MAX_TRACKED_FRAMES {
        assert(f.free[i]);
        assert(f.addr(i) + 4096 <= base + size);
    }
    if forall|k: int| 0 <= k < size / 4096 ==> !#[trigger] f.free[k] {
        let j = (phys - base) / 4096;
        assert(j < size / 4096);
        assert(phys == f.addr(j));
        law_returned_frame_is_reused(f, phys);
    }
}

/// A frame that was taken is not taken again before it is given back, whatever
/// else is taken and given back in the meantime.
pub proof fn law_frame_is_taken_once(f: Frames, base: u64, size: u64, ops: Seq<FrameOp>)
    requires
        whole_frames(base, size),
        f.serves(base, size),
        f.take() is Some,
        ops_within(ops, base, size),
        forall|k: int|
            0 <= k < ops.len() ==> (#[trigger] ops[k] matches FrameOp::Return(phys) ==> f.index(phys)
                != f.index((f.take()->0).0)),
    ensures
        ({
            let (p, g) = f.take()->0;
            let h = g.run(ops);
            &&& !h.free[f.index(p)->0]
            &&& h.take() is Some ==> (h.take()->0).0 != p
        }),
    decreases ops.len(),
{
    let (p, g) = f.take()->0;
    lemma_lowest_free(f.free, 0);
    let i = lowest_free(f.free, 0);
    assert(f.free[i]);
    assert(f.index(p) == Some(i));
    assert(g == f.after(FrameOp::Take));
    lemma_after_serves(f, base, size, FrameOp::Take);
    lemma_run_serves(g, base, size, ops);
    let h = g.run(ops);
    if ops.len() > 0 {
        let init = ops.drop_last();
        assert forall|k: int| 0 <= k < init.len() implies (#[trigger] init[k] matches FrameOp::Return(
            phys,
        ) ==> base <= phys < base + size && f.index(phys) != f.index(p)) by {
            assert(ops[k] == init[k]);
        }
        law_frame_is_taken_once(f, base, size, init);
        lemma_run_serves(g, base, size, init);
        let before = g.run(init);
        lemma_lowest_free(before.free, 0);
        assert(ops[ops.len() - 1] == ops.last());
        if let FrameOp::Return(phys) = ops.last() {
            assert(before.index(phys) == f.index(phys));
        }
    }
    lemma_lowest_free(h.free, 0);
    if h.take() is Some {
        let j = lowest_free(h.free, 0);
        assert(h.free[j]);
        assert(h.addr(j) <= u64::MAX);
        assert(j != i);
    }
}

/// A region that was not used yet hands out every frame it has, in ascending
/// order, and then no more.
pub proof fn law_all_frames_are_handed_out(base: u64, size: u64, k: nat)
    requires
        whole_frames(base, size),
        k <= size / 4096,
    ensures
        ({
            let f = fresh_frames(base, size).run(Seq::new(k, |i: int| FrameOp::Take));
            &&& k < size / 4096 ==> f.take() is Some && (f.take()->0).0 == base + k * 4096
            &&& k == size / 4096 ==> f.take() is None
            &&& f.free.len() == MAX_TRACKED_FRAMES
            &&& f.base == base
            &&& f.end == base + size
            &&& forall|i: int|
                0 <= i < MAX_TRACKED_FRAMES ==> #[trigger] f.free[i] == (k <= i < size / 4096)
        }),
    decreases k,
{
    let ops = Seq::new(k, |i: int| FrameOp::Take);
    let f = fresh_frames(base, size).run(ops);
    if k > 0 {
        law_all_frames_are_handed_out(base, size, (k - 1) as nat);
        assert(ops.drop_last() =~= Seq::new((k - 1) as nat, |i: int| FrameOp::Take));
        let before = fresh_frames(base, size).run(ops.drop_last());
        lemma_lowest_free(before.free, 0);
        assert(before.free[k - 1]);
        assert(lowest_free(before.free, 0) == k - 1);
    }
    lemma_lowest_free(f.free, 0);
    if k < size / 4096 {
        assert(f.free[k as int]);
        assert(lowest_free(f.free, 0) == k);
    }
}

/// A tag that is set is read back for every address of its frame. No other frame
/// gets another tag, and no frame becomes free or taken.
pub proof fn law_tag_is_read_back(f: Frames, phys: u64, kind: FrameKind, other: u64)
    requires
        f.tags.len() == MAX_TRACKED_FRAMES,
        f.base <= phys,
        phys < f.base + MAX_TRACKED_FRAMES * 4096,
        f.base <= other,
        other < f.base + MAX_TRACKED_FRAMES * 4096,
    ensures
        ({
            let g = f.tagged(phys, kind);
            let same = (other - f.base) / 4096 == (phys - f.base) / 4096;
            &&& g.index(other) is Some
            &&& g.tags[g.index(other)->0] == if same {
                kind
            } else {
                f.tags[f.index(other)->0]
            }
            &&& g.free == f.free
            &&& g.base == f.base
            &&& g.end == f.end
        }),
{
}

/// The counts of all kinds of frames add up to the frames that are managed: as
/// many as the region has, and at most as many as can be tracked.
pub proof fn law_counts_add_up(f: Frames)
    ensures
        ({
            let n = f.managed();
            &&& count_tag(f.tags, n, FrameKind::Free) + count_tag(f.tags, n, FrameKind::KernelData)
                + count_tag(f.tags, n, FrameKind::UserOwned) + count_tag(
                f.tags,
                n,
                FrameKind::Guard,
            ) + count_tag(f.tags, n, FrameKind::Mmio) == n
            &&& f.end <= f.base ==> n == 0
            &&& f.base <= f.end && f.end - f.base <= 65536 * 4096 ==> n == (f.end - f.base) / 4096
            &&& f.base <= f.end && f.end - f.base > 65536 * 4096 ==> n == 65536
        }),
{
    lemma_counts_add_up(f.tags, f.managed());
}

proof fn lemma_counts_add_up(tags: Seq<FrameKind>, n: int)
    requires
        0 <= n,
    ensures
        count_tag(tags, n, FrameKind::Free) + count_tag(tags, n, FrameKind::KernelData) + count_tag(
            tags,
            n,
            FrameKind::UserOwned,
        ) + count_tag(tags, n, FrameKind::Guard) + count_tag(tags, n, FrameKind::Mmio) == n,
    decreases n,
{
    if n > 0 {
        lemma_counts_add_up(tags, n - 1);
    }
}

/// A frame that changes its kind moves from one count to the other.
pub proof fn law_retagged_frame_changes_its_count(
    tags: Seq<FrameKind>,
    n: int,
    i: int,
    kind: FrameKind,
    counted: FrameKind,
)
    requires
        0 <= i < n <= tags.len(),
    ensures
        count_tag(tags.update(i, kind), n, counted) == count_tag(tags, n, counted) + (if kind
            == counted {
            1int
        } else {
            0
        }) - (if tags[i] == counted {
            1int
        } else {
            0
        }),
    decreases n,
{
    if i < n - 1 {
        law_retagged_frame_changes_its_count(tags, n - 1, i, kind, counted);
    } else {
        lemma_same_count(tags, tags.update(i, kind), n - 1, counted);
    }
}

proof fn lemma_same_count(a: Seq<FrameKind>, b: Seq<FrameKind>, n: int, kind: FrameKind)
    requires
        0 <= n <= a.len(),
        n <= b.len(),
        forall|k: int| 0 <= k < n ==> a[k] == b[k],
    ensures
        count_tag(a, n, kind) == count_tag(b, n, kind),
    decreases n,
{
    if n > 0 {
        lemma_same_count(a, b, n - 1, kind);
    }
}

// ── Bump allocator ───────────────────────────────────────────────────────────
/// Allocator that hands out a region from its start and takes nothing back.
#[derive(Debug)]
pub struct PhysicalAllocator {
    pub heap_start: usize,
    pub heap_remaining: usize,
}

/// `size` rounded up to whole frames.
pub open spec fn page_rounded(size: int) -> int {
    (size + 4095) / 4096 * 4096
}

impl PhysicalAllocator {
    /// The region does not reach past the end of the address space.
    pub open spec fn wf(&self) -> bool {
        self.heap_start + self.heap_remaining <= usize::MAX
    }

    pub fn new(start: usize, size: usize) -> (r: Self)
        ensures
            r.heap_start == start,
            r.heap_remaining == size,
    {
        PhysicalAllocator { heap_start: start, heap_remaining: size }
    }

    /// Allocates `size` bytes, rounded up to whole frames; `None` if the rest
    /// of the region is too small.
    pub fn allocate(&mut self, size: usize) -> (r: Option<usize>)
        requires
            old(self).wf(),
            size + 4095 <= usize::MAX,
        ensures
            final(self).wf(),
            if page_rounded(size as int) <= old(self).heap_remaining {
                &&& r == Some(old(self).heap_start)
                &&& final(self).heap_start == old(self).heap_start + page_rounded(size as int)
                &&& final(self).heap_remaining == old(self).heap_remaining - page_rounded(
                    size as int,
                )
            } else {
                r is None && *final(self) == *old(self)
            },
    {
        let aligned: usize = (size + 4095) / 4096 * 4096;
        if aligned > self.heap_remaining {
            return None;
        }
        let addr: usize = self.heap_start;
        self.heap_start = addr + aligned;
        self.heap_remaining = self.heap_remaining - aligned;
        Some(addr)
    }

    /// Nothing is taken back.
    pub fn deallocate(&mut self, _addr: usize, _size: usize)
        ensures
            *final(self) == *old(self),
    {
    }

    /// The address the next allocation gets.
    pub fn current_base(&self) -> (r: usize)
        ensures
            r == self.heap_start,
    {
        self.heap_start
    }
}

/// A size is rounded up to whole pages, and to no page more.
pub proof fn law_sizes_are_rounded_to_pages(size: int)
    requires
        0 <= size,
    ensures
        page_rounded(size) % 4096 == 0,
        size <= page_rounded(size) < size + 4096,
{
}

/// The frame that is handed out is the lowest free one, counts as the kernel's, and
/// is not free any more. Nothing changes for any other frame.
pub proof fn law_lowest_free_frame_is_handed_out(f: Frames, i: int)
    requires
        f.wf(),
        f.take() is Some,
        0 <= i < MAX_TRACKED_FRAMES,
    ensures
        ({
            let (p, g) = f.take()->0;
            let at = (p - f.base) / 4096;
            &&& 0 <= at < MAX_TRACKED_FRAMES
            &&& p == f.base + at * 4096
            &&& p < f.end
            &&& f.free[at]
            &&& !g.free[at]
            &&& g.tags[at] == FrameKind::KernelData
            &&& i < at ==> !f.free[i]
            &&& i != at ==> g.free[i] == f.free[i] && g.tags[i] == f.tags[i]
        }),
{
    lemma_lowest_free(f.free, 0);
    let at = lowest_free(f.free, 0);
    assert(f.free[at]);
    assert((f.addr(at) - f.base) / 4096 == at);
}

/// A frame that is given back is free and untagged, whichever of its addresses is
/// named, and nothing changes for any other frame.
pub proof fn law_returned_frame_is_free(f: Frames, phys: u64, i: int)
    requires
        f.wf(),
        f.base <= phys,
        phys < f.base + MAX_TRACKED_FRAMES * 4096,
        0 <= i < MAX_TRACKED_FRAMES,
    ensures
        ({
            let g = f.returned(phys);
            let at = (phys - f.base) / 4096;
            &&& g.free[at]
            &&& g.tags[at] == FrameKind::Free
            &&& i != at ==> g.free[i] == f.free[i] && g.tags[i] == f.tags[i]
            &&& g.base == f.base && g.end == f.end
        }),
{
}

} // verus!
