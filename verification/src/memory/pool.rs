//! Pool of frames set aside for page tables.

use vstd::prelude::*;

use crate::memory::physical::{global_alloc_4k, global_free_4k, FrameAllocator};

verus! {

/// Frames the pool can hold.
pub const PT_POOL_CAP: usize = 512;

/// Stack of frames available for page tables, most recently returned on top.
#[derive(Debug)]
pub struct PtPool {
    pub frames: Vec<u64>,
}

/// The frames drawn one after the other from `f`, at most `n` of them, and
/// what is left.
pub open spec fn drawn(f: crate::memory::physical::Frames, n: nat) -> (
    Seq<u64>,
    crate::memory::physical::Frames,
)
    decreases n,
{
    if n == 0 {
        (Seq::empty(), f)
    } else {
        let (got, rest) = drawn(f, (n - 1) as nat);
        match rest.take() {
            Some((phys, after)) => if got.len() == n - 1 {
                (got.push(phys), after)
            } else {
                (got, rest)
            },
            None => (got, rest),
        }
    }
}

proof fn lemma_drawn_stops(f: crate::memory::physical::Frames, n: nat, m: nat)
    requires
        n <= m,
        drawn(f, n).1.take() is None,
    ensures
        drawn(f, m) == drawn(f, n),
    decreases m,
{
    if m > n {
        lemma_drawn_stops(f, n, (m - 1) as nat);
    }
}

impl PtPool {
    pub open spec fn wf(&self) -> bool {
        self.frames@.len() <= PT_POOL_CAP
    }

    /// An empty pool.
    pub fn new() -> (r: Self)
        ensures
            r.wf(),
            r.frames@ == Seq::<u64>::empty(),
    {
        PtPool { frames: Vec::new() }
    }
}

/// Fills the pool with up to `count` frames and gives their number.
pub fn pool_init(pool: &mut PtPool, alloc: &mut FrameAllocator, count: usize) -> (r: usize)
    requires
        old(alloc).wf(),
    ensures
        final(pool).wf(),
        final(alloc).wf(),
        ({
            let n: nat = if count < PT_POOL_CAP {
                count as nat
            } else {
                PT_POOL_CAP as nat
            };
            &&& (final(pool).frames@, final(alloc)@) == drawn(old(alloc)@, n)
            &&& r == final(pool).frames@.len()
        }),
{
    let want: usize = if count < PT_POOL_CAP {
        count
    } else {
        PT_POOL_CAP
    };
    let mut frames: Vec<u64> = Vec::new();
    while frames.len() < want
        invariant
            want <= PT_POOL_CAP,
            frames@.len() <= want,
            alloc.wf(),
            (frames@, alloc@) == drawn(old(alloc)@, frames@.len()),
        ensures
            frames@.len() <= want,
            alloc.wf(),
            (frames@, alloc@) == drawn(old(alloc)@, want as nat),
        decreases want - frames@.len(),
    {
        match global_alloc_4k(alloc) {
            Some(phys) => {
                frames.push(phys);
            },
            None => {
                proof {
                    lemma_drawn_stops(old(alloc)@, frames@.len(), want as nat);
                }
                break ;
            },
        }
    }
    let filled: usize = frames.len();
    pool.frames = frames;
    filled
}

/// Takes the frame on top of the pool. Its contents are not cleared.
pub fn pool_alloc_pt(pool: &mut PtPool) -> (r: Option<u64>)
    requires
        old(pool).wf(),
    ensures
        final(pool).wf(),
        if old(pool).frames@.len() > 0 {
            r == Some(old(pool).frames@.last()) && final(pool).frames@
                == old(pool).frames@.drop_last()
        } else {
            r is None && *final(pool) == *old(pool)
        },
{
    if pool.frames.len() == 0 {
        return None;
    }
    pool.frames.pop()
}

/// Puts a frame on top of the pool; if the pool is full, the frame goes back
/// to the frame allocator.
pub fn pool_free_pt(pool: &mut PtPool, alloc: &mut FrameAllocator, phys: u64)
    requires
        old(pool).wf(),
        old(alloc).wf(),
    ensures
        final(pool).wf(),
        final(alloc).wf(),
        if old(pool).frames@.len() < PT_POOL_CAP {
            final(pool).frames@ == old(pool).frames@.push(phys) && *final(alloc) == *old(alloc)
        } else {
            *final(pool) == *old(pool) && final(alloc)@ == old(alloc)@.returned(phys)
        },
{
    if pool.frames.len() < PT_POOL_CAP {
        pool.frames.push(phys);
    } else {
        global_free_4k(alloc, phys);
    }
}

/// Frames in the pool.
pub fn pool_available(pool: &PtPool) -> (r: usize)
    ensures
        r == pool.frames@.len(),
{
    pool.frames.len()
}

/// Frames the pool can hold.
pub fn pool_capacity() -> (r: usize)
    ensures
        r == PT_POOL_CAP,
{
    PT_POOL_CAP
}

/// The frame put into a pool with room is the one taken next.
pub proof fn law_pool_is_lifo(before: Seq<u64>, phys: u64)
    ensures
        before.push(phys).last() == phys,
        before.push(phys).drop_last() == before,
{
    assert(before.push(phys).drop_last() =~= before);
}

/// A pool is filled with frames that were free and are not any more, each of them
/// once. It has as many as asked for, or all there were.
pub proof fn law_pool_is_filled_with_free_frames(
    f: crate::memory::physical::Frames,
    n: nat,
    i: int,
    k: int,
)
    requires
        f.wf(),
        0 <= i < drawn(f, n).0.len(),
        i < k < drawn(f, n).0.len(),
    ensures
        ({
            let (got, rest) = drawn(f, n);
            &&& got.len() <= n
            &&& got.len() < n ==> rest.take() is None
            &&& f.index(got[i]) is Some
            &&& f.free[f.index(got[i])->0]
            &&& !rest.free[f.index(got[i])->0]
            &&& got[i] != got[k]
        }),
{
    lemma_drawn(f, n);
    let (got, rest) = drawn(f, n);
    lemma_drawn_at(f, n, i);
    lemma_drawn_apart(f, n, i, k);
}

/// What drawing frames keeps of the allocator.
proof fn lemma_drawn(f: crate::memory::physical::Frames, n: nat)
    requires
        f.wf(),
    ensures
        ({
            let (got, rest) = drawn(f, n);
            &&& got.len() <= n
            &&& got.len() < n ==> rest.take() is None
            &&& rest.wf()
            &&& rest.base == f.base
            &&& forall|j: int|
                0 <= j < f.free.len() && #[trigger] rest.free[j] ==> f.free[j]
        }),
    decreases n,
{
    if n > 0 {
        let (got, rest) = drawn(f, (n - 1) as nat);
        lemma_drawn(f, (n - 1) as nat);
        if rest.take() is Some {
            crate::memory::physical::lemma_lowest_free(rest.free, 0);
            let after = (rest.take()->0).1;
            assert forall|j: int|
                0 <= j < crate::memory::physical::MAX_TRACKED_FRAMES
                    && #[trigger] after.free[j] implies after.addr(j) <= u64::MAX by {
                assert(rest.free[j]);
            }
        }
    }
}

/// Frame `i` of those that were drawn was free and is not any more.
proof fn lemma_drawn_at(f: crate::memory::physical::Frames, n: nat, i: int)
    requires
        f.wf(),
        0 <= i < drawn(f, n).0.len(),
    ensures
        ({
            let (got, rest) = drawn(f, n);
            let j = f.index(got[i])->0;
            &&& f.index(got[i]) is Some
            &&& 0 <= j < f.free.len()
            &&& f.free[j]
            &&& !rest.free[j]
        }),
    decreases n,
{
    let (got, rest) = drawn(f, (n - 1) as nat);
    lemma_drawn(f, (n - 1) as nat);
    if i < got.len() {
        lemma_drawn_at(f, (n - 1) as nat, i);
        if rest.take() is Some {
            crate::memory::physical::lemma_lowest_free(rest.free, 0);
        }
    } else {
        let j = crate::memory::physical::lowest_free(rest.free, 0);
        crate::memory::physical::lemma_lowest_free(rest.free, 0);
        assert(rest.free[j]);
        assert(rest.addr(j) <= u64::MAX);
    }
}

/// No frame is drawn twice.
proof fn lemma_drawn_apart(f: crate::memory::physical::Frames, n: nat, i: int, k: int)
    requires
        f.wf(),
        0 <= i < k < drawn(f, n).0.len(),
    ensures
        drawn(f, n).0[i] != drawn(f, n).0[k],
    decreases n,
{
    let (got, rest) = drawn(f, (n - 1) as nat);
    lemma_drawn(f, (n - 1) as nat);
    if k < got.len() {
        lemma_drawn_apart(f, (n - 1) as nat, i, k);
    } else {
        lemma_drawn_at(f, (n - 1) as nat, i);
        let j = crate::memory::physical::lowest_free(rest.free, 0);
        crate::memory::physical::lemma_lowest_free(rest.free, 0);
        assert(rest.free[j]);
        assert(rest.addr(j) <= u64::MAX);
    }
}

} // verus!
