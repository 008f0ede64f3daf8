//! The physical frame allocator: hands out unused 4 KiB frames by scanning
//! the boot-provided memory map, never returning the same frame twice.
//!
//! The allocator keeps a single monotonically increasing cursor and
//! recomputes the usable-frame enumeration from the immutable memory map on
//! every call, so the cursor alone decides which frame comes next.

use vstd::prelude::*;

verus! {

/// One region of the boot-time memory map: a contiguous range of physical
/// frame numbers and whether the region is usable RAM.
#[derive(Debug, Clone, Copy, PartialEq, Eq, Structural)]
pub struct MemoryRegion {
    /// First frame number of the region.
    pub start_frame: u64,
    /// One past the last frame number of the region.
    pub end_frame: u64,
    /// Whether the region is usable RAM.
    pub usable: bool,
}

/// Frame numbers stay below this bound, so every frame's byte address fits
/// the 52-bit physical address range.
pub const MAX_FRAME_NUMBER: u64 = 0x100_0000_0000;

impl MemoryRegion {
    /// How many usable frames the region contributes to the enumeration.
    pub open spec fn frame_count(self) -> int {
        if self.usable && self.start_frame < self.end_frame {
            self.end_frame - self.start_frame
        } else {
            0
        }
    }
}

/// Number of usable frames in the whole map, region by region in map order.
pub open spec fn usable_count(regions: Seq<MemoryRegion>) -> int
    decreases regions.len(),
{
    if regions.len() == 0 {
        0
    } else {
        regions[0].frame_count() + usable_count(regions.drop_first())
    }
}

/// Byte address of the `k`-th usable frame of the map (0-based), usable
/// regions flattened in map order.
pub open spec fn nth_usable_frame_addr(regions: Seq<MemoryRegion>, k: int) -> int
    decreases regions.len(),
{
    if regions.len() == 0 {
        0
    } else if k < regions[0].frame_count() {
        (regions[0].start_frame + k) * 4096
    } else {
        nth_usable_frame_addr(regions.drop_first(), k - regions[0].frame_count())
    }
}

/// What one allocation call returns for a given map and cursor: the cursor's
/// usable frame while one is left, nothing once the enumeration is exhausted.
pub open spec fn spec_frame_result(regions: Seq<MemoryRegion>, next: int) -> Option<u64> {
    if 0 <= next < usable_count(regions) {
        Some(nth_usable_frame_addr(regions, next) as u64)
    } else {
        None
    }
}

/// The usable-frame count is never negative.
pub proof fn lemma_usable_count_nonneg(regions: Seq<MemoryRegion>)
    ensures
        usable_count(regions) >= 0,
    decreases regions.len(),
{
    if regions.len() > 0 {
        lemma_usable_count_nonneg(regions.drop_first());
    }
}

/// Every usable-frame address lies inside one of the map's usable regions.
pub proof fn lemma_nth_frame_in_a_region(regions: Seq<MemoryRegion>, k: int)
    requires
        0 <= k < usable_count(regions),
    ensures
        exists|i: int|
            0 <= i < regions.len() && (#[trigger] regions[i]).usable && regions[i].start_frame
                * 4096 <= nth_usable_frame_addr(regions, k) && nth_usable_frame_addr(regions, k)
                < regions[i].end_frame * 4096,
    decreases regions.len(),
{
    assert(regions.len() > 0);
    let c0 = regions[0].frame_count();
    if k < c0 {
        assert(regions[0].usable && regions[0].start_frame + k < regions[0].end_frame);
        assert(regions[0].start_frame * 4096 <= (regions[0].start_frame + k) * 4096
            < regions[0].end_frame * 4096);
    } else {
        let rest = regions.drop_first();
        lemma_nth_frame_in_a_region(rest, k - c0);
        let i = choose|i: int|
            0 <= i < rest.len() && (#[trigger] rest[i]).usable && rest[i].start_frame * 4096
                <= nth_usable_frame_addr(rest, k - c0) && nth_usable_frame_addr(rest, k - c0)
                < rest[i].end_frame * 4096;
        assert(rest[i] == regions[i + 1]);
        assert(0 <= i + 1 < regions.len() && regions[i + 1].usable && regions[i + 1].start_frame
            * 4096 <= nth_usable_frame_addr(regions, k) && nth_usable_frame_addr(regions, k)
            < regions[i + 1].end_frame * 4096);
    }
}

/// The same frame is never returned twice: over a map whose usable regions
/// do not overlap, distinct cursors yield distinct frame addresses, so the
/// monotonic cursor alone keeps every handed-out frame unique.
pub proof fn lemma_frames_never_repeat(regions: Seq<MemoryRegion>, k1: int, k2: int)
    requires
        forall|i: int, j: int|
            0 <= i < j < regions.len() && (#[trigger] regions[i]).usable && (
            #[trigger] regions[j]).usable ==> regions[i].end_frame <= regions[j].start_frame
                || regions[j].end_frame <= regions[i].start_frame,
        0 <= k1 < k2 < usable_count(regions),
    ensures
        nth_usable_frame_addr(regions, k1) != nth_usable_frame_addr(regions, k2),
    decreases regions.len(),
{
    let c0 = regions[0].frame_count();
    if k2 < c0 {
        assert((regions[0].start_frame + k1) * 4096 != (regions[0].start_frame + k2) * 4096);
    } else if k1 < c0 {
        let rest = regions.drop_first();
        lemma_nth_frame_in_a_region(rest, k2 - c0);
        let i = choose|i: int|
            0 <= i < rest.len() && (#[trigger] rest[i]).usable && rest[i].start_frame * 4096
                <= nth_usable_frame_addr(rest, k2 - c0) && nth_usable_frame_addr(rest, k2 - c0)
                < rest[i].end_frame * 4096;
        assert(rest[i] == regions[i + 1]);
        assert(regions[0].usable && regions[i + 1].usable);
        assert(regions[0].end_frame <= regions[i + 1].start_frame || regions[i + 1].end_frame
            <= regions[0].start_frame);
        assert(regions[0].start_frame * 4096 <= nth_usable_frame_addr(regions, k1)
            < regions[0].end_frame * 4096);
    } else {
        let rest = regions.drop_first();
        assert forall|i: int, j: int|
            0 <= i < j < rest.len() && (#[trigger] rest[i]).usable && (
        #[trigger] rest[j]).usable implies rest[i].end_frame <= rest[j].start_frame
            || rest[j].end_frame <= rest[i].start_frame by {
            assert(rest[i] == regions[i + 1]);
            assert(rest[j] == regions[j + 1]);
        }
        lemma_frames_never_repeat(rest, k1 - c0, k2 - c0);
    }
}

/// The physical frame allocator: the boot memory map and the count of usable
/// frames already handed out.
pub struct BootInfoFrameAllocator {
    /// The boot-time memory map, immutable after construction.
    pub mmap: Vec<MemoryRegion>,
    /// How many usable frames have been handed out so far.
    pub next: u64,
}

impl BootInfoFrameAllocator {
    /// Every region's frame numbers stay within the physical address range.
    pub open spec fn wf(self) -> bool {
        forall|i: int| 0 <= i < self.mmap.len() ==> (#[trigger] self.mmap[i]).end_frame
            <= MAX_FRAME_NUMBER
    }

    /// A fresh allocator over the given memory map, with no frame handed out
    /// yet.
    pub fn new(memory_map: Vec<MemoryRegion>) -> (r: Self)
        ensures
            r.mmap == memory_map,
            r.next == 0,
    {
        BootInfoFrameAllocator { mmap: memory_map, next: 0 }
    }

    /// The byte address of the `k`-th usable frame of the map, if the map
    /// holds that many.
    fn nth_usable(mmap: &Vec<MemoryRegion>, k: u64) -> (r: Option<u64>)
        requires
            forall|i: int| 0 <= i < mmap.len() ==> (#[trigger] mmap[i]).end_frame
                <= MAX_FRAME_NUMBER,
        ensures
            r == spec_frame_result(mmap@, k as int),
    {
        let ghost whole = mmap@;
        let ghost k0 = k as int;
        let mut i: usize = 0;
        let mut remaining: u64 = k;
        proof {
            assert(mmap@.skip(0) =~= mmap@);
        }
        while i < mmap.len()
            invariant
                0 <= i <= mmap.len(),
                forall|t: int| 0 <= t < mmap.len() ==> (#[trigger] mmap@[t]).end_frame
                    <= MAX_FRAME_NUMBER,
                whole == mmap@,
                k0 == k as int,
                spec_frame_result(whole, k0) == spec_frame_result(
                    mmap@.skip(i as int),
                    remaining as int,
                ),
            decreases mmap.len() - i,
        {
            let ghost suffix = mmap@.skip(i as int);
            let region = mmap[i];
            let count: u64 = if region.usable && region.start_frame < region.end_frame {
                region.end_frame - region.start_frame
            } else {
                0
            };
            assert(suffix[0] == region);
            assert(suffix.drop_first() =~= mmap@.skip(i + 1));
            assert(count == region.frame_count());
            if remaining < count {
                proof {
                    lemma_usable_count_nonneg(suffix.drop_first());
                    assert(usable_count(suffix) == count + usable_count(suffix.drop_first()));
                    assert(remaining < usable_count(suffix));
                    assert(nth_usable_frame_addr(suffix, remaining as int) == (region.start_frame
                        + remaining as int) * 4096);
                    assert(region.start_frame + remaining < MAX_FRAME_NUMBER);
                }
                let addr: u64 = (region.start_frame + remaining) * 4096;
                proof {
                    assert(Some(addr) == spec_frame_result(suffix, remaining as int));
                }
                return Some(addr);
            }
            proof {
                assert(usable_count(suffix) == count + usable_count(suffix.drop_first()));
                assert(spec_frame_result(suffix, remaining as int) == spec_frame_result(
                    suffix.drop_first(),
                    remaining - count,
                ));
            }
            remaining = remaining - count;
            i = i + 1;
        }
        proof {
            assert(mmap@.skip(mmap.len() as int).len() == 0);
        }
        None
    }

    /// Hands out the cursor's usable frame and advances the cursor, whether
    /// or not a frame was left: once the map is exhausted, every later call
    /// keeps returning nothing.
    pub fn allocate_frame(&mut self) -> (r: Option<u64>)
        requires
            old(self).wf(),
            old(self).next < u64::MAX,
        ensures
            final(self).mmap == old(self).mmap,
            final(self).next == old(self).next + 1,
            r == spec_frame_result(old(self).mmap@, old(self).next as int),
    {
        let frame = Self::nth_usable(&self.mmap, self.next);
        self.next = self.next + 1;
        frame
    }
}

/// Exhaustion is idempotent: once the map returns no frame for some cursor,
/// it returns no frame for every later cursor — the monotonic cursor never
/// resets.
pub proof fn lemma_exhaustion_idempotent(regions: Seq<MemoryRegion>, n1: int, n2: int)
    requires
        spec_frame_result(regions, n1) is None,
        0 <= n1 <= n2,
    ensures
        spec_frame_result(regions, n2) is None,
{
}

} // verus!
