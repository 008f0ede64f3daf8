//! The kernel heap allocator: fixed size classes served from per-class free
//! lists, backed by a first-fit fallback heap over the mapped heap range.
//!
//! Addresses are modelled as plain 64-bit values over the heap's virtual
//! range. A ghost sequence of live blocks records what has been handed out
//! and not yet freed, so the allocator's central guarantee — no two live
//! blocks ever overlap — is part of its invariant.

use vstd::arithmetic::div_mod::{lemma_fundamental_div_mod, lemma_mod_multiples_basic};
use vstd::arithmetic::power2::{
    lemma2_to64, lemma_pow2_adds, lemma_pow2_pos, lemma_pow2_strictly_increases, pow2,
};
use vstd::prelude::*;

verus! {

/// Base virtual address of the kernel heap region.
pub const HEAP_START: u64 = 0x4444_4444_0000;

/// Size of the kernel heap region in bytes.
pub const HEAP_SIZE: u64 = 100 * 1024;

/// Number of size classes.
pub const NUM_CLASSES: usize = 9;

/// The byte size (and required alignment) of size class `k`: the ascending
/// powers of two from 8 to 2048.
pub open spec fn spec_block_size(k: int) -> int {
    if k == 0 {
        8
    } else if k == 1 {
        16
    } else if k == 2 {
        32
    } else if k == 3 {
        64
    } else if k == 4 {
        128
    } else if k == 5 {
        256
    } else if k == 6 {
        512
    } else if k == 7 {
        1024
    } else if k == 8 {
        2048
    } else {
        0
    }
}

/// The byte size (and required alignment) of size class `k`.
pub fn block_size(k: usize) -> (r: u64)
    requires
        k < NUM_CLASSES,
    ensures
        r == spec_block_size(k as int),
{
    if k == 0 {
        8
    } else if k == 1 {
        16
    } else if k == 2 {
        32
    } else if k == 3 {
        64
    } else if k == 4 {
        128
    } else if k == 5 {
        256
    } else if k == 6 {
        512
    } else if k == 7 {
        1024
    } else {
        2048
    }
}

/// What a request must fit: the larger of its size and its alignment.
pub open spec fn spec_required(size: u64, align: u64) -> int {
    if size >= align {
        size as int
    } else {
        align as int
    }
}

/// The smallest size class that holds the request, if any class does.
pub open spec fn spec_list_index(size: u64, align: u64) -> Option<int> {
    let required = spec_required(size, align);
    if required <= 8 {
        Some(0)
    } else if required <= 16 {
        Some(1)
    } else if required <= 32 {
        Some(2)
    } else if required <= 64 {
        Some(3)
    } else if required <= 128 {
        Some(4)
    } else if required <= 256 {
        Some(5)
    } else if required <= 512 {
        Some(6)
    } else if required <= 1024 {
        Some(7)
    } else if required <= 2048 {
        Some(8)
    } else {
        None
    }
}

/// The smallest size class whose size is at least `max(size, align)`, or
/// nothing when the request exceeds the largest class.
pub fn list_index(size: u64, align: u64) -> (r: Option<usize>)
    ensures
        match r {
            Some(k) => k < NUM_CLASSES && spec_list_index(size, align) == Some(k as int),
            None => spec_list_index(size, align) is None,
        },
{
    let required = if size >= align {
        size
    } else {
        align
    };
    if required <= 8 {
        Some(0)
    } else if required <= 16 {
        Some(1)
    } else if required <= 32 {
        Some(2)
    } else if required <= 64 {
        Some(3)
    } else if required <= 128 {
        Some(4)
    } else if required <= 256 {
        Some(5)
    } else if required <= 512 {
        Some(6)
    } else if required <= 1024 {
        Some(7)
    } else if required <= 2048 {
        Some(8)
    } else {
        None
    }
}

/// A power of two below 2^64.
pub open spec fn is_power_of_two(n: int) -> bool {
    exists|j: nat| j < 64 && n == pow2(j)
}

/// A smaller power of two divides a larger one.
pub proof fn lemma_pow2_divides(a: int, b: int)
    requires
        is_power_of_two(a),
        is_power_of_two(b),
        a <= b,
    ensures
        b % a == 0,
{
    let ja = choose|j: nat| j < 64 && a == pow2(j);
    let jb = choose|j: nat| j < 64 && b == pow2(j);
    if jb < ja {
        lemma_pow2_strictly_increases(jb, ja);
    }
    assert(ja <= jb);
    lemma_pow2_pos(ja);
    lemma_pow2_adds(ja, (jb - ja) as nat);
    assert(b == pow2(ja) * pow2((jb - ja) as nat));
    lemma_mod_multiples_basic(pow2((jb - ja) as nat) as int, a);
    assert(pow2((jb - ja) as nat) * a == b) by (nonlinear_arith)
        requires
            a == pow2(ja),
            b == pow2(ja) * pow2((jb - ja) as nat),
    ;
}

/// Divisibility is transitive: what is a multiple of `b` is a multiple of
/// every divisor of `b`.
pub proof fn lemma_divides_transitive(x: int, b: int, a: int)
    requires
        a >= 1,
        b >= 1,
        x % b == 0,
        b % a == 0,
    ensures
        x % a == 0,
{
    lemma_fundamental_div_mod(x, b);
    lemma_fundamental_div_mod(b, a);
    let q1 = x / b;
    let q2 = b / a;
    assert(x == (q1 * q2) * a) by (nonlinear_arith)
        requires
            x == b * q1,
            b == a * q2,
    ;
    lemma_mod_multiples_basic(q1 * q2, a);
}

/// Every size class is a power of two.
pub proof fn lemma_block_size_pow2(k: int)
    requires
        0 <= k < NUM_CLASSES,
    ensures
        is_power_of_two(spec_block_size(k)),
{
    lemma2_to64();
    assert(spec_block_size(k) == pow2((k + 3) as nat));
}

/// The smallest address at or above `a` with the given alignment.
pub open spec fn spec_align_up(a: int, align: int) -> int {
    if a % align == 0 {
        a
    } else {
        a + (align - a % align)
    }
}

/// Aligning up yields an aligned address at or above the start.
pub proof fn lemma_align_up(a: int, align: int)
    requires
        a >= 0,
        align >= 1,
    ensures
        spec_align_up(a, align) % align == 0,
        a <= spec_align_up(a, align) < a + align,
{
    lemma_fundamental_div_mod(a, align);
    let q = a / align;
    if a % align != 0 {
        assert(spec_align_up(a, align) == (q + 1) * align) by (nonlinear_arith)
            requires
                a == align * q + a % align,
                spec_align_up(a, align) == a + (align - a % align),
        ;
        lemma_mod_multiples_basic(q + 1, align);
    }
}

/// One free block of the fallback heap.
#[derive(Debug, Clone, Copy, PartialEq, Eq, Structural)]
pub struct Hole {
    /// First byte of the free block.
    pub addr: u64,
    /// Length of the free block in bytes.
    pub size: u64,
}

/// Two byte ranges do not overlap.
pub open spec fn spec_disjoint(a1: int, s1: int, a2: int, s2: int) -> bool {
    a1 + s1 <= a2 || a2 + s2 <= a1
}

/// The first-fit fallback heap: an ordered list of free blocks over the
/// backing byte range `[bottom, top)`.
pub struct FallbackHeap {
    /// First byte of the backing range.
    pub bottom: u64,
    /// One past the last byte of the backing range.
    pub top: u64,
    /// The free blocks, ascending and disjoint.
    pub holes: Vec<Hole>,
}

impl FallbackHeap {
    /// Free blocks are non-empty, lie inside the backing range, and run in
    /// ascending order without overlapping.
    pub open spec fn wf(self) -> bool {
        &&& self.bottom <= self.top
        &&& (forall|i: int|
            0 <= i < self.holes.len() ==> (#[trigger] self.holes@[i]).size > 0 && self.bottom
                <= self.holes@[i].addr && self.holes@[i].addr + self.holes@[i].size <= self.top)
        &&& (forall|i: int|
            0 <= i && i + 1 < self.holes.len() ==> (#[trigger] self.holes@[i]).addr
                + self.holes@[i].size <= self.holes@[i + 1].addr)
    }

    /// An earlier free block ends at or before a later one begins.
    pub proof fn lemma_holes_ordered(self, i: int, j: int)
        requires
            self.wf(),
            0 <= i < j < self.holes.len(),
        ensures
            self.holes@[i].addr + self.holes@[i].size <= self.holes@[j].addr,
        decreases j - i,
    {
        if i + 1 < j {
            self.lemma_holes_ordered(i, j - 1);
        }
    }

    /// A heap over nothing: the empty range with no free block.
    pub fn empty() -> (r: Self)
        ensures
            r.bottom == 0,
            r.top == 0,
            r.holes@ =~= Seq::<Hole>::empty(),
            r.wf(),
    {
        FallbackHeap { bottom: 0, top: 0, holes: Vec::new() }
    }

    /// Initializes the heap over `[bottom, bottom + size)`, all of it free.
    /// The heap must still be empty: initialization happens exactly once.
    pub fn init(&mut self, bottom: u64, size: u64)
        requires
            old(self).holes@.len() == 0,
            size >= 1,
            bottom + size <= u64::MAX,
        ensures
            final(self).bottom == bottom,
            final(self).top == bottom + size,
            final(self).holes@ =~= seq![Hole { addr: bottom, size }],
            final(self).wf(),
    {
        self.bottom = bottom;
        self.top = bottom + size;
        self.holes.push(Hole { addr: bottom, size });
    }
}

/// Whether an aligned block of `size` bytes fits inside the free block.
pub open spec fn spec_hole_fits(h: Hole, size: int, align: int) -> bool {
    spec_align_up(h.addr as int, align) + size <= h.addr + h.size
}

/// The first free block the request fits into, if any.
pub open spec fn spec_first_fit(holes: Seq<Hole>, size: int, align: int) -> Option<int>
    decreases holes.len(),
{
    if holes.len() == 0 {
        None
    } else if spec_hole_fits(holes[0], size, align) {
        Some(0)
    } else {
        match spec_first_fit(holes.drop_first(), size, align) {
            Some(i) => Some(i + 1),
            None => None,
        }
    }
}

/// What is left of a free block after carving the aligned request out of
/// its front: the padding before the aligned start, if any, and the rest
/// beyond the request, if any.
pub open spec fn spec_leftover(h: Hole, size: int, align: int) -> Seq<Hole> {
    let astart = spec_align_up(h.addr as int, align);
    let front: Seq<Hole> = if astart > h.addr {
        seq![Hole { addr: h.addr, size: (astart - h.addr) as u64 }]
    } else {
        Seq::empty()
    };
    let back: Seq<Hole> = if astart + size < h.addr + h.size {
        seq![
            Hole {
                addr: (astart + size) as u64,
                size: (h.addr + h.size - (astart + size)) as u64,
            },
        ]
    } else {
        Seq::empty()
    };
    front + back
}

/// How one fallback allocation transforms the heap: on the first fitting
/// free block, the aligned start is handed out and the block is replaced by
/// its leftover; with no fitting block nothing changes and nothing is
/// returned.
pub open spec fn spec_fallback_alloc(
    h1: FallbackHeap,
    h2: FallbackHeap,
    size: int,
    align: int,
    r: Option<u64>,
) -> bool {
    &&& h2.bottom == h1.bottom
    &&& h2.top == h1.top
    &&& match spec_first_fit(h1.holes@, size, align) {
        None => r is None && h2.holes@ == h1.holes@,
        Some(i) => {
            &&& r == Some(spec_align_up(h1.holes@[i].addr as int, align) as u64)
            &&& h2.holes@ == h1.holes@.take(i) + spec_leftover(h1.holes@[i], size, align)
                + h1.holes@.skip(i + 1)
        },
    }
}

/// The position at which a freed block of the given address is inserted to
/// keep the free list ascending.
pub open spec fn spec_insert_pos(holes: Seq<Hole>, addr: int) -> int
    decreases holes.len(),
{
    if holes.len() == 0 {
        0
    } else if addr < holes[0].addr {
        0
    } else {
        1 + spec_insert_pos(holes.drop_first(), addr)
    }
}

/// The insertion position is a valid position of the free list.
pub proof fn lemma_insert_pos_bounds(holes: Seq<Hole>, addr: int)
    ensures
        0 <= spec_insert_pos(holes, addr) <= holes.len(),
    decreases holes.len(),
{
    if holes.len() > 0 && !(addr < holes[0].addr) {
        lemma_insert_pos_bounds(holes.drop_first(), addr);
    }
}

/// How one fallback deallocation transforms the heap: the freed block
/// becomes a free block at its ascending position.
pub open spec fn spec_fallback_free(h1: FallbackHeap, h2: FallbackHeap, addr: u64, size: u64) -> bool {
    &&& h2.bottom == h1.bottom
    &&& h2.top == h1.top
    &&& h2.holes@ == h1.holes@.insert(
        spec_insert_pos(h1.holes@, addr as int),
        Hole { addr, size },
    )
}

impl FallbackHeap {
    /// Hands out the first-fitting aligned block of `size` bytes, replacing
    /// the free block it was carved from by the leftover; returns nothing —
    /// and changes nothing — when no free block fits.
    #[verifier::rlimit(100)]
    #[verifier::spinoff_prover]
    pub fn allocate_first_fit(&mut self, size: u64, align: u64) -> (r: Option<u64>)
        requires
            old(self).wf(),
            size >= 1,
            align >= 1,
        ensures
            final(self).wf(),
            spec_fallback_alloc(*old(self), *final(self), size as int, align as int, r),
            r is Some ==> {
                let i = spec_first_fit(old(self).holes@, size as int, align as int)->Some_0;
                let h = old(self).holes@[i];
                &&& r->Some_0 % align == 0
                &&& h.addr <= r->Some_0
                &&& r->Some_0 + size <= h.addr + h.size
                &&& old(self).bottom <= r->Some_0
                &&& r->Some_0 + size <= old(self).top
            },
    {
        let ghost whole = self.holes@;
        let mut i: usize = 0;
        let mut found: bool = false;
        proof {
            assert(whole.skip(0) =~= whole);
        }
        while !found && i < self.holes.len()
            invariant
                self.wf(),
                whole == self.holes@,
                i <= self.holes.len(),
                size >= 1,
                align >= 1,
                !found ==> spec_first_fit(whole, size as int, align as int) == (
                match spec_first_fit(whole.skip(i as int), size as int, align as int) {
                    Some(k) => Some(k + i),
                    None => None::<int>,
                }),
                found ==> i < self.holes.len() && spec_first_fit(whole, size as int, align as int)
                    == Some(i as int) && spec_hole_fits(whole[i as int], size as int, align as int),
            decreases (if found { 0int } else { 1int }), self.holes.len() - i,
        {
            let ghost suffix = whole.skip(i as int);
            let h = self.holes[i];
            proof {
                assert(suffix[0] == h);
                assert(suffix.drop_first() =~= whole.skip(i + 1));
            }
            let rem = h.addr % align;
            let pad: u64 = if rem == 0 {
                0
            } else {
                align - rem
            };
            proof {
                lemma_align_up(h.addr as int, align as int);
                assert(spec_align_up(h.addr as int, align as int) == h.addr + pad);
            }
            let fits: bool = if pad > u64::MAX - h.addr {
                proof {
                    assert(h.addr + h.size <= u64::MAX);
                }
                false
            } else {
                let astart = h.addr + pad;
                astart <= h.addr + (h.size - 1) && size <= h.addr + h.size - astart
            };
            proof {
                assert(fits == spec_hole_fits(h, size as int, align as int));
            }
            if fits {
                found = true;
            } else {
                i = i + 1;
            }
        }
        if !found {
            proof {
                assert(whole.skip(self.holes.len() as int).len() == 0);
                assert(spec_first_fit(whole, size as int, align as int) is None);
            }
            return None;
        }
        let ghost fi = i as int;
        let h = self.holes[i];
        let rem = h.addr % align;
        let pad: u64 = if rem == 0 {
            0
        } else {
            align - rem
        };
        proof {
            lemma_align_up(h.addr as int, align as int);
            assert(spec_hole_fits(h, size as int, align as int));
            assert(spec_align_up(h.addr as int, align as int) == h.addr + pad);
        }
        let astart: u64 = h.addr + pad;
        self.holes.remove(i);
        let mut ins: usize = i;
        if pad > 0 {
            self.holes.insert(ins, Hole { addr: h.addr, size: pad });
            ins = ins + 1;
        }
        if astart + size < h.addr + h.size {
            self.holes.insert(
                ins,
                Hole { addr: astart + size, size: h.addr + h.size - (astart + size) },
            );
        }
        proof {
            let leftover = spec_leftover(h, size as int, align as int);
            assert(self.holes@ =~= whole.take(fi) + leftover + whole.skip(fi + 1)) by {
                assert(whole.remove(fi) =~= whole.take(fi) + whole.skip(fi + 1));
            }
            assert forall|x: int| 0 <= x < self.holes@.len() implies (
            #[trigger] self.holes@[x]).size > 0 && self.bottom <= self.holes@[x].addr
                && self.holes@[x].addr + self.holes@[x].size <= self.top by {
                if x < fi {
                    assert(self.holes@[x] == whole[x]);
                } else if x < fi + leftover.len() {
                    assert(leftover.contains(self.holes@[x]));
                } else {
                    assert(self.holes@[x] == whole[x - leftover.len() + 1]);
                }
            }
            assert forall|x: int| 0 <= x && x + 1 < self.holes@.len() implies (
            #[trigger] self.holes@[x]).addr + self.holes@[x].size <= self.holes@[x + 1].addr by {
                let ll = leftover.len() as int;
                if x + 1 < fi {
                } else if x + 1 == fi {
                    if ll > 0 {
                        assert(self.holes@[x] == whole[x]);
                        assert(self.holes@[x + 1] == leftover[0]);
                    } else {
                        assert(self.holes@[x] == whole[x]);
                        assert(self.holes@[x + 1] == whole[fi + 1]);
                        Self::lemma_holes_ordered(*old(self), fi, fi + 1);
                    }
                } else if x + 1 < fi + ll {
                    assert(self.holes@[x] == leftover[x - fi]);
                    assert(self.holes@[x + 1] == leftover[x + 1 - fi]);
                } else if x + 1 == fi + ll {
                    if ll > 0 {
                        assert(self.holes@[x] == leftover[ll - 1]);
                        assert(self.holes@[x + 1] == whole[fi + 1]);
                    } else {
                        Self::lemma_holes_ordered(*old(self), x, x + 1);
                    }
                } else {
                    assert(self.holes@[x] == whole[x - ll + 1]);
                    assert(self.holes@[x + 1] == whole[x + 2 - ll]);
                }
            }
        }
        Some(astart)
    }

    /// Returns a block to the heap as a free block at its ascending
    /// position. The block must lie in the backing range and overlap no
    /// free block — it must be a block the heap handed out.
    pub fn deallocate(&mut self, addr: u64, size: u64)
        requires
            old(self).wf(),
            size >= 1,
            old(self).bottom <= addr,
            addr + size <= old(self).top,
            forall|i: int|
                0 <= i < old(self).holes@.len() ==> spec_disjoint(
                    addr as int,
                    size as int,
                    (#[trigger] old(self).holes@[i]).addr as int,
                    old(self).holes@[i].size as int,
                ),
        ensures
            final(self).wf(),
            spec_fallback_free(*old(self), *final(self), addr, size),
    {
        let ghost whole = self.holes@;
        let mut i: usize = 0;
        proof {
            assert(whole.skip(0) =~= whole);
        }
        while i < self.holes.len() && self.holes[i].addr < addr
            invariant
                self.wf(),
                whole == self.holes@,
                i <= self.holes.len(),
                spec_insert_pos(whole, addr as int) == i + spec_insert_pos(
                    whole.skip(i as int),
                    addr as int,
                ),
                forall|t: int| 0 <= t < i ==> (#[trigger] whole[t]).addr < addr,
            decreases self.holes.len() - i,
        {
            let ghost suffix = whole.skip(i as int);
            proof {
                assert(suffix[0] == whole[i as int]);
                assert(suffix.drop_first() =~= whole.skip(i + 1));
                assert(!(addr < suffix[0].addr));
            }
            i = i + 1;
        }
        proof {
            let suffix = whole.skip(i as int);
            if i < whole.len() {
                assert(suffix[0] == whole[i as int]);
                assert(addr as int != whole[i as int].addr);
                assert(addr < suffix[0].addr);
                assert(spec_insert_pos(suffix, addr as int) == 0);
            } else {
                assert(suffix.len() == 0);
            }
            assert(spec_insert_pos(whole, addr as int) == i);
        }
        self.holes.insert(i, Hole { addr, size });
        proof {
            let p = i as int;
            assert forall|x: int| 0 <= x && x + 1 < self.holes@.len() implies (
            #[trigger] self.holes@[x]).addr + self.holes@[x].size <= self.holes@[x + 1].addr by {
                if x + 1 < p {
                } else if x + 1 == p {
                    assert(self.holes@[x] == whole[x]);
                    assert(whole[x].addr < addr);
                    assert(spec_disjoint(addr as int, size as int, whole[x].addr as int, whole[x].size as int));
                } else if x == p {
                    assert(self.holes@[x + 1] == whole[x]);
                    assert(!(whole[x].addr < addr));
                    assert(spec_disjoint(addr as int, size as int, whole[x].addr as int, whole[x].size as int));
                } else {
                }
            }
        }
    }
}

/// A first-fit index is a valid index of a fitting free block.
pub proof fn lemma_first_fit_bounds(holes: Seq<Hole>, size: int, align: int)
    ensures
        match spec_first_fit(holes, size, align) {
            Some(i) => 0 <= i < holes.len() && spec_hole_fits(holes[i], size, align),
            None => true,
        },
    decreases holes.len(),
{
    if holes.len() > 0 && !spec_hole_fits(holes[0], size, align) {
        lemma_first_fit_bounds(holes.drop_first(), size, align);
    }
}

/// A power of two is at least one.
pub proof fn lemma_pow2_ge_one(a: int)
    requires
        is_power_of_two(a),
    ensures
        a >= 1,
{
    let j = choose|j: nat| j < 64 && a == pow2(j);
    lemma_pow2_pos(j);
}

/// A byte range disjoint from every free block before an allocation is
/// disjoint from every free block after it: the allocation only shrinks
/// the free space.
pub proof fn lemma_alloc_keeps_distance(
    h1: FallbackHeap,
    h2: FallbackHeap,
    size: int,
    align: int,
    a: u64,
    raddr: int,
    rsize: int,
    x: int,
)
    requires
        h1.wf(),
        size >= 1,
        align >= 1,
        spec_fallback_alloc(h1, h2, size, align, Some(a)),
        forall|y: int|
            0 <= y < h1.holes@.len() ==> spec_disjoint(
                raddr,
                rsize,
                (#[trigger] h1.holes@[y]).addr as int,
                h1.holes@[y].size as int,
            ),
        0 <= x < h2.holes@.len(),
    ensures
        spec_disjoint(raddr, rsize, h2.holes@[x].addr as int, h2.holes@[x].size as int),
{
    lemma_first_fit_bounds(h1.holes@, size, align);
    let fi = spec_first_fit(h1.holes@, size, align)->Some_0;
    let h = h1.holes@[fi];
    let leftover = spec_leftover(h, size, align);
    let ll = leftover.len() as int;
    if x < fi {
        assert(h2.holes@[x] == h1.holes@[x]);
    } else if x < fi + ll {
        assert(h2.holes@[x] == leftover[x - fi]);
        lemma_align_up(h.addr as int, align);
        assert(spec_disjoint(raddr, rsize, h.addr as int, h.size as int));
    } else {
        assert(h2.holes@[x] == h1.holes@[x - ll + 1]);
    }
}

/// The block an allocation hands out overlaps no free block left behind:
/// the leftover pieces sit on either side of it, and every other free
/// block keeps its distance through the free list's ordering.
pub proof fn lemma_alloc_block_clear(
    h1: FallbackHeap,
    h2: FallbackHeap,
    size: int,
    align: int,
    a: u64,
    x: int,
)
    requires
        h1.wf(),
        size >= 1,
        align >= 1,
        spec_fallback_alloc(h1, h2, size, align, Some(a)),
        0 <= x < h2.holes@.len(),
    ensures
        spec_disjoint(a as int, size, h2.holes@[x].addr as int, h2.holes@[x].size as int),
{
    lemma_first_fit_bounds(h1.holes@, size, align);
    let fi = spec_first_fit(h1.holes@, size, align)->Some_0;
    let h = h1.holes@[fi];
    let leftover = spec_leftover(h, size, align);
    let ll = leftover.len() as int;
    lemma_align_up(h.addr as int, align);
    if x < fi {
        assert(h2.holes@[x] == h1.holes@[x]);
        h1.lemma_holes_ordered(x, fi);
    } else if x < fi + ll {
        assert(h2.holes@[x] == leftover[x - fi]);
    } else {
        assert(h2.holes@[x] == h1.holes@[x - ll + 1]);
        h1.lemma_holes_ordered(fi, x - ll + 1);
    }
}

/// One block the allocator has handed out and not yet taken back: its
/// address, its granted size, and its granted alignment.
pub struct LiveBlock {
    /// First byte of the block.
    pub addr: int,
    /// Granted size of the block in bytes.
    pub size: int,
    /// Granted alignment of the block.
    pub align: int,
}

/// The size actually granted for a request: the class size when a class
/// applies, the requested size otherwise.
pub open spec fn spec_granted_size(size: u64, align: u64) -> int {
    match spec_list_index(size, align) {
        Some(k) => spec_block_size(k),
        None => size as int,
    }
}

/// The alignment actually granted for a request: the class size when a
/// class applies, the requested alignment otherwise.
pub open spec fn spec_granted_align(size: u64, align: u64) -> int {
    match spec_list_index(size, align) {
        Some(k) => spec_block_size(k),
        None => align as int,
    }
}

/// The size-classed heap allocator: one free list of block addresses per
/// size class, the first-fit fallback heap, and the ghost record of live
/// blocks.
pub struct FixedSizeBlockAllocator {
    /// Per-class free lists of block addresses; the end of each vector is
    /// the head of the list.
    pub list: Vec<Vec<u64>>,
    /// The first-fit fallback heap.
    pub fallback: FallbackHeap,
    /// The blocks handed out and not yet freed.
    pub live: Ghost<Seq<LiveBlock>>,
}

impl FixedSizeBlockAllocator {
    /// The free list of class `k`, as a sequence of block addresses.
    pub open spec fn class_list(self, k: int) -> Seq<u64> {
        self.list@[k]@
    }

    /// Every block on a class list is class-aligned and lies, class-sized,
    /// inside the heap range.
    pub open spec fn class_blocks_wf(self) -> bool {
        forall|k: int, i: int|
            0 <= k < NUM_CLASSES && 0 <= i < self.class_list(k).len() ==> ((
            #[trigger] self.class_list(k)[i]) as int % spec_block_size(k) == 0
                && self.fallback.bottom <= self.class_list(k)[i] && self.class_list(k)[i]
                + spec_block_size(k) <= self.fallback.top)
    }

    /// No two distinct free-list blocks overlap.
    pub open spec fn class_class_disjoint(self) -> bool {
        forall|k1: int, i1: int, k2: int, i2: int|
            0 <= k1 < NUM_CLASSES && 0 <= i1 < self.class_list(k1).len() && 0 <= k2 < NUM_CLASSES
                && 0 <= i2 < self.class_list(k2).len() && (k1 != k2 || i1 != i2)
                ==> spec_disjoint(
                (#[trigger] self.class_list(k1)[i1]) as int,
                spec_block_size(k1),
                (#[trigger] self.class_list(k2)[i2]) as int,
                spec_block_size(k2),
            )
    }

    /// No free-list block overlaps a fallback free block.
    pub open spec fn class_hole_disjoint(self) -> bool {
        forall|k: int, i: int, x: int|
            0 <= k < NUM_CLASSES && 0 <= i < self.class_list(k).len() && 0 <= x
                < self.fallback.holes@.len() ==> spec_disjoint(
                (#[trigger] self.class_list(k)[i]) as int,
                spec_block_size(k),
                (#[trigger] self.fallback.holes@[x]).addr as int,
                self.fallback.holes@[x].size as int,
            )
    }

    /// Every live block is non-empty, granted a power-of-two alignment it
    /// observes, and lies inside the heap range.
    pub open spec fn live_wf(self) -> bool {
        forall|b: int|
            0 <= b < self.live@.len() ==> ((#[trigger] self.live@[b]).size >= 1
                && is_power_of_two(self.live@[b].align) && self.live@[b].addr % self.live@[b].align
                == 0 && self.fallback.bottom <= self.live@[b].addr && self.live@[b].addr
                + self.live@[b].size <= self.fallback.top)
    }

    /// No two distinct live blocks overlap: what the allocator has handed
    /// out and not taken back never aliases.
    pub open spec fn live_live_disjoint(self) -> bool {
        forall|b1: int, b2: int|
            0 <= b1 < b2 < self.live@.len() ==> spec_disjoint(
                (#[trigger] self.live@[b1]).addr,
                self.live@[b1].size,
                (#[trigger] self.live@[b2]).addr,
                self.live@[b2].size,
            )
    }

    /// No live block overlaps a fallback free block.
    pub open spec fn live_hole_disjoint(self) -> bool {
        forall|b: int, x: int|
            0 <= b < self.live@.len() && 0 <= x < self.fallback.holes@.len() ==> spec_disjoint(
                (#[trigger] self.live@[b]).addr,
                self.live@[b].size,
                (#[trigger] self.fallback.holes@[x]).addr as int,
                self.fallback.holes@[x].size as int,
            )
    }

    /// No live block overlaps a free-list block.
    pub open spec fn live_class_disjoint(self) -> bool {
        forall|b: int, k: int, i: int|
            0 <= b < self.live@.len() && 0 <= k < NUM_CLASSES && 0 <= i < self.class_list(
                k,
            ).len() ==> spec_disjoint(
                (#[trigger] self.live@[b]).addr,
                self.live@[b].size,
                (#[trigger] self.class_list(k)[i]) as int,
                spec_block_size(k),
            )
    }

    /// The allocator's invariant: one list per class, a well-formed
    /// fallback, well-formed blocks, and no overlap anywhere among free
    /// blocks, free-list blocks and live blocks.
    pub open spec fn wf(self) -> bool {
        &&& self.list@.len() == NUM_CLASSES
        &&& self.fallback.wf()
        &&& self.class_blocks_wf()
        &&& self.class_class_disjoint()
        &&& self.class_hole_disjoint()
        &&& self.live_wf()
        &&& self.live_live_disjoint()
        &&& self.live_hole_disjoint()
        &&& self.live_class_disjoint()
    }

    /// The invariant reads an allocator only through its class lists, its
    /// heap range, its free blocks and its live blocks, so two allocators
    /// that agree on those are well formed together.
    pub proof fn lemma_wf_congruence(pre: Self, post: Self)
        requires
            pre.wf(),
            post.list@.len() == NUM_CLASSES,
            forall|k: int|
                0 <= k < NUM_CLASSES ==> #[trigger] post.class_list(k) == pre.class_list(k),
            post.fallback.bottom == pre.fallback.bottom,
            post.fallback.top == pre.fallback.top,
            post.fallback.holes@ == pre.fallback.holes@,
            post.fallback.wf(),
            post.live@ == pre.live@,
        ensures
            post.wf(),
    {
        assert forall|k: int, i: int|
            0 <= k < NUM_CLASSES && 0 <= i < post.class_list(k).len() implies ((
        #[trigger] post.class_list(k)[i]) as int % spec_block_size(k) == 0 && post.fallback.bottom
            <= post.class_list(k)[i] && post.class_list(k)[i] + spec_block_size(k)
            <= post.fallback.top) by {
            assert(post.class_list(k) == pre.class_list(k));
            assert(pre.class_list(k)[i] == post.class_list(k)[i]);
        }
        assert forall|k1: int, i1: int, k2: int, i2: int|
            0 <= k1 < NUM_CLASSES && 0 <= i1 < post.class_list(k1).len() && 0 <= k2 < NUM_CLASSES
                && 0 <= i2 < post.class_list(k2).len() && (k1 != k2 || i1 != i2) implies
        spec_disjoint(
            (#[trigger] post.class_list(k1)[i1]) as int,
            spec_block_size(k1),
            (#[trigger] post.class_list(k2)[i2]) as int,
            spec_block_size(k2),
        ) by {
            assert(pre.class_list(k1)[i1] == post.class_list(k1)[i1]);
            assert(pre.class_list(k2)[i2] == post.class_list(k2)[i2]);
        }
        assert forall|k: int, i: int, x: int|
            0 <= k < NUM_CLASSES && 0 <= i < post.class_list(k).len() && 0 <= x
                < post.fallback.holes@.len() implies spec_disjoint(
            (#[trigger] post.class_list(k)[i]) as int,
            spec_block_size(k),
            (#[trigger] post.fallback.holes@[x]).addr as int,
            post.fallback.holes@[x].size as int,
        ) by {
            assert(pre.class_list(k)[i] == post.class_list(k)[i]);
            assert(pre.fallback.holes@[x] == post.fallback.holes@[x]);
        }
        assert(post.live_wf());
        assert(post.live_live_disjoint());
        assert forall|b: int, x: int|
            0 <= b < post.live@.len() && 0 <= x < post.fallback.holes@.len() implies spec_disjoint(
            (#[trigger] post.live@[b]).addr,
            post.live@[b].size,
            (#[trigger] post.fallback.holes@[x]).addr as int,
            post.fallback.holes@[x].size as int,
        ) by {
            assert(pre.live@[b] == post.live@[b]);
            assert(pre.fallback.holes@[x] == post.fallback.holes@[x]);
        }
        assert forall|b: int, k: int, i: int|
            0 <= b < post.live@.len() && 0 <= k < NUM_CLASSES && 0 <= i < post.class_list(
                k,
            ).len() implies spec_disjoint(
            (#[trigger] post.live@[b]).addr,
            post.live@[b].size,
            (#[trigger] post.class_list(k)[i]) as int,
            spec_block_size(k),
        ) by {
            assert(pre.live@[b] == post.live@[b]);
            assert(pre.class_list(k)[i] == post.class_list(k)[i]);
        }
    }

    /// A fresh allocator: empty class lists over an empty fallback heap.
    pub fn new() -> (r: Self)
        ensures
            r.wf(),
            r.list@.len() == NUM_CLASSES,
            forall|k: int| 0 <= k < NUM_CLASSES ==> #[trigger] r.class_list(k).len() == 0,
            r.fallback.bottom == 0,
            r.fallback.top == 0,
            r.fallback.holes@.len() == 0,
            r.live@.len() == 0,
    {
        let mut list: Vec<Vec<u64>> = Vec::new();
        let mut k: usize = 0;
        while k < NUM_CLASSES
            invariant
                k <= NUM_CLASSES,
                list.len() == k,
                forall|k2: int| 0 <= k2 < k ==> #[trigger] list@[k2]@.len() == 0,
            decreases NUM_CLASSES - k,
        {
            list.push(Vec::new());
            k = k + 1;
        }
        FixedSizeBlockAllocator { list, fallback: FallbackHeap::empty(), live: Ghost(Seq::empty()) }
    }

    /// Hands the heap's backing byte range to the fallback heap. To be
    /// called exactly once, on a fresh allocator, after the range has been
    /// mapped.
    pub fn init(&mut self, heap_start: u64, heap_size: u64)
        requires
            old(self).wf(),
            forall|k: int| 0 <= k < NUM_CLASSES ==> #[trigger] old(self).class_list(k).len() == 0,
            old(self).live@.len() == 0,
            old(self).fallback.holes@.len() == 0,
            heap_size >= 1,
            heap_start + heap_size <= u64::MAX,
        ensures
            final(self).wf(),
            final(self).fallback.bottom == heap_start,
            final(self).fallback.top == heap_start + heap_size,
            final(self).fallback.holes@ =~= seq![Hole { addr: heap_start, size: heap_size }],
            forall|k: int| 0 <= k < NUM_CLASSES ==> #[trigger] final(self).class_list(k).len() == 0,
            final(self).live@.len() == 0,
    {
        self.fallback.init(heap_start, heap_size);
        proof {
            assert forall|k: int| 0 <= k < NUM_CLASSES implies #[trigger] self.class_list(k).len()
                == 0 by {
                assert(old(self).class_list(k).len() == 0);
            }
            assert(self.wf());
        }
    }

    /// Serves a request straight from the fallback heap and records the
    /// block handed out.
    #[verifier::rlimit(100)]
    #[verifier::spinoff_prover]
    fn fallback_alloc(&mut self, size: u64, align: u64) -> (r: Option<u64>)
        requires
            old(self).wf(),
            size >= 1,
            is_power_of_two(align as int),
        ensures
            final(self).wf(),
            forall|k2: int|
                0 <= k2 < NUM_CLASSES ==> #[trigger] final(self).class_list(k2) == old(
                    self,
                ).class_list(k2),
            final(self).list@.len() == NUM_CLASSES,
            spec_fallback_alloc(old(self).fallback, final(self).fallback, size as int, align as int, r),
            r is Some ==> final(self).live@ == old(self).live@.push(
                LiveBlock { addr: r->Some_0 as int, size: size as int, align: align as int },
            ),
            r is None ==> final(self).live@ == old(self).live@,
            r is Some ==> (r->Some_0 as int % align as int == 0 && old(self).fallback.bottom
                <= r->Some_0 && r->Some_0 + size <= old(self).fallback.top),
    {
        let ghost pre = *self;
        proof {
            lemma_pow2_ge_one(align as int);
            lemma_first_fit_bounds(self.fallback.holes@, size as int, align as int);
        }
        let r = self.fallback.allocate_first_fit(size, align);
        match r {
            None => {
                proof {
                    Self::lemma_wf_congruence(pre, *self);
                }
                r
            },
            Some(a) => {
                proof {
                    let fi = spec_first_fit(pre.fallback.holes@, size as int, align as int)->Some_0;
                    let h = pre.fallback.holes@[fi];
                    let nb = LiveBlock { addr: a as int, size: size as int, align: align as int };
                    self.live = Ghost(pre.live@.push(nb));
                    // the handed-out block lies inside the carved free block
                    assert(h.addr <= a as int && a as int + size <= h.addr + h.size);
                    // live well-formedness of the new block
                    assert(pre.fallback.bottom <= h.addr && h.addr + h.size <= pre.fallback.top);
                    // new block disjoint from old live blocks, class blocks:
                    // each was disjoint from the carved free block
                    assert forall|b: int| 0 <= b < pre.live@.len() implies spec_disjoint(
                        (#[trigger] pre.live@[b]).addr,
                        pre.live@[b].size,
                        a as int,
                        size as int,
                    ) by {
                        assert(spec_disjoint(
                            pre.live@[b].addr,
                            pre.live@[b].size,
                            h.addr as int,
                            h.size as int,
                        ));
                    }
                    assert forall|k: int, i: int|
                        0 <= k < NUM_CLASSES && 0 <= i < pre.class_list(k).len() implies
                    spec_disjoint(
                        (#[trigger] pre.class_list(k)[i]) as int,
                        spec_block_size(k),
                        a as int,
                        size as int,
                    ) by {
                        assert(spec_disjoint(
                            pre.class_list(k)[i] as int,
                            spec_block_size(k),
                            h.addr as int,
                            h.size as int,
                        ));
                    }
                    // old free blocks other than the carved one, and old
                    // blocks generally, keep their distances
                    assert forall|k: int, i: int|
                        0 <= k < NUM_CLASSES && 0 <= i < self.class_list(k).len() implies ((
                    #[trigger] self.class_list(k)[i]) as int % spec_block_size(k) == 0
                        && self.fallback.bottom <= self.class_list(k)[i] && self.class_list(k)[i]
                        + spec_block_size(k) <= self.fallback.top) by {
                        assert(pre.class_list(k)[i] == self.class_list(k)[i]);
                    }
                    assert(self.class_blocks_wf());
                    assert forall|k1: int, i1: int, k2: int, i2: int|
                        0 <= k1 < NUM_CLASSES && 0 <= i1 < self.class_list(k1).len() && 0 <= k2
                            < NUM_CLASSES && 0 <= i2 < self.class_list(k2).len() && (k1 != k2 || i1
                            != i2) implies spec_disjoint(
                        (#[trigger] self.class_list(k1)[i1]) as int,
                        spec_block_size(k1),
                        (#[trigger] self.class_list(k2)[i2]) as int,
                        spec_block_size(k2),
                    ) by {
                        assert(pre.class_list(k1)[i1] == self.class_list(k1)[i1]);
                        assert(pre.class_list(k2)[i2] == self.class_list(k2)[i2]);
                    }
                    assert(self.class_class_disjoint());
                    assert forall|k: int, i: int, x: int|
                        0 <= k < NUM_CLASSES && 0 <= i < self.class_list(k).len() && 0 <= x
                            < self.fallback.holes@.len() implies spec_disjoint(
                        (#[trigger] self.class_list(k)[i]) as int,
                        spec_block_size(k),
                        (#[trigger] self.fallback.holes@[x]).addr as int,
                        self.fallback.holes@[x].size as int,
                    ) by {
                        assert(pre.class_list(k)[i] == self.class_list(k)[i]);
                        let cb = pre.class_list(k)[i] as int;
                        let cs = spec_block_size(k);
                        assert forall|y: int| 0 <= y < pre.fallback.holes@.len() implies
                        spec_disjoint(
                            cb,
                            cs,
                            (#[trigger] pre.fallback.holes@[y]).addr as int,
                            pre.fallback.holes@[y].size as int,
                        ) by {
                            assert(pre.class_hole_disjoint());
                        }
                        lemma_alloc_keeps_distance(
                            pre.fallback,
                            self.fallback,
                            size as int,
                            align as int,
                            a,
                            cb,
                            cs,
                            x,
                        );
                    }
                    assert forall|b: int| 0 <= b < self.live@.len() implies ((
                    #[trigger] self.live@[b]).size >= 1 && is_power_of_two(self.live@[b].align)
                        && self.live@[b].addr % self.live@[b].align == 0 && self.fallback.bottom
                        <= self.live@[b].addr && self.live@[b].addr + self.live@[b].size
                        <= self.fallback.top) by {
                        if b < pre.live@.len() {
                            assert(pre.live@[b] == self.live@[b]);
                        } else {
                            assert(self.live@[b] == nb);
                        }
                    }
                    assert(self.live_wf());
                    assert forall|b1: int, b2: int| 0 <= b1 < b2 < self.live@.len() implies
                    spec_disjoint(
                        (#[trigger] self.live@[b1]).addr,
                        self.live@[b1].size,
                        (#[trigger] self.live@[b2]).addr,
                        self.live@[b2].size,
                    ) by {
                        if b2 < pre.live@.len() {
                            assert(pre.live@[b1] == self.live@[b1]);
                            assert(pre.live@[b2] == self.live@[b2]);
                        } else {
                            assert(self.live@[b2] == nb);
                            assert(pre.live@[b1] == self.live@[b1]);
                            assert(spec_disjoint(pre.live@[b1].addr, pre.live@[b1].size, a as int, size as int));
                        }
                    }
                    assert(self.live_live_disjoint());
                    assert forall|b: int, x: int|
                        0 <= b < self.live@.len() && 0 <= x < self.fallback.holes@.len() implies
                    spec_disjoint(
                        (#[trigger] self.live@[b]).addr,
                        self.live@[b].size,
                        (#[trigger] self.fallback.holes@[x]).addr as int,
                        self.fallback.holes@[x].size as int,
                    ) by {
                        if b < pre.live@.len() {
                            assert(pre.live@[b] == self.live@[b]);
                            let lb = pre.live@[b];
                            assert forall|y: int| 0 <= y < pre.fallback.holes@.len() implies
                            spec_disjoint(
                                lb.addr,
                                lb.size,
                                (#[trigger] pre.fallback.holes@[y]).addr as int,
                                pre.fallback.holes@[y].size as int,
                            ) by {
                                assert(pre.live_hole_disjoint());
                            }
                            lemma_alloc_keeps_distance(
                                pre.fallback,
                                self.fallback,
                                size as int,
                                align as int,
                                a,
                                lb.addr,
                                lb.size,
                                x,
                            );
                        } else {
                            assert(self.live@[b] == nb);
                            lemma_alloc_block_clear(
                                pre.fallback,
                                self.fallback,
                                size as int,
                                align as int,
                                a,
                                x,
                            );
                        }
                    }
                    assert forall|b: int, k: int, i: int|
                        0 <= b < self.live@.len() && 0 <= k < NUM_CLASSES && 0 <= i
                            < self.class_list(k).len() implies spec_disjoint(
                        (#[trigger] self.live@[b]).addr,
                        self.live@[b].size,
                        (#[trigger] self.class_list(k)[i]) as int,
                        spec_block_size(k),
                    ) by {
                        assert(pre.class_list(k)[i] == self.class_list(k)[i]);
                        if b < pre.live@.len() {
                            assert(pre.live@[b] == self.live@[b]);
                        } else {
                            assert(self.live@[b] == nb);
                            assert(spec_disjoint(
                                pre.class_list(k)[i] as int,
                                spec_block_size(k),
                                a as int,
                                size as int,
                            ));
                        }
                    }
                    assert(self.live_class_disjoint());
                    assert(self.wf());
                }
                r
            },
        }
    }

    /// Serves an allocation request: the smallest fitting size class's free
    /// list when it has a block, a class-sized block carved from the
    /// fallback when the list is empty, and the fallback directly when no
    /// class is large enough. Returns nothing — allocation failure — only
    /// when the request goes to the fallback and no free block fits. Every
    /// block returned is aligned to at least `align`, holds at least
    /// `size` bytes, lies in the heap range, and overlaps no other live
    /// block.
    #[verifier::rlimit(100)]
    #[verifier::spinoff_prover]
    pub fn allocate(&mut self, size: u64, align: u64) -> (r: Option<u64>)
        requires
            old(self).wf(),
            size >= 1,
            is_power_of_two(align as int),
        ensures
            final(self).wf(),
            final(self).fallback.bottom == old(self).fallback.bottom,
            final(self).fallback.top == old(self).fallback.top,
            final(self).list@.len() == NUM_CLASSES,
            (match spec_list_index(size, align) {
                Some(k) => if old(self).class_list(k).len() > 0 {
                    &&& r == Some(old(self).class_list(k).last())
                    &&& final(self).class_list(k) == old(self).class_list(k).drop_last()
                    &&& (forall|k2: int|
                        0 <= k2 < NUM_CLASSES && k2 != k ==> #[trigger] final(self).class_list(k2)
                            == old(self).class_list(k2))
                    &&& final(self).fallback.holes@ == old(self).fallback.holes@
                } else {
                    &&& (forall|k2: int|
                        0 <= k2 < NUM_CLASSES ==> #[trigger] final(self).class_list(k2) == old(
                            self,
                        ).class_list(k2))
                    &&& spec_fallback_alloc(
                        old(self).fallback,
                        final(self).fallback,
                        spec_block_size(k),
                        spec_block_size(k),
                        r,
                    )
                },
                None => {
                    &&& (forall|k2: int|
                        0 <= k2 < NUM_CLASSES ==> #[trigger] final(self).class_list(k2) == old(
                            self,
                        ).class_list(k2))
                    &&& spec_fallback_alloc(
                        old(self).fallback,
                        final(self).fallback,
                        size as int,
                        align as int,
                        r,
                    )
                },
            }),
            (match r {
                Some(a) => final(self).live@ == old(self).live@.push(
                    LiveBlock {
                        addr: a as int,
                        size: spec_granted_size(size, align),
                        align: spec_granted_align(size, align),
                    },
                ),
                None => final(self).live@ == old(self).live@,
            }),
            (match r {
                Some(a) => a as int % align as int == 0 && spec_granted_size(size, align)
                    >= size && old(self).fallback.bottom <= a && a as int + spec_granted_size(
                    size,
                    align,
                ) <= old(self).fallback.top,
                None => true,
            }),
    {
        let ghost pre = *self;
        proof {
            lemma_pow2_ge_one(align as int);
        }
        match list_index(size, align) {
            Some(index) => {
                let ghost k = index as int;
                proof {
                    lemma_block_size_pow2(k);
                    lemma_pow2_divides(align as int, spec_block_size(k));
                }
                if self.list[index].len() > 0 {
                    let a_opt = self.list[index].pop();
                    let a = match a_opt {
                        Some(a) => a,
                        None => {
                            proof {
                                assert(false);
                            }
                            0
                        },
                    };
                    proof {
                        let nb = LiveBlock {
                            addr: a as int,
                            size: spec_block_size(k),
                            align: spec_block_size(k),
                        };
                        self.live = Ghost(pre.live@.push(nb));
                        let last = pre.class_list(k).len() - 1;
                        assert(a == pre.class_list(k)[last]);
                        assert(a as int % spec_block_size(k) == 0 && pre.fallback.bottom <= a && a
                            + spec_block_size(k) <= pre.fallback.top);
                        lemma_divides_transitive(
                            a as int,
                            spec_block_size(k),
                            align as int,
                        );
                        // every remaining structure is unchanged but for the
                        // removed list head and the recorded block
                        assert forall|k2: int, i2: int|
                            0 <= k2 < NUM_CLASSES && 0 <= i2 < self.class_list(k2).len() implies ((
                        #[trigger] self.class_list(k2)[i2]) as int % spec_block_size(k2) == 0
                            && self.fallback.bottom <= self.class_list(k2)[i2] && self.class_list(
                            k2,
                        )[i2] + spec_block_size(k2) <= self.fallback.top) by {
                            assert(self.class_list(k2)[i2] == pre.class_list(k2)[i2]);
                        }
                        assert forall|k1: int, i1: int, k2: int, i2: int|
                            0 <= k1 < NUM_CLASSES && 0 <= i1 < self.class_list(k1).len() && 0 <= k2
                                < NUM_CLASSES && 0 <= i2 < self.class_list(k2).len() && (k1 != k2
                                || i1 != i2) implies spec_disjoint(
                            (#[trigger] self.class_list(k1)[i1]) as int,
                            spec_block_size(k1),
                            (#[trigger] self.class_list(k2)[i2]) as int,
                            spec_block_size(k2),
                        ) by {
                            assert(self.class_list(k1)[i1] == pre.class_list(k1)[i1]);
                            assert(self.class_list(k2)[i2] == pre.class_list(k2)[i2]);
                        }
                        assert forall|k2: int, i2: int, x: int|
                            0 <= k2 < NUM_CLASSES && 0 <= i2 < self.class_list(k2).len() && 0 <= x
                                < self.fallback.holes@.len() implies spec_disjoint(
                            (#[trigger] self.class_list(k2)[i2]) as int,
                            spec_block_size(k2),
                            (#[trigger] self.fallback.holes@[x]).addr as int,
                            self.fallback.holes@[x].size as int,
                        ) by {
                            assert(self.class_list(k2)[i2] == pre.class_list(k2)[i2]);
                        }
                        assert forall|b: int| 0 <= b < self.live@.len() implies ((
                        #[trigger] self.live@[b]).size >= 1 && is_power_of_two(self.live@[b].align)
                            && self.live@[b].addr % self.live@[b].align == 0
                            && self.fallback.bottom <= self.live@[b].addr && self.live@[b].addr
                            + self.live@[b].size <= self.fallback.top) by {
                            if b < pre.live@.len() {
                                assert(pre.live@[b] == self.live@[b]);
                            } else {
                                assert(self.live@[b] == nb);
                            }
                        }
                        assert forall|b1: int, b2: int| 0 <= b1 < b2 < self.live@.len() implies
                        spec_disjoint(
                            (#[trigger] self.live@[b1]).addr,
                            self.live@[b1].size,
                            (#[trigger] self.live@[b2]).addr,
                            self.live@[b2].size,
                        ) by {
                            if b2 < pre.live@.len() {
                                assert(pre.live@[b1] == self.live@[b1]);
                                assert(pre.live@[b2] == self.live@[b2]);
                            } else {
                                assert(self.live@[b2] == nb);
                                assert(pre.live@[b1] == self.live@[b1]);
                                assert(spec_disjoint(
                                    pre.live@[b1].addr,
                                    pre.live@[b1].size,
                                    pre.class_list(k)[last] as int,
                                    spec_block_size(k),
                                ));
                            }
                        }
                        assert forall|b: int, x: int|
                            0 <= b < self.live@.len() && 0 <= x < self.fallback.holes@.len()
                            implies spec_disjoint(
                            (#[trigger] self.live@[b]).addr,
                            self.live@[b].size,
                            (#[trigger] self.fallback.holes@[x]).addr as int,
                            self.fallback.holes@[x].size as int,
                        ) by {
                            if b < pre.live@.len() {
                                assert(pre.live@[b] == self.live@[b]);
                            } else {
                                assert(self.live@[b] == nb);
                                assert(spec_disjoint(
                                    pre.class_list(k)[last] as int,
                                    spec_block_size(k),
                                    pre.fallback.holes@[x].addr as int,
                                    pre.fallback.holes@[x].size as int,
                                ));
                            }
                        }
                        assert forall|b: int, k2: int, i2: int|
                            0 <= b < self.live@.len() && 0 <= k2 < NUM_CLASSES && 0 <= i2
                                < self.class_list(k2).len() implies spec_disjoint(
                            (#[trigger] self.live@[b]).addr,
                            self.live@[b].size,
                            (#[trigger] self.class_list(k2)[i2]) as int,
                            spec_block_size(k2),
                        ) by {
                            assert(self.class_list(k2)[i2] == pre.class_list(k2)[i2]);
                            if b < pre.live@.len() {
                                assert(pre.live@[b] == self.live@[b]);
                            } else {
                                assert(self.live@[b] == nb);
                                assert(spec_disjoint(
                                    pre.class_list(k)[last] as int,
                                    spec_block_size(k),
                                    pre.class_list(k2)[i2] as int,
                                    spec_block_size(k2),
                                ));
                            }
                        }
                        assert(self.wf());
                    }
                    Some(a)
                } else {
                    let bs = block_size(index);
                    proof {
                        lemma_pow2_ge_one(spec_block_size(k));
                    }
                    let r = self.fallback_alloc(bs, bs);
                    proof {
                        if r is Some {
                            let a = r->Some_0;
                            lemma_divides_transitive(
                                a as int,
                                spec_block_size(k),
                                align as int,
                            );
                        }
                    }
                    r
                }
            },
            None => self.fallback_alloc(size, align),
        }
    }

    /// Takes a block back: a block whose layout maps to a size class is
    /// pushed onto that class's free list — never returned to the fallback —
    /// while a block no class covers goes back to the fallback heap. The
    /// block must be live with the same size and alignment it was allocated
    /// with: no double free, no foreign pointer.
    #[verifier::rlimit(100)]
    #[verifier::spinoff_prover]
    pub fn deallocate(&mut self, ptr: u64, size: u64, align: u64)
        requires
            old(self).wf(),
            size >= 1,
            is_power_of_two(align as int),
            exists|b: int|
                0 <= b < old(self).live@.len() && old(self).live@[b] == (LiveBlock {
                    addr: ptr as int,
                    size: spec_granted_size(size, align),
                    align: spec_granted_align(size, align),
                }),
        ensures
            final(self).wf(),
            final(self).fallback.bottom == old(self).fallback.bottom,
            final(self).fallback.top == old(self).fallback.top,
            final(self).list@.len() == NUM_CLASSES,
            exists|b: int|
                0 <= b < old(self).live@.len() && old(self).live@[b] == (LiveBlock {
                    addr: ptr as int,
                    size: spec_granted_size(size, align),
                    align: spec_granted_align(size, align),
                }) && final(self).live@ == old(self).live@.remove(b),
            (match spec_list_index(size, align) {
                Some(k) => {
                    &&& final(self).class_list(k) == old(self).class_list(k).push(ptr)
                    &&& (forall|k2: int|
                        0 <= k2 < NUM_CLASSES && k2 != k ==> #[trigger] final(self).class_list(k2)
                            == old(self).class_list(k2))
                    &&& final(self).fallback.holes@ == old(self).fallback.holes@
                },
                None => {
                    &&& (forall|k2: int|
                        0 <= k2 < NUM_CLASSES ==> #[trigger] final(self).class_list(k2) == old(
                            self,
                        ).class_list(k2))
                    &&& spec_fallback_free(old(self).fallback, final(self).fallback, ptr, size)
                },
            }),
    {
        let ghost pre = *self;
        let ghost blk = LiveBlock {
            addr: ptr as int,
            size: spec_granted_size(size, align),
            align: spec_granted_align(size, align),
        };
        let ghost bi = choose|b: int| 0 <= b < pre.live@.len() && pre.live@[b] == blk;
        proof {
            self.live = Ghost(pre.live@.remove(bi));
            assert(pre.live@[bi] == blk);
        }
        match list_index(size, align) {
            Some(index) => {
                let ghost k = index as int;
                self.list[index].push(ptr);
                proof {
                    let last = pre.class_list(k).len() as int;
                    assert(self.class_list(k) == pre.class_list(k).push(ptr));
                    assert(self.class_list(k)[last] == ptr);
                    assert(blk.size == spec_block_size(k) && blk.align == spec_block_size(k));
                    assert(ptr as int % spec_block_size(k) == 0 && pre.fallback.bottom <= ptr
                        && ptr + spec_block_size(k) <= pre.fallback.top);
                    assert forall|k2: int, i2: int|
                        0 <= k2 < NUM_CLASSES && 0 <= i2 < self.class_list(k2).len() implies ((
                    #[trigger] self.class_list(k2)[i2]) as int % spec_block_size(k2) == 0
                        && self.fallback.bottom <= self.class_list(k2)[i2] && self.class_list(k2)[
                        i2
                    ] + spec_block_size(k2) <= self.fallback.top) by {
                        if k2 != k || i2 < last {
                            assert(self.class_list(k2)[i2] == pre.class_list(k2)[i2]);
                        } else {
                            assert(self.class_list(k2)[i2] == ptr);
                        }
                    }
                    assert forall|k1: int, i1: int, k2: int, i2: int|
                        0 <= k1 < NUM_CLASSES && 0 <= i1 < self.class_list(k1).len() && 0 <= k2
                            < NUM_CLASSES && 0 <= i2 < self.class_list(k2).len() && (k1 != k2 || i1
                            != i2) implies spec_disjoint(
                        (#[trigger] self.class_list(k1)[i1]) as int,
                        spec_block_size(k1),
                        (#[trigger] self.class_list(k2)[i2]) as int,
                        spec_block_size(k2),
                    ) by {
                        let new1 = k1 == k && i1 == last;
                        let new2 = k2 == k && i2 == last;
                        if new1 && !new2 {
                            assert(self.class_list(k2)[i2] == pre.class_list(k2)[i2]);
                            assert(spec_disjoint(
                                blk.addr,
                                blk.size,
                                pre.class_list(k2)[i2] as int,
                                spec_block_size(k2),
                            ));
                        } else if !new1 && new2 {
                            assert(self.class_list(k1)[i1] == pre.class_list(k1)[i1]);
                            assert(spec_disjoint(
                                blk.addr,
                                blk.size,
                                pre.class_list(k1)[i1] as int,
                                spec_block_size(k1),
                            ));
                        } else if !new1 && !new2 {
                            assert(self.class_list(k1)[i1] == pre.class_list(k1)[i1]);
                            assert(self.class_list(k2)[i2] == pre.class_list(k2)[i2]);
                        }
                    }
                    assert forall|k2: int, i2: int, x: int|
                        0 <= k2 < NUM_CLASSES && 0 <= i2 < self.class_list(k2).len() && 0 <= x
                            < self.fallback.holes@.len() implies spec_disjoint(
                        (#[trigger] self.class_list(k2)[i2]) as int,
                        spec_block_size(k2),
                        (#[trigger] self.fallback.holes@[x]).addr as int,
                        self.fallback.holes@[x].size as int,
                    ) by {
                        if k2 != k || i2 < last {
                            assert(self.class_list(k2)[i2] == pre.class_list(k2)[i2]);
                        } else {
                            assert(self.class_list(k2)[i2] == ptr);
                            assert(spec_disjoint(
                                blk.addr,
                                blk.size,
                                pre.fallback.holes@[x].addr as int,
                                pre.fallback.holes@[x].size as int,
                            ));
                        }
                    }
                    assert forall|b: int| 0 <= b < self.live@.len() implies ((
                    #[trigger] self.live@[b]).size >= 1 && is_power_of_two(self.live@[b].align)
                        && self.live@[b].addr % self.live@[b].align == 0 && self.fallback.bottom
                        <= self.live@[b].addr && self.live@[b].addr + self.live@[b].size
                        <= self.fallback.top) by {
                        if b < bi {
                            assert(self.live@[b] == pre.live@[b]);
                        } else {
                            assert(self.live@[b] == pre.live@[b + 1]);
                        }
                    }
                    assert forall|b1: int, b2: int| 0 <= b1 < b2 < self.live@.len() implies
                    spec_disjoint(
                        (#[trigger] self.live@[b1]).addr,
                        self.live@[b1].size,
                        (#[trigger] self.live@[b2]).addr,
                        self.live@[b2].size,
                    ) by {
                        let o1: int = if b1 < bi {
                            b1
                        } else {
                            b1 + 1
                        };
                        let o2: int = if b2 < bi {
                            b2
                        } else {
                            b2 + 1
                        };
                        assert(self.live@[b1] == pre.live@[o1]);
                        assert(self.live@[b2] == pre.live@[o2]);
                    }
                    assert forall|b: int, x: int|
                        0 <= b < self.live@.len() && 0 <= x < self.fallback.holes@.len() implies
                    spec_disjoint(
                        (#[trigger] self.live@[b]).addr,
                        self.live@[b].size,
                        (#[trigger] self.fallback.holes@[x]).addr as int,
                        self.fallback.holes@[x].size as int,
                    ) by {
                        if b < bi {
                            assert(self.live@[b] == pre.live@[b]);
                        } else {
                            assert(self.live@[b] == pre.live@[b + 1]);
                        }
                    }
                    assert forall|b: int, k2: int, i2: int|
                        0 <= b < self.live@.len() && 0 <= k2 < NUM_CLASSES && 0 <= i2
                            < self.class_list(k2).len() implies spec_disjoint(
                        (#[trigger] self.live@[b]).addr,
                        self.live@[b].size,
                        (#[trigger] self.class_list(k2)[i2]) as int,
                        spec_block_size(k2),
                    ) by {
                        let o: int = if b < bi {
                            b
                        } else {
                            b + 1
                        };
                        assert(self.live@[b] == pre.live@[o]);
                        if k2 != k || i2 < last {
                            assert(self.class_list(k2)[i2] == pre.class_list(k2)[i2]);
                        } else {
                            assert(self.class_list(k2)[i2] == ptr);
                            if o < bi {
                                assert(spec_disjoint(
                                    pre.live@[o].addr,
                                    pre.live@[o].size,
                                    pre.live@[bi].addr,
                                    pre.live@[bi].size,
                                ));
                            } else {
                                assert(spec_disjoint(
                                    pre.live@[bi].addr,
                                    pre.live@[bi].size,
                                    pre.live@[o].addr,
                                    pre.live@[o].size,
                                ));
                            }
                        }
                    }
                    assert(self.wf());
                }
            },
            None => {
                proof {
                    assert(blk.size == size as int && blk.align == align as int);
                    assert(pre.fallback.bottom <= ptr && ptr + size <= pre.fallback.top);
                    assert forall|x: int| 0 <= x < pre.fallback.holes@.len() implies spec_disjoint(
                        ptr as int,
                        size as int,
                        (#[trigger] pre.fallback.holes@[x]).addr as int,
                        pre.fallback.holes@[x].size as int,
                    ) by {
                        assert(spec_disjoint(
                            pre.live@[bi].addr,
                            pre.live@[bi].size,
                            pre.fallback.holes@[x].addr as int,
                            pre.fallback.holes@[x].size as int,
                        ));
                    }
                }
                self.fallback.deallocate(ptr, size);
                proof {
                    let p = spec_insert_pos(pre.fallback.holes@, ptr as int);
                    lemma_insert_pos_bounds(pre.fallback.holes@, ptr as int);
                    assert(0 <= p <= pre.fallback.holes@.len());
                    assert forall|k2: int, i2: int|
                        0 <= k2 < NUM_CLASSES && 0 <= i2 < self.class_list(k2).len() implies ((
                    #[trigger] self.class_list(k2)[i2]) as int % spec_block_size(k2) == 0
                        && self.fallback.bottom <= self.class_list(k2)[i2] && self.class_list(k2)[
                        i2
                    ] + spec_block_size(k2) <= self.fallback.top) by {
                        assert(self.class_list(k2)[i2] == pre.class_list(k2)[i2]);
                    }
                    assert forall|k1: int, i1: int, k2: int, i2: int|
                        0 <= k1 < NUM_CLASSES && 0 <= i1 < self.class_list(k1).len() && 0 <= k2
                            < NUM_CLASSES && 0 <= i2 < self.class_list(k2).len() && (k1 != k2 || i1
                            != i2) implies spec_disjoint(
                        (#[trigger] self.class_list(k1)[i1]) as int,
                        spec_block_size(k1),
                        (#[trigger] self.class_list(k2)[i2]) as int,
                        spec_block_size(k2),
                    ) by {
                        assert(self.class_list(k1)[i1] == pre.class_list(k1)[i1]);
                        assert(self.class_list(k2)[i2] == pre.class_list(k2)[i2]);
                    }
                    assert forall|k2: int, i2: int, x: int|
                        0 <= k2 < NUM_CLASSES && 0 <= i2 < self.class_list(k2).len() && 0 <= x
                            < self.fallback.holes@.len() implies spec_disjoint(
                        (#[trigger] self.class_list(k2)[i2]) as int,
                        spec_block_size(k2),
                        (#[trigger] self.fallback.holes@[x]).addr as int,
                        self.fallback.holes@[x].size as int,
                    ) by {
                        assert(self.class_list(k2)[i2] == pre.class_list(k2)[i2]);
                        if x < p {
                            assert(self.fallback.holes@[x] == pre.fallback.holes@[x]);
                        } else if x == p {
                            assert(self.fallback.holes@[x] == Hole { addr: ptr, size });
                            assert(spec_disjoint(
                                pre.live@[bi].addr,
                                pre.live@[bi].size,
                                pre.class_list(k2)[i2] as int,
                                spec_block_size(k2),
                            ));
                        } else {
                            assert(self.fallback.holes@[x] == pre.fallback.holes@[x - 1]);
                        }
                    }
                    assert forall|b: int| 0 <= b < self.live@.len() implies ((
                    #[trigger] self.live@[b]).size >= 1 && is_power_of_two(self.live@[b].align)
                        && self.live@[b].addr % self.live@[b].align == 0 && self.fallback.bottom
                        <= self.live@[b].addr && self.live@[b].addr + self.live@[b].size
                        <= self.fallback.top) by {
                        if b < bi {
                            assert(self.live@[b] == pre.live@[b]);
                        } else {
                            assert(self.live@[b] == pre.live@[b + 1]);
                        }
                    }
                    assert forall|b1: int, b2: int| 0 <= b1 < b2 < self.live@.len() implies
                    spec_disjoint(
                        (#[trigger] self.live@[b1]).addr,
                        self.live@[b1].size,
                        (#[trigger] self.live@[b2]).addr,
                        self.live@[b2].size,
                    ) by {
                        let o1: int = if b1 < bi {
                            b1
                        } else {
                            b1 + 1
                        };
                        let o2: int = if b2 < bi {
                            b2
                        } else {
                            b2 + 1
                        };
                        assert(self.live@[b1] == pre.live@[o1]);
                        assert(self.live@[b2] == pre.live@[o2]);
                    }
                    assert forall|b: int, x: int|
                        0 <= b < self.live@.len() && 0 <= x < self.fallback.holes@.len() implies
                    spec_disjoint(
                        (#[trigger] self.live@[b]).addr,
                        self.live@[b].size,
                        (#[trigger] self.fallback.holes@[x]).addr as int,
                        self.fallback.holes@[x].size as int,
                    ) by {
                        let o: int = if b < bi {
                            b
                        } else {
                            b + 1
                        };
                        assert(self.live@[b] == pre.live@[o]);
                        if x < p {
                            assert(self.fallback.holes@[x] == pre.fallback.holes@[x]);
                        } else if x == p {
                            assert(self.fallback.holes@[x] == Hole { addr: ptr, size });
                            if o < bi {
                                assert(spec_disjoint(
                                    pre.live@[o].addr,
                                    pre.live@[o].size,
                                    pre.live@[bi].addr,
                                    pre.live@[bi].size,
                                ));
                            } else {
                                assert(spec_disjoint(
                                    pre.live@[bi].addr,
                                    pre.live@[bi].size,
                                    pre.live@[o].addr,
                                    pre.live@[o].size,
                                ));
                            }
                        } else {
                            assert(self.fallback.holes@[x] == pre.fallback.holes@[x - 1]);
                        }
                    }
                    assert forall|b: int, k2: int, i2: int|
                        0 <= b < self.live@.len() && 0 <= k2 < NUM_CLASSES && 0 <= i2
                            < self.class_list(k2).len() implies spec_disjoint(
                        (#[trigger] self.live@[b]).addr,
                        self.live@[b].size,
                        (#[trigger] self.class_list(k2)[i2]) as int,
                        spec_block_size(k2),
                    ) by {
                        let o: int = if b < bi {
                            b
                        } else {
                            b + 1
                        };
                        assert(self.live@[b] == pre.live@[o]);
                        assert(self.class_list(k2)[i2] == pre.class_list(k2)[i2]);
                    }
                    assert(self.wf());
                }
            },
        }
    }
}

/// No aliasing: in a well-formed allocator no two live blocks overlap, so
/// across any order of allocations and deallocations free of double frees,
/// no two blocks handed out and still live share a byte.
pub proof fn lemma_live_blocks_disjoint(h: FixedSizeBlockAllocator, b1: int, b2: int)
    requires
        h.wf(),
        0 <= b1 < b2 < h.live@.len(),
    ensures
        spec_disjoint(h.live@[b1].addr, h.live@[b1].size, h.live@[b2].addr, h.live@[b2].size),
{
}

/// The free-list class invariant: every block on class `k`'s free list is
/// aligned to the class size and spans a full class-sized range inside the
/// heap.
pub proof fn lemma_class_block_invariant(h: FixedSizeBlockAllocator, k: int, i: int)
    requires
        h.wf(),
        0 <= k < NUM_CLASSES,
        0 <= i < h.class_list(k).len(),
    ensures
        h.class_list(k)[i] as int % spec_block_size(k) == 0,
        h.fallback.bottom <= h.class_list(k)[i],
        h.class_list(k)[i] + spec_block_size(k) <= h.fallback.top,
{
}

/// The inclusive page-number range the heap region occupies: what the
/// one-time heap initialization maps frame by frame.
pub fn heap_page_range() -> (r: (u64, u64))
    ensures
        r.0 == HEAP_START / 4096,
        r.1 == (HEAP_START + HEAP_SIZE - 1) / 4096,
{
    (HEAP_START / 4096, (HEAP_START + HEAP_SIZE - 1) / 4096)
}

} // verus!
