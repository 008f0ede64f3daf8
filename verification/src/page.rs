//! The bit-packed page-table entry model, page tables, and the four-level
//! page-table walker over offset-mapped physical memory.
//!
//! One 64-bit word holds both the flag bits and the masked physical address
//! of a page-table entry; the two views are kept consistent by deriving both
//! from the single word with fixed masks.

use crate::addr::{
    frame_base, phys_truncate, spec_virt_try, virt_try, FRAME_ADDR_MASK, FRAME_ALIGN_MASK,
    PHYS_ADDR_MASK,
};
use vstd::prelude::*;

verus! {

/// Bytes in one page or frame.
pub const PAGE_SIZE: usize = 4096;

/// Entries in one page table.
pub const ENTRY_COUNT: usize = 512;

/// The entry maps a page that is present in memory.
pub const FLAG_PRESENT: u64 = 0x1;

/// The mapped page may be written to.
pub const FLAG_WRITABLE: u64 = 0x2;

/// The mapped page is accessible from user mode.
pub const FLAG_USER_ACCESSIBLE: u64 = 0x4;

/// Writes go through to memory (write-through caching).
pub const FLAG_WRITE_THROUGH_CACHING: u64 = 0x8;

/// Caching is disabled for the mapped page.
pub const FLAG_DISABLE_CACHE: u64 = 0x10;

/// The CPU has accessed the mapped page.
pub const FLAG_ACCESSED: u64 = 0x20;

/// The CPU has written to the mapped page.
pub const FLAG_DIRTY: u64 = 0x40;

/// The entry maps a huge page instead of pointing at the next table level.
pub const FLAG_HUGE_PAGE: u64 = 0x80;

/// The mapping is shared by all address spaces.
pub const FLAG_GLOBAL: u64 = 0x100;

/// Kernel-defined bit: the slot corresponds to usable backing memory.
pub const FLAG_FREE: u64 = 0x200;

/// Code on the mapped page may not be executed.
pub const FLAG_NO_EXECUTE: u64 = 0x8000_0000_0000_0000;

/// All flag bits together.
pub const FLAGS_ALL: u64 = 0x8000_0000_0000_03FF;

/// The bits of an entry word a page-table walk reads: the frame-aligned
/// address field and the Present and HugePage flags.
pub const WALK_MASK: u64 = 0x000F_FFFF_FFFF_F081;

/// Why a page-table entry could not be resolved to a standard 4 KiB frame.
#[derive(Debug, Clone, Copy, PartialEq, Eq)]
pub enum FrameError {
    /// The entry's Present flag is clear.
    FrameNotPresent,
    /// The entry maps a huge page, which this accessor does not resolve.
    HugeFrame,
}

/// The flag-bit view of a page-table entry word.
#[derive(Debug, Clone, Copy, PartialEq, Eq, Structural)]
pub struct PageEntryFlags {
    pub bits: u64,
}

impl PageEntryFlags {
    /// The flag view of a raw entry word.
    pub fn from(x: u64) -> (r: Self)
        ensures
            r.bits == x,
    {
        PageEntryFlags { bits: x }
    }

    /// Whether every bit of `mask` is set.
    pub fn contain(&self, mask: u64) -> (r: bool)
        ensures
            r == ((self.bits & mask) == mask),
    {
        (self.bits & mask) == mask
    }

    /// Sets every bit of `mask`.
    pub fn add(&mut self, mask: u64)
        ensures
            final(self).bits == (old(self).bits | mask),
    {
        self.bits = self.bits | mask;
    }

    /// Clears every bit of `mask`.
    pub fn remove(&mut self, mask: u64)
        ensures
            final(self).bits == (old(self).bits & !mask),
    {
        self.bits = self.bits & !mask;
    }
}

/// The address view of a page-table entry word.
#[derive(Debug, Clone, Copy, PartialEq, Eq, Structural)]
pub struct PageEntryAddress {
    pub bits: u64,
}

impl PageEntryAddress {
    /// The address view of a raw entry word.
    pub fn from(x: u64) -> (r: Self)
        ensures
            r.bits == x,
    {
        PageEntryAddress { bits: x }
    }

    /// The raw word behind the view.
    pub fn raw(self) -> (r: u64)
        ensures
            r == self.bits,
    {
        self.bits
    }

    /// The frame-aligned physical address field of the word.
    pub fn get(self) -> (r: u64)
        ensures
            r == (self.bits & FRAME_ADDR_MASK),
    {
        self.bits & FRAME_ADDR_MASK
    }

    /// The word truncated to the valid 52-bit physical address range.
    pub fn phys(self) -> (r: u64)
        ensures
            r == (self.bits & PHYS_ADDR_MASK),
    {
        phys_truncate(self.bits)
    }

    /// Stores `address` in the word, keeping the flag bits.
    pub fn set(&mut self, address: u64)
        ensures
            final(self).bits == ((old(self).bits & FLAGS_ALL) | address),
    {
        self.bits = (self.bits & FLAGS_ALL) | address;
    }
}

/// One bit-packed page-table entry: flags and masked physical address in a
/// single 64-bit word.
#[derive(Debug, Clone, Copy, PartialEq, Eq, Structural)]
pub struct PageEntry {
    pub word: u64,
}

/// How `PageEntry::frame` resolves an entry word: no frame without the
/// Present flag, no standard frame for a huge page, otherwise the
/// frame-aligned physical address field.
pub open spec fn spec_frame(word: u64) -> Result<u64, FrameError> {
    if word & FLAG_PRESENT != FLAG_PRESENT {
        Err(FrameError::FrameNotPresent)
    } else if word & FLAG_HUGE_PAGE == FLAG_HUGE_PAGE {
        Err(FrameError::HugeFrame)
    } else {
        Ok(word & FRAME_ADDR_MASK)
    }
}

impl PageEntry {
    /// The all-zero entry.
    pub fn empty() -> (r: Self)
        ensures
            r.word == 0,
    {
        PageEntry { word: 0 }
    }

    /// An entry is unused exactly when its word is all zero.
    pub fn is_unused(self) -> (r: bool)
        ensures
            r == (self.word == 0),
    {
        self.word == 0
    }

    /// Clears the whole word.
    pub fn set_unused(&mut self)
        ensures
            final(self).word == 0,
    {
        self.word = 0;
    }

    /// The flag view of the entry.
    pub fn flags(&self) -> (r: PageEntryFlags)
        ensures
            r.bits == self.word,
    {
        PageEntryFlags::from(self.word)
    }

    /// The flag view of the entry, taken by value.
    pub fn cflags(self) -> (r: PageEntryFlags)
        ensures
            r.bits == self.word,
    {
        PageEntryFlags::from(self.word)
    }

    /// The address view of the entry.
    pub fn address(&self) -> (r: PageEntryAddress)
        ensures
            r.bits == self.word,
    {
        PageEntryAddress::from(self.word)
    }

    /// The address view of the entry, taken by value.
    pub fn caddress(self) -> (r: PageEntryAddress)
        ensures
            r.bits == self.word,
    {
        PageEntryAddress::from(self.word)
    }

    /// Sets every bit of `mask` in the entry word.
    pub fn add_flags(&mut self, mask: u64)
        ensures
            final(self).word == (old(self).word | mask),
    {
        self.word = self.word | mask;
    }

    /// Stores `address` in the entry word, keeping the flag bits.
    pub fn set_address(&mut self, address: u64)
        ensures
            final(self).word == ((old(self).word & FLAGS_ALL) | address),
    {
        self.word = (self.word & FLAGS_ALL) | address;
    }

    /// The 4 KiB frame the entry points at: fails with `FrameNotPresent` when
    /// the Present flag is clear, with `HugeFrame` when the HugePage flag is
    /// set, and succeeds with the frame base holding the masked address
    /// otherwise.
    pub fn frame(&self) -> (r: Result<u64, FrameError>)
        ensures
            r == spec_frame(self.word),
    {
        if !self.flags().contain(FLAG_PRESENT) {
            Err(FrameError::FrameNotPresent)
        } else if self.flags().contain(FLAG_HUGE_PAGE) {
            Err(FrameError::HugeFrame)
        } else {
            let p = self.address().phys();
            let ghost w = self.word;
            assert(p & 0xFFF0_0000_0000_0000u64 == 0) by (bit_vector)
                requires
                    p == w & PHYS_ADDR_MASK,
            ;
            let b = frame_base(p);
            assert((w & PHYS_ADDR_MASK) & 0xFFFF_FFFF_FFFF_F000u64 == w & FRAME_ADDR_MASK)
                by (bit_vector);
            Ok(b)
        }
    }
}

/// A page table: 512 bit-packed entries, one page in size.
#[derive(Debug, PartialEq, Eq)]
pub struct PageTable {
    pub entries: Vec<PageEntry>,
}

impl PageTable {
    /// A table is well formed when it holds exactly 512 entries.
    pub open spec fn wf(self) -> bool {
        self.entries.len() == ENTRY_COUNT
    }

    /// A fresh table of 512 unused entries.
    pub fn new() -> (r: Self)
        ensures
            r.wf(),
            forall|j: int| 0 <= j < ENTRY_COUNT ==> r.entries[j].word == 0,
    {
        let mut entries: Vec<PageEntry> = Vec::new();
        let mut i: usize = 0;
        while i < ENTRY_COUNT
            invariant
                i <= ENTRY_COUNT,
                entries.len() == i,
                forall|j: int| 0 <= j < i ==> entries[j].word == 0,
            decreases ENTRY_COUNT - i,
        {
            entries.push(PageEntry { word: 0 });
            i = i + 1;
        }
        PageTable { entries }
    }
}

/// The offset-mapped view of the page-table hierarchy: every page table
/// visible in the physical-memory window, each at the virtual address where
/// it is visible, together with the virtual address of the active top-level
/// table.
pub struct TableStore {
    /// Virtual address of the active level-4 table.
    pub p4_vaddr: u64,
    /// Virtual address at which each table is visible.
    pub addrs: Vec<u64>,
    /// The tables, parallel to `addrs`.
    pub tables: Vec<PageTable>,
}

/// The index of the table visible at `a`, if one is.
pub open spec fn spec_find(addrs: Seq<u64>, a: u64) -> Option<int> {
    if exists|i: int| 0 <= i < addrs.len() && addrs[i] == a {
        Some(choose|i: int| 0 <= i < addrs.len() && addrs[i] == a)
    } else {
        None
    }
}

impl TableStore {
    /// Addresses and tables run in parallel, no two tables share an address,
    /// and every table holds its 512 entries.
    pub open spec fn wf(self) -> bool {
        &&& self.addrs.len() == self.tables.len()
        &&& (forall|i: int, j: int|
            0 <= i < j < self.addrs.len() ==> #[trigger] self.addrs@[i] != #[trigger] self.addrs@[j])
        &&& (forall|i: int| 0 <= i < self.tables.len() ==> (#[trigger] self.tables@[i]).wf())
    }

    /// Looks the virtual address up among the stored tables.
    pub fn find_table(&self, a: u64) -> (r: Option<usize>)
        requires
            self.wf(),
        ensures
            match r {
                Some(i) => i < self.tables.len() && spec_find(self.addrs@, a) == Some(i as int),
                None => spec_find(self.addrs@, a) is None,
            },
    {
        let mut i: usize = 0;
        while i < self.addrs.len()
            invariant
                self.wf(),
                i <= self.addrs.len(),
                forall|t: int| 0 <= t < i ==> self.addrs@[t] != a,
            decreases self.addrs.len() - i,
        {
            if self.addrs[i] == a {
                proof {
                    let c = choose|t: int| 0 <= t < self.addrs@.len() && self.addrs@[t] == a;
                    assert(self.addrs@[i as int] == a);
                    assert(0 <= c < self.addrs@.len() && self.addrs@[c] == a);
                    assert(c == i as int);
                }
                return Some(i);
            }
            i = i + 1;
        }
        proof {
            assert(forall|t: int| 0 <= t < self.addrs@.len() ==> self.addrs@[t] != a);
        }
        None
    }
}

/// Where an entry word leads the walk in a given store: only an entry that
/// resolves to a present, standard (non-huge) frame leads anywhere. Its
/// frame base is translated by the fixed offset, checked as a virtual
/// address, and looked up among the stored tables.
pub open spec fn spec_next_table(s: TableStore, word: u64, offset: u64) -> Option<int> {
    match spec_frame(word) {
        Err(_) => None,
        Ok(phys) => if phys + offset > u64::MAX {
            None
        } else {
            match spec_virt_try((phys + offset) as u64) {
                Some(v) => spec_find(s.addrs@, v),
                None => None,
            }
        },
    }
}

/// The table one level below the entry: the entry's frame, translated by
/// the fixed offset and looked up in the store. Fails when the entry does
/// not resolve to a present standard frame, when the translated address is
/// not a valid virtual address, or when no table is visible there.
pub fn get_next_page_table(store: &TableStore, entry: &PageEntry, offset: u64) -> (r: Option<
    usize,
>)
    requires
        store.wf(),
    ensures
        match r {
            Some(i) => i < store.tables.len() && spec_next_table(*store, entry.word, offset)
                == Some(i as int),
            None => spec_next_table(*store, entry.word, offset) is None,
        },
{
    let phys: u64 = match entry.frame() {
        Ok(f) => f,
        Err(_) => {
            return None;
        },
    };
    if phys > u64::MAX - offset {
        return None;
    }
    match virt_try(phys + offset) {
        Some(v) => store.find_table(v),
        None => None,
    }
}

/// The level-1 table that holds the entry for page number `n`: the walk
/// descends from the active level-4 table through the three 9-bit indices
/// that `n` decomposes into.
pub open spec fn spec_walk(s: TableStore, offset: u64, n: u64) -> Option<int> {
    let ni = n as int;
    let p2 = (ni / 512) % 512;
    let p3 = (ni / 262144) % 512;
    let p4 = (ni / 134217728) % 512;
    match spec_find(s.addrs@, s.p4_vaddr) {
        None => None,
        Some(t4) => match spec_next_table(s, s.tables@[t4].entries@[p4].word, offset) {
            None => None,
            Some(t3) => match spec_next_table(s, s.tables@[t3].entries@[p3].word, offset) {
                None => None,
                Some(t2) => spec_next_table(s, s.tables@[t2].entries@[p2].word, offset),
            },
        },
    }
}

/// Walks the four-level hierarchy down to the level-1 table responsible for
/// page number `n`, returning nothing if any level cannot be resolved.
pub fn get_table_by_page_number(store: &TableStore, offset: u64, n: u64) -> (r: Option<usize>)
    requires
        store.wf(),
    ensures
        match r {
            Some(i) => i < store.tables.len() && spec_walk(*store, offset, n) == Some(i as int),
            None => spec_walk(*store, offset, n) is None,
        },
{
    let p2: usize = ((n / 512) % 512) as usize;
    let p3: usize = ((n / (512 * 512)) % 512) as usize;
    let p4: usize = ((n / (512 * 512 * 512)) % 512) as usize;
    let t4 = match store.find_table(store.p4_vaddr) {
        Some(i) => i,
        None => {
            return None;
        },
    };
    let e4 = store.tables[t4].entries[p4];
    let t3 = match get_next_page_table(store, &e4, offset) {
        Some(i) => i,
        None => {
            return None;
        },
    };
    let e3 = store.tables[t3].entries[p3];
    let t2 = match get_next_page_table(store, &e3, offset) {
        Some(i) => i,
        None => {
            return None;
        },
    };
    let e2 = store.tables[t2].entries[p2];
    get_next_page_table(store, &e2, offset)
}

/// Setting the Free flag never touches what a walk reads: the address
/// field and the Present and HugePage flags.
pub proof fn lemma_free_keeps_walk_bits(w: u64)
    by (bit_vector)
    ensures
        (w | 0x200u64) & 0x000F_FFFF_FFFF_F081u64 == w & 0x000F_FFFF_FFFF_F081u64,
{
}

/// Words equal through the walk mask agree on the Present flag, the
/// HugePage flag and the address field.
pub proof fn lemma_walk_mask_fields(w1: u64, w2: u64)
    by (bit_vector)
    requires
        w1 & 0x000F_FFFF_FFFF_F081u64 == w2 & 0x000F_FFFF_FFFF_F081u64,
    ensures
        w1 & 0x1u64 == w2 & 0x1u64,
        w1 & 0x80u64 == w2 & 0x80u64,
        w1 & 0x000F_FFFF_FFFF_F000u64 == w2 & 0x000F_FFFF_FFFF_F000u64,
{
}

/// Setting the Free flag twice is the same as setting it once.
pub proof fn lemma_free_idempotent(w: u64)
    by (bit_vector)
    ensures
        (w | 0x200u64) | 0x200u64 == w | 0x200u64,
{
}

/// Two stores agree on everything a walk reads: the active table's address,
/// the table addresses, the table shapes, and every entry word seen through
/// the walk mask — the address field and the Present and HugePage flags.
pub open spec fn same_walk_bits(s1: TableStore, s2: TableStore) -> bool {
    &&& s1.p4_vaddr == s2.p4_vaddr
    &&& s1.addrs@ == s2.addrs@
    &&& s1.tables.len() == s2.tables.len()
    &&& (forall|t: int|
        0 <= t < s1.tables.len() ==> (#[trigger] s2.tables@[t]).entries.len()
            == s1.tables@[t].entries.len())
    &&& (forall|t: int, j: int|
        0 <= t < s1.tables.len() && 0 <= j < s1.tables@[t].entries.len() ==> (
        #[trigger] s2.tables@[t].entries@[j]).word & WALK_MASK == s1.tables@[t].entries@[
            j
        ].word & WALK_MASK)
}

/// A walk reads nothing of a store but its walk bits, so stores that agree
/// on those — in particular a store before and after Free-flag mutation —
/// walk to the same table for every page number. Absent any mutation of
/// the walk bits, repeated walks are deterministic.
pub proof fn lemma_walk_same(s1: TableStore, s2: TableStore, offset: u64, n: u64)
    requires
        s1.wf(),
        same_walk_bits(s1, s2),
    ensures
        spec_walk(s1, offset, n) == spec_walk(s2, offset, n),
{
    let ni = n as int;
    let p2 = (ni / 512) % 512;
    let p3 = (ni / 262144) % 512;
    let p4 = (ni / 134217728) % 512;
    assert(spec_find(s1.addrs@, s1.p4_vaddr) == spec_find(s2.addrs@, s2.p4_vaddr));
    match spec_find(s1.addrs@, s1.p4_vaddr) {
        None => {},
        Some(t4) => {
            assert(0 <= t4 < s1.addrs@.len());
            let w41 = s1.tables@[t4].entries@[p4].word;
            let w42 = s2.tables@[t4].entries@[p4].word;
            assert(w42 & WALK_MASK == w41 & WALK_MASK);
            lemma_walk_mask_fields(w41, w42);
            assert(spec_frame(w41) == spec_frame(w42));
            assert(spec_next_table(s1, w41, offset) == spec_next_table(s2, w42, offset));
            match spec_next_table(s1, w41, offset) {
                None => {},
                Some(t3) => {
                    assert(0 <= t3 < s1.addrs@.len());
                    let w31 = s1.tables@[t3].entries@[p3].word;
                    let w32 = s2.tables@[t3].entries@[p3].word;
                    assert(w32 & WALK_MASK == w31 & WALK_MASK);
                    lemma_walk_mask_fields(w31, w32);
                    assert(spec_frame(w31) == spec_frame(w32));
                    assert(spec_next_table(s1, w31, offset) == spec_next_table(s2, w32, offset));
                    match spec_next_table(s1, w31, offset) {
                        None => {},
                        Some(t2) => {
                            assert(0 <= t2 < s1.addrs@.len());
                            let w21 = s1.tables@[t2].entries@[p2].word;
                            let w22 = s2.tables@[t2].entries@[p2].word;
                            assert(w22 & WALK_MASK == w21 & WALK_MASK);
                            lemma_walk_mask_fields(w21, w22);
                            assert(spec_frame(w21) == spec_frame(w22));
                            assert(spec_next_table(s1, w21, offset) == spec_next_table(
                                s2,
                                w22,
                                offset,
                            ));
                        },
                    }
                },
            }
        },
    }
}

/// The entries the marking pass sets Free for the frame range `[n, e)` of
/// one region: chunk by chunk, each chunk covering the frames of one
/// level-1 table, stopping at the region's end or at the first chunk whose
/// table cannot be located.
pub open spec fn spec_region_marks(s: TableStore, offset: u64, n: u64, e: u64) -> Set<(int, int)>
    decreases e - n,
{
    if n >= e {
        Set::empty()
    } else {
        match spec_walk(s, offset, n) {
            None => Set::empty(),
            Some(t) => {
                let stop: int = if n - (n % 512) + 512 < e {
                    n - (n % 512) + 512
                } else {
                    e as int
                };
                let lo = (n % 512) as int;
                let hi = lo + (stop - n);
                Set::new(|p: (int, int)| p.0 == t && lo <= p.1 < hi).union(
                    spec_region_marks(s, offset, stop as u64, e),
                )
            },
        }
    }
}

/// The entries the marking pass sets Free for a whole memory map: the union
/// of each usable region's marks, all computed against the same store.
pub open spec fn spec_all_marks(
    s: TableStore,
    offset: u64,
    regions: Seq<crate::mem::MemoryRegion>,
) -> Set<(int, int)>
    decreases regions.len(),
{
    if regions.len() == 0 {
        Set::empty()
    } else {
        let rest = spec_all_marks(s, offset, regions.drop_last());
        let last = regions.last();
        if last.usable {
            rest.union(spec_region_marks(s, offset, last.start_frame, last.end_frame))
        } else {
            rest
        }
    }
}

/// The store `s` is `s0` with exactly the entries of `m` marked Free:
/// shapes agree, every entry of `m` carries its old word with the Free flag
/// set, and every other entry is unchanged.
pub open spec fn marked_state(s0: TableStore, s: TableStore, m: Set<(int, int)>) -> bool {
    &&& s.p4_vaddr == s0.p4_vaddr
    &&& s.addrs@ == s0.addrs@
    &&& s.tables.len() == s0.tables.len()
    &&& (forall|t: int|
        0 <= t < s0.tables.len() ==> (#[trigger] s.tables@[t]).entries.len()
            == s0.tables@[t].entries.len())
    &&& (forall|t: int, j: int|
        0 <= t < s0.tables.len() && 0 <= j < s0.tables@[t].entries.len() ==> (
        #[trigger] s.tables@[t].entries@[j]).word == (if m.contains((t, j)) {
            s0.tables@[t].entries@[j].word | FLAG_FREE
        } else {
            s0.tables@[t].entries@[j].word
        }))
}

/// A store whose entries differ from `s0` only in Free flags still agrees
/// with `s0` on everything a walk reads.
pub proof fn lemma_marked_state_walk_bits(s0: TableStore, s: TableStore, m: Set<(int, int)>)
    requires
        marked_state(s0, s, m),
    ensures
        same_walk_bits(s0, s),
{
    assert forall|t: int, j: int|
        0 <= t < s0.tables.len() && 0 <= j < s0.tables@[t].entries.len() implies (
    #[trigger] s.tables@[t].entries@[j]).word & WALK_MASK == s0.tables@[t].entries@[j].word
        & WALK_MASK by {
        lemma_free_keeps_walk_bits(s0.tables@[t].entries@[j].word);
    }
}

/// For every usable region of the memory map, walks the region's frame
/// range and sets the kernel-defined Free flag on the corresponding entries
/// of the level-1 tables the walk locates, crossing table boundaries as the
/// frame counter passes each table's 512-entry capacity; a region's pass
/// ends at its last frame, or early when no table can be located for a
/// chunk. Entry address bits, table addresses and table count are left
/// untouched.
pub fn mark_p4_based_on_ram(
    store: &mut TableStore,
    offset: u64,
    mmap: &Vec<crate::mem::MemoryRegion>,
)
    requires
        old(store).wf(),
        forall|i: int|
            0 <= i < mmap@.len() ==> (#[trigger] mmap@[i]).end_frame
                <= crate::mem::MAX_FRAME_NUMBER,
    ensures
        final(store).wf(),
        marked_state(*old(store), *final(store), spec_all_marks(*old(store), offset, mmap@)),
{
    let ghost s0 = *store;
    let ghost mut marked: Set<(int, int)> = Set::empty();
    proof {
        assert(mmap@.take(0) =~= Seq::<crate::mem::MemoryRegion>::empty());
        assert(marked_state(s0, *store, marked));
    }
    let mut ri: usize = 0;
    while ri < mmap.len()
        invariant
            s0.wf(),
            s0 == *old(store),
            ri <= mmap.len(),
            forall|i: int|
                0 <= i < mmap@.len() ==> (#[trigger] mmap@[i]).end_frame
                    <= crate::mem::MAX_FRAME_NUMBER,
            marked == spec_all_marks(s0, offset, mmap@.take(ri as int)),
            marked_state(s0, *store, marked),
            store.wf(),
        decreases mmap.len() - ri,
    {
        let region = mmap[ri];
        if region.usable {
            let e: u64 = region.end_frame;
            let mut n: u64 = region.start_frame;
            let mut stopped: bool = false;
            let ghost mut processed: Set<(int, int)> = Set::empty();
            proof {
                assert(processed.union(spec_region_marks(s0, offset, n, e)) =~= spec_region_marks(
                    s0,
                    offset,
                    region.start_frame,
                    e,
                ));
            }
            while !stopped && n < e
                invariant
                    s0.wf(),
                    s0 == *old(store),
                    region.start_frame <= n,
                    region.end_frame == e,
                    e <= crate::mem::MAX_FRAME_NUMBER,
                    processed.union(spec_region_marks(s0, offset, n, e)) == spec_region_marks(
                        s0,
                        offset,
                        region.start_frame,
                        e,
                    ),
                    stopped ==> processed == spec_region_marks(
                        s0,
                        offset,
                        region.start_frame,
                        e,
                    ),
                    marked_state(s0, *store, marked.union(processed)),
                    store.wf(),
                decreases (if stopped { 0int } else { 1int }), e - n,
            {
                proof {
                    lemma_marked_state_walk_bits(s0, *store, marked.union(processed));
                    lemma_walk_same(s0, *store, offset, n);
                }
                match get_table_by_page_number(store, offset, n) {
                    None => {
                        proof {
                            assert(spec_region_marks(s0, offset, n, e) =~= Set::<(
                                int,
                                int,
                            )>::empty());
                            assert(processed =~= spec_region_marks(
                                s0,
                                offset,
                                region.start_frame,
                                e,
                            ));
                        }
                        stopped = true;
                    },
                    Some(t) => {
                        let ghost ti = t as int;
                        let n_mod: u64 = n % 512;
                        let chunk_end: u64 = n - n_mod + 512;
                        let stop: u64 = if chunk_end < e {
                            chunk_end
                        } else {
                            e
                        };
                        let j_end: u64 = n_mod + (stop - n);
                        let ghost chunkset = Set::new(
                            |p: (int, int)| p.0 == ti && n_mod <= p.1 < j_end,
                        );
                        proof {
                            assert(spec_region_marks(s0, offset, n, e) == chunkset.union(
                                spec_region_marks(s0, offset, stop, e),
                            ));
                        }
                        let mut j: u64 = n_mod;
                        while j < j_end
                            invariant
                                s0.wf(),
                                s0 == *old(store),
                                n_mod <= j <= j_end,
                                j_end <= 512,
                                t < store.tables.len(),
                                t < s0.tables.len(),
                                ti == t as int,
                                s0.tables@[ti].entries.len() == 512,
                                marked_state(
                                    s0,
                                    *store,
                                    marked.union(processed).union(
                                        Set::new(
                                            |p: (int, int)| p.0 == ti && n_mod <= p.1 < j,
                                        ),
                                    ),
                                ),
                                store.wf(),
                            decreases j_end - j,
                        {
                            let w = store.tables[t].entries[j as usize].word;
                            let ghost w0 = s0.tables@[ti].entries@[j as int].word;
                            proof {
                                lemma_free_idempotent(w0);
                            }
                            store.tables[t].entries[j as usize] = PageEntry {
                                word: w | FLAG_FREE,
                            };
                            proof {
                                let before = Set::new(
                                    |p: (int, int)| p.0 == ti && n_mod <= p.1 < j,
                                );
                                let after = Set::new(
                                    |p: (int, int)| p.0 == ti && n_mod <= p.1 < j + 1,
                                );
                                assert(after =~= before.insert((ti, j as int)));
                                assert(marked_state(
                                    s0,
                                    *store,
                                    marked.union(processed).union(after),
                                ));
                            }
                            j = j + 1;
                        }
                        proof {
                            assert(Set::new(|p: (int, int)| p.0 == ti && n_mod <= p.1 < j)
                                =~= chunkset);
                            let processed2 = processed.union(chunkset);
                            assert(marked.union(processed).union(chunkset) =~= marked.union(
                                processed2,
                            ));
                            assert(processed2.union(spec_region_marks(s0, offset, stop, e))
                                =~= processed.union(spec_region_marks(s0, offset, n, e)));
                            processed = processed2;
                        }
                        n = stop;
                    },
                }
            }
            proof {
                if !stopped {
                    assert(spec_region_marks(s0, offset, n, e) =~= Set::<(int, int)>::empty());
                    assert(processed =~= spec_region_marks(s0, offset, region.start_frame, e));
                }
                assert(mmap@.take(ri + 1).drop_last() =~= mmap@.take(ri as int));
                assert(mmap@.take(ri + 1).last() == region);
                assert(spec_all_marks(s0, offset, mmap@.take(ri + 1)) == marked.union(processed));
                marked = marked.union(processed);
            }
        } else {
            proof {
                assert(mmap@.take(ri + 1).drop_last() =~= mmap@.take(ri as int));
                assert(mmap@.take(ri + 1).last() == region);
                assert(spec_all_marks(s0, offset, mmap@.take(ri + 1)) == marked);
            }
        }
        ri = ri + 1;
    }
    proof {
        assert(mmap@.take(mmap.len() as int) =~= mmap@);
    }
}

} // verus!
