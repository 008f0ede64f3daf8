use os::addr::virt_try;
use os::mem::MemoryRegion;
use os::page::{
    get_next_page_table, get_table_by_page_number, mark_p4_based_on_ram, FrameError, PageEntry,
    PageEntryAddress, PageEntryFlags, PageTable, TableStore, ENTRY_COUNT, FLAG_FREE, FLAG_HUGE_PAGE,
    FLAG_PRESENT, FLAG_WRITABLE,
};

#[test]
fn entry_flags_add_remove_contain() {
    let mut f = PageEntryFlags::from(0);
    assert!(!f.contain(FLAG_PRESENT));
    f.add(FLAG_PRESENT | FLAG_WRITABLE);
    assert!(f.contain(FLAG_PRESENT));
    assert!(f.contain(FLAG_WRITABLE));
    f.remove(FLAG_WRITABLE);
    assert!(f.contain(FLAG_PRESENT));
    assert!(!f.contain(FLAG_WRITABLE));
}

#[test]
fn entry_is_unused_only_when_zero() {
    let mut e = PageEntry::empty();
    assert!(e.is_unused());
    e.add_flags(FLAG_PRESENT);
    assert!(!e.is_unused());
    e.set_unused();
    assert!(e.is_unused());
}

#[test]
fn address_view_masks_the_word() {
    let a = PageEntryAddress::from(0xFFFF_FFFF_FFFF_FFFF);
    assert_eq!(a.get(), 0x000F_FFFF_FFFF_F000);
    assert_eq!(a.phys(), 0x000F_FFFF_FFFF_FFFF);
    let mut b = PageEntryAddress::from(FLAG_PRESENT | FLAG_WRITABLE);
    b.set(0x5000);
    assert_eq!(b.raw(), 0x5000 | FLAG_PRESENT | FLAG_WRITABLE);
    assert_eq!(b.get(), 0x5000);
}

#[test]
fn set_address_keeps_flags() {
    let mut e = PageEntry::empty();
    e.add_flags(FLAG_PRESENT | FLAG_WRITABLE);
    e.set_address(0x7000);
    assert_eq!(e.word, 0x7000 | FLAG_PRESENT | FLAG_WRITABLE);
    assert_eq!(e.caddress().get(), 0x7000);
    assert!(e.cflags().contain(FLAG_PRESENT));
}

#[test]
fn frame_resolution_and_its_errors() {
    let mut e = PageEntry::empty();
    assert_eq!(e.frame(), Err(FrameError::FrameNotPresent));
    e.add_flags(FLAG_PRESENT);
    e.set_address(0x1234);
    assert_eq!(e.frame(), Ok(0x1000));
    e.add_flags(FLAG_HUGE_PAGE);
    assert_eq!(e.frame(), Err(FrameError::HugeFrame));
}

#[test]
fn virtual_address_check_follows_the_canonical_form() {
    assert_eq!(virt_try(0x1234), Some(0x1234));
    assert_eq!(virt_try(0xFFFF_8000_0000_0000), Some(0xFFFF_8000_0000_0000));
    // bit 47 set, bits 48..64 clear: sign extension changes the address
    assert_eq!(virt_try(0x8000_0000_0000), Some(0xFFFF_8000_0000_0000));
    // bits 48..64 hold data that no sign extension explains
    assert_eq!(virt_try(0x1_0000_0000_0000), None);
}

#[test]
fn fresh_table_has_512_unused_entries() {
    let t = PageTable::new();
    assert_eq!(t.entries.len(), ENTRY_COUNT);
    assert!(t.entries.iter().all(|e| e.is_unused()));
}

/// A store with a single path p4 -> p3 -> p2 -> p1 for page numbers
/// 0..512, mapped at offset 0, plus one unrelated table.
fn small_hierarchy() -> TableStore {
    let mut p4 = PageTable::new();
    let mut p3 = PageTable::new();
    let mut p2 = PageTable::new();
    let p1 = PageTable::new();
    let stray = PageTable::new();
    p4.entries[0] = PageEntry { word: 0x2000 | FLAG_PRESENT };
    p3.entries[0] = PageEntry { word: 0x3000 | FLAG_PRESENT };
    p2.entries[0] = PageEntry { word: 0x4000 | FLAG_PRESENT };
    TableStore {
        p4_vaddr: 0x1000,
        addrs: vec![0x1000, 0x2000, 0x3000, 0x4000, 0x5000],
        tables: vec![p4, p3, p2, p1, stray],
    }
}

#[test]
fn walk_reaches_the_level_1_table() {
    let store = small_hierarchy();
    assert_eq!(get_table_by_page_number(&store, 0, 0), Some(3));
    assert_eq!(get_table_by_page_number(&store, 0, 511), Some(3));
    // repeated walks of an unchanged store return the same table
    assert_eq!(get_table_by_page_number(&store, 0, 7), get_table_by_page_number(&store, 0, 7));
}

#[test]
fn walk_translates_physical_entries_by_the_offset() {
    let offset = 0x1000;
    let mut p4 = PageTable::new();
    let mut p3 = PageTable::new();
    let mut p2 = PageTable::new();
    // entries hold physical addresses; tables are visible at phys + offset
    p4.entries[0] = PageEntry { word: 0x20000 | FLAG_PRESENT };
    p3.entries[0] = PageEntry { word: 0x30000 | FLAG_PRESENT };
    p2.entries[0] = PageEntry { word: 0x40000 | FLAG_PRESENT };
    let store = TableStore {
        p4_vaddr: 0x10000 + offset,
        addrs: vec![0x10000 + offset, 0x20000 + offset, 0x30000 + offset, 0x40000 + offset],
        tables: vec![p4, p3, p2, PageTable::new()],
    };
    assert_eq!(get_table_by_page_number(&store, offset, 0), Some(3));
    // with the wrong offset the translated addresses miss every table
    assert_eq!(get_table_by_page_number(&store, 0x2000, 0), None);
}

#[test]
fn walk_fails_where_no_table_is_stored() {
    let store = small_hierarchy();
    // page number 512 needs entry 1 of the p2 table, which is unused and
    // so resolves to no present frame
    assert_eq!(get_table_by_page_number(&store, 0, 512), None);
    // a present entry pointing where no table is stored finds none
    let entry = PageEntry { word: 0x9000 | FLAG_PRESENT };
    assert_eq!(get_next_page_table(&store, &entry, 0), None);
}

#[test]
fn next_table_requires_a_present_standard_frame() {
    let store = small_hierarchy();
    // a non-present entry resolves to nothing, whatever its address field
    let entry = PageEntry { word: 0x4000 };
    assert_eq!(get_next_page_table(&store, &entry, 0), None);
    // a huge-page entry is no standard frame either
    let huge = PageEntry { word: 0x4000 | FLAG_PRESENT | FLAG_HUGE_PAGE };
    assert_eq!(get_next_page_table(&store, &huge, 0), None);
}

#[test]
fn marking_one_aligned_region_marks_exactly_one_table() {
    let mut store = small_hierarchy();
    let map = vec![MemoryRegion { start_frame: 0, end_frame: 512, usable: true }];
    mark_p4_based_on_ram(&mut store, 0, &map);
    // every entry of the level-1 table carries the Free flag
    for j in 0..ENTRY_COUNT {
        assert!(store.tables[3].entries[j].cflags().contain(FLAG_FREE), "entry {j} not marked");
    }
    // no other table was touched
    for t in [0usize, 1, 2, 4] {
        for j in 0..ENTRY_COUNT {
            assert!(!store.tables[t].entries[j].cflags().contain(FLAG_FREE));
        }
    }
    // the hierarchy's address bits survived
    assert_eq!(store.tables[0].entries[0].caddress().get(), 0x2000);
}

#[test]
fn marking_stops_where_the_walk_cannot_resolve() {
    let mut store = small_hierarchy();
    // clear the Present flag of the p2 entry: the level-1 table can no
    // longer be located, so the region's pass ends before marking anything
    store.tables[2].entries[0] = PageEntry { word: 0x4000 };
    let map = vec![MemoryRegion { start_frame: 0, end_frame: 512, usable: true }];
    mark_p4_based_on_ram(&mut store, 0, &map);
    for t in 0..5 {
        for j in 0..ENTRY_COUNT {
            assert!(!store.tables[t].entries[j].cflags().contain(FLAG_FREE));
        }
    }
}

#[test]
fn marking_skips_unusable_regions() {
    let mut store = small_hierarchy();
    let map = vec![MemoryRegion { start_frame: 0, end_frame: 512, usable: false }];
    mark_p4_based_on_ram(&mut store, 0, &map);
    for j in 0..ENTRY_COUNT {
        assert!(!store.tables[3].entries[j].cflags().contain(FLAG_FREE));
    }
}

#[test]
fn marking_a_partial_region_marks_its_frames_only() {
    let mut store = small_hierarchy();
    let map = vec![MemoryRegion { start_frame: 5, end_frame: 9, usable: true }];
    mark_p4_based_on_ram(&mut store, 0, &map);
    for j in 0..ENTRY_COUNT {
        let marked = store.tables[3].entries[j].cflags().contain(FLAG_FREE);
        assert_eq!(marked, (5..9).contains(&j), "entry {j}");
    }
}
