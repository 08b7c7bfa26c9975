use polished_boot::boot::PHYS_OFFSET;
use polished_boot::frames::FrameSupply;
use polished_boot::kernel_space::{
    physical_memory_offset, setup_paging_with_offset, IDENTITY_PAGES, KERNEL_PHYS_BASE, STACK_END,
    STACK_START,
};
use polished_boot::memory_map::BOOT_PAGES;
use polished_boot::mmu::table_index;
use polished_boot::page_table::{ADDRESS_MASK, NO_EXECUTE, PRESENT, WRITABLE};
use polished_boot::paging::{PageTables, PagingError, TableFrame};
use x86_64::structures::paging::page_table::PageTableFlags;
use x86_64::{PhysAddr, VirtAddr};

fn frames_from(start: u64, count: u64) -> FrameSupply {
    FrameSupply::from_range(start, start + count * 4096).unwrap()
}

fn table_at(frames: &[TableFrame], address: u64) -> &TableFrame {
    frames.iter().find(|frame| frame.address == address).unwrap()
}

/// Follows the tables as the processor does: address and flags of the page.
fn walk(frames: &[TableFrame], vaddr: u64) -> Option<(u64, PageTableFlags)> {
    let mut table = &frames[0].table;
    for shift in [39, 30, 21, 12] {
        let entry = &table[((vaddr >> shift) & 0x1FF) as usize];
        if !entry.flags().contains(PageTableFlags::PRESENT) {
            return None;
        }
        if shift == 12 {
            return Some((entry.addr().as_u64(), entry.flags()));
        }
        table = &table_at(frames, entry.addr().as_u64()).table;
    }
    None
}

fn translate(frames: &[TableFrame], vaddr: u64) -> Option<u64> {
    walk(frames, vaddr).map(|(address, _)| address + vaddr % 4096)
}

#[test]
fn flag_values_are_those_of_the_processor_crate() {
    assert_eq!(PRESENT, PageTableFlags::PRESENT.bits());
    assert_eq!(WRITABLE, PageTableFlags::WRITABLE.bits());
    assert_eq!(NO_EXECUTE, PageTableFlags::NO_EXECUTE.bits());
    let mut table = x86_64::structures::paging::PageTable::new();
    table[1].set_addr(PhysAddr::new(ADDRESS_MASK), PageTableFlags::PRESENT);
    assert_eq!(table[1].addr().as_u64(), ADDRESS_MASK);
}

#[test]
fn table_index_takes_nine_bits_for_each_level() {
    let vaddr = VirtAddr::new(0xFFFF_9234_5678_9ABC);
    assert_eq!(table_index(vaddr.as_u64(), 4), usize::from(vaddr.p4_index()));
    assert_eq!(table_index(vaddr.as_u64(), 3), usize::from(vaddr.p3_index()));
    assert_eq!(table_index(vaddr.as_u64(), 2), usize::from(vaddr.p2_index()));
    assert_eq!(table_index(vaddr.as_u64(), 1), usize::from(vaddr.p1_index()));
    assert_eq!(table_index(0xFFFF_8000_0000_0000, 4), 256);
    assert_eq!(table_index(0x1000, 1), 1);
    assert_eq!(table_index(0x20_0000, 1), 0);
    assert_eq!(table_index(0x20_0000, 2), 1);
}

#[test]
fn supply_refuses_what_cannot_be_frames() {
    assert!(FrameSupply::new(vec![0x1000, 0x2000, 0x1000]).is_none());
    assert!(FrameSupply::new(vec![0x1000, 0x2800]).is_none());
    assert!(FrameSupply::new(vec![0x10_0000_0000_0000]).is_none());
    assert!(FrameSupply::new(Vec::new()).is_some());
    assert!(FrameSupply::from_range(0x1800, 0x4000).is_none());
    assert!(FrameSupply::from_range(0x4000, 0x3000).is_none());
    assert!(FrameSupply::from_range(0, 0x10_0000_0000_0001).is_none());
}

#[test]
fn supply_hands_out_frames_in_order() {
    let mut supply = FrameSupply::new(vec![0x9000, 0x3000, 0x5000]).unwrap();
    assert_eq!(supply.remaining(), 3);
    assert_eq!(supply.allocate_frame(), Some(0x9000));
    assert_eq!(supply.allocate_frame(), Some(0x3000));
    assert_eq!(supply.allocate_frame(), Some(0x5000));
    assert_eq!(supply.allocate_frame(), None);
    assert_eq!(supply.allocate_frame(), None);
    let mut range = FrameSupply::from_range(0x4000, 0x6FFF).unwrap();
    assert_eq!(range.remaining(), 2);
    assert_eq!(range.allocate_frame(), Some(0x4000));
    assert_eq!(range.allocate_frame(), Some(0x5000));
    assert_eq!(range.allocate_frame(), None);
}

#[test]
fn map_page_makes_the_missing_tables() {
    let mut supply = FrameSupply::new(vec![0x9000, 0x3000, 0x5000, 0x7000, 0xB000]).unwrap();
    let mut tables = PageTables::new(&mut supply).ok().unwrap();
    assert_eq!(tables.root_address(), 0x9000);
    assert_eq!(tables.map_page(0xFFFF_8000_0000_1234, 0xABC000, WRITABLE, &mut supply), Ok(()));
    assert_eq!(supply.remaining(), 1);
    // A second page under the same tables takes no frame.
    assert_eq!(tables.map_page(0xFFFF_8000_0000_2000, 0xDEF000, NO_EXECUTE, &mut supply), Ok(()));
    assert_eq!(supply.remaining(), 1);
    let frames = tables.into_frames();
    let addresses: Vec<u64> = frames.iter().map(|frame| frame.address).collect();
    assert_eq!(addresses, vec![0x9000, 0x3000, 0x5000, 0x7000]);
    assert_eq!(frames[0].table[256].addr().as_u64(), 0x3000);
    assert_eq!(
        frames[0].table[256].flags(),
        PageTableFlags::PRESENT | PageTableFlags::WRITABLE
    );
    assert_eq!(
        walk(&frames, 0xFFFF_8000_0000_1FFF),
        Some((0xABC000, PageTableFlags::PRESENT | PageTableFlags::WRITABLE))
    );
    assert_eq!(
        walk(&frames, 0xFFFF_8000_0000_2000),
        Some((0xDEF000, PageTableFlags::PRESENT | PageTableFlags::NO_EXECUTE))
    );
    assert_eq!(walk(&frames, 0xFFFF_8000_0000_0000), None);
    assert_eq!(walk(&frames, 0x1000), None);
}

#[test]
fn map_page_again_replaces_the_mapping() {
    let mut supply = frames_from(0x10_0000, 4);
    let mut tables = PageTables::new(&mut supply).ok().unwrap();
    assert_eq!(tables.map_page(0x5000, 0x8000, 0, &mut supply), Ok(()));
    assert_eq!(tables.map_page(0x5000, 0x9000, WRITABLE, &mut supply), Ok(()));
    let frames = tables.into_frames();
    assert_eq!(
        walk(&frames, 0x5000),
        Some((0x9000, PageTableFlags::PRESENT | PageTableFlags::WRITABLE))
    );
}

#[test]
fn map_page_without_frames_fails_and_maps_nothing() {
    let mut supply = frames_from(0x10_0000, 3);
    let mut tables = PageTables::new(&mut supply).ok().unwrap();
    assert_eq!(
        tables.map_page(0x5000, 0x8000, 0, &mut supply),
        Err(PagingError::OutOfFrames)
    );
    assert_eq!(supply.remaining(), 0);
    let frames = tables.into_frames();
    assert_eq!(frames.len(), 3);
    assert_eq!(walk(&frames, 0x5000), None);
    let mut empty = frames_from(0x10_0000, 0);
    assert!(matches!(PageTables::new(&mut empty), Err(PagingError::OutOfFrames)));
}

#[test]
fn boot_space_is_an_identity_map_of_physical_memory() {
    let max = 0x800_0000;
    let mut supply = frames_from(0x200_0000, 128);
    let tables = setup_paging_with_offset(PHYS_OFFSET, max, &mut supply).ok().unwrap();
    // One table of each level above, and one level 1 table for each 2 MiB.
    assert_eq!(supply.remaining(), 128 - (1 + 1 + 1 + 64));
    assert_eq!(tables.root_address(), 0x200_0000);
    let frames = tables.into_frames();
    assert_eq!(frames.len(), 67);
    for vaddr in [0, 0x123, 0x7_0000, 0xF_FFFF, 0x10_0000, 0x1F_FFFF, 0x20_0000, 0x7FF_FFFF] {
        assert_eq!(translate(&frames, vaddr), Some(vaddr));
    }
    assert_eq!(
        walk(&frames, 0x345_6000),
        Some((0x345_6000, PageTableFlags::PRESENT | PageTableFlags::WRITABLE))
    );
    for vaddr in [0x800_0000, 0x1_0000_0000, 0xFFFF_8000_0000_0000] {
        assert_eq!(translate(&frames, vaddr), None);
    }
}

#[test]
fn window_elsewhere_shows_memory_from_one_mebibyte() {
    let offset = 0x80_0000_0000;
    let mut supply = frames_from(0x200_0000, 128);
    let tables = setup_paging_with_offset(offset, 0x40_1001, &mut supply).ok().unwrap();
    let frames = tables.into_frames();
    assert_eq!(translate(&frames, offset), Some(KERNEL_PHYS_BASE));
    assert_eq!(translate(&frames, offset + 0x12_3456), Some(0x22_3456));
    // The page that holds the last byte of memory is mapped whole.
    assert_eq!(translate(&frames, offset + 0x30_1FFF), Some(0x40_1FFF));
    assert_eq!(translate(&frames, offset + 0x30_2000), None);
    assert_eq!(translate(&frames, IDENTITY_PAGES * 4096 - 1), Some(IDENTITY_PAGES * 4096 - 1));
    assert_eq!(translate(&frames, IDENTITY_PAGES * 4096), None);
    for vaddr in (STACK_START..STACK_END).step_by(4096) {
        assert_eq!(translate(&frames, vaddr), Some(vaddr));
    }
}

#[test]
fn low_identity_map_hides_the_window() {
    let mut supply = frames_from(0x200_0000, 128);
    let tables = setup_paging_with_offset(0x1F_F000, 0x20_0000, &mut supply).ok().unwrap();
    let frames = tables.into_frames();
    assert_eq!(translate(&frames, 0x1F_F000), Some(0x1F_F000));
    assert_eq!(translate(&frames, 0x20_0000), Some(0x10_1000));
}

#[test]
fn window_is_empty_below_one_mebibyte() {
    let mut supply = frames_from(0x200_0000, 4);
    let tables = setup_paging_with_offset(0x4000_0000, 0xF_FFFF, &mut supply).ok().unwrap();
    assert_eq!(supply.remaining(), 0);
    let frames = tables.into_frames();
    assert_eq!(frames.len(), 4);
    assert_eq!(translate(&frames, 0x4000_0000), None);
    assert_eq!(translate(&frames, 0xF_FFFF), Some(0xF_FFFF));
}

#[test]
fn boot_space_needs_all_of_its_frames() {
    let mut just_enough = frames_from(0x200_0000, 67);
    assert!(setup_paging_with_offset(PHYS_OFFSET, 0x800_0000, &mut just_enough).is_ok());
    let mut one_less = frames_from(0x200_0000, 66);
    assert!(matches!(
        setup_paging_with_offset(PHYS_OFFSET, 0x800_0000, &mut one_less),
        Err(PagingError::OutOfFrames)
    ));
    assert_eq!(one_less.remaining(), 0);
    let mut none = frames_from(0x200_0000, 0);
    assert!(setup_paging_with_offset(PHYS_OFFSET, 0x800_0000, &mut none).is_err());
}

#[test]
fn boot_frames_are_enough_for_250_mebibytes() {
    let mut frames = frames_from(0x200_0000, BOOT_PAGES);
    assert!(setup_paging_with_offset(PHYS_OFFSET, 0xFA0_0000, &mut frames).is_ok());
    assert_eq!(frames.remaining(), 0);
    let mut frames = frames_from(0x200_0000, BOOT_PAGES);
    assert!(setup_paging_with_offset(PHYS_OFFSET, 0xFA0_0001, &mut frames).is_err());
}

#[test]
fn every_word_of_the_boot_space_is_zero_or_writable() {
    let mut supply = frames_from(0x400_0000, 64);
    let tables = setup_paging_with_offset(0x4000_0000, 0x40_0000, &mut supply).ok().unwrap();
    let writable = PageTableFlags::PRESENT | PageTableFlags::WRITABLE;
    let mut used = 0;
    for frame in tables.into_frames() {
        for entry in frame.table.iter().filter(|entry| !entry.is_unused()) {
            assert_eq!(entry.flags(), writable);
            assert!(entry.addr().is_aligned(4096u64));
            used += 1;
        }
    }
    // 512 low pages, 768 in the window, and the entries that lead to them.
    assert_eq!(used, 512 + 768 + 3 + 2 + 1);
}

#[test]
fn physical_memory_is_seen_from_its_offset() {
    assert_eq!(physical_memory_offset(PHYS_OFFSET), 0);
    let window = 0x4000_0000;
    let offset = physical_memory_offset(window);
    assert_eq!(offset, 0x3FF0_0000);
    let mut supply = frames_from(0x400_0000, 64);
    let tables = setup_paging_with_offset(window, 0x40_0000, &mut supply).ok().unwrap();
    let frames = tables.into_frames();
    for phys in [0x10_0000, 0x12_3456, 0x3F_FFFF] {
        assert_eq!(translate(&frames, offset + phys), Some(phys));
    }
}

#[test]
fn low_memory_is_seen_from_the_offset_of_a_low_window() {
    for window in [0, 0x8_0000, KERNEL_PHYS_BASE - 0x1000, KERNEL_PHYS_BASE] {
        let offset = physical_memory_offset(window);
        assert_eq!(offset, 0);
        let mut supply = frames_from(0x1000, 64);
        let tables = setup_paging_with_offset(window, 0x40_0000, &mut supply).ok().unwrap();
        let frames = tables.into_frames();
        for frame in &frames {
            assert_eq!(translate(&frames, offset + frame.address), Some(frame.address));
        }
    }
}
