use polished_boot::frames::FrameSupply;
use polished_boot::lower_half::{cleanup_uefi_identity_mappings, physmap_address, TlbFlush};
use polished_boot::paging::PageTables;
use x86_64::structures::paging::page_table::{PageTable, PageTableFlags};
use x86_64::PhysAddr;

fn sample_table() -> PageTable {
    let mut table = PageTable::new();
    for index in [0, 1, 255, 256, 511] {
        table[index].set_addr(
            PhysAddr::new(0x1000 * (index as u64 + 1)),
            PageTableFlags::PRESENT | PageTableFlags::WRITABLE,
        );
    }
    // Not present, but not unused either.
    table[7].set_addr(PhysAddr::new(0x7000), PageTableFlags::WRITABLE);
    table
}

#[test]
fn present_entries_of_the_lower_half_are_cleared() {
    let mut table = sample_table();
    let _ = cleanup_uefi_identity_mappings(&mut table);
    for index in 0..256 {
        if index == 7 {
            assert_eq!(table[index].addr().as_u64(), 0x7000);
            assert_eq!(table[index].flags(), PageTableFlags::WRITABLE);
        } else {
            assert!(table[index].is_unused());
        }
    }
}

#[test]
fn upper_half_stays() {
    let mut table = sample_table();
    let _ = cleanup_uefi_identity_mappings(&mut table);
    for index in [256, 511] {
        assert_eq!(table[index].addr().as_u64(), 0x1000 * (index as u64 + 1));
        assert_eq!(table[index].flags(), PageTableFlags::PRESENT | PageTableFlags::WRITABLE);
    }
    assert!(table[300].is_unused());
}

#[test]
fn cleaning_up_again_changes_nothing() {
    let mut once = sample_table();
    let first = cleanup_uefi_identity_mappings(&mut once);
    let mut twice = once.clone();
    let second = cleanup_uefi_identity_mappings(&mut twice);
    assert_eq!(first, second);
    for index in 0..512 {
        assert_eq!(once[index].addr(), twice[index].addr());
        assert_eq!(once[index].flags(), twice[index].flags());
    }
}

fn drops(flush: &[TlbFlush], vaddr: u64) -> bool {
    flush.iter().any(|one| match one {
        TlbFlush::Page(address) => address / 4096 == vaddr / 4096,
        TlbFlush::All => true,
    })
}

#[test]
fn whole_lower_half_is_flushed() {
    let flush = cleanup_uefi_identity_mappings(&mut PageTable::new());
    for vaddr in [0, 0x1000, 0x12_3456, 0x80_0000_0000, 0x7F80_0000_1000, 0x7FFF_FFFF_FFFF] {
        assert!(drops(&flush, vaddr));
    }
}

#[test]
fn empty_table_stays_empty() {
    let mut table = PageTable::new();
    let _ = cleanup_uefi_identity_mappings(&mut table);
    for index in 0..512 {
        assert!(table[index].is_unused());
    }
}

#[test]
fn physical_memory_appears_in_the_upper_half() {
    assert_eq!(physmap_address(0), 0xFFFF_8000_0000_0000);
    assert_eq!(physmap_address(0x12_3000), 0xFFFF_8000_0012_3000);
}

#[test]
fn built_tables_keep_only_their_upper_half() {
    let mut supply = FrameSupply::from_range(0x40_0000, 0x50_0000).unwrap();
    let mut tables = PageTables::new(&mut supply).ok().unwrap();
    assert!(tables.map_page(0x1000, 0x1000, 0, &mut supply).is_ok());
    assert!(tables.map_page(0x7FFF_FFFF_F000, 0x2000, 0, &mut supply).is_ok());
    assert!(tables.map_page(0xFFFF_8000_0000_0000, 0x3000, 0, &mut supply).is_ok());
    let mut frames = tables.into_frames();
    let _ = cleanup_uefi_identity_mappings(&mut frames[0].table);
    assert!(frames[0].table[0].is_unused());
    assert!(frames[0].table[255].is_unused());
    let upper = &frames[0].table[256];
    assert!(upper.flags().contains(PageTableFlags::PRESENT));
    assert_eq!(upper.addr().as_u64(), 0x40_7000);
}
