//! What the boot loader reads from the firmware's memory map.

use crate::page_table::PHYS_ADDR_LIMIT;
use uefi::boot::MemoryType;
use vstd::prelude::*;

verus! {

/// Number of pages that the boot loader takes for page tables and segments.
pub const BOOT_PAGES: u64 = 128;

/// The number by which UEFI marks memory that is free for use.
pub const CONVENTIONAL_MEMORY: u32 = 7;

/// One region of the firmware's memory map.
#[derive(Debug, Clone, Copy, PartialEq, Eq, Structural)]
pub struct MemoryDescriptor {
    /// Memory type, by its UEFI number.
    pub ty: u32,
    /// Physical address of the first byte.
    pub phys_start: u64,
    /// Number of 4 KiB pages.
    pub page_count: u64,
}

impl MemoryDescriptor {
    /// The region is free for use.
    pub open spec fn is_usable(self) -> bool {
        self.ty == CONVENTIONAL_MEMORY
    }

    /// Physical address after the last byte.
    pub open spec fn end(self) -> int {
        self.phys_start + self.page_count * 4096
    }

    /// The region is free for use and has room for [`BOOT_PAGES`].
    pub open spec fn has_boot_pages(self) -> bool {
        self.is_usable() && self.page_count >= BOOT_PAGES
    }
}

/// Every region that is free for use ends at a physical address.
pub open spec fn is_addressable(map: Seq<MemoryDescriptor>) -> bool {
    forall|i: int|
        0 <= i < map.len() && (#[trigger] map[i]).is_usable() ==> map[i].end() < PHYS_ADDR_LIMIT
}

/// Comparison with `MemoryType::CONVENTIONAL`, which the `uefi` crate defines
/// as the number 7.
#[verifier::external_body]
fn is_conventional(ty: u32) -> (conventional: bool)
    ensures
        conventional == (ty == CONVENTIONAL_MEMORY),
{
    MemoryType(ty) == MemoryType::CONVENTIONAL
}

/// Checks that every region that is free for use ends at a physical address.
pub fn memory_map_is_addressable(map: &[MemoryDescriptor]) -> (addressable: bool)
    ensures
        addressable == is_addressable(map@),
        addressable <==> forall|i: int|
            0 <= i < map@.len() && (#[trigger] map@[i]).ty == 7 ==> map@[i].phys_start
                + map@[i].page_count * 4096 < 0x10_0000_0000_0000,
{
    let mut i: usize = 0;
    while i < map.len()
        invariant
            i <= map@.len(),
            forall|k: int|
                0 <= k < i && (#[trigger] map@[k]).is_usable() ==> map@[k].end() < PHYS_ADDR_LIMIT,
        decreases map.len() - i,
    {
        let entry = map[i];
        if is_conventional(entry.ty) {
            if entry.phys_start >= PHYS_ADDR_LIMIT || entry.page_count > (PHYS_ADDR_LIMIT - 1
                - entry.phys_start) / 4096 {
                assert(!(map@[i as int].end() < PHYS_ADDR_LIMIT));
                return false;
            }
        }
        i += 1;
    }
    true
}

/// `region` is the first in the map that has room for [`BOOT_PAGES`].
pub open spec fn is_boot_region(map: Seq<MemoryDescriptor>, region: int) -> bool {
    &&& 0 <= region < map.len()
    &&& map[region].has_boot_pages()
    &&& forall|i: int| 0 <= i < region ==> !(#[trigger] map[i]).has_boot_pages()
}

/// Finds the physical memory for page tables and segments: the first
/// [`BOOT_PAGES`] pages of the first region that is free for use and large
/// enough. Gives the address of its first byte and the address after its last.
/// `None`: there is no such region, or there is no address after these pages.
pub fn find_boot_region(map: &[MemoryDescriptor]) -> (range: Option<(u64, u64)>)
    ensures
        range is Some <==> exists|region: int| #[trigger]
            is_boot_region(map@, region) && map@[region].phys_start + BOOT_PAGES * 4096
                <= u64::MAX,
        range matches Some((start, end)) ==> exists|region: int| #[trigger]
            is_boot_region(map@, region) && start == map@[region].phys_start && end == start
                + BOOT_PAGES * 4096,
        range matches Some((start, end)) ==> end - start == 0x8_0000 && exists|region: int|
            0 <= region < map@.len() && (#[trigger] map@[region]).ty == 7
                && map@[region].page_count >= 128 && map@[region].phys_start == start,
{
    let mut i: usize = 0;
    while i < map.len()
        invariant
            i <= map@.len(),
            forall|k: int| 0 <= k < i ==> !(#[trigger] map@[k]).has_boot_pages(),
        decreases map.len() - i,
    {
        let entry = map[i];
        if is_conventional(entry.ty) && entry.page_count >= BOOT_PAGES {
            assert(is_boot_region(map@, i as int));
            assert forall|region: int| #[trigger] is_boot_region(map@, region) implies region
                == i by {
                assert(map@[i as int].has_boot_pages());
                assert(map@[region].has_boot_pages());
            }
            return match entry.phys_start.checked_add(BOOT_PAGES * 4096) {
                Some(end) => Some((entry.phys_start, end)),
                None => None,
            };
        }
        i += 1;
    }
    None
}

/// The memory for page tables and segments lies below the largest address at
/// which a region that is free for use ends.
pub proof fn boot_region_is_below_max(map: Seq<MemoryDescriptor>, region: int, max: u64)
    requires
        is_boot_region(map, region),
        forall|i: int|
            0 <= i < map.len() && (#[trigger] map[i]).is_usable() ==> map[i].end() <= max,
    ensures
        map[region].phys_start + BOOT_PAGES * 4096 <= map[region].end() <= max,
{
}

/// In a map whose regions end at physical addresses, there is an address after
/// the memory for page tables and segments.
pub proof fn addressable_map_has_room(map: Seq<MemoryDescriptor>, region: int)
    requires
        is_addressable(map),
        is_boot_region(map, region),
    ensures
        map[region].phys_start + BOOT_PAGES * 4096 < PHYS_ADDR_LIMIT,
{
}

/// Finds the largest address at which a region that is free for use ends.
/// `None`: nothing is free for use.
pub fn find_max_usable_phys_addr(map: &[MemoryDescriptor]) -> (max: Option<u64>)
    requires
        is_addressable(map@),
    ensures
        max is None <==> forall|i: int|
            0 <= i < map@.len() && (#[trigger] map@[i]).is_usable() ==> map@[i].end() == 0,
        max matches Some(addr) ==> {
            &&& addr > 0
            &&& exists|i: int|
                0 <= i < map@.len() && (#[trigger] map@[i]).is_usable() && map@[i].end() == addr
            &&& forall|i: int|
                0 <= i < map@.len() && (#[trigger] map@[i]).is_usable() ==> map@[i].end() <= addr
        },
        max matches Some(addr) ==> {
            &&& exists|i: int|
                0 <= i < map@.len() && (#[trigger] map@[i]).ty == 7 && addr == map@[i].phys_start
                    + map@[i].page_count * 4096
            &&& forall|i: int|
                0 <= i < map@.len() && (#[trigger] map@[i]).ty == 7 ==> map@[i].phys_start
                    + map@[i].page_count * 4096 <= addr
        },
{
    let mut max_phys_addr: Option<u64> = None;
    let mut i: usize = 0;
    while i < map.len()
        invariant
            i <= map@.len(),
            is_addressable(map@),
            max_phys_addr is None ==> forall|k: int|
                0 <= k < i && (#[trigger] map@[k]).is_usable() ==> map@[k].end() == 0,
            max_phys_addr matches Some(addr) ==> {
                &&& addr > 0
                &&& exists|k: int|
                    0 <= k < i && (#[trigger] map@[k]).is_usable() && map@[k].end() == addr
                &&& forall|k: int|
                    0 <= k < i && (#[trigger] map@[k]).is_usable() ==> map@[k].end() <= addr
            },
        decreases map.len() - i,
    {
        let entry = map[i];
        if is_conventional(entry.ty) {
            assert(map@[i as int].is_usable());
            let region_end: u64 = entry.phys_start + entry.page_count * 4096;
            let so_far: u64 = match max_phys_addr {
                Some(addr) => addr,
                None => 0,
            };
            if region_end > so_far {
                max_phys_addr = Some(region_end);
            }
        }
        i += 1;
    }
    max_phys_addr
}

/// Only conventional memory, UEFI type 7, is free for use. A region ends its
/// number of pages of 4096 bytes after its start, and has room for the boot
/// loader from 128 pages on.
pub proof fn conventional_memory_is_usable(region: MemoryDescriptor)
    ensures
        CONVENTIONAL_MEMORY == 7,
        BOOT_PAGES == 128,
        region.is_usable() <==> region.ty == 7,
        region.end() == region.phys_start + region.page_count * 4096,
        region.has_boot_pages() <==> region.ty == 7 && region.end() - region.phys_start >= 0x8_0000,
{
}

/// A region that is not of type 7 counts for nothing: with it or without it, the
/// map is addressable or not, and the same region is taken for booting.
pub proof fn other_memory_does_not_count(
    map: Seq<MemoryDescriptor>,
    other: MemoryDescriptor,
    region: int,
)
    requires
        other.ty != 7,
    ensures
        is_addressable(map.push(other)) <==> is_addressable(map),
        is_boot_region(map.push(other), region) <==> is_boot_region(map, region),
{
    let more = map.push(other);
    assert forall|i: int| 0 <= i < map.len() implies #[trigger] more[i] == map[i] by {}
    if is_addressable(more) {
        assert forall|i: int| 0 <= i < map.len() && (#[trigger] map[i]).is_usable() implies map[i].end()
            < PHYS_ADDR_LIMIT by {
            assert(more[i] == map[i]);
        }
    }
    if is_boot_region(more, region) {
        assert forall|i: int| 0 <= i < region implies !(#[trigger] map[i]).has_boot_pages() by {
            assert(more[i] == map[i]);
        }
    }
}

/// The region that is taken for booting is the first of type 7 with at least 128
/// pages; there is at most one such region.
pub proof fn boot_region_is_the_first_large_one(
    map: Seq<MemoryDescriptor>,
    region: int,
    other: int,
)
    ensures
        is_boot_region(map, region) <==> {
            &&& 0 <= region < map.len()
            &&& map[region].ty == 7 && map[region].page_count >= 128
            &&& forall|i: int|
                0 <= i < region && (#[trigger] map[i]).ty == 7 ==> map[i].page_count < 128
        },
        is_boot_region(map, region) && is_boot_region(map, other) ==> region == other,
{
    if is_boot_region(map, region) && is_boot_region(map, other) {
        assert(map[region].has_boot_pages() && map[other].has_boot_pages());
    }
}

} // verus!
