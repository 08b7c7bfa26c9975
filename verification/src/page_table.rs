//! One x86_64 page table: 512 raw 64-bit entries in the `PageTable` of the
//! `x86_64` crate, and what its entry operations do to them.

use vstd::prelude::*;
use x86_64::structures::paging::page_table::{PageTable, PageTableFlags};
use x86_64::PhysAddr;

verus! {

/// The entry maps something: the processor follows it.
pub const PRESENT: u64 = 0x1;

/// Writes through the entry are allowed.
pub const WRITABLE: u64 = 0x2;

/// Code behind the entry cannot be executed.
pub const NO_EXECUTE: u64 = 0x8000_0000_0000_0000;

/// The bits of an entry that hold the physical address it refers to.
pub const ADDRESS_MASK: u64 = 0x000f_ffff_ffff_f000;

/// First number that is too wide for a physical address (52 bits).
pub const PHYS_ADDR_LIMIT: u64 = 0x10_0000_0000_0000;

/// Declares `x86_64::structures::paging::PageTable`. What a table holds is
/// known only through [`entry_words`].
#[verifier::external_type_specification]
#[verifier::external_body]
pub struct ExPageTable(PageTable);

/// The raw entries of a page table, by index.
pub uninterp spec fn entry_words(table: PageTable) -> Map<int, u64>;

/// The 512 raw entries of a page table, in index order.
pub open spec fn table_entries(table: PageTable) -> Seq<u64> {
    Seq::new(512, |i: int| entry_words(table)[i])
}

/// `addr` can be the address of a 4 KiB frame: aligned, and no wider than a
/// physical address.
pub open spec fn is_frame_address(addr: u64) -> bool {
    addr % 4096 == 0 && addr < PHYS_ADDR_LIMIT
}

/// `PageTable::new` gives a table of 512 entries, all of them zero.
#[verifier::external_body]
pub(crate) fn empty_table() -> (table: PageTable)
    ensures
        table_entries(table) == Seq::new(512, |i: int| 0u64),
{
    PageTable::new()
}

/// `PageTableEntry::is_unused` on one entry: whether the entry is zero.
/// Indexing a table past its 512 entries panics, so the index is bounded.
#[verifier::external_body]
pub(crate) fn entry_is_unused(table: &PageTable, index: usize) -> (unused: bool)
    requires
        index < 512,
    ensures
        unused == (entry_words(*table)[index as int] == 0),
{
    table[index].is_unused()
}

/// `PageTableEntry::addr` on one entry: its address bits.
#[verifier::external_body]
pub(crate) fn entry_addr(table: &PageTable, index: usize) -> (addr: u64)
    requires
        index < 512,
    ensures
        addr == entry_words(*table)[index as int] & ADDRESS_MASK,
{
    table[index].addr().as_u64()
}

/// `PageTableEntry::flags` on one entry, asked for `PRESENT`: its lowest bit.
#[verifier::external_body]
pub(crate) fn entry_is_present(table: &PageTable, index: usize) -> (present: bool)
    requires
        index < 512,
    ensures
        present == (entry_words(*table)[index as int] & PRESENT == PRESENT),
{
    table[index].flags().contains(PageTableFlags::PRESENT)
}

/// `PageTableEntry::set_addr` on one entry: the entry becomes the bitwise or of
/// address and flags, and the other entries of the table stay. `PhysAddr::new`
/// panics on an address of more than 52 bits and `set_addr` on one that is not
/// page aligned.
#[verifier::external_body]
pub(crate) fn set_entry(table: &mut PageTable, index: usize, addr: u64, flags: u64)
    requires
        index < 512,
        is_frame_address(addr),
    ensures
        table_entries(*final(table)) == table_entries(*old(table)).update(
            index as int,
            addr | flags,
        ),
{
    table[index].set_addr(PhysAddr::new(addr), PageTableFlags::from_bits_retain(flags));
}

/// `PageTableEntry::set_unused` on one entry: the entry becomes zero, and the
/// other entries of the table stay.
#[verifier::external_body]
pub(crate) fn clear_entry(table: &mut PageTable, index: usize)
    requires
        index < 512,
    ensures
        table_entries(*final(table)) == table_entries(*old(table)).update(index as int, 0u64),
{
    table[index].set_unused();
}

/// The entries of a table are its 512 words, in their order.
pub proof fn entries_are_the_words(table: PageTable, index: int)
    requires
        0 <= index < 512,
    ensures
        table_entries(table).len() == 512,
        table_entries(table)[index] == entry_words(table)[index],
{
}

/// What the bits of an entry mean: the lowest makes it present, the next one
/// writable, the highest takes away the right to execute, and bits 12 to 51 are
/// the address. Addresses of frames have no other bits.
pub proof fn entry_bits(addr: u64)
    ensures
        PRESENT == 0x1,
        WRITABLE == 0x2,
        NO_EXECUTE == 0x8000_0000_0000_0000,
        ADDRESS_MASK == 0x000f_ffff_ffff_f000,
        PHYS_ADDR_LIMIT == 0x10_0000_0000_0000,
        is_frame_address(addr) <==> addr & !0x000f_ffff_ffff_f000 == 0,
{
    assert((addr % 4096 == 0 && addr < 0x10_0000_0000_0000) <==> addr & !0x000f_ffff_ffff_f000
        == 0) by (bit_vector);
}

} // verus!
