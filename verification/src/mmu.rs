//! How the processor reads page tables: a walk of four levels from the root,
//! nine bits of the virtual address at each level.

use crate::page_table::{ADDRESS_MASK, PRESENT};
use vstd::prelude::*;

verus! {

/// Number of 4 KiB pages in the address space that four levels describe.
pub const PAGE_COUNT: u64 = 0x10_0000_0000;

/// The page that a virtual address lies in: bits 12 to 47. The bits above do
/// not take part in a walk.
pub open spec fn page_of(vaddr: u64) -> int {
    (vaddr as int / 4096) % (PAGE_COUNT as int)
}

/// How many pages one table of a level covers.
pub open spec fn span(level: nat) -> int
    decreases level,
{
    if level == 0 {
        1
    } else {
        512 * span((level - 1) as nat)
    }
}

/// Which entry of a table of the given level leads to `page`.
pub open spec fn entry_index(level: nat, page: int) -> int {
    (page / span((level - 1) as nat)) % 512
}

/// Which table of the given level leads to `page`: tables of one level are
/// numbered in the order of the pages that they cover.
pub open spec fn table_number(level: nat, page: int) -> int {
    page / span(level)
}

/// The processor follows this entry.
pub open spec fn is_present(entry: u64) -> bool {
    entry & PRESENT == PRESENT
}

/// The physical address that an entry refers to.
pub open spec fn target(entry: u64) -> u64 {
    entry & ADDRESS_MASK
}

/// The level 1 entry that a walk ends at, started at the table of `level` at
/// the physical address `table`. `memory` holds the entries of the tables by
/// their physical address. `None`: the walk meets an entry that is not present,
/// or an address at which there is no table.
pub open spec fn walk_from(
    memory: Map<u64, Seq<u64>>,
    table: u64,
    level: nat,
    vaddr: u64,
) -> Option<u64>
    decreases level,
{
    if level == 0 || !memory.contains_key(table) {
        None
    } else {
        let entry = memory[table][entry_index(level, page_of(vaddr))];
        if !is_present(entry) {
            None
        } else if level == 1 {
            Some(entry)
        } else {
            walk_from(memory, target(entry), (level - 1) as nat, vaddr)
        }
    }
}

/// The level 1 entry for a virtual address, walking from the root table.
pub open spec fn walk(memory: Map<u64, Seq<u64>>, root: u64, vaddr: u64) -> Option<u64> {
    walk_from(memory, root, 4, vaddr)
}

/// The physical address that a virtual address translates to.
pub open spec fn translate(memory: Map<u64, Seq<u64>>, root: u64, vaddr: u64) -> Option<int> {
    match walk(memory, root, vaddr) {
        Some(entry) => Some(target(entry) + vaddr as int % 4096),
        None => None,
    }
}

/// The values of [`span`] for the levels of a walk.
pub proof fn lemma_spans()
    ensures
        span(0) == 1,
        span(1) == 512,
        span(2) == 0x4_0000,
        span(3) == 0x800_0000,
        span(4) == PAGE_COUNT,
        span(4) == 0x10_0000_0000,
        PAGE_COUNT == 0x10_0000_0000,
{
    reveal_with_fuel(span, 5);
}

/// A table of one level is reached through the entry [`entry_index`] of the
/// table above it that covers the same page.
pub proof fn lemma_descent(level: nat, page: int)
    requires
        1 <= level <= 3,
        0 <= page < PAGE_COUNT,
    ensures
        table_number(level, page) / 512 == table_number(level + 1, page),
        table_number(level, page) % 512 == entry_index(level + 1, page),
        table_number(level, page) == table_number(level + 1, page) * 512 + entry_index(
            level + 1,
            page,
        ),
        table_number(4, page) == 0,
{
    lemma_spans();
    if level == 1 {
        assert((page / 512) / 512 == page / 0x4_0000);
    } else if level == 2 {
        assert((page / 0x4_0000) / 512 == page / 0x800_0000);
    } else {
        assert((page / 0x800_0000) / 512 == page / 0x10_0000_0000);
    }
}

/// The entry of a table of `level` (1 to 4) that a walk for `virt` reads.
pub fn table_index(virt: u64, level: u8) -> (index: usize)
    requires
        1 <= level <= 4,
    ensures
        index == entry_index(level as nat, page_of(virt)),
        index == (virt >> ((12 + 9 * (level - 1)) as u64)) & 0x1FF,
        index < 512,
{
    proof {
        lemma_spans();
        assert((virt >> 39) & 0x1FF == ((virt / 4096) % 0x10_0000_0000 / 0x800_0000) % 512)
            by (bit_vector);
        assert((virt >> 30) & 0x1FF == ((virt / 4096) % 0x10_0000_0000 / 0x4_0000) % 512)
            by (bit_vector);
        assert((virt >> 21) & 0x1FF == ((virt / 4096) % 0x10_0000_0000 / 512) % 512)
            by (bit_vector);
        assert((virt >> 12) & 0x1FF == ((virt / 4096) % 0x10_0000_0000) % 512) by (bit_vector);
        assert((virt >> 39) & 0x1FF < 512 && (virt >> 30) & 0x1FF < 512 && (virt >> 21) & 0x1FF
            < 512 && (virt >> 12) & 0x1FF < 512) by (bit_vector);
    }
    match level {
        4 => ((virt >> 39) & 0x1FF) as usize,
        3 => ((virt >> 30) & 0x1FF) as usize,
        2 => ((virt >> 21) & 0x1FF) as usize,
        _ => ((virt >> 12) & 0x1FF) as usize,
    }
}

/// The page of a virtual address is its bits 12 to 47, so two addresses are in
/// one page exactly when they agree in these bits.
pub proof fn page_is_bits_12_to_47(vaddr: u64, other: u64)
    ensures
        page_of(vaddr) == (vaddr >> 12) & 0xF_FFFF_FFFF,
        page_of(vaddr) == page_of(other) <==> (vaddr ^ other) & 0xFFFF_FFFF_F000 == 0,
{
    assert((vaddr >> 12) & 0xF_FFFF_FFFF == (vaddr / 4096) % 0x10_0000_0000) by (bit_vector);
    assert((other >> 12) & 0xF_FFFF_FFFF == (other / 4096) % 0x10_0000_0000) by (bit_vector);
    assert(((vaddr >> 12) & 0xF_FFFF_FFFF == (other >> 12) & 0xF_FFFF_FFFF) <==> (vaddr ^ other)
        & 0xFFFF_FFFF_F000 == 0) by (bit_vector);
}

/// At each level the processor takes nine bits of the virtual address: those
/// from 39 on at level 4, from 30 on at level 3, from 21 on at level 2, and from
/// 12 on at level 1.
pub proof fn entries_are_chosen_by_nine_bits(vaddr: u64)
    ensures
        entry_index(4, page_of(vaddr)) == (vaddr >> 39) & 0x1FF,
        entry_index(3, page_of(vaddr)) == (vaddr >> 30) & 0x1FF,
        entry_index(2, page_of(vaddr)) == (vaddr >> 21) & 0x1FF,
        entry_index(1, page_of(vaddr)) == (vaddr >> 12) & 0x1FF,
{
    lemma_spans();
    assert((vaddr >> 39) & 0x1FF == ((vaddr / 4096) % 0x10_0000_0000 / 0x800_0000) % 512 && (vaddr
        >> 30) & 0x1FF == ((vaddr / 4096) % 0x10_0000_0000 / 0x4_0000) % 512 && (vaddr >> 21)
        & 0x1FF == ((vaddr / 4096) % 0x10_0000_0000 / 512) % 512 && (vaddr >> 12) & 0x1FF == ((vaddr
        / 4096) % 0x10_0000_0000) % 512) by (bit_vector);
}

/// A table of level 1, 2 or 3 is known by the bits of the address above those
/// that it translates; there is one table of level 4.
pub proof fn tables_are_numbered_by_the_bits_above(vaddr: u64)
    ensures
        table_number(4, page_of(vaddr)) == 0,
        table_number(3, page_of(vaddr)) == (vaddr >> 39) & 0x1FF,
        table_number(2, page_of(vaddr)) == (vaddr >> 30) & 0x3_FFFF,
        table_number(1, page_of(vaddr)) == (vaddr >> 21) & 0x7FF_FFFF,
{
    lemma_spans();
    assert((vaddr >> 39) & 0x1FF == (vaddr / 4096) % 0x10_0000_0000 / 0x800_0000 && (vaddr >> 30)
        & 0x3_FFFF == (vaddr / 4096) % 0x10_0000_0000 / 0x4_0000 && (vaddr >> 21) & 0x7FF_FFFF == (
    vaddr / 4096) % 0x10_0000_0000 / 512) by (bit_vector);
}

/// The walk step by step: it reads one entry in each of four tables. Each entry
/// has to have its lowest bit set, and its bits 12 to 51 are the address of the
/// table that is read next. The last entry is the result.
pub proof fn walk_reads_four_entries(
    memory: Map<u64, Seq<u64>>,
    root: u64,
    vaddr: u64,
    result: u64,
)
    ensures
        ({
            let entry4 = memory[root][((vaddr >> 39) & 0x1FF) as int];
            let table3 = entry4 & 0x000f_ffff_ffff_f000;
            let entry3 = memory[table3][((vaddr >> 30) & 0x1FF) as int];
            let table2 = entry3 & 0x000f_ffff_ffff_f000;
            let entry2 = memory[table2][((vaddr >> 21) & 0x1FF) as int];
            let table1 = entry2 & 0x000f_ffff_ffff_f000;
            let entry1 = memory[table1][((vaddr >> 12) & 0x1FF) as int];
            walk(memory, root, vaddr) == Some(result) <==> {
                &&& memory.contains_key(root) && entry4 & 1 == 1
                &&& memory.contains_key(table3) && entry3 & 1 == 1
                &&& memory.contains_key(table2) && entry2 & 1 == 1
                &&& memory.contains_key(table1) && entry1 & 1 == 1
                &&& result == entry1
            }
        }),
{
    entries_are_chosen_by_nine_bits(vaddr);
    reveal_with_fuel(walk_from, 5);
}

/// A virtual address translates to the frame of its level 1 entry, and to the
/// same byte in it: the low twelve bits stay.
pub proof fn translation_keeps_the_low_bits(memory: Map<u64, Seq<u64>>, root: u64, vaddr: u64)
    ensures
        translate(memory, root, vaddr) is Some <==> walk(memory, root, vaddr) is Some,
        walk(memory, root, vaddr) matches Some(entry) ==> translate(memory, root, vaddr) == Some(
            (entry & 0x000f_ffff_ffff_f000) + (vaddr & 0xFFF),
        ),
{
    assert(vaddr & 0xFFF == vaddr % 4096) by (bit_vector);
}

} // verus!
