//! Taking the firmware's identity mappings out of the kernel's address space:
//! they lie in the lower half, under the first 256 entries of the root table.

use crate::address::{LOWER_HALF_END, UPPER_HALF_START};
use crate::mmu::{entry_index, is_present, lemma_spans, page_of, target, walk, walk_from};
use crate::page_table::{clear_entry, entry_is_present, table_entries};
use crate::paging::PageTables;
use vstd::prelude::*;
use x86_64::structures::paging::page_table::PageTable;

verus! {

/// Number of root table entries that cover the lower half.
pub const LOWER_HALF_ENTRIES: u64 = 256;

/// The virtual address at which the kernel sees a physical address.
pub fn physmap_address(phys: u64) -> (virt: u64)
    requires
        phys < LOWER_HALF_END,
    ensures
        virt == UPPER_HALF_START + phys,
        virt == 0xFFFF_8000_0000_0000 + phys,
{
    UPPER_HALF_START + phys
}

/// A root table entry of the lower half once it has been cleaned up: one that
/// was present is unused.
pub open spec fn cleaned_entry(entry: u64) -> u64 {
    if is_present(entry) {
        0
    } else {
        entry
    }
}

/// The entries of a root table once its first `count` entries have been cleaned
/// up.
pub open spec fn cleaned_entries(entries: Seq<u64>, count: int) -> Seq<u64> {
    Seq::new(
        entries.len(),
        |i: int|
            if i < count {
                cleaned_entry(entries[i])
            } else {
                entries[i]
            },
    )
}

/// A flush of the translations that the processor has cached.
#[derive(Debug, Clone, Copy, PartialEq, Eq, Structural)]
pub enum TlbFlush {
    /// The translation of the 4 KiB page that holds the address.
    Page(u64),
    /// All translations, the global ones too.
    All,
}

/// After the flush no translation of `vaddr` is cached.
pub open spec fn flushes(flush: TlbFlush, vaddr: u64) -> bool {
    match flush {
        TlbFlush::Page(address) => address / 4096 == vaddr / 4096,
        TlbFlush::All => true,
    }
}

/// After the flushes no translation of `vaddr` is cached.
pub open spec fn is_flushed(flush: Seq<TlbFlush>, vaddr: u64) -> bool {
    exists|i: int| 0 <= i < flush.len() && flushes(#[trigger] flush[i], vaddr)
}

/// Takes every mapping in the lower half out of a root table. Gives the flushes
/// after which no translation of an address in the lower half is cached.
pub fn cleanup_uefi_identity_mappings(pml4: &mut PageTable) -> (flush: Vec<TlbFlush>)
    ensures
        table_entries(*final(pml4)).len() == 512,
        table_entries(*final(pml4)) == cleaned_entries(
            table_entries(*old(pml4)),
            LOWER_HALF_ENTRIES as int,
        ),
        forall|i: int|
            0 <= i < 256 ==> #[trigger] table_entries(*final(pml4))[i] == if table_entries(
                *old(pml4),
            )[i] & 1 == 1 {
                0
            } else {
                table_entries(*old(pml4))[i]
            },
        forall|i: int|
            256 <= i < 512 ==> #[trigger] table_entries(*final(pml4))[i] == table_entries(
                *old(pml4),
            )[i],
        forall|vaddr: u64| vaddr < LOWER_HALF_END ==> #[trigger] is_flushed(flush@, vaddr),
{
    let ghost before = table_entries(*pml4);
    assert(table_entries(*pml4) =~= cleaned_entries(before, 0));
    let mut i: u64 = 0;
    while i < LOWER_HALF_ENTRIES
        invariant
            i <= LOWER_HALF_ENTRIES,
            before.len() == 512,
            table_entries(*pml4) == cleaned_entries(before, i as int),
        decreases LOWER_HALF_ENTRIES - i,
    {
        assert(table_entries(*pml4)[i as int] == before[i as int]);
        if entry_is_present(pml4, i as usize) {
            clear_entry(pml4, i as usize);
        }
        assert(table_entries(*pml4) =~= cleaned_entries(before, i + 1));
        i += 1;
    }
    let flush: Vec<TlbFlush> = vec![TlbFlush::All];
    assert(flush@[0] == TlbFlush::All);
    flush
}

/// The tables of `memory` after the root table has been cleaned up.
pub open spec fn cleaned_memory(memory: Map<u64, Seq<u64>>, root: u64) -> Map<u64, Seq<u64>> {
    memory.insert(root, cleaned_entries(memory[root], LOWER_HALF_ENTRIES as int))
}

/// The walk for `vaddr`, from the table of `level` at `table` on, comes to a
/// present entry of the lower half of the root table.
pub open spec fn passes_lower_half(
    memory: Map<u64, Seq<u64>>,
    root: u64,
    table: u64,
    level: nat,
    vaddr: u64,
) -> bool
    decreases level,
{
    let index = entry_index(level, page_of(vaddr));
    let entry = memory[table][index];
    if level == 0 || !memory.contains_key(table) || !is_present(entry) {
        false
    } else {
        table == root && index < LOWER_HALF_ENTRIES || passes_lower_half(
            memory,
            root,
            target(entry),
            (level - 1) as nat,
            vaddr,
        )
    }
}

/// Once the root table has been cleaned up, no address of the lower half is
/// mapped.
pub proof fn lower_half_is_unmapped(memory: Map<u64, Seq<u64>>, root: u64, vaddr: u64)
    requires
        memory.contains_key(root),
        memory[root].len() == 512,
        vaddr < LOWER_HALF_END,
    ensures
        walk(cleaned_memory(memory, root), root, vaddr) is None,
{
    lemma_spans();
    assert(0u64 & 1u64 == 0u64) by (bit_vector);
    assert(0 <= entry_index(4, page_of(vaddr)) < 256);
}

proof fn lemma_walk_kept(
    memory: Map<u64, Seq<u64>>,
    root: u64,
    table: u64,
    level: nat,
    vaddr: u64,
)
    requires
        memory.contains_key(root),
        memory[root].len() == 512,
        level <= 4,
        !passes_lower_half(memory, root, table, level, vaddr),
    ensures
        walk_from(cleaned_memory(memory, root), table, level, vaddr) == walk_from(
            memory,
            table,
            level,
            vaddr,
        ),
    decreases level,
{
    lemma_spans();
    if level > 0 && memory.contains_key(table) {
        let index = entry_index(level, page_of(vaddr));
        assert(0 <= index < 512);
        let entry = memory[table][index];
        assert(0u64 & 1u64 == 0u64) by (bit_vector);
        if is_present(entry) {
            lemma_walk_kept(memory, root, target(entry), (level - 1) as nat, vaddr);
        }
    }
}

/// Cleaning up the root table leaves the upper half as it was. (A walk that
/// comes back to the root table, as in a recursive mapping, and goes on through
/// an entry of the lower half is cut off there.)
pub proof fn upper_half_is_kept(memory: Map<u64, Seq<u64>>, root: u64, vaddr: u64)
    requires
        memory.contains_key(root),
        memory[root].len() == 512,
        vaddr >= UPPER_HALF_START,
        !passes_lower_half(memory, root, root, 4, vaddr),
    ensures
        walk(cleaned_memory(memory, root), root, vaddr) == walk(memory, root, vaddr),
{
    lemma_walk_kept(memory, root, root, 4, vaddr);
}

proof fn lemma_upper_half_index(vaddr: u64)
    requires
        vaddr >= UPPER_HALF_START,
    ensures
        entry_index(4, page_of(vaddr)) >= LOWER_HALF_ENTRIES,
{
    lemma_spans();
}

/// Cleaning up the root of page tables that were built here leaves nothing
/// mapped in the lower half, and the upper half as it was.
pub proof fn cleanup_of_built_tables(tables: PageTables, vaddr: u64)
    requires
        tables.wf(),
    ensures
        vaddr < LOWER_HALF_END ==> walk(
            cleaned_memory(tables.memory(), tables.root()),
            tables.root(),
            vaddr,
        ) is None,
        vaddr >= UPPER_HALF_START ==> walk(
            cleaned_memory(tables.memory(), tables.root()),
            tables.root(),
            vaddr,
        ) == walk(tables.memory(), tables.root(), vaddr),
{
    tables.lemma_tables_are_whole(tables.root());
    if vaddr < LOWER_HALF_END {
        lower_half_is_unmapped(tables.memory(), tables.root(), vaddr);
    }
    if vaddr >= UPPER_HALF_START {
        lemma_upper_half_index(vaddr);
        tables.lemma_upper_half_walk(vaddr);
        upper_half_is_kept(tables.memory(), tables.root(), vaddr);
    }
}

/// Cleaning up twice is cleaning up once.
pub proof fn cleanup_is_idempotent(entries: Seq<u64>, count: int)
    ensures
        cleaned_entries(cleaned_entries(entries, count), count) == cleaned_entries(entries, count),
{
    assert(0u64 & 1u64 == 0u64) by (bit_vector);
    assert(cleaned_entries(cleaned_entries(entries, count), count) =~= cleaned_entries(
        entries,
        count,
    ));
}

/// Cleaning up, entry by entry: of the first 256 entries those whose lowest bit
/// is set become zero. All other entries stay.
pub proof fn cleanup_clears_present_entries(entries: Seq<u64>, index: int)
    requires
        entries.len() == 512,
        0 <= index < 512,
    ensures
        LOWER_HALF_ENTRIES == 256,
        cleaned_entries(entries, 256).len() == 512,
        index < 256 && entries[index] & 1 == 1 ==> cleaned_entries(entries, 256)[index] == 0,
        index < 256 && entries[index] & 1 == 0 ==> cleaned_entries(entries, 256)[index]
            == entries[index],
        index >= 256 ==> cleaned_entries(entries, 256)[index] == entries[index],
        index < 256 ==> cleaned_entries(entries, 256)[index] & 1 == 0,
{
    let entry = entries[index];
    assert(entry & 1 == 1 || entry & 1 == 0) by (bit_vector);
    assert(0u64 & 1u64 == 0u64) by (bit_vector);
}

/// Cleaning up the root table changes no other table.
pub proof fn cleanup_leaves_other_tables(memory: Map<u64, Seq<u64>>, root: u64, table: u64)
    requires
        memory.contains_key(root),
    ensures
        cleaned_memory(memory, root).dom() == memory.dom(),
        table != root ==> cleaned_memory(memory, root)[table] == memory[table],
        cleaned_memory(memory, root)[root] == cleaned_entries(memory[root], 256),
{
    assert(cleaned_memory(memory, root).dom() =~= memory.dom());
}

/// A flush of one page drops the translations of that page and no others: of the
/// addresses that differ from its own in the low twelve bits only. To flush an
/// address takes a flush of its page or of everything.
pub proof fn flush_of_a_page_is_for_that_page(flush: Seq<TlbFlush>, address: u64, vaddr: u64)
    ensures
        flushes(TlbFlush::Page(address), vaddr) <==> address >> 12 == vaddr >> 12,
        flushes(TlbFlush::All, vaddr),
        is_flushed(flush, vaddr) <==> flush.contains(TlbFlush::All) || exists|i: int|
            0 <= i < flush.len() && (#[trigger] flush[i] matches TlbFlush::Page(page) && page >> 12
                == vaddr >> 12),
{
    assert forall|page: u64| #[trigger] flushes(TlbFlush::Page(page), vaddr) == (page >> 12
        == vaddr >> 12) by {
        assert((page / 4096 == vaddr / 4096) == (page >> 12 == vaddr >> 12)) by (bit_vector);
    }
    if is_flushed(flush, vaddr) {
        let i = choose|i: int| 0 <= i < flush.len() && flushes(#[trigger] flush[i], vaddr);
        if let TlbFlush::Page(page) = flush[i] {
            assert(flushes(TlbFlush::Page(page), vaddr));
        }
    }
    if flush.contains(TlbFlush::All) {
        let i = flush.index_of(TlbFlush::All);
        assert(flushes(flush[i], vaddr));
    }
    if exists|i: int|
        0 <= i < flush.len() && (#[trigger] flush[i] matches TlbFlush::Page(page) && page >> 12
            == vaddr >> 12) {
        let i = choose|i: int|
            0 <= i < flush.len() && (#[trigger] flush[i] matches TlbFlush::Page(page) && page >> 12
                == vaddr >> 12);
        assert(flushes(flush[i], vaddr));
    }
}

/// Where no entry refers to the root table, cleaning it up leaves the whole
/// upper half as it was.
pub proof fn upper_half_is_kept_without_recursion(
    memory: Map<u64, Seq<u64>>,
    root: u64,
    vaddr: u64,
)
    requires
        memory.contains_key(root),
        memory[root].len() == 512,
        vaddr >= 0xFFFF_8000_0000_0000,
        forall|table: u64, i: int|
            memory.contains_key(table) && 0 <= i < 512 ==> #[trigger] memory[table][i]
                & 0x000f_ffff_ffff_f000 != root,
    ensures
        walk(cleaned_memory(memory, root), root, vaddr) == walk(memory, root, vaddr),
{
    lemma_upper_half_index(vaddr);
    lemma_spans();
    assert(0 <= entry_index(4, page_of(vaddr)) < 512);
    lemma_no_way_back(memory, root, target(memory[root][entry_index(4, page_of(vaddr))]), 3, vaddr);
    upper_half_is_kept(memory, root, vaddr);
}

proof fn lemma_no_way_back(
    memory: Map<u64, Seq<u64>>,
    root: u64,
    table: u64,
    level: nat,
    vaddr: u64,
)
    requires
        table != root,
        level <= 4,
        forall|t: u64, i: int|
            memory.contains_key(t) && 0 <= i < 512 ==> #[trigger] memory[t][i]
                & 0x000f_ffff_ffff_f000 != root,
    ensures
        !passes_lower_half(memory, root, table, level, vaddr),
    decreases level,
{
    if level > 0 && memory.contains_key(table) {
        lemma_spans();
        assert(0 <= entry_index(level, page_of(vaddr)) < 512);
        let entry = memory[table][entry_index(level, page_of(vaddr))];
        lemma_no_way_back(memory, root, target(entry), (level - 1) as nat, vaddr);
    }
}

} // verus!
