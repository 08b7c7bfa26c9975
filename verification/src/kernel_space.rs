//! The address space that the kernel starts in: a window on physical memory
//! from 1 MiB up, and the first 2 MiB mapped to themselves.

use crate::frames::FrameSupply;
use crate::memory_map::BOOT_PAGES;
use crate::mmu::{
    is_present, lemma_spans, page_is_bits_12_to_47, page_of, span, table_number,
    tables_are_numbered_by_the_bits_above, target, translate, walk, PAGE_COUNT,
};
use crate::page_table::{
    is_frame_address, ADDRESS_MASK, NO_EXECUTE, PHYS_ADDR_LIMIT, PRESENT, WRITABLE,
};
use crate::paging::{
    directory_entry, path_has_one_table_of_each_level, path_tables, PageTables, PagingError,
};
use vstd::prelude::*;

verus! {

/// Physical address of the first frame in the kernel's window.
pub const KERNEL_PHYS_BASE: u64 = 0x10_0000;

/// Number of low pages that are mapped to themselves (2 MiB).
pub const IDENTITY_PAGES: u64 = 512;

/// Start of the stack that is in use while the kernel is loaded.
pub const STACK_START: u64 = 0x7_0000;

/// End of the stack that is in use while the kernel is loaded.
pub const STACK_END: u64 = 0x8_0000;

/// How many pages the window has: enough for the physical memory from
/// [`KERNEL_PHYS_BASE`] up to `max_phys_addr`.
pub open spec fn window_pages(max_phys_addr: u64) -> int {
    if max_phys_addr <= KERNEL_PHYS_BASE {
        0
    } else {
        (max_phys_addr - KERNEL_PHYS_BASE + 4095) / 4096
    }
}

/// Which frame of a window of `count` frames a page shows, when the window
/// starts at the virtual address `base`. Where the window is larger than the
/// address space and comes round to the page again, the last frame counts.
pub open spec fn window_slot(base: u64, count: int, page: int) -> Option<int> {
    let first = (page - base as int / 4096) % (PAGE_COUNT as int);
    if 0 <= page < PAGE_COUNT && first < count {
        Some(count - 1 - (count - 1 - first) % (PAGE_COUNT as int))
    } else {
        None
    }
}

/// The physical address that a page is mapped to, in the address space with
/// its window at `offset`.
pub open spec fn boot_frame(offset: u64, max_phys_addr: u64, page: int) -> Option<int> {
    if 0 <= page < IDENTITY_PAGES {
        Some(page * 4096)
    } else {
        match window_slot(offset, window_pages(max_phys_addr), page) {
            Some(slot) => Some(KERNEL_PHYS_BASE + slot * 4096),
            None => None,
        }
    }
}

/// The level 1 entry of a page that is mapped to `frame`, or of none.
pub open spec fn page_entry(frame: Option<int>) -> Option<u64> {
    match frame {
        Some(address) => Some((address as u64) | (WRITABLE | PRESENT)),
        None => None,
    }
}

/// The processor finds the address space with its window at `offset` when it
/// walks from `root`, and nothing else.
pub open spec fn is_boot_space(
    memory: Map<u64, Seq<u64>>,
    root: u64,
    offset: u64,
    max_phys_addr: u64,
) -> bool {
    forall|vaddr: u64| #[trigger]
        walk(memory, root, vaddr) == page_entry(boot_frame(offset, max_phys_addr, page_of(vaddr)))
}

/// The pages that are mapped, in the address space with its window at `offset`.
pub open spec fn boot_pages(offset: u64, max_phys_addr: u64) -> Set<int> {
    Set::new(|page: int| boot_frame(offset, max_phys_addr, page) is Some)
}

/// The tables that it takes to map the given pages: the root, and those on the
/// way to each page.
pub open spec fn tables_for(pages: Set<int>) -> Set<(nat, int)> {
    Set::new(
        |key: (nat, int)|
            key == (4nat, 0int) || exists|page: int| #[trigger]
                pages.contains(page) && path_tables(page).contains(key),
    )
}

/// The tables that it takes to map [`boot_pages`].
pub open spec fn boot_tables(offset: u64, max_phys_addr: u64) -> Set<(nat, int)> {
    tables_for(boot_pages(offset, max_phys_addr))
}

/// The raw level 1 entry of a page that is mapped to `frame`, or of none: zero.
pub open spec fn raw_entry(frame: Option<int>) -> u64 {
    match page_entry(frame) {
        Some(entry) => entry,
        None => 0,
    }
}

/// The frame for a page when only the first `count` pages of the window have
/// been mapped, and the first `low` pages to themselves.
spec fn partial_frame(offset: u64, count: int, low: int, page: int) -> Option<int> {
    if 0 <= page < low {
        Some(page * 4096)
    } else {
        match window_slot(offset, count, page) {
            Some(slot) => Some(KERNEL_PHYS_BASE + slot * 4096),
            None => None,
        }
    }
}

spec fn partial_pages(offset: u64, count: int, low: int) -> Set<int> {
    Set::new(|page: int| partial_frame(offset, count, low, page) is Some)
}

proof fn lemma_window_step(offset: u64, count: int, page: int)
    requires
        0 <= count,
        offset + count * 4096 <= u64::MAX,
    ensures
        window_slot(offset, count + 1, page) == if page == page_of(
            (offset + count * 4096) as u64,
        ) {
            Some(count)
        } else {
            window_slot(offset, count, page)
        },
{
    let size = PAGE_COUNT as int;
    let start = offset as int / 4096;
    let first = (page - start) % size;
    let virt = (offset + count * 4096) as u64;
    assert(virt as int / 4096 == start + count);
    assert(page_of(virt) == (start + count) % size);
    if 0 <= page < PAGE_COUNT {
        if page == page_of(virt) {
            assert(first == count % size);
            assert((count - first) % size == 0);
        } else {
            assert((count - first) % size != 0);
            if first < count {
                assert((count - first) % size == (count - 1 - first) % size + 1);
            }
        }
    }
}

proof fn lemma_tables_for_insert(pages: Set<int>, page: int)
    ensures
        tables_for(pages.insert(page)) == tables_for(pages).union(path_tables(page)),
{
    let more = pages.insert(page);
    assert forall|key: (nat, int)| tables_for(more).contains(key) == tables_for(pages).union(
        path_tables(page),
    ).contains(key) by {
        if key != (4nat, 0int) && tables_for(more).contains(key) {
            let p = choose|p: int| #[trigger] more.contains(p) && path_tables(p).contains(key);
            assert(p == page || pages.contains(p));
        }
        if key != (4nat, 0int) && tables_for(pages).contains(key) {
            let p = choose|p: int| #[trigger] pages.contains(p) && path_tables(p).contains(key);
            assert(more.contains(p));
        }
        if path_tables(page).contains(key) {
            assert(more.contains(page));
        }
    }
    assert(tables_for(more) =~= tables_for(pages).union(path_tables(page)));
}

proof fn lemma_tables_for_subset(pages: Set<int>, more: Set<int>)
    requires
        pages.subset_of(more),
    ensures
        tables_for(pages).subset_of(tables_for(more)),
{
    assert forall|key: (nat, int)| tables_for(pages).contains(key) implies tables_for(
        more,
    ).contains(key) by {
        if key != (4nat, 0int) {
            let p = choose|p: int| #[trigger] pages.contains(p) && path_tables(p).contains(key);
            assert(more.contains(p));
        }
    }
}

proof fn lemma_tables_for_finite(pages: Set<int>)
    requires
        forall|page: int| #[trigger] pages.contains(page) ==> 0 <= page < PAGE_COUNT,
    ensures
        tables_for(pages).finite(),
{
    let numbers = vstd::set_lib::set_int_range(0, PAGE_COUNT as int);
    vstd::set_lib::lemma_int_range(0, PAGE_COUNT as int);
    let key_of = |level: nat| |number: int| (level, number);
    numbers.lemma_map_finite(key_of(1));
    numbers.lemma_map_finite(key_of(2));
    numbers.lemma_map_finite(key_of(3));
    numbers.lemma_map_finite(key_of(4));
    let keys = numbers.map(key_of(1)).union(numbers.map(key_of(2))).union(
        numbers.map(key_of(3)),
    ).union(numbers.map(key_of(4)));
    assert forall|key: (nat, int)| tables_for(pages).contains(key) implies keys.contains(key) by {
        if key != (4nat, 0int) {
            let page = choose|page: int| #[trigger]
                pages.contains(page) && path_tables(page).contains(key);
            lemma_spans();
            assert(0 <= key.1 < PAGE_COUNT);
        }
        assert(numbers.contains(key.1));
        assert(key_of(key.0)(key.1) == key);
        assert(numbers.map(key_of(key.0)).contains(key));
    }
    vstd::set_lib::lemma_set_subset_finite(keys, tables_for(pages));
}

/// Another page was mapped, of those that belong to the address space.
proof fn lemma_page_added(pages: Set<int>, page: int, all: Set<int>)
    requires
        pages.insert(page).subset_of(all),
        forall|p: int| #[trigger] all.contains(p) ==> 0 <= p < PAGE_COUNT,
    ensures
        tables_for(pages.insert(page)) == tables_for(pages).union(path_tables(page)),
        tables_for(pages.insert(page)).len() <= tables_for(all).len(),
{
    lemma_tables_for_insert(pages, page);
    lemma_tables_for_subset(pages.insert(page), all);
    lemma_tables_for_finite(all);
    vstd::set_lib::lemma_len_subset(tables_for(pages.insert(page)), tables_for(all));
}

proof fn lemma_raw_entry(frame: Option<int>)
    ensures
        is_present(raw_entry(frame)) == (frame is Some),
{
    assert(0u64 & 1u64 == 0u64) by (bit_vector);
    if let Some(address) = frame {
        let bits = address as u64;
        assert((bits | (2u64 | 1u64)) & 1u64 == 1u64) by (bit_vector);
    }
}

/// The root is always among the tables.
proof fn lemma_boot_tables(offset: u64, max_phys_addr: u64)
    ensures
        boot_tables(offset, max_phys_addr).finite(),
        boot_tables(offset, max_phys_addr).len() > 0,
{
    lemma_tables_for_finite(boot_pages(offset, max_phys_addr));
    assert(boot_tables(offset, max_phys_addr).contains((4nat, 0int)));
}

/// The tables hold the first `count` pages of the window and the first `low`
/// pages, in the first of the frames that were free at the start.
spec fn holds_pages(
    tables: PageTables,
    frames: FrameSupply,
    free: Seq<u64>,
    offset: u64,
    count: int,
    low: int,
) -> bool {
    let taken = tables.addresses().len() as int;
    &&& tables.wf()
    &&& frames.wf()
    &&& tables.apart_from(frames@)
    &&& 0 < taken <= free.len()
    &&& tables.addresses() == free.take(taken)
    &&& frames@ == free.skip(taken)
    &&& tables.root() == free[0]
    &&& tables.tables() == tables_for(partial_pages(offset, count, low))
    &&& forall|page: int| #[trigger]
        tables.leaf(page) == raw_entry(partial_frame(offset, count, low, page))
}

/// Maps one page more of the address space `space` (offset and end of memory).
/// The numbers of window pages and of low pages that are mapped go from `done`
/// to `next`.
fn map_boot_page(
    tables: &mut PageTables,
    frames: &mut FrameSupply,
    virt: u64,
    phys: u64,
    Ghost(free): Ghost<Seq<u64>>,
    Ghost(space): Ghost<(u64, u64)>,
    Ghost(done): Ghost<(int, int)>,
    Ghost(next): Ghost<(int, int)>,
) -> (result: Result<(), PagingError>)
    requires
        holds_pages(*old(tables), *old(frames), free, space.0, done.0, done.1),
        phys % 4096 == 0,
        phys < PHYS_ADDR_LIMIT,
        next.0 <= window_pages(space.1),
        next.1 <= IDENTITY_PAGES,
        forall|page: int| #[trigger]
            partial_frame(space.0, next.0, next.1, page) == if page == page_of(virt) {
                Some(phys as int)
            } else {
                partial_frame(space.0, done.0, done.1, page)
            },
    ensures
        result is Ok ==> holds_pages(*final(tables), *final(frames), free, space.0, next.0, next.1),
        result is Err ==> {
            &&& final(frames).wf()
            &&& final(frames)@.len() == 0
            &&& free.len() < boot_tables(space.0, space.1).len()
        },
{
    let ghost page = page_of(virt);
    let ghost pages = partial_pages(space.0, done.0, done.1);
    let ghost more = partial_pages(space.0, next.0, next.1);
    proof {
        assert(more =~= pages.insert(page));
        assert(more.subset_of(boot_pages(space.0, space.1)));
        lemma_page_added(pages, page, boot_pages(space.0, space.1));
        tables.lemma_tables_len();
    }
    let result = tables.map_page(virt, phys, WRITABLE, frames);
    proof {
        if result is Ok {
            tables.lemma_tables_len();
            let taken = tables.addresses().len() as int;
            assert(tables.addresses() =~= free.take(taken));
            assert(frames@ =~= free.skip(taken));
        }
    }
    result
}

/// Builds the page tables of the kernel's address space, in frames from
/// `frames`: physical memory from 1 MiB up to `max_phys_addr` appears at
/// `offset_phys_addr` and up, and then the first 2 MiB, with the stack that is
/// in use, are mapped to themselves. Every page is writable.
pub fn setup_paging_with_offset(
    offset_phys_addr: u64,
    max_phys_addr: u64,
    frames: &mut FrameSupply,
) -> (result: Result<PageTables, PagingError>)
    requires
        offset_phys_addr < PHYS_ADDR_LIMIT,
        max_phys_addr < PHYS_ADDR_LIMIT,
        old(frames).wf(),
    ensures
        final(frames).wf(),
        result is Err <==> old(frames)@.len() < boot_tables(offset_phys_addr, max_phys_addr).len(),
        result is Err ==> final(frames)@.len() == 0,
        result matches Ok(tables) ==> {
            let count = boot_tables(offset_phys_addr, max_phys_addr).len() as int;
            &&& tables.wf()
            &&& tables.apart_from(final(frames)@)
            &&& tables.tables() == boot_tables(offset_phys_addr, max_phys_addr)
            &&& tables.root() == old(frames)@[0]
            &&& tables.addresses() == old(frames)@.take(count)
            &&& final(frames)@ == old(frames)@.skip(count)
            &&& is_boot_space(tables.memory(), tables.root(), offset_phys_addr, max_phys_addr)
            &&& forall|page: int| #[trigger]
                tables.leaf(page) == raw_entry(boot_frame(offset_phys_addr, max_phys_addr, page))
        },
{
    let ghost free = frames@;
    let ghost space = (offset_phys_addr, max_phys_addr);
    let mut tables = match PageTables::new(frames) {
        Ok(tables) => tables,
        Err(error) => {
            proof {
                lemma_boot_tables(offset_phys_addr, max_phys_addr);
            }
            return Err(error);
        },
    };
    let kernel_size: u64 = max_phys_addr.saturating_sub(KERNEL_PHYS_BASE);
    let num_pages: u64 = (kernel_size + 4095) / 4096;
    proof {
        assert(tables_for(partial_pages(offset_phys_addr, 0, 0)) =~= set![(4nat, 0int)]);
    }
    let mut i: u64 = 0;
    while i < num_pages
        invariant
            i <= num_pages,
            num_pages == window_pages(max_phys_addr),
            offset_phys_addr < PHYS_ADDR_LIMIT,
            max_phys_addr < PHYS_ADDR_LIMIT,
            space == (offset_phys_addr, max_phys_addr),
            free == old(frames)@,
            holds_pages(tables, *frames, free, offset_phys_addr, i as int, 0),
        decreases num_pages - i,
    {
        let virt: u64 = offset_phys_addr + i * 0x1000;
        let phys: u64 = KERNEL_PHYS_BASE + i * 0x1000;
        proof {
            assert forall|page: int| #[trigger]
                partial_frame(offset_phys_addr, i + 1, 0, page) == if page == page_of(virt) {
                    Some(phys as int)
                } else {
                    partial_frame(offset_phys_addr, i as int, 0, page)
                } by {
                lemma_window_step(offset_phys_addr, i as int, page);
            }
        }
        let ghost done = (i as int, 0int);
        let ghost next = (i + 1, 0int);
        let mapped = map_boot_page(
            &mut tables,
            frames,
            virt,
            phys,
            Ghost(free),
            Ghost(space),
            Ghost(done),
            Ghost(next),
        );
        if let Err(error) = mapped {
            return Err(error);
        }
        i += 1;
    }
    let mut low: u64 = 0;
    while low < IDENTITY_PAGES
        invariant
            low <= IDENTITY_PAGES,
            num_pages == window_pages(max_phys_addr),
            space == (offset_phys_addr, max_phys_addr),
            free == old(frames)@,
            holds_pages(tables, *frames, free, offset_phys_addr, num_pages as int, low as int),
        decreases IDENTITY_PAGES - low,
    {
        let addr: u64 = low * 0x1000;
        let ghost done = (num_pages as int, low as int);
        let ghost next = (num_pages as int, low + 1);
        assert(page_of(addr) == low);
        let mapped = map_boot_page(
            &mut tables,
            frames,
            addr,
            addr,
            Ghost(free),
            Ghost(space),
            Ghost(done),
            Ghost(next),
        );
        if let Err(error) = mapped {
            return Err(error);
        }
        low += 1;
    }
    let mut addr: u64 = STACK_START;
    while addr < STACK_END
        invariant
            STACK_START <= addr <= STACK_END,
            addr % 4096 == 0,
            low == IDENTITY_PAGES,
            num_pages == window_pages(max_phys_addr),
            space == (offset_phys_addr, max_phys_addr),
            free == old(frames)@,
            holds_pages(tables, *frames, free, offset_phys_addr, num_pages as int, low as int),
        decreases STACK_END - addr,
    {
        let ghost done = (num_pages as int, low as int);
        assert(page_of(addr) == addr / 4096);
        let mapped = map_boot_page(
            &mut tables,
            frames,
            addr,
            addr,
            Ghost(free),
            Ghost(space),
            Ghost(done),
            Ghost(done),
        );
        if let Err(error) = mapped {
            return Err(error);
        }
        addr += 0x1000;
    }
    proof {
        tables.lemma_tables_len();
        assert(partial_pages(offset_phys_addr, num_pages as int, 512) =~= boot_pages(
            offset_phys_addr,
            max_phys_addr,
        ));
        assert forall|vaddr: u64| #[trigger]
            walk(tables.memory(), tables.root(), vaddr) == page_entry(
                boot_frame(offset_phys_addr, max_phys_addr, page_of(vaddr)),
            ) by {
            tables.lemma_walk(vaddr);
            lemma_raw_entry(boot_frame(offset_phys_addr, max_phys_addr, page_of(vaddr)));
        }
    }
    Ok(tables)
}

proof fn lemma_entry_target(address: u64)
    requires
        address % 4096 == 0,
        address < PHYS_ADDR_LIMIT,
    ensures
        target(address | (WRITABLE | PRESENT)) == address,
{
    assert((address | (2u64 | 1u64)) & 0x000f_ffff_ffff_f000u64 == address) by (bit_vector)
        requires
            address % 4096 == 0,
            address < 0x10_0000_0000_0000u64,
    ;
}

/// The first 2 MiB are mapped to themselves, the stack that is in use among
/// them.
pub proof fn low_memory_is_identity_mapped(
    memory: Map<u64, Seq<u64>>,
    root: u64,
    offset: u64,
    max_phys_addr: u64,
    vaddr: u64,
)
    requires
        is_boot_space(memory, root, offset, max_phys_addr),
        vaddr < 0x20_0000,
    ensures
        translate(memory, root, vaddr) == Some(vaddr as int),
        STACK_START < STACK_END <= IDENTITY_PAGES * 4096,
        STACK_START == 0x7_0000 && STACK_END == 0x8_0000,
        IDENTITY_PAGES == 512,
        KERNEL_PHYS_BASE == 0x10_0000,
{
    let page = page_of(vaddr);
    assert(page == vaddr as int / 4096);
    assert(walk(memory, root, vaddr) == page_entry(boot_frame(offset, max_phys_addr, page)));
    lemma_entry_target((page * 4096) as u64);
}

/// The pages above the first 2 MiB are those with a bit from 21 to 47.
proof fn lemma_above_low_memory(vaddr: u64)
    ensures
        page_of(vaddr) >= 512 <==> vaddr & 0xFFFF_FFE0_0000 != 0,
{
    assert((vaddr / 4096) % 0x10_0000_0000 >= 512 <==> vaddr & 0xFFFF_FFE0_0000 != 0)
        by (bit_vector);
}

/// Physical memory from 1 MiB up to `max_phys_addr` is visible through the
/// window: the byte at `phys` appears at the same distance from the start of
/// the window as it has from 1 MiB. This holds of a window that starts at a
/// page boundary, does not reach round to its own start, and where the first
/// 2 MiB do not hide it.
pub proof fn window_shows_physical_memory(
    memory: Map<u64, Seq<u64>>,
    root: u64,
    offset: u64,
    max_phys_addr: u64,
    phys: u64,
)
    requires
        is_boot_space(memory, root, offset, max_phys_addr),
        offset < 0x10_0000_0000_0000,
        max_phys_addr < 0x10_0000_0000_0000,
        offset % 4096 == 0,
        max_phys_addr <= 0x1_0000_0010_0000,
        0x10_0000 <= phys < max_phys_addr,
        ((offset + (phys - 0x10_0000)) as u64) & 0xFFFF_FFE0_0000 != 0,
    ensures
        translate(memory, root, (offset + (phys - 0x10_0000)) as u64) == Some(phys as int),
{
    lemma_above_low_memory((offset + (phys - 0x10_0000)) as u64);
    let vaddr = (offset + (phys - KERNEL_PHYS_BASE)) as u64;
    let page = page_of(vaddr);
    let slot = (phys - KERNEL_PHYS_BASE) / 4096;
    assert(vaddr as int / 4096 == offset as int / 4096 + slot);
    assert(window_slot(offset, window_pages(max_phys_addr), page) == Some(slot));
    assert(walk(memory, root, vaddr) == page_entry(boot_frame(offset, max_phys_addr, page)));
    lemma_entry_target((KERNEL_PHYS_BASE + slot * 4096) as u64);
}

/// Nothing is mapped but the first 2 MiB and the window.
pub proof fn nothing_else_is_mapped(
    memory: Map<u64, Seq<u64>>,
    root: u64,
    offset: u64,
    max_phys_addr: u64,
    vaddr: u64,
)
    requires
        is_boot_space(memory, root, offset, max_phys_addr),
        vaddr & 0xFFFF_FFE0_0000 != 0,
        forall|i: int|
            0 <= i && 0x10_0000 + i * 4096 < max_phys_addr ==> page_of(vaddr) != #[trigger] page_of(
                (offset + i * 4096) as u64,
            ),
        offset < 0x10_0000_0000_0000,
        max_phys_addr < 0x10_0000_0000_0000,
    ensures
        translate(memory, root, vaddr) is None,
{
    lemma_above_low_memory(vaddr);
    let page = page_of(vaddr);
    let first = (page - offset as int / 4096) % (PAGE_COUNT as int);
    assert(walk(memory, root, vaddr) == page_entry(boot_frame(offset, max_phys_addr, page)));
    if first < window_pages(max_phys_addr) {
        assert(page_of((offset + first * 4096) as u64) == page);
    }
}

/// Every page that is mapped is present, writable and executable, at an
/// address of physical memory.
pub proof fn mapped_pages_are_writable(
    memory: Map<u64, Seq<u64>>,
    root: u64,
    offset: u64,
    max_phys_addr: u64,
    vaddr: u64,
)
    requires
        is_boot_space(memory, root, offset, max_phys_addr),
        offset < 0x10_0000_0000_0000,
        max_phys_addr < 0x10_0000_0000_0000,
    ensures
        walk(memory, root, vaddr) matches Some(entry) ==> {
            &&& entry & PRESENT == PRESENT && entry & 1 == 1
            &&& entry & WRITABLE == WRITABLE && entry & 2 == 2
            &&& entry & NO_EXECUTE == 0 && entry & 0x8000_0000_0000_0000 == 0
            &&& entry & !0x000f_ffff_ffff_f003 == 0
        },
{
    let page = page_of(vaddr);
    let frame = boot_frame(offset, max_phys_addr, page);
    assert(walk(memory, root, vaddr) == page_entry(frame));
    if let Some(address) = frame {
        assert(0 <= address < PHYS_ADDR_LIMIT);
        let bits = address as u64;
        assert(bits % 4096 == 0);
        assert((bits | (2u64 | 1u64)) & 1u64 == 1u64 && (bits | (2u64 | 1u64)) & 2u64 == 2u64 && (
        bits | (2u64 | 1u64)) & 0x8000_0000_0000_0000u64 == 0u64 && (bits | (2u64 | 1u64))
            & !0x000f_ffff_ffff_f003u64 == 0u64) by (bit_vector)
            requires
                bits < 0x10_0000_0000_0000u64,
                bits % 4096 == 0,
        ;
    }
}

proof fn lemma_writable_word(address: u64)
    requires
        is_frame_address(address),
    ensures
        ({
            let entry = address | (WRITABLE | PRESENT);
            &&& entry == directory_entry(address)
            &&& entry & !ADDRESS_MASK == PRESENT | WRITABLE
            &&& is_frame_address(target(entry))
        }),
{
    lemma_entry_target(address);
    assert(address | (2u64 | 1u64) == address | (1u64 | 2u64)) by (bit_vector);
    assert((address | (2u64 | 1u64)) & !0x000f_ffff_ffff_f000u64 == 1u64 | 2u64) by (bit_vector)
        requires
            address % 4096 == 0,
            address < 0x10_0000_0000_0000u64,
    ;
}

/// Every entry of every table of the address space, at all four levels, is zero
/// or has exactly two flags: present and writable. Its other bits are those of
/// the address of a frame.
pub proof fn entries_are_zero_or_writable(
    tables: PageTables,
    offset: u64,
    max_phys_addr: u64,
    address: u64,
    index: int,
)
    requires
        tables.wf(),
        forall|page: int| #[trigger]
            tables.leaf(page) == raw_entry(boot_frame(offset, max_phys_addr, page)),
        offset < PHYS_ADDR_LIMIT,
        max_phys_addr < PHYS_ADDR_LIMIT,
        tables.memory().contains_key(address),
        0 <= index < 512,
    ensures
        ({
            let entry = tables.memory()[address][index];
            entry != 0 ==> {
                &&& entry & !0x000f_ffff_ffff_f000 == 3
                &&& entry & !ADDRESS_MASK == PRESENT | WRITABLE
                &&& is_frame_address(target(entry))
            }
        }),
{
    assert(1u64 | 2u64 == 3u64) by (bit_vector);
    let key = tables.lemma_table_at(address);
    let below = ((key.0 - 1) as nat, key.1 * 512 + index);
    tables.lemma_table_words(key, index);
    if key.0 == 1 {
        if let Some(frame) = boot_frame(offset, max_phys_addr, below.1) {
            lemma_writable_word(frame as u64);
        }
    } else if tables.tables().contains(below) {
        tables.lemma_table_words(below, 0);
        lemma_writable_word(tables.table_address(below));
    }
}

/// What to add to a physical address to get a virtual address at which it is
/// visible. The window shows the memory from [`KERNEL_PHYS_BASE`] up, so where
/// it starts there or above, this is the virtual address of physical address
/// zero. A window below leaves no room for that, and the offset is that of the
/// low memory, which is mapped to itself: zero.
pub open spec fn memory_offset(offset_phys_addr: u64) -> int {
    if offset_phys_addr >= KERNEL_PHYS_BASE {
        offset_phys_addr - KERNEL_PHYS_BASE
    } else {
        0
    }
}

/// The offset of physical memory ([`memory_offset`]) in the address space with
/// its window at `offset_phys_addr`.
pub fn physical_memory_offset(offset_phys_addr: u64) -> (offset: u64)
    ensures
        offset == memory_offset(offset_phys_addr),
        offset_phys_addr >= 0x10_0000 ==> offset + 0x10_0000 == offset_phys_addr,
        offset_phys_addr <= 0x10_0000 ==> offset == 0,
{
    offset_phys_addr.saturating_sub(KERNEL_PHYS_BASE)
}

/// Physical memory is found at its offset: the byte at `phys` is visible at
/// `memory_offset + phys` wherever [`window_shows_physical_memory`] applies to a
/// window at 1 MiB or above.
pub proof fn offset_leads_to_physical_memory(
    memory: Map<u64, Seq<u64>>,
    root: u64,
    offset_phys_addr: u64,
    max_phys_addr: u64,
    phys: u64,
)
    requires
        is_boot_space(memory, root, offset_phys_addr, max_phys_addr),
        0x10_0000 <= offset_phys_addr < 0x10_0000_0000_0000,
        max_phys_addr < 0x10_0000_0000_0000,
        offset_phys_addr % 4096 == 0,
        max_phys_addr <= 0x1_0000_0010_0000,
        0x10_0000 <= phys < max_phys_addr,
        ((memory_offset(offset_phys_addr) + phys) as u64) & 0xFFFF_FFE0_0000 != 0,
    ensures
        memory_offset(offset_phys_addr) == offset_phys_addr - 0x10_0000,
        translate(memory, root, (memory_offset(offset_phys_addr) + phys) as u64) == Some(
            phys as int,
        ),
{
    window_shows_physical_memory(memory, root, offset_phys_addr, max_phys_addr, phys);
}

/// With the window at 1 MiB or below, the first 2 MiB of physical memory are
/// found at the offset.
pub proof fn offset_leads_to_low_memory(
    memory: Map<u64, Seq<u64>>,
    root: u64,
    offset_phys_addr: u64,
    max_phys_addr: u64,
    phys: u64,
)
    requires
        is_boot_space(memory, root, offset_phys_addr, max_phys_addr),
        offset_phys_addr <= 0x10_0000,
        phys < 0x20_0000,
    ensures
        memory_offset(offset_phys_addr) == 0,
        translate(memory, root, (memory_offset(offset_phys_addr) + phys) as u64) == Some(
            phys as int,
        ),
{
    low_memory_is_identity_mapped(memory, root, offset_phys_addr, max_phys_addr, phys);
}

/// With the window at 1 MiB, where it is put when the kernel is started, every
/// address of physical memory is mapped to itself, and so is every address
/// that is mapped at all.
pub proof fn window_at_base_is_identity(
    memory: Map<u64, Seq<u64>>,
    root: u64,
    max_phys_addr: u64,
    vaddr: u64,
)
    requires
        is_boot_space(memory, root, 0x10_0000, max_phys_addr),
        max_phys_addr <= 0x8000_0000_0000,
        vaddr < 0x8000_0000_0000,
    ensures
        translate(memory, root, vaddr) matches Some(phys) ==> phys == vaddr,
        vaddr < max_phys_addr ==> translate(memory, root, vaddr) == Some(vaddr as int),
{
    let page = page_of(vaddr);
    assert(page == vaddr as int / 4096);
    assert(walk(memory, root, vaddr) == page_entry(
        boot_frame(KERNEL_PHYS_BASE, max_phys_addr, page),
    ));
    lemma_entry_target((page * 4096) as u64);
}

/// How many tables of a level cover the first `pages` pages.
pub open spec fn tables_of_level(level: nat, pages: int) -> int {
    (pages + span(level) - 1) / span(level)
}

spec fn level_keys(level: nat, count: int) -> Set<(nat, int)> {
    vstd::set_lib::set_int_range(0, count).map(|number: int| (level, number))
}

/// The tables of a level that cover the first `pages` pages are the first ones.
proof fn lemma_covering_tables(level: nat, pages: int, page: int, number: int)
    requires
        1 <= level <= 4,
        0 < pages <= PAGE_COUNT,
    ensures
        0 <= page < pages ==> 0 <= table_number(level, page) < tables_of_level(level, pages),
        0 <= number < tables_of_level(level, pages) ==> {
            &&& 0 <= number * span(level) < pages
            &&& table_number(level, number * span(level)) == number
        },
        tables_of_level(4, pages) == 1,
{
    lemma_spans();
    let width = span(level);
    assert(0 < width);
    if 0 <= page < pages {
        assert(0 <= page / width < (pages + width - 1) / width) by (nonlinear_arith)
            requires
                0 <= page < pages,
                0 < width,
        ;
    }
    if 0 <= number < tables_of_level(level, pages) {
        assert(0 <= number * width <= pages - 1) by (nonlinear_arith)
            requires
                0 <= number < (pages + width - 1) / width,
                0 < width,
        ;
        vstd::arithmetic::div_mod::lemma_div_multiples_vanish(number, width);
        assert(number * width == width * number) by (nonlinear_arith);
    }
}

proof fn lemma_level_keys(level: nat, count: int)
    requires
        0 <= count,
    ensures
        level_keys(level, count).finite(),
        level_keys(level, count).len() == count,
        forall|key: (nat, int)| #[trigger]
            level_keys(level, count).contains(key) <==> key.0 == level && 0 <= key.1 < count,
{
    let numbers = vstd::set_lib::set_int_range(0, count);
    let key_of = |number: int| (level, number);
    vstd::set_lib::lemma_int_range(0, count);
    numbers.lemma_map_finite(key_of);
    assert forall|key: (nat, int)| #[trigger] level_keys(level, count).contains(key) <==> key.0
        == level && 0 <= key.1 < count by {
        if key.0 == level && 0 <= key.1 < count {
            assert(numbers.contains(key.1) && key_of(key.1) == key);
        }
    }
    vstd::set_lib::lemma_map_size(numbers, level_keys(level, count), key_of);
}

/// To map the first `pages` pages takes one root table, and as many tables of
/// each level below as it takes to cover them.
pub proof fn contiguous_pages_take_this_many_tables(pages: int)
    requires
        0 < pages <= PAGE_COUNT,
    ensures
        tables_for(Set::new(|page: int| 0 <= page < pages)).len() == 1 + tables_of_level(3, pages)
            + tables_of_level(2, pages) + tables_of_level(1, pages),
        tables_of_level(3, pages) == (pages + 0x7FF_FFFF) / 0x800_0000,
        tables_of_level(2, pages) == (pages + 0x3_FFFF) / 0x4_0000,
        tables_of_level(1, pages) == (pages + 0x1FF) / 0x200,
{
    lemma_spans();
    let low = Set::new(|page: int| 0 <= page < pages);
    let keys4 = level_keys(4, 1);
    let keys3 = level_keys(3, tables_of_level(3, pages));
    let keys2 = level_keys(2, tables_of_level(2, pages));
    let keys1 = level_keys(1, tables_of_level(1, pages));
    lemma_level_keys(4, 1);
    lemma_level_keys(3, tables_of_level(3, pages));
    lemma_level_keys(2, tables_of_level(2, pages));
    lemma_level_keys(1, tables_of_level(1, pages));
    let keys = keys4.union(keys3).union(keys2).union(keys1);
    assert forall|key: (nat, int)| tables_for(low).contains(key) == keys.contains(key) by {
        if tables_for(low).contains(key) {
            if key != (4nat, 0int) {
                let page = choose|page: int| #[trigger]
                    low.contains(page) && path_tables(page).contains(key);
                lemma_covering_tables(key.0, pages, page, 0);
            }
        }
        if keys.contains(key) {
            lemma_covering_tables(4, pages, 0, 0);
            lemma_covering_tables(key.0, pages, 0, key.1);
            let page = key.1 * span(key.0);
            assert(low.contains(page) && path_tables(page).contains(key));
        }
    }
    assert(tables_for(low) =~= keys);
    vstd::set_lib::lemma_set_disjoint_lens(keys4, keys3);
    vstd::set_lib::lemma_set_disjoint_lens(keys4.union(keys3), keys2);
    vstd::set_lib::lemma_set_disjoint_lens(keys4.union(keys3).union(keys2), keys1);
}

/// With the window at 1 MiB, where it is put when the kernel is started, and at
/// least 2 MiB of physical memory, the address space takes as many tables as it
/// takes to map physical memory up to `max_phys_addr`.
pub proof fn boot_space_takes_this_many_tables(max_phys_addr: u64)
    requires
        0x20_0000 <= max_phys_addr <= 0x1_0000_0000_0000,
    ensures
        ({
            let pages = (max_phys_addr + 4095) / 4096;
            &&& boot_tables(KERNEL_PHYS_BASE, max_phys_addr).len() == 1 + tables_of_level(3, pages)
                + tables_of_level(2, pages) + tables_of_level(1, pages)
            &&& boot_tables(0x10_0000, max_phys_addr).len() == 1 + (pages + 0x7FF_FFFF) / 0x800_0000 + (
            pages + 0x3_FFFF) / 0x4_0000 + (pages + 511) / 512
        }),
{
    lemma_spans();
    let pages = (max_phys_addr + 4095) / 4096;
    assert(boot_pages(KERNEL_PHYS_BASE, max_phys_addr) =~= Set::new(
        |page: int| 0 <= page < pages,
    ));
    contiguous_pages_take_this_many_tables(pages);
}

/// The frames that the boot loader takes are enough for the page tables of the
/// address space up to 250 MiB of physical memory, and not for more: beside
/// three tables above, each 2 MiB take one table.
#[verifier::spinoff_prover]
pub proof fn boot_pages_hold_tables_up_to_250_mib(max_phys_addr: u64)
    requires
        0x20_0000 <= max_phys_addr <= 0x1_0000_0000_0000,
    ensures
        boot_tables(KERNEL_PHYS_BASE, max_phys_addr).len() <= BOOT_PAGES <==> max_phys_addr
            <= 0xFA0_0000,
        boot_tables(0x10_0000, max_phys_addr).len() <= 128 <==> max_phys_addr <= 0xFA0_0000,
        BOOT_PAGES == 128,
{
    boot_space_takes_this_many_tables(max_phys_addr);
    lemma_spans();
    let pages = (max_phys_addr + 4095) / 4096;
    assert(0xFA0_0000 == 64000 * 4096);
    assert(pages <= 64000 <==> max_phys_addr <= 0xFA0_0000);
    let directory1 = tables_of_level(1, pages);
    let directory2 = tables_of_level(2, pages);
    let directory3 = tables_of_level(3, pages);
    assert(directory1 == (pages + 511) / 512);
    assert(directory2 == (pages + 0x3_FFFF) / 0x4_0000);
    assert(directory3 == (pages + 0x7FF_FFFF) / 0x800_0000);
    assert(directory1 >= 1 && directory2 >= 1 && directory3 >= 1);
    if pages <= 64000 {
        assert(directory1 <= 125 && directory2 == 1 && directory3 == 1);
    } else {
        assert(directory1 >= 126);
    }
}

/// The window has just as many pages as it takes to reach the end of physical
/// memory from 1 MiB on.
pub proof fn window_reaches_the_end_of_memory(max_phys_addr: u64)
    ensures
        window_pages(max_phys_addr) >= 0,
        0x10_0000 + window_pages(max_phys_addr) * 4096 >= max_phys_addr,
        window_pages(max_phys_addr) > 0 ==> 0x10_0000 + (window_pages(max_phys_addr) - 1) * 4096
            < max_phys_addr,
{
}

/// What is left of a number after its whole rounds of `size`.
proof fn lemma_rounds(i: int, rest: int, size: int)
    requires
        0 <= i,
        0 <= rest < size,
    ensures
        (i - i % size + rest) % size == rest,
{
    vstd::arithmetic::div_mod::lemma_fundamental_div_mod(i, size);
    vstd::arithmetic::div_mod::lemma_mod_multiples_vanish(i / size, rest, size);
    vstd::arithmetic::div_mod::lemma_small_mod(rest as nat, size as nat);
    assert(i - i % size + rest == size * (i / size) + rest);
}

/// The last page of the window that comes to a page of the address space.
#[verifier::spinoff_prover]
proof fn lemma_last_slot(offset: u64, count: int, i: int)
    requires
        0 <= i < count <= i + PAGE_COUNT,
        offset + i * 4096 <= u64::MAX,
    ensures
        window_slot(offset, count, page_of((offset + i * 4096) as u64)) == Some(i),
{
    let size = PAGE_COUNT as int;
    let start = offset as int / 4096;
    let page = page_of((offset + i * 4096) as u64);
    assert(page == (start + i) % size);
    assert((page - start) % size == i % size);
    lemma_rounds(i, count - 1 - i, size);
    assert(count - 1 - i % size == i - i % size + (count - 1 - i));
}

/// What each page of the window shows, for every window, also one that starts
/// inside a page or is larger than the address space. Page `i` of the window is
/// that of the virtual address `offset + i * 4096`. Above the first 2 MiB it
/// shows the frame at 1 MiB and `i` pages, unless the window comes round to the
/// same page again, 2^36 pages later.
#[verifier::spinoff_prover]
pub proof fn window_pages_show_their_frames(
    memory: Map<u64, Seq<u64>>,
    root: u64,
    offset: u64,
    max_phys_addr: u64,
    i: int,
    vaddr: u64,
)
    requires
        is_boot_space(memory, root, offset, max_phys_addr),
        offset < 0x10_0000_0000_0000,
        max_phys_addr < 0x10_0000_0000_0000,
        0 <= i,
        0x10_0000 + i * 4096 < max_phys_addr,
        0x10_0000 + (i + 0x10_0000_0000) * 4096 >= max_phys_addr,
        (vaddr >> 12) & 0xF_FFFF_FFFF == (((offset + i * 4096) as u64) >> 12) & 0xF_FFFF_FFFF,
        vaddr & 0xFFFF_FFE0_0000 != 0,
    ensures
        translate(memory, root, vaddr) == Some(0x10_0000 + i * 4096 + (vaddr & 0xFFF)),
{
    let virt = (offset + i * 4096) as u64;
    let page = page_of(vaddr);
    page_is_bits_12_to_47(vaddr, virt);
    page_is_bits_12_to_47(virt, vaddr);
    lemma_above_low_memory(vaddr);
    assert(vaddr & 0xFFF == vaddr % 4096) by (bit_vector);
    lemma_last_slot(offset, window_pages(max_phys_addr), i);
    assert(walk(memory, root, vaddr) == page_entry(boot_frame(offset, max_phys_addr, page)));
    lemma_entry_target((KERNEL_PHYS_BASE + i * 4096) as u64);
}

/// The raw entry of a page: its frame with the two lowest bits set, or zero. The
/// processor finds it where it is not zero.
pub proof fn page_entries_hold_their_frame(address: u64)
    requires
        is_frame_address(address),
    ensures
        raw_entry(Some(address as int)) == address + 3,
        page_entry(Some(address as int)) == Some(raw_entry(Some(address as int))),
        raw_entry(None) == 0,
        page_entry(None) is None,
{
    assert(address | (2u64 | 1u64) == address + 3) by (bit_vector)
        requires
            address % 4096 == 0,
            address < 0x10_0000_0000_0000u64,
    ;
}

/// The tables of the address space are the root and the tables on the way to
/// each virtual address that is mapped: of level 3, 2 and 1, known by the bits of
/// the address from 39, 30 and 21 on.
pub proof fn tables_lead_to_mapped_addresses(
    memory: Map<u64, Seq<u64>>,
    root: u64,
    offset: u64,
    max_phys_addr: u64,
    vaddr: u64,
)
    requires
        is_boot_space(memory, root, offset, max_phys_addr),
        translate(memory, root, vaddr) is Some,
    ensures
        boot_tables(offset, max_phys_addr).contains((4, 0)),
        boot_tables(offset, max_phys_addr).contains((3, ((vaddr >> 39) & 0x1FF) as int)),
        boot_tables(offset, max_phys_addr).contains((2, ((vaddr >> 30) & 0x3_FFFF) as int)),
        boot_tables(offset, max_phys_addr).contains((1, ((vaddr >> 21) & 0x7FF_FFFF) as int)),
{
    let page = page_of(vaddr);
    assert(walk(memory, root, vaddr) == page_entry(boot_frame(offset, max_phys_addr, page)));
    assert(boot_pages(offset, max_phys_addr).contains(page));
    tables_are_numbered_by_the_bits_above(vaddr);
    assert(path_tables(page).contains((3nat, table_number(3, page))));
    assert(path_tables(page).contains((2nat, table_number(2, page))));
    assert(path_tables(page).contains((1nat, table_number(1, page))));
}

/// There is no table that leads nowhere: each but the root is on the way to a
/// virtual address that is mapped.
pub proof fn every_table_leads_somewhere(
    memory: Map<u64, Seq<u64>>,
    root: u64,
    offset: u64,
    max_phys_addr: u64,
    key: (nat, int),
) -> (vaddr: u64)
    requires
        is_boot_space(memory, root, offset, max_phys_addr),
        boot_tables(offset, max_phys_addr).contains(key),
        key != (4nat, 0int),
    ensures
        translate(memory, root, vaddr) is Some,
        key == (3nat, ((vaddr >> 39) & 0x1FF) as int) || key == (
            2nat,
            ((vaddr >> 30) & 0x3_FFFF) as int,
        ) || key == (1nat, ((vaddr >> 21) & 0x7FF_FFFF) as int),
{
    let pages = boot_pages(offset, max_phys_addr);
    let page = choose|page: int| #[trigger] pages.contains(page) && path_tables(page).contains(key);
    let vaddr = (page * 4096) as u64;
    assert(0 <= page < PAGE_COUNT);
    assert(page_of(vaddr) == page);
    assert(walk(memory, root, vaddr) == page_entry(boot_frame(offset, max_phys_addr, page)));
    tables_are_numbered_by_the_bits_above(vaddr);
    assert(key.0 == 1 || key.0 == 2 || key.0 == 3 || key.0 == 4);
    vaddr
}

/// To map pages takes the root and, for each page, the tables on the way to it.
pub proof fn tables_for_pages_are_those_on_the_way(pages: Set<int>, key: (nat, int))
    ensures
        tables_for(pages).contains((4, 0)),
        tables_for(pages).contains(key) && key != (4nat, 0int) <==> key != (4nat, 0int) && exists|
            page: int,
        | #[trigger]
            pages.contains(page) && (key == (1nat, page / 0x200) || key == (2nat, page / 0x4_0000)
                || key == (3nat, page / 0x800_0000) || key == (4nat, page / 0x10_0000_0000)),
{
    if key != (4nat, 0int) && tables_for(pages).contains(key) {
        let page = choose|page: int| #[trigger]
            pages.contains(page) && path_tables(page).contains(key);
        path_has_one_table_of_each_level(page, key);
    }
    if exists|page: int| #[trigger]
        pages.contains(page) && (key == (1nat, page / 0x200) || key == (2nat, page / 0x4_0000)
            || key == (3nat, page / 0x800_0000) || key == (4nat, page / 0x10_0000_0000)) {
        let page = choose|page: int| #[trigger]
            pages.contains(page) && (key == (1nat, page / 0x200) || key == (2nat, page / 0x4_0000)
                || key == (3nat, page / 0x800_0000) || key == (4nat, page / 0x10_0000_0000));
        path_has_one_table_of_each_level(page, key);
        assert(pages.contains(page) && path_tables(page).contains(key));
    }
}

/// The offset of physical memory moves with the window: a window at 1 MiB has
/// none, one that is further up by some distance has that distance, and one
/// below has none either.
pub proof fn memory_offset_moves_with_the_window(offset_phys_addr: u64, distance: u64)
    ensures
        offset_phys_addr <= 0x10_0000 ==> memory_offset(offset_phys_addr) == 0,
        0x10_0000 <= offset_phys_addr && offset_phys_addr + distance <= u64::MAX ==> memory_offset(
            (offset_phys_addr + distance) as u64,
        ) == memory_offset(offset_phys_addr) + distance,
{
}

} // verus!
