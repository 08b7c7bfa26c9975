//! Four-level page tables under construction: the tables, the physical frames
//! that they occupy, and the mapping that the processor will read from them.

use crate::frames::{are_distinct_frames, FrameSupply};
use crate::lower_half::{passes_lower_half, LOWER_HALF_ENTRIES};
use crate::mmu::{
    entry_index, is_present, lemma_descent, lemma_spans, page_of, table_index, table_number, target,
    walk, walk_from, PAGE_COUNT,
};
use crate::page_table::{
    empty_table, entry_addr, entry_is_unused, is_frame_address, set_entry, table_entries, PRESENT,
    WRITABLE,
};
use vstd::prelude::*;
use x86_64::structures::paging::page_table::PageTable;

verus! {

/// Why page tables could not be built.
#[derive(Debug, Clone, Copy, PartialEq, Eq, Structural)]
pub enum PagingError {
    /// A page table was needed and no frame was left for it.
    OutOfFrames,
}

/// A page table and the physical address of the frame that holds it.
pub struct TableFrame {
    pub address: u64,
    pub table: PageTable,
}

/// Page tables that hang together in one tree. The first frame holds the root
/// (the PML4).
///
/// A table is known by its level and its number among the tables of that level
/// (see [`table_number`]). `slots` gives the position of each table in
/// `frames`, and `keys` the table at each position.
pub struct PageTables {
    frames: Vec<TableFrame>,
    keys: Ghost<Seq<(nat, int)>>,
    slots: Ghost<Map<(nat, int), int>>,
}

/// The tables that a walk to `page` goes through, one of each level.
pub open spec fn path_tables(page: int) -> Set<(nat, int)> {
    Set::new(|key: (nat, int)| 1 <= key.0 <= 4 && key.1 == table_number(key.0, page))
}

spec fn path_tables_from(level: nat, page: int) -> Set<(nat, int)> {
    Set::new(|key: (nat, int)| level <= key.0 <= 4 && key.1 == table_number(key.0, page))
}

proof fn lemma_path_tables_finite(page: int)
    ensures
        path_tables(page).finite(),
{
    let keys: Set<(nat, int)> = set![
        (1, table_number(1, page)),
        (2, table_number(2, page)),
        (3, table_number(3, page)),
        (4, table_number(4, page)),
    ];
    assert(path_tables(page) =~= keys);
}

/// A walk to a page goes through one table of each level, whose number is that
/// of the page without its low bits: nine for level 1, and nine more for each
/// level above.
pub proof fn path_has_one_table_of_each_level(page: int, key: (nat, int))
    ensures
        path_tables(page).contains(key) <==> {
            ||| key == (1nat, page / 0x200)
            ||| key == (2nat, page / 0x4_0000)
            ||| key == (3nat, page / 0x800_0000)
            ||| key == (4nat, page / 0x10_0000_0000)
        },
{
    lemma_spans();
}

/// A table refers to the table below it by its address, with the two lowest bits
/// set: present and writable.
pub proof fn directories_are_present_and_writable(address: u64)
    requires
        is_frame_address(address),
    ensures
        directory_entry(address) == address + 3,
{
    assert(address | (1u64 | 2u64) == address + 3) by (bit_vector)
        requires
            address % 4096 == 0,
            address < 0x10_0000_0000_0000u64,
    ;
}

/// The entry by which a table refers to the table below it.
pub open spec fn directory_entry(address: u64) -> u64 {
    address | (PRESENT | WRITABLE)
}

proof fn lemma_directory_entry(address: u64)
    requires
        is_frame_address(address),
    ensures
        is_present(directory_entry(address)),
        target(directory_entry(address)) == address,
        directory_entry(address) != 0,
        !is_present(0),
{
    assert((address | (1u64 | 2u64)) & 1u64 == 1u64) by (bit_vector);
    assert((address | (1u64 | 2u64)) & 0x000f_ffff_ffff_f000u64 == address) by (bit_vector)
        requires
            address % 4096 == 0,
            address < 0x10_0000_0000_0000u64,
    ;
    assert((address | (1u64 | 2u64)) != 0) by (bit_vector);
    assert(0u64 & 1u64 == 0u64) by (bit_vector);
}

impl PageTables {
    /// The physical addresses of the tables, in the order in which they were
    /// made.
    pub closed spec fn addresses(self) -> Seq<u64> {
        self.frames@.map_values(|f: TableFrame| f.address)
    }

    /// The physical address of the root table.
    pub closed spec fn root(self) -> u64 {
        self.addresses()[0]
    }

    /// The tables as they lie in physical memory: entries by address.
    pub closed spec fn memory(self) -> Map<u64, Seq<u64>> {
        Map::new(
            |address: u64| self.addresses().contains(address),
            |address: u64| self.entries(self.addresses().index_of(address)),
        )
    }

    /// The tables that exist, as level and number.
    pub closed spec fn tables(self) -> Set<(nat, int)> {
        self.slots@.dom()
    }

    /// The physical address of a table, known by its level and number.
    pub closed spec fn table_address(self, key: (nat, int)) -> u64 {
        self.addresses()[self.slots@[key]]
    }

    spec fn entries(self, slot: int) -> Seq<u64> {
        table_entries(self.frames@[slot].table)
    }

    /// The level 1 entry for a page; zero where there is no level 1 table.
    pub closed spec fn leaf(self, page: int) -> u64 {
        if self.slots@.contains_key((1, page / 512)) {
            self.entries(self.slots@[(1, page / 512)])[page % 512]
        } else {
            0
        }
    }

    spec fn numbering_wf(self) -> bool {
        &&& self.keys@.len() == self.frames@.len()
        &&& self.keys@.len() > 0
        &&& self.keys@[0] == (4nat, 0int)
        &&& forall|i: int|
            0 <= i < self.keys@.len() ==> self.slots@.contains_key(#[trigger] self.keys@[i])
                && self.slots@[self.keys@[i]] == i
        &&& forall|key: (nat, int)| #[trigger]
            self.slots@.contains_key(key) ==> {
                &&& 0 <= self.slots@[key] < self.keys@.len()
                &&& self.keys@[self.slots@[key]] == key
                &&& 1 <= key.0 <= 4
                &&& 0 <= key.1
            }
        &&& forall|key: (nat, int)| #[trigger]
            self.slots@.contains_key(key) && key.0 < 4 ==> self.slots@.contains_key(
                (key.0 + 1, key.1 / 512),
            )
    }

    spec fn directory_wf(self, slot: int) -> bool {
        let key = self.keys@[slot];
        key.0 > 1 ==> forall|i: int|
            0 <= i < 512 ==> #[trigger] self.entries(slot)[i] == {
                let below = ((key.0 - 1) as nat, key.1 * 512 + i);
                if self.slots@.contains_key(below) {
                    directory_entry(self.frames@[self.slots@[below]].address)
                } else {
                    0
                }
            }
    }

    /// The tables form a tree: they lie in distinct frames, every entry of a
    /// table of level 2 to 4 is zero or refers to the table below it, and every
    /// table but the root is referred to.
    pub closed spec fn wf(self) -> bool {
        &&& self.numbering_wf()
        &&& are_distinct_frames(self.addresses())
        &&& forall|i: int|
            0 <= i < self.frames@.len() ==> #[trigger] self.entries(i).len() == 512
                && self.directory_wf(i)
    }

    /// None of the tables lies in a frame that is still to be handed out.
    pub open spec fn apart_from(self, frames: Seq<u64>) -> bool {
        forall|i: int, j: int|
            0 <= i < self.addresses().len() && 0 <= j < frames.len()
                ==> #[trigger] self.addresses()[i] != #[trigger] frames[j]
    }

    /// These tables are those of `before` and new ones, and the new ones took
    /// the first of the frames that were free then, in order.
    pub open spec fn grown_from(
        self,
        before: PageTables,
        free_before: Seq<u64>,
        free: Seq<u64>,
    ) -> bool {
        let taken = self.addresses().len() - before.addresses().len();
        &&& 0 <= taken <= free_before.len()
        &&& self.addresses() == before.addresses() + free_before.take(taken)
        &&& free == free_before.skip(taken)
        &&& self.root() == before.root()
    }

    proof fn lemma_grown_twice(
        self,
        first: PageTables,
        free_first: Seq<u64>,
        second: PageTables,
        free_second: Seq<u64>,
        free: Seq<u64>,
    )
        requires
            second.grown_from(first, free_first, free_second),
            self.grown_from(second, free_second, free),
        ensures
            self.grown_from(first, free_first, free),
    {
        let taken = self.addresses().len() - first.addresses().len();
        assert(self.addresses() =~= first.addresses() + free_first.take(taken));
        assert(free =~= free_first.skip(taken));
    }

    /// There is one table for each frame in use.
    pub proof fn lemma_tables_len(self)
        requires
            self.wf(),
        ensures
            self.tables().finite(),
            self.tables().len() == self.addresses().len(),
            self.tables().contains((4, 0)),
    {
        assert(self.tables() =~= self.keys@.to_set()) by {
            assert forall|key: (nat, int)| self.tables().contains(key) implies
                self.keys@.to_set().contains(key) by {
                assert(self.keys@[self.slots@[key]] == key);
            }
        }
        assert(self.keys@.no_duplicates());
        self.keys@.unique_seq_to_set();
        vstd::seq_lib::seq_to_set_is_finite(self.keys@);
        assert(self.tables().contains(self.keys@[0]));
    }

    /// A root table without entries, in the next free frame.
    pub fn new(frames: &mut FrameSupply) -> (result: Result<PageTables, PagingError>)
        requires
            old(frames).wf(),
        ensures
            final(frames).wf(),
            result is Err <==> old(frames)@.len() == 0,
            result is Err ==> final(frames)@ == old(frames)@,
            result matches Ok(t) ==> {
                &&& t.wf()
                &&& t.apart_from(final(frames)@)
                &&& t.tables() == set![(4nat, 0int)]
                &&& t.addresses() == old(frames)@.take(1)
                &&& t.root() == old(frames)@[0]
                &&& final(frames)@ == old(frames)@.skip(1)
                &&& forall|page: int| #[trigger] t.leaf(page) == 0
            },
    {
        proof {
            frames.lemma_wf();
        }
        match frames.allocate_frame() {
            None => Err(PagingError::OutOfFrames),
            Some(address) => {
                let mut tables: Vec<TableFrame> = Vec::new();
                tables.push(TableFrame { address, table: empty_table() });
                let ghost key = (4nat, 0int);
                let ghost keys = seq![key];
                let ghost slots = map![key => 0int];
                let built = PageTables { frames: tables, keys: Ghost(keys), slots: Ghost(slots) };
                assert(built.addresses() =~= old(frames)@.take(1));
                assert(built.tables() =~= set![key]);
                Ok(built)
            },
        }
    }

    /// The physical address of the root table.
    pub fn root_address(&self) -> (address: u64)
        requires
            self.wf(),
        ensures
            address == self.root(),
    {
        self.frames[0].address
    }

    /// The tables with their frames, the root first, to be written to physical
    /// memory.
    pub fn into_frames(self) -> (frames: Vec<TableFrame>)
        requires
            self.wf(),
        ensures
            frames@.len() == self.addresses().len(),
            frames@.len() > 0,
            frames@[0].address == self.root(),
            forall|i: int|
                #![trigger frames@[i]]
                0 <= i < frames@.len() ==> {
                    &&& frames@[i].address == self.addresses()[i]
                    &&& self.memory()[frames@[i].address] == table_entries(frames@[i].table)
                },
            forall|address: u64| #[trigger]
                self.memory().contains_key(address) <==> self.addresses().contains(address),
    {
        proof {
            assert forall|i: int|
                #![trigger self.frames@[i]]
                0 <= i < self.frames@.len() implies self.memory()[self.frames@[i].address]
                == table_entries(self.frames@[i].table) by {
                self.lemma_memory(i);
            }
        }
        self.frames
    }

    /// The position of the table at a physical address.
    fn find(&self, address: u64) -> (slot: usize)
        requires
            self.addresses().contains(address),
        ensures
            slot < self.frames@.len(),
            self.frames@[slot as int].address == address,
    {
        let ghost known = self.addresses().index_of(address);
        assert(self.addresses()[known] == address);
        let mut slot: usize = 0;
        while self.frames[slot].address != address
            invariant
                slot <= known < self.frames.len(),
                self.frames@[known].address == address,
            decreases known - slot,
        {
            slot += 1;
        }
        slot
    }

    /// The position of the table that entry `index` of the table at position
    /// `parent` refers to. Where the entry is unused, an empty table in the next
    /// free frame becomes that table.
    fn next_table(
        &mut self,
        parent: usize,
        index: usize,
        frames: &mut FrameSupply,
    ) -> (below: Option<usize>)
        requires
            old(self).wf(),
            old(frames).wf(),
            old(self).apart_from(old(frames)@),
            parent < old(self).frames@.len(),
            old(self).keys@[parent as int].0 > 1,
            index < 512,
        ensures
            final(self).wf(),
            final(frames).wf(),
            final(self).apart_from(final(frames)@),
            forall|page: int| #[trigger] final(self).leaf(page) == old(self).leaf(page),
            final(self).grown_from(*old(self), old(frames)@, final(frames)@),
            ({
                let key = old(self).keys@[parent as int];
                let child = ((key.0 - 1) as nat, key.1 * 512 + index);
                let known = old(self).tables().contains(child);
                &&& below is None <==> !known && old(frames)@.len() == 0
                &&& below is None ==> *final(self) == *old(self)
                &&& below matches Some(slot) ==> {
                    &&& slot < final(self).frames@.len()
                    &&& final(self).keys@[slot as int] == child
                    &&& final(self).tables() == old(self).tables().insert(child)
                }
            }),
    {
        let ghost key = self.keys@[parent as int];
        let ghost child = ((key.0 - 1) as nat, key.1 * 512 + index);
        let ghost before = *self;
        proof {
            assert(self.entries(parent as int).len() == 512 && self.directory_wf(parent as int));
            assert(self.entries(parent as int)[index as int] == if self.slots@.contains_key(child) {
                directory_entry(self.frames@[self.slots@[child]].address)
            } else {
                0
            });
            frames.lemma_wf();
            assert(self.addresses() =~= self.addresses() + frames@.take(0));
            assert(frames@ =~= frames@.skip(0));
        }
        if entry_is_unused(&self.frames[parent].table, index) {
            proof {
                if self.slots@.contains_key(child) {
                    assert(is_frame_address(self.addresses()[self.slots@[child]]));
                    lemma_directory_entry(self.frames@[self.slots@[child]].address);
                }
            }
            match frames.allocate_frame() {
                None => None,
                Some(address) => {
                    let slot: usize = self.frames.len();
                    self.frames.push(TableFrame { address, table: empty_table() });
                    set_entry(&mut self.frames[parent].table, index, address, PRESENT | WRITABLE);
                    proof {
                        self.keys@ = self.keys@.push(child);
                        self.slots@ = self.slots@.insert(child, slot as int);
                        before.lemma_table_added(*self, parent as int, index as int, address);
                        assert(self.addresses() =~= before.addresses() + old(frames)@.take(1));
                    }
                    Some(slot)
                },
            }
        } else {
            let address: u64 = entry_addr(&self.frames[parent].table, index);
            proof {
                let slot = self.slots@[child];
                assert(is_frame_address(self.addresses()[slot]));
                lemma_directory_entry(self.frames@[slot].address);
                assert(self.addresses()[slot] == address);
                assert(self.tables().insert(child) =~= self.tables());
            }
            let slot: usize = self.find(address);
            proof {
                let known = self.slots@[child];
                assert(self.addresses()[slot as int] == self.addresses()[known]);
            }
            Some(slot)
        }
    }

    /// The tables once a mapping of `page` has been added.
    pub open spec fn tables_with(self, page: int) -> Set<(nat, int)> {
        self.tables().union(path_tables(page))
    }

    /// Maps the 4 KiB page of `virt` to the frame at `phys`. Tables that are
    /// missing on the way are made in the next free frames.
    pub fn map_page(
        &mut self,
        virt: u64,
        phys: u64,
        flags: u64,
        frames: &mut FrameSupply,
    ) -> (result: Result<(), PagingError>)
        requires
            old(self).wf(),
            old(frames).wf(),
            old(self).apart_from(old(frames)@),
            is_frame_address(phys),
        ensures
            final(self).wf(),
            final(frames).wf(),
            final(self).apart_from(final(frames)@),
            final(self).grown_from(*old(self), old(frames)@, final(frames)@),
            result is Err <==> old(self).tables_with(page_of(virt)).len() > old(
                self,
            ).tables().len() + old(frames)@.len(),
            result is Err ==> final(frames)@.len() == 0,
            result is Ok ==> final(self).tables() == old(self).tables_with(page_of(virt)),
            forall|page: int| #[trigger]
                final(self).leaf(page) == if result is Ok && page == page_of(virt) {
                    phys | (flags | PRESENT)
                } else {
                    old(self).leaf(page)
                },
            forall|vaddr: u64| #[trigger]
                walk(final(self).memory(), final(self).root(), vaddr) == if result is Ok && page_of(
                    vaddr,
                ) == page_of(virt) {
                    Some(phys | (flags | PRESENT))
                } else {
                    walk(old(self).memory(), old(self).root(), vaddr)
                },
    {
        let ghost page = page_of(virt);
        let ghost needed = self.tables_with(page);
        proof {
            self.lemma_tables_len();
            lemma_path_tables_finite(page);
            lemma_descent(3, page);
            assert(self.addresses() =~= self.addresses() + frames@.take(0));
            assert(frames@ =~= frames@.skip(0));
            assert(self.tables() =~= self.tables().union(path_tables_from(4, page)));
        }
        let mut slot: usize = 0;
        let mut level: u8 = 4;
        while level > 1
            invariant
                1 <= level <= 4,
                page == page_of(virt),
                needed == old(self).tables_with(page),
                needed.finite(),
                old(self).wf(),
                self.wf(),
                frames.wf(),
                self.apart_from(frames@),
                self.grown_from(*old(self), old(frames)@, frames@),
                slot < self.frames@.len(),
                self.keys@[slot as int] == (level as nat, table_number(level as nat, page)),
                self.tables() == old(self).tables().union(path_tables_from(level as nat, page)),
                forall|p: int| #[trigger] self.leaf(p) == old(self).leaf(p),
            decreases level,
        {
            let ghost before = *self;
            let ghost free_before = frames@;
            let ghost lower = (level - 1) as nat;
            let ghost child = (lower, table_number(lower, page));
            proof {
                lemma_descent(lower, page);
                old(self).lemma_tables_len();
                self.lemma_tables_len();
            }
            let found = self.next_table(slot, table_index(virt, level), frames);
            proof {
                self.lemma_grown_twice(*old(self), old(frames)@, before, free_before, frames@);
            }
            match found {
                None => {
                    proof {
                        assert(self.tables().insert(child).subset_of(needed));
                        vstd::set_lib::lemma_len_subset(self.tables().insert(child), needed);
                        assert forall|vaddr: u64| #[trigger]
                            walk(self.memory(), self.root(), vaddr) == walk(
                                old(self).memory(),
                                old(self).root(),
                                vaddr,
                            ) by {
                            self.lemma_walk(vaddr);
                            old(self).lemma_walk(vaddr);
                        }
                    }
                    return Err(PagingError::OutOfFrames);
                },
                Some(below) => {
                    proof {
                        assert(self.tables() =~= old(self).tables().union(
                            path_tables_from(lower, page),
                        ));
                    }
                    slot = below;
                },
            }
            level -= 1;
        }
        let ghost before = *self;
        set_entry(&mut self.frames[slot].table, table_index(virt, 1), phys, flags | PRESENT);
        proof {
            lemma_spans();
            before.lemma_leaf_set(*self, slot as int, page, phys | (flags | PRESENT));
            assert(path_tables_from(1, page) =~= path_tables(page));
            old(self).lemma_tables_len();
            self.lemma_tables_len();
            assert((phys | (flags | 1u64)) & 1u64 == 1u64) by (bit_vector);
            assert forall|vaddr: u64| #[trigger] walk(self.memory(), self.root(), vaddr) == if page_of(
                vaddr,
            ) == page {
                Some(phys | (flags | PRESENT))
            } else {
                walk(old(self).memory(), old(self).root(), vaddr)
            } by {
                self.lemma_walk(vaddr);
                old(self).lemma_walk(vaddr);
            }
        }
        Ok(())
    }
}

impl PageTables {
    /// An empty table was put into a fresh frame, and the unused entry `index`
    /// of the directory at position `parent` now refers to it.
    proof fn lemma_table_added(self, after: PageTables, parent: int, index: int, address: u64)
        requires
            self.wf(),
            0 <= parent < self.frames@.len(),
            self.keys@[parent].0 > 1,
            0 <= index < 512,
            is_frame_address(address),
            !self.addresses().contains(address),
            ({
                let key = self.keys@[parent];
                let child = ((key.0 - 1) as nat, key.1 * 512 + index);
                let slot = self.frames@.len() as int;
                &&& !self.slots@.contains_key(child)
                &&& after.keys@ == self.keys@.push(child)
                &&& after.slots@ == self.slots@.insert(child, slot)
                &&& after.frames@.len() == slot + 1
                &&& after.frames@[slot].address == address
                &&& after.entries(slot) == Seq::new(512, |i: int| 0u64)
                &&& after.frames@[parent].address == self.frames@[parent].address
                &&& after.entries(parent) == self.entries(parent).update(
                    index,
                    directory_entry(address),
                )
                &&& forall|i: int|
                    0 <= i < slot && i != parent ==> #[trigger] after.frames@[i] == self.frames@[i]
            }),
        ensures
            after.wf(),
            after.addresses() == self.addresses().push(address),
            forall|page: int| #[trigger] after.leaf(page) == self.leaf(page),
    {
        let key = self.keys@[parent];
        let child = ((key.0 - 1) as nat, key.1 * 512 + index);
        let slot = self.frames@.len() as int;
        assert(after.addresses() =~= self.addresses().push(address));
        assert(after.numbering_wf()) by {
            assert forall|k: (nat, int)| #[trigger] after.slots@.contains_key(k) && k.0 < 4 implies
                after.slots@.contains_key((k.0 + 1, k.1 / 512)) by {
                if k == child {
                    assert(child.1 / 512 == key.1);
                } else {
                    assert(self.slots@.contains_key(k));
                }
            }
        }
        assert forall|i: int| 0 <= i < after.frames@.len() implies #[trigger] after.entries(i).len()
            == 512 && after.directory_wf(i) by {
            if i < slot {
                assert(self.entries(i).len() == 512);
                assert(self.directory_wf(i));
                let k = self.keys@[i];
                assert(self.slots@[k] == i && self.slots@[key] == parent);
                assert forall|j: int| 0 <= j < 512 && k.0 > 1 implies #[trigger] after.entries(i)[j]
                    == {
                    let below = ((k.0 - 1) as nat, k.1 * 512 + j);
                    if after.slots@.contains_key(below) {
                        directory_entry(after.frames@[after.slots@[below]].address)
                    } else {
                        0
                    }
                } by {
                    let below = ((k.0 - 1) as nat, k.1 * 512 + j);
                    if below == child {
                        assert(k.1 == key.1 && j == index);
                    }
                }
            } else {
                assert forall|j: int| 0 <= j < 512 && child.0 > 1 implies #[trigger] after.entries(
                    i,
                )[j] == 0 && !after.slots@.contains_key(
                    ((child.0 - 1) as nat, child.1 * 512 + j),
                ) by {
                    let below = ((child.0 - 1) as nat, child.1 * 512 + j);
                    if self.slots@.contains_key(below) {
                        assert(below.1 / 512 == child.1);
                    }
                }
            }
        }
    }

    /// Only the level 1 entry for `page` was written.
    proof fn lemma_leaf_set(self, after: PageTables, slot: int, page: int, entry: u64)
        requires
            self.wf(),
            0 <= slot < self.frames@.len(),
            0 <= page,
            self.keys@[slot] == (1nat, page / 512),
            after.keys == self.keys,
            after.slots == self.slots,
            after.frames@.len() == self.frames@.len(),
            after.frames@[slot].address == self.frames@[slot].address,
            after.entries(slot) == self.entries(slot).update(page % 512, entry),
            forall|i: int|
                0 <= i < self.frames@.len() && i != slot ==> #[trigger] after.frames@[i]
                    == self.frames@[i],
        ensures
            after.wf(),
            after.addresses() == self.addresses(),
            after.tables() == self.tables(),
            forall|p: int| #[trigger]
                after.leaf(p) == if p == page {
                    entry
                } else {
                    self.leaf(p)
                },
    {
        assert(after.addresses() =~= self.addresses());
        assert(self.slots@[(1nat, page / 512)] == slot);
        assert forall|i: int| 0 <= i < after.frames@.len() implies #[trigger] after.entries(i).len()
            == 512 && after.directory_wf(i) by {
            assert(self.entries(i).len() == 512 && self.directory_wf(i));
            if i != slot {
                assert(after.frames@[i] == self.frames@[i]);
            }
        }
        assert forall|p: int| #[trigger] after.leaf(p) == if p == page {
            entry
        } else {
            self.leaf(p)
        } by {
            assert(self.entries(slot).len() == 512);
            if self.slots@.contains_key((1, p / 512)) {
                let other = self.slots@[(1, p / 512)];
                assert(self.keys@[other] == (1nat, p / 512));
                if other != slot {
                    assert(after.frames@[other] == self.frames@[other]);
                }
            }
        }
    }

    /// Position and contents of a table in memory.
    proof fn lemma_memory(self, slot: int)
        requires
            self.wf(),
            0 <= slot < self.frames@.len(),
        ensures
            self.memory().contains_key(self.frames@[slot].address),
            self.memory()[self.frames@[slot].address] == self.entries(slot),
    {
        let address = self.frames@[slot].address;
        assert(self.addresses()[slot] == address);
        let found = self.addresses().index_of(address);
        assert(self.addresses()[found] == address);
    }

    /// Where there is a level 1 table for a page, every table above it exists.
    proof fn lemma_tables_above(self, level: nat, page: int)
        requires
            self.wf(),
            1 <= level <= 4,
            0 <= page < PAGE_COUNT,
            self.tables().contains((1, table_number(1, page))),
        ensures
            self.tables().contains((level, table_number(level, page))),
        decreases level,
    {
        if level > 1 {
            let lower = (level - 1) as nat;
            self.lemma_tables_above(lower, page);
            lemma_descent(lower, page);
            assert(self.slots@.contains_key((lower, table_number(lower, page))));
        }
    }

    proof fn lemma_walk_from(self, level: nat, vaddr: u64)
        requires
            self.wf(),
            1 <= level <= 4,
            self.tables().contains((level, table_number(level, page_of(vaddr)))),
        ensures
            ({
                let slot = self.slots@[(level, table_number(level, page_of(vaddr)))];
                let leaf = self.leaf(page_of(vaddr));
                walk_from(self.memory(), self.frames@[slot].address, level, vaddr)
                    == if is_present(leaf) {
                    Some(leaf)
                } else {
                    None
                }
            }),
        decreases level,
    {
        let page = page_of(vaddr);
        let key = (level, table_number(level, page));
        let slot = self.slots@[key];
        let index = entry_index(level, page);
        assert(self.keys@[slot] == key);
        self.lemma_memory(slot);
        lemma_spans();
        assert(self.entries(slot).len() == 512 && self.directory_wf(slot));
        assert(0 <= index < 512);
        if level > 1 {
            let lower = (level - 1) as nat;
            let below = (lower, table_number(lower, page));
            lemma_descent(lower, page);
            assert(self.entries(slot)[index] == if self.slots@.contains_key(below) {
                directory_entry(self.frames@[self.slots@[below]].address)
            } else {
                0
            });
            if self.slots@.contains_key(below) {
                assert(is_frame_address(self.addresses()[self.slots@[below]]));
                lemma_directory_entry(self.frames@[self.slots@[below]].address);
                self.lemma_walk_from(lower, vaddr);
            } else {
                lemma_directory_entry(0);
                if self.tables().contains((1, table_number(1, page))) {
                    self.lemma_tables_above(lower, page);
                }
            }
        }
    }

    /// What the processor reads: for every virtual address the level 1 entry of
    /// its page, where that entry is present, and nothing where it is not.
    pub proof fn lemma_walk(self, vaddr: u64)
        requires
            self.wf(),
        ensures
            walk(self.memory(), self.root(), vaddr) == if is_present(self.leaf(page_of(vaddr))) {
                Some(self.leaf(page_of(vaddr)))
            } else {
                None
            },
    {
        lemma_descent(3, page_of(vaddr));
        assert(self.slots@.contains_key(self.keys@[0]));
        self.lemma_walk_from(4, vaddr);
    }

    /// Every table has 512 entries, and the root is one of the tables.
    pub proof fn lemma_tables_are_whole(self, address: u64)
        requires
            self.wf(),
        ensures
            self.memory().contains_key(address) ==> self.memory()[address].len() == 512,
            self.memory().contains_key(self.root()),
    {
        self.lemma_memory(0);
        if self.memory().contains_key(address) {
            let slot = self.addresses().index_of(address);
            assert(self.addresses()[slot] == address);
            self.lemma_memory(slot);
            assert(self.entries(slot).len() == 512);
        }
    }

    /// What the tables hold, word by word. An entry of a level 1 table is that of
    /// its page. An entry of any other table is zero, or the address of the
    /// table below it with the flags of [`directory_entry`].
    pub proof fn lemma_table_words(self, key: (nat, int), index: int)
        requires
            self.wf(),
            self.tables().contains(key),
            0 <= index < 512,
        ensures
            1 <= key.0 <= 4,
            self.memory().contains_key(self.table_address(key)),
            self.memory()[self.table_address(key)][index] == {
                let below = ((key.0 - 1) as nat, key.1 * 512 + index);
                if key.0 == 1 {
                    self.leaf(below.1)
                } else if self.tables().contains(below) {
                    directory_entry(self.table_address(below))
                } else {
                    0
                }
            },
            is_frame_address(self.table_address(key)),
            self.table_address((4, 0)) == self.root(),
    {
        let slot = self.slots@[key];
        assert(self.keys@[slot] == key);
        self.lemma_memory(slot);
        assert(self.entries(slot).len() == 512 && self.directory_wf(slot));
        assert(is_frame_address(self.addresses()[slot]));
        assert(self.slots@[self.keys@[0]] == 0);
        if key.0 > 1 {
            let below = ((key.0 - 1) as nat, key.1 * 512 + index);
            assert(self.entries(slot)[index] == if self.slots@.contains_key(below) {
                directory_entry(self.frames@[self.slots@[below]].address)
            } else {
                0
            });
        }
    }

    /// Every table in memory is one of the tables, known by its level and number.
    pub proof fn lemma_table_at(self, address: u64) -> (key: (nat, int))
        requires
            self.wf(),
            self.memory().contains_key(address),
        ensures
            self.tables().contains(key),
            self.table_address(key) == address,
    {
        let slot = self.addresses().index_of(address);
        assert(self.addresses()[slot] == address);
        self.keys@[slot]
    }

    proof fn lemma_walk_below_root(self, level: nat, vaddr: u64)
        requires
            self.wf(),
            1 <= level < 4,
            self.tables().contains((level, table_number(level, page_of(vaddr)))),
        ensures
            ({
                let slot = self.slots@[(level, table_number(level, page_of(vaddr)))];
                !passes_lower_half(
                    self.memory(),
                    self.root(),
                    self.frames@[slot].address,
                    level,
                    vaddr,
                )
            }),
        decreases level,
    {
        let page = page_of(vaddr);
        let key = (level, table_number(level, page));
        let slot = self.slots@[key];
        let index = entry_index(level, page);
        assert(self.keys@[slot] == key);
        assert(self.addresses()[0] != self.addresses()[slot]);
        reveal_with_fuel(passes_lower_half, 2);
        self.lemma_memory(slot);
        lemma_spans();
        assert(self.entries(slot).len() == 512 && self.directory_wf(slot));
        if level > 1 {
            let lower = (level - 1) as nat;
            let below = (lower, table_number(lower, page));
            lemma_descent(lower, page);
            lemma_directory_entry(0);
            assert(self.entries(slot)[index] == if self.slots@.contains_key(below) {
                directory_entry(self.frames@[self.slots@[below]].address)
            } else {
                0
            });
            if self.slots@.contains_key(below) {
                assert(is_frame_address(self.addresses()[self.slots@[below]]));
                lemma_directory_entry(self.frames@[self.slots@[below]].address);
                self.lemma_walk_below_root(lower, vaddr);
            }
        }
    }

    /// A walk through these tables does not come back to the root table, so one
    /// for an address of the upper half reads no root entry of the lower half.
    pub proof fn lemma_upper_half_walk(self, vaddr: u64)
        requires
            self.wf(),
            entry_index(4, page_of(vaddr)) >= LOWER_HALF_ENTRIES,
        ensures
            !passes_lower_half(self.memory(), self.root(), self.root(), 4, vaddr),
    {
        let page = page_of(vaddr);
        let index = entry_index(4, page);
        let below = (3nat, table_number(3, page));
        lemma_spans();
        lemma_descent(3, page);
        lemma_directory_entry(0);
        self.lemma_memory(0);
        assert(self.keys@[0] == (4nat, 0int));
        assert(self.entries(0).len() == 512 && self.directory_wf(0));
        assert(self.entries(0)[index] == if self.slots@.contains_key(below) {
            directory_entry(self.frames@[self.slots@[below]].address)
        } else {
            0
        });
        if self.slots@.contains_key(below) {
            assert(is_frame_address(self.addresses()[self.slots@[below]]));
            lemma_directory_entry(self.frames@[self.slots@[below]].address);
            self.lemma_walk_below_root(3, vaddr);
        }
    }
}

/// Growing takes frames, and loses none: the frames in use, followed by those
/// that are free, are the same before and after. The root stays.
pub proof fn growth_only_moves_frames(
    before: PageTables,
    after: PageTables,
    free_before: Seq<u64>,
    free: Seq<u64>,
)
    requires
        after.grown_from(before, free_before, free),
    ensures
        after.addresses() + free == before.addresses() + free_before,
        after.addresses().len() >= before.addresses().len(),
        after.root() == before.root(),
{
    assert(after.addresses() + free =~= before.addresses() + free_before);
}

/// No table lies in a frame that is free.
pub proof fn tables_are_apart_from_free_frames(tables: PageTables, frames: Seq<u64>, address: u64)
    ensures
        tables.apart_from(frames) && tables.addresses().contains(address) ==> !frames.contains(
            address,
        ),
        tables.apart_from(frames) <==> tables.addresses().to_set().disjoint(frames.to_set()),
{
    if tables.addresses().to_set().disjoint(frames.to_set()) {
        assert forall|i: int, j: int|
            0 <= i < tables.addresses().len() && 0 <= j < frames.len() implies #[trigger] tables.addresses()[i]
            != #[trigger] frames[j] by {
            assert(tables.addresses().to_set().contains(tables.addresses()[i]));
            assert(frames.to_set().contains(frames[j]));
        }
    }
}

/// To map a page adds the tables on the way to it, and no others.
pub proof fn mapping_adds_the_tables_on_the_way(tables: PageTables, page: int, key: (nat, int))
    ensures
        tables.tables_with(page).contains(key) <==> tables.tables().contains(key)
            || path_tables(page).contains(key),
{
}

} // verus!
