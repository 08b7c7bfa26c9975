//! Loading a kernel from an ELF file: where each segment goes, with which
//! rights, and what it holds.

use crate::address::{
    is_canonical, is_page_start, is_virtual_address, page_containing, page_start,
    page_starts_clear_the_low_bits, LOWER_HALF_END, UPPER_HALF_START,
};
use crate::elf::{all_ph_readable, elf_header, is_elf, program_headers, read_elf, ProgramHeader};
use crate::page_table::{NO_EXECUTE, PRESENT, WRITABLE};
use vstd::prelude::*;

verus! {

/// Why a kernel could not be loaded.
#[derive(Debug, Clone, Copy, PartialEq, Eq, Structural)]
pub enum LoadError {
    /// The file does not start with an ELF header.
    NotElf,
    /// A program header is cut short, lies outside the file or is misaligned.
    UnreadableProgramHeader,
    /// A segment starts or ends at an address that is not canonical.
    BadSegmentAddress,
    /// A segment has more bytes in the file than in memory.
    SegmentLargerThanMemory,
    /// The data of a segment does not lie in the file.
    SegmentOutsideFile,
}

/// A segment that is to be loaded.
#[derive(Debug, Clone, Copy, PartialEq, Eq, Structural)]
pub struct Segment {
    /// Virtual address of the first byte.
    pub virt_addr: u64,
    /// Number of bytes in memory.
    pub mem_size: u64,
    /// File offset of the data.
    pub file_offset: u64,
    /// Number of bytes of data.
    pub file_size: u64,
    /// Start of the first page that has to be mapped.
    pub first_page: u64,
    /// Start of the last page that has to be mapped.
    pub last_page: u64,
    /// Page table flags of these pages.
    pub page_flags: u64,
}

/// What it takes to load a kernel.
pub struct KernelImage {
    /// Virtual address of the first instruction.
    pub entry_point: u64,
    /// The segments, in the order in which they are loaded.
    pub segments: Vec<Segment>,
}

/// What is wrong with a segment that is to be loaded from a file of `length`
/// bytes, if anything is.
pub open spec fn segment_error(header: ProgramHeader, length: nat) -> Option<LoadError> {
    if !is_canonical(header.virtual_addr) || header.virtual_addr + header.mem_size > u64::MAX
        || !is_canonical((header.virtual_addr + header.mem_size) as u64) {
        Some(LoadError::BadSegmentAddress)
    } else if header.file_size > header.mem_size {
        Some(LoadError::SegmentLargerThanMemory)
    } else if header.offset + header.file_size > length {
        Some(LoadError::SegmentOutsideFile)
    } else {
        None
    }
}

/// Flags of the pages of a segment: present, and no more rights than the
/// program header gives.
pub open spec fn segment_flags(header: ProgramHeader) -> u64 {
    let executable = if header.is_execute {
        PRESENT
    } else {
        PRESENT | NO_EXECUTE
    };
    if header.is_write {
        executable | WRITABLE
    } else {
        executable
    }
}

/// The segment that a program header describes.
pub open spec fn segment_of(header: ProgramHeader) -> Segment {
    Segment {
        virt_addr: header.virtual_addr,
        mem_size: header.mem_size,
        file_offset: header.offset,
        file_size: header.file_size,
        first_page: page_start(header.virtual_addr) as u64,
        last_page: page_start((header.virtual_addr + header.mem_size) as u64) as u64,
        page_flags: segment_flags(header),
    }
}

/// The segments that the given headers describe, those that are not to be
/// loaded left out.
pub open spec fn segments_of(headers: Seq<ProgramHeader>) -> Seq<Segment> {
    headers.filter(|h: ProgramHeader| h.is_load).map_values(|h: ProgramHeader| segment_of(h))
}

/// The header at `index` is the first that cannot be loaded, for the reason
/// given.
pub open spec fn fails_at(
    headers: Seq<ProgramHeader>,
    length: nat,
    index: int,
    error: LoadError,
) -> bool {
    &&& 0 <= index < headers.len()
    &&& headers[index].is_load && segment_error(headers[index], length) == Some(error)
    &&& forall|i: int|
        0 <= i < index && (#[trigger] headers[i]).is_load ==> segment_error(headers[i], length)
            is None
}

/// Every segment that is to be loaded can be loaded.
pub open spec fn all_loadable(headers: Seq<ProgramHeader>, length: nat) -> bool {
    forall|i: int|
        0 <= i < headers.len() && (#[trigger] headers[i]).is_load ==> segment_error(
            headers[i],
            length,
        ) is None
}

/// Works out where a segment of a file of `length` bytes goes.
pub fn plan_segment(header: &ProgramHeader, length: usize) -> (result: Result<Segment, LoadError>)
    ensures
        result == match segment_error(*header, length as nat) {
            Some(error) => Err::<Segment, LoadError>(error),
            None => Ok(segment_of(*header)),
        },
        result matches Ok(segment) ==> {
            &&& segment.virt_addr == header.virtual_addr
            &&& segment.mem_size == header.mem_size
            &&& segment.file_offset == header.offset
            &&& segment.file_size == header.file_size
        },
{
    if !is_virtual_address(header.virtual_addr) {
        return Err(LoadError::BadSegmentAddress);
    }
    let end: u64 = match header.virtual_addr.checked_add(header.mem_size) {
        Some(end) => end,
        None => {
            return Err(LoadError::BadSegmentAddress);
        },
    };
    if !is_virtual_address(end) {
        return Err(LoadError::BadSegmentAddress);
    }
    if header.file_size > header.mem_size {
        return Err(LoadError::SegmentLargerThanMemory);
    }
    if header.offset > length as u64 || header.file_size > length as u64 - header.offset {
        return Err(LoadError::SegmentOutsideFile);
    }
    let mut page_flags: u64 = PRESENT;
    if !header.is_execute {
        page_flags = page_flags | NO_EXECUTE;
    }
    if header.is_write {
        page_flags = page_flags | WRITABLE;
    }
    Ok(
        Segment {
            virt_addr: header.virtual_addr,
            mem_size: header.mem_size,
            file_offset: header.offset,
            file_size: header.file_size,
            first_page: page_containing(header.virtual_addr),
            last_page: page_containing(end),
            page_flags,
        },
    )
}

/// Works out where the segments of a file of `length` bytes go.
pub fn plan_segments(headers: &Vec<ProgramHeader>, length: usize) -> (result: Result<
    Vec<Segment>,
    LoadError,
>)
    ensures
        result is Ok <==> all_loadable(headers@, length as nat),
        result matches Ok(segments) ==> {
            &&& segments@ == segments_of(headers@)
            &&& forall|i: int|
                0 <= i < segments@.len() ==> (#[trigger] segments@[i]).fits(length as nat)
                    && segments@[i].has_page_bounds()
        },
        result matches Err(error) ==> exists|i: int|
            #[trigger] fails_at(headers@, length as nat, i, error),
{
    let mut segments: Vec<Segment> = Vec::new();
    let mut i: usize = 0;
    while i < headers.len()
        invariant
            i <= headers@.len(),
            forall|k: int|
                0 <= k < i && (#[trigger] headers@[k]).is_load ==> segment_error(
                    headers@[k],
                    length as nat,
                ) is None,
            segments@ == segments_of(headers@.take(i as int)),
        decreases headers.len() - i,
    {
        let header = headers[i];
        proof {
            let before = headers@.take(i as int);
            let after = headers@.take(i + 1);
            assert(after.drop_last() =~= before);
            reveal(Seq::filter);
        }
        if header.is_load {
            match plan_segment(&header, length) {
                Ok(segment) => {
                    segments.push(segment);
                },
                Err(error) => {
                    assert(fails_at(headers@, length as nat, i as int, error));
                    return Err(error);
                },
            }
        }
        i += 1;
    }
    assert(headers@.take(i as int) =~= headers@);
    proof {
        assert forall|k: int| 0 <= k < segments@.len() implies (#[trigger] segments@[k]).fits(
            length as nat,
        ) && segments@[k].has_page_bounds() by {
            segments_fit_their_file(headers@, length as nat, k);
        }
    }
    Ok(segments)
}

/// Works out how to load the kernel in an ELF file: which memory each of its
/// segments needs, and where it starts.
pub fn load_kernel(bytes: &[u8]) -> (result: Result<KernelImage, LoadError>)
    ensures
        result is Ok <==> {
            &&& is_elf(bytes@)
            &&& all_ph_readable(bytes@)
            &&& all_loadable(program_headers(bytes@), bytes@.len())
        },
        result matches Ok(image) ==> {
            &&& image.entry_point == elf_header(bytes@).entry_point
            &&& image.segments@ == segments_of(program_headers(bytes@))
            &&& forall|i: int|
                0 <= i < image.segments@.len() ==> (#[trigger] image.segments@[i]).fits(
                    bytes@.len(),
                ) && image.segments@[i].has_page_bounds()
        },
        result matches Err(error) ==> {
            if !is_elf(bytes@) {
                error == LoadError::NotElf
            } else if !all_ph_readable(bytes@) {
                error == LoadError::UnreadableProgramHeader
            } else {
                exists|i: int| #[trigger]
                    fails_at(program_headers(bytes@), bytes@.len(), i, error)
            }
        },
{
    let (header, headers) = match read_elf(bytes) {
        Ok(found) => found,
        Err(error) => {
            return Err(error);
        },
    };
    match plan_segments(&headers, bytes.len()) {
        Ok(segments) => Ok(KernelImage { entry_point: header.entry_point, segments }),
        Err(error) => Err(error),
    }
}

impl Segment {
    /// The segment fits a file of `length` bytes.
    pub open spec fn fits(self, length: nat) -> bool {
        &&& self.file_size <= self.mem_size
        &&& self.file_offset + self.file_size <= length
    }

    /// The first and the last page are pages, in that order.
    pub open spec fn has_page_bounds(self) -> bool {
        &&& is_page_start(self.first_page)
        &&& is_page_start(self.last_page)
        &&& self.first_page <= self.last_page
    }

    /// The pages that have to be mapped, by their start: all from the first to
    /// the last, in ascending order.
    pub fn pages(&self) -> (pages: Vec<u64>)
        requires
            self.has_page_bounds(),
        ensures
            forall|page: u64| #[trigger]
                pages@.contains(page) <==> is_page_start(page) && self.first_page <= page
                    <= self.last_page,
            forall|i: int, j: int|
                0 <= i < j < pages@.len() ==> #[trigger] pages@[i] < #[trigger] pages@[j],
    {
        let mut pages: Vec<u64> = Vec::new();
        let mut page: u64 = self.first_page;
        while page != self.last_page
            invariant
                self.has_page_bounds(),
                is_page_start(page),
                self.first_page <= page <= self.last_page,
                forall|p: u64| #[trigger]
                    pages@.contains(p) <==> is_page_start(p) && self.first_page <= p < page,
                forall|i: int, j: int|
                    0 <= i < j < pages@.len() ==> #[trigger] pages@[i] < #[trigger] pages@[j],
            decreases self.last_page - page,
        {
            proof {
                lemma_page_pushed(pages@, self.first_page, page);
            }
            pages.push(page);
            page = if page == LOWER_HALF_END - 4096 {
                UPPER_HALF_START
            } else {
                page + 4096
            };
        }
        proof {
            lemma_page_pushed(pages@, self.first_page, page);
        }
        pages.push(page);
        pages
    }

    /// What the memory of the segment holds once it is loaded: its data, and
    /// zeros after that.
    pub open spec fn contents(self, file: Seq<u8>) -> Seq<u8> {
        file.subrange(self.file_offset as int, self.file_offset + self.file_size) + Seq::new(
            (self.mem_size - self.file_size) as nat,
            |i: int| 0u8,
        )
    }

    /// Fills the memory of the segment from the file that it belongs to.
    pub fn fill(&self, file: &[u8], memory: &mut [u8])
        requires
            self.fits(file@.len()),
            old(memory)@.len() == self.mem_size,
        ensures
            final(memory)@ == self.contents(file@),
            forall|k: int|
                0 <= k < self.file_size ==> #[trigger] final(memory)@[k] == file@[self.file_offset
                    + k],
            forall|k: int|
                self.file_size <= k < self.mem_size ==> #[trigger] final(memory)@[k] == 0,
    {
        let length: usize = file.len();
        let offset: usize = self.file_offset as usize;
        let data: usize = self.file_size as usize;
        let mut i: usize = 0;
        while i < memory.len()
            invariant
                self.fits(file@.len()),
                length == file@.len(),
                offset == self.file_offset,
                data == self.file_size,
                memory@.len() == self.mem_size,
                i <= memory@.len(),
                forall|k: int| 0 <= k < i ==> memory@[k] == #[trigger] self.contents(file@)[k],
            decreases memory.len() - i,
        {
            memory[i] = if i < data {
                file[offset + i]
            } else {
                0
            };
            i += 1;
        }
    }
}

/// The pages from `first` up to `page`, which comes next.
proof fn lemma_page_pushed(pages: Seq<u64>, first: u64, page: u64)
    requires
        is_page_start(page),
        first <= page,
        forall|p: u64| #[trigger]
            pages.contains(p) <==> is_page_start(p) && first <= p < page,
        forall|i: int, j: int| 0 <= i < j < pages.len() ==> #[trigger] pages[i] < #[trigger] pages[j],
    ensures
        forall|p: u64| #[trigger]
            pages.push(page).contains(p) <==> is_page_start(p) && first <= p <= page,
        forall|i: int, j: int|
            0 <= i < j < pages.push(page).len() ==> #[trigger] pages.push(page)[i]
                < #[trigger] pages.push(page)[j],
{
    let more = pages.push(page);
    assert forall|p: u64| #[trigger] more.contains(p) <==> is_page_start(p) && first <= p
        <= page by {
        if more.contains(p) {
            let i = more.index_of(p);
            assert(i < pages.len() ==> pages.contains(pages[i]));
        }
        if pages.contains(p) {
            assert(more[pages.index_of(p)] == p);
        }
        assert(more[pages.len() as int] == page);
    }
    assert forall|i: int, j: int| 0 <= i < j < more.len() implies #[trigger] more[i]
        < #[trigger] more[j] by {
        assert(pages.contains(pages[i]));
    }
}

/// Every segment of a file that can be loaded fits the file, so that it can be
/// filled from it, and its pages are known.
pub proof fn segments_fit_their_file(headers: Seq<ProgramHeader>, length: nat, index: int)
    requires
        all_loadable(headers, length),
        0 <= index < segments_of(headers).len(),
    ensures
        segments_of(headers)[index].fits(length),
        segments_of(headers)[index].has_page_bounds(),
{
    let is_load = |h: ProgramHeader| h.is_load;
    let kept = headers.filter(is_load);
    assert(kept.contains(kept[index]));
    headers.lemma_filter_contains_rev(is_load, kept[index]);
    headers.lemma_filter_pred(is_load, index);
    let i = headers.index_of(kept[index]);
    assert(headers[i] == kept[index]);
}

/// The pages of a segment hold all of its memory: every address of the segment,
/// the one after its last byte too, lies in a page from the first to the last.
pub proof fn pages_cover_segment(header: ProgramHeader, length: nat, addr: u64)
    requires
        segment_error(header, length) is None,
        header.virtual_addr <= addr <= header.virtual_addr + header.mem_size,
    ensures
        ({
            let segment = segment_of(header);
            &&& segment.has_page_bounds()
            &&& segment.first_page <= page_start(addr) <= segment.last_page
            &&& is_canonical(addr) ==> is_page_start(page_start(addr) as u64)
            &&& segment.first_page <= header.virtual_addr
        }),
{
}

/// The pages of a segment have the rights that its program header gives, and no
/// others: they are present, can be written to only where the header says so,
/// and can be executed only where the header says so.
pub proof fn page_flags_respect_rights(header: ProgramHeader)
    ensures
        ({
            let flags = segment_of(header).page_flags;
            &&& flags == segment_flags(header)
            &&& flags & PRESENT == PRESENT && flags & 1 == 1
            &&& (flags & WRITABLE == WRITABLE) == header.is_write
            &&& (flags & NO_EXECUTE == NO_EXECUTE) == !header.is_execute
            &&& flags & !(PRESENT | WRITABLE | NO_EXECUTE) == 0
            &&& (flags & 2 == 2) == header.is_write
            &&& (flags & 0x8000_0000_0000_0000 != 0) == !header.is_execute
            &&& flags & !0x8000_0000_0000_0003 == 0
        }),
{
    let code = header.is_execute;
    let data = header.is_write;
    let flags = segment_flags(header);
    assert(flags & 1 == 1 && (flags & 2 == 2) == data && (flags & 0x8000_0000_0000_0000 != 0)
        == !code && (flags & 0x8000_0000_0000_0000 == 0x8000_0000_0000_0000) == !code && flags & !(
    1u64 | 2u64 | 0x8000_0000_0000_0000u64) == 0 && flags & !0x8000_0000_0000_0003 == 0)
        by (bit_vector)
        requires
            flags == if data {
                (if code { 1u64 } else { 1u64 | 0x8000_0000_0000_0000u64 }) | 2u64
            } else {
                if code { 1u64 } else { 1u64 | 0x8000_0000_0000_0000u64 }
            },
    ;
}

/// Loading a segment: its first bytes are those of the file, the rest is zero,
/// and all of its memory is filled.
pub proof fn contents_are_data_then_zeros(segment: Segment, file: Seq<u8>, index: int)
    requires
        segment.fits(file.len()),
        0 <= index < segment.mem_size,
    ensures
        segment.contents(file).len() == segment.mem_size,
        segment.contents(file)[index] == if index < segment.file_size {
            file[segment.file_offset + index]
        } else {
            0
        },
{
}

/// A segment is what its program header says: it lies at the header's virtual
/// address and has its size in memory, and its data is at the header's offset in
/// the file, of the header's size. Its pages go from the page of its first byte
/// to the page of the address after its last byte.
pub proof fn segments_are_as_their_headers_say(header: ProgramHeader, length: nat)
    requires
        segment_error(header, length) is None,
    ensures
        ({
            let segment = segment_of(header);
            let end = (header.virtual_addr + header.mem_size) as u64;
            &&& segment.virt_addr == header.virtual_addr
            &&& segment.mem_size == header.mem_size
            &&& segment.file_offset == header.offset
            &&& segment.file_size == header.file_size
            &&& end == header.virtual_addr + header.mem_size
            &&& segment.first_page == header.virtual_addr & !0xFFF
            &&& segment.last_page == end & !0xFFF
        }),
{
    page_starts_clear_the_low_bits(header.virtual_addr);
    page_starts_clear_the_low_bits((header.virtual_addr + header.mem_size) as u64);
}

/// When a segment can be loaded: its first byte and the address after its last
/// have canonical addresses, it has no more data than memory, and its data lies
/// in the file.
pub proof fn segments_that_can_be_loaded(header: ProgramHeader, length: nat)
    ensures
        segment_error(header, length) is None <==> {
            &&& header.virtual_addr + header.mem_size <= u64::MAX
            &&& header.virtual_addr < 0x8000_0000_0000 || header.virtual_addr
                >= 0xFFFF_8000_0000_0000
            &&& header.virtual_addr + header.mem_size < 0x8000_0000_0000 || header.virtual_addr
                + header.mem_size >= 0xFFFF_8000_0000_0000
            &&& header.file_size <= header.mem_size
            &&& header.offset + header.file_size <= length
        },
        segment_error(header, length) matches Some(error) ==> {
            ||| error == LoadError::BadSegmentAddress
            ||| error == LoadError::SegmentLargerThanMemory && header.file_size > header.mem_size
            ||| error == LoadError::SegmentOutsideFile && header.offset + header.file_size > length
        },
{
}

/// Which error a segment gives. A bad address is told first, and then data that
/// is larger than its memory; neither depends on the file.
pub proof fn segment_errors_in_order(header: ProgramHeader, length: nat, other_length: nat)
    ensures
        segment_error(header, length) == Some(LoadError::BadSegmentAddress) <==> {
            ||| header.virtual_addr + header.mem_size > u64::MAX
            ||| 0x8000_0000_0000 <= header.virtual_addr < 0xFFFF_8000_0000_0000
            ||| 0x8000_0000_0000 <= header.virtual_addr + header.mem_size < 0xFFFF_8000_0000_0000
        },
        segment_error(header, length) != Some(LoadError::BadSegmentAddress) ==> (segment_error(
            header,
            length,
        ) == Some(LoadError::SegmentLargerThanMemory) <==> header.file_size > header.mem_size),
        length <= other_length && segment_error(header, length) is None ==> segment_error(
            header,
            other_length,
        ) is None,
{
}

/// The segments of a file one header at a time: a header that is to be loaded
/// adds its segment at the end, and any other header adds nothing.
pub proof fn segments_follow_their_headers(headers: Seq<ProgramHeader>, header: ProgramHeader)
    ensures
        segments_of(Seq::<ProgramHeader>::empty()).len() == 0,
        header.is_load ==> segments_of(headers.push(header)) == segments_of(headers).push(
            segment_of(header),
        ),
        !header.is_load ==> segments_of(headers.push(header)) == segments_of(headers),
{
    reveal(Seq::filter);
    assert(headers.push(header).drop_last() =~= headers);
    assert(segments_of(headers.push(header)) =~= if header.is_load {
        segments_of(headers).push(segment_of(header))
    } else {
        segments_of(headers)
    });
}

/// Every header that is to be loaded has its segment, and every segment comes
/// from such a header.
pub proof fn every_load_header_has_its_segment(
    headers: Seq<ProgramHeader>,
    index: int,
    position: int,
)
    ensures
        0 <= index < headers.len() && headers[index].is_load ==> segments_of(headers).contains(
            segment_of(headers[index]),
        ),
        0 <= position < segments_of(headers).len() ==> exists|i: int|
            0 <= i < headers.len() && (#[trigger] headers[i]).is_load && segments_of(
                headers,
            )[position] == segment_of(headers[i]),
{
    let is_load = |h: ProgramHeader| h.is_load;
    let kept = headers.filter(is_load);
    if 0 <= index < headers.len() && headers[index].is_load {
        headers.lemma_filter_contains(is_load, index);
        let i = kept.index_of(headers[index]);
        assert(segments_of(headers)[i] == segment_of(headers[index]));
    }
    if 0 <= position < segments_of(headers).len() {
        assert(kept.contains(kept[position]));
        headers.lemma_filter_contains_rev(is_load, kept[position]);
        headers.lemma_filter_pred(is_load, position);
        let i = headers.index_of(kept[position]);
        assert(headers[i].is_load && segments_of(headers)[position] == segment_of(headers[i]));
    }
}

/// A file can be loaded exactly when no header stops it, and at most one header
/// does, with one error: the first that is to be loaded and cannot be.
pub proof fn one_header_decides_the_error(
    headers: Seq<ProgramHeader>,
    length: nat,
    index: int,
    error: LoadError,
    other_index: int,
    other_error: LoadError,
)
    ensures
        fails_at(headers, length, index, error) ==> {
            &&& 0 <= index < headers.len()
            &&& headers[index].is_load
            &&& segment_error(headers[index], length) == Some(error)
            &&& !all_loadable(headers, length)
        },
        fails_at(headers, length, index, error) && fails_at(
            headers,
            length,
            other_index,
            other_error,
        ) ==> index == other_index && error == other_error,
        fails_at(headers, length, index, error) && 0 <= other_index < index
            && headers[other_index].is_load ==> segment_error(headers[other_index], length) is None,
        all_loadable(headers, length) <==> forall|i: int|
            0 <= i < headers.len() && (#[trigger] headers[i]).is_load ==> segment_error(
                headers[i],
                length,
            ) is None,
{
}

/// Loading, from the file to the memory: for every header that is to be loaded
/// there is a segment at the header's address, of the header's size in memory.
/// Once it is loaded, byte `k` of it is the byte of the file `k` after the
/// header's offset, as far as the data goes, and zero after that.
pub proof fn memory_holds_what_the_file_says(file: Seq<u8>, index: int, k: int)
    requires
        is_elf(file),
        all_ph_readable(file),
        all_loadable(program_headers(file), file.len()),
        0 <= index < program_headers(file).len(),
        program_headers(file)[index].is_load,
        0 <= k < program_headers(file)[index].mem_size,
    ensures
        ({
            let header = program_headers(file)[index];
            let segments = segments_of(program_headers(file));
            exists|i: int|
                0 <= i < segments.len() && (#[trigger] segments[i]).virt_addr == header.virtual_addr
                    && segments[i].mem_size == header.mem_size && segments[i].contents(file).len()
                    == header.mem_size && segments[i].contents(file)[k] == if k
                    < header.file_size {
                    file[header.offset + k]
                } else {
                    0
                }
        }),
{
    let headers = program_headers(file);
    let header = headers[index];
    let segments = segments_of(headers);
    every_load_header_has_its_segment(headers, index, 0);
    segments_are_as_their_headers_say(header, file.len());
    let i = segments.index_of(segment_of(header));
    assert(segments[i] == segment_of(header));
    segments_fit_their_file(headers, file.len(), i);
    contents_are_data_then_zeros(segments[i], file, k);
}

/// A segment fits a file when it has no more data than memory and its data lies
/// in the file. Its pages are bounded when both bounds are canonical multiples
/// of 4096, in order.
pub proof fn bounds_of_segments(segment: Segment, length: nat)
    ensures
        segment.fits(length) <==> segment.file_size <= segment.mem_size && segment.file_offset
            + segment.file_size <= length,
        segment.has_page_bounds() <==> {
            &&& segment.first_page <= segment.last_page
            &&& segment.first_page % 4096 == 0 && segment.last_page % 4096 == 0
            &&& segment.first_page < 0x8000_0000_0000 || segment.first_page
                >= 0xFFFF_8000_0000_0000
            &&& segment.last_page < 0x8000_0000_0000 || segment.last_page >= 0xFFFF_8000_0000_0000
        },
{
}

} // verus!
