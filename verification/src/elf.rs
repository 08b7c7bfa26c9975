//! The parts of an ELF file that decide how it is loaded: the ELF header and
//! the program headers, read by the `xmas_elf` crate.

use crate::loader::LoadError;
use vstd::prelude::*;
use xmas_elf::header::Class;
use xmas_elf::program::Type;
use xmas_elf::ElfFile;

verus! {

/// The fields of the ELF header that lead to the program headers and to the
/// entry point.
#[derive(Debug, Clone, Copy, PartialEq, Eq, Structural)]
pub struct ElfHeader {
    /// The file is of the 64-bit class; otherwise of the 32-bit class.
    pub is_64_bit: bool,
    /// Virtual address of the first instruction (`e_entry`).
    pub entry_point: u64,
    /// File offset of the program header table (`e_phoff`).
    pub ph_offset: u64,
    /// Size of one program header in the table (`e_phentsize`).
    pub ph_entry_size: u16,
    /// Number of program headers (`e_phnum`).
    pub ph_count: u16,
}

/// The fields of a program header that decide how its segment is loaded.
#[derive(Debug, Clone, Copy, PartialEq, Eq, Structural)]
pub struct ProgramHeader {
    /// The segment is to be loaded (`PT_LOAD`).
    pub is_load: bool,
    /// The segment tells how to link the file (`PT_DYNAMIC`).
    pub is_dynamic: bool,
    /// The segment holds code (`PF_X`).
    pub is_execute: bool,
    /// The segment may be written to (`PF_W`).
    pub is_write: bool,
    /// File offset of the segment's data.
    pub offset: u64,
    /// Virtual address that the segment is loaded at.
    pub virtual_addr: u64,
    /// Number of bytes of data in the file.
    pub file_size: u64,
    /// Number of bytes in memory.
    pub mem_size: u64,
}

/// The number that `size` bytes of `bytes` make up from `at` on, the lowest
/// byte first.
pub open spec fn le_number(bytes: Seq<u8>, at: int, size: nat) -> int
    decreases size,
{
    if size == 0 {
        0
    } else {
        bytes[at] + 256 * le_number(bytes, at + 1, (size - 1) as nat)
    }
}

/// `bytes` starts with an ELF header: the magic number, a class of 32 or 64
/// bits, and the whole header of that class.
pub open spec fn is_elf(bytes: Seq<u8>) -> bool {
    &&& bytes.len() >= 16
    &&& bytes[0] == 0x7f && bytes[1] == 0x45 && bytes[2] == 0x4c && bytes[3] == 0x46
    &&& bytes[4] == 1 && bytes.len() >= 52 || bytes[4] == 2 && bytes.len() >= 64
}

/// The ELF header that `bytes` starts with.
pub open spec fn elf_header(bytes: Seq<u8>) -> ElfHeader {
    if bytes[4] == 2 {
        ElfHeader {
            is_64_bit: true,
            entry_point: le_number(bytes, 24, 8) as u64,
            ph_offset: le_number(bytes, 32, 8) as u64,
            ph_entry_size: le_number(bytes, 54, 2) as u16,
            ph_count: le_number(bytes, 56, 2) as u16,
        }
    } else {
        ElfHeader {
            is_64_bit: false,
            entry_point: le_number(bytes, 24, 4) as u64,
            ph_offset: le_number(bytes, 28, 4) as u64,
            ph_entry_size: le_number(bytes, 42, 2) as u16,
            ph_count: le_number(bytes, 44, 2) as u16,
        }
    }
}

/// File offset of the program header with the given index.
pub open spec fn ph_start(header: ElfHeader, index: int) -> int {
    header.ph_offset + index * header.ph_entry_size
}

/// There is a program header with the given index.
pub open spec fn has_program_header(header: ElfHeader, index: int) -> bool {
    0 <= index < header.ph_count && header.ph_offset > 0 && header.ph_entry_size > 0
}

/// The program header with the given index can be read: it has its full size,
/// lies in the file, and lies at a multiple of its alignment.
pub open spec fn ph_readable(bytes: Seq<u8>, index: int) -> bool {
    let header = elf_header(bytes);
    let start = ph_start(header, index);
    &&& start + header.ph_entry_size <= bytes.len()
    &&& if header.is_64_bit {
        header.ph_entry_size >= 56 && start % 8 == 0
    } else {
        header.ph_entry_size >= 32 && start % 4 == 0
    }
}

/// The program header with the given index.
pub open spec fn program_header(bytes: Seq<u8>, index: int) -> ProgramHeader {
    let start = ph_start(elf_header(bytes), index);
    if elf_header(bytes).is_64_bit {
        ProgramHeader {
            is_load: le_number(bytes, start, 4) == 1,
            is_dynamic: le_number(bytes, start, 4) == 2,
            is_execute: le_number(bytes, start + 4, 4) % 2 == 1,
            is_write: le_number(bytes, start + 4, 4) / 2 % 2 == 1,
            offset: le_number(bytes, start + 8, 8) as u64,
            virtual_addr: le_number(bytes, start + 16, 8) as u64,
            file_size: le_number(bytes, start + 32, 8) as u64,
            mem_size: le_number(bytes, start + 40, 8) as u64,
        }
    } else {
        ProgramHeader {
            is_load: le_number(bytes, start, 4) == 1,
            is_dynamic: le_number(bytes, start, 4) == 2,
            is_execute: le_number(bytes, start + 24, 4) % 2 == 1,
            is_write: le_number(bytes, start + 24, 4) / 2 % 2 == 1,
            offset: le_number(bytes, start + 4, 4) as u64,
            virtual_addr: le_number(bytes, start + 8, 4) as u64,
            file_size: le_number(bytes, start + 16, 4) as u64,
            mem_size: le_number(bytes, start + 20, 4) as u64,
        }
    }
}

/// `ElfFile::new` and the accessors of its header. The crate refuses whatever
/// does not start with an ELF header, and reads the fields where they lie, in
/// the byte order of the machine, which on x86_64 is the lowest byte first. It
/// panics on a slice that does not start at a multiple of 8 in memory, so it is
/// given a copy that does.
#[verifier::external_body]
fn read_elf_header(bytes: &[u8]) -> (header: Option<ElfHeader>)
    ensures
        header is Some <==> is_elf(bytes@),
        header matches Some(h) ==> h == elf_header(bytes@),
{
    let mut buffer: Vec<u8> = Vec::with_capacity(bytes.len() + 7);
    let start: usize = buffer.as_ptr().align_offset(8);
    buffer.resize(start, 0);
    buffer.extend_from_slice(bytes);
    let elf = ElfFile::new(&buffer[start..]).ok()?;
    Some(ElfHeader {
        is_64_bit: elf.header.pt1.class() == Class::SixtyFour,
        entry_point: elf.header.pt2.entry_point(),
        ph_offset: elf.header.pt2.ph_offset(),
        ph_entry_size: elf.header.pt2.ph_entry_size(),
        ph_count: elf.header.pt2.ph_count(),
    })
}

/// `ElfFile::program_header` and the accessors of what it returns. It panics
/// where the header is not [`ph_readable`]. The file is copied to a multiple of
/// 8 in memory, as in [`read_elf_header`].
#[verifier::external_body]
fn read_program_header(bytes: &[u8], index: u16) -> (header: Option<ProgramHeader>)
    requires
        is_elf(bytes@),
        ph_readable(bytes@, index as int),
    ensures
        header is Some <==> has_program_header(elf_header(bytes@), index as int),
        header matches Some(h) ==> h == program_header(bytes@, index as int),
{
    let mut buffer: Vec<u8> = Vec::with_capacity(bytes.len() + 7);
    let start: usize = buffer.as_ptr().align_offset(8);
    buffer.resize(start, 0);
    buffer.extend_from_slice(bytes);
    let ph = ElfFile::new(&buffer[start..]).ok()?.program_header(index).ok()?;
    Some(ProgramHeader {
        is_load: ph.get_type() == Ok(Type::Load),
        is_dynamic: ph.get_type() == Ok(Type::Dynamic),
        is_execute: ph.flags().is_execute(),
        is_write: ph.flags().is_write(),
        offset: ph.offset(),
        virtual_addr: ph.virtual_addr(),
        file_size: ph.file_size(),
        mem_size: ph.mem_size(),
    })
}

/// The program headers of a file, in table order.
pub open spec fn program_headers(bytes: Seq<u8>) -> Seq<ProgramHeader> {
    let header = elf_header(bytes);
    Seq::new(
        if has_program_header(header, 0) {
            header.ph_count as nat
        } else {
            0
        },
        |i: int| program_header(bytes, i),
    )
}

/// Every program header of a file can be read.
pub open spec fn all_ph_readable(bytes: Seq<u8>) -> bool {
    forall|i: int|
        #![trigger ph_readable(bytes, i)]
        has_program_header(elf_header(bytes), i) ==> ph_readable(bytes, i)
}

/// Reads the ELF header and the program headers of a file.
pub fn read_elf(bytes: &[u8]) -> (result: Result<(ElfHeader, Vec<ProgramHeader>), LoadError>)
    ensures
        result matches Err(error) ==> error == if !is_elf(bytes@) {
            LoadError::NotElf
        } else {
            LoadError::UnreadableProgramHeader
        },
        result is Ok <==> is_elf(bytes@) && all_ph_readable(bytes@),
        result matches Ok((header, headers)) ==> header == elf_header(bytes@) && headers@
            == program_headers(bytes@),
{
    let header = match read_elf_header(bytes) {
        Some(header) => header,
        None => {
            return Err(LoadError::NotElf);
        },
    };
    let mut headers: Vec<ProgramHeader> = Vec::new();
    if header.ph_offset == 0 || header.ph_entry_size == 0 {
        assert(headers@ =~= program_headers(bytes@));
        return Ok((header, headers));
    }
    let entry_size: u64 = header.ph_entry_size as u64;
    let length: u64 = bytes.len() as u64;
    let mut i: u16 = 0;
    while i < header.ph_count
        invariant
            is_elf(bytes@),
            header == elf_header(bytes@),
            header.ph_offset > 0,
            entry_size == header.ph_entry_size > 0,
            length == bytes@.len(),
            i <= header.ph_count,
            headers@ =~= Seq::new(i as nat, |k: int| program_header(bytes@, k)),
            forall|k: int| 0 <= k < i ==> #[trigger] ph_readable(bytes@, k),
        decreases header.ph_count - i,
    {
        proof {
            assert(i * entry_size <= 0xffff * 0xffff) by (nonlinear_arith)
                requires
                    i <= 0xffff,
                    entry_size <= 0xffff,
            ;
            assert(has_program_header(header, i as int));
        }
        let skipped: u64 = i as u64 * entry_size;
        let readable: bool = if header.ph_offset > length || skipped + entry_size > length
            - header.ph_offset {
            false
        } else if header.is_64_bit {
            entry_size >= 56 && (header.ph_offset + skipped) % 8 == 0
        } else {
            entry_size >= 32 && (header.ph_offset + skipped) % 4 == 0
        };
        assert(readable == ph_readable(bytes@, i as int));
        if !readable {
            return Err(LoadError::UnreadableProgramHeader);
        }
        match read_program_header(bytes, i) {
            Some(found) => {
                headers.push(found);
            },
            None => {
                return Err(LoadError::UnreadableProgramHeader);
            },
        }
        i += 1;
    }
    Ok((header, headers))
}

/// A number of up to eight bytes fits its bytes.
proof fn lemma_le_number_range(bytes: Seq<u8>, at: int, size: nat)
    requires
        size <= 8,
    ensures
        0 <= le_number(bytes, at, size) <= u64::MAX,
        size <= 2 ==> le_number(bytes, at, size) <= u16::MAX,
        size <= 4 ==> le_number(bytes, at, size) <= u32::MAX,
{
    reveal_with_fuel(le_number, 9);
}

/// The entry point is the number in the `e_entry` field of the ELF header,
/// which follows the first 24 bytes and has the width of the file's class.
pub proof fn entry_point_is_e_entry(bytes: Seq<u8>)
    requires
        is_elf(bytes),
    ensures
        elf_header(bytes).entry_point == le_number(
            bytes,
            24,
            if bytes[4] == 2 {
                8
            } else {
                4
            },
        ),
{
    lemma_le_number_range(bytes, 24, 8);
    lemma_le_number_range(bytes, 24, 4);
}

/// Numbers in a file have their lowest byte first.
pub proof fn numbers_have_their_lowest_byte_first(bytes: Seq<u8>, at: int)
    ensures
        le_number(bytes, at, 2) == bytes[at] + 0x100 * bytes[at + 1],
        le_number(bytes, at, 4) == bytes[at] + 0x100 * bytes[at + 1] + 0x1_0000 * bytes[at + 2]
            + 0x100_0000 * bytes[at + 3],
        le_number(bytes, at, 8) == le_number(bytes, at, 4) + 0x1_0000_0000 * le_number(
            bytes,
            at + 4,
            4,
        ),
{
    reveal_with_fuel(le_number, 9);
}

/// What an ELF file starts with: 0x7f, the letters E, L and F, and a class, 1
/// for 32 bits and 2 for 64. The header takes 52 bytes in the one class and 64 in
/// the other.
pub proof fn elf_files_start_with_their_header(bytes: Seq<u8>)
    ensures
        is_elf(bytes) ==> le_number(bytes, 0, 4) == 0x464c_457f && (bytes[4] == 1 || bytes[4] == 2),
        bytes.len() >= 64 && le_number(bytes, 0, 4) == 0x464c_457f && bytes[4] == 2 ==> is_elf(
            bytes,
        ),
        bytes.len() >= 52 && le_number(bytes, 0, 4) == 0x464c_457f && bytes[4] == 1 ==> is_elf(
            bytes,
        ),
        bytes.len() < 52 ==> !is_elf(bytes),
        bytes.len() < 64 && bytes[4] == 2 ==> !is_elf(bytes),
{
    numbers_have_their_lowest_byte_first(bytes, 0);
}

/// The fields of the ELF header, by their place in a file of the 64-bit class.
pub proof fn elf_header_of_64_bits(bytes: Seq<u8>)
    requires
        is_elf(bytes),
        bytes[4] == 2,
    ensures
        ({
            let header = elf_header(bytes);
            &&& header.is_64_bit
            &&& header.entry_point == le_number(bytes, 24, 8)
            &&& header.ph_offset == le_number(bytes, 32, 8)
            &&& header.ph_entry_size == le_number(bytes, 54, 2)
            &&& header.ph_count == le_number(bytes, 56, 2)
        }),
{
    lemma_le_number_range(bytes, 24, 8);
    lemma_le_number_range(bytes, 32, 8);
    lemma_le_number_range(bytes, 54, 2);
    lemma_le_number_range(bytes, 56, 2);
}

/// The fields of the ELF header, by their place in a file of the 32-bit class.
pub proof fn elf_header_of_32_bits(bytes: Seq<u8>)
    requires
        is_elf(bytes),
        bytes[4] == 1,
    ensures
        ({
            let header = elf_header(bytes);
            &&& !header.is_64_bit
            &&& header.entry_point == le_number(bytes, 24, 4)
            &&& header.ph_offset == le_number(bytes, 28, 4)
            &&& header.ph_entry_size == le_number(bytes, 42, 2)
            &&& header.ph_count == le_number(bytes, 44, 2)
        }),
{
    lemma_le_number_range(bytes, 24, 4);
    lemma_le_number_range(bytes, 28, 4);
    lemma_le_number_range(bytes, 42, 2);
    lemma_le_number_range(bytes, 44, 2);
}

/// The fields of a program header, by their place in a file of the 64-bit class.
/// The table starts where the ELF header says, and its entries have the size
/// that the ELF header gives.
pub proof fn program_header_of_64_bits(bytes: Seq<u8>, index: int)
    requires
        elf_header(bytes).is_64_bit,
    ensures
        ({
            let header = program_header(bytes, index);
            let start = elf_header(bytes).ph_offset + index * elf_header(bytes).ph_entry_size;
            &&& header.is_load <==> le_number(bytes, start, 4) == 1
            &&& header.is_dynamic <==> le_number(bytes, start, 4) == 2
            &&& header.is_execute <==> bytes[start + 4] % 2 == 1
            &&& header.is_write <==> bytes[start + 4] / 2 % 2 == 1
            &&& header.offset == le_number(bytes, start + 8, 8)
            &&& header.virtual_addr == le_number(bytes, start + 16, 8)
            &&& header.file_size == le_number(bytes, start + 32, 8)
            &&& header.mem_size == le_number(bytes, start + 40, 8)
        }),
{
    let start = ph_start(elf_header(bytes), index);
    numbers_have_their_lowest_byte_first(bytes, start + 4);
    lemma_le_number_range(bytes, start + 8, 8);
    lemma_le_number_range(bytes, start + 16, 8);
    lemma_le_number_range(bytes, start + 32, 8);
    lemma_le_number_range(bytes, start + 40, 8);
}

/// The fields of a program header, by their place in a file of the 32-bit class.
pub proof fn program_header_of_32_bits(bytes: Seq<u8>, index: int)
    requires
        !elf_header(bytes).is_64_bit,
    ensures
        ({
            let header = program_header(bytes, index);
            let start = elf_header(bytes).ph_offset + index * elf_header(bytes).ph_entry_size;
            &&& header.is_load <==> le_number(bytes, start, 4) == 1
            &&& header.is_dynamic <==> le_number(bytes, start, 4) == 2
            &&& header.is_execute <==> bytes[start + 24] % 2 == 1
            &&& header.is_write <==> bytes[start + 24] / 2 % 2 == 1
            &&& header.offset == le_number(bytes, start + 4, 4)
            &&& header.virtual_addr == le_number(bytes, start + 8, 4)
            &&& header.file_size == le_number(bytes, start + 16, 4)
            &&& header.mem_size == le_number(bytes, start + 20, 4)
        }),
{
    let start = ph_start(elf_header(bytes), index);
    numbers_have_their_lowest_byte_first(bytes, start + 24);
    lemma_le_number_range(bytes, start + 4, 4);
    lemma_le_number_range(bytes, start + 8, 4);
    lemma_le_number_range(bytes, start + 16, 4);
    lemma_le_number_range(bytes, start + 20, 4);
}

/// A file has as many program headers as its ELF header says, in table order,
/// and none where there is no table: where its offset or its entry size is zero.
pub proof fn program_headers_are_counted(bytes: Seq<u8>, index: int)
    ensures
        ({
            let header = elf_header(bytes);
            &&& header.ph_offset == 0 || header.ph_entry_size == 0 ==> program_headers(bytes).len()
                == 0
            &&& header.ph_offset > 0 && header.ph_entry_size > 0 ==> program_headers(bytes).len()
                == header.ph_count
            &&& 0 <= index < program_headers(bytes).len() ==> program_headers(bytes)[index]
                == program_header(bytes, index)
            &&& has_program_header(header, index) <==> 0 <= index < program_headers(bytes).len()
        }),
{
}

/// When the program headers can be read: the whole table lies in the file, its
/// entries are large enough for the class, and each starts at a multiple of 8
/// bytes in the 64-bit class, and of 4 in the 32-bit class.
pub proof fn readable_program_headers(bytes: Seq<u8>)
    ensures
        all_ph_readable(bytes) <==> forall|index: int| #[trigger]
            ph_readable(bytes, index) || !(0 <= index < program_headers(bytes).len()),
        forall|index: int| #[trigger]
            ph_readable(bytes, index) <==> {
                let header = elf_header(bytes);
                let start = header.ph_offset + index * header.ph_entry_size;
                &&& start + header.ph_entry_size <= bytes.len()
                &&& header.is_64_bit ==> header.ph_entry_size >= 56 && start % 8 == 0
                &&& !header.is_64_bit ==> header.ph_entry_size >= 32 && start % 4 == 0
            },
{
    assert forall|index: int| has_program_header(elf_header(bytes), index) == (0 <= index
        < program_headers(bytes).len()) by {
        program_headers_are_counted(bytes, index);
    }
}

} // verus!
