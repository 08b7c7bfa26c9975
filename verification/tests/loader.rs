use polished_boot::elf::{read_elf, ElfHeader, ProgramHeader};
use polished_boot::loader::{load_kernel, plan_segment, LoadError, Segment};
use polished_boot::page_table::{NO_EXECUTE, PRESENT, WRITABLE};

struct Phdr {
    kind: u32,
    flags: u32,
    offset: u64,
    vaddr: u64,
    file_size: u64,
    mem_size: u64,
}

const READ: u32 = 4;
const WRITE: u32 = 2;
const EXECUTE: u32 = 1;

fn elf64(entry: u64, headers: &[Phdr], data: &[u8]) -> Vec<u8> {
    let mut file = vec![0x7f, b'E', b'L', b'F', 2, 1, 1, 0, 0, 0, 0, 0, 0, 0, 0, 0];
    file.extend_from_slice(&2u16.to_le_bytes());
    file.extend_from_slice(&0x3Eu16.to_le_bytes());
    file.extend_from_slice(&1u32.to_le_bytes());
    file.extend_from_slice(&entry.to_le_bytes());
    file.extend_from_slice(&64u64.to_le_bytes());
    file.extend_from_slice(&0u64.to_le_bytes());
    file.extend_from_slice(&0u32.to_le_bytes());
    file.extend_from_slice(&64u16.to_le_bytes());
    file.extend_from_slice(&56u16.to_le_bytes());
    file.extend_from_slice(&(headers.len() as u16).to_le_bytes());
    file.extend_from_slice(&[0; 6]);
    assert_eq!(file.len(), 64);
    for header in headers {
        file.extend_from_slice(&header.kind.to_le_bytes());
        file.extend_from_slice(&header.flags.to_le_bytes());
        file.extend_from_slice(&header.offset.to_le_bytes());
        file.extend_from_slice(&header.vaddr.to_le_bytes());
        file.extend_from_slice(&0u64.to_le_bytes());
        file.extend_from_slice(&header.file_size.to_le_bytes());
        file.extend_from_slice(&header.mem_size.to_le_bytes());
        file.extend_from_slice(&0x1000u64.to_le_bytes());
    }
    file.extend_from_slice(data);
    file
}

fn elf32(entry: u32, header: &Phdr) -> Vec<u8> {
    let mut file = vec![0x7f, b'E', b'L', b'F', 1, 1, 1, 0, 0, 0, 0, 0, 0, 0, 0, 0];
    file.extend_from_slice(&2u16.to_le_bytes());
    file.extend_from_slice(&3u16.to_le_bytes());
    file.extend_from_slice(&1u32.to_le_bytes());
    file.extend_from_slice(&entry.to_le_bytes());
    file.extend_from_slice(&52u32.to_le_bytes());
    file.extend_from_slice(&0u32.to_le_bytes());
    file.extend_from_slice(&0u32.to_le_bytes());
    file.extend_from_slice(&52u16.to_le_bytes());
    file.extend_from_slice(&32u16.to_le_bytes());
    file.extend_from_slice(&1u16.to_le_bytes());
    file.extend_from_slice(&[0; 6]);
    assert_eq!(file.len(), 52);
    for word in [
        header.kind,
        header.offset as u32,
        header.vaddr as u32,
        0,
        header.file_size as u32,
        header.mem_size as u32,
        header.flags,
        0x1000,
    ] {
        file.extend_from_slice(&word.to_le_bytes());
    }
    file
}

fn load_header(flags: u32, vaddr: u64, file_size: u64, mem_size: u64) -> Phdr {
    Phdr { kind: 1, flags, offset: 64, vaddr, file_size, mem_size }
}

fn error_of(file: &[u8]) -> LoadError {
    load_kernel(file).err().unwrap()
}

#[test]
fn kernel_is_loaded_as_its_headers_say() {
    let headers = [
        Phdr { kind: 6, flags: READ, offset: 64, vaddr: 0x1000, file_size: 8, mem_size: 8 },
        Phdr {
            kind: 1,
            flags: READ | EXECUTE,
            offset: 64 + 4 * 56,
            vaddr: 0xFFFF_8000_0010_0123,
            file_size: 4,
            mem_size: 0x2000,
        },
        Phdr { kind: 2, flags: READ | WRITE, offset: 64, vaddr: 0x3000, file_size: 8, mem_size: 8 },
        Phdr {
            kind: 1,
            flags: READ | WRITE,
            offset: 64 + 4 * 56 + 4,
            vaddr: 0x40_0000,
            file_size: 2,
            mem_size: 2,
        },
    ];
    let file = elf64(0xFFFF_8000_0010_0200, &headers, &[1, 2, 3, 4, 5, 6]);
    let (_, found) = read_elf(&file).ok().unwrap();
    let kinds: Vec<(bool, bool)> = found.iter().map(|h| (h.is_load, h.is_dynamic)).collect();
    assert_eq!(kinds, [(false, false), (true, false), (false, true), (true, false)]);
    let image = load_kernel(&file).ok().unwrap();
    assert_eq!(image.entry_point, 0xFFFF_8000_0010_0200);
    assert_eq!(
        image.segments,
        vec![
            Segment {
                virt_addr: 0xFFFF_8000_0010_0123,
                mem_size: 0x2000,
                file_offset: 288,
                file_size: 4,
                first_page: 0xFFFF_8000_0010_0000,
                last_page: 0xFFFF_8000_0010_2000,
                page_flags: PRESENT,
            },
            Segment {
                virt_addr: 0x40_0000,
                mem_size: 2,
                file_offset: 292,
                file_size: 2,
                first_page: 0x40_0000,
                last_page: 0x40_0000,
                page_flags: PRESENT | NO_EXECUTE | WRITABLE,
            },
        ]
    );
}

#[test]
fn segment_memory_holds_its_data_and_then_zeros() {
    let header = Phdr {
        kind: 1,
        flags: READ | WRITE,
        offset: 64 + 56 + 1,
        vaddr: 0x40_0000,
        file_size: 3,
        mem_size: 6,
    };
    let file = elf64(0x40_0000, &[header], &[9, 8, 7, 6, 5]);
    let image = load_kernel(&file).ok().unwrap();
    let mut memory = [0xAA; 6];
    image.segments[0].fill(&file, &mut memory);
    assert_eq!(memory, [8, 7, 6, 0, 0, 0]);
}

#[test]
fn segment_without_zero_fill_is_copied_whole() {
    let file = elf64(0, &[load_header(READ, 0x40_0000, 4, 4)], &[]);
    let image = load_kernel(&file).ok().unwrap();
    let mut memory = [0xAA; 4];
    image.segments[0].fill(&file, &mut memory);
    assert_eq!(memory, file[64..68]);
}

#[test]
fn page_flags_follow_the_rights_of_the_segment() {
    let cases = [
        (READ, PRESENT | NO_EXECUTE),
        (READ | WRITE, PRESENT | NO_EXECUTE | WRITABLE),
        (READ | EXECUTE, PRESENT),
        (READ | WRITE | EXECUTE, PRESENT | WRITABLE),
        (0, PRESENT | NO_EXECUTE),
    ];
    for (flags, expected) in cases {
        let file = elf64(0, &[load_header(flags, 0x40_0000, 0, 16)], &[]);
        let image = load_kernel(&file).ok().unwrap();
        assert_eq!(image.segments[0].page_flags, expected);
    }
}

#[test]
fn segment_that_ends_at_a_page_boundary_takes_the_next_page_too() {
    let file = elf64(0, &[load_header(READ, 0x40_0000, 0, 0x1000)], &[]);
    let image = load_kernel(&file).ok().unwrap();
    assert_eq!(image.segments[0].first_page, 0x40_0000);
    assert_eq!(image.segments[0].last_page, 0x40_1000);
}

#[test]
fn file_in_memory_at_any_address_is_read() {
    let file = elf64(0x1234, &[load_header(READ, 0x40_0000, 4, 8)], &[]);
    for shift in 0..8 {
        let mut buffer = vec![0; shift];
        buffer.extend_from_slice(&file);
        let image = load_kernel(&buffer[shift..]).ok().unwrap();
        assert_eq!(image.entry_point, 0x1234);
        assert_eq!(image.segments.len(), 1);
        assert_eq!(image.segments[0].file_size, 4);
    }
}

#[test]
fn file_of_the_32_bit_class_is_read() {
    let header = Phdr {
        kind: 1,
        flags: READ | EXECUTE,
        offset: 52,
        vaddr: 0x10_0004,
        file_size: 8,
        mem_size: 12,
    };
    let file = elf32(0x10_0008, &header);
    assert_eq!(
        read_elf(&file),
        Ok((
            ElfHeader {
                is_64_bit: false,
                entry_point: 0x10_0008,
                ph_offset: 52,
                ph_entry_size: 32,
                ph_count: 1,
            },
            vec![ProgramHeader {
                is_load: true,
                is_dynamic: false,
                is_execute: true,
                is_write: false,
                offset: 52,
                virtual_addr: 0x10_0004,
                file_size: 8,
                mem_size: 12,
            }],
        ))
    );
    assert_eq!(load_kernel(&file).ok().unwrap().segments.len(), 1);
}

#[test]
fn file_without_program_headers_has_no_segments() {
    let file = elf64(0x5678, &[], &[]);
    let image = load_kernel(&file).ok().unwrap();
    assert_eq!(image.entry_point, 0x5678);
    assert!(image.segments.is_empty());
    // A count without a table is no table either.
    let mut no_table = elf64(0, &[load_header(READ, 0x40_0000, 0, 8)], &[]);
    no_table[32] = 0;
    assert!(load_kernel(&no_table).ok().unwrap().segments.is_empty());
}

#[test]
fn file_that_is_not_elf_is_refused() {
    let good = elf64(0, &[], &[]);
    assert_eq!(error_of(&[]), LoadError::NotElf);
    assert_eq!(error_of(&good[..15]), LoadError::NotElf);
    assert_eq!(error_of(&good[..63]), LoadError::NotElf);
    let mut bad_magic = good.clone();
    bad_magic[0] = 0x7e;
    assert_eq!(error_of(&bad_magic), LoadError::NotElf);
    let mut bad_class = good.clone();
    bad_class[4] = 3;
    assert_eq!(error_of(&bad_class), LoadError::NotElf);
}

#[test]
fn program_header_that_cannot_be_read_is_refused() {
    let good = elf64(0, &[load_header(READ, 0x40_0000, 0, 8)], &[]);
    assert!(load_kernel(&good).is_ok());
    assert_eq!(error_of(&good[..good.len() - 1]), LoadError::UnreadableProgramHeader);
    let mut misaligned = good.clone();
    misaligned.extend_from_slice(&[0; 8]);
    misaligned[32] = 68;
    assert_eq!(error_of(&misaligned), LoadError::UnreadableProgramHeader);
    let mut short = good.clone();
    short[54] = 55;
    assert_eq!(error_of(&short), LoadError::UnreadableProgramHeader);
    let mut far = good.clone();
    far[32..40].copy_from_slice(&0xFFFF_FFFF_FFFF_FFF8u64.to_le_bytes());
    assert_eq!(error_of(&far), LoadError::UnreadableProgramHeader);
}

#[test]
fn segment_at_a_bad_address_is_refused() {
    let start = elf64(0, &[load_header(READ, 0x8000_0000_0000, 0, 8)], &[]);
    assert_eq!(error_of(&start), LoadError::BadSegmentAddress);
    let end = elf64(0, &[load_header(READ, 0x7FFF_FFFF_F000, 0, 0x1000)], &[]);
    assert_eq!(error_of(&end), LoadError::BadSegmentAddress);
    let overflow = elf64(0, &[load_header(READ, 0xFFFF_FFFF_FFFF_F000, 0, 0x1000)], &[]);
    assert_eq!(error_of(&overflow), LoadError::BadSegmentAddress);
    let last = elf64(0, &[load_header(READ, 0x7FFF_FFFF_F000, 0, 0xFFF)], &[]);
    assert!(load_kernel(&last).is_ok());
}

#[test]
fn segment_that_does_not_fit_is_refused() {
    let too_large = elf64(0, &[load_header(READ, 0x40_0000, 9, 8)], &[]);
    assert_eq!(error_of(&too_large), LoadError::SegmentLargerThanMemory);
    let length = 64 + 56;
    let outside = elf64(0, &[load_header(READ, 0x40_0000, length - 63, 0x1000)], &[]);
    assert_eq!(error_of(&outside), LoadError::SegmentOutsideFile);
    let inside = elf64(0, &[load_header(READ, 0x40_0000, length - 64, 0x1000)], &[]);
    assert!(load_kernel(&inside).is_ok());
    let header = ProgramHeader {
        is_load: true,
        is_dynamic: false,
        is_execute: false,
        is_write: false,
        offset: u64::MAX,
        virtual_addr: 0x1000,
        file_size: 1,
        mem_size: 1,
    };
    assert_eq!(plan_segment(&header, 100), Err(LoadError::SegmentOutsideFile));
}

#[test]
fn first_bad_segment_decides_the_error() {
    let headers = [
        load_header(READ, 0x40_0000, 8, 8),
        load_header(READ, 0x50_0000, 9, 8),
        load_header(READ, 0x8000_0000_0000, 8, 8),
    ];
    assert_eq!(error_of(&elf64(0, &headers, &[])), LoadError::SegmentLargerThanMemory);
    // Headers of other kinds are not looked at.
    let skipped =
        [Phdr { kind: 4, flags: 0, offset: 9999, vaddr: 1 << 47, file_size: 9, mem_size: 8 }];
    assert!(load_kernel(&elf64(0, &skipped, &[])).ok().unwrap().segments.is_empty());
}

fn pages_of(vaddr: u64, mem_size: u64) -> Vec<u64> {
    let file = elf64(0, &[load_header(READ, vaddr, 0, mem_size)], &[]);
    load_kernel(&file).ok().unwrap().segments[0].pages()
}

#[test]
fn pages_go_from_the_first_to_the_last() {
    assert_eq!(pages_of(0x40_0123, 0), [0x40_0000]);
    assert_eq!(pages_of(0x40_0FFF, 1), [0x40_0000, 0x40_1000]);
    assert_eq!(pages_of(0x40_0000, 0x2FFF), [0x40_0000, 0x40_1000, 0x40_2000]);
    assert_eq!(pages_of(0x7FFF_FFFF_E000, 0x1FFF), [0x7FFF_FFFF_E000, 0x7FFF_FFFF_F000]);
    assert_eq!(pages_of(0xFFFF_FFFF_FFFF_F000, 0xFFF), [0xFFFF_FFFF_FFFF_F000]);
}

#[test]
fn pages_leave_out_what_is_not_canonical() {
    let pages = pages_of(0x7FFF_FFFF_E000, 0xFFFF_0000_0000_3000);
    assert_eq!(
        pages,
        [
            0x7FFF_FFFF_E000,
            0x7FFF_FFFF_F000,
            0xFFFF_8000_0000_0000,
            0xFFFF_8000_0000_1000,
        ]
    );
}
