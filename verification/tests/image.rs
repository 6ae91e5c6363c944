use mikanos_rs_loader::elf::{read_image, ParsedImage};
use mikanos_rs_loader::error::LoadError;
use mikanos_rs_loader::loader::{entry_is_loaded, load_elf};
use mikanos_rs_loader::planner::{plan_placement, AddressRange, MemoryClass};
use mikanos_rs_loader::segment::{ProgramHeader, PT_LOAD};

const PT_NOTE: u32 = 4;
const HEADER_SIZE: usize = 64;
const PROGRAM_HEADER_SIZE: usize = 56;

/// A little-endian ELF64 file with the given entry address and program
/// headers and nothing else, padded with `payload` behind the tables.
fn elf64(entry: u64, headers: &[ProgramHeader], payload: &[u8]) -> Vec<u8> {
    let mut bytes = Vec::new();
    bytes.extend_from_slice(&[0x7f, b'E', b'L', b'F', 2, 1, 1, 0]);
    bytes.extend_from_slice(&[0; 8]);
    bytes.extend_from_slice(&2u16.to_le_bytes()); // e_type: executable
    bytes.extend_from_slice(&0x3eu16.to_le_bytes()); // e_machine: x86-64
    bytes.extend_from_slice(&1u32.to_le_bytes()); // e_version
    bytes.extend_from_slice(&entry.to_le_bytes());
    bytes.extend_from_slice(&(HEADER_SIZE as u64).to_le_bytes()); // e_phoff
    bytes.extend_from_slice(&0u64.to_le_bytes()); // e_shoff
    bytes.extend_from_slice(&0u32.to_le_bytes()); // e_flags
    bytes.extend_from_slice(&(HEADER_SIZE as u16).to_le_bytes()); // e_ehsize
    bytes.extend_from_slice(&(PROGRAM_HEADER_SIZE as u16).to_le_bytes()); // e_phentsize
    bytes.extend_from_slice(&(headers.len() as u16).to_le_bytes()); // e_phnum
    bytes.extend_from_slice(&64u16.to_le_bytes()); // e_shentsize
    bytes.extend_from_slice(&0u16.to_le_bytes()); // e_shnum
    bytes.extend_from_slice(&0u16.to_le_bytes()); // e_shstrndx
    assert_eq!(bytes.len(), HEADER_SIZE);
    for header in headers {
        bytes.extend_from_slice(&header.segment_type.to_le_bytes());
        bytes.extend_from_slice(&5u32.to_le_bytes()); // p_flags
        bytes.extend_from_slice(&header.file_offset.to_le_bytes());
        bytes.extend_from_slice(&header.virtual_address.to_le_bytes());
        bytes.extend_from_slice(&header.virtual_address.to_le_bytes()); // p_paddr
        bytes.extend_from_slice(&header.file_size.to_le_bytes());
        bytes.extend_from_slice(&header.memory_size.to_le_bytes());
        bytes.extend_from_slice(&0x1000u64.to_le_bytes()); // p_align
    }
    bytes.extend_from_slice(payload);
    bytes
}

fn payload(len: usize) -> Vec<u8> {
    (0..len).map(|i| (i * 7 % 253) as u8 + 2).collect()
}

/// A kernel of two segments whose file bytes lie behind the tables.
fn two_segment_kernel() -> (Vec<u8>, [ProgramHeader; 2]) {
    let tables = (HEADER_SIZE + 2 * PROGRAM_HEADER_SIZE) as u64;
    let headers = [
        ProgramHeader::new(PT_LOAD, 0x1000, tables, 0x100, 0x200),
        ProgramHeader::new(PT_LOAD, 0x2000, tables + 0x100, 0x50, 0x50),
    ];
    (elf64(0x1010, &headers, &payload(0x150)), headers)
}

#[test]
fn image_is_read_from_elf_bytes() {
    let (bytes, headers) = two_segment_kernel();
    let image = read_image(&bytes).unwrap();
    assert_eq!(image.entry, 0x1010);
    assert_eq!(image.program_headers, headers.to_vec());
}

#[test]
fn image_agrees_with_the_parser() {
    let headers = [
        ProgramHeader::new(PT_NOTE, 0x40_0000, 0x200, 0x20, 0x20),
        ProgramHeader::new(PT_LOAD, 0x40_1000, 0x1000, 0x1234, 0x5678),
        ProgramHeader::new(0x6474_e551, 0, 0, 0, 0),
    ];
    let bytes = elf64(0x40_1040, &headers, &[]);
    let image = read_image(&bytes).unwrap();
    let parsed = goblin::elf::Elf::parse(&bytes).unwrap();
    assert_eq!(image.entry, parsed.entry);
    assert_eq!(image.program_headers.len(), parsed.program_headers.len());
    for (ours, theirs) in image.program_headers.iter().zip(parsed.program_headers.iter()) {
        assert_eq!(ours.segment_type, theirs.p_type);
        assert_eq!(ours.virtual_address, theirs.p_vaddr);
        assert_eq!(ours.file_offset, theirs.p_offset);
        assert_eq!(ours.file_size, theirs.p_filesz);
        assert_eq!(ours.memory_size, theirs.p_memsz);
    }
    assert_eq!(image.program_headers, headers.to_vec());
}

#[test]
fn image_without_program_headers() {
    let image = read_image(&elf64(0, &[], &[])).unwrap();
    assert_eq!(image, ParsedImage { entry: 0, program_headers: vec![] });
    assert_eq!(plan_placement(&image.program_headers), Err(LoadError::NoLoadableSegment));
}

#[test]
fn bytes_that_are_no_elf_image_are_rejected() {
    assert_eq!(read_image(&[]), Err(LoadError::NotElf));
    assert_eq!(read_image(b"not an executable"), Err(LoadError::NotElf));
    assert_eq!(read_image(&[0u8; 64]), Err(LoadError::NotElf));
    let (mut bytes, _) = two_segment_kernel();
    bytes[1] = b'F';
    assert_eq!(read_image(&bytes), Err(LoadError::NotElf));
}

#[test]
fn truncated_program_header_table_is_rejected() {
    let (bytes, _) = two_segment_kernel();
    assert_eq!(read_image(&bytes[..HEADER_SIZE + PROGRAM_HEADER_SIZE]), Err(LoadError::NotElf));
    assert_eq!(read_image(&bytes[..HEADER_SIZE - 1]), Err(LoadError::NotElf));
}

#[test]
fn entry_must_lie_in_a_loadable_segment() {
    let headers = [
        ProgramHeader::new(PT_LOAD, 0x1000, 0, 0x100, 0x200),
        ProgramHeader::new(PT_NOTE, 0x3000, 0, 0x100, 0x100),
        ProgramHeader::new(PT_LOAD, 0x2000, 0x100, 0x50, 0x50),
        ProgramHeader::new(PT_LOAD, 0x5000, 0, 0, 0),
    ];
    for entry in [0x1000, 0x10ff, 0x1100, 0x11ff, 0x2000, 0x204f] {
        assert!(entry_is_loaded(&headers, entry), "{entry:#x}");
    }
    for entry in [0, 0xfff, 0x1200, 0x1fff, 0x2050, 0x3000, 0x3080, 0x5000, u64::MAX] {
        assert!(!entry_is_loaded(&headers, entry), "{entry:#x}");
    }
    assert!(!entry_is_loaded(&[], 0));
}

#[test]
fn entry_in_a_segment_at_the_top_of_the_address_space() {
    let headers = [ProgramHeader::new(PT_LOAD, u64::MAX - 0xf, 0, 0, 0x10)];
    assert!(entry_is_loaded(&headers, u64::MAX - 0xf));
    assert!(entry_is_loaded(&headers, u64::MAX));
    assert!(!entry_is_loaded(&headers, u64::MAX - 0x10));
    let headers = [ProgramHeader::new(PT_LOAD, u64::MAX - 0xf, 0, 0, 0xf)];
    assert!(entry_is_loaded(&headers, u64::MAX - 1));
    assert!(!entry_is_loaded(&headers, u64::MAX));
    let headers = [ProgramHeader::new(PT_LOAD, u64::MAX, 0, 0, u64::MAX)];
    assert!(entry_is_loaded(&headers, u64::MAX));
    assert!(!entry_is_loaded(&headers, u64::MAX - 1));
}

#[test]
fn kernel_is_planned_loaded_and_entered() {
    let (bytes, headers) = two_segment_kernel();
    let image = read_image(&bytes).unwrap();

    let request = plan_placement(&image.program_headers).unwrap();
    assert_eq!(request.range, AddressRange { start: 0x1000, end: 0x2050 });
    assert_eq!(request.start(), 0x1000);
    assert_eq!(request.page_count, 2);
    assert_eq!(request.class, MemoryClass::KernelImage);

    let mut memory = vec![0xa5u8; request.range.len()];
    let entry = load_elf(&image, &bytes, request.start(), &mut memory).unwrap();
    assert_eq!(entry.address(), 0x1010);

    let first = headers[0].file_offset as usize;
    let second = headers[1].file_offset as usize;
    assert_eq!(&memory[..0x100], &bytes[first..first + 0x100]);
    assert!(memory[0x100..0x200].iter().all(|&byte| byte == 0));
    assert!(memory[0x200..0x1000].iter().all(|&byte| byte == 0xa5));
    assert_eq!(&memory[0x1000..0x1050], &bytes[second..second + 0x50]);
}

#[test]
fn whole_pages_can_be_handed_in() {
    let (bytes, _) = two_segment_kernel();
    let image = read_image(&bytes).unwrap();
    let request = plan_placement(&image.program_headers).unwrap();
    let mut memory = vec![0xa5u8; request.page_count * 4096];
    let entry = load_elf(&image, &bytes, request.start(), &mut memory).unwrap();
    assert_eq!(entry.address(), image.entry);
    assert!(memory[0x1050..].iter().all(|&byte| byte == 0xa5));
}

#[test]
fn entry_outside_every_segment_is_fatal() {
    let (_, headers) = two_segment_kernel();
    let bytes = elf64(0x3000, &headers, &payload(0x150));
    let image = read_image(&bytes).unwrap();
    let mut memory = vec![0xa5u8; 0x1050];
    let result = load_elf(&image, &bytes, 0x1000, &mut memory);
    assert_eq!(result.map(|entry| entry.address()), Err(LoadError::EntryNotLoaded));
    assert_eq!(memory, vec![0xa5u8; 0x1050]);
}

#[test]
fn entry_is_checked_before_the_segments() {
    let headers = vec![ProgramHeader::new(PT_LOAD, 0x1000, 0x1000, 0x100, 0x100)];
    let image = ParsedImage { entry: 0, program_headers: headers };
    let mut memory = vec![0u8; 0x100];
    let result = load_elf(&image, &[], 0x1000, &mut memory);
    assert_eq!(result.map(|entry| entry.address()), Err(LoadError::EntryNotLoaded));
}

#[test]
fn segment_beyond_the_image_aborts_the_load() {
    let tables = (HEADER_SIZE + 2 * PROGRAM_HEADER_SIZE) as u64;
    let headers = [
        ProgramHeader::new(PT_LOAD, 0x1000, tables, 0x100, 0x200),
        ProgramHeader::new(PT_LOAD, 0x2000, tables + 0x100, 0x51, 0x51),
    ];
    let bytes = elf64(0x1000, &headers, &payload(0x150));
    let image = read_image(&bytes).unwrap();
    let request = plan_placement(&image.program_headers).unwrap();
    let mut memory = vec![0xa5u8; request.range.len()];
    let result = load_elf(&image, &bytes, request.start(), &mut memory);
    assert_eq!(result.map(|entry| entry.address()), Err(LoadError::FileRangeOutOfBounds));
    assert_eq!(memory, vec![0xa5u8; request.range.len()]);
}

#[test]
fn window_that_is_too_small_aborts_the_load() {
    let (bytes, _) = two_segment_kernel();
    let image = read_image(&bytes).unwrap();
    let mut memory = vec![0xa5u8; 0x104f];
    let result = load_elf(&image, &bytes, 0x1000, &mut memory);
    assert_eq!(result.map(|entry| entry.address()), Err(LoadError::OutsideReservation));
    assert_eq!(memory, vec![0xa5u8; 0x104f]);

    let mut memory = vec![0xa5u8; 0x2000];
    let result = load_elf(&image, &bytes, 0x1001, &mut memory);
    assert_eq!(result.map(|entry| entry.address()), Err(LoadError::OutsideReservation));
}

#[test]
fn segment_with_more_file_bytes_than_memory_aborts_the_load() {
    let tables = (HEADER_SIZE + PROGRAM_HEADER_SIZE) as u64;
    let headers = [ProgramHeader::new(PT_LOAD, 0x1000, tables, 0x20, 0x10)];
    let bytes = elf64(0x1000, &headers, &payload(0x20));
    let image = read_image(&bytes).unwrap();
    let mut memory = vec![0xa5u8; 0x20];
    let result = load_elf(&image, &bytes, 0x1000, &mut memory);
    assert_eq!(result.map(|entry| entry.address()), Err(LoadError::FileLargerThanMemory));
    assert_eq!(memory, vec![0xa5u8; 0x20]);
}

#[test]
fn loading_twice_gives_the_same_memory() {
    let (bytes, _) = two_segment_kernel();
    let image = read_image(&bytes).unwrap();
    let mut once = vec![0xa5u8; 0x1050];
    load_elf(&image, &bytes, 0x1000, &mut once).unwrap();
    let mut twice = once.clone();
    load_elf(&image, &bytes, 0x1000, &mut twice).unwrap();
    assert_eq!(once, twice);
}
