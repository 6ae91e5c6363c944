use mikanos_rs_loader::error::LoadError;
use mikanos_rs_loader::planner::{
    address_range, plan_placement, AddressRange, MemoryClass, PageAllocation,
};
use mikanos_rs_loader::segment::{ProgramHeader, PAGE_SIZE, PT_LOAD};

const PT_NOTE: u32 = 4;

fn load(vaddr: u64, file_size: u64, memory_size: u64) -> ProgramHeader {
    ProgramHeader::new(PT_LOAD, vaddr, 0, file_size, memory_size)
}

#[test]
fn load_type_matches_the_parser() {
    assert_eq!(PT_LOAD, goblin::elf::program_header::PT_LOAD);
    assert_eq!(PAGE_SIZE, 4096);
    assert_eq!(PAGE_SIZE, uefi::boot::PAGE_SIZE);
}

#[test]
fn new_header_keeps_its_fields() {
    let header = ProgramHeader::new(PT_LOAD, 0x1000, 0x40, 0x100, 0x200);
    assert_eq!(
        header,
        ProgramHeader {
            segment_type: 1,
            virtual_address: 0x1000,
            file_offset: 0x40,
            file_size: 0x100,
            memory_size: 0x200,
        }
    );
    assert!(header.is_loadable());
    assert!(!ProgramHeader::new(PT_NOTE, 0x1000, 0x40, 0x100, 0x200).is_loadable());
    assert!(!ProgramHeader::new(0, 0, 0, 0, 0).is_loadable());
}

#[test]
fn two_segments_span_from_lowest_start_to_highest_end() {
    let headers = [load(0x1000, 0x100, 0x200), load(0x2000, 0x50, 0x50)];
    let range = address_range(&headers).unwrap();
    assert_eq!(range, AddressRange { start: 0x1000, end: 0x2050 });
    assert_eq!(range.len(), 0x1050);
    assert_eq!(range.page_count(), 2);
}

#[test]
fn table_order_does_not_matter() {
    let forward = [load(0x1000, 0, 0x10), load(0x9000, 0, 0x20), load(0x4000, 0, 0x6000)];
    let backward = [forward[2], forward[1], forward[0]];
    let expected = AddressRange { start: 0x1000, end: 0xa000 };
    assert_eq!(address_range(&forward), Ok(expected));
    assert_eq!(address_range(&backward), Ok(expected));
}

#[test]
fn a_segment_inside_another_does_not_widen_the_range() {
    let headers = [load(0x1000, 0, 0x5000), load(0x2000, 0, 0x100)];
    assert_eq!(address_range(&headers), Ok(AddressRange { start: 0x1000, end: 0x6000 }));
}

#[test]
fn other_segment_types_are_ignored() {
    let headers = [
        ProgramHeader::new(PT_NOTE, 0x10, 0, 0x10, 0x10),
        load(0x4000, 0x10, 0x20),
        ProgramHeader::new(0x6474_e551, 0xffff_0000, 0, 0, 0x1000),
    ];
    assert_eq!(address_range(&headers), Ok(AddressRange { start: 0x4000, end: 0x4020 }));
}

#[test]
fn no_loadable_segment_is_fatal() {
    assert_eq!(address_range(&[]), Err(LoadError::NoLoadableSegment));
    let headers = [ProgramHeader::new(PT_NOTE, 0x1000, 0, 0x10, 0x10)];
    assert_eq!(address_range(&headers), Err(LoadError::NoLoadableSegment));
    assert_eq!(plan_placement(&headers), Err(LoadError::NoLoadableSegment));
    // A malformed segment of another type changes nothing.
    let headers = [ProgramHeader::new(PT_NOTE, u64::MAX, 0, 0x10, u64::MAX)];
    assert_eq!(address_range(&headers), Err(LoadError::NoLoadableSegment));
}

#[test]
fn zero_sized_segment_counts_with_its_address() {
    let headers = [load(0x3000, 0, 0)];
    let range = address_range(&headers).unwrap();
    assert_eq!(range, AddressRange { start: 0x3000, end: 0x3000 });
    assert_eq!(range.page_count(), 0);

    let headers = [load(0x3000, 0, 0x10), load(0x8000, 0, 0)];
    assert_eq!(address_range(&headers), Ok(AddressRange { start: 0x3000, end: 0x8000 }));

    let headers = [load(0x3000, 0, 0x10), load(0x1000, 0, 0)];
    assert_eq!(address_range(&headers), Ok(AddressRange { start: 0x1000, end: 0x3010 }));
}

#[test]
fn segment_at_the_top_of_the_address_space() {
    let top = usize::MAX as u64;
    let headers = [load(top, 0, 0)];
    assert_eq!(address_range(&headers), Ok(AddressRange { start: usize::MAX, end: usize::MAX }));
    let headers = [load(top - 0x10, 0, 0x10)];
    assert_eq!(
        address_range(&headers),
        Ok(AddressRange { start: usize::MAX - 0x10, end: usize::MAX })
    );
}

#[test]
fn segment_end_beyond_the_address_space_is_fatal() {
    let headers = [load(u64::MAX, 0, 1)];
    assert_eq!(address_range(&headers), Err(LoadError::AddressOverflow));
    let headers = [load(0x1000, 0, 0x10), load(1, 0, u64::MAX)];
    assert_eq!(address_range(&headers), Err(LoadError::AddressOverflow));
    assert_eq!(plan_placement(&headers), Err(LoadError::AddressOverflow));
    let headers = [load(u64::MAX, 0, u64::MAX), ProgramHeader::new(PT_NOTE, 0, 0, 0, 0)];
    assert_eq!(address_range(&headers), Err(LoadError::AddressOverflow));
}

#[test]
fn page_count_rounds_up() {
    let pages = |size: usize| AddressRange { start: 0x10_0000, end: 0x10_0000 + size }.page_count();
    assert_eq!(pages(0), 0);
    assert_eq!(pages(1), 1);
    assert_eq!(pages(4095), 1);
    assert_eq!(pages(4096), 1);
    assert_eq!(pages(4097), 2);
    assert_eq!(pages(8192), 2);
    assert_eq!(pages(0x1050), 2);
    assert_eq!(pages(10 * 4096 + 1), 11);
}

#[test]
fn page_count_of_the_whole_address_space() {
    let range = AddressRange { start: 0, end: usize::MAX };
    assert_eq!(range.len(), usize::MAX);
    assert_eq!(range.page_count(), usize::MAX / 4096 + 1);
}

#[test]
fn inverted_range_is_empty() {
    let range = AddressRange { start: 0x2000, end: 0x1000 };
    assert_eq!(range.len(), 0);
    assert_eq!(range.page_count(), 0);
}

#[test]
fn pages_cover_the_range_and_no_more() {
    for size in [0usize, 1, 2, 4095, 4096, 4097, 12287, 12288, 12289, 1 << 30] {
        let range = AddressRange { start: 0x4000, end: 0x4000 + size };
        let count = range.page_count();
        assert!(count * 4096 >= size);
        if size > 0 {
            assert!((count - 1) * 4096 < size);
        }
    }
}

#[test]
fn allocation_starts_exactly_at_the_range() {
    let range = AddressRange { start: 0x10_0000, end: 0x10_3001 };
    let request = range.allocation();
    assert_eq!(
        request,
        PageAllocation { range, page_count: 4, class: MemoryClass::KernelImage }
    );
    assert_eq!(request.start(), 0x10_0000);
    assert_ne!(request.class, MemoryClass::LoaderScratch);
}

#[test]
fn placement_of_a_kernel() {
    let headers = [
        ProgramHeader::new(PT_LOAD, 0x10_0000, 0, 0xa8, 0xa8),
        ProgramHeader::new(PT_LOAD, 0x10_1000, 0x1000, 0x1b0, 0x1b0),
        ProgramHeader::new(PT_LOAD, 0x10_2000, 0x2000, 0, 0x18),
        ProgramHeader::new(0x6474_e551, 0, 0, 0, 0),
    ];
    let request = plan_placement(&headers).unwrap();
    assert_eq!(request.range, AddressRange { start: 0x10_0000, end: 0x10_2018 });
    assert_eq!(request.start(), 0x10_0000);
    assert_eq!(request.page_count, 3);
    assert_eq!(request.class, MemoryClass::KernelImage);
    // Every loadable segment lies in the planned range.
    for header in headers.iter().filter(|h| h.is_loadable()) {
        assert!(request.range.start as u64 <= header.virtual_address);
        assert!(header.virtual_address + header.memory_size <= request.range.end as u64);
    }
}
