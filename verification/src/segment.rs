//! Program headers and the address range they span.

use vstd::prelude::*;

verus! {

/// Segment type of a loadable segment.
pub const PT_LOAD: u32 = 1;

/// Size in bytes of a page of physical memory.
pub const PAGE_SIZE: usize = 4096;

/// One entry of the program header table: a segment of the image.
///
/// The virtual address is also the physical address the segment is loaded
/// at: memory is identity-mapped while the loader runs.
#[derive(Clone, Copy, Debug, PartialEq, Eq, Structural)]
pub struct ProgramHeader {
    /// What kind of segment this is; only `PT_LOAD` segments are loaded.
    pub segment_type: u32,
    /// Address of the first byte of the segment in memory.
    pub virtual_address: u64,
    /// Offset of the segment's first byte in the image.
    pub file_offset: u64,
    /// Number of bytes the image holds for the segment.
    pub file_size: u64,
    /// Number of bytes the segment occupies once loaded.
    pub memory_size: u64,
}

impl ProgramHeader {
    /// Whether the segment takes part in loading.
    pub open spec fn loadable(self) -> bool {
        self.segment_type == PT_LOAD
    }

    /// The address one past the last byte of the segment in memory.
    pub open spec fn end_address(self) -> int {
        self.virtual_address + self.memory_size
    }

    /// Whether `address` is one of the bytes the segment occupies in memory.
    pub open spec fn occupies(self, address: int) -> bool {
        self.virtual_address <= address < self.end_address()
    }

    /// Puts a program header together from its five fields.
    pub fn new(
        segment_type: u32,
        virtual_address: u64,
        file_offset: u64,
        file_size: u64,
        memory_size: u64,
    ) -> (header: ProgramHeader)
        ensures
            header == (ProgramHeader {
                segment_type,
                virtual_address,
                file_offset,
                file_size,
                memory_size,
            }),
    {
        ProgramHeader { segment_type, virtual_address, file_offset, file_size, memory_size }
    }

    /// Whether the segment takes part in loading.
    pub fn is_loadable(&self) -> (loadable: bool)
        ensures
            loadable == self.loadable(),
    {
        self.segment_type == PT_LOAD
    }
}

} // verus!
