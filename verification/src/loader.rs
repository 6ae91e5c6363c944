//! Loading a parsed kernel image and handing out its entry point.
//!
//! The caller reserves the pages that the planner asks for and passes the
//! reserved memory in as a window of bytes. Once every loadable segment is
//! in place the entry address is given out, and not before.

use vstd::prelude::*;
use crate::copier::{copy_segments, first_fault_is, loaded_memory, segment_fault, segments_sound};
use crate::elf::ParsedImage;
use crate::error::LoadError;
use crate::planner::AddressRange;
use crate::segment::ProgramHeader;

verus! {

/// The address at which execution of a loaded kernel begins.
///
/// A value of this type comes only from `load_elf`, after the segments of
/// the image have been copied and the address has been found to lie in one
/// of them.
#[derive(Debug)]
pub struct EntryPoint {
    address: u64,
}

impl View for EntryPoint {
    type V = u64;

    closed spec fn view(&self) -> u64 {
        self.address
    }
}

impl EntryPoint {
    /// The entry address.
    pub fn address(&self) -> (address: u64)
        ensures
            address == self@,
    {
        self.address
    }
}

/// `entry` is an address that some loadable segment occupies in memory.
pub open spec fn entry_loaded(headers: Seq<ProgramHeader>, entry: u64) -> bool {
    exists|i: int|
        0 <= i < headers.len() && (#[trigger] headers[i]).loadable() && headers[i].occupies(
            entry as int,
        )
}

/// Whether the entry address lies in a loadable segment.
pub fn entry_is_loaded(headers: &[ProgramHeader], entry: u64) -> (loaded: bool)
    ensures
        loaded == entry_loaded(headers@, entry),
{
    let mut i: usize = 0;
    while i < headers.len()
        invariant
            i <= headers@.len(),
            !entry_loaded(headers@.take(i as int), entry),
        decreases headers@.len() - i,
    {
        let header = &headers[i];
        if header.is_loadable() && header.virtual_address <= entry && entry
            - header.virtual_address < header.memory_size {
            assert(headers@[i as int].loadable() && headers@[i as int].occupies(entry as int));
            return true;
        }
        assert(headers@.take(i + 1).drop_last() =~= headers@.take(i as int));
        assert(!entry_loaded(headers@.take(i + 1), entry)) by {
            let now = headers@.take(i + 1);
            let earlier = headers@.take(i as int);
            assert forall|j: int| 0 <= j < now.len() && (#[trigger] now[j]).loadable() implies !now[j].occupies(
                entry as int,
            ) by {
                if j < i {
                    assert(earlier[j] == now[j]);
                }
            }
        }
        i += 1;
    }
    assert(headers@.take(i as int) =~= headers@);
    false
}

/// In the window that the planner asks for, from the start of the range and
/// of the range's size, no loadable segment lies outside the reservation.
pub proof fn lemma_planned_window_holds(
    headers: Seq<ProgramHeader>,
    range: AddressRange,
    source_len: int,
)
    requires
        range.spans(headers),
    ensures
        forall|i: int|
            0 <= i < headers.len() && (#[trigger] headers[i]).loadable() ==> segment_fault(
                headers[i],
                source_len,
                range.start as int,
                range.size(),
            ) != Some(LoadError::OutsideReservation),
{
    crate::planner::lemma_range_holds_segments(headers, range);
}

/// Loads a parsed kernel image into `memory`, the window of reserved bytes
/// that begins at address `base`, and returns the entry point.
///
/// The image is checked before anything is written. If its entry address
/// lies in no loadable segment the load fails with `EntryNotLoaded`; if a
/// loadable segment cannot be copied it fails with the fault of the first
/// such segment. In both cases `memory` is left as it was. Otherwise every
/// loadable segment is copied, in table order, and the entry point carries
/// the image's entry address.
pub fn load_elf(image: &ParsedImage, elf_data: &[u8], base: usize, memory: &mut [u8]) -> (result:
    Result<EntryPoint, LoadError>)
    ensures
        match result {
            Ok(entry_point) => {
                &&& entry_point@ == image.entry
                &&& entry_loaded(image.program_headers@, image.entry)
                &&& segments_sound(
                    image.program_headers@,
                    elf_data@.len() as int,
                    base as int,
                    old(memory)@.len() as int,
                )
                &&& final(memory)@ == loaded_memory(
                    image.program_headers@,
                    elf_data@,
                    base as int,
                    old(memory)@,
                )
            },
            Err(error) => {
                &&& final(memory)@ == old(memory)@
                &&& if !entry_loaded(image.program_headers@, image.entry) {
                    error == LoadError::EntryNotLoaded
                } else {
                    first_fault_is(
                        image.program_headers@,
                        elf_data@.len() as int,
                        base as int,
                        old(memory)@.len() as int,
                        error,
                    )
                }
            },
        },
{
    if !entry_is_loaded(image.program_headers.as_slice(), image.entry) {
        return Err(LoadError::EntryNotLoaded);
    }
    match copy_segments(image.program_headers.as_slice(), elf_data, base, memory) {
        Ok(()) => Ok(EntryPoint { address: image.entry }),
        Err(error) => Err(error),
    }
}

} // verus!
