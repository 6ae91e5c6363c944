//! The ways in which loading a kernel image can fail.
//!
//! Every failure is fatal to the boot process: there is no retry and no
//! fallback placement.

use vstd::prelude::*;

verus! {

/// Why a kernel image could not be loaded.
#[derive(Clone, Copy, Debug, PartialEq, Eq, Structural)]
pub enum LoadError {
    /// The bytes are not an ELF image the parser accepts.
    NotElf,
    /// The image has no loadable segment, so there is nothing to start.
    NoLoadableSegment,
    /// A loadable segment ends beyond the highest representable address.
    AddressOverflow,
    /// A loadable segment holds more bytes in the file than in memory.
    FileLargerThanMemory,
    /// A loadable segment's file bytes reach beyond the end of the image.
    FileRangeOutOfBounds,
    /// A loadable segment does not lie inside the memory handed in.
    OutsideReservation,
    /// The entry address lies in no loadable segment.
    EntryNotLoaded,
}

} // verus!
