//! Working out which physical memory the kernel needs.
//!
//! The kernel occupies the addresses from the lowest start of a loadable
//! segment to the highest end of one. Whole pages covering that range are
//! then reserved at exactly its start: the image is not relocated.

use vstd::prelude::*;
use crate::error::LoadError;
use crate::segment::{ProgramHeader, PAGE_SIZE};

verus! {

/// A range of addresses, from `start` up to but not including `end`.
#[derive(Clone, Copy, Debug, PartialEq, Eq, Structural)]
pub struct AddressRange {
    /// The first address of the range.
    pub start: usize,
    /// The address one past the last of the range.
    pub end: usize,
}

/// The purpose that reserved memory is put to.
///
/// The kernel image gets a class of its own, so that what the loader
/// reserves for its own scratch data later never lands on the kernel.
#[derive(Clone, Copy, Debug, PartialEq, Eq, Structural)]
pub enum MemoryClass {
    /// Memory the loader uses for itself while it runs.
    LoaderScratch,
    /// Memory that holds the loaded kernel image.
    KernelImage,
}

/// A request for physical pages at a fixed address.
///
/// The pages begin exactly at the start of `range`: there is no other
/// placement. Once reserved they are never given back; the kernel takes
/// them over.
#[derive(Clone, Copy, Debug, PartialEq, Eq, Structural)]
pub struct PageAllocation {
    /// The addresses that the pages must cover.
    pub range: AddressRange,
    /// How many pages to reserve.
    pub page_count: usize,
    /// The class of memory to reserve them as.
    pub class: MemoryClass,
}

/// The number of pages needed to hold `size` bytes: `size / PAGE_SIZE`,
/// rounded up.
pub open spec fn pages_for(size: int) -> int {
    (size + PAGE_SIZE - 1) / (PAGE_SIZE as int)
}

/// Some header in the table is loadable.
pub open spec fn has_loadable(headers: Seq<ProgramHeader>) -> bool {
    exists|i: int| 0 <= i < headers.len() && (#[trigger] headers[i]).loadable()
}

/// Every loadable segment ends at an address that a `usize` can hold.
pub open spec fn addresses_fit(headers: Seq<ProgramHeader>) -> bool {
    forall|i: int|
        0 <= i < headers.len() && (#[trigger] headers[i]).loadable() ==> headers[i].end_address()
            <= usize::MAX
}

/// `address` is the lowest start address of a loadable segment.
pub open spec fn is_lowest_start(headers: Seq<ProgramHeader>, address: int) -> bool {
    &&& exists|i: int|
        0 <= i < headers.len() && (#[trigger] headers[i]).loadable() && headers[i].virtual_address
            == address
    &&& forall|i: int|
        0 <= i < headers.len() && (#[trigger] headers[i]).loadable() ==> address
            <= headers[i].virtual_address
}

/// `address` is the highest end address of a loadable segment.
pub open spec fn is_highest_end(headers: Seq<ProgramHeader>, address: int) -> bool {
    &&& exists|i: int|
        0 <= i < headers.len() && (#[trigger] headers[i]).loadable() && headers[i].end_address()
            == address
    &&& forall|i: int|
        0 <= i < headers.len() && (#[trigger] headers[i]).loadable() ==> headers[i].end_address()
            <= address
}

/// Some loadable segment occupies `address`.
pub open spec fn occupied(headers: Seq<ProgramHeader>, address: int) -> bool {
    exists|i: int|
        0 <= i < headers.len() && (#[trigger] headers[i]).loadable() && headers[i].occupies(address)
}

/// `address` lies at or after the start of `first` and before the end of
/// `last`.
pub open spec fn between(first: ProgramHeader, last: ProgramHeader, address: int) -> bool {
    first.virtual_address <= address < last.end_address()
}

/// The loadable segments leave no gap: every address from the start of one
/// of them up to the end of one of them is occupied by one of them.
pub open spec fn gapless(headers: Seq<ProgramHeader>) -> bool {
    forall|i: int, j: int, address: int|
        0 <= i < headers.len() && 0 <= j < headers.len() && headers[i].loadable()
            && headers[j].loadable() && #[trigger] between(headers[i], headers[j], address)
            ==> occupied(headers, address)
}

impl AddressRange {
    /// The range is not inverted.
    pub open spec fn wf(self) -> bool {
        self.start <= self.end
    }

    /// The number of addresses in the range; none if it is inverted.
    pub open spec fn size(self) -> int {
        if self.start <= self.end {
            self.end - self.start
        } else {
            0
        }
    }

    /// Whether `address` lies in the range.
    pub open spec fn contains(self, address: int) -> bool {
        self.start <= address < self.end
    }

    /// The range is the smallest one that holds every loadable segment: it
    /// begins at the lowest start and ends at the highest end among them.
    pub open spec fn spans(self, headers: Seq<ProgramHeader>) -> bool {
        &&& is_lowest_start(headers, self.start as int)
        &&& is_highest_end(headers, self.end as int)
    }

    /// The number of bytes in the range; zero if it is inverted.
    pub fn len(&self) -> (len: usize)
        ensures
            len == self.size(),
    {
        if self.start <= self.end {
            self.end - self.start
        } else {
            0
        }
    }

    /// The number of whole pages needed to cover the range.
    pub fn page_count(&self) -> (count: usize)
        ensures
            count == pages_for(self.size()),
    {
        let size = self.len();
        if size % PAGE_SIZE == 0 {
            size / PAGE_SIZE
        } else {
            size / PAGE_SIZE + 1
        }
    }

    /// The pages to reserve for the range: as many as cover it, at exactly
    /// its start, as kernel image memory.
    pub fn allocation(&self) -> (request: PageAllocation)
        ensures
            request.wf(),
            request.range == *self,
    {
        PageAllocation {
            range: *self,
            page_count: self.page_count(),
            class: MemoryClass::KernelImage,
        }
    }
}

impl PageAllocation {
    /// The request asks for as many pages as cover its range, as kernel
    /// image memory.
    pub open spec fn wf(self) -> bool {
        &&& self.page_count == pages_for(self.range.size())
        &&& self.class == MemoryClass::KernelImage
    }

    /// The address at which the first page must begin.
    pub fn start(&self) -> (start: usize)
        ensures
            start == self.range.start,
    {
        self.range.start
    }
}

/// The pages counted by `pages_for` cover `size` bytes, and one page fewer
/// would not.
pub proof fn lemma_pages_cover(size: int)
    requires
        0 <= size,
    ensures
        pages_for(size) * PAGE_SIZE >= size,
        size > 0 ==> (pages_for(size) - 1) * PAGE_SIZE < size,
        size == 0 ==> pages_for(size) == 0,
{
}

/// A range that spans the loadable segments holds every address that one of
/// them occupies, and each of them lies in the window of the range's size
/// that begins at the range's start.
pub proof fn lemma_range_holds_segments(headers: Seq<ProgramHeader>, range: AddressRange)
    requires
        range.spans(headers),
    ensures
        range.wf(),
        forall|i: int, address: int|
            0 <= i < headers.len() && (#[trigger] headers[i]).loadable()
                && #[trigger] headers[i].occupies(address) ==> range.contains(address),
        forall|i: int|
            0 <= i < headers.len() && (#[trigger] headers[i]).loadable() ==> range.start
                <= headers[i].virtual_address && headers[i].end_address() <= range.start
                + range.size(),
{
    let low = choose|i: int|
        0 <= i < headers.len() && (#[trigger] headers[i]).loadable() && headers[i].virtual_address
            == range.start as int;
    assert(headers[low].end_address() <= range.end);
}

/// A range that spans the loadable segments is the smallest that holds them
/// all: any other range that holds them holds it too.
pub proof fn lemma_range_is_smallest(
    headers: Seq<ProgramHeader>,
    range: AddressRange,
    other: AddressRange,
)
    requires
        range.spans(headers),
        forall|i: int|
            0 <= i < headers.len() && (#[trigger] headers[i]).loadable() ==> other.start
                <= headers[i].virtual_address && headers[i].end_address() <= other.end,
    ensures
        other.start <= range.start,
        range.end <= other.end,
{
    let low = choose|i: int|
        0 <= i < headers.len() && (#[trigger] headers[i]).loadable() && headers[i].virtual_address
            == range.start as int;
    let high = choose|i: int|
        0 <= i < headers.len() && (#[trigger] headers[i]).loadable() && headers[i].end_address()
            == range.end as int;
    assert(other.start <= headers[low].virtual_address);
    assert(headers[high].end_address() <= other.end);
}

/// Where the loadable segments leave no gap between them, the range that
/// spans them is exactly their union: an address lies in the range if and
/// only if a loadable segment occupies it.
pub proof fn lemma_range_is_union(headers: Seq<ProgramHeader>, range: AddressRange)
    requires
        range.spans(headers),
        gapless(headers),
    ensures
        forall|address: int| range.contains(address) <==> #[trigger] occupied(headers, address),
{
    lemma_range_holds_segments(headers, range);
    let low = choose|i: int|
        0 <= i < headers.len() && (#[trigger] headers[i]).loadable() && headers[i].virtual_address
            == range.start as int;
    let high = choose|i: int|
        0 <= i < headers.len() && (#[trigger] headers[i]).loadable() && headers[i].end_address()
            == range.end as int;
    assert forall|address: int| range.contains(address) implies #[trigger] occupied(
        headers,
        address,
    ) by {
        assert(between(headers[low], headers[high], address));
    }
    assert forall|address: int| #[trigger] occupied(headers, address) implies range.contains(
        address,
    ) by {
        let i = choose|i: int|
            0 <= i < headers.len() && (#[trigger] headers[i]).loadable() && headers[i].occupies(
                address,
            );
        assert(headers[i].occupies(address));
    }
}

/// Only one range spans the loadable segments of a table.
pub proof fn lemma_span_unique(headers: Seq<ProgramHeader>, one: AddressRange, other: AddressRange)
    requires
        one.spans(headers),
        other.spans(headers),
    ensures
        one == other,
{
    let a = choose|i: int|
        0 <= i < headers.len() && (#[trigger] headers[i]).loadable() && headers[i].virtual_address
            == one.start as int;
    let b = choose|i: int|
        0 <= i < headers.len() && (#[trigger] headers[i]).loadable() && headers[i].virtual_address
            == other.start as int;
    assert(other.start <= headers[a].virtual_address);
    assert(one.start <= headers[b].virtual_address);
    let c = choose|i: int|
        0 <= i < headers.len() && (#[trigger] headers[i]).loadable() && headers[i].end_address()
            == one.end as int;
    let d = choose|i: int|
        0 <= i < headers.len() && (#[trigger] headers[i]).loadable() && headers[i].end_address()
            == other.end as int;
    assert(headers[c].end_address() <= other.end);
    assert(headers[d].end_address() <= one.end);
}

/// Computes the range of addresses that the loadable segments span.
///
/// Segments of any other type are ignored. A loadable segment of size zero
/// counts with its address. Overlapping segments are not detected.
///
/// Fails with `NoLoadableSegment` if no header is loadable, and with
/// `AddressOverflow` if a loadable segment ends beyond `usize::MAX`.
pub fn address_range(headers: &[ProgramHeader]) -> (result: Result<AddressRange, LoadError>)
    ensures
        !has_loadable(headers@) ==> result == Err::<AddressRange, LoadError>(
            LoadError::NoLoadableSegment,
        ),
        has_loadable(headers@) && !addresses_fit(headers@) ==> result == Err::<
            AddressRange,
            LoadError,
        >(LoadError::AddressOverflow),
        has_loadable(headers@) && addresses_fit(headers@) ==> result is Ok && result->Ok_0.wf()
            && result->Ok_0.spans(headers@),
{
    let mut found = false;
    let mut start: u64 = 0;
    let mut end: u64 = 0;
    let mut i: usize = 0;
    while i < headers.len()
        invariant
            i <= headers@.len(),
            found == has_loadable(headers@.take(i as int)),
            addresses_fit(headers@.take(i as int)),
            found ==> start <= end <= usize::MAX,
            found ==> is_lowest_start(headers@.take(i as int), start as int),
            found ==> is_highest_end(headers@.take(i as int), end as int),
        decreases headers@.len() - i,
    {
        let header = &headers[i];
        let ghost earlier = headers@.take(i as int);
        let ghost now = headers@.take(i + 1);
        assert(now.len() == i + 1 && now[i as int] == *header);
        assert(forall|j: int| 0 <= j < i ==> now[j] == earlier[j]);
        if header.is_loadable() {
            if header.virtual_address > usize::MAX as u64 || header.memory_size > usize::MAX as u64
                - header.virtual_address {
                proof {
                    assert(headers@[i as int].loadable());
                    assert(!addresses_fit(headers@));
                    assert(has_loadable(headers@));
                }
                return Err(LoadError::AddressOverflow);
            }
            let segment_end = header.virtual_address + header.memory_size;
            if !found {
                start = header.virtual_address;
                end = segment_end;
            } else {
                if header.virtual_address < start {
                    start = header.virtual_address;
                }
                if segment_end > end {
                    end = segment_end;
                }
            }
            found = true;
            assert(now[i as int].loadable());
        } else {
            assert(found ==> has_loadable(now)) by {
                if found {
                    let w = choose|j: int| 0 <= j < earlier.len() && (#[trigger] earlier[j]).loadable();
                    assert(now[w].loadable());
                }
            }
        }
        i += 1;
    }
    assert(headers@.take(i as int) =~= headers@);
    if found {
        Ok(AddressRange { start: start as usize, end: end as usize })
    } else {
        Err(LoadError::NoLoadableSegment)
    }
}

/// Plans the reservation for a kernel image: the pages that cover the range
/// its loadable segments span, at exactly the start of that range.
///
/// Fails with `NoLoadableSegment` if no header is loadable, and with
/// `AddressOverflow` if a loadable segment ends beyond `usize::MAX`.
pub fn plan_placement(headers: &[ProgramHeader]) -> (result: Result<PageAllocation, LoadError>)
    ensures
        !has_loadable(headers@) ==> result == Err::<PageAllocation, LoadError>(
            LoadError::NoLoadableSegment,
        ),
        has_loadable(headers@) && !addresses_fit(headers@) ==> result == Err::<
            PageAllocation,
            LoadError,
        >(LoadError::AddressOverflow),
        has_loadable(headers@) && addresses_fit(headers@) ==> {
            &&& result is Ok
            &&& result->Ok_0.wf()
            &&& result->Ok_0.range.wf()
            &&& result->Ok_0.range.spans(headers@)
        },
{
    match address_range(headers) {
        Ok(range) => Ok(range.allocation()),
        Err(error) => Err(error),
    }
}

} // verus!
