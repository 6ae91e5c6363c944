//! Copying loadable segments into the memory reserved for them.
//!
//! Memory is modelled as a window of bytes whose first byte sits at the
//! physical address `base`. A loadable segment is written at its virtual
//! address: first the bytes the image holds for it, then zeroes up to its
//! size in memory.

use vstd::prelude::*;
use crate::error::LoadError;
use crate::segment::ProgramHeader;

verus! {

/// The bytes a segment occupies once loaded: its `file_size` bytes from the
/// image, followed by zeroes up to `memory_size`.
pub open spec fn segment_image(header: ProgramHeader, source: Seq<u8>) -> Seq<u8> {
    Seq::new(
        header.memory_size as nat,
        |k: int|
            if k < header.file_size {
                source[header.file_offset + k]
            } else {
                0u8
            },
    )
}

/// The byte a segment puts at `address` when it is loaded.
pub open spec fn segment_byte(header: ProgramHeader, source: Seq<u8>, address: int) -> u8 {
    segment_image(header, source)[address - header.virtual_address]
}

/// What is wrong with a segment that is to be copied from an image of
/// `source_len` bytes into a window of `window_len` bytes at `base`; `None`
/// if it can be copied.
pub open spec fn segment_fault(
    header: ProgramHeader,
    source_len: int,
    base: int,
    window_len: int,
) -> Option<LoadError> {
    if header.file_offset + header.file_size > source_len {
        Some(LoadError::FileRangeOutOfBounds)
    } else if header.file_size > header.memory_size {
        Some(LoadError::FileLargerThanMemory)
    } else if header.virtual_address < base || header.end_address() > base + window_len {
        Some(LoadError::OutsideReservation)
    } else {
        None
    }
}

/// Every loadable segment can be copied.
pub open spec fn segments_sound(
    headers: Seq<ProgramHeader>,
    source_len: int,
    base: int,
    window_len: int,
) -> bool {
    forall|i: int|
        0 <= i < headers.len() && (#[trigger] headers[i]).loadable() ==> segment_fault(
            headers[i],
            source_len,
            base,
            window_len,
        ) is None
}

/// `error` is what is wrong with the first loadable segment that cannot be
/// copied.
pub open spec fn first_fault_is(
    headers: Seq<ProgramHeader>,
    source_len: int,
    base: int,
    window_len: int,
    error: LoadError,
) -> bool {
    exists|i: int|
        0 <= i < headers.len() && (#[trigger] headers[i]).loadable() && segment_fault(
            headers[i],
            source_len,
            base,
            window_len,
        ) == Some(error) && segments_sound(headers.take(i), source_len, base, window_len)
}

/// `memory` with `bytes` written over it from index `at` on.
pub open spec fn place(memory: Seq<u8>, at: int, bytes: Seq<u8>) -> Seq<u8> {
    Seq::new(
        memory.len(),
        |a: int|
            if at <= a < at + bytes.len() {
                bytes[a - at]
            } else {
                memory[a]
            },
    )
}

/// The window after the loadable segments among `headers` have been written
/// into it one after the other, in table order.
pub open spec fn loaded_memory(
    headers: Seq<ProgramHeader>,
    source: Seq<u8>,
    base: int,
    memory: Seq<u8>,
) -> Seq<u8>
    decreases headers.len(),
{
    if headers.len() == 0 {
        memory
    } else {
        let earlier = loaded_memory(headers.drop_last(), source, base, memory);
        let header = headers.last();
        if header.loadable() {
            place(earlier, header.virtual_address - base, segment_image(header, source))
        } else {
            earlier
        }
    }
}

/// The segment is in the window as the image declares it: its first
/// `file_size` bytes are those of the image, the rest up to `memory_size` is
/// zero.
pub open spec fn segment_present(
    header: ProgramHeader,
    source: Seq<u8>,
    base: int,
    memory: Seq<u8>,
) -> bool {
    &&& forall|k: int|
        0 <= k < header.file_size ==> #[trigger] memory[header.virtual_address - base + k]
            == source[header.file_offset + k]
    &&& forall|k: int|
        header.file_size <= k < header.memory_size ==> #[trigger] memory[header.virtual_address
            - base + k] == 0
}

/// Two segments put the same byte at every address that both occupy.
pub open spec fn agree(a: ProgramHeader, b: ProgramHeader, source: Seq<u8>) -> bool {
    forall|address: int|
        #[trigger] a.occupies(address) && b.occupies(address) ==> segment_byte(a, source, address)
            == segment_byte(b, source, address)
}

/// Any two loadable segments agree wherever they overlap.
pub open spec fn segments_consistent(headers: Seq<ProgramHeader>, source: Seq<u8>) -> bool {
    forall|i: int, j: int|
        0 <= i < j < headers.len() && (#[trigger] headers[i]).loadable()
            && (#[trigger] headers[j]).loadable() ==> agree(headers[i], headers[j], source)
}

/// No two loadable segments share an address.
pub open spec fn segments_disjoint(headers: Seq<ProgramHeader>) -> bool {
    forall|i: int, j: int|
        0 <= i < j < headers.len() && (#[trigger] headers[i]).loadable()
            && (#[trigger] headers[j]).loadable() ==> headers[i].end_address()
            <= headers[j].virtual_address || headers[j].end_address() <= headers[i].virtual_address
}

/// Every loadable segment is in the window as the image declares it.
pub open spec fn segments_present(
    headers: Seq<ProgramHeader>,
    source: Seq<u8>,
    base: int,
    memory: Seq<u8>,
) -> bool {
    forall|i: int|
        0 <= i < headers.len() && (#[trigger] headers[i]).loadable() ==> segment_present(
            headers[i],
            source,
            base,
            memory,
        )
}

/// The byte found at `address` after loading, where `before` was there
/// first: that of the last loadable segment in the table that occupies the
/// address, and `before` if there is none.
pub open spec fn byte_after_load(
    headers: Seq<ProgramHeader>,
    source: Seq<u8>,
    before: u8,
    address: int,
) -> u8
    decreases headers.len(),
{
    if headers.len() == 0 {
        before
    } else if headers.last().loadable() && headers.last().occupies(address) {
        segment_byte(headers.last(), source, address)
    } else {
        byte_after_load(headers.drop_last(), source, before, address)
    }
}

/// Loading neither grows nor shrinks the window, and the byte at each of
/// its addresses is the one `byte_after_load` describes.
pub proof fn lemma_loaded_memory_bytes(
    headers: Seq<ProgramHeader>,
    source: Seq<u8>,
    base: int,
    memory: Seq<u8>,
)
    ensures
        loaded_memory(headers, source, base, memory).len() == memory.len(),
        forall|a: int|
            0 <= a < memory.len() ==> #[trigger] loaded_memory(headers, source, base, memory)[a]
                == byte_after_load(headers, source, memory[a], base + a),
    decreases headers.len(),
{
    if headers.len() > 0 {
        lemma_loaded_memory_bytes(headers.drop_last(), source, base, memory);
    }
}

/// What is at an address after loading either does not depend on what was
/// there before (a loadable segment occupies the address) or is what was
/// there before (none does).
proof fn lemma_byte_after_load_either(
    headers: Seq<ProgramHeader>,
    source: Seq<u8>,
    one: u8,
    other: u8,
    address: int,
)
    ensures
        byte_after_load(headers, source, one, address) == byte_after_load(
            headers,
            source,
            other,
            address,
        ) || (byte_after_load(headers, source, one, address) == one && byte_after_load(
            headers,
            source,
            other,
            address,
        ) == other),
    decreases headers.len(),
{
    if headers.len() > 0 {
        lemma_byte_after_load_either(headers.drop_last(), source, one, other, address);
    }
}

/// If the loadable segment at index `i` occupies `address`, the byte there
/// after loading is that of the segment at `i` or of a later loadable
/// segment which occupies the address too.
proof fn lemma_byte_after_load_from(
    headers: Seq<ProgramHeader>,
    i: int,
    source: Seq<u8>,
    before: u8,
    address: int,
)
    requires
        0 <= i < headers.len(),
        headers[i].loadable(),
        headers[i].occupies(address),
    ensures
        exists|j: int|
            i <= j < headers.len() && (#[trigger] headers[j]).loadable() && headers[j].occupies(
                address,
            ) && byte_after_load(headers, source, before, address) == segment_byte(
                headers[j],
                source,
                address,
            ),
    decreases headers.len(),
{
    if headers.last().loadable() && headers.last().occupies(address) {
        assert(headers[headers.len() - 1] == headers.last());
    } else {
        let shorter = headers.drop_last();
        assert(shorter[i] == headers[i]);
        lemma_byte_after_load_from(shorter, i, source, before, address);
        let j = choose|j: int|
            i <= j < shorter.len() && (#[trigger] shorter[j]).loadable() && shorter[j].occupies(
                address,
            ) && byte_after_load(shorter, source, before, address) == segment_byte(
                shorter[j],
                source,
                address,
            );
        assert(headers[j] == shorter[j]);
    }
}

/// Copying twice gives what copying once gives: a second copy over an
/// already loaded window rewrites the same bytes.
pub proof fn lemma_copy_twice(
    headers: Seq<ProgramHeader>,
    source: Seq<u8>,
    base: int,
    memory: Seq<u8>,
)
    ensures
        loaded_memory(headers, source, base, loaded_memory(headers, source, base, memory))
            == loaded_memory(headers, source, base, memory),
{
    let once = loaded_memory(headers, source, base, memory);
    let twice = loaded_memory(headers, source, base, once);
    lemma_loaded_memory_bytes(headers, source, base, memory);
    lemma_loaded_memory_bytes(headers, source, base, once);
    assert forall|a: int| 0 <= a < once.len() implies twice[a] == once[a] by {
        let first = byte_after_load(headers, source, memory[a], base + a);
        lemma_byte_after_load_either(headers, source, first, memory[a], base + a);
    }
    assert(twice =~= once);
}

/// After copying, every loadable segment is in the window as the image
/// declares it (its file bytes first, then zeroes) exactly if the loadable
/// segments agree wherever they overlap. Where two of them put different
/// bytes at one address, the later one in the table wins and the earlier one
/// is not intact.
pub proof fn lemma_segments_present(
    headers: Seq<ProgramHeader>,
    source: Seq<u8>,
    base: int,
    memory: Seq<u8>,
)
    requires
        segments_sound(headers, source.len() as int, base, memory.len() as int),
    ensures
        segments_consistent(headers, source) <==> segments_present(
            headers,
            source,
            base,
            loaded_memory(headers, source, base, memory),
        ),
{
    let loaded = loaded_memory(headers, source, base, memory);
    lemma_loaded_memory_bytes(headers, source, base, memory);
    if segments_consistent(headers, source) {
        assert forall|i: int| 0 <= i < headers.len() && (#[trigger] headers[i]).loadable() implies segment_present(
            headers[i],
            source,
            base,
            loaded,
        ) by {
            let h = headers[i];
            assert forall|k: int| 0 <= k < h.memory_size implies loaded[h.virtual_address - base
                + k] == #[trigger] segment_image(h, source)[k] by {
                let address = h.virtual_address + k;
                let a = h.virtual_address - base + k;
                assert(h.occupies(address));
                lemma_byte_after_load_from(headers, i, source, memory[a], address);
                let j = choose|j: int|
                    i <= j < headers.len() && (#[trigger] headers[j]).loadable()
                        && headers[j].occupies(address) && byte_after_load(
                        headers,
                        source,
                        memory[a],
                        address,
                    ) == segment_byte(headers[j], source, address);
                if i < j {
                    assert(agree(headers[i], headers[j], source));
                }
                assert(loaded[a] == byte_after_load(headers, source, memory[a], base + a));
            }
            assert forall|k: int| 0 <= k < h.file_size implies #[trigger] loaded[h.virtual_address
                - base + k] == source[h.file_offset + k] by {
                assert(loaded[h.virtual_address - base + k] == segment_image(h, source)[k]);
            }
            assert forall|k: int| h.file_size <= k < h.memory_size implies #[trigger] loaded[h.virtual_address
                - base + k] == 0 by {
                assert(loaded[h.virtual_address - base + k] == segment_image(h, source)[k]);
            }
        }
    }
    if segments_present(headers, source, base, loaded) {
        assert forall|i: int, j: int|
            0 <= i < j < headers.len() && (#[trigger] headers[i]).loadable()
                && (#[trigger] headers[j]).loadable() implies agree(
            headers[i],
            headers[j],
            source,
        ) by {
            let x = headers[i];
            let y = headers[j];
            assert(segment_present(x, source, base, loaded));
            assert(segment_present(y, source, base, loaded));
            assert forall|address: int| #[trigger]
                x.occupies(address) && y.occupies(address) implies segment_byte(x, source, address)
                == segment_byte(y, source, address) by {
                let kx = address - x.virtual_address;
                let ky = address - y.virtual_address;
                assert(loaded[x.virtual_address - base + kx] == segment_image(x, source)[kx]);
                assert(loaded[y.virtual_address - base + ky] == segment_image(y, source)[ky]);
            }
        }
    }
}

/// Loadable segments that share no address agree wherever they overlap, so
/// after copying each of them is in the window as the image declares it.
pub proof fn lemma_disjoint_segments_present(
    headers: Seq<ProgramHeader>,
    source: Seq<u8>,
    base: int,
    memory: Seq<u8>,
)
    requires
        segments_sound(headers, source.len() as int, base, memory.len() as int),
        segments_disjoint(headers),
    ensures
        segments_consistent(headers, source),
        segments_present(headers, source, base, loaded_memory(headers, source, base, memory)),
{
    assert forall|i: int, j: int|
        0 <= i < j < headers.len() && (#[trigger] headers[i]).loadable()
            && (#[trigger] headers[j]).loadable() implies agree(headers[i], headers[j], source) by {
        assert forall|address: int| #[trigger]
            headers[i].occupies(address) && headers[j].occupies(address) implies segment_byte(
            headers[i],
            source,
            address,
        ) == segment_byte(headers[j], source, address) by {}
    }
    lemma_segments_present(headers, source, base, memory);
}

/// At most one error is the fault of the first loadable segment that cannot
/// be copied, and there is one exactly if some loadable segment cannot be
/// copied.
pub proof fn lemma_first_fault_unique(
    headers: Seq<ProgramHeader>,
    source_len: int,
    base: int,
    window_len: int,
    first: LoadError,
    second: LoadError,
)
    requires
        first_fault_is(headers, source_len, base, window_len, first),
        first_fault_is(headers, source_len, base, window_len, second),
    ensures
        first == second,
        !segments_sound(headers, source_len, base, window_len),
{
    let i = choose|i: int|
        0 <= i < headers.len() && (#[trigger] headers[i]).loadable() && segment_fault(
            headers[i],
            source_len,
            base,
            window_len,
        ) == Some(first) && segments_sound(headers.take(i), source_len, base, window_len);
    let j = choose|j: int|
        0 <= j < headers.len() && (#[trigger] headers[j]).loadable() && segment_fault(
            headers[j],
            source_len,
            base,
            window_len,
        ) == Some(second) && segments_sound(headers.take(j), source_len, base, window_len);
    if i < j {
        assert(headers.take(j)[i] == headers[i]);
    }
    if j < i {
        assert(headers.take(i)[j] == headers[j]);
    }
}

/// Whether a single segment can be copied, and if not, why.
fn check_segment(header: &ProgramHeader, source_len: usize, base: usize, window_len: usize) -> (fault:
    Option<LoadError>)
    ensures
        fault == segment_fault(*header, source_len as int, base as int, window_len as int),
{
    if header.file_offset > source_len as u64 || header.file_size > source_len as u64
        - header.file_offset {
        Some(LoadError::FileRangeOutOfBounds)
    } else if header.file_size > header.memory_size {
        Some(LoadError::FileLargerThanMemory)
    } else if header.virtual_address < base as u64 || header.virtual_address - base as u64
        > window_len as u64 || header.memory_size > window_len as u64 - (header.virtual_address
        - base as u64) {
        Some(LoadError::OutsideReservation)
    } else {
        None
    }
}

/// Writes one segment that is known to fit.
fn write_segment(header: &ProgramHeader, source: &[u8], base: usize, memory: &mut [u8])
    requires
        segment_fault(*header, source@.len() as int, base as int, old(memory)@.len() as int)
            is None,
    ensures
        final(memory)@ == place(
            old(memory)@,
            header.virtual_address - base,
            segment_image(*header, source@),
        ),
{
    let ghost before = memory@;
    let ghost image = segment_image(*header, source@);
    let source_len = source.len();
    let window_len = memory.len();
    let at: usize = (header.virtual_address - base as u64) as usize;
    let offset: usize = header.file_offset as usize;
    let file_size: usize = header.file_size as usize;
    let memory_size: usize = header.memory_size as usize;
    let mut k: usize = 0;
    while k < file_size
        invariant
            k <= file_size <= memory_size,
            memory@.len() == before.len() == window_len,
            at + memory_size <= window_len,
            offset + file_size <= source_len == source@.len(),
            offset == header.file_offset,
            file_size == header.file_size,
            memory_size == header.memory_size,
            image == segment_image(*header, source@),
            forall|a: int|
                0 <= a < memory@.len() ==> memory@[a] == if at <= a < at + k {
                    image[a - at]
                } else {
                    before[a]
                },
        decreases file_size - k,
    {
        memory[at + k] = source[offset + k];
        k += 1;
    }
    while k < memory_size
        invariant
            file_size <= k <= memory_size,
            memory@.len() == before.len() == window_len,
            at + memory_size <= window_len,
            file_size == header.file_size,
            memory_size == header.memory_size,
            image == segment_image(*header, source@),
            forall|a: int|
                0 <= a < memory@.len() ==> memory@[a] == if at <= a < at + k {
                    image[a - at]
                } else {
                    before[a]
                },
        decreases memory_size - k,
    {
        memory[at + k] = 0;
        k += 1;
    }
    assert(memory@ =~= place(before, at as int, image));
}

/// Copies one segment into the window that begins at address `base`.
///
/// The segment is checked first. If its file bytes reach beyond the image,
/// if it holds more bytes in the file than in memory, or if it does not lie
/// inside the window, nothing is written and the fault is returned.
/// Otherwise its file bytes are written at its virtual address and the rest
/// of its memory is set to zero; no other byte of the window changes.
pub fn copy_segment(header: &ProgramHeader, source: &[u8], base: usize, memory: &mut [u8]) -> (result:
    Result<(), LoadError>)
    ensures
        match segment_fault(*header, source@.len() as int, base as int, old(memory)@.len() as int) {
            Some(error) => result == Err::<(), LoadError>(error) && final(memory)@ == old(memory)@,
            None => {
                &&& result is Ok
                &&& final(memory)@ == place(
                    old(memory)@,
                    header.virtual_address - base,
                    segment_image(*header, source@),
                )
                &&& segment_present(*header, source@, base as int, final(memory)@)
            },
        },
{
    match check_segment(header, source.len(), base, memory.len()) {
        Some(error) => Err(error),
        None => {
            write_segment(header, source, base, memory);
            Ok(())
        },
    }
}

/// Copies every loadable segment into the window that begins at address
/// `base`, in table order; segments of any other type are passed over.
///
/// All loadable segments are checked before anything is written. If one
/// cannot be copied, the window is left as it was and the fault of the first
/// such segment is returned: there is no partial load.
pub fn copy_segments(headers: &[ProgramHeader], source: &[u8], base: usize, memory: &mut [u8]) -> (result:
    Result<(), LoadError>)
    ensures
        match result {
            Ok(()) => {
                &&& segments_sound(
                    headers@,
                    source@.len() as int,
                    base as int,
                    old(memory)@.len() as int,
                )
                &&& final(memory)@ == loaded_memory(headers@, source@, base as int, old(memory)@)
            },
            Err(error) => {
                &&& first_fault_is(
                    headers@,
                    source@.len() as int,
                    base as int,
                    old(memory)@.len() as int,
                    error,
                )
                &&& final(memory)@ == old(memory)@
            },
        },
{
    let ghost before = memory@;
    let mut i: usize = 0;
    while i < headers.len()
        invariant
            i <= headers@.len(),
            memory@ == before,
            segments_sound(headers@.take(i as int), source@.len() as int, base as int, before.len() as int),
        decreases headers@.len() - i,
    {
        if headers[i].is_loadable() {
            match check_segment(&headers[i], source.len(), base, memory.len()) {
                Some(error) => {
                    return Err(error);
                },
                None => {},
            }
        }
        i += 1;
    }
    assert(headers@.take(i as int) =~= headers@);
    let mut i: usize = 0;
    while i < headers.len()
        invariant
            i <= headers@.len(),
            memory@.len() == before.len(),
            segments_sound(headers@, source@.len() as int, base as int, before.len() as int),
            memory@ == loaded_memory(headers@.take(i as int), source@, base as int, before),
        decreases headers@.len() - i,
    {
        assert(headers@.take(i + 1).drop_last() =~= headers@.take(i as int));
        if headers[i].is_loadable() {
            write_segment(&headers[i], source, base, memory);
        }
        i += 1;
    }
    assert(headers@.take(i as int) =~= headers@);
    Ok(())
}

} // verus!
