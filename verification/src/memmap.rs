//! The text form of the platform memory map.
//!
//! The map is written as one header line followed by one line per memory
//! descriptor: index, raw type code, type name, physical start address,
//! page count and attribute bits, separated by a comma and a space. Each
//! line ends with a newline.

use vstd::prelude::*;
use vstd::string::StringSliceAdditionalSpecFns;

verus! {

/// One region of the platform memory map.
#[derive(Clone, Copy, Debug, PartialEq, Eq, Structural)]
pub struct MemoryDescriptor {
    /// Raw code of the type of memory in the region.
    pub ty: u32,
    /// Physical address of the first byte of the region.
    pub phys_start: u64,
    /// Virtual address of the first byte of the region.
    pub virt_start: u64,
    /// Number of 4 KiB pages in the region.
    pub page_count: u64,
    /// Attribute bits of the region.
    pub att: u64,
}

/// The attribute bits that are written out.
pub const ATTRIBUTE_MASK: u64 = 0xfffff;

/// Least number of characters of a physical start address, `0x` included.
pub const ADDRESS_WIDTH: usize = 8;

/// The ASCII digit for `d < 10`.
pub open spec fn decimal_digit(d: int) -> u8 {
    (0x30 + d) as u8
}

/// The lower-case ASCII hexadecimal digit for `d < 16`.
pub open spec fn hex_digit(d: int) -> u8 {
    if d < 10 {
        (0x30 + d) as u8
    } else {
        (0x61 + d - 10) as u8
    }
}

/// `n` in decimal, without leading zeroes.
pub open spec fn decimal(n: nat) -> Seq<u8>
    decreases n,
{
    if n < 10 {
        seq![decimal_digit(n as int)]
    } else {
        decimal(n / 10).push(decimal_digit((n % 10) as int))
    }
}

/// `n` in lower-case hexadecimal, without prefix or leading zeroes.
pub open spec fn hex(n: nat) -> Seq<u8>
    decreases n,
{
    if n < 16 {
        seq![hex_digit(n as int)]
    } else {
        hex(n / 16).push(hex_digit((n % 16) as int))
    }
}

/// `count` ASCII zeroes; none if `count` is negative.
pub open spec fn zeroes(count: int) -> Seq<u8> {
    Seq::new(
        if count > 0 {
            count as nat
        } else {
            0
        },
        |i: int| 0x30u8,
    )
}

/// `n` in hexadecimal behind `0x`.
pub open spec fn prefixed_hex(n: nat) -> Seq<u8> {
    "0x".spec_bytes() + hex(n)
}

/// `n` in hexadecimal behind `0x`, with zeroes between the two where the
/// whole would otherwise be shorter than `width`.
pub open spec fn padded_hex(n: nat, width: nat) -> Seq<u8> {
    "0x".spec_bytes() + zeroes(width - 2 - hex(n).len()) + hex(n)
}

/// The header line.
pub open spec fn header_line() -> Seq<u8> {
    "Index, Type, Type(name), PhysicalStart, NumberOfPages, Attribute\n".spec_bytes()
}

/// The line for the descriptor at position `index`, whose type is called
/// `name`.
pub open spec fn descriptor_line(index: nat, descriptor: MemoryDescriptor, name: Seq<u8>) -> Seq<
    u8,
> {
    decimal(index) + ", ".spec_bytes() + prefixed_hex(descriptor.ty as nat) + ", ".spec_bytes()
        + name + ", ".spec_bytes() + padded_hex(
        descriptor.phys_start as nat,
        ADDRESS_WIDTH as nat,
    ) + ", ".spec_bytes() + decimal(descriptor.page_count as nat) + ", ".spec_bytes()
        + prefixed_hex((descriptor.att & ATTRIBUTE_MASK) as nat) + "\n".spec_bytes()
}

/// The name under which the `uefi` crate prints the memory type with the
/// given raw code.
pub uninterp spec fn memory_type_name(code: u32) -> Seq<u8>;

/// The lines for `descriptors`, one after the other, numbered from zero.
pub open spec fn descriptor_lines(descriptors: Seq<MemoryDescriptor>) -> Seq<u8>
    decreases descriptors.len(),
{
    if descriptors.len() == 0 {
        Seq::empty()
    } else {
        descriptor_lines(descriptors.drop_last()) + descriptor_line(
            (descriptors.len() - 1) as nat,
            descriptors.last(),
            memory_type_name(descriptors.last().ty),
        )
    }
}

/// The whole text of a memory map: the header line, then the line of each
/// descriptor.
pub open spec fn memory_map_text(descriptors: Seq<MemoryDescriptor>) -> Seq<u8> {
    header_line() + descriptor_lines(descriptors)
}

/// Formats `uefi::boot::MemoryType(code)` with its `Debug` impl and returns
/// the bytes of the text.
///
/// Trusted: the text depends on the code alone, and `memory_type_name`
/// names it.
#[verifier::external_body]
fn name_of_type(code: u32) -> (name: Vec<u8>)
    ensures
        name@ == memory_type_name(code),
{
    format!("{:?}", uefi::boot::MemoryType(code)).into_bytes()
}

/// Appends the bytes of `text`.
fn push_text(out: &mut Vec<u8>, text: &str)
    ensures
        final(out)@ == old(out)@ + text.spec_bytes(),
{
    let bytes = text.as_bytes();
    push_bytes(out, bytes);
}

/// Appends `bytes`.
fn push_bytes(out: &mut Vec<u8>, bytes: &[u8])
    ensures
        final(out)@ == old(out)@ + bytes@,
{
    let ghost before = out@;
    let mut i: usize = 0;
    while i < bytes.len()
        invariant
            i <= bytes@.len(),
            out@ == before + bytes@.take(i as int),
        decreases bytes@.len() - i,
    {
        out.push(bytes[i]);
        assert(bytes@.take(i + 1) =~= bytes@.take(i as int).push(bytes@[i as int]));
        i += 1;
    }
    assert(bytes@.take(i as int) =~= bytes@);
}

/// Appends the digits held in `digits`, last one first.
fn push_reversed(out: &mut Vec<u8>, digits: &Vec<u8>, Ghost(forward): Ghost<Seq<u8>>)
    requires
        forward.len() == digits@.len(),
        forall|i: int| 0 <= i < forward.len() ==> forward[i] == digits@[digits@.len() - 1 - i],
    ensures
        final(out)@ == old(out)@ + forward,
{
    let ghost before = out@;
    let mut left: usize = digits.len();
    while left > 0
        invariant
            left <= digits@.len(),
            forward.len() == digits@.len(),
            forall|i: int| 0 <= i < forward.len() ==> forward[i] == digits@[digits@.len() - 1 - i],
            out@ == before + forward.take(digits@.len() - left),
        decreases left,
    {
        left -= 1;
        out.push(digits[left]);
        assert(forward.take(digits@.len() - left) =~= forward.take(digits@.len() - left - 1).push(
            digits@[left as int],
        ));
    }
    assert(forward.take(digits@.len() as int) =~= forward);
}

/// Appends `n` in decimal.
fn push_decimal(out: &mut Vec<u8>, n: u64)
    ensures
        final(out)@ == old(out)@ + decimal(n as nat),
{
    let ghost before = out@;
    let mut rest: u64 = n;
    let mut digits: Vec<u8> = Vec::new();
    let ghost mut tail: Seq<u8> = Seq::empty();
    while rest >= 10
        invariant
            decimal(n as nat) == decimal(rest as nat) + tail,
            tail.len() == digits@.len(),
            forall|i: int| 0 <= i < tail.len() ==> tail[i] == digits@[digits@.len() - 1 - i],
        decreases rest,
    {
        let digit: u8 = 0x30 + (rest % 10) as u8;
        proof {
            let longer = seq![digit] + tail;
            assert(decimal(rest as nat) == decimal((rest / 10) as nat).push(digit));
            assert(decimal((rest / 10) as nat).push(digit) + tail =~= decimal((rest / 10) as nat)
                + longer);
            tail = longer;
        }
        digits.push(digit);
        rest = rest / 10;
    }
    out.push(0x30 + rest as u8);
    assert(out@ == before + decimal(rest as nat));
    push_reversed(out, &digits, Ghost(tail));
    assert(before + decimal(rest as nat) + tail =~= before + (decimal(rest as nat) + tail));
}

/// The byte of one hexadecimal digit.
fn hex_digit_byte(d: u8) -> (byte: u8)
    requires
        d < 16,
    ensures
        byte == hex_digit(d as int),
{
    if d < 10 {
        0x30 + d
    } else {
        0x61 + (d - 10)
    }
}

/// Appends `n` in hexadecimal, behind as many zeroes as it falls short of
/// `least` digits.
fn push_hex(out: &mut Vec<u8>, n: u64, least: usize)
    ensures
        final(out)@ == old(out)@ + zeroes(least - hex(n as nat).len()) + hex(n as nat),
{
    let ghost before = out@;
    let mut rest: u64 = n;
    let mut digits: Vec<u8> = Vec::new();
    let ghost mut tail: Seq<u8> = Seq::empty();
    while rest >= 16
        invariant
            hex(n as nat) == hex(rest as nat) + tail,
            tail.len() == digits@.len(),
            forall|i: int| 0 <= i < tail.len() ==> tail[i] == digits@[digits@.len() - 1 - i],
        decreases rest,
    {
        let digit: u8 = hex_digit_byte((rest % 16) as u8);
        proof {
            let longer = seq![digit] + tail;
            assert(hex(rest as nat) == hex((rest / 16) as nat).push(digit));
            assert(hex((rest / 16) as nat).push(digit) + tail =~= hex((rest / 16) as nat) + longer);
            tail = longer;
        }
        digits.push(digit);
        rest = rest / 16;
    }
    let ghost width = hex(n as nat).len();
    assert(width == digits@.len() + 1);
    let mut written: usize = digits.len();
    while written < usize::MAX && written + 1 < least
        invariant
            digits@.len() <= written,
            out@ == before + zeroes(written - digits@.len()),
            written + 1 <= least || written == digits@.len(),
        decreases least - written,
    {
        out.push(0x30);
        assert(zeroes(written + 1 - digits@.len()) =~= zeroes(written - digits@.len()).push(0x30u8));
        written += 1;
    }
    assert(zeroes(written - digits@.len()) =~= zeroes(least - width));
    let first: u8 = hex_digit_byte(rest as u8);
    out.push(first);
    assert(out@ == before + zeroes(least - width) + hex(rest as nat));
    push_reversed(out, &digits, Ghost(tail));
    assert(before + zeroes(least - width) + hex(rest as nat) + tail =~= before + zeroes(
        least - width,
    ) + (hex(rest as nat) + tail));
}

/// Appends `n` in hexadecimal behind `0x`, with zeroes between the two
/// where the whole would otherwise be shorter than `width`.
fn push_padded_hex(out: &mut Vec<u8>, n: u64, width: usize)
    ensures
        final(out)@ == old(out)@ + padded_hex(n as nat, width as nat),
{
    let ghost before = out@;
    push_text(out, "0x");
    let least: usize = if width >= 2 {
        width - 2
    } else {
        0
    };
    push_hex(out, n, least);
    assert(zeroes(least - hex(n as nat).len()) =~= zeroes(width - 2 - hex(n as nat).len()));
    assert(out@ =~= before + padded_hex(n as nat, width as nat));
}

/// Appends `n` in hexadecimal behind `0x`.
fn push_prefixed_hex(out: &mut Vec<u8>, n: u64)
    ensures
        final(out)@ == old(out)@ + prefixed_hex(n as nat),
{
    let ghost before = out@;
    push_text(out, "0x");
    push_hex(out, n, 0);
    assert(zeroes(0 - hex(n as nat).len()) =~= Seq::<u8>::empty());
    assert(out@ =~= before + prefixed_hex(n as nat));
}

/// Appends the line of one descriptor.
fn push_descriptor(out: &mut Vec<u8>, index: usize, descriptor: &MemoryDescriptor, name: &[u8])
    ensures
        final(out)@ == old(out)@ + descriptor_line(index as nat, *descriptor, name@),
{
    let ghost before = out@;
    push_decimal(out, index as u64);
    push_text(out, ", ");
    push_prefixed_hex(out, descriptor.ty as u64);
    push_text(out, ", ");
    push_bytes(out, name);
    push_text(out, ", ");
    push_padded_hex(out, descriptor.phys_start, ADDRESS_WIDTH);
    push_text(out, ", ");
    push_decimal(out, descriptor.page_count);
    push_text(out, ", ");
    push_prefixed_hex(out, descriptor.att & ATTRIBUTE_MASK);
    push_text(out, "\n");
    assert(out@ =~= before + descriptor_line(index as nat, *descriptor, name@));
}

/// The header line of the memory map text.
pub fn memory_map_header() -> (line: Vec<u8>)
    ensures
        line@ == header_line(),
{
    let mut line: Vec<u8> = Vec::new();
    push_text(&mut line, "Index, Type, Type(name), PhysicalStart, NumberOfPages, Attribute\n");
    assert(line@ =~= header_line());
    line
}

/// The line for the descriptor at position `index`, given the name of its
/// memory type.
///
/// The fields are the index in decimal, the raw type code in hexadecimal
/// behind `0x`, the type name, the physical start address in hexadecimal
/// behind `0x` and padded with zeroes to eight characters, the page count in
/// decimal, and the low twenty attribute bits in hexadecimal behind `0x`.
pub fn format_descriptor(index: usize, descriptor: &MemoryDescriptor, name: &[u8]) -> (line:
    Vec<u8>)
    ensures
        line@ == descriptor_line(index as nat, *descriptor, name@),
{
    let mut line: Vec<u8> = Vec::new();
    push_descriptor(&mut line, index, descriptor, name);
    assert(line@ =~= descriptor_line(index as nat, *descriptor, name@));
    line
}

/// The line for the descriptor at position `index`, with the type name
/// that the `uefi` crate gives to its memory type.
pub fn memory_map_line(index: usize, descriptor: &MemoryDescriptor) -> (line: Vec<u8>)
    ensures
        line@ == descriptor_line(index as nat, *descriptor, memory_type_name(descriptor.ty)),
{
    let name = name_of_type(descriptor.ty);
    format_descriptor(index, descriptor, name.as_slice())
}

/// The text of the memory map: the header line, then one line for each
/// descriptor in order. For an empty map it is the header line alone.
pub fn save_memory_map(descriptors: &[MemoryDescriptor]) -> (text: Vec<u8>)
    ensures
        text@ == memory_map_text(descriptors@),
        descriptors@.len() == 0 ==> text@ == header_line(),
{
    let mut text = memory_map_header();
    let mut i: usize = 0;
    assert(descriptor_lines(descriptors@.take(0)) =~= Seq::<u8>::empty());
    assert(text@ =~= header_line() + descriptor_lines(descriptors@.take(0)));
    while i < descriptors.len()
        invariant
            i <= descriptors@.len(),
            text@ == header_line() + descriptor_lines(descriptors@.take(i as int)),
        decreases descriptors@.len() - i,
    {
        let name = name_of_type(descriptors[i].ty);
        let ghost before = text@;
        push_descriptor(&mut text, i, &descriptors[i], name.as_slice());
        proof {
            let now = descriptors@.take(i + 1);
            assert(now.drop_last() =~= descriptors@.take(i as int));
            assert(now.last() == descriptors@[i as int]);
            assert(text@ =~= header_line() + descriptor_lines(now));
        }
        i += 1;
    }
    assert(descriptors@.take(i as int) =~= descriptors@);
    proof {
        if descriptors@.len() == 0 {
            assert(text@ =~= header_line());
        }
    }
    text
}

} // verus!
