//! Reading the program header table and the entry address out of an ELF
//! image.
//!
//! The byte layout of ELF files is left to the `goblin` crate. What the
//! loader reads from a parsed image is kept in a type of its own.

use vstd::prelude::*;
use crate::error::LoadError;
use crate::segment::ProgramHeader;

verus! {

/// `goblin::error::Error`, the error type of the ELF parser. Nothing is
/// known of a value of it; it is only carried from the parser to the place
/// where it is turned into a `LoadError`.
#[verifier::external_type_specification]
#[verifier::external_body]
pub struct ExParseError(goblin::error::Error);

/// What the loader needs of a parsed ELF image.
#[derive(Debug, PartialEq, Eq)]
pub struct ParsedImage {
    /// The address at which execution of the loaded image begins.
    pub entry: u64,
    /// The program header table, in file order.
    pub program_headers: Vec<ProgramHeader>,
}

/// A parsed image as a mathematical value.
pub struct ImageView {
    /// The address at which execution of the loaded image begins.
    pub entry: u64,
    /// The program header table, in file order.
    pub program_headers: Seq<ProgramHeader>,
}

impl View for ParsedImage {
    type V = ImageView;

    open spec fn view(&self) -> ImageView {
        ImageView { entry: self.entry, program_headers: self.program_headers@ }
    }
}

/// What the ELF parser makes of `bytes`: the entry address and the program
/// headers it reads from them, or `None` where it rejects them.
pub uninterp spec fn elf_parse(bytes: Seq<u8>) -> Option<ImageView>;

/// Calls `goblin::elf::Elf::parse` and keeps the entry address and, of each
/// program header, its type, virtual address, file offset, file size and
/// memory size.
///
/// Trusted: what the parser returns depends on the bytes alone, and
/// `elf_parse` names it. Nothing is claimed about which bytes the parser
/// accepts, nor about what it reads from them.
#[verifier::external_body]
fn parse_elf(bytes: &[u8]) -> (result: Result<ParsedImage, goblin::error::Error>)
    ensures
        result matches Ok(image) ==> elf_parse(bytes@) == Some(image@),
        result is Err ==> elf_parse(bytes@) is None,
{
    let elf = goblin::elf::Elf::parse(bytes)?;
    let program_headers = elf.program_headers.iter().map(
        |h| ProgramHeader::new(h.p_type, h.p_vaddr, h.p_offset, h.p_filesz, h.p_memsz),
    ).collect();
    Ok(ParsedImage { entry: elf.entry, program_headers })
}

/// Parses a kernel image.
///
/// Returns the entry address and the program headers that the ELF parser
/// reads from `elf_data`, and `NotElf` where the parser rejects the bytes.
pub fn read_image(elf_data: &[u8]) -> (result: Result<ParsedImage, LoadError>)
    ensures
        match result {
            Ok(image) => elf_parse(elf_data@) == Some(image@),
            Err(error) => error == LoadError::NotElf && elf_parse(elf_data@) is None,
        },
{
    match parse_elf(elf_data) {
        Ok(image) => Ok(image),
        Err(_) => Err(LoadError::NotElf),
    }
}

} // verus!
