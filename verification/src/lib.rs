//! Kernel-loading stage of a small boot loader.
//!
//! Given the program header table of an ELF kernel image, the library
//! computes the physical address range the kernel occupies, says how many
//! pages must be reserved for it, copies the loadable segments into the
//! reserved memory (zero-filling what the file does not back), and hands out
//! the entry address once everything is in place.

pub mod copier;
pub mod elf;
pub mod error;
pub mod loader;
pub mod memmap;
pub mod planner;
pub mod segment;
