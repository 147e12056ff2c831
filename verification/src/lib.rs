//! Helpers for inspecting and mutating executable container formats.
//!
//! The crate parses the three common executable containers — PE, ELF and
//! Mach-O (including universal/FAT wrappers) — directly over their raw byte
//! buffers.  Every decoded scalar is wrapped in a [`field::Field`] that
//! remembers its exact byte offset and width, so a caller can rewrite a
//! value in place with bounds and range checking while the rest of the file
//! is preserved bit for bit.
//!
//! Each format module owns the whole file buffer together with its decoded
//! header and table entries; parsing never modifies the buffer, so writing
//! it back unchanged reproduces the original file exactly.

pub mod errors;
pub mod field;
pub mod utils;

pub mod elf;
pub mod macho;
pub mod pe;
