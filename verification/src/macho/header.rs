//! The fixed Mach-O file header.
//!
//! The magic number has already told the caller the byte order and whether
//! the file is 32- or 64-bit; this module decodes the seven fixed header
//! words under that byte order, plus the reserved word that 64-bit files
//! append.

use vstd::prelude::*;

use crate::errors::FileParseError;
use crate::field::Field;
use crate::utils::{read_u32_at, word_at};

verus! {

/// The byte order of a Mach-O file, derived from its magic number.
#[derive(Debug, Clone, Copy, PartialEq, Eq)]
pub enum Endianness {
    Little,
    Big,
}

/// The decoded fixed Mach-O header; every scalar knows its offset and width.
#[derive(Debug)]
pub struct MachHeader {
    pub endianness: Endianness,
    pub magic: Field<u32>,
    pub cpu_type: Field<u32>,
    pub cpu_subtype: Field<u32>,
    pub file_type: Field<u32>,
    pub ncmds: Field<u32>,
    pub sizeofcmds: Field<u32>,
    pub flags: Field<u32>,
    /// Only present in 64-bit Mach-O files, whose header is 32 bytes.
    pub reserved: Option<Field<u32>>,
}

/// Whether `h` is exactly the header that the leading bytes of `b` encode
/// under the byte order selected by `big`.
pub open spec fn mach_header_matches(h: MachHeader, b: Seq<u8>, big: bool) -> bool {
    &&& h.magic.value == word_at(b, 0, 4, big)
    &&& h.magic.offset == 0
    &&& h.magic.size == 4
    &&& h.cpu_type.value == word_at(b, 4, 4, big)
    &&& h.cpu_type.offset == 4
    &&& h.cpu_type.size == 4
    &&& h.cpu_subtype.value == word_at(b, 8, 4, big)
    &&& h.cpu_subtype.offset == 8
    &&& h.cpu_subtype.size == 4
    &&& h.file_type.value == word_at(b, 12, 4, big)
    &&& h.file_type.offset == 12
    &&& h.file_type.size == 4
    &&& h.ncmds.value == word_at(b, 16, 4, big)
    &&& h.ncmds.offset == 16
    &&& h.ncmds.size == 4
    &&& h.sizeofcmds.value == word_at(b, 20, 4, big)
    &&& h.sizeofcmds.offset == 20
    &&& h.sizeofcmds.size == 4
    &&& h.flags.value == word_at(b, 24, 4, big)
    &&& h.flags.offset == 24
    &&& h.flags.size == 4
    &&& (b.len() >= 32 ==> (h.reserved matches Some(f) && f.value == word_at(b, 28, 4, big)
        && f.offset == 28 && f.size == 4))
    &&& (b.len() < 32 ==> h.reserved is None)
}

impl MachHeader {
    /// Decodes the fixed header at the start of `buffer` under `endianness`.
    ///
    /// Fails with `BufferOverflow` when fewer than the 28 mandatory bytes
    /// are present; the reserved word is decoded when the buffer reaches
    /// the 32 bytes of a 64-bit header.
    pub fn parse(buffer: &[u8], endianness: Endianness) -> (r: Result<MachHeader, FileParseError>)
        ensures
            buffer@.len() < 28 ==> (r matches Err(e) && e is BufferOverflow),
            buffer@.len() >= 28 ==> (r matches Ok(h) && h.endianness == endianness
                && mach_header_matches(h, buffer@, endianness is Big)),
    {
        if buffer.len() < 28 {
            return Err(FileParseError::BufferOverflow);
        }
        let big = matches!(endianness, Endianness::Big);

        let magic = Field::new(read_u32_at(buffer, 0, big), 0, 4);
        let cpu_type = Field::new(read_u32_at(buffer, 4, big), 4, 4);
        let cpu_subtype = Field::new(read_u32_at(buffer, 8, big), 8, 4);
        let file_type = Field::new(read_u32_at(buffer, 12, big), 12, 4);
        let ncmds = Field::new(read_u32_at(buffer, 16, big), 16, 4);
        let sizeofcmds = Field::new(read_u32_at(buffer, 20, big), 20, 4);
        let flags = Field::new(read_u32_at(buffer, 24, big), 24, 4);

        let reserved: Option<Field<u32>> = if buffer.len() >= 32 {
            Some(Field::new(read_u32_at(buffer, 28, big), 28, 4))
        } else {
            None
        };

        Ok(MachHeader {
            endianness,
            magic,
            cpu_type,
            cpu_subtype,
            file_type,
            ncmds,
            sizeofcmds,
            flags,
            reserved,
        })
    }
}

} // verus!
