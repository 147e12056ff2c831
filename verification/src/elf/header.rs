//! The fixed 64-byte ELF file header.
//!
//! The header starts with the identification bytes, whose fifth byte picks
//! the byte order for every other integer in the file.  All remaining
//! header fields are read under that byte order and wrapped in
//! [`Field`](crate::field::Field) values that remember where they came
//! from.

use vstd::prelude::*;
use vstd::slice::{slice_subrange, slice_to_vec};

use crate::errors::FileParseError;
use crate::field::Field;
use crate::utils::{read_u16_at, read_u32_at, read_u64_at, word_at};

verus! {

/// The kind of object an ELF file contains, from its `e_type` field.
#[derive(Debug, PartialEq, Eq, Structural)]
pub enum ElfType {
    NoneType,
    Relocatable,
    Executable,
    SharedObject,
    Core,
    Other(u16),
}

/// The [`ElfType`] that the raw `e_type` value denotes.
pub open spec fn elf_type_of(value: u16) -> ElfType {
    if value == 0 {
        ElfType::NoneType
    } else if value == 1 {
        ElfType::Relocatable
    } else if value == 2 {
        ElfType::Executable
    } else if value == 3 {
        ElfType::SharedObject
    } else if value == 4 {
        ElfType::Core
    } else {
        ElfType::Other(value)
    }
}

impl From<u16> for ElfType {
    fn from(value: u16) -> (r: Self) {
        match value {
            0 => Self::NoneType,
            1 => Self::Relocatable,
            2 => Self::Executable,
            3 => Self::SharedObject,
            4 => Self::Core,
            _ => Self::Other(value),
        }
    }
}

impl vstd::std_specs::convert::FromSpecImpl<u16> for ElfType {
    open spec fn obeys_from_spec() -> bool {
        true
    }

    open spec fn from_spec(value: u16) -> Self {
        elf_type_of(value)
    }
}

/// The byte order of an ELF file, from byte five of `e_ident`.
#[derive(Debug, Clone, Copy)]
pub enum Endianness {
    Little,
    Big,
}

/// Whether the identification bytes carry a valid ELF magic number.
pub open spec fn elf_magic_ok(b: Seq<u8>) -> bool {
    &&& b.len() >= 6
    &&& b[0] == 0x7f
    &&& b[1] == 0x45
    &&& b[2] == 0x4c
    &&& b[3] == 0x46
}

/// Whether the endianness byte holds one of its two defined values.
pub open spec fn elf_endian_ok(b: Seq<u8>) -> bool {
    b[5] == 1 || b[5] == 2
}

/// Whether the file declares big-endian byte order.
pub open spec fn elf_is_big(b: Seq<u8>) -> bool {
    b[5] == 2
}

/// The decoded fixed ELF header; every scalar knows its offset and width.
#[derive(Debug)]
pub struct ElfHeader {
    pub ident: Vec<u8>,
    pub endianness: Endianness,
    pub elf_type: Field<ElfType>,
    pub machine: Field<u16>,
    pub version: Field<u32>,
    pub entry: Field<u64>,
    pub ph_off: Field<u64>,
    pub sh_off: Field<u64>,
    pub flags: Field<u32>,
    pub eh_size: Field<u16>,
    pub ph_ent_size: Field<u16>,
    pub ph_num: Field<u16>,
    pub sh_ent_size: Field<u16>,
    pub sh_num: Field<u16>,
    pub sh_strndx: Field<u16>,
}

/// Whether `h` is exactly the header that the first 64 bytes of `b` encode.
pub open spec fn elf_header_matches(h: ElfHeader, b: Seq<u8>) -> bool {
    let big = elf_is_big(b);
    &&& h.ident@ == b.subrange(0, 16)
    &&& (h.endianness is Big <==> big)
    &&& h.elf_type.value == elf_type_of(word_at(b, 16, 2, big) as u16)
    &&& h.elf_type.offset == 16
    &&& h.elf_type.size == 2
    &&& h.machine.value == word_at(b, 18, 2, big)
    &&& h.machine.offset == 18
    &&& h.machine.size == 2
    &&& h.version.value == word_at(b, 20, 4, big)
    &&& h.version.offset == 20
    &&& h.version.size == 4
    &&& h.entry.value == word_at(b, 24, 8, big)
    &&& h.entry.offset == 24
    &&& h.entry.size == 8
    &&& h.ph_off.value == word_at(b, 32, 8, big)
    &&& h.ph_off.offset == 32
    &&& h.ph_off.size == 8
    &&& h.sh_off.value == word_at(b, 40, 8, big)
    &&& h.sh_off.offset == 40
    &&& h.sh_off.size == 8
    &&& h.flags.value == word_at(b, 48, 4, big)
    &&& h.flags.offset == 48
    &&& h.flags.size == 4
    &&& h.eh_size.value == word_at(b, 52, 2, big)
    &&& h.eh_size.offset == 52
    &&& h.eh_size.size == 2
    &&& h.ph_ent_size.value == word_at(b, 54, 2, big)
    &&& h.ph_ent_size.offset == 54
    &&& h.ph_ent_size.size == 2
    &&& h.ph_num.value == word_at(b, 56, 2, big)
    &&& h.ph_num.offset == 56
    &&& h.ph_num.size == 2
    &&& h.sh_ent_size.value == word_at(b, 58, 2, big)
    &&& h.sh_ent_size.offset == 58
    &&& h.sh_ent_size.size == 2
    &&& h.sh_num.value == word_at(b, 60, 2, big)
    &&& h.sh_num.offset == 60
    &&& h.sh_num.size == 2
    &&& h.sh_strndx.value == word_at(b, 62, 2, big)
    &&& h.sh_strndx.offset == 62
    &&& h.sh_strndx.size == 2
}

impl ElfHeader {
    /// Decodes the fixed 64-byte header at the start of `buffer`.
    ///
    /// Fails with `BufferOverflow` when fewer than 64 bytes are present,
    /// and with `InvalidFileFormat` when the magic bytes or the endianness
    /// byte are wrong; otherwise returns exactly the decoded header.
    pub fn parse(buffer: &[u8]) -> (r: Result<ElfHeader, FileParseError>)
        ensures
            buffer@.len() < 64 ==> (r matches Err(e) && e is BufferOverflow),
            buffer@.len() >= 64 && !elf_magic_ok(buffer@) ==> (r matches Err(e)
                && e is InvalidFileFormat),
            buffer@.len() >= 64 && elf_magic_ok(buffer@) && !elf_endian_ok(buffer@) ==> (r matches
                Err(e) && e is InvalidFileFormat),
            buffer@.len() >= 64 && elf_magic_ok(buffer@) && elf_endian_ok(buffer@) ==> (r matches
                Ok(h) && elf_header_matches(h, buffer@)),
    {
        if buffer.len() < 64 {
            return Err(FileParseError::BufferOverflow);
        }
        if !(buffer[0] == 0x7f && buffer[1] == 0x45 && buffer[2] == 0x4c && buffer[3] == 0x46) {
            return Err(FileParseError::InvalidFileFormat);
        }
        let ident: Vec<u8> = slice_to_vec(slice_subrange(buffer, 0, 16));
        let e5 = buffer[5];
        if e5 != 1 && e5 != 2 {
            return Err(FileParseError::InvalidFileFormat);
        }
        let big = e5 == 2;
        let endianness = if big {
            Endianness::Big
        } else {
            Endianness::Little
        };

        let elf_type: Field<ElfType> = Field::new(ElfType::from(read_u16_at(buffer, 16, big)), 16, 2);
        let machine: Field<u16> = Field::new(read_u16_at(buffer, 18, big), 18, 2);
        let version: Field<u32> = Field::new(read_u32_at(buffer, 20, big), 20, 4);
        let entry: Field<u64> = Field::new(read_u64_at(buffer, 24, big), 24, 8);
        let ph_off: Field<u64> = Field::new(read_u64_at(buffer, 32, big), 32, 8);
        let sh_off: Field<u64> = Field::new(read_u64_at(buffer, 40, big), 40, 8);
        let flags: Field<u32> = Field::new(read_u32_at(buffer, 48, big), 48, 4);
        let eh_size: Field<u16> = Field::new(read_u16_at(buffer, 52, big), 52, 2);
        let ph_ent_size: Field<u16> = Field::new(read_u16_at(buffer, 54, big), 54, 2);
        let ph_num: Field<u16> = Field::new(read_u16_at(buffer, 56, big), 56, 2);
        let sh_ent_size: Field<u16> = Field::new(read_u16_at(buffer, 58, big), 58, 2);
        let sh_num: Field<u16> = Field::new(read_u16_at(buffer, 60, big), 60, 2);
        let sh_strndx: Field<u16> = Field::new(read_u16_at(buffer, 62, big), 62, 2);

        Ok(ElfHeader {
            ident,
            endianness,
            elf_type,
            machine,
            version,
            entry,
            ph_off,
            sh_off,
            flags,
            eh_size,
            ph_ent_size,
            ph_num,
            sh_ent_size,
            sh_num,
            sh_strndx,
        })
    }
}

} // verus!
