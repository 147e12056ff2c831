//! The PE file header and optional header.
//!
//! PE files are little-endian by definition.  The file header sits at the
//! offset that the `e_lfanew` pointer at 0x3C names; the optional header
//! follows it and its magic distinguishes 32-bit (PE32) from 64-bit
//! (PE32+) images, which store their preferred image base with different
//! widths at different offsets.

use vstd::prelude::*;
use vstd::string::StringExecFns;

use crate::field::Field;
use crate::utils::word_at;

verus! {

/// Whether the image is 32-bit (PE32) or 64-bit (PE32+).
#[derive(PartialEq, Eq, Debug)]
pub enum PEType {
    PE32,
    PE32Plus,
}

/// The preferred load address, 32 bits wide for PE32 and 64 for PE32+.
#[derive(Debug)]
pub enum ImageBase {
    Base32(u32),
    Base64(u64),
}

/// The target machine, from the file header's machine word.
#[derive(Debug)]
pub enum Architecture {
    X86,
    X64,
    Unknown,
}

/// The [`Architecture`] that the raw machine word denotes.
pub open spec fn arch_of(value: u16) -> Architecture {
    if value == 0x014c {
        Architecture::X86
    } else if value == 0x8664 {
        Architecture::X64
    } else {
        Architecture::Unknown
    }
}

/// The display name of an architecture.
pub open spec fn arch_name(a: Architecture) -> Seq<char> {
    match a {
        Architecture::X86 => "x86"@,
        Architecture::X64 => "x64"@,
        Architecture::Unknown => "Unknown"@,
    }
}

impl Architecture {
    /// Classifies the file header's raw machine word.
    pub fn from_u16(value: u16) -> (r: Self)
        ensures
            r == arch_of(value),
    {
        match value {
            0x014c => Architecture::X86,
            0x8664 => Architecture::X64,
            _ => Architecture::Unknown,
        }
    }

    /// The architecture's display name.
    pub fn to_string(&self) -> (r: String)
        ensures
            r@ == arch_name(*self),
    {
        match *self {
            Architecture::X86 => String::from_str("x86"),
            Architecture::X64 => String::from_str("x64"),
            Architecture::Unknown => String::from_str("Unknown"),
        }
    }
}

/// The offset of the PE file header, read from the `e_lfanew` pointer.
pub open spec fn pe_off(b: Seq<u8>) -> int {
    word_at(b, 0x3C, 4, false)
}

/// The offset of the optional header, 24 bytes past the PE signature.
pub open spec fn opt_off(b: Seq<u8>) -> int {
    pe_off(b) + 24
}

/// Whether the buffer is long enough for the DOS header and starts with
/// the `MZ` signature.
pub open spec fn pe_magic_ok(b: Seq<u8>) -> bool {
    b.len() >= 64 && b[0] == 0x4D && b[1] == 0x5A
}

/// The optional header's magic word.
pub open spec fn opt_magic(b: Seq<u8>) -> int {
    word_at(b, opt_off(b), 2, false)
}

/// Whether the optional-header magic names PE32 or PE32+.
pub open spec fn pe_opt_magic_ok(b: Seq<u8>) -> bool {
    opt_magic(b) == 0x10B || opt_magic(b) == 0x20B
}

/// Whether the image is PE32+.
pub open spec fn pe_is_plus(b: Seq<u8>) -> bool {
    opt_magic(b) == 0x20B
}

/// The decoded PE header fields; every scalar knows its offset and width.
pub struct PeHeader {
    pub architecture: Field<String>,
    pub entry_point: Field<u32>,
    pub size_of_image: Field<u32>,
    pub number_of_sections: Field<u16>,
    pub checksum: Field<u32>,
    pub section_alignment: Field<u32>,
    pub file_alignment: Field<u32>,
    pub size_of_headers: Field<u32>,
    pub base_of_code: Field<u32>,
    pub base_of_data: Field<u32>,
    pub image_base: Field<ImageBase>,
    pub subsystem: Field<u16>,
    pub dll_characteristics: Field<u16>,
    pub pe_type: PEType,
}

/// Whether `h` is exactly the header that `b` encodes: each field decoded
/// little-endian from its fixed offset relative to the PE header or the
/// optional header.
pub open spec fn pe_header_matches(h: PeHeader, b: Seq<u8>) -> bool {
    let po = pe_off(b);
    let oo = opt_off(b);
    &&& h.architecture.value@ == arch_name(arch_of(word_at(b, po + 4, 2, false) as u16))
    &&& h.architecture.offset == po + 4
    &&& h.architecture.size == 2
    &&& h.entry_point.value == word_at(b, po + 40, 4, false)
    &&& h.entry_point.offset == po + 40
    &&& h.entry_point.size == 4
    &&& h.size_of_image.value == word_at(b, po + 80, 4, false)
    &&& h.size_of_image.offset == po + 80
    &&& h.size_of_image.size == 4
    &&& h.number_of_sections.value == word_at(b, po + 6, 2, false)
    &&& h.number_of_sections.offset == po + 6
    &&& h.number_of_sections.size == 2
    &&& h.checksum.value == word_at(b, po + 88, 4, false)
    &&& h.checksum.offset == po + 88
    &&& h.checksum.size == 4
    &&& h.section_alignment.value == word_at(b, oo + 32, 4, false)
    &&& h.section_alignment.offset == oo + 32
    &&& h.section_alignment.size == 4
    &&& h.file_alignment.value == word_at(b, oo + 36, 4, false)
    &&& h.file_alignment.offset == oo + 36
    &&& h.file_alignment.size == 4
    &&& h.size_of_headers.value == word_at(b, oo + 60, 4, false)
    &&& h.size_of_headers.offset == oo + 60
    &&& h.size_of_headers.size == 4
    &&& h.base_of_code.value == word_at(b, oo + 20, 4, false)
    &&& h.base_of_code.offset == oo + 20
    &&& h.base_of_code.size == 4
    &&& h.base_of_data.value == word_at(b, oo + 24, 4, false)
    &&& h.base_of_data.offset == oo + 24
    &&& h.base_of_data.size == 4
    &&& h.image_base.offset == oo + 28
    &&& h.image_base.size == 8
    &&& (pe_is_plus(b) ==> (h.image_base.value matches ImageBase::Base64(v) && v == word_at(
        b,
        oo + 24,
        8,
        false,
    )))
    &&& (!pe_is_plus(b) ==> (h.image_base.value matches ImageBase::Base32(v) && v == word_at(
        b,
        oo + 28,
        4,
        false,
    )))
    &&& h.subsystem.value == word_at(b, oo + 68, 2, false)
    &&& h.subsystem.offset == oo + 68
    &&& h.subsystem.size == 2
    &&& h.dll_characteristics.value == word_at(b, oo + 70, 2, false)
    &&& h.dll_characteristics.offset == oo + 70
    &&& h.dll_characteristics.size == 2
    &&& (h.pe_type is PE32Plus <==> pe_is_plus(b))
}

} // verus!
