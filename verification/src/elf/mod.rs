//! Whole-file view of an ELF binary.
//!
//! [`ELF`] owns the raw byte buffer together with the decoded header and
//! both header tables.  Parsing never modifies the buffer, so a file that
//! is parsed and then written back is reproduced byte for byte.

pub mod header;
pub mod program;
pub mod section;

use vstd::prelude::*;

use crate::errors::FileParseError;
use header::{elf_endian_ok, elf_header_matches, elf_is_big, elf_magic_ok, ElfHeader};
use program::{ph_matches, ph_table_ok, ProgramHeader};
use section::{sh_matches, sh_table_ok, SectionHeader};

use crate::utils::{entry_base, word_at};

verus! {

/// A parsed ELF file: the raw bytes plus every decoded structure.
pub struct ELF {
    pub buffer: Vec<u8>,
    pub header: ElfHeader,
    pub program_headers: Vec<ProgramHeader>,
    pub section_headers: Vec<SectionHeader>,
}

/// Whether both header tables that the header at the start of `b`
/// describes lie inside the buffer.
pub open spec fn elf_tables_ok(b: Seq<u8>) -> bool {
    let big = elf_is_big(b);
    &&& ph_table_ok(b, word_at(b, 32, 8, big), word_at(b, 54, 2, big), word_at(b, 56, 2, big))
    &&& sh_table_ok(b, word_at(b, 40, 8, big), word_at(b, 58, 2, big), word_at(b, 60, 2, big))
}

/// Whether `b` parses as an ELF file: long enough for the fixed header,
/// carrying the magic and a defined endianness byte, with both tables in
/// bounds.
pub open spec fn elf_parse_ok(b: Seq<u8>) -> bool {
    &&& b.len() >= 64
    &&& elf_magic_ok(b)
    &&& elf_endian_ok(b)
    &&& elf_tables_ok(b)
}

/// Whether `elf` is exactly what parsing `b` yields: the buffer kept
/// verbatim, the header decoded from the first 64 bytes, and each table
/// decoded record by record.
pub open spec fn elf_matches(elf: ELF, b: Seq<u8>) -> bool {
    let big = elf_is_big(b);
    let ph_off = word_at(b, 32, 8, big);
    let ph_size = word_at(b, 54, 2, big);
    let ph_num = word_at(b, 56, 2, big);
    let sh_off = word_at(b, 40, 8, big);
    let sh_size = word_at(b, 58, 2, big);
    let sh_num = word_at(b, 60, 2, big);
    &&& elf.buffer@ == b
    &&& elf_header_matches(elf.header, b)
    &&& elf.program_headers@.len() == ph_num
    &&& forall|k: int|
        0 <= k < ph_num ==> ph_matches(
            elf.program_headers@[k],
            b,
            #[trigger] entry_base(ph_off, ph_size, k),
            big,
        )
    &&& elf.section_headers@.len() == sh_num
    &&& forall|k: int|
        0 <= k < sh_num ==> sh_matches(
            elf.section_headers@[k],
            b,
            #[trigger] entry_base(sh_off, sh_size, k),
            big,
        )
}

/// Round-trip identity: parsing never alters the bytes, so a parsed file
/// written back verbatim reproduces its input exactly.
pub proof fn lemma_parse_preserves_bytes(elf: ELF, b: Seq<u8>)
    requires
        elf_matches(elf, b),
    ensures
        elf.buffer@ == b,
{
}

impl ELF {
    /// Parses a whole ELF file from a byte buffer.
    ///
    /// Fails with `BufferOverflow` when the buffer is shorter than the
    /// 64-byte header or a table runs past its end, and with
    /// `InvalidFileFormat` when the magic or endianness byte is wrong; on
    /// success the returned value holds the buffer unchanged together with
    /// every decoded structure.
    pub fn from_buffer(buffer: Vec<u8>) -> (r: Result<ELF, FileParseError>)
        ensures
            r is Ok <==> elf_parse_ok(buffer@),
            r matches Ok(elf) ==> elf_matches(elf, buffer@),
            buffer@.len() < 64 ==> (r matches Err(e) && e is BufferOverflow),
            buffer@.len() >= 64 && !(elf_magic_ok(buffer@) && elf_endian_ok(buffer@)) ==> (
            r matches Err(e) && e is InvalidFileFormat),
            buffer@.len() >= 64 && elf_magic_ok(buffer@) && elf_endian_ok(buffer@)
                && !elf_tables_ok(buffer@) ==> (r matches Err(e) && e is BufferOverflow),
    {
        if buffer.len() < 64 {
            return Err(FileParseError::BufferOverflow);
        }
        let header = match ElfHeader::parse(buffer.as_slice()) {
            Ok(h) => h,
            Err(e) => {
                return Err(e);
            },
        };
        let program_headers = match ProgramHeader::parse_program_headers(
            buffer.as_slice(),
            header.ph_off.value,
            header.ph_ent_size.value,
            header.ph_num.value,
            header.endianness,
        ) {
            Ok(v) => v,
            Err(e) => {
                return Err(e);
            },
        };
        let section_headers = match SectionHeader::parse_section_headers(
            buffer.as_slice(),
            header.sh_off.value,
            header.sh_ent_size.value,
            header.sh_num.value,
            header.endianness,
        ) {
            Ok(v) => v,
            Err(e) => {
                return Err(e);
            },
        };
        Ok(ELF { buffer, header, program_headers, section_headers })
    }
}

} // verus!
