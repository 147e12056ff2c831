//! Whole-file view of a Mach-O binary.
//!
//! [`MachO`] owns the raw byte buffer together with the decoded header, the
//! load-command list and the derived segments.  A universal (FAT) wrapper
//! is unwrapped first: the first architecture slice is cut out and parsed
//! as a plain Mach-O file, and the other slices are ignored.  Parsing never
//! modifies the bytes it keeps, so writing the kept buffer back reproduces
//! it byte for byte.

pub mod header;
pub mod load_command;
pub mod segment;

use vstd::arithmetic::mul::lemma_mul_upper_bound;
use vstd::prelude::*;
use vstd::slice::{slice_subrange, slice_to_vec};

use crate::errors::FileParseError;
use header::{mach_header_matches, Endianness, MachHeader};
use load_command::{lc_spec_seq, lc_walk_ok, LoadCommand};
use segment::{segments_match, segments_ok, Segment};

use crate::utils::{read_u32_at, read_u64_at, span_fits, word_at};

verus! {

/// A parsed Mach-O file: the raw bytes plus every decoded structure.
pub struct MachO {
    pub buffer: Vec<u8>,
    pub header: MachHeader,
    pub load_commands: Vec<LoadCommand>,
    pub segments: Vec<Segment>,
}

/// Whether the leading word, read big-endian, is one of the two FAT magics.
pub open spec fn fat_magic_be(b: Seq<u8>) -> bool {
    word_at(b, 0, 4, true) == 0xCAFEBABE || word_at(b, 0, 4, true) == 0xCAFEBABF
}

/// Whether the leading word, read little-endian, is one of the two FAT
/// magics.
pub open spec fn fat_magic_le(b: Seq<u8>) -> bool {
    word_at(b, 0, 4, false) == 0xCAFEBABE || word_at(b, 0, 4, false) == 0xCAFEBABF
}

/// Whether `b` starts with a universal (FAT) wrapper.
pub open spec fn is_fat(b: Seq<u8>) -> bool {
    b.len() >= 4 && (fat_magic_be(b) || fat_magic_le(b))
}

/// The byte order of the FAT tables.
pub open spec fn fat_big(b: Seq<u8>) -> bool {
    fat_magic_be(b)
}

/// Whether the FAT tables use 64-bit offset and size fields.
pub open spec fn fat_is64(b: Seq<u8>) -> bool {
    word_at(b, 0, 4, fat_big(b)) == 0xCAFEBABF
}

/// The stride of one FAT architecture record.
pub open spec fn fat_arch_size(b: Seq<u8>) -> int {
    if fat_is64(b) {
        32
    } else {
        20
    }
}

/// The declared number of architecture slices.
pub open spec fn fat_nfat(b: Seq<u8>) -> int {
    word_at(b, 4, 4, fat_big(b))
}

/// The file offset of the first architecture slice.
pub open spec fn fat_off(b: Seq<u8>) -> int {
    if fat_is64(b) {
        word_at(b, 16, 8, fat_big(b))
    } else {
        word_at(b, 16, 4, fat_big(b))
    }
}

/// The size of the first architecture slice.
pub open spec fn fat_size(b: Seq<u8>) -> int {
    if fat_is64(b) {
        word_at(b, 24, 8, fat_big(b))
    } else {
        word_at(b, 20, 4, fat_big(b))
    }
}

/// Whether the FAT wrapper itself is well-formed: at least one declared
/// slice, the architecture table in bounds, and the first slice in bounds.
pub open spec fn fat_ok(b: Seq<u8>) -> bool {
    &&& b.len() >= 8
    &&& fat_nfat(b) != 0
    &&& 8 + fat_arch_size(b) * fat_nfat(b) <= b.len()
    &&& fat_off(b) + fat_size(b) <= b.len()
}

/// The bytes of the first architecture slice.
pub open spec fn fat_inner(b: Seq<u8>) -> Seq<u8> {
    b.subrange(fat_off(b), fat_off(b) + fat_size(b))
}

/// Whether the leading word, read little-endian, is one of the four plain
/// Mach-O magics.
pub open spec fn plain_magic_ok(b: Seq<u8>) -> bool {
    b.len() >= 4 && {
        let m = word_at(b, 0, 4, false);
        m == 0xFEEDFACE || m == 0xFEEDFACF || m == 0xCEFAEDFE || m == 0xCFFAEDFE
    }
}

/// Whether a plain Mach-O file declares big-endian byte order.
pub open spec fn plain_big(b: Seq<u8>) -> bool {
    let m = word_at(b, 0, 4, false);
    m == 0xCEFAEDFE || m == 0xCFFAEDFE
}

/// The size of the fixed header: 28 bytes for 32-bit files, 32 for 64-bit.
pub open spec fn plain_hsize(b: Seq<u8>) -> int {
    let m = word_at(b, 0, 4, false);
    if m == 0xFEEDFACE || m == 0xCEFAEDFE {
        28
    } else {
        32
    }
}

/// The declared number of load commands.
pub open spec fn plain_ncmds(b: Seq<u8>) -> int {
    word_at(b, 16, 4, plain_big(b))
}

/// The declared total size of the load commands.
pub open spec fn plain_sizeofcmds(b: Seq<u8>) -> int {
    word_at(b, 20, 4, plain_big(b))
}

/// Whether `b` parses as a plain Mach-O file: a known magic, the fixed
/// header and declared command bytes in bounds, every load command's
/// leading bytes in bounds, and every segment command's fixed bytes in
/// bounds.
pub open spec fn plain_parse_ok(b: Seq<u8>) -> bool {
    &&& plain_magic_ok(b)
    &&& b.len() >= plain_hsize(b)
    &&& plain_hsize(b) + plain_sizeofcmds(b) <= b.len()
    &&& lc_walk_ok(b, plain_hsize(b), plain_ncmds(b) as nat, plain_big(b))
    &&& segments_ok(lc_spec_seq(b, plain_hsize(b), plain_ncmds(b) as nat, plain_big(b)), b)
}

/// A failed plain parse reports `InvalidFileFormat` exactly when the magic
/// could be read but is unknown; every other failure is a bounds failure.
pub open spec fn plain_err_format(b: Seq<u8>) -> bool {
    b.len() >= 4 && !plain_magic_ok(b)
}

/// Whether `m` is exactly what parsing the plain Mach-O bytes `b` yields:
/// the buffer kept verbatim, the header decoded under the magic's byte
/// order, the load commands walked from the end of the header, and one
/// segment per segment command.
pub open spec fn macho_matches(m: MachO, b: Seq<u8>) -> bool {
    let big = plain_big(b);
    &&& m.buffer@ == b
    &&& (m.header.endianness is Big <==> big)
    &&& mach_header_matches(m.header, b, big)
    &&& m.load_commands@ == lc_spec_seq(b, plain_hsize(b), plain_ncmds(b) as nat, big)
    &&& segments_match(m.load_commands@, m.segments@, b, big)
}

/// Round-trip identity: parsing a plain Mach-O never alters the bytes,
/// so a parsed file written back verbatim reproduces its input exactly.
/// For a FAT file the kept bytes are the selected architecture slice.
pub proof fn lemma_parse_keeps_bytes(m: MachO, b: Seq<u8>)
    requires
        macho_matches(m, b),
    ensures
        m.buffer@ == b,
{
}

impl MachO {
    /// Parses a plain (non-FAT) Mach-O file from a byte buffer.
    fn parse_plain(buffer: Vec<u8>) -> (r: Result<MachO, FileParseError>)
        ensures
            r is Ok <==> plain_parse_ok(buffer@),
            r matches Ok(m) ==> macho_matches(m, buffer@),
            r matches Err(e) ==> (if plain_err_format(buffer@) {
                e is InvalidFileFormat
            } else {
                e is BufferOverflow
            }),
    {
        if buffer.len() < 4 {
            return Err(FileParseError::BufferOverflow);
        }
        let magic_le = read_u32_at(buffer.as_slice(), 0, false);
        let (header_size, endianness): (usize, Endianness) = if magic_le == 0xFEEDFACE {
            (28, Endianness::Little)
        } else if magic_le == 0xFEEDFACF {
            (32, Endianness::Little)
        } else if magic_le == 0xCEFAEDFE {
            (28, Endianness::Big)
        } else if magic_le == 0xCFFAEDFE {
            (32, Endianness::Big)
        } else {
            return Err(FileParseError::InvalidFileFormat);
        };
        if buffer.len() < header_size {
            return Err(FileParseError::BufferOverflow);
        }
        let header = match MachHeader::parse(buffer.as_slice(), endianness) {
            Ok(h) => h,
            Err(e) => {
                return Err(e);
            },
        };
        if !span_fits(buffer.len(), header_size as u64, header.sizeofcmds.value as u64) {
            return Err(FileParseError::BufferOverflow);
        }
        let load_commands = match LoadCommand::parse_load_commands(
            buffer.as_slice(),
            header_size,
            header.ncmds.value,
            endianness,
        ) {
            Ok(v) => v,
            Err(e) => {
                return Err(e);
            },
        };
        let segments = match Segment::parse_segments(
            buffer.as_slice(),
            load_commands.as_slice(),
            endianness,
        ) {
            Ok(v) => v,
            Err(e) => {
                return Err(e);
            },
        };
        Ok(MachO { buffer, header, load_commands, segments })
    }

    /// Parses a Mach-O file, unwrapping a universal (FAT) container first.
    ///
    /// For a FAT file the first architecture slice is cut out and parsed as
    /// a plain Mach-O; the returned value then owns that slice.  Fails with
    /// `BufferOverflow` when the wrapper's tables or the selected slice run
    /// past the buffer, and with `InvalidFileFormat` when no known magic is
    /// found.
    pub fn from_buffer(buffer: Vec<u8>) -> (r: Result<MachO, FileParseError>)
        ensures
            r is Ok <==> (if is_fat(buffer@) {
                fat_ok(buffer@) && plain_parse_ok(fat_inner(buffer@))
            } else {
                plain_parse_ok(buffer@)
            }),
            is_fat(buffer@) ==> (r matches Ok(m) ==> macho_matches(m, fat_inner(buffer@))),
            !is_fat(buffer@) ==> (r matches Ok(m) ==> macho_matches(m, buffer@)),
            r matches Err(e) ==> (e is InvalidFileFormat || e is BufferOverflow),
            r matches Err(e) ==> ((e is InvalidFileFormat) <==> (if is_fat(buffer@) {
                fat_ok(buffer@) && plain_err_format(fat_inner(buffer@))
            } else {
                plain_err_format(buffer@)
            })),
    {
        if buffer.len() < 4 {
            return Err(FileParseError::BufferOverflow);
        }
        let magic_be = read_u32_at(buffer.as_slice(), 0, true);
        let magic_le = read_u32_at(buffer.as_slice(), 0, false);
        let (fat, big, fat64): (bool, bool, bool) = if magic_be == 0xCAFEBABE {
            (true, true, false)
        } else if magic_be == 0xCAFEBABF {
            (true, true, true)
        } else if magic_le == 0xCAFEBABE {
            (true, false, false)
        } else if magic_le == 0xCAFEBABF {
            (true, false, true)
        } else {
            (false, false, false)
        };
        if fat {
            if buffer.len() < 8 {
                return Err(FileParseError::BufferOverflow);
            }
            let nfat = read_u32_at(buffer.as_slice(), 4, big);
            let arch_size: u64 = if fat64 {
                32
            } else {
                20
            };
            proof {
                lemma_mul_upper_bound(arch_size as int, 32, nfat as int, 0xffff_ffff);
            }
            let total: u64 = arch_size * (nfat as u64);
            if nfat == 0 || !span_fits(buffer.len(), 8, total) {
                return Err(FileParseError::BufferOverflow);
            }
            let (a_off, a_size): (u64, u64) = if fat64 {
                (
                    read_u64_at(buffer.as_slice(), 16, big),
                    read_u64_at(buffer.as_slice(), 24, big),
                )
            } else {
                (
                    read_u32_at(buffer.as_slice(), 16, big) as u64,
                    read_u32_at(buffer.as_slice(), 20, big) as u64,
                )
            };
            if !span_fits(buffer.len(), a_off, a_size) {
                return Err(FileParseError::BufferOverflow);
            }
            let start: usize = a_off as usize;
            let end_off: usize = (a_off + a_size) as usize;
            let inner: Vec<u8> = slice_to_vec(slice_subrange(buffer.as_slice(), start, end_off));
            return Self::parse_plain(inner);
        }
        Self::parse_plain(buffer)
    }
}

} // verus!
