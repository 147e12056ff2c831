//! PE section headers.
//!
//! Each section header is a fixed 40-byte record: an 8-byte name followed
//! by the section's sizes, file and memory positions, and characteristics
//! flags.  Helpers classify the flags and pull printable strings out of a
//! section's raw data.

use vstd::prelude::*;
use vstd::slice::slice_subrange;
use vstd::string::StringSliceAdditionalSpecFns;

use crate::errors::FileParseError;
use crate::field::Field;
use crate::utils::{
    decode_utf8_lossy, lemma_ascii_decode, lossy_decode, read_u16_at, read_u32_at, span_fits,
    trim_end_nuls, trim_trailing_nuls, word_at,
};

verus! {

/// A section characteristic flag, by name.
pub enum Characteristics {
    Executable,
    Writeable,
    Readable,
    Code,
    Discardable,
    Tls,
}

/// The flag bit each characteristic occupies in the section header.
pub open spec fn characteristics_bit(c: Characteristics) -> u32 {
    match c {
        Characteristics::Executable => 0x20000000u32,
        Characteristics::Writeable => 0x80000000u32,
        Characteristics::Readable => 0x40000000u32,
        Characteristics::Code => 0x00000020u32,
        Characteristics::Discardable => 0x02000000u32,
        Characteristics::Tls => 0x00000400u32,
    }
}

impl Characteristics {
    /// The flag bit this characteristic occupies in the section header.
    pub fn to_u32(&self) -> (r: u32)
        ensures
            r == characteristics_bit(*self),
    {
        match *self {
            Characteristics::Executable => 0x20000000u32,
            Characteristics::Writeable => 0x80000000u32,
            Characteristics::Readable => 0x40000000u32,
            Characteristics::Code => 0x00000020u32,
            Characteristics::Discardable => 0x02000000u32,
            Characteristics::Tls => 0x00000400u32,
        }
    }
}

/// One decoded section header; every scalar knows its offset and width.
pub struct PeSection {
    pub name: Field<String>,
    pub virtual_size: Field<u32>,
    pub virtual_address: Field<u32>,
    pub size_of_raw_data: Field<u32>,
    pub pointer_to_raw_data: Field<u32>,
    pub pointer_to_relocations: Field<u32>,
    pub pointer_to_linenumbers: Field<u32>,
    pub number_of_relocations: Field<u16>,
    pub number_of_linenumbers: Field<u16>,
    pub characteristics: Field<u32>,
}

/// Whether `s` is exactly the 40-byte record encoded at `off` in `b`: the
/// name is the 8 name bytes decoded as UTF-8 and stripped of trailing
/// NULs, and every scalar is read little-endian at its fixed offset.
pub open spec fn pe_section_matches(s: PeSection, b: Seq<u8>, off: int) -> bool {
    &&& s.name.value@ == trim_trailing_nuls(lossy_decode(b.subrange(off, off + 8)))
    &&& s.name.offset == off
    &&& s.name.size == 8
    &&& s.virtual_size.value == word_at(b, off + 8, 4, false)
    &&& s.virtual_size.offset == off + 8
    &&& s.virtual_size.size == 4
    &&& s.virtual_address.value == word_at(b, off + 12, 4, false)
    &&& s.virtual_address.offset == off + 12
    &&& s.virtual_address.size == 4
    &&& s.size_of_raw_data.value == word_at(b, off + 16, 4, false)
    &&& s.size_of_raw_data.offset == off + 16
    &&& s.size_of_raw_data.size == 4
    &&& s.pointer_to_raw_data.value == word_at(b, off + 20, 4, false)
    &&& s.pointer_to_raw_data.offset == off + 20
    &&& s.pointer_to_raw_data.size == 4
    &&& s.pointer_to_relocations.value == word_at(b, off + 24, 4, false)
    &&& s.pointer_to_relocations.offset == off + 24
    &&& s.pointer_to_relocations.size == 4
    &&& s.pointer_to_linenumbers.value == word_at(b, off + 28, 4, false)
    &&& s.pointer_to_linenumbers.offset == off + 28
    &&& s.pointer_to_linenumbers.size == 4
    &&& s.number_of_relocations.value == word_at(b, off + 32, 2, false)
    &&& s.number_of_relocations.offset == off + 32
    &&& s.number_of_relocations.size == 2
    &&& s.number_of_linenumbers.value == word_at(b, off + 34, 2, false)
    &&& s.number_of_linenumbers.offset == off + 34
    &&& s.number_of_linenumbers.size == 2
    &&& s.characteristics.value == word_at(b, off + 36, 4, false)
    &&& s.characteristics.offset == off + 36
    &&& s.characteristics.size == 4
}

/// Whether the section header's fields lie inside a buffer of `len` bytes
/// in their fixed 40-byte layout: every scalar at its fixed offset from
/// the name, with its fixed width.
pub open spec fn pe_section_wf(s: PeSection, len: int) -> bool {
    let off = s.name.offset as int;
    &&& off + 40 <= len
    &&& s.name.size == 8
    &&& s.virtual_size.offset == off + 8
    &&& s.virtual_size.size == 4
    &&& s.virtual_address.offset == off + 12
    &&& s.virtual_address.size == 4
    &&& s.size_of_raw_data.offset == off + 16
    &&& s.size_of_raw_data.size == 4
    &&& s.pointer_to_raw_data.offset == off + 20
    &&& s.pointer_to_raw_data.size == 4
    &&& s.pointer_to_relocations.offset == off + 24
    &&& s.pointer_to_relocations.size == 4
    &&& s.pointer_to_linenumbers.offset == off + 28
    &&& s.pointer_to_linenumbers.size == 4
    &&& s.number_of_relocations.offset == off + 32
    &&& s.number_of_relocations.size == 2
    &&& s.number_of_linenumbers.offset == off + 34
    &&& s.number_of_linenumbers.size == 2
    &&& s.characteristics.offset == off + 36
    &&& s.characteristics.size == 4
}

/// Whether a byte belongs to an extracted string: an ASCII letter, digit
/// or underscore.
pub open spec fn is_word_byte(b: u8) -> bool {
    (0x30 <= b <= 0x39) || (0x41 <= b <= 0x5A) || (0x61 <= b <= 0x7A) || b == 0x5F
}

/// The bytes of `s` read as characters.
pub open spec fn chars_of(s: Seq<u8>) -> Seq<char> {
    Seq::new(s.len(), |i: int| s[i] as char)
}

/// The views of a sequence of strings.
pub open spec fn views_of(v: Seq<String>) -> Seq<Seq<char>> {
    Seq::new(v.len(), |i: int| v[i]@)
}

/// The strings that scanning `data` from position `i` still yields, given
/// that the run `cur` of word bytes is already open: maximal runs of word
/// bytes at least `min` long, each read as characters.
pub open spec fn runs_from(data: Seq<u8>, i: int, cur: Seq<u8>, min: int) -> Seq<Seq<char>>
    decreases data.len() - i,
{
    if i < 0 || i >= data.len() {
        if cur.len() >= min {
            seq![chars_of(cur)]
        } else {
            seq![]
        }
    } else if is_word_byte(data[i]) {
        runs_from(data, i + 1, cur.push(data[i]), min)
    } else if cur.len() >= min {
        seq![chars_of(cur)] + runs_from(data, i + 1, seq![], min)
    } else {
        runs_from(data, i + 1, seq![], min)
    }
}

/// Every string extracted from `data`: maximal runs of word bytes at
/// least `min` long, in order of appearance.
pub open spec fn extracted_strings(data: Seq<u8>, min: int) -> Seq<Seq<char>> {
    runs_from(data, 0, seq![], min)
}

impl PeSection {
    /// Whether the section is executable.
    pub fn is_executable(&self) -> (r: bool)
        ensures
            r == (self.characteristics.value & 0x20000000u32 != 0),
    {
        self.characteristics.value & 0x20000000u32 != 0
    }

    /// Whether the section is writable.
    pub fn is_writable(&self) -> (r: bool)
        ensures
            r == (self.characteristics.value & 0x80000000u32 != 0),
    {
        self.characteristics.value & 0x80000000u32 != 0
    }

    /// Whether the section is readable.
    pub fn is_readable(&self) -> (r: bool)
        ensures
            r == (self.characteristics.value & 0x40000000u32 != 0),
    {
        self.characteristics.value & 0x40000000u32 != 0
    }

    /// Whether the section contains initialized data.
    pub fn has_initialized_data(&self) -> (r: bool)
        ensures
            r == (self.characteristics.value & 0x00000040u32 != 0),
    {
        self.characteristics.value & 0x00000040u32 != 0
    }

    /// Whether the section contains uninitialized data.
    pub fn has_uninitialized_data(&self) -> (r: bool)
        ensures
            r == (self.characteristics.value & 0x00000080u32 != 0),
    {
        self.characteristics.value & 0x00000080u32 != 0
    }

    /// Whether the section can be discarded after loading.
    pub fn is_discardable(&self) -> (r: bool)
        ensures
            r == (self.characteristics.value & 0x02000000u32 != 0),
    {
        self.characteristics.value & 0x02000000u32 != 0
    }

    /// Whether the section contains code.
    pub fn has_code(&self) -> (r: bool)
        ensures
            r == (self.characteristics.value & 0x00000020u32 != 0),
    {
        self.characteristics.value & 0x00000020u32 != 0
    }

    /// Whether the section holds thread-local storage data.
    pub fn has_tls(&self) -> (r: bool)
        ensures
            r == (self.characteristics.value & 0x00000400u32 != 0),
    {
        self.characteristics.value & 0x00000400u32 != 0
    }

    /// Collects the printable strings of the section's raw data: maximal
    /// runs of ASCII letters, digits and underscores at least
    /// `min_length` long.
    ///
    /// Fails with `BufferOverflow`, and only with it, exactly when the
    /// section's declared raw-data range runs past the end of the buffer.
    pub fn extract_strings(&self, buffer: &[u8], min_length: usize) -> (r: Result<
        Vec<String>,
        FileParseError,
    >)
        ensures
            self.pointer_to_raw_data.value + self.size_of_raw_data.value <= buffer@.len() ==> (
            r matches Ok(v) && views_of(v@) == extracted_strings(
                buffer@.subrange(
                    self.pointer_to_raw_data.value as int,
                    self.pointer_to_raw_data.value + self.size_of_raw_data.value,
                ),
                min_length as int,
            )),
            self.pointer_to_raw_data.value + self.size_of_raw_data.value > buffer@.len() ==> (
            r matches Err(e) && e is BufferOverflow),
    {
        let start64: u64 = self.pointer_to_raw_data.value as u64;
        let size64: u64 = self.size_of_raw_data.value as u64;
        if !span_fits(buffer.len(), start64, size64) {
            return Err(FileParseError::BufferOverflow);
        }
        let blen: usize = buffer.len();
        let start: usize = start64 as usize;
        let dlen: usize = size64 as usize;
        let ghost data = buffer@.subrange(start as int, start + dlen);

        let mut strings: Vec<String> = Vec::new();
        let mut current: Vec<u8> = Vec::new();
        let mut i: usize = 0;
        while i < dlen
            invariant
                i <= dlen,
                start + dlen <= blen,
                blen == buffer@.len(),
                data == buffer@.subrange(start as int, start + dlen),
                forall|j: int| 0 <= j < current@.len() ==> is_word_byte(#[trigger] current@[j]),
                extracted_strings(data, min_length as int) == views_of(strings@) + runs_from(
                    data,
                    i as int,
                    current@,
                    min_length as int,
                ),
            decreases dlen - i,
        {
            let b = buffer[start + i];
            proof {
                assert(data[i as int] == buffer@[start + i]);
            }
            let ghost old_cur = current@;
            let ghost old_strings = strings@;
            if (b >= 0x30 && b <= 0x39) || (b >= 0x41 && b <= 0x5A) || (b >= 0x61 && b <= 0x7A)
                || b == 0x5F {
                current.push(b);
            } else {
                if current.len() >= min_length {
                    proof {
                        lemma_ascii_decode(current@);
                    }
                    let s = decode_utf8_lossy(current.as_slice());
                    proof {
                        assert(s@ =~= chars_of(old_cur));
                    }
                    strings.push(s);
                    proof {
                        assert(views_of(strings@) =~= views_of(old_strings).push(
                            chars_of(old_cur),
                        ));
                        assert(views_of(old_strings) + (seq![chars_of(old_cur)] + runs_from(
                            data,
                            i + 1,
                            seq![],
                            min_length as int,
                        )) =~= views_of(strings@) + runs_from(
                            data,
                            i + 1,
                            seq![],
                            min_length as int,
                        ));
                    }
                }
                current.clear();
            }
            i = i + 1;
        }
        if current.len() >= min_length {
            proof {
                lemma_ascii_decode(current@);
            }
            let ghost old_cur = current@;
            let ghost old_strings = strings@;
            let s = decode_utf8_lossy(current.as_slice());
            proof {
                assert(s@ =~= chars_of(old_cur));
            }
            strings.push(s);
            proof {
                assert(views_of(strings@) =~= views_of(old_strings).push(chars_of(old_cur)));
            }
        }
        proof {
            assert(views_of(strings@) =~= extracted_strings(data, min_length as int));
        }
        Ok(strings)
    }

    /// Decodes the 40-byte section header at `offset`.
    ///
    /// Fails with `BufferOverflow`, and only with it, exactly when the
    /// record would run past the end of the buffer.
    pub fn parse_section(buffer: &[u8], offset: usize) -> (r: Result<PeSection, FileParseError>)
        ensures
            offset + 40 <= buffer@.len() ==> (r matches Ok(s) && pe_section_matches(
                s,
                buffer@,
                offset as int,
            )),
            offset + 40 > buffer@.len() ==> (r matches Err(e) && e is BufferOverflow),
    {
        if !span_fits(buffer.len(), offset as u64, 40) {
            return Err(FileParseError::BufferOverflow);
        }
        let name_bytes: &[u8] = slice_subrange(buffer, offset, offset + 8);
        let decoded = decode_utf8_lossy(name_bytes);
        let name_string = trim_end_nuls(decoded.as_str());

        Ok(PeSection {
            name: Field::new(name_string, offset, 8),
            virtual_size: Field::new(read_u32_at(buffer, offset + 8, false), offset + 8, 4),
            virtual_address: Field::new(read_u32_at(buffer, offset + 12, false), offset + 12, 4),
            size_of_raw_data: Field::new(read_u32_at(buffer, offset + 16, false), offset + 16, 4),
            pointer_to_raw_data: Field::new(
                read_u32_at(buffer, offset + 20, false),
                offset + 20,
                4,
            ),
            pointer_to_relocations: Field::new(
                read_u32_at(buffer, offset + 24, false),
                offset + 24,
                4,
            ),
            pointer_to_linenumbers: Field::new(
                read_u32_at(buffer, offset + 28, false),
                offset + 28,
                4,
            ),
            number_of_relocations: Field::new(
                read_u16_at(buffer, offset + 32, false),
                offset + 32,
                2,
            ),
            number_of_linenumbers: Field::new(
                read_u16_at(buffer, offset + 34, false),
                offset + 34,
                2,
            ),
            characteristics: Field::new(read_u32_at(buffer, offset + 36, false), offset + 36, 4),
        })
    }
}

} // verus!
