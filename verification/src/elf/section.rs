//! The ELF section-header table.
//!
//! Section headers describe the file's linking and debugging views.  Like
//! the program-header table, the section table is a run of fixed-stride
//! records; every record is bounds-checked before its fields are decoded
//! under the file's byte order.

use vstd::arithmetic::mul::lemma_mul_upper_bound;
use vstd::prelude::*;

use super::header::Endianness;
use crate::errors::FileParseError;
use crate::field::Field;
use crate::utils::{entry_base, read_u32_at, read_u64_at, span_fits, word_at};

verus! {

/// One section-header record; every scalar knows its offset and width.
#[derive(Debug)]
pub struct SectionHeader {
    pub sh_name: Field<u32>,
    pub sh_type: Field<u32>,
    pub sh_flags: Field<u64>,
    pub sh_addr: Field<u64>,
    pub sh_offset: Field<u64>,
    pub sh_size: Field<u64>,
    pub sh_link: Field<u32>,
    pub sh_info: Field<u32>,
    pub sh_addralign: Field<u64>,
    pub sh_entsize: Field<u64>,
}

/// The bytes one record occupies for bounds purposes: its declared stride,
/// but never less than the 64 bytes its fixed field layout reaches.
pub open spec fn sh_span(size: int) -> int {
    if size < 64 {
        64
    } else {
        size
    }
}

/// Whether `s` is exactly the record encoded at `base` in `b`.
pub open spec fn sh_matches(s: SectionHeader, b: Seq<u8>, base: int, big: bool) -> bool {
    &&& s.sh_name.value == word_at(b, base, 4, big)
    &&& s.sh_name.offset == base
    &&& s.sh_name.size == 4
    &&& s.sh_type.value == word_at(b, base + 4, 4, big)
    &&& s.sh_type.offset == base + 4
    &&& s.sh_type.size == 4
    &&& s.sh_flags.value == word_at(b, base + 8, 8, big)
    &&& s.sh_flags.offset == base + 8
    &&& s.sh_flags.size == 8
    &&& s.sh_addr.value == word_at(b, base + 16, 8, big)
    &&& s.sh_addr.offset == base + 16
    &&& s.sh_addr.size == 8
    &&& s.sh_offset.value == word_at(b, base + 24, 8, big)
    &&& s.sh_offset.offset == base + 24
    &&& s.sh_offset.size == 8
    &&& s.sh_size.value == word_at(b, base + 32, 8, big)
    &&& s.sh_size.offset == base + 32
    &&& s.sh_size.size == 8
    &&& s.sh_link.value == word_at(b, base + 40, 4, big)
    &&& s.sh_link.offset == base + 40
    &&& s.sh_link.size == 4
    &&& s.sh_info.value == word_at(b, base + 44, 4, big)
    &&& s.sh_info.offset == base + 44
    &&& s.sh_info.size == 4
    &&& s.sh_addralign.value == word_at(b, base + 48, 8, big)
    &&& s.sh_addralign.offset == base + 48
    &&& s.sh_addralign.size == 8
    &&& s.sh_entsize.value == word_at(b, base + 56, 8, big)
    &&& s.sh_entsize.offset == base + 56
    &&& s.sh_entsize.size == 8
}

/// Whether every record of the table lies inside the buffer.
pub open spec fn sh_table_ok(b: Seq<u8>, off: int, size: int, count: int) -> bool {
    forall|k: int|
        0 <= k < count ==> #[trigger] entry_base(off, size, k) + sh_span(size) <= b.len()
}

impl SectionHeader {
    /// Walks `count` records of `size` bytes each, starting at `offset`.
    ///
    /// Fails with `BufferOverflow`, and only with it, exactly when some
    /// record of the table would run past the end of the buffer; otherwise
    /// returns every record, decoded under `endianness`.
    pub fn parse_section_headers(
        buffer: &[u8],
        offset: u64,
        size: u16,
        count: u16,
        endianness: Endianness,
    ) -> (r: Result<Vec<SectionHeader>, FileParseError>)
        ensures
            r is Ok <==> sh_table_ok(buffer@, offset as int, size as int, count as int),
            r matches Err(e) ==> e is BufferOverflow,
            r matches Ok(v) ==> v@.len() == count && forall|k: int|
                0 <= k < count ==> sh_matches(
                    v@[k],
                    buffer@,
                    #[trigger] entry_base(offset as int, size as int, k),
                    endianness is Big,
                ),
    {
        let big = matches!(endianness, Endianness::Big);
        let len: usize = buffer.len();
        let need: u64 = if size < 64 {
            64
        } else {
            size as u64
        };
        let mut headers: Vec<SectionHeader> = Vec::new();
        let mut k: u16 = 0;
        while k < count
            invariant
                k <= count,
                len == buffer@.len(),
                need == sh_span(size as int),
                big == (endianness is Big),
                headers@.len() == k,
                forall|j: int|
                    0 <= j < k ==> sh_matches(
                        headers@[j],
                        buffer@,
                        #[trigger] entry_base(offset as int, size as int, j),
                        big,
                    ),
                forall|j: int|
                    0 <= j < k ==> #[trigger] entry_base(offset as int, size as int, j) + sh_span(
                        size as int,
                    ) <= len,
            decreases count - k,
        {
            proof {
                lemma_mul_upper_bound(k as int, 0xffff, size as int, 0xffff);
            }
            let mul: u64 = (k as u64) * (size as u64);
            let base64: u64 = match offset.checked_add(mul) {
                Some(b) => b,
                None => {
                    proof {
                        assert(entry_base(offset as int, size as int, k as int) + sh_span(
                            size as int,
                        ) > len);
                    }
                    return Err(FileParseError::BufferOverflow);
                },
            };
            if !span_fits(len, base64, need) {
                proof {
                    assert(entry_base(offset as int, size as int, k as int) + sh_span(size as int)
                        > len);
                }
                return Err(FileParseError::BufferOverflow);
            }
            let base: usize = base64 as usize;
            let sh_name: Field<u32> = Field::new(read_u32_at(buffer, base, big), base, 4);
            let sh_type: Field<u32> = Field::new(read_u32_at(buffer, base + 4, big), base + 4, 4);
            let sh_flags: Field<u64> = Field::new(read_u64_at(buffer, base + 8, big), base + 8, 8);
            let sh_addr: Field<u64> = Field::new(read_u64_at(buffer, base + 16, big), base + 16, 8);
            let sh_offset: Field<u64> = Field::new(
                read_u64_at(buffer, base + 24, big),
                base + 24,
                8,
            );
            let sh_size: Field<u64> = Field::new(read_u64_at(buffer, base + 32, big), base + 32, 8);
            let sh_link: Field<u32> = Field::new(read_u32_at(buffer, base + 40, big), base + 40, 4);
            let sh_info: Field<u32> = Field::new(read_u32_at(buffer, base + 44, big), base + 44, 4);
            let sh_addralign: Field<u64> = Field::new(
                read_u64_at(buffer, base + 48, big),
                base + 48,
                8,
            );
            let sh_entsize: Field<u64> = Field::new(
                read_u64_at(buffer, base + 56, big),
                base + 56,
                8,
            );
            headers.push(
                SectionHeader {
                    sh_name,
                    sh_type,
                    sh_flags,
                    sh_addr,
                    sh_offset,
                    sh_size,
                    sh_link,
                    sh_info,
                    sh_addralign,
                    sh_entsize,
                },
            );
            k = k + 1;
        }
        Ok(headers)
    }
}

} // verus!
