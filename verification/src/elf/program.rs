//! The ELF program-header table.
//!
//! Program headers describe how each segment of the binary is loaded into
//! memory.  The table is a run of fixed-stride records at an offset the
//! file header names; every record is bounds-checked before its fields are
//! decoded under the file's byte order and wrapped in
//! [`Field`](crate::field::Field) values.

use vstd::arithmetic::mul::lemma_mul_upper_bound;
use vstd::prelude::*;

use super::header::Endianness;
use crate::errors::FileParseError;
use crate::field::Field;
use crate::utils::{entry_base, read_u32_at, read_u64_at, span_fits, word_at};

verus! {

/// One program-header record; every scalar knows its offset and width.
#[derive(Debug)]
pub struct ProgramHeader {
    pub p_type: Field<u32>,
    pub p_flags: Field<u32>,
    pub p_offset: Field<u64>,
    pub p_vaddr: Field<u64>,
    pub p_paddr: Field<u64>,
    pub p_filesz: Field<u64>,
    pub p_memsz: Field<u64>,
    pub p_align: Field<u64>,
}

/// The bytes one record occupies for bounds purposes: its declared stride,
/// but never less than the 56 bytes its fixed field layout reaches.
pub open spec fn ph_span(size: int) -> int {
    if size < 56 {
        56
    } else {
        size
    }
}

/// Whether `p` is exactly the record encoded at `base` in `b`.
pub open spec fn ph_matches(p: ProgramHeader, b: Seq<u8>, base: int, big: bool) -> bool {
    &&& p.p_type.value == word_at(b, base, 4, big)
    &&& p.p_type.offset == base
    &&& p.p_type.size == 4
    &&& p.p_flags.value == word_at(b, base + 4, 4, big)
    &&& p.p_flags.offset == base + 4
    &&& p.p_flags.size == 4
    &&& p.p_offset.value == word_at(b, base + 8, 8, big)
    &&& p.p_offset.offset == base + 8
    &&& p.p_offset.size == 8
    &&& p.p_vaddr.value == word_at(b, base + 16, 8, big)
    &&& p.p_vaddr.offset == base + 16
    &&& p.p_vaddr.size == 8
    &&& p.p_paddr.value == word_at(b, base + 24, 8, big)
    &&& p.p_paddr.offset == base + 24
    &&& p.p_paddr.size == 8
    &&& p.p_filesz.value == word_at(b, base + 32, 8, big)
    &&& p.p_filesz.offset == base + 32
    &&& p.p_filesz.size == 8
    &&& p.p_memsz.value == word_at(b, base + 40, 8, big)
    &&& p.p_memsz.offset == base + 40
    &&& p.p_memsz.size == 8
    &&& p.p_align.value == word_at(b, base + 48, 8, big)
    &&& p.p_align.offset == base + 48
    &&& p.p_align.size == 8
}

/// Whether every record of the table lies inside the buffer.
pub open spec fn ph_table_ok(b: Seq<u8>, off: int, size: int, count: int) -> bool {
    forall|k: int|
        0 <= k < count ==> #[trigger] entry_base(off, size, k) + ph_span(size) <= b.len()
}

impl ProgramHeader {
    /// Walks `count` records of `size` bytes each, starting at `offset`.
    ///
    /// Fails with `BufferOverflow`, and only with it, exactly when some
    /// record of the table would run past the end of the buffer; otherwise
    /// returns every record, decoded under `endianness`.
    pub fn parse_program_headers(
        buffer: &[u8],
        offset: u64,
        size: u16,
        count: u16,
        endianness: Endianness,
    ) -> (r: Result<Vec<ProgramHeader>, FileParseError>)
        ensures
            r is Ok <==> ph_table_ok(buffer@, offset as int, size as int, count as int),
            r matches Err(e) ==> e is BufferOverflow,
            r matches Ok(v) ==> v@.len() == count && forall|k: int|
                0 <= k < count ==> ph_matches(
                    v@[k],
                    buffer@,
                    #[trigger] entry_base(offset as int, size as int, k),
                    endianness is Big,
                ),
    {
        let big = matches!(endianness, Endianness::Big);
        let len: usize = buffer.len();
        let need: u64 = if size < 56 {
            56
        } else {
            size as u64
        };
        let mut headers: Vec<ProgramHeader> = Vec::new();
        let mut k: u16 = 0;
        while k < count
            invariant
                k <= count,
                len == buffer@.len(),
                need == ph_span(size as int),
                big == (endianness is Big),
                headers@.len() == k,
                forall|j: int|
                    0 <= j < k ==> ph_matches(
                        headers@[j],
                        buffer@,
                        #[trigger] entry_base(offset as int, size as int, j),
                        big,
                    ),
                forall|j: int|
                    0 <= j < k ==> #[trigger] entry_base(offset as int, size as int, j) + ph_span(
                        size as int,
                    ) <= len,
            decreases count - k,
        {
            proof {
                lemma_mul_upper_bound(k as int, 0xffff, size as int, 0xffff);
            }
            let mul: u64 = (k as u64) * (size as u64);
            let base64: u64 = match offset.checked_add(mul) {
                Some(b) => b,
                None => {
                    proof {
                        assert(entry_base(offset as int, size as int, k as int) + ph_span(
                            size as int,
                        ) > len);
                    }
                    return Err(FileParseError::BufferOverflow);
                },
            };
            if !span_fits(len, base64, need) {
                proof {
                    assert(entry_base(offset as int, size as int, k as int) + ph_span(size as int)
                        > len);
                }
                return Err(FileParseError::BufferOverflow);
            }
            let base: usize = base64 as usize;
            let p_type: Field<u32> = Field::new(read_u32_at(buffer, base, big), base, 4);
            let p_flags: Field<u32> = Field::new(read_u32_at(buffer, base + 4, big), base + 4, 4);
            let p_offset: Field<u64> = Field::new(read_u64_at(buffer, base + 8, big), base + 8, 8);
            let p_vaddr: Field<u64> = Field::new(read_u64_at(buffer, base + 16, big), base + 16, 8);
            let p_paddr: Field<u64> = Field::new(read_u64_at(buffer, base + 24, big), base + 24, 8);
            let p_filesz: Field<u64> = Field::new(
                read_u64_at(buffer, base + 32, big),
                base + 32,
                8,
            );
            let p_memsz: Field<u64> = Field::new(read_u64_at(buffer, base + 40, big), base + 40, 8);
            let p_align: Field<u64> = Field::new(read_u64_at(buffer, base + 48, big), base + 48, 8);
            headers.push(
                ProgramHeader {
                    p_type,
                    p_flags,
                    p_offset,
                    p_vaddr,
                    p_paddr,
                    p_filesz,
                    p_memsz,
                    p_align,
                },
            );
            k = k + 1;
        }
        Ok(headers)
    }
}

} // verus!
