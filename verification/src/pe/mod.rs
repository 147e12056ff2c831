//! Whole-file view of a PE binary, with mutation support.
//!
//! [`PE`] owns the raw byte buffer together with the decoded header and
//! section table.  Beyond parsing, it can recompute the optional header's
//! checksum and inject a whole new section: synthesize the 40-byte header
//! under the file's alignment rules, splice header and payload into the
//! buffer, and fix up the image size, section count and checksum in place.

pub mod header;
pub mod section;

use vstd::arithmetic::div_mod::{
    lemma_add_mod_noop_right, lemma_fundamental_div_mod, lemma_small_mod,
};
use vstd::arithmetic::mul::lemma_mul_is_commutative;
use vstd::prelude::*;
use vstd::utf8::encode_utf8;

use crate::errors::FileParseError;
use crate::field::Field;
use header::{
    opt_off, pe_header_matches, pe_magic_ok, pe_off, pe_opt_magic_ok, Architecture, ImageBase,
    PEType, PeHeader,
};
use section::{pe_section_matches, pe_section_wf, PeSection};

use crate::utils::{
    decode_utf8_lossy, entry_base, le_value, lemma_le_digits_window, lossy_decode, push_le,
    read_u16_at, read_u32_at, read_u64_at, span_fits, word_at,
};

verus! {

/// A parsed PE file: the raw bytes plus every decoded structure.
pub struct PE {
    pub buffer: Vec<u8>,
    pub header: PeHeader,
    pub sections: Vec<PeSection>,
}

/// The offset of the section table: right after the optional header,
/// whose declared size the file header carries.
pub open spec fn pe_sections_off(b: Seq<u8>) -> int {
    opt_off(b) + word_at(b, pe_off(b) + 20, 2, false)
}

/// The declared number of sections.
pub open spec fn pe_nsections(b: Seq<u8>) -> int {
    word_at(b, pe_off(b) + 6, 2, false)
}

/// Whether every 40-byte record of the section table lies inside the
/// buffer.
pub open spec fn pe_sections_ok(b: Seq<u8>) -> bool {
    forall|k: int|
        0 <= k < pe_nsections(b) ==> #[trigger] entry_base(pe_sections_off(b), 40, k) + 40
            <= b.len()
}

/// Whether `b` parses as a PE file: the `MZ` signature, every header field
/// in bounds, a known optional-header magic, and the section table in
/// bounds.
pub open spec fn pe_parse_ok(b: Seq<u8>) -> bool {
    &&& pe_magic_ok(b)
    &&& pe_off(b) + 96 <= b.len()
    &&& pe_opt_magic_ok(b)
    &&& pe_sections_ok(b)
}

/// Whether `pe` is exactly what parsing `b` yields: the buffer kept
/// verbatim, the header decoded at its pointed-to offset, and each section
/// record decoded in order.
pub open spec fn pe_matches(pe: PE, b: Seq<u8>) -> bool {
    &&& pe.buffer@ == b
    &&& pe_header_matches(pe.header, b)
    &&& pe.sections@.len() == pe_nsections(b)
    &&& forall|k: int|
        0 <= k < pe_nsections(b) ==> pe_section_matches(
            pe.sections@[k],
            b,
            #[trigger] entry_base(pe_sections_off(b), 40, k),
        )
}

/// `x` rounded up to the next multiple of `a`.
pub open spec fn round_up(x: int, a: int) -> int {
    ((x + a - 1) / a) * a
}

/// Whether `a` is a positive power of two.
pub open spec fn is_power_of_two(a: int) -> bool
    decreases a,
{
    if a <= 0 {
        false
    } else if a == 1 {
        true
    } else {
        a % 2 == 0 && is_power_of_two(a / 2)
    }
}

/// A power of two is positive.
pub proof fn lemma_pow2_positive(a: int)
    ensures
        is_power_of_two(a) ==> a >= 1,
{
}

/// The UTF-8 encoding of `name` cut or zero-padded to exactly 8 bytes, as
/// a PE section header stores it.
pub open spec fn name_bytes8(name: Seq<char>) -> Seq<u8> {
    let bs = encode_utf8(name);
    if bs.len() >= 8 {
        bs.subrange(0, 8)
    } else {
        bs + Seq::new((8 - bs.len()) as nat, |i: int| 0u8)
    }
}

/// What a caller must establish before injecting `new_section` with
/// payload `shellcode`: a well-formed file, the new header slot inside the
/// buffer, the raw data placed after it, the mutable header fields before
/// it and pairwise disjoint, an even checksum offset, and room in the
/// section counter and image-size arithmetic.
pub open spec fn add_section_pre(pe: PE, new_section: PeSection, shellcode: Seq<u8>) -> bool {
    let len = pe.buffer@.len() as int;
    let no = new_section.name.offset as int;
    let rp = new_section.pointer_to_raw_data.value as int;
    let rs = new_section.size_of_raw_data.value as int;
    &&& pe.wf()
    &&& pe_section_wf(new_section, len)
    &&& rp >= no + 40
    &&& rp + rs <= usize::MAX
    &&& shellcode.len() <= rs
    &&& pe.header.size_of_image.offset + 4 <= no
    &&& pe.header.number_of_sections.offset + 2 <= no
    &&& pe.header.checksum.offset + 4 <= no
    &&& pe.header.checksum.offset % 2 == 0
    &&& pe.header.number_of_sections.value < 0xFFFF
    &&& new_section.virtual_address.value + new_section.virtual_size.value <= u32::MAX
    &&& (pe.header.size_of_image.offset + 4 <= pe.header.number_of_sections.offset
        || pe.header.number_of_sections.offset + 2 <= pe.header.size_of_image.offset)
    &&& (pe.header.size_of_image.offset + 4 <= pe.header.checksum.offset
        || pe.header.checksum.offset + 4 <= pe.header.size_of_image.offset)
    &&& (pe.header.number_of_sections.offset + 2 <= pe.header.checksum.offset
        || pe.header.checksum.offset + 4 <= pe.header.number_of_sections.offset)
}

/// What injecting `new_section` with payload `shellcode` achieves: the
/// buffer grows exactly to hold the raw data, the 40-byte header and the
/// payload sit at their places, the image size becomes the new section's
/// virtual end, the section counter went up by one, the stored checksum is
/// the checksum of the resulting bytes, and every other byte is the old
/// one (or zero where the buffer grew).
pub open spec fn add_section_post(
    old_pe: PE,
    new_pe: PE,
    new_section: PeSection,
    shellcode: Seq<u8>,
) -> bool {
    let old_b = old_pe.buffer@;
    let b = new_pe.buffer@;
    let no = new_section.name.offset as int;
    let rp = new_section.pointer_to_raw_data.value as int;
    let rs = new_section.size_of_raw_data.value as int;
    let soi = old_pe.header.size_of_image.offset as int;
    let nso = old_pe.header.number_of_sections.offset as int;
    let cko = old_pe.header.checksum.offset as int;
    &&& b.len() == (if old_b.len() < rp + rs {
        rp + rs
    } else {
        old_b.len() as int
    })
    &&& b.subrange(no, no + 8) == name_bytes8(new_section.name.value@)
    &&& le_value(b.subrange(no + 8, no + 12)) == new_section.virtual_size.value
    &&& le_value(b.subrange(no + 12, no + 16)) == new_section.virtual_address.value
    &&& le_value(b.subrange(no + 16, no + 20)) == new_section.size_of_raw_data.value
    &&& le_value(b.subrange(no + 20, no + 24)) == new_section.pointer_to_raw_data.value
    &&& le_value(b.subrange(no + 24, no + 28)) == new_section.pointer_to_relocations.value
    &&& le_value(b.subrange(no + 28, no + 32)) == new_section.pointer_to_linenumbers.value
    &&& le_value(b.subrange(no + 32, no + 34)) == new_section.number_of_relocations.value
    &&& le_value(b.subrange(no + 34, no + 36)) == new_section.number_of_linenumbers.value
    &&& le_value(b.subrange(no + 36, no + 40)) == new_section.characteristics.value
    &&& b.subrange(rp, rp + shellcode.len() as int) == shellcode
    &&& new_pe.header.size_of_image.value == new_section.virtual_address.value
        + new_section.virtual_size.value
    &&& le_value(b.subrange(soi, soi + 4)) == new_pe.header.size_of_image.value
    &&& new_pe.header.number_of_sections.value == old_pe.header.number_of_sections.value + 1
    &&& le_value(b.subrange(nso, nso + 2)) == new_pe.header.number_of_sections.value
    &&& new_pe.header.checksum.value == PE::pe_checksum(b, cko, 4)
    &&& le_value(b.subrange(cko, cko + 4)) == new_pe.header.checksum.value
    &&& new_pe.sections@ == old_pe.sections@.push(new_section)
    &&& new_pe.header.size_of_image.offset == soi
    &&& new_pe.header.size_of_image.size == 4
    &&& new_pe.header.number_of_sections.offset == nso
    &&& new_pe.header.number_of_sections.size == 2
    &&& new_pe.header.checksum.offset == cko
    &&& new_pe.header.checksum.size == 4
    &&& new_pe.header.entry_point == old_pe.header.entry_point
    &&& new_pe.header.architecture == old_pe.header.architecture
    &&& new_pe.header.section_alignment == old_pe.header.section_alignment
    &&& new_pe.header.file_alignment == old_pe.header.file_alignment
    &&& new_pe.header.size_of_headers == old_pe.header.size_of_headers
    &&& new_pe.header.base_of_code == old_pe.header.base_of_code
    &&& new_pe.header.base_of_data == old_pe.header.base_of_data
    &&& new_pe.header.image_base == old_pe.header.image_base
    &&& new_pe.header.subsystem == old_pe.header.subsystem
    &&& new_pe.header.dll_characteristics == old_pe.header.dll_characteristics
    &&& new_pe.header.pe_type == old_pe.header.pe_type
    &&& forall|i: int|
        0 <= i < b.len() && !(no <= i < no + 40) && !(rp <= i < rp + shellcode.len()) && !(soi <= i
            < soi + 4) && !(nso <= i < nso + 2) && !(cko <= i < cko + 4) ==> #[trigger] b[i] == (
        if i < old_b.len() {
            old_b[i]
        } else {
            0u8
        })
}

/// The buffer relation that splicing a new section establishes: grown to
/// hold the raw data, the 40 header bytes at the header slot, the payload
/// at the raw-data pointer, everything else kept (or zero where grown).
pub open spec fn splice_post(
    old_b: Seq<u8>,
    b: Seq<u8>,
    new_section: PeSection,
    shellcode: Seq<u8>,
) -> bool {
    let no = new_section.name.offset as int;
    let rp = new_section.pointer_to_raw_data.value as int;
    let rs = new_section.size_of_raw_data.value as int;
    &&& b.len() == (if old_b.len() < rp + rs {
        rp + rs
    } else {
        old_b.len() as int
    })
    &&& b.subrange(no, no + 8) == name_bytes8(new_section.name.value@)
    &&& le_value(b.subrange(no + 8, no + 12)) == new_section.virtual_size.value
    &&& le_value(b.subrange(no + 12, no + 16)) == new_section.virtual_address.value
    &&& le_value(b.subrange(no + 16, no + 20)) == new_section.size_of_raw_data.value
    &&& le_value(b.subrange(no + 20, no + 24)) == new_section.pointer_to_raw_data.value
    &&& le_value(b.subrange(no + 24, no + 28)) == new_section.pointer_to_relocations.value
    &&& le_value(b.subrange(no + 28, no + 32)) == new_section.pointer_to_linenumbers.value
    &&& le_value(b.subrange(no + 32, no + 34)) == new_section.number_of_relocations.value
    &&& le_value(b.subrange(no + 34, no + 36)) == new_section.number_of_linenumbers.value
    &&& le_value(b.subrange(no + 36, no + 40)) == new_section.characteristics.value
    &&& b.subrange(rp, rp + shellcode.len() as int) == shellcode
    &&& forall|i: int|
        0 <= i < b.len() && !(no <= i < no + 40) && !(rp <= i < rp + shellcode.len())
            ==> #[trigger] b[i] == (if i < old_b.len() {
            old_b[i]
        } else {
            0u8
        })
}

/// Two sequences that agree pointwise on a window have equal subranges
/// there.
proof fn lemma_window_eq(a: Seq<u8>, b: Seq<u8>, i: int, j: int)
    requires
        0 <= i <= j,
        j <= a.len(),
        j <= b.len(),
        forall|k: int| i <= k < j ==> #[trigger] a[k] == b[k],
    ensures
        a.subrange(i, j) == b.subrange(i, j),
{
    assert(a.subrange(i, j) =~= b.subrange(i, j));
}

/// Overwrites `buffer[offset .. offset + data.len()]` with `data`; no
/// other byte changes.
fn overwrite_bytes(buffer: &mut Vec<u8>, offset: usize, data: &Vec<u8>)
    requires
        offset + data@.len() <= old(buffer)@.len(),
    ensures
        final(buffer)@.len() == old(buffer)@.len(),
        forall|k: int| 0 <= k < data@.len() ==> #[trigger] final(buffer)@[offset + k] == data@[k],
        forall|i: int|
            0 <= i < old(buffer)@.len() && !(offset <= i < offset + data@.len())
                ==> #[trigger] final(buffer)@[i] == old(buffer)@[i],
{
    let n: usize = data.len();
    let blen: usize = buffer.len();
    let mut k: usize = 0;
    while k < n
        invariant
            k <= n,
            n == data@.len(),
            offset + n <= blen,
            blen == buffer@.len(),
            forall|t: int| 0 <= t < k ==> #[trigger] buffer@[offset + t] == data@[t],
            forall|i: int|
                0 <= i < blen && !(offset <= i < offset + k) ==> #[trigger] buffer@[i] == old(
                    buffer,
                )@[i],
        decreases n - k,
    {
        buffer.set(offset + k, data[k]);
        k = k + 1;
    }
}

/// Grows `buffer` with zero bytes until it is at least `target` long.
fn grow_to(buffer: &mut Vec<u8>, target: usize)
    ensures
        final(buffer)@.len() == (if old(buffer)@.len() < target {
            target as int
        } else {
            old(buffer)@.len() as int
        }),
        forall|i: int|
            0 <= i < old(buffer)@.len() ==> #[trigger] final(buffer)@[i] == old(buffer)@[i],
        forall|i: int|
            old(buffer)@.len() <= i < final(buffer)@.len() ==> #[trigger] final(buffer)@[i] == 0u8,
{
    while buffer.len() < target
        invariant
            old(buffer)@.len() <= buffer@.len(),
            buffer@.len() <= (if old(buffer)@.len() < target {
                target as int
            } else {
                old(buffer)@.len() as int
            }),
            forall|i: int|
                0 <= i < old(buffer)@.len() ==> #[trigger] buffer@[i] == old(buffer)@[i],
            forall|i: int|
                old(buffer)@.len() <= i < buffer@.len() ==> #[trigger] buffer@[i] == 0u8,
        decreases target - buffer.len(),
    {
        buffer.push(0u8);
    }
}

/// Builds the 40 bytes of a section header record: the name cut or padded
/// to 8 bytes, then every scalar in little-endian order.
fn build_section_header_bytes(s: &PeSection) -> (v: Vec<u8>)
    ensures
        v@.len() == 40,
        v@.subrange(0, 8) == name_bytes8(s.name.value@),
        le_value(v@.subrange(8, 12)) == s.virtual_size.value,
        le_value(v@.subrange(12, 16)) == s.virtual_address.value,
        le_value(v@.subrange(16, 20)) == s.size_of_raw_data.value,
        le_value(v@.subrange(20, 24)) == s.pointer_to_raw_data.value,
        le_value(v@.subrange(24, 28)) == s.pointer_to_relocations.value,
        le_value(v@.subrange(28, 32)) == s.pointer_to_linenumbers.value,
        le_value(v@.subrange(32, 34)) == s.number_of_relocations.value,
        le_value(v@.subrange(34, 36)) == s.number_of_linenumbers.value,
        le_value(v@.subrange(36, 40)) == s.characteristics.value,
{
    proof {
        crate::utils::lemma_pow256_values();
    }
    let raw_name: &[u8] = s.name.value.as_str().as_bytes();
    let name_len: usize = raw_name.len();
    let mut header_bytes: Vec<u8> = Vec::new();
    let mut j: usize = 0;
    while j < 8
        invariant
            j <= 8,
            header_bytes@.len() == j,
            name_len == raw_name@.len(),
            raw_name@ == encode_utf8(s.name.value@),
            forall|t: int|
                0 <= t < j ==> #[trigger] header_bytes@[t] == name_bytes8(s.name.value@)[t],
        decreases 8 - j,
    {
        let byte: u8 = if j < name_len {
            raw_name[j]
        } else {
            0u8
        };
        header_bytes.push(byte);
        j = j + 1;
    }
    push_le(&mut header_bytes, 4, s.virtual_size.value as u64);
    push_le(&mut header_bytes, 4, s.virtual_address.value as u64);
    push_le(&mut header_bytes, 4, s.size_of_raw_data.value as u64);
    push_le(&mut header_bytes, 4, s.pointer_to_raw_data.value as u64);
    push_le(&mut header_bytes, 4, s.pointer_to_relocations.value as u64);
    push_le(&mut header_bytes, 4, s.pointer_to_linenumbers.value as u64);
    push_le(&mut header_bytes, 2, s.number_of_relocations.value as u64);
    push_le(&mut header_bytes, 2, s.number_of_linenumbers.value as u64);
    push_le(&mut header_bytes, 4, s.characteristics.value as u64);
    proof {
        let hb = header_bytes@;
        assert(hb.subrange(0, 8) =~= name_bytes8(s.name.value@));
        lemma_le_digits_window(hb, 8, 4, s.virtual_size.value as int);
        lemma_le_digits_window(hb, 12, 4, s.virtual_address.value as int);
        lemma_le_digits_window(hb, 16, 4, s.size_of_raw_data.value as int);
        lemma_le_digits_window(hb, 20, 4, s.pointer_to_raw_data.value as int);
        lemma_le_digits_window(hb, 24, 4, s.pointer_to_relocations.value as int);
        lemma_le_digits_window(hb, 28, 4, s.pointer_to_linenumbers.value as int);
        lemma_le_digits_window(hb, 32, 2, s.number_of_relocations.value as int);
        lemma_le_digits_window(hb, 34, 2, s.number_of_linenumbers.value as int);
        lemma_le_digits_window(hb, 36, 4, s.characteristics.value as int);
    }
    header_bytes
}

/// Grows the buffer to hold the new section's raw data, then splices in
/// the 40-byte header record and the payload.
#[verifier::rlimit(100)]
fn splice_section(buffer: &mut Vec<u8>, new_section: &PeSection, shellcode: &Vec<u8>)
    requires
        pe_section_wf(*new_section, old(buffer)@.len() as int),
        new_section.pointer_to_raw_data.value >= new_section.name.offset + 40,
        new_section.pointer_to_raw_data.value + new_section.size_of_raw_data.value <= usize::MAX,
        shellcode@.len() <= new_section.size_of_raw_data.value,
    ensures
        splice_post(old(buffer)@, final(buffer)@, *new_section, shellcode@),
{
    let rp32: u32 = new_section.pointer_to_raw_data.value;
    let rs32: u32 = new_section.size_of_raw_data.value;
    let no: usize = new_section.name.offset;
    let target64: u64 = rp32 as u64 + rs32 as u64;
    let target: usize = target64 as usize;

    let header_bytes: Vec<u8> = build_section_header_bytes(new_section);
    let ghost hb = header_bytes@;

    grow_to(buffer, target);
    let ghost b0 = buffer@;

    overwrite_bytes(buffer, no, &header_bytes);
    let ghost b1 = buffer@;

    let rp: usize = rp32 as usize;
    overwrite_bytes(buffer, rp, shellcode);
    proof {
        let nn = no as int;
        let rr = rp as int;
        let fin = buffer@;
        assert forall|i: int| nn <= i < nn + 40 implies fin[i] == b1[i] by {}
        lemma_window_eq(fin, b1, nn, nn + 40);
        assert forall|k: int| 0 <= k < 40 implies b1[nn + k] == hb[k] by {}
        assert(b1.subrange(nn, nn + 40) =~= hb);
        assert(fin.subrange(nn, nn + 8) =~= hb.subrange(0, 8));
        assert(fin.subrange(nn + 8, nn + 12) =~= hb.subrange(8, 12));
        assert(fin.subrange(nn + 12, nn + 16) =~= hb.subrange(12, 16));
        assert(fin.subrange(nn + 16, nn + 20) =~= hb.subrange(16, 20));
        assert(fin.subrange(nn + 20, nn + 24) =~= hb.subrange(20, 24));
        assert(fin.subrange(nn + 24, nn + 28) =~= hb.subrange(24, 28));
        assert(fin.subrange(nn + 28, nn + 32) =~= hb.subrange(28, 32));
        assert(fin.subrange(nn + 32, nn + 34) =~= hb.subrange(32, 34));
        assert(fin.subrange(nn + 34, nn + 36) =~= hb.subrange(34, 36));
        assert(fin.subrange(nn + 36, nn + 40) =~= hb.subrange(36, 40));
        assert forall|k: int| 0 <= k < shellcode@.len() implies fin[rr + k] == shellcode@[k] by {}
        assert(fin.subrange(rr, rr + shellcode@.len()) =~= shellcode@);
    }
}

/// Chains the splice and the three in-place field updates into the
/// overall contract of adding a section, and shows well-formedness is
/// kept.
#[verifier::rlimit(100)]
proof fn lemma_add_section_steps(
    old_pe: PE,
    new_pe: PE,
    new_section: PeSection,
    shellcode: Seq<u8>,
    b1: Seq<u8>,
    b2: Seq<u8>,
    b3: Seq<u8>,
)
    requires
        add_section_pre(old_pe, new_section, shellcode),
        splice_post(old_pe.buffer@, b1, new_section, shellcode),
        b2.len() == b1.len(),
        new_pe.header.size_of_image.offset == old_pe.header.size_of_image.offset,
        new_pe.header.size_of_image.size == 4,
        new_pe.header.size_of_image.value == new_section.virtual_address.value
            + new_section.virtual_size.value,
        le_value(
            b2.subrange(
                old_pe.header.size_of_image.offset as int,
                old_pe.header.size_of_image.offset + 4,
            ),
        ) == new_pe.header.size_of_image.value,
        forall|i: int|
            0 <= i < b1.len() && !(old_pe.header.size_of_image.offset <= i
                < old_pe.header.size_of_image.offset + 4) ==> #[trigger] b2[i] == b1[i],
        b3.len() == b2.len(),
        new_pe.header.number_of_sections.offset == old_pe.header.number_of_sections.offset,
        new_pe.header.number_of_sections.size == 2,
        new_pe.header.number_of_sections.value == old_pe.header.number_of_sections.value + 1,
        le_value(
            b3.subrange(
                old_pe.header.number_of_sections.offset as int,
                old_pe.header.number_of_sections.offset + 2,
            ),
        ) == new_pe.header.number_of_sections.value,
        forall|i: int|
            0 <= i < b2.len() && !(old_pe.header.number_of_sections.offset <= i
                < old_pe.header.number_of_sections.offset + 2) ==> #[trigger] b3[i] == b2[i],
        new_pe.buffer@.len() == b3.len(),
        new_pe.header.checksum.offset == old_pe.header.checksum.offset,
        new_pe.header.checksum.size == 4,
        new_pe.header.checksum.value == PE::pe_checksum(
            b3,
            old_pe.header.checksum.offset as int,
            4,
        ),
        le_value(
            new_pe.buffer@.subrange(
                old_pe.header.checksum.offset as int,
                old_pe.header.checksum.offset + 4,
            ),
        ) == new_pe.header.checksum.value,
        forall|i: int|
            0 <= i < b3.len() && !(old_pe.header.checksum.offset <= i
                < old_pe.header.checksum.offset + 4) ==> #[trigger] new_pe.buffer@[i] == b3[i],
        new_pe.sections@ == old_pe.sections@.push(new_section),
        new_pe.header.entry_point == old_pe.header.entry_point,
        new_pe.header.architecture == old_pe.header.architecture,
        new_pe.header.section_alignment == old_pe.header.section_alignment,
        new_pe.header.file_alignment == old_pe.header.file_alignment,
        new_pe.header.size_of_headers == old_pe.header.size_of_headers,
        new_pe.header.base_of_code == old_pe.header.base_of_code,
        new_pe.header.base_of_data == old_pe.header.base_of_data,
        new_pe.header.image_base == old_pe.header.image_base,
        new_pe.header.subsystem == old_pe.header.subsystem,
        new_pe.header.dll_characteristics == old_pe.header.dll_characteristics,
        new_pe.header.pe_type == old_pe.header.pe_type,
    ensures
        add_section_post(old_pe, new_pe, new_section, shellcode),
        new_pe.wf(),
{
    let nn = new_section.name.offset as int;
    let rr = new_section.pointer_to_raw_data.value as int;
    let old_len = old_pe.buffer@.len() as int;
    let fin = new_pe.buffer@;
    lemma_checksum_ignores_own_field(b3, fin, old_pe.header.checksum.offset as int, 4);
    assert forall|i: int| nn <= i < nn + 40 implies fin[i] == b1[i] by {
        assert(b2[i] == b1[i]);
        assert(b3[i] == b2[i]);
        assert(fin[i] == b3[i]);
    }
    assert forall|i: int| rr <= i < rr + shellcode.len() implies fin[i] == b1[i] by {
        assert(b2[i] == b1[i]);
        assert(b3[i] == b2[i]);
        assert(fin[i] == b3[i]);
    }
    lemma_window_eq(fin, b1, nn, nn + 8);
    lemma_window_eq(fin, b1, nn + 8, nn + 12);
    lemma_window_eq(fin, b1, nn + 12, nn + 16);
    lemma_window_eq(fin, b1, nn + 16, nn + 20);
    lemma_window_eq(fin, b1, nn + 20, nn + 24);
    lemma_window_eq(fin, b1, nn + 24, nn + 28);
    lemma_window_eq(fin, b1, nn + 28, nn + 32);
    lemma_window_eq(fin, b1, nn + 32, nn + 34);
    lemma_window_eq(fin, b1, nn + 34, nn + 36);
    lemma_window_eq(fin, b1, nn + 36, nn + 40);
    lemma_window_eq(fin, b1, rr, rr + shellcode.len() as int);
    let soi = old_pe.header.size_of_image.offset as int;
    let nso = old_pe.header.number_of_sections.offset as int;
    assert forall|i: int| soi <= i < soi + 4 implies fin[i] == b2[i] by {
        assert(b3[i] == b2[i]);
        assert(fin[i] == b3[i]);
    }
    lemma_window_eq(fin, b2, soi, soi + 4);
    assert forall|i: int| nso <= i < nso + 2 implies fin[i] == b3[i] by {
        assert(fin[i] == b3[i]);
    }
    lemma_window_eq(fin, b3, nso, nso + 2);
    assert forall|i: int|
        0 <= i < fin.len() && !(nn <= i < nn + 40) && !(rr <= i < rr + shellcode.len()) && !(
        old_pe.header.size_of_image.offset <= i < old_pe.header.size_of_image.offset + 4) && !(
        old_pe.header.number_of_sections.offset <= i < old_pe.header.number_of_sections.offset
            + 2) && !(old_pe.header.checksum.offset <= i < old_pe.header.checksum.offset
            + 4) implies fin[i] == (if i < old_len {
        old_pe.buffer@[i]
    } else {
        0u8
    }) by {
        assert(b2[i] == b1[i]);
        assert(b3[i] == b2[i]);
        assert(fin[i] == b3[i]);
    }
    lemma_sections_stay_wf(old_pe, new_pe, new_section);
}

/// Every old section stays well formed when the buffer only grows, and
/// the appended section was well formed against the old length already.
proof fn lemma_sections_stay_wf(old_pe: PE, new_pe: PE, new_section: PeSection)
    requires
        old_pe.wf(),
        pe_section_wf(new_section, old_pe.buffer@.len() as int),
        new_pe.sections@ == old_pe.sections@.push(new_section),
        new_pe.buffer@.len() >= old_pe.buffer@.len(),
    ensures
        forall|k: int|
            0 <= k < new_pe.sections@.len() ==> pe_section_wf(
                #[trigger] new_pe.sections@[k],
                new_pe.buffer@.len() as int,
            ),
{
    let old_len = old_pe.buffer@.len() as int;
    assert forall|k: int| 0 <= k < new_pe.sections@.len() implies pe_section_wf(
        #[trigger] new_pe.sections@[k],
        new_pe.buffer@.len() as int,
    ) by {
        if k < old_pe.sections@.len() {
            assert(old_pe.sections@[k] == new_pe.sections@[k]);
            assert(pe_section_wf(old_pe.sections@[k], old_len));
        } else {
            assert(new_pe.sections@[k] == new_section);
        }
    }
}

proof fn lemma_words_eq_after(b1: Seq<u8>, b2: Seq<u8>, o: int, s: int, i: int)
    requires
        b1.len() == b2.len(),
        forall|j: int| 0 <= j < b1.len() && !(o <= j < o + s) ==> b1[j] == b2[j],
        s > 0,
        o >= 0,
        i >= o + s,
    ensures
        PE::checksum_words(b1, o, s, i) == PE::checksum_words(b2, o, s, i),
    decreases
            (if i <= b1.len() {
                b1.len() - i
            } else {
                0
            }),
{
    if 0 <= i < b1.len() {
        if i + 1 < b1.len() {
            lemma_words_eq_after(b1, b2, o, s, i + 2);
        }
    }
}

proof fn lemma_words_eq_before(b1: Seq<u8>, b2: Seq<u8>, o: int, s: int, i: int)
    requires
        b1.len() == b2.len(),
        forall|j: int| 0 <= j < b1.len() && !(o <= j < o + s) ==> b1[j] == b2[j],
        s > 0,
        0 <= i <= o,
        i % 2 == 0,
        o % 2 == 0,
        o + s <= b1.len(),
    ensures
        PE::checksum_words(b1, o, s, i) == PE::checksum_words(b2, o, s, i),
    decreases o - i,
{
    if i == o {
        lemma_words_eq_after(b1, b2, o, s, i + s);
    } else {
        lemma_words_eq_before(b1, b2, o, s, i + 2);
    }
}

/// Round-trip identity: parsing never alters the bytes, so a parsed file
/// written back verbatim reproduces its input exactly.
pub proof fn lemma_pe_parse_preserves_bytes(pe: PE, b: Seq<u8>)
    requires
        pe_matches(pe, b),
    ensures
        pe.buffer@ == b,
{
}

/// After a section is added, the checksum stored in the header is exactly
/// what recomputing the checksum over the resulting bytes returns.
pub proof fn lemma_checksum_consistent_after_add(
    old_pe: PE,
    new_pe: PE,
    new_section: PeSection,
    shellcode: Seq<u8>,
)
    requires
        add_section_post(old_pe, new_pe, new_section, shellcode),
    ensures
        new_pe.header.checksum.value == PE::pe_checksum(
            new_pe.buffer@,
            new_pe.header.checksum.offset as int,
            new_pe.header.checksum.size as int,
        ),
{
}

/// Two equally long buffers that differ only inside the stored checksum
/// field have the same PE checksum: the sum skips exactly those bytes.
pub proof fn lemma_checksum_ignores_own_field(b1: Seq<u8>, b2: Seq<u8>, o: int, s: int)
    requires
        b1.len() == b2.len(),
        forall|j: int| 0 <= j < b1.len() && !(o <= j < o + s) ==> b1[j] == b2[j],
        s > 0,
        0 <= o,
        o % 2 == 0,
        o + s <= b1.len(),
    ensures
        PE::pe_checksum(b1, o, s) == PE::pe_checksum(b2, o, s),
{
    lemma_words_eq_before(b1, b2, o, s, 0);
}

/// Rounds `x` up to the next multiple of `a`.
fn round_up_u32(x: u64, a: u32) -> (r: u32)
    requires
        a > 0,
        x + a <= u64::MAX,
        round_up(x as int, a as int) <= u32::MAX,
    ensures
        r == round_up(x as int, a as int),
{
    let a64: u64 = a as u64;
    let q: u64 = (x + a64 - 1) / a64;
    proof {
        lemma_fundamental_div_mod((x + a64 - 1) as int, a64 as int);
        lemma_mul_is_commutative(a64 as int, q as int);
        vstd::arithmetic::div_mod::lemma_mod_bound((x + a64 - 1) as int, a64 as int);
    }
    let r64: u64 = q * a64;
    r64 as u32
}

impl PE {
    /// Whether the decoded structures are laid out inside the buffer: each
    /// mutable header field within bounds at its decoded width, and every
    /// section header in its fixed 40-byte layout.
    pub open spec fn wf(self) -> bool {
        let len = self.buffer@.len();
        &&& self.header.entry_point.size == 4
        &&& self.header.entry_point.offset + 4 <= len
        &&& self.header.size_of_image.size == 4
        &&& self.header.size_of_image.offset + 4 <= len
        &&& self.header.number_of_sections.size == 2
        &&& self.header.number_of_sections.offset + 2 <= len
        &&& self.header.checksum.size == 4
        &&& self.header.checksum.offset + 4 <= len
        &&& forall|k: int|
            0 <= k < self.sections@.len() ==> pe_section_wf(
                #[trigger] self.sections@[k],
                len as int,
            )
    }

    /// Parses a whole PE file from a byte buffer.
    ///
    /// Fails with `InvalidFileFormat` when the `MZ` signature or the
    /// optional-header magic is wrong, and with `BufferOverflow` when a
    /// header field or a section record runs past the end of the buffer;
    /// on success the returned value holds the buffer unchanged together
    /// with every decoded structure.
    pub fn from_buffer(buffer: Vec<u8>) -> (r: Result<PE, FileParseError>)
        ensures
            r is Ok <==> pe_parse_ok(buffer@),
            r matches Ok(pe) ==> pe_matches(pe, buffer@) && pe.wf(),
            !pe_magic_ok(buffer@) ==> (r matches Err(e) && e is InvalidFileFormat),
            pe_magic_ok(buffer@) && pe_off(buffer@) + 92 > buffer@.len() ==> (r matches Err(e)
                && e is BufferOverflow),
            pe_magic_ok(buffer@) && pe_off(buffer@) + 92 <= buffer@.len() && !pe_opt_magic_ok(
                buffer@,
            ) ==> (r matches Err(e) && e is InvalidFileFormat),
            pe_magic_ok(buffer@) && pe_off(buffer@) + 92 <= buffer@.len() && pe_opt_magic_ok(
                buffer@,
            ) && !(pe_off(buffer@) + 96 <= buffer@.len() && pe_sections_ok(buffer@)) ==> (r matches
                Err(e) && e is BufferOverflow),
    {
        let len: usize = buffer.len();
        if len < 64 || buffer[0] != 0x4D || buffer[1] != 0x5A {
            return Err(FileParseError::InvalidFileFormat);
        }
        let po32: u32 = read_u32_at(buffer.as_slice(), 0x3C, false);
        let po64: u64 = po32 as u64;
        if !span_fits(len, po64, 92) {
            return Err(FileParseError::BufferOverflow);
        }
        let po: usize = po32 as usize;
        let oo: usize = po + 24;
        let magic: u16 = read_u16_at(buffer.as_slice(), oo, false);
        let pe_type: PEType = if magic == 0x10B {
            PEType::PE32
        } else if magic == 0x20B {
            PEType::PE32Plus
        } else {
            return Err(FileParseError::InvalidFileFormat);
        };
        if !span_fits(len, po64, 96) {
            return Err(FileParseError::BufferOverflow);
        }

        let number_of_sections: u16 = read_u16_at(buffer.as_slice(), po + 6, false);
        let opt_header_size: u16 = read_u16_at(buffer.as_slice(), po + 20, false);

        let image_base: ImageBase = match pe_type {
            PEType::PE32 => ImageBase::Base32(read_u32_at(buffer.as_slice(), oo + 28, false)),
            PEType::PE32Plus => ImageBase::Base64(read_u64_at(buffer.as_slice(), oo + 24, false)),
        };

        let header = PeHeader {
            architecture: Field::new(
                Architecture::from_u16(read_u16_at(buffer.as_slice(), po + 4, false)).to_string(),
                po + 4,
                2,
            ),
            entry_point: Field::new(read_u32_at(buffer.as_slice(), po + 40, false), po + 40, 4),
            size_of_image: Field::new(read_u32_at(buffer.as_slice(), po + 80, false), po + 80, 4),
            number_of_sections: Field::new(number_of_sections, po + 6, 2),
            checksum: Field::new(read_u32_at(buffer.as_slice(), po + 88, false), po + 88, 4),
            section_alignment: Field::new(
                read_u32_at(buffer.as_slice(), oo + 32, false),
                oo + 32,
                4,
            ),
            file_alignment: Field::new(read_u32_at(buffer.as_slice(), oo + 36, false), oo + 36, 4),
            size_of_headers: Field::new(read_u32_at(buffer.as_slice(), oo + 60, false), oo + 60, 4),
            base_of_code: Field::new(read_u32_at(buffer.as_slice(), oo + 20, false), oo + 20, 4),
            base_of_data: Field::new(read_u32_at(buffer.as_slice(), oo + 24, false), oo + 24, 4),
            image_base: Field::new(image_base, oo + 28, 8),
            subsystem: Field::new(read_u16_at(buffer.as_slice(), oo + 68, false), oo + 68, 2),
            dll_characteristics: Field::new(
                read_u16_at(buffer.as_slice(), oo + 70, false),
                oo + 70,
                2,
            ),
            pe_type,
        };

        let mut sections: Vec<PeSection> = Vec::new();
        let so_opt: Option<u64> = (po64 + 24).checked_add(opt_header_size as u64);
        let ghost so_int: int = pe_sections_off(buffer@);
        let mut k: u16 = 0;
        while k < number_of_sections
            invariant
                k <= number_of_sections,
                len == buffer@.len(),
                pe_magic_ok(buffer@),
                pe_off(buffer@) + 96 <= len,
                pe_opt_magic_ok(buffer@),
                so_int == pe_sections_off(buffer@),
                (so_opt matches Some(s) ==> s == so_int),
                (so_opt is None ==> so_int > u64::MAX),
                number_of_sections == pe_nsections(buffer@),
                sections@.len() == k,
                forall|j: int|
                    0 <= j < k ==> pe_section_matches(
                        sections@[j],
                        buffer@,
                        #[trigger] entry_base(so_int, 40, j),
                    ),
                forall|j: int| 0 <= j < k ==> #[trigger] entry_base(so_int, 40, j) + 40 <= len,
            decreases number_of_sections - k,
        {
            let so64: u64 = match so_opt {
                Some(s) => s,
                None => {
                    proof {
                        assert(entry_base(so_int, 40, k as int) >= so_int > u64::MAX >= len);
                    }
                    return Err(FileParseError::BufferOverflow);
                },
            };
            let base64: u64 = match so64.checked_add(40u64 * (k as u64)) {
                Some(b) => b,
                None => {
                    proof {
                        assert(entry_base(so_int, 40, k as int) + 40 > len);
                    }
                    return Err(FileParseError::BufferOverflow);
                },
            };
            if !span_fits(len, base64, 40) {
                proof {
                    assert(entry_base(so_int, 40, k as int) + 40 > len);
                }
                return Err(FileParseError::BufferOverflow);
            }
            let base: usize = base64 as usize;
            let s = match PeSection::parse_section(buffer.as_slice(), base) {
                Ok(s) => s,
                Err(e) => {
                    return Err(e);
                },
            };
            sections.push(s);
            k = k + 1;
        }

        let pe = PE { buffer, header, sections };
        proof {
            assert forall|j: int| 0 <= j < pe.sections@.len() implies pe_section_wf(
                #[trigger] pe.sections@[j],
                pe.buffer@.len() as int,
            ) by {
                assert(pe_section_matches(pe.sections@[j], pe.buffer@, entry_base(so_int, 40, j)));
            }
        }
        Ok(pe)
    }

    /// Synthesizes the header of a new section without adding it.
    ///
    /// The new section is placed right after the last one: its virtual
    /// address and raw-data pointer round the last section's ends up to
    /// the section and file alignment, and its header slot follows the
    /// last header record.  Fails with `InvalidFileFormat`, and only with
    /// it, exactly when the file has no sections to append after.
    pub fn generate_section_header(&self, name: &str, size: u32, characteristics: u32) -> (r:
        Result<PeSection, FileParseError>)
        requires
            self.wf(),
            is_power_of_two(self.header.section_alignment.value as int),
            is_power_of_two(self.header.file_alignment.value as int),
            round_up(size as int, self.header.section_alignment.value as int) <= u32::MAX,
            round_up(size as int, self.header.file_alignment.value as int) <= u32::MAX,
            self.sections@.len() > 0 ==> round_up(
                self.sections@.last().virtual_address.value
                    + self.sections@.last().virtual_size.value,
                self.header.section_alignment.value as int,
            ) <= u32::MAX,
            self.sections@.len() > 0 ==> round_up(
                self.sections@.last().pointer_to_raw_data.value
                    + self.sections@.last().size_of_raw_data.value,
                self.header.file_alignment.value as int,
            ) <= u32::MAX,
            self.sections@.len() > 0 ==> self.sections@.last().characteristics.offset
                + self.sections@.last().characteristics.size + 40 <= usize::MAX,
        ensures
            self.sections@.len() == 0 ==> (r matches Err(e) && e is InvalidFileFormat),
            self.sections@.len() > 0 ==> (r matches Ok(s) && ({
                let last = self.sections@.last();
                let no = last.characteristics.offset + last.characteristics.size;
                let sa = self.header.section_alignment.value as int;
                let fa = self.header.file_alignment.value as int;
                &&& s.name.value@ == lossy_decode(name_bytes8(name@))
                &&& s.name.offset == no
                &&& s.name.size == 8
                &&& s.virtual_size.value == round_up(size as int, sa)
                &&& s.virtual_size.offset == no + 8
                &&& s.virtual_size.size == 4
                &&& s.virtual_address.value == round_up(
                    last.virtual_address.value + last.virtual_size.value,
                    sa,
                )
                &&& s.virtual_address.offset == no + 12
                &&& s.virtual_address.size == 4
                &&& s.size_of_raw_data.value == round_up(size as int, fa)
                &&& s.size_of_raw_data.offset == no + 16
                &&& s.size_of_raw_data.size == 4
                &&& s.pointer_to_raw_data.value == round_up(
                    last.pointer_to_raw_data.value + last.size_of_raw_data.value,
                    fa,
                )
                &&& s.pointer_to_raw_data.offset == no + 20
                &&& s.pointer_to_raw_data.size == 4
                &&& s.pointer_to_relocations.value == 0
                &&& s.pointer_to_relocations.offset == no + 24
                &&& s.pointer_to_relocations.size == 4
                &&& s.pointer_to_linenumbers.value == 0
                &&& s.pointer_to_linenumbers.offset == no + 28
                &&& s.pointer_to_linenumbers.size == 4
                &&& s.number_of_relocations.value == 0
                &&& s.number_of_relocations.offset == no + 32
                &&& s.number_of_relocations.size == 2
                &&& s.number_of_linenumbers.value == 0
                &&& s.number_of_linenumbers.offset == no + 34
                &&& s.number_of_linenumbers.size == 2
                &&& s.characteristics.value == characteristics
                &&& s.characteristics.offset == no + 36
                &&& s.characteristics.size == 4
            })),
    {
        let file_alignment: u32 = self.header.file_alignment.value;
        let section_alignment: u32 = self.header.section_alignment.value;
        proof {
            lemma_pow2_positive(section_alignment as int);
            lemma_pow2_positive(file_alignment as int);
        }

        if self.sections.len() == 0 {
            return Err(FileParseError::InvalidFileFormat);
        }
        let last: &PeSection = &self.sections[self.sections.len() - 1];
        proof {
            assert(self.sections@[self.sections@.len() - 1] == self.sections@.last());
        }

        let new_section_offset: usize = last.characteristics.offset + last.characteristics.size;
        let new_section_rva: u32 = round_up_u32(
            last.virtual_address.value as u64 + last.virtual_size.value as u64,
            section_alignment,
        );
        let virtual_size: u32 = round_up_u32(size as u64, section_alignment);
        let size_of_raw_data: u32 = round_up_u32(size as u64, file_alignment);
        let raw_data_ptr: u32 = round_up_u32(
            last.pointer_to_raw_data.value as u64 + last.size_of_raw_data.value as u64,
            file_alignment,
        );

        let raw_name: &[u8] = name.as_bytes();
        let mut name_bytes: Vec<u8> = Vec::new();
        let mut j: usize = 0;
        while j < 8
            invariant
                j <= 8,
                name_bytes@.len() == j,
                raw_name@ == encode_utf8(name@),
                forall|t: int|
                    0 <= t < j ==> name_bytes@[t] == (if t < raw_name@.len() {
                        raw_name@[t]
                    } else {
                        0u8
                    }),
            decreases 8 - j,
        {
            let byte: u8 = if j < raw_name.len() {
                raw_name[j]
            } else {
                0u8
            };
            name_bytes.push(byte);
            j = j + 1;
        }
        proof {
            assert(name_bytes@ =~= name_bytes8(name@));
        }
        let decoded: String = decode_utf8_lossy(name_bytes.as_slice());

        Ok(PeSection {
            name: Field::new(decoded, new_section_offset, 8),
            virtual_size: Field::new(virtual_size, new_section_offset + 8, 4),
            virtual_address: Field::new(new_section_rva, new_section_offset + 12, 4),
            size_of_raw_data: Field::new(size_of_raw_data, new_section_offset + 16, 4),
            pointer_to_raw_data: Field::new(raw_data_ptr, new_section_offset + 20, 4),
            pointer_to_relocations: Field::new(0, new_section_offset + 24, 4),
            pointer_to_linenumbers: Field::new(0, new_section_offset + 28, 4),
            number_of_relocations: Field::new(0, new_section_offset + 32, 2),
            number_of_linenumbers: Field::new(0, new_section_offset + 34, 2),
            characteristics: Field::new(characteristics, new_section_offset + 36, 4),
        })
    }

    /// Adds a section to the file: splices the 40-byte header into the
    /// slot the section names, grows the buffer to hold the raw data,
    /// writes the payload, and fixes up the image size, section count and
    /// checksum in place.
    #[verifier::rlimit(100)]
    pub fn add_section(&mut self, new_section: PeSection, shellcode: Vec<u8>) -> (r: Result<
        (),
        FileParseError,
    >)
        requires
            add_section_pre(*old(self), new_section, shellcode@),
        ensures
            r is Ok,
            add_section_post(*old(self), *final(self), new_section, shellcode@),
            final(self).wf(),
    {
        proof {
            crate::utils::lemma_pow256_values();
        }
        splice_section(&mut self.buffer, &new_section, &shellcode);
        let ghost b1 = self.buffer@;

        let va_vs: u32 = new_section.virtual_address.value + new_section.virtual_size.value;
        let _ = self.header.size_of_image.update(&mut self.buffer, va_vs);
        let ghost b2 = self.buffer@;
        let n0: u16 = self.header.number_of_sections.value;
        let _ = self.header.number_of_sections.update(&mut self.buffer, n0 + 1);
        self.sections.push(new_section);

        let new_checksum: u32 = self.calc_checksum();
        let ghost b3 = self.buffer@;
        let _ = self.header.checksum.update(&mut self.buffer, new_checksum);
        proof {
            lemma_add_section_steps(*old(self), *self, new_section, shellcode@, b1, b2, b3);
        }
        Ok(())
    }

    /// The 16-bit word sum that the PE checksum folds, from position `i`
    /// to the end of the buffer, skipping the stored checksum's own bytes.
    pub open spec fn checksum_words(b: Seq<u8>, ck_off: int, ck_size: int, i: int) -> int
        decreases
                (if i <= b.len() {
                    b.len() - i
                } else {
                    0
                }),
    {
        if i < 0 || i >= b.len() {
            0
        } else if i == ck_off && ck_size > 0 {
            Self::checksum_words(b, ck_off, ck_size, i + ck_size)
        } else if i + 1 < b.len() {
            b[i] + 256 * b[i + 1] + Self::checksum_words(b, ck_off, ck_size, i + 2)
        } else {
            b[i] as int
        }
    }

    /// One carry fold of the running 32-bit checksum: its high half added
    /// onto its low half.
    pub open spec fn fold16(x: int) -> int {
        x % 0x10000 + x / 0x10000
    }

    /// The PE checksum of `b` with the stored checksum at `ck_off`: the
    /// 16-bit word sum excluding the stored checksum, folded, plus the
    /// buffer length, folded twice.
    pub open spec fn pe_checksum(b: Seq<u8>, ck_off: int, ck_size: int) -> int {
        let total = Self::checksum_words(b, ck_off, ck_size, 0) % 0x1_0000_0000;
        let f1 = Self::fold16(total);
        let f2 = (f1 + b.len()) % 0x1_0000_0000;
        let f3 = Self::fold16(f2);
        Self::fold16(f3)
    }

    /// Computes the PE checksum of the whole buffer, skipping the stored
    /// checksum field itself.
    #[verifier::rlimit(50)]
    pub fn calc_checksum(&self) -> (r: u32)
        requires
            self.header.checksum.size > 0,
            self.header.checksum.offset + self.header.checksum.size <= self.buffer@.len(),
        ensures
            r == Self::pe_checksum(
                self.buffer@,
                self.header.checksum.offset as int,
                self.header.checksum.size as int,
            ),
    {
        let len: usize = self.buffer.len();
        let ck_off: usize = self.header.checksum.offset;
        let ck_size: usize = self.header.checksum.size;
        let ghost b = self.buffer@;

        let mut checksum: u32 = 0;
        let mut i: usize = 0;
        while i < len
            invariant
                len == b.len(),
                b == self.buffer@,
                ck_off + ck_size <= len,
                ck_size > 0,
                i <= len || i == ck_off + ck_size,
                (checksum + Self::checksum_words(b, ck_off as int, ck_size as int, i as int)) % (
                0x1_0000_0000int) == Self::checksum_words(b, ck_off as int, ck_size as int, 0) % (
                0x1_0000_0000int),
            decreases len - i,
        {
            let ghost rest = Self::checksum_words(b, ck_off as int, ck_size as int, i as int);
            if i == ck_off {
                i = i + ck_size;
            } else if i + 1 < len {
                let word: u32 = (self.buffer[i] as u32) + 256 * (self.buffer[i + 1] as u32);
                proof {
                    let rest2 = Self::checksum_words(b, ck_off as int, ck_size as int, i + 2);
                    lemma_add_mod_noop_right(
                        rest2 as int,
                        (checksum + word) as int,
                        0x1_0000_0000int,
                    );
                    lemma_add_mod_noop_right(rest2 as int, checksum as int, 0x1_0000_0000int);
                    assert(checksum + rest == checksum + word + rest2);
                }
                checksum = checksum.wrapping_add(word);
                i = i + 2;
            } else {
                let byte: u32 = self.buffer[i] as u32;
                proof {
                    lemma_add_mod_noop_right(0, (checksum + byte) as int, 0x1_0000_0000int);
                    lemma_add_mod_noop_right(0, checksum as int, 0x1_0000_0000int);
                }
                checksum = checksum.wrapping_add(byte);
                i = len;
            }
            proof {
                lemma_small_mod(checksum as nat, 0x1_0000_0000nat);
            }
        }
        proof {
            lemma_small_mod(checksum as nat, 0x1_0000_0000nat);
            assert(checksum == Self::checksum_words(b, ck_off as int, ck_size as int, 0) % (
            0x1_0000_0000int));
        }
        checksum = checksum % 0x10000 + checksum / 0x10000;
        let len_mod: u32 = ((len as u64) % 0x1_0000_0000) as u32;
        proof {
            lemma_add_mod_noop_right(checksum as int, len as int, 0x1_0000_0000int);
        }
        checksum = checksum.wrapping_add(len_mod);
        checksum = checksum % 0x10000 + checksum / 0x10000;
        checksum = checksum % 0x10000 + checksum / 0x10000;
        checksum
    }
}

} // verus!
