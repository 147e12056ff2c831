//! Bounds-checked extraction of integers from byte buffers.
//!
//! Every header and table parser in the crate reads fixed-width integers at
//! computed offsets.  The helpers here centralize that logic: each read is
//! bounds-checked and interpreted under an explicit byte order.  The
//! mathematical value of a byte sequence is given by the spec functions
//! [`le_value`] and [`be_value`], and every reader and writer is specified
//! against them.

use vstd::arithmetic::div_mod::{
    lemma_div_denominator, lemma_fundamental_div_mod, lemma_multiply_divide_lt,
};
use vstd::pervasive::VecAdditionalExecFns;
use vstd::prelude::*;
use vstd::string::StrSliceExecFns;
use vstd::utf8::{decode_utf8, valid_utf8};

use crate::errors::FileParseError;

verus! {

/// The integer denoted by `s` read as a little-endian number:
/// the first byte is the least significant.
pub open spec fn le_value(s: Seq<u8>) -> int
    decreases s.len(),
{
    if s.len() == 0 {
        0
    } else {
        s[0] + 256 * le_value(s.drop_first())
    }
}

/// The integer denoted by `s` read as a big-endian number:
/// the first byte is the most significant.
pub open spec fn be_value(s: Seq<u8>) -> int
    decreases s.len(),
{
    if s.len() == 0 {
        0
    } else {
        s.last() + 256 * be_value(s.drop_last())
    }
}

/// 256 raised to the power `n`: the number of values a field of `n` bytes
/// can hold.
pub open spec fn pow256(n: nat) -> int
    decreases n,
{
    if n == 0 {
        1
    } else {
        256 * pow256((n - 1) as nat)
    }
}

/// The byte offset of record `k` in a table of fixed-stride records that
/// starts at `off`.
pub open spec fn entry_base(off: int, size: int, k: int) -> int {
    off + k * size
}

/// The integer stored in `b` at offset `off`, `w` bytes wide, read
/// big-endian when `big` holds and little-endian otherwise.
pub open spec fn word_at(b: Seq<u8>, off: int, w: int, big: bool) -> int {
    if big {
        be_value(b.subrange(off, off + w))
    } else {
        le_value(b.subrange(off, off + w))
    }
}

pub proof fn lemma_pow256_pos(n: nat)
    ensures
        pow256(n) >= 1,
    decreases n,
{
    if n > 0 {
        lemma_pow256_pos((n - 1) as nat);
    }
}

pub proof fn lemma_pow256_mono(a: nat, b: nat)
    requires
        a <= b,
    ensures
        pow256(a) <= pow256(b),
    decreases b,
{
    if a < b {
        lemma_pow256_mono(a, (b - 1) as nat);
        lemma_pow256_pos((b - 1) as nat);
    }
}

pub proof fn lemma_pow256_values()
    ensures
        pow256(0) == 1,
        pow256(1) == 0x100,
        pow256(2) == 0x1_0000,
        pow256(3) == 0x100_0000,
        pow256(4) == 0x1_0000_0000,
        pow256(5) == 0x100_0000_0000,
        pow256(6) == 0x1_0000_0000_0000,
        pow256(7) == 0x100_0000_0000_0000,
        pow256(8) == 0x1_0000_0000_0000_0000,
{
    reveal_with_fuel(pow256, 9);
}

pub proof fn lemma_le_value_bound(s: Seq<u8>)
    ensures
        0 <= le_value(s) < pow256(s.len()),
    decreases s.len(),
{
    if s.len() > 0 {
        lemma_le_value_bound(s.drop_first());
    }
}

pub proof fn lemma_be_value_bound(s: Seq<u8>)
    ensures
        0 <= be_value(s) < pow256(s.len()),
    decreases s.len(),
{
    if s.len() > 0 {
        lemma_be_value_bound(s.drop_last());
    }
}

/// A word read from inside the buffer is nonnegative and bounded by the
/// capacity of its width.
pub proof fn lemma_word_at_bound(b: Seq<u8>, off: int, w: int, big: bool)
    requires
        0 <= off,
        0 <= w,
        off + w <= b.len(),
    ensures
        0 <= word_at(b, off, w, big) < pow256(w as nat),
{
    if big {
        lemma_be_value_bound(b.subrange(off, off + w));
    } else {
        lemma_le_value_bound(b.subrange(off, off + w));
    }
}

/// A sequence whose bytes are the base-256 digits of `v` denotes `v`.
pub proof fn lemma_le_value_digits(s: Seq<u8>, v: int)
    requires
        0 <= v < pow256(s.len()),
        forall|k: int| 0 <= k < s.len() ==> s[k] == (v / pow256(k as nat)) % 256,
    ensures
        le_value(s) == v,
    decreases s.len(),
{
    if s.len() == 0 {
        // pow256(0) == 1, so v == 0
    } else {
        let t = s.drop_first();
        let w = v / 256;
        assert(s[0] == (v / pow256(0)) % 256);
        assert(v / pow256(0) == v);
        assert forall|k: int| 0 <= k < t.len() implies t[k] == (w / pow256(k as nat)) % 256 by {
            assert(t[k] == s[k + 1]);
            assert(s[k + 1] == (v / pow256((k + 1) as nat)) % 256);
            lemma_pow256_pos(k as nat);
            lemma_div_denominator(v, 256, pow256(k as nat));
            assert(v / pow256((k + 1) as nat) == (v / 256) / pow256(k as nat));
        }
        assert(w < pow256(t.len())) by {
            lemma_pow256_pos(t.len());
            lemma_multiply_divide_lt(v, 256, pow256(t.len()));
        }
        assert(w >= 0) by {
            vstd::arithmetic::div_mod::lemma_div_pos_is_pos(v, 256);
        }
        lemma_le_value_digits(t, w);
        lemma_fundamental_div_mod(v, 256);
        assert(le_value(s) == s[0] + 256 * le_value(t));
        assert(s[0] == v % 256);
        assert(le_value(s) == v % 256 + 256 * (v / 256));
    }
}

/// True exactly when the window `[off, off + need)` lies inside a buffer of
/// `len` bytes; computed without any risk of arithmetic overflow.
pub(crate) fn span_fits(len: usize, off: u64, need: u64) -> (b: bool)
    ensures
        b <==> off + need <= len,
{
    match off.checked_add(need) {
        Some(end) => end <= len as u64,
        None => false,
    }
}

/// Reads `width` bytes at `offset` as a little-endian integer.
pub(crate) fn read_le(buffer: &[u8], offset: usize, width: usize) -> (r: u64)
    requires
        offset + width <= buffer@.len(),
        width <= 8,
    ensures
        r == le_value(buffer@.subrange(offset as int, offset + width)),
{
    proof {
        lemma_pow256_values();
    }
    let n: usize = buffer.len();
    let mut acc: u64 = 0;
    let mut j: usize = width;
    while j > 0
        invariant
            j <= width,
            width <= 8,
            offset + width <= n,
            n == buffer@.len(),
            acc == le_value(buffer@.subrange(offset + j, offset + width)),
            acc < pow256((width - j) as nat),
        decreases j,
    {
        j = j - 1;
        let b = buffer[offset + j];
        proof {
            assert(buffer@.subrange(offset + j, offset + width).drop_first() =~= buffer@.subrange(
                offset + j + 1,
                offset + width,
            ));
            lemma_pow256_mono((width - j - 1) as nat, 7);
            lemma_pow256_values();
        }
        acc = acc * 256 + (b as u64);
        proof {
            assert(buffer@.subrange(offset + j, offset + width)[0] == buffer@[offset + j]);
        }
    }
    acc
}

/// Reads `width` bytes at `offset` as a big-endian integer.
pub(crate) fn read_be(buffer: &[u8], offset: usize, width: usize) -> (r: u64)
    requires
        offset + width <= buffer@.len(),
        width <= 8,
    ensures
        r == be_value(buffer@.subrange(offset as int, offset + width)),
{
    proof {
        lemma_pow256_values();
    }
    let n: usize = buffer.len();
    let mut acc: u64 = 0;
    let mut j: usize = 0;
    while j < width
        invariant
            j <= width,
            width <= 8,
            offset + width <= n,
            n == buffer@.len(),
            acc == be_value(buffer@.subrange(offset as int, offset + j)),
            acc < pow256(j as nat),
        decreases width - j,
    {
        let b = buffer[offset + j];
        proof {
            assert(buffer@.subrange(offset as int, offset + j + 1).drop_last() =~= buffer@.subrange(
                offset as int,
                offset + j,
            ));
            assert(buffer@.subrange(offset as int, offset + j + 1).last() == buffer@[offset + j]);
            lemma_pow256_mono((j + 1) as nat, 8);
            lemma_pow256_values();
        }
        acc = acc * 256 + (b as u64);
        j = j + 1;
    }
    acc
}

/// Reads `width` bytes at `offset` under the byte order selected by `big`.
pub(crate) fn read_word(buffer: &[u8], offset: usize, width: usize, big: bool) -> (r: u64)
    requires
        offset + width <= buffer@.len(),
        width <= 8,
    ensures
        r == word_at(buffer@, offset as int, width as int, big),
{
    if big {
        read_be(buffer, offset, width)
    } else {
        read_le(buffer, offset, width)
    }
}

/// Reads a 16-bit word at `offset` under the byte order selected by `big`.
pub(crate) fn read_u16_at(buffer: &[u8], offset: usize, big: bool) -> (r: u16)
    requires
        offset + 2 <= buffer@.len(),
    ensures
        r == word_at(buffer@, offset as int, 2, big),
{
    let v = read_word(buffer, offset, 2, big);
    proof {
        lemma_word_at_bound(buffer@, offset as int, 2, big);
        lemma_pow256_values();
    }
    v as u16
}

/// Reads a 32-bit word at `offset` under the byte order selected by `big`.
pub(crate) fn read_u32_at(buffer: &[u8], offset: usize, big: bool) -> (r: u32)
    requires
        offset + 4 <= buffer@.len(),
    ensures
        r == word_at(buffer@, offset as int, 4, big),
{
    let v = read_word(buffer, offset, 4, big);
    proof {
        lemma_word_at_bound(buffer@, offset as int, 4, big);
        lemma_pow256_values();
    }
    v as u32
}

/// Reads a 64-bit word at `offset` under the byte order selected by `big`.
pub(crate) fn read_u64_at(buffer: &[u8], offset: usize, big: bool) -> (r: u64)
    requires
        offset + 8 <= buffer@.len(),
    ensures
        r == word_at(buffer@, offset as int, 8, big),
{
    read_word(buffer, offset, 8, big)
}

/// Overwrites `buffer[offset .. offset + width]` with the little-endian
/// encoding of `value`; no other byte changes.
pub(crate) fn write_le(buffer: &mut Vec<u8>, offset: usize, width: usize, value: u64)
    requires
        offset + width <= old(buffer)@.len(),
        width <= 8,
        value < pow256(width as nat),
    ensures
        final(buffer)@.len() == old(buffer)@.len(),
        forall|i: int|
            0 <= i < old(buffer)@.len() && !(offset <= i < offset + width) ==> final(buffer)@[i]
                == old(buffer)@[i],
        forall|i: int|
            offset <= i < offset + width ==> #[trigger] final(buffer)@[i] == (value as int
                / pow256((i - offset) as nat)) % 256,
        le_value(final(buffer)@.subrange(offset as int, offset + width)) == value,
{
    let n: usize = buffer.len();
    let mut cur: u64 = value;
    let mut i: usize = 0;
    while i < width
        invariant
            i <= width,
            width <= 8,
            offset + width <= n,
            n == buffer@.len(),
            buffer@.len() == old(buffer)@.len(),
            value < pow256(width as nat),
            cur == value as int / pow256(i as nat),
            forall|j: int|
                0 <= j < old(buffer)@.len() && !(offset <= j < offset + i) ==> buffer@[j] == old(
                    buffer,
                )@[j],
            forall|j: int|
                offset <= j < offset + i ==> #[trigger] buffer@[j] == (value as int / pow256(
                    (j - offset) as nat,
                )) % 256,
        decreases width - i,
    {
        let byte: u8 = (cur % 256) as u8;
        buffer.set(offset + i, byte);
        proof {
            lemma_pow256_pos(i as nat);
            lemma_div_denominator(value as int, pow256(i as nat), 256);
            assert(pow256((i + 1) as nat) == 256 * pow256(i as nat));
            assert((value as int / pow256(i as nat)) / 256 == value as int / (pow256(i as nat)
                * 256));
            assert(pow256(i as nat) * 256 == 256 * pow256(i as nat)) by {
                vstd::arithmetic::mul::lemma_mul_is_commutative(pow256(i as nat), 256);
            }
        }
        cur = cur / 256;
        i = i + 1;
    }
    proof {
        let s = buffer@.subrange(offset as int, offset + width);
        assert forall|k: int| 0 <= k < s.len() implies s[k] == (value as int / pow256(k as nat))
            % 256 by {
            assert(s[k] == buffer@[offset + k]);
        }
        lemma_le_value_digits(s, value as int);
    }
}

/// Computes 256 to the power `width` at run time.
pub(crate) fn pow256_val(width: usize) -> (r: u64)
    requires
        width <= 7,
    ensures
        r == pow256(width as nat),
{
    let mut r: u64 = 1;
    let mut i: usize = 0;
    while i < width
        invariant
            i <= width,
            width <= 7,
            r == pow256(i as nat),
        decreases width - i,
    {
        proof {
            lemma_pow256_mono((i + 1) as nat, 7);
            lemma_pow256_values();
        }
        r = r * 256;
        i = i + 1;
    }
    r
}

/// Appends the `width`-byte little-endian encoding of `value` to `v`.
pub(crate) fn push_le(v: &mut Vec<u8>, width: usize, value: u64)
    requires
        width <= 8,
        value < pow256(width as nat),
        old(v)@.len() + width <= usize::MAX,
    ensures
        final(v)@.len() == old(v)@.len() + width,
        forall|i: int| 0 <= i < old(v)@.len() ==> #[trigger] final(v)@[i] == old(v)@[i],
        forall|k: int|
            0 <= k < width ==> #[trigger] final(v)@[old(v)@.len() + k] == (value as int / pow256(
                k as nat,
            )) % 256,
{
    let base: usize = v.len();
    let mut cur: u64 = value;
    let mut i: usize = 0;
    while i < width
        invariant
            i <= width,
            width <= 8,
            v@.len() == base + i,
            base + width <= usize::MAX,
            value < pow256(width as nat),
            cur == value as int / pow256(i as nat),
            v@.subrange(0, base as int) == old(v)@,
            old(v)@.len() == base,
            forall|k: int|
                base <= k < base + i ==> #[trigger] v@[k] == (value as int / pow256(
                    (k - base) as nat,
                )) % 256,
        decreases width - i,
    {
        let byte: u8 = (cur % 256) as u8;
        v.push(byte);
        proof {
            lemma_pow256_pos(i as nat);
            lemma_div_denominator(value as int, pow256(i as nat), 256);
            assert(pow256((i + 1) as nat) == 256 * pow256(i as nat));
            assert(pow256(i as nat) * 256 == 256 * pow256(i as nat)) by {
                vstd::arithmetic::mul::lemma_mul_is_commutative(pow256(i as nat), 256);
            }
            assert(v@.subrange(0, base as int) =~= old(v)@);
        }
        cur = cur / 256;
        i = i + 1;
    }
}

/// The bytes at `off` hold the base-256 digits of `v`, so the window reads
/// back as `v`.
pub proof fn lemma_le_digits_window(b: Seq<u8>, off: int, w: int, v: int)
    requires
        0 <= off,
        0 <= w,
        off + w <= b.len(),
        0 <= v < pow256(w as nat),
        forall|k: int| 0 <= k < w ==> #[trigger] b[off + k] == (v / pow256(k as nat)) % 256,
    ensures
        le_value(b.subrange(off, off + w)) == v,
{
    let s = b.subrange(off, off + w);
    assert forall|k: int| 0 <= k < s.len() implies s[k] == (v / pow256(k as nat)) % 256 by {
        assert(s[k] == b[off + k]);
    }
    lemma_le_value_digits(s, v);
}

/// Reads a little-endian `u64` at `offset`, or reports that the eight bytes
/// do not fit in the buffer.
pub fn extract_u64(buffer: &[u8], offset: usize) -> (r: Result<u64, FileParseError>)
    ensures
        offset + 8 <= buffer@.len() ==> (r matches Ok(v) && v == le_value(
            buffer@.subrange(offset as int, offset + 8),
        )),
        offset + 8 > buffer@.len() ==> (r matches Err(e) && e is BufferOverflow),
{
    if offset > buffer.len() || buffer.len() - offset < 8 {
        return Err(FileParseError::BufferOverflow);
    }
    Ok(read_le(buffer, offset, 8))
}

/// Reads a little-endian `u32` at `offset`, or reports that the four bytes
/// do not fit in the buffer.
pub fn extract_u32(buffer: &[u8], offset: usize) -> (r: Result<u32, FileParseError>)
    ensures
        offset + 4 <= buffer@.len() ==> (r matches Ok(v) && v == le_value(
            buffer@.subrange(offset as int, offset + 4),
        )),
        offset + 4 > buffer@.len() ==> (r matches Err(e) && e is BufferOverflow),
{
    if offset > buffer.len() || buffer.len() - offset < 4 {
        return Err(FileParseError::BufferOverflow);
    }
    let v = read_le(buffer, offset, 4);
    proof {
        lemma_le_value_bound(buffer@.subrange(offset as int, offset + 4));
        lemma_pow256_values();
    }
    Ok(v as u32)
}

/// Reads a little-endian `u16` at `offset`, or reports that the two bytes
/// do not fit in the buffer.
pub fn extract_u16(buffer: &[u8], offset: usize) -> (r: Result<u16, FileParseError>)
    ensures
        offset + 2 <= buffer@.len() ==> (r matches Ok(v) && v == le_value(
            buffer@.subrange(offset as int, offset + 2),
        )),
        offset + 2 > buffer@.len() ==> (r matches Err(e) && e is BufferOverflow),
{
    if offset > buffer.len() || buffer.len() - offset < 2 {
        return Err(FileParseError::BufferOverflow);
    }
    let v = read_le(buffer, offset, 2);
    proof {
        lemma_le_value_bound(buffer@.subrange(offset as int, offset + 2));
        lemma_pow256_values();
    }
    Ok(v as u16)
}

/// The character sequence that lossy UTF-8 decoding turns `bytes` into.
/// The result depends on the bytes alone.
pub uninterp spec fn lossy_decode(bytes: Seq<u8>) -> Seq<char>;

/// Relies on `String::from_utf8_lossy`: the result is a function of the
/// bytes alone, and a valid UTF-8 sequence decodes to exactly the characters
/// it encodes.
#[verifier::external_body]
pub(crate) fn decode_utf8_lossy(bytes: &[u8]) -> (s: String)
    ensures
        s@ == lossy_decode(bytes@),
        valid_utf8(bytes@) ==> s@ == decode_utf8(bytes@),
{
    String::from_utf8_lossy(bytes).into_owned()
}

/// A sequence of bytes below 0x80 is valid UTF-8 and decodes to exactly
/// those bytes read as characters.
pub proof fn lemma_ascii_decode(s: Seq<u8>)
    requires
        forall|i: int| 0 <= i < s.len() ==> s[i] < 0x80,
    ensures
        valid_utf8(s),
        decode_utf8(s) =~= Seq::new(s.len(), |i: int| s[i] as char),
{
    let cs = Seq::new(s.len(), |i: int| s[i] as char);
    assert(vstd::utf8::is_ascii_chars(cs));
    vstd::utf8::is_ascii_chars_encode_utf8(cs);
    assert(vstd::utf8::encode_utf8(cs) =~= s);
    vstd::utf8::encode_utf8_valid_utf8(cs);
    vstd::utf8::encode_utf8_decode_utf8(cs);
}

/// `s` with every trailing NUL character removed.
pub open spec fn trim_trailing_nuls(s: Seq<char>) -> Seq<char>
    decreases s.len(),
{
    if s.len() > 0 && s.last() == '\0' {
        trim_trailing_nuls(s.drop_last())
    } else {
        s
    }
}

/// Removes every trailing NUL character from `s`.
pub(crate) fn trim_end_nuls(s: &str) -> (r: String)
    ensures
        r@ == trim_trailing_nuls(s@),
{
    let len: usize = s.unicode_len();
    proof {
        assert(s@.take(len as int) =~= s@);
    }
    let mut n: usize = len;
    while n > 0 && s.get_char(n - 1) == '\0'
        invariant
            n <= len,
            len == s@.len(),
            trim_trailing_nuls(s@) == trim_trailing_nuls(s@.take(n as int)),
        decreases n,
    {
        proof {
            assert(s@.take(n as int).last() == s@[n - 1]);
            assert(s@.take(n as int).drop_last() =~= s@.take(n - 1));
        }
        n = n - 1;
    }
    proof {
        assert(s@.take(len as int) =~= s@);
        if n > 0 {
            assert(s@.take(n as int).last() == s@[n - 1]);
        }
        assert(trim_trailing_nuls(s@) == s@.take(n as int));
    }
    let t = s.substring_char(0, n);
    proof {
        assert(t@ =~= s@.take(n as int));
    }
    t.to_owned()
}

} // verus!
