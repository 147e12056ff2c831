//! Editable fields inside binary buffers.
//!
//! Binary structures store numeric or string values at fixed offsets.  The
//! [`Field`] type pairs such a decoded value with its exact location and
//! byte width in the owning buffer, so callers can rewrite the data in
//! place.  Every rewrite is bounds-checked against the buffer and
//! range-checked against the field's declared width; on failure neither the
//! buffer nor the field changes.

use vstd::pervasive::VecAdditionalExecFns;
use vstd::prelude::*;
use vstd::utf8::encode_utf8;

use crate::errors::FileParseError;
use crate::utils::{le_value, lemma_pow256_values, pow256, pow256_val, write_le};

verus! {

/// A decoded value bound to its byte offset and width in the source buffer.
#[derive(Debug, Clone, Copy)]
pub struct Field<T> {
    pub value: T,
    pub offset: usize,
    pub size: usize,
}

impl<T> Field<T> {
    /// Packs a decoded value with its location; the caller is responsible
    /// for handing in an offset and size that lie inside the buffer.
    pub fn new(value: T, offset: usize, size: usize) -> (f: Field<T>)
        ensures
            f.value == value,
            f.offset == offset,
            f.size == size,
    {
        Field { value, offset, size }
    }
}

impl Field<u64> {
    /// Rewrites the field's bytes in `buffer` with `new_value`, little-endian.
    ///
    /// Fails with `ValueTooLarge`, changing nothing, exactly when the value
    /// needs more than `size` bytes.
    pub fn update(&mut self, buffer: &mut Vec<u8>, new_value: u64) -> (r: Result<
        (),
        FileParseError,
    >)
        requires
            old(self).offset + old(self).size <= old(buffer)@.len(),
            old(self).size <= 8,
        ensures
            final(self).offset == old(self).offset,
            final(self).size == old(self).size,
            r is Ok <==> new_value < pow256(old(self).size as nat),
            r matches Err(e) ==> e is ValueTooLarge && *final(self) == *old(self) && final(buffer)@ == old(buffer)@,
            r is Ok ==> final(self).value == new_value && final(buffer)@.len() == old(buffer)@.len() && le_value(
                final(buffer)@.subrange(
                    old(self).offset as int,
                    old(self).offset + old(self).size,
                ),
            ) == new_value && forall|i: int|
                0 <= i < old(buffer)@.len() && !(old(self).offset <= i < old(self).offset + old(self).size) ==> final(buffer)@[i] == old(buffer)@[i],
    {
        proof {
            lemma_pow256_values();
        }
        if self.size < 8 {
            let limit = pow256_val(self.size);
            if new_value >= limit {
                return Err(FileParseError::ValueTooLarge);
            }
        }
        write_le(buffer, self.offset, self.size, new_value);
        self.value = new_value;
        Ok(())
    }
}

impl Field<u32> {
    /// Rewrites the field's bytes in `buffer` with `new_value`, little-endian.
    ///
    /// Fails with `ValueTooLarge`, changing nothing, exactly when the value
    /// needs more than `size` bytes.
    pub fn update(&mut self, buffer: &mut Vec<u8>, new_value: u32) -> (r: Result<
        (),
        FileParseError,
    >)
        requires
            old(self).offset + old(self).size <= old(buffer)@.len(),
            old(self).size <= 4,
        ensures
            final(self).offset == old(self).offset,
            final(self).size == old(self).size,
            r is Ok <==> new_value < pow256(old(self).size as nat),
            r matches Err(e) ==> e is ValueTooLarge && *final(self) == *old(self) && final(buffer)@ == old(buffer)@,
            r is Ok ==> final(self).value == new_value && final(buffer)@.len() == old(buffer)@.len() && le_value(
                final(buffer)@.subrange(
                    old(self).offset as int,
                    old(self).offset + old(self).size,
                ),
            ) == new_value && forall|i: int|
                0 <= i < old(buffer)@.len() && !(old(self).offset <= i < old(self).offset + old(self).size) ==> final(buffer)@[i] == old(buffer)@[i],
    {
        proof {
            lemma_pow256_values();
        }
        if self.size < 4 {
            let limit = pow256_val(self.size);
            if (new_value as u64) >= limit {
                return Err(FileParseError::ValueTooLarge);
            }
        }
        write_le(buffer, self.offset, self.size, new_value as u64);
        self.value = new_value;
        Ok(())
    }
}

impl Field<u16> {
    /// Rewrites the field's bytes in `buffer` with `new_value`, little-endian.
    ///
    /// Fails with `ValueTooLarge`, changing nothing, exactly when the value
    /// needs more than `size` bytes.
    pub fn update(&mut self, buffer: &mut Vec<u8>, new_value: u16) -> (r: Result<
        (),
        FileParseError,
    >)
        requires
            old(self).offset + old(self).size <= old(buffer)@.len(),
            old(self).size <= 2,
        ensures
            final(self).offset == old(self).offset,
            final(self).size == old(self).size,
            r is Ok <==> new_value < pow256(old(self).size as nat),
            r matches Err(e) ==> e is ValueTooLarge && *final(self) == *old(self) && final(buffer)@ == old(buffer)@,
            r is Ok ==> final(self).value == new_value && final(buffer)@.len() == old(buffer)@.len() && le_value(
                final(buffer)@.subrange(
                    old(self).offset as int,
                    old(self).offset + old(self).size,
                ),
            ) == new_value && forall|i: int|
                0 <= i < old(buffer)@.len() && !(old(self).offset <= i < old(self).offset + old(self).size) ==> final(buffer)@[i] == old(buffer)@[i],
    {
        proof {
            lemma_pow256_values();
        }
        if self.size < 2 {
            let limit = pow256_val(self.size);
            if (new_value as u64) >= limit {
                return Err(FileParseError::ValueTooLarge);
            }
        }
        write_le(buffer, self.offset, self.size, new_value as u64);
        self.value = new_value;
        Ok(())
    }
}

impl Field<String> {
    /// Rewrites the field's bytes in `buffer` with the UTF-8 encoding of
    /// `new_value`, zero-filling the rest of the field.
    ///
    /// Fails with `BufferOverflow`, changing nothing, exactly when the
    /// encoding is longer than the field's width.
    pub fn update(&mut self, buffer: &mut Vec<u8>, new_value: &str) -> (r: Result<
        (),
        FileParseError,
    >)
        requires
            old(self).offset + old(self).size <= old(buffer)@.len(),
        ensures
            final(self).offset == old(self).offset,
            final(self).size == old(self).size,
            r is Ok <==> encode_utf8(new_value@).len() <= old(self).size,
            r matches Err(e) ==> e is BufferOverflow && *final(self) == *old(self) && final(buffer)@ == old(buffer)@,
            r is Ok ==> final(self).value@ == new_value@ && final(buffer)@.len() == old(buffer)@.len() && final(buffer)@.subrange(
                old(self).offset as int,
                old(self).offset + encode_utf8(new_value@).len(),
            ) == encode_utf8(new_value@) && (forall|i: int|
                old(self).offset + encode_utf8(new_value@).len() <= i < old(self).offset + old(self).size ==> final(buffer)@[i] == 0) && (forall|i: int|
                0 <= i < old(buffer)@.len() && !(old(self).offset <= i < old(self).offset + old(self).size) ==> final(buffer)@[i] == old(buffer)@[i]),
    {
        let bytes: &[u8] = new_value.as_bytes();
        let n: usize = bytes.len();
        if n > self.size {
            return Err(FileParseError::BufferOverflow);
        }
        let buf_len: usize = buffer.len();
        let mut i: usize = 0;
        while i < n
            invariant
                i <= n,
                n <= self.size,
                self.offset + self.size <= buf_len,
                buf_len == buffer@.len(),
                bytes@ == encode_utf8(new_value@),
                n == bytes@.len(),
                forall|j: int|
                    self.offset <= j < self.offset + i ==> #[trigger] buffer@[j] == bytes@[j
                        - self.offset],
                forall|j: int|
                    0 <= j < buf_len && !(self.offset <= j < self.offset + i) ==> buffer@[j] == old(buffer)@[j],
            decreases n - i,
        {
            buffer.set(self.offset + i, bytes[i]);
            i = i + 1;
        }
        while i < self.size
            invariant
                n <= i <= self.size,
                self.offset + self.size <= buf_len,
                buf_len == buffer@.len(),
                bytes@ == encode_utf8(new_value@),
                n == bytes@.len(),
                forall|j: int|
                    self.offset <= j < self.offset + n ==> #[trigger] buffer@[j] == bytes@[j
                        - self.offset],
                forall|j: int|
                    self.offset + n <= j < self.offset + i ==> #[trigger] buffer@[j] == 0,
                forall|j: int|
                    0 <= j < buf_len && !(self.offset <= j < self.offset + i) ==> buffer@[j] == old(buffer)@[j],
            decreases self.size - i,
        {
            buffer.set(self.offset + i, 0u8);
            i = i + 1;
        }
        proof {
            assert(buffer@.subrange(self.offset as int, self.offset + n) =~= bytes@);
        }
        self.value = new_value.to_owned();
        Ok(())
    }
}

} // verus!
