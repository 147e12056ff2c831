//! Error type shared by every parser and mutation routine of the crate.
//!
//! Parsing untrusted binaries can fail in a small number of ways: the data
//! can be truncated, the magic or type tags can be wrong, or a mutation can
//! ask for a value that does not fit its field.  All of these are collected
//! in [`FileParseError`] so that every module reports problems uniformly.

use vstd::prelude::*;
use vstd::string::{StringExecFns, StrSliceExecFns};

verus! {

/// Relies on `std::io::Error`: the type is only carried through unchanged so
/// that callers doing file I/O outside this crate can surface their errors
/// through the shared error enum; nothing in the crate reads it.
#[verifier::external_type_specification]
#[verifier::external_body]
pub struct ExIoError(std::io::Error);

/// What can go wrong while parsing or mutating a binary.
#[derive(Debug)]
pub enum FileParseError {
    /// An underlying file read or write failed; passed through untouched.
    Io(std::io::Error),
    /// A magic number, class byte, endianness tag or type tag did not match.
    InvalidFileFormat,
    /// A read or write would run past the end of the buffer.
    BufferOverflow,
    /// A numeric update does not fit in the field's declared byte width.
    ValueTooLarge,
    /// A slice could not be turned into a fixed-size array.
    SliceConversionError,
    /// A format variant that this crate does not model.
    UnsupportedFeature(String),
}

impl FileParseError {
    /// A short description of the error, in place of a display
    /// implementation.
    pub fn message(&self) -> (r: String)
        ensures
            *self is Io ==> r@ == "I/O error."@,
            *self is InvalidFileFormat ==> r@ == "Invalid file format."@,
            *self is BufferOverflow ==> r@ == "Data out of bounds."@,
            *self is ValueTooLarge ==> r@ == "Value exceeds field size."@,
            *self is SliceConversionError ==> r@ == "Error converting slice to array."@,
            (*self matches FileParseError::UnsupportedFeature(f) ==> r@ == "Unsupported feature: "@
                + f@),
    {
        match self {
            FileParseError::Io(_) => String::from_str("I/O error."),
            FileParseError::InvalidFileFormat => String::from_str("Invalid file format."),
            FileParseError::BufferOverflow => String::from_str("Data out of bounds."),
            FileParseError::ValueTooLarge => String::from_str("Value exceeds field size."),
            FileParseError::SliceConversionError => String::from_str(
                "Error converting slice to array.",
            ),
            FileParseError::UnsupportedFeature(feature) => String::from_str(
                "Unsupported feature: ",
            ).concat(feature.as_str()),
        }
    }
}

} // verus!
