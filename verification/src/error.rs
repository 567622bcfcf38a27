//! The ways in which decoding and encoding fail.

use vstd::prelude::*;

verus! {

/// Why a file could not be decoded, or a model not encoded.
#[derive(Clone, Copy, Debug, PartialEq, Eq)]
pub enum MdlxError {
    /// The input ends before a field of fixed width does.
    UnexpectedEof,
    /// The file does not start with the `MDLX` magic tag.
    BadMagic,
    /// A chunk tag, or a tag inside a record, is not one the format knows.
    UnknownTag(u32),
    /// The bytes of a name field before its first zero byte are not UTF-8.
    InvalidName,
    /// The size of a list of fixed-size records is no multiple of the record size.
    MalformedChunkSize,
    /// The destination buffer has too little room for what is to be written.
    BufferTooSmall,
    /// A size does not fit the 32-bit field that has to hold it, or the
    /// machine's address range.
    TooLarge,
}

} // verus!
