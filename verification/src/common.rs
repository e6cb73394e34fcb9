use vstd::prelude::*;

verus! {

/// The error that the standard library reports for bytes that are not UTF-8.
#[verifier::external_type_specification]
#[verifier::external_body]
pub struct ExUtf8Error(core::str::Utf8Error);

/// Errors reported by the reading and writing functions of this crate.
#[derive(Debug, PartialEq)]
pub enum Error {
    /// The structure item is not of the kind that the accessor reads.
    BadStructItemType,
    /// A property value is not a NUL-terminated string.
    BadValueStr,
    /// A property value is NUL-terminated but not UTF-8.
    BadStrEncoding(core::str::Utf8Error),
    /// A property value's length is not a multiple of four.
    BadU32List,
    /// The caller's buffer cannot hold what was asked for.
    BufferTooSmall,
}

/// Result type of this crate.
pub type Result<T> = core::result::Result<T, Error>;

/// One entry of the reserved memory map: a block of physical memory.
#[derive(Debug)]
pub struct ReservedMemEntry {
    pub address: u64,
    pub size: u64,
}

} // verus!
