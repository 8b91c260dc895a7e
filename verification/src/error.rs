use vstd::prelude::*;

verus! {

/// Why an archive, a record or a snapshot was refused.
#[derive(Debug, Clone, Copy, PartialEq, Eq, Structural)]
pub enum ZipError {
    /// No end-of-central-directory signature within reach of the end of the input.
    NotZip,
    /// The input ends before a field or a declared length is complete.
    UnexpectedEnd,
    /// A record does not start with the signature that its place requires.
    BadMagic,
    /// An extra field carries an identifier that this library does not know.
    UnsupportedExtra(u16),
    /// A declared extra-field length does not match what the record holds.
    ExtraLength,
    /// The attribute tag of an NTFS extra field is not 1.
    InvalidNtfsTag,
    /// The attribute size of an NTFS extra field is not 24.
    InvalidNtfsSize,
    /// The flag byte of an extended timestamp has a bit set above bit 2.
    InvalidTimestampFlags,
    /// A compression method number that names no known method.
    UnsupportedCompression(u16),
    /// A file name that is not UTF-8.
    InvalidName,
    /// A length, count or offset does not fit the width of its field.
    TooLarge,
    /// A payload marked as deflated that does not inflate.
    InvalidDeflate,
    /// A snapshot holds a byte that its framing does not allow.
    InvalidCache,
}

} // verus!
