//! Deflate and inflate, as `miniz_oxide` computes them.

use vstd::prelude::*;

verus! {

/// How hard the compressor tries.
#[derive(Debug, Clone, Copy, PartialEq, Eq, Structural)]
pub enum CompressionLevel {
    /// Stored blocks only.
    NoCompression,
    /// The fastest routine.
    BestSpeed,
    /// Many checks for good matches.
    BestCompression,
    /// Still more checks; can be very slow.
    UberCompression,
    /// The usual compromise between speed and size.
    DefaultLevel,
    /// The compressor's own default, which is the usual compromise.
    DefaultCompression,
}

impl CompressionLevel {
    /// The level as the compressor counts it, from 0 to 10.
    pub open spec fn value(self) -> u8 {
        match self {
            CompressionLevel::NoCompression => 0,
            CompressionLevel::BestSpeed => 1,
            CompressionLevel::BestCompression => 9,
            CompressionLevel::UberCompression => 10,
            CompressionLevel::DefaultLevel => 6,
            CompressionLevel::DefaultCompression => 6,
        }
    }

    /// The level as the compressor counts it, from 0 to 10.
    pub fn number(&self) -> (level: u8)
        ensures
            level == self.value(),
            level <= 10,
    {
        match self {
            CompressionLevel::NoCompression => 0,
            CompressionLevel::BestSpeed => 1,
            CompressionLevel::BestCompression => 9,
            CompressionLevel::UberCompression => 10,
            CompressionLevel::DefaultLevel => 6,
            CompressionLevel::DefaultCompression => 6,
        }
    }
}

/// The raw deflate stream that `miniz_oxide` makes of `data` at `level`.
pub uninterp spec fn deflated(data: Seq<u8>, level: u8) -> Seq<u8>;

/// What `miniz_oxide` inflates the raw deflate stream `data` to, where it
/// is one.
pub uninterp spec fn inflated(data: Seq<u8>) -> Option<Seq<u8>>;

/// `miniz_oxide::deflate::compress_to_vec`: the raw deflate stream of `data`
/// at a level from 0 to 10. It depends on `data` and `level` alone.
#[verifier::external_body]
pub(crate) fn deflate(data: &[u8], level: u8) -> (r: Vec<u8>)
    requires
        level <= 10,
    ensures
        r@ == deflated(data@, level),
{
    miniz_oxide::deflate::compress_to_vec(data, level)
}

/// `miniz_oxide::inflate::decompress_to_vec`, with the error dropped: the
/// bytes that the raw deflate stream `data` stands for, and nothing where it
/// is no such stream. It depends on `data` alone.
#[verifier::external_body]
pub(crate) fn inflate(data: &[u8]) -> (r: Option<Vec<u8>>)
    ensures
        r matches Some(v) ==> inflated(data@) == Some(v@),
        r is None ==> inflated(data@) is None,
{
    miniz_oxide::inflate::decompress_to_vec(data).ok()
}

} // verus!
