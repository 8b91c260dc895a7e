//! The trailer in a snapshot: seven words.

use crate::cache::{put_words, read_words, words_at, words_wire};
use crate::eocd::{EoCd, EoCdView};
use crate::error::ZipError;
use crate::le::avail;
use crate::zip::{Cache, Parser};
use vstd::prelude::*;

verus! {

/// The number of words that a trailer takes in a snapshot.
pub const TRAILER_WORDS: usize = 7;

/// The trailer as words.
pub open spec fn trailer_words(e: EoCdView) -> Seq<u64> {
    seq![
        e.number_of_disk as u64,
        e.directory_starts as u64,
        e.number_of_directory_disk as u64,
        e.entries as u64,
        e.size as u64,
        e.offset as u64,
        e.comment_length as u64,
    ]
}

/// The words can stand for a trailer: each fits its field.
pub open spec fn trailer_words_ok(w: Seq<u64>) -> bool {
    &&& w[0] <= u16::MAX
    &&& w[1] <= u16::MAX
    &&& w[2] <= u16::MAX
    &&& w[3] <= u16::MAX
    &&& w[4] <= u32::MAX
    &&& w[5] <= u32::MAX
    &&& w[6] <= u16::MAX
}

/// The trailer that seven words stand for.
pub open spec fn trailer_of_words(w: Seq<u64>) -> EoCdView {
    EoCdView {
        number_of_disk: w[0] as u16,
        directory_starts: w[1] as u16,
        number_of_directory_disk: w[2] as u16,
        entries: w[3] as u16,
        size: w[4] as u32,
        offset: w[5] as u32,
        comment_length: w[6] as u16,
    }
}

/// A trailer in a snapshot.
pub open spec fn trailer_snapshot(e: EoCdView) -> Seq<u8> {
    words_wire(trailer_words(e))
}

/// The trailer whose snapshot starts at `p`, with the position behind it.
pub open spec fn trailer_restored_at(s: Seq<u8>, p: int) -> Result<(EoCdView, int), ZipError> {
    if !avail(s, p, 56) {
        Err(ZipError::UnexpectedEnd)
    } else if !trailer_words_ok(words_at(s, p, 7)) {
        Err(ZipError::InvalidCache)
    } else {
        Ok((trailer_of_words(words_at(s, p, 7)), p + 56))
    }
}

impl EoCd<Parser> {
    /// The trailer as part of a snapshot.
    pub fn to_cache(self) -> (r: EoCd<Cache>)
        ensures
            r@ == self@,
    {
        EoCd {
            kind: Cache,
            number_of_disk: self.number_of_disk,
            directory_starts: self.directory_starts,
            number_of_directory_disk: self.number_of_directory_disk,
            entries: self.entries,
            size: self.size,
            offset: self.offset,
            comment_length: self.comment_length,
        }
    }
}

impl EoCd<Cache> {
    /// The trailer as part of an archive.
    pub fn to_parser(self) -> (r: EoCd<Parser>)
        ensures
            r@ == self@,
    {
        EoCd {
            kind: Parser,
            number_of_disk: self.number_of_disk,
            directory_starts: self.directory_starts,
            number_of_directory_disk: self.number_of_directory_disk,
            entries: self.entries,
            size: self.size,
            offset: self.offset,
            comment_length: self.comment_length,
        }
    }

    /// Appends the trailer's snapshot.
    pub fn encode(&self, out: &mut Vec<u8>)
        ensures
            final(out)@ == old(out)@ + trailer_snapshot(self@),
    {
        let mut words: Vec<u64> = Vec::new();
        words.push(self.number_of_disk as u64);
        words.push(self.directory_starts as u64);
        words.push(self.number_of_directory_disk as u64);
        words.push(self.entries as u64);
        words.push(self.size as u64);
        words.push(self.offset as u64);
        words.push(self.comment_length as u64);
        assert(words@ =~= trailer_words(self@));
        put_words(out, words.as_slice());
    }

    /// Reads the trailer whose snapshot starts at `pos` and returns it with
    /// the position behind it.
    pub fn decode(data: &[u8], pos: usize) -> (r: Result<(EoCd<Cache>, usize), ZipError>)
        ensures
            r matches Ok((e, next)) ==> trailer_restored_at(data@, pos as int) == Ok::<
                (EoCdView, int),
                ZipError,
            >((e@, next as int)),
            r matches Err(e) ==> trailer_restored_at(data@, pos as int) == Err::<
                (EoCdView, int),
                ZipError,
            >(e),
    {
        let w: Vec<u64> = read_words(data, pos, TRAILER_WORDS)?;
        if w[0] > u16::MAX as u64 || w[1] > u16::MAX as u64 || w[2] > u16::MAX as u64 || w[3]
            > u16::MAX as u64 || w[4] > u32::MAX as u64 || w[5] > u32::MAX as u64 || w[6]
            > u16::MAX as u64 {
            return Err(ZipError::InvalidCache);
        }
        Ok(
            (
                EoCd {
                    kind: Cache,
                    number_of_disk: w[0] as u16,
                    directory_starts: w[1] as u16,
                    number_of_directory_disk: w[2] as u16,
                    entries: w[3] as u16,
                    size: w[4] as u32,
                    offset: w[5] as u32,
                    comment_length: w[6] as u16,
                },
                pos + 56,
            ),
        )
    }
}

/// A trailer is read back from its words as it was.
pub proof fn lemma_trailer_words_round_trip(e: EoCdView)
    ensures
        trailer_words(e).len() == 7,
        trailer_words_ok(trailer_words(e)),
        trailer_of_words(trailer_words(e)) == e,
{
}

} // verus!
