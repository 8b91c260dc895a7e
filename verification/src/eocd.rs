//! The end-of-central-directory record: where it lies, and its seven fields.

use crate::error::ZipError;
use crate::le::{
    avail, le16, le32, lemma_embedded, lemma_le16_at, lemma_le32_at, put_u16, put_u32, read_u16,
    read_u32, u16_at, u32_at,
};
use crate::magic::Magic;
use crate::zip::Parser;
use vstd::prelude::*;

verus! {

/// The trailer of an archive. `entries`, `size` and `offset` describe the
/// central directory; they are set anew whenever the archive is written.
#[derive(Debug, Clone, Copy, PartialEq, Eq)]
pub struct EoCd<TYPE> {
    pub kind: TYPE,
    pub number_of_disk: u16,
    pub directory_starts: u16,
    pub number_of_directory_disk: u16,
    pub entries: u16,
    pub size: u32,
    pub offset: u32,
    pub comment_length: u16,
}

/// The seven fields of the trailer.
pub struct EoCdView {
    pub number_of_disk: u16,
    pub directory_starts: u16,
    pub number_of_directory_disk: u16,
    pub entries: u16,
    pub size: u32,
    pub offset: u32,
    pub comment_length: u16,
}

impl<TYPE> View for EoCd<TYPE> {
    type V = EoCdView;

    open spec fn view(&self) -> EoCdView {
        EoCdView {
            number_of_disk: self.number_of_disk,
            directory_starts: self.directory_starts,
            number_of_directory_disk: self.number_of_directory_disk,
            entries: self.entries,
            size: self.size,
            offset: self.offset,
            comment_length: self.comment_length,
        }
    }
}

/// The signature of the trailer as a number.
pub const EOCD_MAGIC: u32 = 0x06054b50;

/// The bytes of a trailer without comment.
pub const EOCD_SIZE: usize = 22;

/// The farthest from the end that a trailer can start: its 22 bytes and the
/// longest comment.
pub const EOCD_REACH: usize = 65557;

/// The trailer's signature stands at `p`.
pub open spec fn magic_at(s: Seq<u8>, p: int) -> bool {
    avail(s, p, 4) && u32_at(s, p) == EOCD_MAGIC
}

/// The trailer's signature stands `d` bytes before the end.
pub open spec fn stands(s: Seq<u8>, d: int) -> bool {
    magic_at(s, s.len() - d)
}

/// How far from the end the search goes: the reach, or the whole input.
pub open spec fn reach(s: Seq<u8>) -> int {
    if s.len() < EOCD_REACH {
        s.len() as int
    } else {
        EOCD_REACH as int
    }
}

/// The least distance from the end, not below `d`, at which the signature
/// stands.
pub open spec fn scan(s: Seq<u8>, d: int) -> Option<int>
    decreases reach(s) - d + 1,
{
    if d > reach(s) || d < 0 {
        None
    } else if stands(s, d) {
        Some(d)
    } else {
        scan(s, d + 1)
    }
}

/// The distance from the end of the input to the trailer: the occurrence of
/// the signature that lies nearest to the end and leaves room for the
/// trailer's 22 bytes.
pub open spec fn distance(s: Seq<u8>) -> Option<int> {
    scan(s, EOCD_SIZE as int)
}

/// The trailer on the wire.
pub open spec fn wire(e: EoCdView) -> Seq<u8> {
    le32(EOCD_MAGIC) + le16(e.number_of_disk) + le16(e.directory_starts) + le16(
        e.number_of_directory_disk,
    ) + le16(e.entries) + le32(e.size) + le32(e.offset) + le16(e.comment_length)
}

/// The fields of the trailer that starts at `p`.
pub open spec fn fields_at(s: Seq<u8>, p: int) -> EoCdView {
    EoCdView {
        number_of_disk: u16_at(s, p + 4),
        directory_starts: u16_at(s, p + 6),
        number_of_directory_disk: u16_at(s, p + 8),
        entries: u16_at(s, p + 10),
        size: u32_at(s, p + 12),
        offset: u32_at(s, p + 16),
        comment_length: u16_at(s, p + 20),
    }
}

/// The trailer of an archive: the fields behind the signature that
/// `distance` finds.
pub open spec fn decode_of(s: Seq<u8>) -> Result<EoCdView, ZipError> {
    match distance(s) {
        None => Err(ZipError::NotZip),
        Some(d) => Ok(fields_at(s, s.len() - d)),
    }
}

impl EoCd<Parser> {
    /// Finds the trailer and returns its distance from the end of the input.
    pub fn find_offset(data: &[u8]) -> (r: Result<u64, ZipError>)
        ensures
            r matches Ok(d) ==> distance(data@) == Some(d as int),
            r matches Err(e) ==> e == ZipError::NotZip && distance(data@) is None,
    {
        let len: usize = data.len();
        let reach: usize = if len < EOCD_REACH {
            len
        } else {
            EOCD_REACH
        };
        let mut d: usize = EOCD_SIZE;
        while d <= reach
            invariant
                EOCD_SIZE <= d,
                len == data@.len(),
                reach == self::reach(data@),
                distance(data@) == scan(data@, d as int),
            decreases reach + 1 - d,
        {
            match read_u32(data, len - d) {
                Ok(magic) => {
                    if let Some(Magic::EoCd) = Magic::from_number(magic) {
                        return Ok(d as u64);
                    }
                },
                Err(_) => {},
            }
            d += 1;
        }
        Err(ZipError::NotZip)
    }

    /// Finds the trailer and reads its fields.
    pub fn decode(data: &[u8]) -> (r: Result<EoCd<Parser>, ZipError>)
        ensures
            r matches Ok(e) ==> decode_of(data@) == Ok::<EoCdView, ZipError>(e@),
            r matches Err(e) ==> decode_of(data@) == Err::<EoCdView, ZipError>(e),
    {
        let d: usize = Self::find_offset(data)? as usize;
        proof {
            lemma_distance_bounds(data@);
        }
        let p: usize = data.len() - d;
        Ok(
            EoCd {
                kind: Parser,
                number_of_disk: read_u16(data, p + 4)?,
                directory_starts: read_u16(data, p + 6)?,
                number_of_directory_disk: read_u16(data, p + 8)?,
                entries: read_u16(data, p + 10)?,
                size: read_u32(data, p + 12)?,
                offset: read_u32(data, p + 16)?,
                comment_length: read_u16(data, p + 20)?,
            },
        )
    }

    /// Appends the trailer: signature and fields, 22 bytes.
    pub fn encode(&self, out: &mut Vec<u8>)
        ensures
            final(out)@ == old(out)@ + wire(self@),
            wire(self@).len() == EOCD_SIZE,
    {
        put_u32(out, Magic::EoCd.number());
        put_u16(out, self.number_of_disk);
        put_u16(out, self.directory_starts);
        put_u16(out, self.number_of_directory_disk);
        put_u16(out, self.entries);
        put_u32(out, self.size);
        put_u32(out, self.offset);
        put_u16(out, self.comment_length);
        assert(out@ =~= old(out)@ + wire(self@));
    }
}

/// A distance that was found lies between the trailer's size and the reach,
/// the signature stands there, and it stands at no lesser distance that
/// leaves room for a trailer.
pub proof fn lemma_distance_bounds(s: Seq<u8>)
    ensures
        distance(s) matches Some(d) ==> {
            &&& EOCD_SIZE <= d <= reach(s)
            &&& stands(s, d)
            &&& forall|k: int| EOCD_SIZE <= k < d ==> !stands(s, k)
        },
        distance(s) is None ==> forall|k: int|
            EOCD_SIZE <= k <= reach(s) ==> !stands(s, k),
{
    lemma_scan_bounds(s, EOCD_SIZE as int);
}

proof fn lemma_scan_bounds(s: Seq<u8>, from: int)
    requires
        0 <= from,
    ensures
        scan(s, from) matches Some(d) ==> {
            &&& from <= d <= reach(s)
            &&& stands(s, d)
            &&& forall|k: int| from <= k < d ==> !stands(s, k)
        },
        scan(s, from) is None ==> forall|k: int|
            from <= k <= reach(s) ==> !stands(s, k),
    decreases reach(s) - from + 1,
{
    if from <= reach(s) && !stands(s, from) {
        lemma_scan_bounds(s, from + 1);
    }
}

/// The locator finds a trailer where it was put: in an input whose trailer
/// signature stands 22 bytes and a comment of `comment` bytes before the end,
/// the distance found is `22 + comment`, as long as the signature does not
/// stand again at a lesser distance that leaves room for a trailer.
pub proof fn lemma_finds_trailer_before_comment(s: Seq<u8>, comment: int)
    requires
        0 <= comment <= u16::MAX,
        s.len() >= EOCD_SIZE + comment,
        stands(s, EOCD_SIZE + comment),
        forall|k: int| EOCD_SIZE <= k < EOCD_SIZE + comment ==> !stands(s, k),
    ensures
        distance(s) == Some(EOCD_SIZE + comment),
{
    lemma_distance_bounds(s);
}

/// A trailer that ends the input is found at distance 22, whatever
/// precedes it, and its fields are read back as they were written.
pub proof fn lemma_round_trip(pre: Seq<u8>, e: EoCdView)
    ensures
        wire(e).len() == EOCD_SIZE,
        distance(pre + wire(e)) == Some(EOCD_SIZE as int),
        decode_of(pre + wire(e)) == Ok::<EoCdView, ZipError>(e),
{
    let w = wire(e);
    let s = pre + w;
    let p = pre.len() as int;
    assert(s =~= pre + w + Seq::<u8>::empty());
    lemma_embedded(pre, w, Seq::<u8>::empty());
    lemma_wire_fields(e);
    assert(u32_at(s, p) == u32_at(w, 0));
    assert(u16_at(s, p + 4) == u16_at(w, 4));
    assert(u16_at(s, p + 6) == u16_at(w, 6));
    assert(u16_at(s, p + 8) == u16_at(w, 8));
    assert(u16_at(s, p + 10) == u16_at(w, 10));
    assert(u32_at(s, p + 12) == u32_at(w, 12));
    assert(u32_at(s, p + 16) == u32_at(w, 16));
    assert(u16_at(s, p + 20) == u16_at(w, 20));
    assert(stands(s, EOCD_SIZE as int));
}

proof fn lemma_wire_fields(e: EoCdView)
    ensures
        wire(e).len() == EOCD_SIZE,
        u32_at(wire(e), 0) == EOCD_MAGIC,
        fields_at(wire(e), 0) == e,
{
    let w = wire(e);
    let e0 = Seq::<u8>::empty();
    let f1 = le32(EOCD_MAGIC);
    let f2 = f1 + le16(e.number_of_disk);
    let f3 = f2 + le16(e.directory_starts);
    let f4 = f3 + le16(e.number_of_directory_disk);
    let f5 = f4 + le16(e.entries);
    let f6 = f5 + le32(e.size);
    let f7 = f6 + le32(e.offset);
    assert(w =~= e0 + le32(EOCD_MAGIC) + (w.subrange(4, 22)));
    lemma_le32_at(e0, EOCD_MAGIC, w.subrange(4, 22));
    assert(w =~= f1 + le16(e.number_of_disk) + w.subrange(6, 22));
    lemma_le16_at(f1, e.number_of_disk, w.subrange(6, 22));
    assert(w =~= f2 + le16(e.directory_starts) + w.subrange(8, 22));
    lemma_le16_at(f2, e.directory_starts, w.subrange(8, 22));
    assert(w =~= f3 + le16(e.number_of_directory_disk) + w.subrange(10, 22));
    lemma_le16_at(f3, e.number_of_directory_disk, w.subrange(10, 22));
    assert(w =~= f4 + le16(e.entries) + w.subrange(12, 22));
    lemma_le16_at(f4, e.entries, w.subrange(12, 22));
    assert(w =~= f5 + le32(e.size) + w.subrange(16, 22));
    lemma_le32_at(f5, e.size, w.subrange(16, 22));
    assert(w =~= f6 + le32(e.offset) + w.subrange(20, 22));
    lemma_le32_at(f6, e.offset, w.subrange(20, 22));
    assert(w =~= f7 + le16(e.comment_length) + e0);
    lemma_le16_at(f7, e.comment_length, e0);
}

} // verus!
