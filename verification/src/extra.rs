//! Extra fields: the tagged, length-prefixed records that a header carries
//! for timestamps and ownership.

use crate::error::ZipError;
use crate::le::{
    avail, i32_at, le16, le32, le32i, le64, lemma_embedded, lemma_le32_at, lemma_le32i_at,
    lemma_le64_at, lemma_part, put_i32, put_u16, put_u32, put_u64, put_u8, read_i32,
    read_u16, read_u32, read_u64, u16_at, u32_at, u64_at,
};
use vstd::prelude::*;

verus! {

/// One extra field. See <https://libzip.org/specifications/extrafld.txt>.
#[derive(Debug, Clone, Copy, PartialEq, Eq)]
#[allow(inconsistent_fields)]
pub enum Extra {
    /// NTFS times, in 100 ns ticks since 1601.
    NTFS { mtime: u64, atime: u64, ctime: u64 },
    /// Unix times in seconds. A central directory entry carries the
    /// modification time only.
    UnixExtendedTimestamp { mtime: Option<i32>, atime: Option<i32>, ctime: Option<i32> },
    /// Unix owner and group.
    UnixAttrs { uid: u32, gid: u32 },
}

/// The identifier of an NTFS extra field.
pub const NTFS_ID: u16 = 0x000a;

/// The identifier of an extended timestamp.
pub const TIMESTAMP_ID: u16 = 0x5455;

/// The identifier of a Unix owner and group field.
pub const UNIX_ATTRS_ID: u16 = 0x7875;

/// The bytes of an optional 32-bit time: four when present, none otherwise.
pub open spec fn optional_le32i(field: Option<i32>) -> Seq<u8> {
    match field {
        Some(v) => le32i(v),
        None => Seq::empty(),
    }
}

/// What a caller holds after a decoder returned: the same value and the same
/// next position as the model gives, or the same error.
pub open spec fn agrees<T>(r: Result<(T, usize), ZipError>, model: Result<(T, int), ZipError>) -> bool {
    match r {
        Ok((value, next)) => model == Ok::<(T, int), ZipError>((value, next as int)),
        Err(e) => model == Err::<(T, int), ZipError>(e),
    }
}

impl Extra {
    /// The width of an optional time on the wire: four bytes, or none.
    pub open spec fn spec_optional_field_size(field: Option<i32>) -> u16 {
        match field {
            None => 0,
            Some(_) => 4,
        }
    }

    /// `if_present` where the value is held, 0 where it is not.
    pub open spec fn spec_if_present(val: Option<i32>, if_present: u8) -> u8 {
        match val {
            Some(_) => if_present,
            None => 0,
        }
    }

    /// The identifier that opens the record.
    pub open spec fn spec_header_id(&self) -> u16 {
        match *self {
            Extra::NTFS { .. } => NTFS_ID,
            Extra::UnixExtendedTimestamp { .. } => TIMESTAMP_ID,
            Extra::UnixAttrs { .. } => UNIX_ATTRS_ID,
        }
    }

    /// The length that the record declares for the given context.
    pub open spec fn spec_field_size(&self, center: bool) -> u16 {
        match *self {
            Extra::NTFS { .. } => 32,
            Extra::UnixExtendedTimestamp { mtime, atime, ctime } => if center {
                (1 + Extra::spec_optional_field_size(mtime)) as u16
            } else {
                (1 + Extra::spec_optional_field_size(mtime) + Extra::spec_optional_field_size(atime)
                    + Extra::spec_optional_field_size(ctime)) as u16
            },
            Extra::UnixAttrs { .. } => 11,
        }
    }

    /// The bytes that the record takes on the wire in the given context.
    pub open spec fn spec_size(&self, center: bool) -> u16 {
        (4 + self.spec_field_size(center)) as u16
    }

    /// The flag byte of an extended timestamp: one bit for each time held.
    pub open spec fn flags(mtime: Option<i32>, atime: Option<i32>, ctime: Option<i32>) -> u8 {
        (Extra::spec_if_present(mtime, 1) + Extra::spec_if_present(atime, 2) + Extra::spec_if_present(
            ctime,
            4,
        )) as u8
    }

    /// What follows identifier and length on the wire.
    pub open spec fn payload(self, center: bool) -> Seq<u8> {
        match self {
            Extra::NTFS { mtime, atime, ctime } => le32(0) + le16(1) + le16(24) + le64(mtime) + le64(
                atime,
            ) + le64(ctime),
            Extra::UnixExtendedTimestamp { mtime, atime, ctime } => seq![
                Extra::flags(mtime, atime, ctime),
            ] + optional_le32i(mtime) + if center {
                Seq::empty()
            } else {
                optional_le32i(atime) + optional_le32i(ctime)
            },
            Extra::UnixAttrs { uid, gid } => seq![1u8, 4u8] + le32(uid) + seq![4u8] + le32(gid),
        }
    }

    /// The record on the wire. In a central directory entry a timestamp
    /// keeps its flag byte and leaves out the access and the creation time.
    #[verifier::opaque]
    pub open spec fn wire(self, center: bool) -> Seq<u8> {
        le16(self.spec_header_id()) + le16(self.spec_field_size(center)) + self.payload(center)
    }

    /// The record as a decoder sees it after it went over the wire in the
    /// given context.
    pub open spec fn as_written(self, center: bool) -> Extra {
        match self {
            Extra::UnixExtendedTimestamp { mtime, atime, ctime } => if center {
                Extra::UnixExtendedTimestamp { mtime, atime: None, ctime: None }
            } else {
                self
            },
            _ => self,
        }
    }

    /// The timestamp that a flag byte and `len` declared bytes at `p` hold: a
    /// time is present where its bit is set and four bytes of the declared
    /// length are left for it; what is left after the three is padding.
    pub open spec fn timestamp_at(s: Seq<u8>, p: int, len: int) -> Extra {
        let flags = s[p];
        let end = p + len;
        let has_m = flags % 2 == 1 && end - (p + 1) >= 4;
        let a_at = if has_m {
            p + 5
        } else {
            p + 1
        };
        let has_a = flags / 2 % 2 == 1 && end - a_at >= 4;
        let c_at = if has_a {
            a_at + 4
        } else {
            a_at
        };
        let has_c = flags / 4 % 2 == 1 && end - c_at >= 4;
        Extra::UnixExtendedTimestamp {
            mtime: if has_m {
                Some(i32_at(s, p + 1))
            } else {
                None
            },
            atime: if has_a {
                Some(i32_at(s, a_at))
            } else {
                None
            },
            ctime: if has_c {
                Some(i32_at(s, c_at))
            } else {
                None
            },
        }
    }

    /// The record that starts at `p`, with the position behind it.
    #[verifier::opaque]
    pub open spec fn decode_at(s: Seq<u8>, p: int) -> Result<(Extra, int), ZipError> {
        if !avail(s, p, 2) {
            Err(ZipError::UnexpectedEnd)
        } else if u16_at(s, p) != NTFS_ID && u16_at(s, p) != TIMESTAMP_ID && u16_at(s, p)
            != UNIX_ATTRS_ID {
            Err(ZipError::UnsupportedExtra(u16_at(s, p)))
        } else if !avail(s, p, 4) || !avail(s, p + 4, u16_at(s, p + 2) as int) {
            Err(ZipError::UnexpectedEnd)
        } else {
            let id = u16_at(s, p);
            let len = u16_at(s, p + 2) as int;
            let next = p + 4 + len;
            if id == NTFS_ID {
                if len != 32 {
                    Err(ZipError::ExtraLength)
                } else if u16_at(s, p + 8) != 1 {
                    Err(ZipError::InvalidNtfsTag)
                } else if u16_at(s, p + 10) != 24 {
                    Err(ZipError::InvalidNtfsSize)
                } else {
                    Ok(
                        (
                            Extra::NTFS {
                                mtime: u64_at(s, p + 12),
                                atime: u64_at(s, p + 20),
                                ctime: u64_at(s, p + 28),
                            },
                            next,
                        ),
                    )
                }
            } else if id == TIMESTAMP_ID {
                if len < 1 {
                    Err(ZipError::ExtraLength)
                } else if s[p + 4] >= 8 {
                    Err(ZipError::InvalidTimestampFlags)
                } else {
                    Ok((Extra::timestamp_at(s, p + 4, len), next))
                }
            } else {
                if len != 11 {
                    Err(ZipError::ExtraLength)
                } else {
                    Ok((Extra::UnixAttrs { uid: u32_at(s, p + 6), gid: u32_at(s, p + 11) }, next))
                }
            }
        }
    }

    /// The width of an optional time on the wire.
    pub fn optional_field_size(field: &Option<i32>) -> (n: u16)
        ensures
            n == Extra::spec_optional_field_size(*field),
    {
        match field {
            None => 0,
            Some(_) => 4,
        }
    }

    /// The bytes that this record takes on the wire in the given context:
    /// identifier, length and payload.
    #[verifier::when_used_as_spec(spec_size)]
    pub fn size(&self, center: bool) -> (n: u16)
        ensures
            n == self.spec_size(center),
            n == self.wire(center).len(),
    {
        proof {
            Extra::lemma_wire_len(*self, center);
        }
        2 + 2 + self.field_size(center)
    }

    /// The length that this record declares in the given context.
    #[verifier::when_used_as_spec(spec_field_size)]
    pub fn field_size(&self, center: bool) -> (n: u16)
        ensures
            n == self.spec_field_size(center),
            n <= 32,
    {
        match self {
            Extra::NTFS { .. } => 32,
            Extra::UnixExtendedTimestamp { mtime, atime, ctime } => {
                if center {
                    1 + Self::optional_field_size(mtime)
                } else {
                    1 + Self::optional_field_size(mtime) + Self::optional_field_size(atime)
                        + Self::optional_field_size(ctime)
                }
            },
            Extra::UnixAttrs { .. } => 11,
        }
    }

    /// The identifier that opens this record.
    #[verifier::when_used_as_spec(spec_header_id)]
    pub fn header_id(&self) -> (id: u16)
        ensures
            id == self.spec_header_id(),
    {
        match self {
            Extra::NTFS { .. } => 0x000a,
            Extra::UnixExtendedTimestamp { .. } => 0x5455,
            Extra::UnixAttrs { .. } => 0x7875,
        }
    }

    /// `if_present` where the value is held, 0 where it is not.
    #[verifier::when_used_as_spec(spec_if_present)]
    pub fn if_present(val: Option<i32>, if_present: u8) -> (bit: u8)
        ensures
            bit == Extra::spec_if_present(val, if_present),
    {
        match val {
            Some(_) => if_present,
            None => 0,
        }
    }

    /// Appends the record as it stands in the given context.
    pub fn encode(&self, center: bool, out: &mut Vec<u8>)
        ensures
            final(out)@ == old(out)@ + self.wire(center),
    {
        put_u16(out, self.header_id());
        put_u16(out, self.field_size(center));
        let ghost head = out@;
        match self {
            Extra::NTFS { mtime, atime, ctime } => {
                Self::put_ntfs(*mtime, *atime, *ctime, out);
            },
            Extra::UnixExtendedTimestamp { mtime, atime, ctime } => {
                Self::put_timestamp(*mtime, *atime, *ctime, center, out);
            },
            Extra::UnixAttrs { uid, gid } => {
                Self::put_unix_attrs(*uid, *gid, out);
            },
        }
        assert(out@ == head + self.payload(center));
        assert(out@ =~= old(out)@ + self.wire(center)) by {
            reveal(Extra::wire);
        }
    }

    fn put_ntfs(mtime: u64, atime: u64, ctime: u64, out: &mut Vec<u8>)
        ensures
            final(out)@ == old(out)@ + (Extra::NTFS { mtime, atime, ctime }).payload(true),
            final(out)@ == old(out)@ + (Extra::NTFS { mtime, atime, ctime }).payload(false),
    {
        put_u32(out, 0);
        put_u16(out, 1);
        put_u16(out, 24);
        put_u64(out, mtime);
        put_u64(out, atime);
        put_u64(out, ctime);
        assert(out@ =~= old(out)@ + (le32(0) + le16(1) + le16(24) + le64(mtime) + le64(atime)
            + le64(ctime)));
    }

    fn put_unix_attrs(uid: u32, gid: u32, out: &mut Vec<u8>)
        ensures
            final(out)@ == old(out)@ + (Extra::UnixAttrs { uid, gid }).payload(true),
            final(out)@ == old(out)@ + (Extra::UnixAttrs { uid, gid }).payload(false),
    {
        put_u8(out, 1);
        put_u8(out, 4);
        put_u32(out, uid);
        put_u8(out, 4);
        put_u32(out, gid);
        assert(out@ =~= old(out)@ + (seq![1u8, 4u8] + le32(uid) + seq![4u8] + le32(gid)));
    }

    fn put_optional(field: Option<i32>, out: &mut Vec<u8>)
        ensures
            final(out)@ == old(out)@ + optional_le32i(field),
    {
        if let Some(t) = field {
            put_i32(out, t);
        }
        assert(out@ =~= old(out)@ + optional_le32i(field));
    }

    fn put_timestamp(
        mtime: Option<i32>,
        atime: Option<i32>,
        ctime: Option<i32>,
        center: bool,
        out: &mut Vec<u8>,
    )
        ensures
            final(out)@ == old(out)@ + (Extra::UnixExtendedTimestamp {
                mtime,
                atime,
                ctime,
            }).payload(center),
    {
        let flags: u8 = Self::if_present(mtime, 1) + Self::if_present(atime, 2) + Self::if_present(
            ctime,
            4,
        );
        put_u8(out, flags);
        Self::put_optional(mtime, out);
        if center {
            assert(out@ =~= old(out)@ + (seq![flags] + optional_le32i(mtime) + Seq::<u8>::empty()));
        } else {
            Self::put_optional(atime, out);
            Self::put_optional(ctime, out);
            assert(out@ =~= old(out)@ + (seq![flags] + optional_le32i(mtime) + (optional_le32i(
                atime,
            ) + optional_le32i(ctime))));
        }
    }

    /// Reads the record that starts at `pos` and returns it with the position
    /// behind it. The whole declared length is consumed.
    pub fn decode(data: &[u8], pos: usize) -> (r: Result<(Extra, usize), ZipError>)
        ensures
            agrees(r, Extra::decode_at(data@, pos as int)),
    {
        reveal(Extra::decode_at);
        let id: u16 = read_u16(data, pos)?;
        if id != NTFS_ID && id != TIMESTAMP_ID && id != UNIX_ATTRS_ID {
            return Err(ZipError::UnsupportedExtra(id));
        }
        if data.len() - pos < 4 {
            return Err(ZipError::UnexpectedEnd);
        }
        let len: usize = read_u16(data, pos + 2)? as usize;
        if data.len() - (pos + 4) < len {
            return Err(ZipError::UnexpectedEnd);
        }
        let body: usize = pos + 4;
        let next: usize = body + len;
        if id == NTFS_ID {
            if len != 32 {
                return Err(ZipError::ExtraLength);
            }
            let tag: u16 = read_u16(data, body + 4)?;
            if tag != 1 {
                return Err(ZipError::InvalidNtfsTag);
            }
            let size: u16 = read_u16(data, body + 6)?;
            if size != 24 {
                return Err(ZipError::InvalidNtfsSize);
            }
            let mtime: u64 = read_u64(data, body + 8)?;
            let atime: u64 = read_u64(data, body + 16)?;
            let ctime: u64 = read_u64(data, body + 24)?;
            Ok((Extra::NTFS { mtime, atime, ctime }, next))
        } else if id == TIMESTAMP_ID {
            if len < 1 {
                return Err(ZipError::ExtraLength);
            }
            let flags: u8 = data[body];
            if flags >= 8 {
                return Err(ZipError::InvalidTimestampFlags);
            }
            let mut at: usize = body + 1;
            let mut mtime: Option<i32> = None;
            if flags % 2 == 1 && next - at >= 4 {
                mtime = Some(read_i32(data, at)?);
                at = at + 4;
            }
            let mut atime: Option<i32> = None;
            if flags / 2 % 2 == 1 && next - at >= 4 {
                atime = Some(read_i32(data, at)?);
                at = at + 4;
            }
            let mut ctime: Option<i32> = None;
            if flags / 4 % 2 == 1 && next - at >= 4 {
                ctime = Some(read_i32(data, at)?);
            }
            Ok((Extra::UnixExtendedTimestamp { mtime, atime, ctime }, next))
        } else {
            if len != 11 {
                return Err(ZipError::ExtraLength);
            }
            let uid: u32 = read_u32(data, body + 2)?;
            let gid: u32 = read_u32(data, body + 7)?;
            Ok((Extra::UnixAttrs { uid, gid }, next))
        }
    }

    /// Whatever was written is read back: a record encoded for a context and
    /// placed anywhere in a buffer decodes to the record as that context
    /// keeps it, and the decoder consumes exactly the bytes that `size` gives.
    pub proof fn lemma_round_trip(e: Extra, center: bool, pre: Seq<u8>, post: Seq<u8>)
        ensures
            Extra::decode_at(pre + e.wire(center) + post, pre.len() as int) == Ok::<
                (Extra, int),
                ZipError,
            >((e.as_written(center), pre.len() + e.spec_size(center))),
            e.wire(center).len() == e.spec_size(center),
    {
        reveal(Extra::decode_at);
        let w = e.wire(center);
        let s = pre + w + post;
        let p = pre.len() as int;
        lemma_embedded(pre, w, post);
        Extra::lemma_wire_len(e, center);
        match e {
            Extra::NTFS { mtime, atime, ctime } => {
                Extra::lemma_ntfs_fields(mtime, atime, ctime);
                assert(u16_at(s, p) == u16_at(w, 0));
                assert(u16_at(s, p + 2) == u16_at(w, 2));
                assert(u16_at(s, p + 8) == u16_at(w, 8));
                assert(u16_at(s, p + 10) == u16_at(w, 10));
                assert(u64_at(s, p + 12) == u64_at(w, 12));
                assert(u64_at(s, p + 20) == u64_at(w, 20));
                assert(u64_at(s, p + 28) == u64_at(w, 28));
            },
            Extra::UnixExtendedTimestamp { mtime, atime, ctime } => {
                Extra::lemma_timestamp_fields(mtime, atime, ctime, center);
                assert(u16_at(s, p) == u16_at(w, 0));
                assert(u16_at(s, p + 2) == u16_at(w, 2));
                assert(s[p + 4] == w[4]);
                assert(w.len() >= 9 ==> i32_at(s, p + 5) == i32_at(w, 5));
                assert(w.len() >= 13 ==> i32_at(s, p + 9) == i32_at(w, 9));
                assert(w.len() >= 17 ==> i32_at(s, p + 13) == i32_at(w, 13));
                assert(Extra::timestamp_at(s, p + 4, w.len() - 4) == Extra::timestamp_at(
                    w,
                    4,
                    w.len() - 4,
                ));
            },
            Extra::UnixAttrs { uid, gid } => {
                Extra::lemma_unix_attrs_fields(uid, gid);
                assert(u16_at(s, p) == u16_at(w, 0));
                assert(u16_at(s, p + 2) == u16_at(w, 2));
                assert(u32_at(s, p + 6) == u32_at(w, 6));
                assert(u32_at(s, p + 11) == u32_at(w, 11));
            },
        }
    }

    proof fn lemma_ntfs_fields(mtime: u64, atime: u64, ctime: u64)
        ensures
            ({
                let w = (Extra::NTFS { mtime, atime, ctime }).wire(true);
                &&& w == (Extra::NTFS { mtime, atime, ctime }).wire(false)
                &&& w.len() == 36
                &&& u16_at(w, 0) == NTFS_ID
                &&& u16_at(w, 2) == 32
                &&& u16_at(w, 8) == 1
                &&& u16_at(w, 10) == 24
                &&& u64_at(w, 12) == mtime
                &&& u64_at(w, 20) == atime
                &&& u64_at(w, 28) == ctime
            }),
    {
        reveal(Extra::wire);
        let w = (Extra::NTFS { mtime, atime, ctime }).wire(true);
        let head = le16(NTFS_ID) + le16(32) + le32(0) + le16(1) + le16(24);
        assert(head.len() == 12);
        assert(w =~= head + le64(mtime) + (le64(atime) + le64(ctime)));
        lemma_le64_at(head, mtime, le64(atime) + le64(ctime));
        assert(w =~= (head + le64(mtime)) + le64(atime) + le64(ctime));
        lemma_le64_at(head + le64(mtime), atime, le64(ctime));
        assert(w =~= (head + le64(mtime) + le64(atime)) + le64(ctime) + Seq::<u8>::empty());
        lemma_le64_at(head + le64(mtime) + le64(atime), ctime, Seq::<u8>::empty());
        assert(forall|k: int| 0 <= k < 12 ==> w[k] == head[k]);
    }

    proof fn lemma_unix_attrs_fields(uid: u32, gid: u32)
        ensures
            ({
                let w = (Extra::UnixAttrs { uid, gid }).wire(true);
                &&& w == (Extra::UnixAttrs { uid, gid }).wire(false)
                &&& w.len() == 15
                &&& u16_at(w, 0) == UNIX_ATTRS_ID
                &&& u16_at(w, 2) == 11
                &&& u32_at(w, 6) == uid
                &&& u32_at(w, 11) == gid
            }),
    {
        reveal(Extra::wire);
        let w = (Extra::UnixAttrs { uid, gid }).wire(true);
        let head = le16(UNIX_ATTRS_ID) + le16(11) + seq![1u8, 4u8];
        assert(w =~= head + le32(uid) + (seq![4u8] + le32(gid)));
        lemma_le32_at(head, uid, seq![4u8] + le32(gid));
        assert(w =~= (head + le32(uid) + seq![4u8]) + le32(gid) + Seq::<u8>::empty());
        lemma_le32_at(head + le32(uid) + seq![4u8], gid, Seq::<u8>::empty());
        assert(forall|k: int| 0 <= k < 6 ==> w[k] == head[k]);
    }

    proof fn lemma_timestamp_fields(
        mtime: Option<i32>,
        atime: Option<i32>,
        ctime: Option<i32>,
        center: bool,
    )
        ensures
            ({
                let e = Extra::UnixExtendedTimestamp { mtime, atime, ctime };
                let w = e.wire(center);
                &&& w.len() == e.spec_size(center)
                &&& u16_at(w, 0) == TIMESTAMP_ID
                &&& u16_at(w, 2) == e.spec_field_size(center)
                &&& w[4] == Extra::flags(mtime, atime, ctime)
                &&& Extra::timestamp_at(w, 4, w.len() - 4) == e.as_written(center)
            }),
    {
        reveal(Extra::wire);
        let e = Extra::UnixExtendedTimestamp { mtime, atime, ctime };
        let w = e.wire(center);
        let flags = Extra::flags(mtime, atime, ctime);
        let head = le16(TIMESTAMP_ID) + le16(e.spec_field_size(center)) + seq![flags];
        let a = if center {
            None
        } else {
            atime
        };
        let c = if center {
            None
        } else {
            ctime
        };
        let tail = optional_le32i(mtime) + optional_le32i(a) + optional_le32i(c);
        assert(w =~= head + tail);
        assert(head.len() == 5);
        assert(forall|k: int| 0 <= k < 5 ==> w[k] == head[k]);
        assert(u16_at(w, 0) == TIMESTAMP_ID);
        assert(u16_at(w, 2) == e.spec_field_size(center));
        assert(w[4] == flags);
        Extra::lemma_times_read_back(head, mtime, a, c);
        let got = Extra::timestamp_at(w, 4, w.len() - 4);
        assert(flags % 2 == 1 <==> mtime is Some);
        assert(flags / 2 % 2 == 1 <==> atime is Some);
        assert(flags / 4 % 2 == 1 <==> ctime is Some);
        assert(got == e.as_written(center));
    }

    /// Up to three optional times written after `head` are read back where
    /// each one starts.
    proof fn lemma_times_read_back(
        head: Seq<u8>,
        m: Option<i32>,
        a: Option<i32>,
        c: Option<i32>,
    )
        ensures
            ({
                let w = head + (optional_le32i(m) + optional_le32i(a) + optional_le32i(c));
                let a_at = head.len() + optional_le32i(m).len();
                let c_at = a_at + optional_le32i(a).len();
                &&& w.len() == c_at + optional_le32i(c).len()
                &&& optional_le32i(m).len() == Extra::spec_optional_field_size(m)
                &&& optional_le32i(a).len() == Extra::spec_optional_field_size(a)
                &&& optional_le32i(c).len() == Extra::spec_optional_field_size(c)
                &&& m matches Some(t) ==> i32_at(w, head.len() as int) == t
                &&& a matches Some(t) ==> i32_at(w, a_at as int) == t
                &&& c matches Some(t) ==> i32_at(w, c_at as int) == t
            }),
    {
        let w = head + (optional_le32i(m) + optional_le32i(a) + optional_le32i(c));
        if let Some(t) = m {
            assert(w =~= head + le32i(t) + (optional_le32i(a) + optional_le32i(c)));
            lemma_le32i_at(head, t, optional_le32i(a) + optional_le32i(c));
        }
        let mid = head + optional_le32i(m);
        if let Some(t) = a {
            assert(w =~= mid + le32i(t) + optional_le32i(c));
            lemma_le32i_at(mid, t, optional_le32i(c));
        }
        let late = mid + optional_le32i(a);
        if let Some(t) = c {
            assert(w =~= late + le32i(t) + Seq::<u8>::empty());
            lemma_le32i_at(late, t, Seq::<u8>::empty());
        }
    }

    /// A decoded record ends behind its start and within the input.
    pub proof fn lemma_decode_advances(s: Seq<u8>, p: int)
        ensures
            Extra::decode_at(s, p) is Ok ==> p + 4 <= Extra::decode_at(s, p)->Ok_0.1 <= s.len(),
    {
        reveal(Extra::decode_at);
    }

    /// The record takes on the wire exactly the bytes that `size` announces.
    pub proof fn lemma_wire_len(e: Extra, center: bool)
        ensures
            e.wire(center).len() == e.spec_size(center),
            5 <= e.spec_size(center) <= 36,
    {
        reveal(Extra::wire);
    }
}

/// The bytes that a run of records takes in the given context.
pub open spec fn run_size(extras: Seq<Extra>, center: bool) -> nat
    decreases extras.len(),
{
    if extras.len() == 0 {
        0
    } else {
        run_size(extras.drop_last(), center) + extras.last().spec_size(center) as nat
    }
}

/// A run of records on the wire: one after the other, in order.
pub open spec fn run_wire(extras: Seq<Extra>, center: bool) -> Seq<u8>
    decreases extras.len(),
{
    if extras.len() == 0 {
        Seq::empty()
    } else {
        run_wire(extras.drop_last(), center) + extras.last().wire(center)
    }
}

/// A run of records as a decoder sees it after it went over the wire.
pub open spec fn run_as_written(extras: Seq<Extra>, center: bool) -> Seq<Extra> {
    Seq::new(extras.len(), |i: int| extras[i].as_written(center))
}

/// The records that fill `s` from `p` up to `end` exactly. A run that stops
/// short of `end` goes on; one that passes it is refused.
pub open spec fn decode_run_at(s: Seq<u8>, p: int, end: int) -> Result<Seq<Extra>, ZipError>
    decreases s.len() - p,
    via decode_run_at_ends
{
    if p >= end {
        if p == end {
            Ok(Seq::empty())
        } else {
            Err(ZipError::ExtraLength)
        }
    } else {
        match Extra::decode_at(s, p) {
            Err(e) => Err(e),
            Ok((first, next)) => match decode_run_at(s, next, end) {
                Err(e) => Err(e),
                Ok(rest) => Ok(seq![first] + rest),
            },
        }
    }
}

#[via_fn]
proof fn decode_run_at_ends(s: Seq<u8>, p: int, end: int) {
    Extra::lemma_decode_advances(s, p);
}

/// The bytes that the run takes in the given context, where they fit the
/// 16-bit length field of a header.
pub fn run_length(extras: &Vec<Extra>, center: bool) -> (r: Option<u16>)
    ensures
        r matches Some(n) ==> n == run_size(extras@, center),
        r is None ==> run_size(extras@, center) > u16::MAX,
{
    let mut total: u16 = 0;
    let mut i: usize = 0;
    while i < extras.len()
        invariant
            i <= extras@.len(),
            total == run_size(extras@.take(i as int), center),
        decreases extras@.len() - i,
    {
        let size: u16 = extras[i].size(center);
        proof {
            assert(extras@.take(i + 1).drop_last() =~= extras@.take(i as int));
            lemma_run_size_grows(extras@, center, i + 1);
        }
        if size > u16::MAX - total {
            return None;
        }
        total = total + size;
        i += 1;
    }
    proof {
        assert(extras@.take(i as int) =~= extras@);
    }
    Some(total)
}

/// `base` and the bytes that the run takes in the given context.
pub fn add_run_size(base: usize, extras: &Vec<Extra>, center: bool) -> (total: usize)
    requires
        base + run_size(extras@, center) <= usize::MAX,
    ensures
        total == base + run_size(extras@, center),
{
    let mut total: usize = base;
    let mut i: usize = 0;
    while i < extras.len()
        invariant
            i <= extras@.len(),
            total == base + run_size(extras@.take(i as int), center),
            base + run_size(extras@, center) <= usize::MAX,
        decreases extras@.len() - i,
    {
        proof {
            assert(extras@.take(i + 1).drop_last() =~= extras@.take(i as int));
            lemma_run_size_grows(extras@, center, i + 1);
        }
        total = total + extras[i].size(center) as usize;
        i += 1;
    }
    proof {
        assert(extras@.take(i as int) =~= extras@);
    }
    total
}

/// Appends the run as it stands in the given context.
pub fn encode_run(extras: &Vec<Extra>, center: bool, out: &mut Vec<u8>)
    ensures
        final(out)@ == old(out)@ + run_wire(extras@, center),
{
    let mut i: usize = 0;
    while i < extras.len()
        invariant
            i <= extras@.len(),
            out@ == old(out)@ + run_wire(extras@.take(i as int), center),
        decreases extras@.len() - i,
    {
        extras[i].encode(center, out);
        proof {
            assert(extras@.take(i + 1).drop_last() =~= extras@.take(i as int));
            assert(out@ =~= old(out)@ + run_wire(extras@.take(i + 1), center));
        }
        i += 1;
    }
    proof {
        assert(extras@.take(i as int) =~= extras@);
    }
}

/// Reads the records that fill the `len` bytes from `pos` on.
pub fn decode_run(data: &[u8], pos: usize, len: u16) -> (r: Result<Vec<Extra>, ZipError>)
    ensures
        r matches Ok(v) ==> decode_run_at(data@, pos as int, pos + len) == Ok::<
            Seq<Extra>,
            ZipError,
        >(v@),
        r matches Err(e) ==> decode_run_at(data@, pos as int, pos + len) == Err::<
            Seq<Extra>,
            ZipError,
        >(e),
{
    let mut extras: Vec<Extra> = Vec::new();
    if pos > data.len() {
        if len == 0 {
            return Ok(extras);
        }
        proof {
            reveal(Extra::decode_at);
        }
        return Err(ZipError::UnexpectedEnd);
    }
    if len as usize > data.len() - pos {
        // The run cannot be complete: find the error that reading it meets.
        let mut at: usize = pos;
        loop
            invariant
                pos <= at <= data@.len() < pos + len,
                decode_run_at(data@, pos as int, pos + len) == decode_run_at(
                    data@,
                    at as int,
                    pos + len,
                ),
            decreases data@.len() - at,
        {
            match Extra::decode(data, at) {
                Err(e) => {
                    return Err(e);
                },
                Ok((_, next)) => {
                    proof {
                        lemma_run_error_passes(data@, at as int, pos + len);
                    }
                    at = next;
                },
            }
        }
    }
    let end: usize = pos + len as usize;
    let mut at: usize = pos;
    while at < end
        invariant
            pos <= at <= data@.len(),
            end == pos + len,
            end <= data@.len(),
            run_prefix(data@, pos as int, end as int, extras@, at as int),
        decreases data@.len() - at,
    {
        match Extra::decode(data, at) {
            Err(e) => {
                return Err(e);
            },
            Ok((extra, next)) => {
                proof {
                    Extra::lemma_decode_advances(data@, at as int);
                    let rest = decode_run_at(data@, next as int, end as int);
                    if let Ok(tail) = rest {
                        assert(extras@ + (seq![extra] + tail) =~= extras@.push(extra) + tail);
                    }
                }
                extras.push(extra);
                at = next;
            },
        }
    }
    if at > end {
        return Err(ZipError::ExtraLength);
    }
    proof {
        assert(extras@ + Seq::<Extra>::empty() =~= extras@);
    }
    Ok(extras)
}

/// The whole run from `start` decodes as `done` followed by the run from
/// `at`, and fails as the run from `at` fails.
pub open spec fn run_prefix(s: Seq<u8>, start: int, end: int, done: Seq<Extra>, at: int) -> bool {
    decode_run_at(s, start, end) == match decode_run_at(s, at, end) {
        Ok(rest) => Ok::<Seq<Extra>, ZipError>(done + rest),
        Err(e) => Err(e),
    }
}

proof fn lemma_run_size_grows(extras: Seq<Extra>, center: bool, n: int)
    requires
        0 <= n <= extras.len(),
    ensures
        run_size(extras.take(n), center) <= run_size(extras, center),
    decreases extras.len() - n,
{
    if n < extras.len() {
        assert(extras.take(n + 1).drop_last() =~= extras.take(n));
        lemma_run_size_grows(extras, center, n + 1);
    } else {
        assert(extras.take(n) =~= extras);
    }
}

/// A run that decodes ends within its input.
pub proof fn lemma_run_ends_within(s: Seq<u8>, p: int, end: int)
    requires
        0 <= p <= s.len(),
        decode_run_at(s, p, end) is Ok,
    ensures
        end <= s.len(),
{
    if end > s.len() {
        lemma_run_fails(s, p, end);
    }
}

/// A run whose end lies behind its input fails with the error of the record
/// at which the input ends, whatever was decoded before it.
proof fn lemma_run_error_passes(s: Seq<u8>, p: int, end: int)
    requires
        0 <= p <= s.len() < end,
        Extra::decode_at(s, p) is Ok,
    ensures
        decode_run_at(s, p, end) == decode_run_at(s, Extra::decode_at(s, p)->Ok_0.1, end),
        p < Extra::decode_at(s, p)->Ok_0.1 <= s.len(),
{
    let next = Extra::decode_at(s, p)->Ok_0.1;
    Extra::lemma_decode_advances(s, p);
    lemma_run_fails(s, next, end);
}

proof fn lemma_run_fails(s: Seq<u8>, p: int, end: int)
    requires
        0 <= p <= s.len() < end,
    ensures
        decode_run_at(s, p, end) is Err,
    decreases s.len() - p,
{
    match Extra::decode_at(s, p) {
        Err(e) => {},
        Ok((first, next)) => {
            Extra::lemma_decode_advances(s, p);
            lemma_run_fails(s, next, end);
        },
    }
}

/// A run on the wire is its first record, then the run of the others.
pub proof fn lemma_run_front(extras: Seq<Extra>, center: bool)
    requires
        extras.len() > 0,
    ensures
        run_wire(extras, center) == extras[0].wire(center) + run_wire(extras.drop_first(), center),
        run_size(extras, center) == extras[0].spec_size(center) + run_size(
            extras.drop_first(),
            center,
        ),
    decreases extras.len(),
{
    if extras.len() == 1 {
        assert(extras.drop_last() =~= Seq::<Extra>::empty());
        assert(extras.drop_first() =~= Seq::<Extra>::empty());
        assert(run_wire(extras, center) =~= extras[0].wire(center) + run_wire(
            extras.drop_first(),
            center,
        ));
    } else {
        lemma_run_front(extras.drop_last(), center);
        assert(extras.drop_last().drop_first() =~= extras.drop_first().drop_last());
        assert(extras.drop_first().last() == extras.last());
        assert(extras.drop_last()[0] == extras[0]);
        assert(run_wire(extras, center) =~= extras[0].wire(center) + run_wire(
            extras.drop_first(),
            center,
        ));
    }
}

/// A run takes on the wire exactly the bytes that `run_size` gives.
pub proof fn lemma_run_wire_len(extras: Seq<Extra>, center: bool)
    ensures
        run_wire(extras, center).len() == run_size(extras, center),
    decreases extras.len(),
{
    if extras.len() > 0 {
        lemma_run_wire_len(extras.drop_last(), center);
        Extra::lemma_wire_len(extras.last(), center);
    }
}

/// A run written after `pre` is read back, each record as its context
/// keeps it, and the decoder stops exactly behind the run.
pub proof fn lemma_run_round_trip(pre: Seq<u8>, extras: Seq<Extra>, center: bool, post: Seq<u8>)
    ensures
        run_wire(extras, center).len() == run_size(extras, center),
        decode_run_at(
            pre + run_wire(extras, center) + post,
            pre.len() as int,
            (pre.len() + run_size(extras, center)) as int,
        ) == Ok::<Seq<Extra>, ZipError>(run_as_written(extras, center)),
    decreases extras.len(),
{
    lemma_run_wire_len(extras, center);
    let s = pre + run_wire(extras, center) + post;
    if extras.len() > 0 {
        let first = extras[0].wire(center);
        let others = extras.drop_first();
        let rest = run_wire(others, center);
        lemma_run_front(extras, center);
        lemma_run_wire_len(others, center);
        Extra::lemma_wire_len(extras[0], center);
        lemma_part(pre, first, rest, post);
        Extra::lemma_round_trip(extras[0], center, pre, rest + post);
        lemma_run_round_trip(pre + first, others, center, post);
        assert(seq![extras[0].as_written(center)] + run_as_written(others, center)
            =~= run_as_written(extras, center));
        let p = pre.len() as int;
        let next = p + extras[0].spec_size(center);
        let end = p + run_size(extras, center);
        assert(Extra::decode_at(s, p) == Ok::<(Extra, int), ZipError>(
            (extras[0].as_written(center), next),
        ));
        assert(decode_run_at(s, next, end) == Ok::<Seq<Extra>, ZipError>(
            run_as_written(others, center),
        ));
    } else {
        assert(run_as_written(extras, center) =~= Seq::<Extra>::empty());
    }
}

/// In a local file header every record is kept as it is.
pub proof fn lemma_run_kept(extras: Seq<Extra>)
    ensures
        run_as_written(extras, false) == extras,
{
    assert(run_as_written(extras, false) =~= extras);
}

} // verus!
