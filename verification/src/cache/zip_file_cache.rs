//! Local file headers in a snapshot: fifteen words, the name as a blob, and
//! the extra fields.

use crate::cache::{
    blob_at, blob_wire, flag, put_blob, put_run, put_words, read_blob, read_run, read_words,
    run_restored_at, run_snapshot, words_at, words_wire,
};
use crate::directory::CompressionType;
use crate::error::ZipError;
use crate::extra::Extra;
use crate::le::avail;
use crate::text::{is_name, name_bytes, name_of, string_from_utf8};
use crate::zip::{Cache, Parser};
use crate::zip_file::{DataDescriptor, ZipFile, ZipFileView};
use vstd::prelude::*;
use vstd::string::StringSliceAdditionalSpecFns;

verus! {

/// The number of words that a local file header takes in a snapshot.
pub const HEADER_WORDS: usize = 15;

/// The numbers of a header as words. A header without data descriptor has
/// zeros in the descriptor's place.
#[verifier::opaque]
pub open spec fn header_words(f: ZipFileView) -> Seq<u64> {
    seq![
        f.min_version as u64,
        f.flags as u64,
        f.compression_method.value() as u64,
        f.last_modification_time as u64,
        f.last_modification_date as u64,
        f.crc_32_uncompressed_data as u64,
        f.compressed_size as u64,
        f.uncompressed_size as u64,
        f.file_name_length as u64,
        f.extra_field_length as u64,
        flag(f.data_descriptor is Some),
        match f.data_descriptor {
            Some(d) => d.crc32 as u64,
            None => 0,
        },
        match f.data_descriptor {
            Some(d) => d.compressed_size as u64,
            None => 0,
        },
        match f.data_descriptor {
            Some(d) => d.uncompressed_size as u64,
            None => 0,
        },
        f.data_position,
    ]
}

/// The words can stand for the numbers of a header.
#[verifier::opaque]
pub open spec fn header_words_ok(w: Seq<u64>) -> bool {
    &&& w[0] <= u16::MAX
    &&& w[1] <= u16::MAX
    &&& w[2] <= u16::MAX
    &&& CompressionType::of(w[2] as u16) is Some
    &&& w[3] <= u16::MAX
    &&& w[4] <= u16::MAX
    &&& w[5] <= u32::MAX
    &&& w[6] <= u32::MAX
    &&& w[7] <= u32::MAX
    &&& w[8] <= u16::MAX
    &&& w[9] <= u16::MAX
    &&& w[10] <= 1
    &&& w[11] <= u32::MAX
    &&& w[12] <= u32::MAX
    &&& w[13] <= u32::MAX
}

/// The header that fifteen words, a name and extra fields make up.
#[verifier::opaque]
pub open spec fn header_of(w: Seq<u64>, name: Seq<char>, extras: Seq<Extra>) -> ZipFileView {
    ZipFileView {
        min_version: w[0] as u16,
        flags: w[1] as u16,
        compression_method: CompressionType::of(w[2] as u16)->0,
        last_modification_time: w[3] as u16,
        last_modification_date: w[4] as u16,
        crc_32_uncompressed_data: w[5] as u32,
        compressed_size: w[6] as u32,
        uncompressed_size: w[7] as u32,
        file_name_length: w[8] as u16,
        extra_field_length: w[9] as u16,
        file_name: name,
        extra_fields: extras,
        data_descriptor: if w[10] == 1 {
            Some(
                DataDescriptor {
                    crc32: w[11] as u32,
                    compressed_size: w[12] as u32,
                    uncompressed_size: w[13] as u32,
                },
            )
        } else {
            None
        },
        data_position: w[14],
    }
}

/// What a header holds is short enough to be counted in 64 bits, as
/// everything in memory is.
pub open spec fn header_countable(f: ZipFileView) -> bool {
    &&& name_bytes(f.file_name).len() <= u64::MAX
    &&& f.extra_fields.len() <= u64::MAX
}

/// A header in a snapshot.
#[verifier::opaque]
pub open spec fn header_snapshot(f: ZipFileView) -> Seq<u8> {
    words_wire(header_words(f)) + (blob_wire(name_bytes(f.file_name)) + run_snapshot(f.extra_fields))
}

/// The header whose snapshot starts at `p`, with the position behind it.
#[verifier::opaque]
pub open spec fn header_restored_at(s: Seq<u8>, p: int) -> Result<(ZipFileView, int), ZipError> {
    if !avail(s, p, 120) {
        Err(ZipError::UnexpectedEnd)
    } else if !header_words_ok(words_at(s, p, 15)) {
        Err(ZipError::InvalidCache)
    } else {
        match blob_at(s, p + 120) {
            Err(e) => Err(e),
            Ok((name, extras_at)) => if !is_name(name) {
                Err(ZipError::InvalidName)
            } else {
                match run_restored_at(s, extras_at) {
                    Err(e) => Err(e),
                    Ok((extras, next)) => Ok(
                        (header_of(words_at(s, p, 15), name_of(name), extras), next),
                    ),
                }
            },
        }
    }
}

impl ZipFile<Parser> {
    /// The header as part of a snapshot.
    pub fn into_cache(self) -> (r: ZipFile<Cache>)
        ensures
            r@ == self@,
    {
        ZipFile {
            kind: Cache,
            min_version: self.min_version,
            flags: self.flags,
            compression_method: self.compression_method,
            last_modification_time: self.last_modification_time,
            last_modification_date: self.last_modification_date,
            crc_32_uncompressed_data: self.crc_32_uncompressed_data,
            compressed_size: self.compressed_size,
            uncompressed_size: self.uncompressed_size,
            file_name_length: self.file_name_length,
            extra_field_length: self.extra_field_length,
            file_name: self.file_name,
            extra_fields: self.extra_fields,
            data_descriptor: self.data_descriptor,
            data_position: self.data_position,
        }
    }
}

impl ZipFile<Cache> {
    /// The header as part of an archive.
    pub fn to_parser(self) -> (r: ZipFile<Parser>)
        ensures
            r@ == self@,
    {
        ZipFile {
            kind: Parser,
            min_version: self.min_version,
            flags: self.flags,
            compression_method: self.compression_method,
            last_modification_time: self.last_modification_time,
            last_modification_date: self.last_modification_date,
            crc_32_uncompressed_data: self.crc_32_uncompressed_data,
            compressed_size: self.compressed_size,
            uncompressed_size: self.uncompressed_size,
            file_name_length: self.file_name_length,
            extra_field_length: self.extra_field_length,
            file_name: self.file_name,
            extra_fields: self.extra_fields,
            data_descriptor: self.data_descriptor,
            data_position: self.data_position,
        }
    }

    /// Appends the header's snapshot.
    pub fn encode(&self, out: &mut Vec<u8>)
        ensures
            final(out)@ == old(out)@ + header_snapshot(self@),
            header_countable(self@),
    {
        let mut words: Vec<u64> = Vec::new();
        words.push(self.min_version as u64);
        words.push(self.flags as u64);
        words.push(self.compression_method.number() as u64);
        words.push(self.last_modification_time as u64);
        words.push(self.last_modification_date as u64);
        words.push(self.crc_32_uncompressed_data as u64);
        words.push(self.compressed_size as u64);
        words.push(self.uncompressed_size as u64);
        words.push(self.file_name_length as u64);
        words.push(self.extra_field_length as u64);
        match &self.data_descriptor {
            Some(d) => {
                words.push(1);
                words.push(d.crc32 as u64);
                words.push(d.compressed_size as u64);
                words.push(d.uncompressed_size as u64);
            },
            None => {
                words.push(0);
                words.push(0);
                words.push(0);
                words.push(0);
            },
        }
        words.push(self.data_position);
        assert(words@ =~= header_words(self@)) by {
            reveal(header_words);
        }
        put_words(out, words.as_slice());
        put_blob(out, self.file_name.as_str().as_bytes());
        put_run(out, &self.extra_fields);
        assert(out@ =~= old(out)@ + header_snapshot(self@)) by {
            reveal(header_snapshot);
        }
    }

    /// Reads the header whose snapshot starts at `pos` and returns it with
    /// the position behind it.
    pub fn decode(data: &[u8], pos: usize) -> (r: Result<(ZipFile<Cache>, usize), ZipError>)
        ensures
            r matches Ok((f, next)) ==> header_restored_at(data@, pos as int) == Ok::<
                (ZipFileView, int),
                ZipError,
            >((f@, next as int)),
            r matches Err(e) ==> header_restored_at(data@, pos as int) == Err::<
                (ZipFileView, int),
                ZipError,
            >(e),
    {
        reveal(header_restored_at);
        reveal(header_words_ok);
        reveal(header_of);
        let w: Vec<u64> = read_words(data, pos, HEADER_WORDS)?;
        if w[0] > u16::MAX as u64 || w[1] > u16::MAX as u64 || w[2] > u16::MAX as u64 {
            return Err(ZipError::InvalidCache);
        }
        let compression_method: CompressionType = match CompressionType::from_number(w[2] as u16) {
            Some(m) => m,
            None => {
                return Err(ZipError::InvalidCache);
            },
        };
        if w[3] > u16::MAX as u64 || w[4] > u16::MAX as u64 || w[5] > u32::MAX as u64 || w[6]
            > u32::MAX as u64 || w[7] > u32::MAX as u64 || w[8] > u16::MAX as u64 || w[9]
            > u16::MAX as u64 || w[10] > 1 || w[11] > u32::MAX as u64 || w[12] > u32::MAX as u64
            || w[13] > u32::MAX as u64 {
            return Err(ZipError::InvalidCache);
        }
        let (name, extras_at) = read_blob(data, pos + 120)?;
        let file_name: String = match string_from_utf8(name) {
            Some(s) => s,
            None => {
                return Err(ZipError::InvalidName);
            },
        };
        let (extra_fields, next) = read_run(data, extras_at)?;
        Ok(
            (
                ZipFile {
                    kind: Cache,
                    min_version: w[0] as u16,
                    flags: w[1] as u16,
                    compression_method,
                    last_modification_time: w[3] as u16,
                    last_modification_date: w[4] as u16,
                    crc_32_uncompressed_data: w[5] as u32,
                    compressed_size: w[6] as u32,
                    uncompressed_size: w[7] as u32,
                    file_name_length: w[8] as u16,
                    extra_field_length: w[9] as u16,
                    file_name,
                    extra_fields,
                    data_descriptor: if w[10] == 1 {
                        Some(
                            DataDescriptor {
                                crc32: w[11] as u32,
                                compressed_size: w[12] as u32,
                                uncompressed_size: w[13] as u32,
                            },
                        )
                    } else {
                        None
                    },
                    data_position: w[14],
                },
                next,
            ),
        )
    }
}

/// A header is read back from its words, name and extra fields as it was.
pub proof fn lemma_header_words_round_trip(f: ZipFileView)
    ensures
        header_words(f).len() == 15,
        header_words_ok(header_words(f)),
        header_of(header_words(f), f.file_name, f.extra_fields) == f,
{
    reveal(header_words);
    reveal(header_words_ok);
    reveal(header_of);
    CompressionType::lemma_number_round_trip(f.compression_method, 0);
}

/// The bytes that a header takes in a snapshot.
pub open spec fn header_snapshot_len(f: ZipFileView) -> nat {
    120 + 8 + name_bytes(f.file_name).len() + 8 + 56 * f.extra_fields.len()
}

/// What a reader finds where a header's snapshot was written after `pre`:
/// the words, the name and the extra fields.
proof fn lemma_header_parts(pre: Seq<u8>, f: ZipFileView, post: Seq<u8>)
    requires
        name_bytes(f.file_name).len() <= u64::MAX,
        f.extra_fields.len() <= u64::MAX,
    ensures
        ({
            let s = pre + header_snapshot(f) + post;
            let p = pre.len() as int;
            let name_end = p + 128 + name_bytes(f.file_name).len();
            &&& header_snapshot(f).len() == header_snapshot_len(f)
            &&& avail(s, p, 120)
            &&& words_at(s, p, 15) == header_words(f)
            &&& blob_at(s, p + 120) == Ok::<(Seq<u8>, int), ZipError>(
                (name_bytes(f.file_name), name_end),
            )
            &&& run_restored_at(s, name_end) == Ok::<(Seq<Extra>, int), ZipError>(
                (f.extra_fields, p + header_snapshot_len(f)),
            )
        }),
{
    reveal(header_snapshot);
    let words = words_wire(header_words(f));
    let name = blob_wire(name_bytes(f.file_name));
    let run = run_snapshot(f.extra_fields);
    lemma_header_words_round_trip(f);
    crate::le::lemma_part(pre, words, name + run, post);
    crate::cache::lemma_words_round_trip(pre, header_words(f), name + run + post);
    crate::le::lemma_part(pre + words, name, run, post);
    crate::cache::lemma_blob_round_trip(pre + words, name_bytes(f.file_name), run + post);
    crate::cache::lemma_run_round_trip(pre + words + name, f.extra_fields, post);
}

/// A header's snapshot written after `pre` is read back as the header was.
pub proof fn lemma_header_round_trip(pre: Seq<u8>, f: ZipFileView, post: Seq<u8>)
    requires
        name_bytes(f.file_name).len() <= u64::MAX,
        f.extra_fields.len() <= u64::MAX,
    ensures
        header_snapshot(f).len() == header_snapshot_len(f),
        header_restored_at(pre + header_snapshot(f) + post, pre.len() as int) == Ok::<
            (ZipFileView, int),
            ZipError,
        >((f, (pre.len() + header_snapshot_len(f)) as int)),
{
    lemma_header_parts(pre, f, post);
    lemma_header_words_round_trip(f);
    crate::text::lemma_name_round_trip(f.file_name);
    reveal(header_restored_at);
}

} // verus!
