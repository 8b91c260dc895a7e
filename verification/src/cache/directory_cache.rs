//! Entries in a snapshot: the payload as a blob, seventeen words, the name,
//! the extra fields, the comment, and the local file header.

use crate::cache::zip_file_cache::{header_restored_at, header_snapshot, header_snapshot_len};
use crate::cache::{
    blob_at, blob_wire, flag, put_blob, put_run, put_words, read_blob, read_run, read_words,
    run_restored_at, run_snapshot, words_at, words_wire,
};
use crate::directory::{CompressionType, Directory, DirectoryView};
use crate::error::ZipError;
use crate::extra::Extra;
use crate::le::avail;
use crate::text::{is_name, name_bytes, name_of, string_from_utf8};
use crate::zip::{Cache, Parser};
use crate::zip_file::{ZipFile, ZipFileView};
use vstd::prelude::*;
use vstd::string::StringSliceAdditionalSpecFns;

verus! {

/// The number of words that an entry takes in a snapshot.
pub const ENTRY_WORDS: usize = 17;

/// The numbers of an entry as words.
#[verifier::opaque]
pub open spec fn entry_words(d: DirectoryView) -> Seq<u64> {
    seq![
        flag(d.compressed),
        d.version as u64,
        d.min_version as u64,
        d.flags as u64,
        d.compression_method.value() as u64,
        d.last_modification_time as u64,
        d.last_modification_date as u64,
        d.crc_32_uncompressed_data as u64,
        d.compressed_size as u64,
        d.uncompressed_size as u64,
        d.file_name_length as u64,
        d.extra_field_length as u64,
        d.file_comment_length as u64,
        d.number_of_starts as u64,
        d.internal_file_attributes as u64,
        d.external_file_attributes as u64,
        d.offset_of_local_file_header as u64,
    ]
}

/// The words can stand for the numbers of an entry.
#[verifier::opaque]
pub open spec fn entry_words_ok(w: Seq<u64>) -> bool {
    &&& w[0] <= 1
    &&& w[1] <= u16::MAX
    &&& w[2] <= u16::MAX
    &&& w[3] <= u16::MAX
    &&& w[4] <= u16::MAX
    &&& CompressionType::of(w[4] as u16) is Some
    &&& w[5] <= u16::MAX
    &&& w[6] <= u16::MAX
    &&& w[7] <= u32::MAX
    &&& w[8] <= u32::MAX
    &&& w[9] <= u32::MAX
    &&& w[10] <= u16::MAX
    &&& w[11] <= u16::MAX
    &&& w[12] <= u16::MAX
    &&& w[13] <= u16::MAX
    &&& w[14] <= u16::MAX
    &&& w[15] <= u32::MAX
    &&& w[16] <= u32::MAX
}

/// The entry that a payload, seventeen words, a name, extra fields, a
/// comment and a local file header make up.
#[verifier::opaque]
pub open spec fn entry_of(
    data: Seq<u8>,
    w: Seq<u64>,
    name: Seq<char>,
    extras: Seq<Extra>,
    comment: Seq<u8>,
    file: ZipFileView,
) -> DirectoryView {
    DirectoryView {
        data,
        compressed: w[0] == 1,
        version: w[1] as u16,
        min_version: w[2] as u16,
        flags: w[3] as u16,
        compression_method: CompressionType::of(w[4] as u16)->0,
        last_modification_time: w[5] as u16,
        last_modification_date: w[6] as u16,
        crc_32_uncompressed_data: w[7] as u32,
        compressed_size: w[8] as u32,
        uncompressed_size: w[9] as u32,
        file_name_length: w[10] as u16,
        extra_field_length: w[11] as u16,
        file_comment_length: w[12] as u16,
        number_of_starts: w[13] as u16,
        internal_file_attributes: w[14] as u16,
        external_file_attributes: w[15] as u32,
        offset_of_local_file_header: w[16] as u32,
        file_name: name,
        extra_fields: extras,
        file_comment: comment,
        file,
    }
}

/// An entry in a snapshot.
#[verifier::opaque]
pub open spec fn entry_snapshot(d: DirectoryView) -> Seq<u8> {
    blob_wire(d.data) + (words_wire(entry_words(d)) + (blob_wire(name_bytes(d.file_name)) + (
    run_snapshot(d.extra_fields) + (blob_wire(d.file_comment) + header_snapshot(d.file)))))
}

/// The entry whose snapshot starts at `p`, with the position behind it.
#[verifier::opaque]
pub open spec fn entry_restored_at(s: Seq<u8>, p: int) -> Result<(DirectoryView, int), ZipError> {
    match blob_at(s, p) {
        Err(e) => Err(e),
        Ok((data, words_at_)) => if !avail(s, words_at_, 136) {
            Err(ZipError::UnexpectedEnd)
        } else if !entry_words_ok(words_at(s, words_at_, 17)) {
            Err(ZipError::InvalidCache)
        } else {
            match blob_at(s, words_at_ + 136) {
                Err(e) => Err(e),
                Ok((name, extras_at)) => if !is_name(name) {
                    Err(ZipError::InvalidName)
                } else {
                    match run_restored_at(s, extras_at) {
                        Err(e) => Err(e),
                        Ok((extras, comment_at)) => match blob_at(s, comment_at) {
                            Err(e) => Err(e),
                            Ok((comment, file_at)) => match header_restored_at(s, file_at) {
                                Err(e) => Err(e),
                                Ok((file, next)) => Ok(
                                    (
                                        entry_of(
                                            data,
                                            words_at(s, words_at_, 17),
                                            name_of(name),
                                            extras,
                                            comment,
                                            file,
                                        ),
                                        next,
                                    ),
                                ),
                            },
                        },
                    }
                },
            }
        },
    }
}

impl Directory<Cache> {
    /// The entry as part of an archive.
    pub fn to_parser(self) -> (r: Directory<Parser>)
        ensures
            r@ == self@,
    {
        Directory {
            kind: Parser,
            data: self.data,
            compressed: self.compressed,
            version: self.version,
            min_version: self.min_version,
            flags: self.flags,
            compression_method: self.compression_method,
            last_modification_time: self.last_modification_time,
            last_modification_date: self.last_modification_date,
            crc_32_uncompressed_data: self.crc_32_uncompressed_data,
            compressed_size: self.compressed_size,
            uncompressed_size: self.uncompressed_size,
            file_name_length: self.file_name_length,
            extra_field_length: self.extra_field_length,
            file_comment_length: self.file_comment_length,
            number_of_starts: self.number_of_starts,
            internal_file_attributes: self.internal_file_attributes,
            external_file_attributes: self.external_file_attributes,
            offset_of_local_file_header: self.offset_of_local_file_header,
            file_name: self.file_name,
            extra_fields: self.extra_fields,
            file_comment: self.file_comment,
            file: self.file.to_parser(),
        }
    }

    /// Appends the entry's snapshot.
    pub fn encode(&self, out: &mut Vec<u8>)
        ensures
            final(out)@ == old(out)@ + entry_snapshot(self@),
            entry_countable(self@),
    {
        put_blob(out, self.data.as_slice());
        let mut words: Vec<u64> = Vec::new();
        words.push(if self.compressed {
            1
        } else {
            0
        });
        words.push(self.version as u64);
        words.push(self.min_version as u64);
        words.push(self.flags as u64);
        words.push(self.compression_method.number() as u64);
        words.push(self.last_modification_time as u64);
        words.push(self.last_modification_date as u64);
        words.push(self.crc_32_uncompressed_data as u64);
        words.push(self.compressed_size as u64);
        words.push(self.uncompressed_size as u64);
        words.push(self.file_name_length as u64);
        words.push(self.extra_field_length as u64);
        words.push(self.file_comment_length as u64);
        words.push(self.number_of_starts as u64);
        words.push(self.internal_file_attributes as u64);
        words.push(self.external_file_attributes as u64);
        words.push(self.offset_of_local_file_header as u64);
        assert(words@ =~= entry_words(self@)) by {
            reveal(entry_words);
        }
        put_words(out, words.as_slice());
        put_blob(out, self.file_name.as_str().as_bytes());
        put_run(out, &self.extra_fields);
        put_blob(out, self.file_comment.as_slice());
        self.file.encode(out);
        assert(out@ =~= old(out)@ + entry_snapshot(self@)) by {
            reveal(entry_snapshot);
        }
    }

    /// Reads the entry whose snapshot starts at `pos` and returns it with
    /// the position behind it.
    pub fn decode(data: &[u8], pos: usize) -> (r: Result<(Directory<Cache>, usize), ZipError>)
        ensures
            r matches Ok((d, next)) ==> entry_restored_at(data@, pos as int) == Ok::<
                (DirectoryView, int),
                ZipError,
            >((d@, next as int)),
            r matches Err(e) ==> entry_restored_at(data@, pos as int) == Err::<
                (DirectoryView, int),
                ZipError,
            >(e),
    {
        reveal(entry_restored_at);
        reveal(entry_words_ok);
        reveal(entry_of);
        let (payload, words_pos) = read_blob(data, pos)?;
        let w: Vec<u64> = read_words(data, words_pos, ENTRY_WORDS)?;
        if w[0] > 1 || w[1] > u16::MAX as u64 || w[2] > u16::MAX as u64 || w[3] > u16::MAX as u64
            || w[4] > u16::MAX as u64 {
            return Err(ZipError::InvalidCache);
        }
        let compression_method: CompressionType = match CompressionType::from_number(w[4] as u16) {
            Some(m) => m,
            None => {
                return Err(ZipError::InvalidCache);
            },
        };
        if w[5] > u16::MAX as u64 || w[6] > u16::MAX as u64 || w[7] > u32::MAX as u64 || w[8]
            > u32::MAX as u64 || w[9] > u32::MAX as u64 || w[10] > u16::MAX as u64 || w[11]
            > u16::MAX as u64 || w[12] > u16::MAX as u64 || w[13] > u16::MAX as u64 || w[14]
            > u16::MAX as u64 || w[15] > u32::MAX as u64 || w[16] > u32::MAX as u64 {
            return Err(ZipError::InvalidCache);
        }
        let (name, extras_at) = read_blob(data, words_pos + 136)?;
        let file_name: String = match string_from_utf8(name) {
            Some(s) => s,
            None => {
                return Err(ZipError::InvalidName);
            },
        };
        let (extra_fields, comment_at) = read_run(data, extras_at)?;
        let (file_comment, file_at) = read_blob(data, comment_at)?;
        let (file, next) = ZipFile::<Cache>::decode(data, file_at)?;
        Ok(
            (
                Directory {
                    kind: Cache,
                    data: payload,
                    compressed: w[0] == 1,
                    version: w[1] as u16,
                    min_version: w[2] as u16,
                    flags: w[3] as u16,
                    compression_method,
                    last_modification_time: w[5] as u16,
                    last_modification_date: w[6] as u16,
                    crc_32_uncompressed_data: w[7] as u32,
                    compressed_size: w[8] as u32,
                    uncompressed_size: w[9] as u32,
                    file_name_length: w[10] as u16,
                    extra_field_length: w[11] as u16,
                    file_comment_length: w[12] as u16,
                    number_of_starts: w[13] as u16,
                    internal_file_attributes: w[14] as u16,
                    external_file_attributes: w[15] as u32,
                    offset_of_local_file_header: w[16] as u32,
                    file_name,
                    extra_fields,
                    file_comment,
                    file,
                },
                next,
            ),
        )
    }
}

impl Directory<Parser> {
    /// The entry as part of a snapshot.
    pub fn into_cache(self) -> (r: Directory<Cache>)
        ensures
            r@ == self@,
    {
        Directory {
            kind: Cache,
            data: self.data,
            compressed: self.compressed,
            version: self.version,
            min_version: self.min_version,
            flags: self.flags,
            compression_method: self.compression_method,
            last_modification_time: self.last_modification_time,
            last_modification_date: self.last_modification_date,
            crc_32_uncompressed_data: self.crc_32_uncompressed_data,
            compressed_size: self.compressed_size,
            uncompressed_size: self.uncompressed_size,
            file_name_length: self.file_name_length,
            extra_field_length: self.extra_field_length,
            file_comment_length: self.file_comment_length,
            number_of_starts: self.number_of_starts,
            internal_file_attributes: self.internal_file_attributes,
            external_file_attributes: self.external_file_attributes,
            offset_of_local_file_header: self.offset_of_local_file_header,
            file_name: self.file_name,
            extra_fields: self.extra_fields,
            file_comment: self.file_comment,
            file: self.file.into_cache(),
        }
    }
}

/// What an entry holds is short enough to be counted in 64 bits, as
/// everything in memory is.
pub open spec fn entry_countable(d: DirectoryView) -> bool {
    &&& d.data.len() <= u64::MAX
    &&& name_bytes(d.file_name).len() <= u64::MAX
    &&& d.extra_fields.len() <= u64::MAX
    &&& d.file_comment.len() <= u64::MAX
    &&& name_bytes(d.file.file_name).len() <= u64::MAX
    &&& d.file.extra_fields.len() <= u64::MAX
}

/// The bytes that an entry takes in a snapshot.
pub open spec fn entry_snapshot_len(d: DirectoryView) -> nat {
    8 + d.data.len() + 136 + 8 + name_bytes(d.file_name).len() + 8 + 56 * d.extra_fields.len() + 8
        + d.file_comment.len() + header_snapshot_len(d.file)
}

/// An entry is read back from its parts as it was.
pub proof fn lemma_entry_words_round_trip(d: DirectoryView)
    ensures
        entry_words(d).len() == 17,
        entry_words_ok(entry_words(d)),
        entry_of(d.data, entry_words(d), d.file_name, d.extra_fields, d.file_comment, d.file)
            == d,
{
    reveal(entry_words);
    reveal(entry_words_ok);
    reveal(entry_of);
    CompressionType::lemma_number_round_trip(d.compression_method, 0);
}

/// What a reader finds where an entry's snapshot was written after `pre`:
/// the payload, the words, and the name.
proof fn lemma_entry_front(pre: Seq<u8>, d: DirectoryView, post: Seq<u8>)
    requires
        entry_countable(d),
    ensures
        ({
            let s = pre + entry_snapshot(d) + post;
            let p = pre.len() as int;
            let words_pos = p + 8 + d.data.len();
            let name_end = words_pos + 136 + 8 + name_bytes(d.file_name).len();
            &&& blob_at(s, p) == Ok::<(Seq<u8>, int), ZipError>((d.data, words_pos))
            &&& avail(s, words_pos, 136)
            &&& words_at(s, words_pos, 17) == entry_words(d)
            &&& blob_at(s, words_pos + 136) == Ok::<(Seq<u8>, int), ZipError>(
                (name_bytes(d.file_name), name_end),
            )
        }),
{
    reveal(entry_snapshot);
    let data = blob_wire(d.data);
    let words = words_wire(entry_words(d));
    let name = blob_wire(name_bytes(d.file_name));
    let rest = run_snapshot(d.extra_fields) + (blob_wire(d.file_comment) + header_snapshot(
        d.file,
    ));
    lemma_entry_words_round_trip(d);
    crate::le::lemma_part(pre, data, words + (name + rest), post);
    crate::cache::lemma_blob_round_trip(pre, d.data, words + (name + rest) + post);
    crate::le::lemma_part(pre + data, words, name + rest, post);
    crate::cache::lemma_words_round_trip(pre + data, entry_words(d), name + rest + post);
    crate::le::lemma_part(pre + data + words, name, rest, post);
    crate::cache::lemma_blob_round_trip(pre + data + words, name_bytes(d.file_name), rest + post);
}

/// What a reader finds where an entry's snapshot was written after `pre`,
/// behind the name: the extra fields, the comment, and the local file
/// header.
proof fn lemma_entry_back(pre: Seq<u8>, d: DirectoryView, post: Seq<u8>)
    requires
        entry_countable(d),
    ensures
        ({
            let s = pre + entry_snapshot(d) + post;
            let p = pre.len() as int;
            let name_end = p + 8 + d.data.len() + 136 + 8 + name_bytes(d.file_name).len();
            let run_end = name_end + 8 + 56 * d.extra_fields.len();
            let comment_end = run_end + 8 + d.file_comment.len();
            &&& entry_snapshot(d).len() == entry_snapshot_len(d)
            &&& run_restored_at(s, name_end) == Ok::<(Seq<Extra>, int), ZipError>(
                (d.extra_fields, run_end),
            )
            &&& blob_at(s, run_end) == Ok::<(Seq<u8>, int), ZipError>(
                (d.file_comment, comment_end),
            )
            &&& header_restored_at(s, comment_end) == Ok::<(ZipFileView, int), ZipError>(
                (d.file, p + entry_snapshot_len(d)),
            )
        }),
{
    reveal(entry_snapshot);
    let front = blob_wire(d.data) + (words_wire(entry_words(d)) + blob_wire(
        name_bytes(d.file_name),
    ));
    let run = run_snapshot(d.extra_fields);
    let comment = blob_wire(d.file_comment);
    let file = header_snapshot(d.file);
    lemma_entry_words_round_trip(d);
    crate::cache::lemma_words_len(entry_words(d));
    crate::cache::lemma_blob_round_trip(Seq::empty(), d.data, Seq::empty());
    crate::cache::lemma_blob_round_trip(Seq::empty(), name_bytes(d.file_name), Seq::empty());
    assert(entry_snapshot(d) =~= front + (run + (comment + file)));
    crate::le::lemma_part(pre, front, run + (comment + file), post);
    crate::le::lemma_part(pre + front, run, comment + file, post);
    crate::cache::lemma_run_round_trip(pre + front, d.extra_fields, comment + file + post);
    crate::le::lemma_part(pre + front + run, comment, file, post);
    crate::cache::lemma_blob_round_trip(pre + front + run, d.file_comment, file + post);
    crate::cache::zip_file_cache::lemma_header_round_trip(
        pre + front + run + comment,
        d.file,
        post,
    );
}

/// An entry's snapshot written after `pre` is read back as the entry was.
pub proof fn lemma_entry_round_trip(pre: Seq<u8>, d: DirectoryView, post: Seq<u8>)
    requires
        entry_countable(d),
    ensures
        entry_snapshot(d).len() == entry_snapshot_len(d),
        entry_restored_at(pre + entry_snapshot(d) + post, pre.len() as int) == Ok::<
            (DirectoryView, int),
            ZipError,
        >((d, (pre.len() + entry_snapshot_len(d)) as int)),
{
    lemma_entry_front(pre, d, post);
    lemma_entry_back(pre, d, post);
    lemma_entry_words_round_trip(d);
    crate::text::lemma_name_round_trip(d.file_name);
    reveal(entry_restored_at);
}

} // verus!
