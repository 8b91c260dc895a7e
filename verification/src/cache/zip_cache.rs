//! Archives in a snapshot: the length of the source, what is left of the
//! source, the settings and the trailer, then the entries, each behind the
//! name that it stands under.

use crate::cache::directory_cache::{
    entry_countable, entry_restored_at, entry_snapshot, entry_snapshot_len,
    lemma_entry_round_trip,
};
use crate::cache::eo_cd_cache::{
    lemma_trailer_words_round_trip, trailer_of_words, trailer_words, trailer_words_ok,
};
use crate::cache::{
    blob_at, blob_wire, flag, lemma_blob_round_trip, lemma_words_round_trip, put_blob, put_words,
    read_blob, read_words, words_at, words_wire,
};
use crate::deflate::CompressionLevel;
use crate::directory::{Directory, DirectoryView};
use crate::eocd::{EoCd, EoCdView};
use crate::error::ZipError;
use crate::le::{avail, lemma_part};
use crate::table::{
    collected_pairs, distinct_names, lemma_collected_pairs, snapshot_entries, snapshot_get,
    snapshot_insert, snapshot_len, snapshot_new, table_into_cache, table_into_parser, Entries,
};
use crate::text::{is_name, lemma_name_round_trip, name_bytes, name_of, string_from_utf8};
use crate::zip::{stream_view, trailer_view, Cache, Parser, Zip, ZipView};
use indexmap::IndexMap;
use vstd::prelude::*;
use vstd::string::StringSliceAdditionalSpecFns;

verus! {

impl View for Zip<Cache> {
    type V = ZipView;

    open spec fn view(&self) -> ZipView {
        ZipView {
            stream_size: self.stream_size,
            stream: stream_view(self.stream),
            crc32_computer: self.crc32_computer,
            eo_cd: trailer_view(self.eo_cd),
            write_clear: self.write_clear,
            compression_level: self.compression_level,
            directories: snapshot_entries(self.directories),
        }
    }
}

/// The number of words that the settings of an archive take in a snapshot.
pub const ARCHIVE_WORDS: usize = 12;

/// The level as a word.
pub open spec fn level_word(level: CompressionLevel) -> u64 {
    match level {
        CompressionLevel::NoCompression => 0,
        CompressionLevel::BestSpeed => 1,
        CompressionLevel::BestCompression => 2,
        CompressionLevel::UberCompression => 3,
        CompressionLevel::DefaultLevel => 4,
        CompressionLevel::DefaultCompression => 5,
    }
}

/// The level that a word stands for, if it stands for one.
pub open spec fn level_of_word(w: u64) -> Option<CompressionLevel> {
    if w == 0 {
        Some(CompressionLevel::NoCompression)
    } else if w == 1 {
        Some(CompressionLevel::BestSpeed)
    } else if w == 2 {
        Some(CompressionLevel::BestCompression)
    } else if w == 3 {
        Some(CompressionLevel::UberCompression)
    } else if w == 4 {
        Some(CompressionLevel::DefaultLevel)
    } else if w == 5 {
        Some(CompressionLevel::DefaultCompression)
    } else {
        None
    }
}

/// The trailer that is written where an archive has none.
pub open spec fn no_trailer() -> EoCdView {
    EoCdView {
        number_of_disk: 0,
        directory_starts: 0,
        number_of_directory_disk: 0,
        entries: 0,
        size: 0,
        offset: 0,
        comment_length: 0,
    }
}

/// The two words that open a snapshot: the length of the source, and
/// whether the source is still there.
#[verifier::opaque]
pub open spec fn source_words(z: ZipView) -> Seq<u64> {
    seq![z.stream_size as u64, flag(z.stream is Some)]
}

/// What is left of the source, or nothing.
pub open spec fn source_bytes(z: ZipView) -> Seq<u8> {
    match z.stream {
        Some(s) => s,
        None => Seq::empty(),
    }
}

/// The settings of an archive as words: the checksum flag, the trailer
/// and whether there is one, the flag that empties on writing, the level,
/// and the number of entries.
#[verifier::opaque]
pub open spec fn archive_words(z: ZipView) -> Seq<u64> {
    seq![flag(z.crc32_computer), flag(z.eo_cd is Some)] + trailer_words(
        match z.eo_cd {
            Some(e) => e,
            None => no_trailer(),
        },
    ) + seq![flag(z.write_clear), level_word(z.compression_level), z.directories.len() as u64]
}

/// The words can open a snapshot.
#[verifier::opaque]
pub open spec fn source_words_ok(w: Seq<u64>) -> bool {
    w[0] <= usize::MAX && w[1] <= 1
}

/// The words can stand for the settings of an archive.
#[verifier::opaque]
pub open spec fn archive_words_ok(w: Seq<u64>) -> bool {
    &&& w[0] <= 1
    &&& w[1] <= 1
    &&& trailer_words_ok(w.subrange(2, 9))
    &&& w[9] <= 1
    &&& level_of_word(w[10]) is Some
}

/// The archive that the words, what is left of the source, and the entries
/// make up.
#[verifier::opaque]
pub open spec fn archive_of(head: Seq<u64>, source: Seq<u8>, w: Seq<u64>, pairs: Entries) -> ZipView {
    ZipView {
        stream_size: head[0] as usize,
        stream: if head[1] == 1 {
            Some(source)
        } else {
            None
        },
        crc32_computer: w[0] == 1,
        eo_cd: if w[1] == 1 {
            Some(trailer_of_words(w.subrange(2, 9)))
        } else {
            None
        },
        write_clear: w[9] == 1,
        compression_level: level_of_word(w[10])->0,
        directories: collected_pairs(pairs),
    }
}

/// A name and its entry in a snapshot.
pub open spec fn pair_snapshot(pair: (Seq<char>, DirectoryView)) -> Seq<u8> {
    blob_wire(name_bytes(pair.0)) + entry_snapshot(pair.1)
}

/// The entries in a snapshot, one behind the other.
pub open spec fn pairs_snapshot(pairs: Entries) -> Seq<u8>
    decreases pairs.len(),
{
    if pairs.len() == 0 {
        Seq::empty()
    } else {
        pairs_snapshot(pairs.drop_last()) + pair_snapshot(pairs.last())
    }
}

/// The name and entry whose snapshot starts at `p`, with the position
/// behind it.
pub open spec fn pair_restored_at(s: Seq<u8>, p: int) -> Result<
    ((Seq<char>, DirectoryView), int),
    ZipError,
> {
    match blob_at(s, p) {
        Err(e) => Err(e),
        Ok((name, entry_at)) => if !is_name(name) {
            Err(ZipError::InvalidName)
        } else {
            match entry_restored_at(s, entry_at) {
                Err(e) => Err(e),
                Ok((entry, next)) => Ok(((name_of(name), entry), next)),
            }
        },
    }
}

/// The `count` names and entries whose snapshots start at `p`.
pub open spec fn pairs_restored_at(s: Seq<u8>, p: int, count: nat) -> Result<Entries, ZipError>
    decreases count,
{
    if count == 0 {
        Ok(Seq::empty())
    } else {
        match pair_restored_at(s, p) {
            Err(e) => Err(e),
            Ok((first, next)) => match pairs_restored_at(s, next, (count - 1) as nat) {
                Err(e) => Err(e),
                Ok(rest) => Ok(seq![first] + rest),
            },
        }
    }
}

/// An archive in a snapshot.
pub open spec fn archive_snapshot(z: ZipView) -> Seq<u8> {
    words_wire(source_words(z)) + (blob_wire(source_bytes(z)) + (words_wire(archive_words(z))
        + pairs_snapshot(z.directories)))
}

/// The archive that a snapshot holds. An entry whose name came before
/// takes that entry's place.
#[verifier::opaque]
pub open spec fn archive_restored(s: Seq<u8>) -> Result<ZipView, ZipError> {
    if !avail(s, 0, 16) {
        Err(ZipError::UnexpectedEnd)
    } else if !source_words_ok(words_at(s, 0, 2)) {
        Err(ZipError::InvalidCache)
    } else {
        match blob_at(s, 16) {
            Err(e) => Err(e),
            Ok((source, words_at_)) => if !avail(s, words_at_, 96) {
                Err(ZipError::UnexpectedEnd)
            } else if !archive_words_ok(words_at(s, words_at_, 12)) {
                Err(ZipError::InvalidCache)
            } else {
                match pairs_restored_at(
                    s,
                    words_at_ + 96,
                    words_at(s, words_at_, 12)[11] as nat,
                ) {
                    Err(e) => Err(e),
                    Ok(pairs) => Ok(
                        archive_of(words_at(s, 0, 2), source, words_at(s, words_at_, 12), pairs),
                    ),
                }
            },
        }
    }
}

/// `count` pairs from `start` on are restored as `done` followed by what
/// `left` pairs from `at` on are restored to, and fail as these fail.
pub open spec fn pairs_prefix(
    s: Seq<u8>,
    start: int,
    count: nat,
    done: Entries,
    at: int,
    left: nat,
) -> bool {
    pairs_restored_at(s, start, count) == match pairs_restored_at(s, at, left) {
        Ok(rest) => Ok::<Entries, ZipError>(done + rest),
        Err(e) => Err(e),
    }
}

fn level_to_word(level: CompressionLevel) -> (w: u64)
    ensures
        w == level_word(level),
{
    match level {
        CompressionLevel::NoCompression => 0,
        CompressionLevel::BestSpeed => 1,
        CompressionLevel::BestCompression => 2,
        CompressionLevel::UberCompression => 3,
        CompressionLevel::DefaultLevel => 4,
        CompressionLevel::DefaultCompression => 5,
    }
}

fn level_from_word(w: u64) -> (level: Option<CompressionLevel>)
    ensures
        level == level_of_word(w),
{
    if w == 0 {
        Some(CompressionLevel::NoCompression)
    } else if w == 1 {
        Some(CompressionLevel::BestSpeed)
    } else if w == 2 {
        Some(CompressionLevel::BestCompression)
    } else if w == 3 {
        Some(CompressionLevel::UberCompression)
    } else if w == 4 {
        Some(CompressionLevel::DefaultLevel)
    } else if w == 5 {
        Some(CompressionLevel::DefaultCompression)
    } else {
        None
    }
}

fn bool_word(b: bool) -> (w: u64)
    ensures
        w == flag(b),
{
    if b {
        1
    } else {
        0
    }
}

impl Zip<Parser> {
    /// The archive as a snapshot to be: the same settings, the same trailer,
    /// and the same entries under the same names in the same order.
    pub fn into_cache(self) -> (r: Zip<Cache>)
        ensures
            r@ == self@,
            distinct_names(r@.directories),
    {
        Zip {
            stream_size: self.stream_size,
            stream: self.stream,
            crc32_computer: self.crc32_computer,
            eo_cd: match self.eo_cd {
                Some(e) => Some(e.to_cache()),
                None => None,
            },
            write_clear: self.write_clear,
            compression_level: self.compression_level,
            directories: table_into_cache(self.directories),
        }
    }
}

impl Zip<Cache> {
    /// The archive that the snapshot stands for: the same settings, the same
    /// trailer, and the same entries under the same names in the same order.
    pub fn into_parser(self) -> (r: Zip<Parser>)
        ensures
            r@ == self@,
            distinct_names(r@.directories),
    {
        Zip {
            stream_size: self.stream_size,
            stream: self.stream,
            crc32_computer: self.crc32_computer,
            eo_cd: match self.eo_cd {
                Some(e) => Some(e.to_parser()),
                None => None,
            },
            write_clear: self.write_clear,
            compression_level: self.compression_level,
            directories: table_into_parser(self.directories),
        }
    }

    /// The snapshot as bytes. Reading the bytes gives back the archive:
    /// wherever no name stands twice in the table, as in every table that
    /// `into_cache` and `from_cache` make, the bytes are restored to the same
    /// settings, the same trailer, and the same entries under the same names
    /// in the same order.
    pub fn into_bytes(self) -> (bytes: Vec<u8>)
        ensures
            bytes@ == archive_snapshot(self@),
            archive_countable(self@),
            distinct_names(self@.directories) ==> archive_restored(bytes@) == Ok::<
                ZipView,
                ZipError,
            >(self@),
    {
        let mut out: Vec<u8> = Vec::new();
        self.put_source(&mut out);
        self.put_settings(&mut out);
        self.put_pairs(&mut out);
        proof {
            assert(out@ =~= archive_snapshot(self@));
            if distinct_names(self@.directories) {
                lemma_snapshot_round_trip(self@);
            }
        }
        out
    }

    /// Appends the words that open a snapshot and what is left of the
    /// source.
    fn put_source(&self, out: &mut Vec<u8>)
        ensures
            final(out)@ == old(out)@ + words_wire(source_words(self@)) + blob_wire(
                source_bytes(self@),
            ),
            source_bytes(self@).len() <= u64::MAX,
    {
        let mut head: Vec<u64> = Vec::new();
        head.push(self.stream_size as u64);
        head.push(bool_word(self.stream.is_some()));
        proof {
            reveal(source_words);
            assert(head@ =~= source_words(self@));
        }
        put_words(out, head.as_slice());
        match &self.stream {
            Some(s) => {
                put_blob(out, s.as_slice());
            },
            None => {
                let nothing: Vec<u8> = Vec::new();
                put_blob(out, nothing.as_slice());
            },
        }
    }

    /// Appends the settings of the archive.
    fn put_settings(&self, out: &mut Vec<u8>)
        ensures
            final(out)@ == old(out)@ + words_wire(archive_words(self@)),
            self@.directories.len() <= u64::MAX,
    {
        let n: usize = snapshot_len(&self.directories);
        let mut words: Vec<u64> = Vec::new();
        words.push(bool_word(self.crc32_computer));
        words.push(bool_word(self.eo_cd.is_some()));
        match &self.eo_cd {
            Some(e) => {
                words.push(e.number_of_disk as u64);
                words.push(e.directory_starts as u64);
                words.push(e.number_of_directory_disk as u64);
                words.push(e.entries as u64);
                words.push(e.size as u64);
                words.push(e.offset as u64);
                words.push(e.comment_length as u64);
            },
            None => {
                words.push(0);
                words.push(0);
                words.push(0);
                words.push(0);
                words.push(0);
                words.push(0);
                words.push(0);
            },
        }
        words.push(bool_word(self.write_clear));
        words.push(level_to_word(self.compression_level));
        words.push(n as u64);
        proof {
            reveal(archive_words);
            assert(words@ =~= archive_words(self@));
        }
        put_words(out, words.as_slice());
    }

    /// Appends the entries, each behind its name.
    fn put_pairs(&self, out: &mut Vec<u8>)
        ensures
            final(out)@ == old(out)@ + pairs_snapshot(self@.directories),
            forall|i: int|
                0 <= i < self@.directories.len() ==> name_bytes(
                    (#[trigger] self@.directories[i]).0,
                ).len() <= u64::MAX && entry_countable(self@.directories[i].1),
    {
        let n: usize = snapshot_len(&self.directories);
        let ghost es = self@.directories;
        let mut i: usize = 0;
        proof {
            assert(out@ =~= old(out)@ + pairs_snapshot(es.take(0)));
        }
        while i < n
            invariant
                i <= n,
                n == es.len(),
                es == snapshot_entries(self.directories),
                out@ == old(out)@ + pairs_snapshot(es.take(i as int)),
                forall|k: int|
                    0 <= k < i ==> name_bytes((#[trigger] es[k]).0).len() <= u64::MAX
                        && entry_countable(es[k].1),
            decreases n - i,
        {
            let pair = snapshot_get(&self.directories, i);
            let ghost before = out@;
            put_blob(out, pair.0.as_str().as_bytes());
            pair.1.encode(out);
            proof {
                assert(es.take(i + 1).drop_last() =~= es.take(i as int));
                assert(es.take(i + 1).last() == es[i as int]);
                assert(out@ =~= before + pair_snapshot(es[i as int]));
                assert(out@ =~= old(out)@ + pairs_snapshot(es.take(i + 1)));
            }
            i += 1;
        }
        proof {
            assert(es.take(n as int) =~= es);
        }
    }

    /// Reads the `count` entries whose snapshots start at `start`, each
    /// behind its name, into a table.
    fn read_pairs(data: &[u8], start: usize, count: u64) -> (r: Result<
        IndexMap<String, Directory<Cache>>,
        ZipError,
    >)
        ensures
            r matches Ok(table) ==> pairs_restored_at(data@, start as int, count as nat) matches Ok(
                pairs,
            ) && snapshot_entries(table) == collected_pairs(pairs),
            r matches Err(e) ==> pairs_restored_at(data@, start as int, count as nat) == Err::<
                Entries,
                ZipError,
            >(e),
    {
        let mut table: IndexMap<String, Directory<Cache>> = snapshot_new();
        let ghost mut done: Entries = Seq::empty();
        let mut at: usize = start;
        let mut i: u64 = 0;
        proof {
            assert(done + pairs_restored_at(data@, start as int, count as nat)->Ok_0
                =~= pairs_restored_at(data@, start as int, count as nat)->Ok_0);
        }
        while i < count
            invariant
                i <= count,
                snapshot_entries(table) == collected_pairs(done),
                pairs_prefix(data@, start as int, count as nat, done, at as int, (count - i) as nat),
            decreases count - i,
        {
            let ghost left = (count - i) as nat;
            let (name, entry_at) = match read_blob(data, at) {
                Ok(x) => x,
                Err(e) => {
                    assert(pairs_restored_at(data@, at as int, left) == Err::<Entries, ZipError>(e));
                    return Err(e);
                },
            };
            let name: String = match string_from_utf8(name) {
                Some(s) => s,
                None => {
                    assert(pairs_restored_at(data@, at as int, left) == Err::<Entries, ZipError>(
                        ZipError::InvalidName,
                    ));
                    return Err(ZipError::InvalidName);
                },
            };
            let (entry, next) = match Directory::<Cache>::decode(data, entry_at) {
                Ok(x) => x,
                Err(e) => {
                    assert(pairs_restored_at(data@, at as int, left) == Err::<Entries, ZipError>(e));
                    return Err(e);
                },
            };
            proof {
                let pair = (name@, entry@);
                let rest = pairs_restored_at(data@, next as int, (left - 1) as nat);
                assert(pairs_restored_at(data@, at as int, left) == match rest {
                    Ok(tail) => Ok::<Entries, ZipError>(seq![pair] + tail),
                    Err(e) => Err(e),
                });
                if let Ok(tail) = rest {
                    assert(done + (seq![pair] + tail) =~= done.push(pair) + tail);
                }
                assert(done.push(pair).drop_last() =~= done);
                done = done.push(pair);
            }
            snapshot_insert(&mut table, name, entry);
            at = next;
            i += 1;
        }
        proof {
            assert(done + Seq::<(Seq<char>, DirectoryView)>::empty() =~= done);
        }
        Ok(table)
    }

    /// Reads a snapshot.
    pub fn from_cache(data: Vec<u8>) -> (r: Result<Zip<Cache>, ZipError>)
        ensures
            r matches Ok(z) ==> archive_restored(data@) == Ok::<ZipView, ZipError>(z@),
            r matches Err(e) ==> archive_restored(data@) == Err::<ZipView, ZipError>(e),
    {
        reveal(archive_restored);
        reveal(source_words_ok);
        reveal(archive_words_ok);
        reveal(archive_of);
        let data: &[u8] = data.as_slice();
        let head: Vec<u64> = read_words(data, 0, 2)?;
        if head[0] > usize::MAX as u64 || head[1] > 1 {
            return Err(ZipError::InvalidCache);
        }
        let (source, words_pos) = read_blob(data, 16)?;
        let w: Vec<u64> = read_words(data, words_pos, ARCHIVE_WORDS)?;
        proof {
            let t = w@.subrange(2, 9);
            assert(forall|k: int| 0 <= k < 7 ==> t[k] == w@[k + 2]);
        }
        if w[0] > 1 || w[1] > 1 || w[2] > u16::MAX as u64 || w[3] > u16::MAX as u64 || w[4]
            > u16::MAX as u64 || w[5] > u16::MAX as u64 || w[6] > u32::MAX as u64 || w[7]
            > u32::MAX as u64 || w[8] > u16::MAX as u64 || w[9] > 1 {
            return Err(ZipError::InvalidCache);
        }
        let compression_level: CompressionLevel = match level_from_word(w[10]) {
            Some(l) => l,
            None => {
                return Err(ZipError::InvalidCache);
            },
        };
        let table = Self::read_pairs(data, words_pos + 96, w[11])?;
        Ok(
            Zip {
                stream_size: head[0] as usize,
                stream: if head[1] == 1 {
                    Some(source)
                } else {
                    None
                },
                crc32_computer: w[0] == 1,
                eo_cd: if w[1] == 1 {
                    Some(
                        EoCd {
                            kind: Cache,
                            number_of_disk: w[2] as u16,
                            directory_starts: w[3] as u16,
                            number_of_directory_disk: w[4] as u16,
                            entries: w[5] as u16,
                            size: w[6] as u32,
                            offset: w[7] as u32,
                            comment_length: w[8] as u16,
                        },
                    )
                } else {
                    None
                },
                write_clear: w[9] == 1,
                compression_level,
                directories: table,
            },
        )
    }
}

/// What an archive holds is short enough to be counted in 64 bits, as
/// everything in memory is.
pub open spec fn archive_countable(z: ZipView) -> bool {
    &&& source_bytes(z).len() <= u64::MAX
    &&& z.directories.len() <= u64::MAX
    &&& forall|i: int|
        0 <= i < z.directories.len() ==> name_bytes((#[trigger] z.directories[i]).0).len()
            <= u64::MAX && entry_countable(z.directories[i].1)
}

/// The bytes that a name and its entry take in a snapshot.
pub open spec fn pair_snapshot_len(pair: (Seq<char>, DirectoryView)) -> nat {
    8 + name_bytes(pair.0).len() + entry_snapshot_len(pair.1)
}

/// A name and its entry written after `pre` are read back as they were.
pub proof fn lemma_pair_round_trip(pre: Seq<u8>, pair: (Seq<char>, DirectoryView), post: Seq<u8>)
    requires
        name_bytes(pair.0).len() <= u64::MAX,
        entry_countable(pair.1),
    ensures
        pair_snapshot(pair).len() == pair_snapshot_len(pair),
        pair_restored_at(pre + pair_snapshot(pair) + post, pre.len() as int) == Ok::<
            ((Seq<char>, DirectoryView), int),
            ZipError,
        >((pair, (pre.len() + pair_snapshot_len(pair)) as int)),
{
    let name = blob_wire(name_bytes(pair.0));
    let entry = entry_snapshot(pair.1);
    lemma_part(pre, name, entry, post);
    lemma_blob_round_trip(pre, name_bytes(pair.0), entry + post);
    lemma_name_round_trip(pair.0);
    lemma_entry_round_trip(pre + name, pair.1, post);
}

/// The snapshot of entries is that of the first, then that of the others.
pub proof fn lemma_pairs_front(pairs: Entries)
    requires
        pairs.len() > 0,
    ensures
        pairs_snapshot(pairs) == pair_snapshot(pairs[0]) + pairs_snapshot(pairs.drop_first()),
    decreases pairs.len(),
{
    if pairs.len() == 1 {
        assert(pairs.drop_last() =~= Seq::<(Seq<char>, DirectoryView)>::empty());
        assert(pairs.drop_first() =~= Seq::<(Seq<char>, DirectoryView)>::empty());
        assert(pairs_snapshot(pairs) =~= pair_snapshot(pairs[0]) + pairs_snapshot(
            pairs.drop_first(),
        ));
    } else {
        lemma_pairs_front(pairs.drop_last());
        assert(pairs.drop_last().drop_first() =~= pairs.drop_first().drop_last());
        assert(pairs.drop_first().last() == pairs.last());
        assert(pairs.drop_last()[0] == pairs[0]);
        assert(pairs_snapshot(pairs) =~= pair_snapshot(pairs[0]) + pairs_snapshot(
            pairs.drop_first(),
        ));
    }
}

/// Entries written after `pre`, each behind its name, are read back as
/// they were.
pub proof fn lemma_pairs_round_trip(pre: Seq<u8>, pairs: Entries, post: Seq<u8>)
    requires
        forall|i: int|
            0 <= i < pairs.len() ==> name_bytes((#[trigger] pairs[i]).0).len() <= u64::MAX
                && entry_countable(pairs[i].1),
    ensures
        pairs_restored_at(pre + pairs_snapshot(pairs) + post, pre.len() as int, pairs.len())
            == Ok::<Entries, ZipError>(pairs),
    decreases pairs.len(),
{
    if pairs.len() > 0 {
        let first = pair_snapshot(pairs[0]);
        let others = pairs.drop_first();
        lemma_pairs_front(pairs);
        assert(pairs[0].0 == pairs[0].0 && entry_countable(pairs[0].1));
        lemma_part(pre, first, pairs_snapshot(others), post);
        lemma_pair_round_trip(pre, pairs[0], pairs_snapshot(others) + post);
        assert forall|i: int| 0 <= i < others.len() implies name_bytes(
            (#[trigger] others[i]).0,
        ).len() <= u64::MAX && entry_countable(others[i].1) by {
            assert(others[i] == pairs[i + 1]);
        }
        lemma_pairs_round_trip(pre + first, others, post);
        assert(seq![pairs[0]] + others =~= pairs);
    } else {
        assert(pairs =~= Seq::<(Seq<char>, DirectoryView)>::empty());
    }
}

/// The words of an archive are read back as they were.
pub proof fn lemma_archive_words_round_trip(z: ZipView, pairs: Entries)
    requires
        collected_pairs(pairs) == z.directories,
        z.directories.len() <= u64::MAX,
    ensures
        source_words(z).len() == 2,
        source_words_ok(source_words(z)),
        archive_words(z).len() == 12,
        archive_words_ok(archive_words(z)),
        archive_words(z)[11] == z.directories.len(),
        archive_of(source_words(z), source_bytes(z), archive_words(z), pairs) == z,
{
    reveal(source_words);
    reveal(source_words_ok);
    reveal(archive_words);
    reveal(archive_words_ok);
    reveal(archive_of);
    let t = match z.eo_cd {
        Some(e) => e,
        None => no_trailer(),
    };
    lemma_trailer_words_round_trip(t);
    assert(archive_words(z).subrange(2, 9) =~= trailer_words(t));
}

/// A snapshot gives back the archive that it was made of: the same
/// settings, the same trailer, and the same entries under the same names
/// in the same order.
pub proof fn lemma_snapshot_round_trip(z: ZipView)
    requires
        distinct_names(z.directories),
        archive_countable(z),
    ensures
        archive_restored(archive_snapshot(z)) == Ok::<ZipView, ZipError>(z),
{
    let nothing = Seq::<u8>::empty();
    let head = words_wire(source_words(z));
    let source = blob_wire(source_bytes(z));
    let words = words_wire(archive_words(z));
    let pairs = pairs_snapshot(z.directories);
    let s = archive_snapshot(z);
    lemma_collected_pairs(z.directories);
    lemma_archive_words_round_trip(z, z.directories);
    assert(s =~= nothing + (head + (source + (words + pairs))) + nothing);
    lemma_part(nothing, head, source + (words + pairs), nothing);
    lemma_words_round_trip(nothing, source_words(z), source + (words + pairs) + nothing);
    lemma_part(nothing + head, source, words + pairs, nothing);
    lemma_blob_round_trip(nothing + head, source_bytes(z), words + pairs + nothing);
    lemma_part(nothing + head + source, words, pairs, nothing);
    lemma_words_round_trip(nothing + head + source, archive_words(z), pairs + nothing);
    lemma_pairs_round_trip(nothing + head + source + words, z.directories, nothing);
    let a1 = 16 + 8 + source_bytes(z).len();
    assert(words_at(s, 0, 2) == source_words(z));
    assert(blob_at(s, 16) == Ok::<(Seq<u8>, int), ZipError>((source_bytes(z), a1 as int)));
    assert(words_at(s, a1 as int, 12) == archive_words(z));
    assert(pairs_restored_at(s, (a1 + 96) as int, z.directories.len()) == Ok::<Entries, ZipError>(
        z.directories,
    ));
    reveal(archive_restored);
}

} // verus!
