//! Snapshots: an archive in memory, written out field by field in a framing
//! of its own and read back as it was. A snapshot is made of words, which
//! are 64-bit little-endian numbers, and of blobs, which are a word that
//! gives a length and as many bytes.

pub mod directory_cache;
pub mod eo_cd_cache;
pub mod zip_cache;
pub mod zip_file_cache;

use crate::error::ZipError;
use crate::extra::Extra;
use crate::le::{
    avail, le64, lemma_le64_at, put_bytes, put_u64, read_bytes, read_u64, signed, u64_at, unsigned,
};
use vstd::prelude::*;

verus! {

/// Words on the wire, one behind the other.
pub open spec fn words_wire(words: Seq<u64>) -> Seq<u8>
    decreases words.len(),
{
    if words.len() == 0 {
        Seq::empty()
    } else {
        words_wire(words.drop_last()) + le64(words.last())
    }
}

/// The `count` words that start at `p`.
pub open spec fn words_at(s: Seq<u8>, p: int, count: nat) -> Seq<u64> {
    Seq::new(count, |i: int| u64_at(s, p + 8 * i))
}

/// A blob on the wire: its length, then its bytes.
#[verifier::opaque]
pub open spec fn blob_wire(bytes: Seq<u8>) -> Seq<u8> {
    le64(bytes.len() as u64) + bytes
}

/// The blob that starts at `p`, with the position behind it.
#[verifier::opaque]
pub open spec fn blob_at(s: Seq<u8>, p: int) -> Result<(Seq<u8>, int), ZipError> {
    if !avail(s, p, 8) || !avail(s, p + 8, u64_at(s, p) as int) {
        Err(ZipError::UnexpectedEnd)
    } else {
        Ok((s.subrange(p + 8, p + 8 + u64_at(s, p)), p + 8 + u64_at(s, p)))
    }
}

/// A truth value as a word.
pub open spec fn flag(b: bool) -> u64 {
    if b {
        1
    } else {
        0
    }
}

/// Appends the words.
pub fn put_words(out: &mut Vec<u8>, words: &[u64])
    ensures
        final(out)@ == old(out)@ + words_wire(words@),
{
    let mut i: usize = 0;
    while i < words.len()
        invariant
            i <= words@.len(),
            out@ == old(out)@ + words_wire(words@.take(i as int)),
        decreases words@.len() - i,
    {
        put_u64(out, words[i]);
        proof {
            assert(words@.take(i + 1).drop_last() =~= words@.take(i as int));
            assert(out@ =~= old(out)@ + words_wire(words@.take(i + 1)));
        }
        i += 1;
    }
    proof {
        assert(words@.take(i as int) =~= words@);
    }
}

/// Reads the `count` words that start at `pos`.
pub fn read_words(data: &[u8], pos: usize, count: usize) -> (r: Result<Vec<u64>, ZipError>)
    ensures
        r is Ok <==> avail(data@, pos as int, 8 * count),
        r is Ok ==> pos + 8 * count <= usize::MAX,
        r matches Ok(v) ==> v@ == words_at(data@, pos as int, count as nat),
        r matches Err(e) ==> e == ZipError::UnexpectedEnd,
{
    if pos > data.len() || count > (data.len() - pos) / 8 {
        return Err(ZipError::UnexpectedEnd);
    }
    let mut words: Vec<u64> = Vec::with_capacity(count);
    let mut i: usize = 0;
    while i < count
        invariant
            i <= count,
            pos + 8 * count <= data@.len() <= usize::MAX,
            words@ == words_at(data@, pos as int, i as nat),
        decreases count - i,
    {
        match read_u64(data, pos + 8 * i) {
            Ok(w) => {
                words.push(w);
            },
            Err(e) => {
                return Err(e);
            },
        }
        i += 1;
        assert(words@ =~= words_at(data@, pos as int, i as nat));
    }
    Ok(words)
}

/// Appends the blob.
pub fn put_blob(out: &mut Vec<u8>, bytes: &[u8])
    ensures
        final(out)@ == old(out)@ + blob_wire(bytes@),
        bytes@.len() <= u64::MAX,
{
    reveal(blob_wire);
    put_u64(out, bytes.len() as u64);
    put_bytes(out, bytes);
    assert(out@ =~= old(out)@ + blob_wire(bytes@));
}

/// Reads the blob that starts at `pos` and returns it with the position
/// behind it.
pub fn read_blob(data: &[u8], pos: usize) -> (r: Result<(Vec<u8>, usize), ZipError>)
    ensures
        r matches Ok((v, next)) ==> blob_at(data@, pos as int) == Ok::<(Seq<u8>, int), ZipError>(
            (v@, next as int),
        ),
        r matches Err(e) ==> blob_at(data@, pos as int) == Err::<(Seq<u8>, int), ZipError>(e),
{
    reveal(blob_at);
    let len: u64 = read_u64(data, pos)?;
    if len > (data.len() - (pos + 8)) as u64 {
        return Err(ZipError::UnexpectedEnd);
    }
    let bytes: Vec<u8> = read_bytes(data, pos + 8, len as usize)?;
    Ok((bytes, pos + 8 + len as usize))
}

/// Words take eight bytes each.
pub proof fn lemma_words_len(words: Seq<u64>)
    ensures
        words_wire(words).len() == 8 * words.len(),
    decreases words.len(),
{
    if words.len() > 0 {
        lemma_words_len(words.drop_last());
    }
}

/// Words written after `pre` are read back as they were written.
pub proof fn lemma_words_round_trip(pre: Seq<u8>, words: Seq<u64>, post: Seq<u8>)
    ensures
        words_wire(words).len() == 8 * words.len(),
        avail(pre + words_wire(words) + post, pre.len() as int, 8 * (words.len() as int)),
        words_at(pre + words_wire(words) + post, pre.len() as int, words.len()) == words,
    decreases words.len(),
{
    lemma_words_len(words);
    let s = pre + words_wire(words) + post;
    let p = pre.len() as int;
    if words.len() > 0 {
        let front = words.drop_last();
        let last = words.last();
        lemma_words_len(front);
        assert(s =~= pre + words_wire(front) + (le64(last) + post));
        lemma_words_round_trip(pre, front, le64(last) + post);
        assert(s =~= (pre + words_wire(front)) + le64(last) + post);
        lemma_le64_at(pre + words_wire(front), last, post);
        let got = words_at(s, p, words.len());
        assert forall|i: int| 0 <= i < words.len() implies got[i] == words[i] by {
            if i < front.len() {
                assert(words_at(s, p, front.len())[i] == front[i]);
            }
        }
        assert(got =~= words);
    } else {
        assert(words_at(s, p, 0) =~= words);
    }
}

/// A blob written after `pre` is read back as it was written.
pub proof fn lemma_blob_round_trip(pre: Seq<u8>, bytes: Seq<u8>, post: Seq<u8>)
    requires
        bytes.len() <= u64::MAX,
    ensures
        blob_wire(bytes).len() == 8 + bytes.len(),
        blob_at(pre + blob_wire(bytes) + post, pre.len() as int) == Ok::<(Seq<u8>, int), ZipError>(
            (bytes, (pre.len() + 8 + bytes.len()) as int),
        ),
{
    reveal(blob_wire);
    reveal(blob_at);
    let s = pre + blob_wire(bytes) + post;
    let p = pre.len() as int;
    assert(s =~= pre + le64(bytes.len() as u64) + (bytes + post));
    lemma_le64_at(pre, bytes.len() as u64, bytes + post);
    assert(s.subrange(p + 8, p + 8 + bytes.len()) =~= bytes);
}

/// Words of two runs are the words of the first, then those of the second.
pub proof fn lemma_words_concat(a: Seq<u64>, b: Seq<u64>)
    ensures
        words_wire(a + b) == words_wire(a) + words_wire(b),
    decreases b.len(),
{
    if b.len() == 0 {
        assert(a + b =~= a);
        assert(words_wire(a) + words_wire(b) =~= words_wire(a));
    } else {
        lemma_words_concat(a, b.drop_last());
        assert((a + b).drop_last() =~= a + b.drop_last());
        assert(words_wire(a + b) =~= words_wire(a) + words_wire(b));
    }
}

/// The words of an optional time: whether it is there, and its 32 bits.
pub open spec fn time_words(t: Option<i32>) -> Seq<u64> {
    match t {
        Some(v) => seq![1u64, unsigned(v) as u64],
        None => seq![0u64, 0u64],
    }
}

/// The optional time that two words stand for, if they stand for one.
pub open spec fn time_of_words(present: u64, bits: u64) -> Option<Option<i32>> {
    if present > 1 || bits > u32::MAX {
        None
    } else if present == 1 {
        Some(Some(signed(bits as u32)))
    } else {
        Some(None)
    }
}

/// The number of words that an extra field takes in a snapshot.
pub const EXTRA_WORDS: usize = 7;

/// An extra field as seven words: its kind, then its fields.
pub open spec fn extra_words(e: Extra) -> Seq<u64> {
    match e {
        Extra::NTFS { mtime, atime, ctime } => seq![0u64, mtime, atime, ctime, 0u64, 0u64, 0u64],
        Extra::UnixExtendedTimestamp { mtime, atime, ctime } => seq![1u64] + time_words(mtime)
            + time_words(atime) + time_words(ctime),
        Extra::UnixAttrs { uid, gid } => seq![2u64, uid as u64, gid as u64, 0u64, 0u64, 0u64, 0u64],
    }
}

/// The extra field that seven words stand for, if they stand for one.
pub open spec fn extra_of_words(w: Seq<u64>) -> Option<Extra> {
    if w[0] == 0 {
        Some(Extra::NTFS { mtime: w[1], atime: w[2], ctime: w[3] })
    } else if w[0] == 1 {
        match (time_of_words(w[1], w[2]), time_of_words(w[3], w[4]), time_of_words(w[5], w[6])) {
            (Some(mtime), Some(atime), Some(ctime)) => Some(
                Extra::UnixExtendedTimestamp { mtime, atime, ctime },
            ),
            _ => None,
        }
    } else if w[0] == 2 && w[1] <= u32::MAX && w[2] <= u32::MAX {
        Some(Extra::UnixAttrs { uid: w[1] as u32, gid: w[2] as u32 })
    } else {
        None
    }
}

/// The words of a run of extra fields.
pub open spec fn run_words(extras: Seq<Extra>) -> Seq<u64>
    decreases extras.len(),
{
    if extras.len() == 0 {
        Seq::empty()
    } else {
        run_words(extras.drop_last()) + extra_words(extras.last())
    }
}

/// The seven words of the extra field at place `i`.
pub open spec fn group(words: Seq<u64>, i: int) -> Seq<u64> {
    words.subrange(7 * i, 7 * i + 7)
}

/// The run of `count` extra fields that the words stand for, if each seven
/// of them stand for one.
pub open spec fn run_of_words(words: Seq<u64>, count: nat) -> Option<Seq<Extra>> {
    if forall|i: int| 0 <= i < count ==> (#[trigger] extra_of_words(group(words, i))) is Some {
        Some(Seq::new(count, |i: int| extra_of_words(group(words, i))->0))
    } else {
        None
    }
}

/// A run of extra fields in a snapshot: their number, then their words.
#[verifier::opaque]
pub open spec fn run_snapshot(extras: Seq<Extra>) -> Seq<u8> {
    le64(extras.len() as u64) + words_wire(run_words(extras))
}

/// The run of extra fields whose snapshot starts at `p`, with the position
/// behind it.
#[verifier::opaque]
pub open spec fn run_restored_at(s: Seq<u8>, p: int) -> Result<(Seq<Extra>, int), ZipError> {
    if !avail(s, p, 8) || !avail(s, p + 8, 56 * (u64_at(s, p) as int)) {
        Err(ZipError::UnexpectedEnd)
    } else {
        let count = u64_at(s, p) as nat;
        match run_of_words(words_at(s, p + 8, 7 * count), count) {
            None => Err(ZipError::InvalidCache),
            Some(extras) => Ok((extras, p + 8 + 56 * count)),
        }
    }
}

fn put_time(words: &mut Vec<u64>, t: Option<i32>)
    ensures
        final(words)@ == old(words)@ + time_words(t),
{
    match t {
        Some(v) => {
            words.push(1);
            if v >= 0 {
                words.push(v as u64);
            } else {
                words.push((v as i64 + 0x1_0000_0000) as u64);
            }
        },
        None => {
            words.push(0);
            words.push(0);
        },
    }
    assert(words@ =~= old(words)@ + time_words(t));
}

fn take_time(present: u64, bits: u64) -> (r: Option<Option<i32>>)
    ensures
        r == time_of_words(present, bits),
{
    if present > 1 || bits > u32::MAX as u64 {
        None
    } else if present == 1 {
        if bits < 0x8000_0000 {
            Some(Some(bits as i32))
        } else {
            Some(Some((bits as i64 - 0x1_0000_0000) as i32))
        }
    } else {
        Some(None)
    }
}

/// Appends the seven words of an extra field.
pub fn put_extra_words(words: &mut Vec<u64>, e: &Extra)
    ensures
        final(words)@ == old(words)@ + extra_words(*e),
        extra_words(*e).len() == 7,
{
    match e {
        Extra::NTFS { mtime, atime, ctime } => {
            words.push(0);
            words.push(*mtime);
            words.push(*atime);
            words.push(*ctime);
            words.push(0);
            words.push(0);
            words.push(0);
        },
        Extra::UnixExtendedTimestamp { mtime, atime, ctime } => {
            words.push(1);
            put_time(words, *mtime);
            put_time(words, *atime);
            put_time(words, *ctime);
        },
        Extra::UnixAttrs { uid, gid } => {
            words.push(2);
            words.push(*uid as u64);
            words.push(*gid as u64);
            words.push(0);
            words.push(0);
            words.push(0);
            words.push(0);
        },
    }
    assert(words@ =~= old(words)@ + extra_words(*e));
}

/// The extra field that the seven words from place `7 * i` on stand for.
pub fn take_extra(words: &[u64], i: usize) -> (r: Option<Extra>)
    requires
        7 * i + 7 <= words@.len(),
    ensures
        r == extra_of_words(group(words@, i as int)),
{
    let len: usize = words.len();
    let at: usize = 7 * i;
    let ghost w = group(words@, i as int);
    proof {
        assert(forall|k: int| 0 <= k < 7 ==> w[k] == words@[at + k]);
    }
    let kind: u64 = words[at];
    if kind == 0 {
        Some(Extra::NTFS { mtime: words[at + 1], atime: words[at + 2], ctime: words[at + 3] })
    } else if kind == 1 {
        let mtime = take_time(words[at + 1], words[at + 2]);
        let atime = take_time(words[at + 3], words[at + 4]);
        let ctime = take_time(words[at + 5], words[at + 6]);
        match (mtime, atime, ctime) {
            (Some(mtime), Some(atime), Some(ctime)) => Some(
                Extra::UnixExtendedTimestamp { mtime, atime, ctime },
            ),
            _ => None,
        }
    } else if kind == 2 && words[at + 1] <= u32::MAX as u64 && words[at + 2] <= u32::MAX as u64 {
        Some(Extra::UnixAttrs { uid: words[at + 1] as u32, gid: words[at + 2] as u32 })
    } else {
        None
    }
}

/// Appends the snapshot of a run of extra fields.
pub fn put_run(out: &mut Vec<u8>, extras: &Vec<Extra>)
    ensures
        final(out)@ == old(out)@ + run_snapshot(extras@),
        extras@.len() <= u64::MAX,
{
    reveal(run_snapshot);
    put_u64(out, extras.len() as u64);
    let mut words: Vec<u64> = Vec::new();
    let mut i: usize = 0;
    while i < extras.len()
        invariant
            i <= extras@.len(),
            words@ == run_words(extras@.take(i as int)),
        decreases extras@.len() - i,
    {
        put_extra_words(&mut words, &extras[i]);
        proof {
            assert(extras@.take(i + 1).drop_last() =~= extras@.take(i as int));
        }
        i += 1;
    }
    proof {
        assert(extras@.take(i as int) =~= extras@);
    }
    put_words(out, words.as_slice());
    assert(out@ =~= old(out)@ + run_snapshot(extras@));
}

/// Reads the snapshot of a run of extra fields that starts at `pos` and
/// returns the run with the position behind it.
pub fn read_run(data: &[u8], pos: usize) -> (r: Result<(Vec<Extra>, usize), ZipError>)
    ensures
        r matches Ok((v, next)) ==> run_restored_at(data@, pos as int) == Ok::<
            (Seq<Extra>, int),
            ZipError,
        >((v@, next as int)),
        r matches Err(e) ==> run_restored_at(data@, pos as int) == Err::<
            (Seq<Extra>, int),
            ZipError,
        >(e),
{
    reveal(run_restored_at);
    let count: u64 = read_u64(data, pos)?;
    if count > ((data.len() - (pos + 8)) / 56) as u64 {
        return Err(ZipError::UnexpectedEnd);
    }
    let count: usize = count as usize;
    let words: Vec<u64> = read_words(data, pos + 8, 7 * count)?;
    let mut extras: Vec<Extra> = Vec::with_capacity(count);
    let mut i: usize = 0;
    while i < count
        invariant
            i <= count,
            words@.len() == 7 * count,
            words@ == words_at(data@, pos + 8, (7 * count) as nat),
            avail(data@, pos as int, 8),
            u64_at(data@, pos as int) == count,
            avail(data@, pos + 8, 56 * count),
            extras@.len() == i,
            forall|k: int|
                0 <= k < i ==> (#[trigger] extra_of_words(group(words@, k))) == Some(extras@[k]),
        decreases count - i,
    {
        match take_extra(words.as_slice(), i) {
            Some(e) => {
                extras.push(e);
            },
            None => {
                proof {
                    reveal(run_restored_at);
                    assert(extra_of_words(group(words@, i as int)) is None);
                }
                return Err(ZipError::InvalidCache);
            },
        }
        i += 1;
    }
    proof {
        assert(run_of_words(words@, count as nat)->0 =~= extras@);
    }
    Ok((extras, pos + 8 + 56 * count))
}

/// An extra field is read back from its words as it was.
pub proof fn lemma_extra_words_round_trip(e: Extra)
    ensures
        extra_words(e).len() == 7,
        extra_of_words(extra_words(e)) == Some(e),
{
}

/// The words of a run are seven for each extra field, and each seven are
/// the words of the extra field at that place.
pub proof fn lemma_run_words(extras: Seq<Extra>)
    ensures
        run_words(extras).len() == 7 * extras.len(),
        forall|i: int|
            0 <= i < extras.len() ==> #[trigger] group(run_words(extras), i) == extra_words(
                extras[i],
            ),
    decreases extras.len(),
{
    if extras.len() > 0 {
        let front = extras.drop_last();
        lemma_run_words(front);
        lemma_extra_words_round_trip(extras.last());
        let all = run_words(extras);
        assert forall|i: int| 0 <= i < extras.len() implies #[trigger] group(all, i)
            == extra_words(extras[i]) by {
            if i < front.len() {
                assert(group(all, i) =~= group(run_words(front), i));
            } else {
                assert(group(all, i) =~= extra_words(extras.last()));
            }
        }
    }
}

/// A run of extra fields written after `pre` is read back as it was.
pub proof fn lemma_run_round_trip(pre: Seq<u8>, extras: Seq<Extra>, post: Seq<u8>)
    requires
        extras.len() <= u64::MAX,
    ensures
        run_snapshot(extras).len() == 8 + 56 * extras.len(),
        run_restored_at(pre + run_snapshot(extras) + post, pre.len() as int) == Ok::<
            (Seq<Extra>, int),
            ZipError,
        >((extras, (pre.len() + 8 + 56 * extras.len()) as int)),
{
    reveal(run_snapshot);
    reveal(run_restored_at);
    let s = pre + run_snapshot(extras) + post;
    let p = pre.len() as int;
    let words = run_words(extras);
    lemma_run_words(extras);
    assert(s =~= pre + le64(extras.len() as u64) + (words_wire(words) + post));
    lemma_le64_at(pre, extras.len() as u64, words_wire(words) + post);
    assert(s =~= (pre + le64(extras.len() as u64)) + words_wire(words) + post);
    lemma_words_round_trip(pre + le64(extras.len() as u64), words, post);
    assert(words_at(s, p + 8, 7 * extras.len()) == words);
    assert forall|i: int| 0 <= i < extras.len() implies (#[trigger] extra_of_words(
        group(words, i),
    )) == Some(extras[i]) by {
        lemma_extra_words_round_trip(extras[i]);
    }
    assert(run_of_words(words, extras.len())->0 =~= extras);
}

} // verus!
