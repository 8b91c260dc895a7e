//! Little-endian fixed-width fields: what they mean on a byte sequence, and
//! the functions that read and append them.

use crate::error::ZipError;
use vstd::prelude::*;

verus! {

/// `n` bytes are available in `s` from position `p` on.
pub open spec fn avail(s: Seq<u8>, p: int, n: int) -> bool {
    0 <= p && 0 <= n && p + n <= s.len()
}

/// The 16-bit number whose two bytes start at `p`, low byte first.
pub open spec fn u16_at(s: Seq<u8>, p: int) -> u16 {
    (s[p] + 256 * s[p + 1]) as u16
}

/// The 32-bit number whose four bytes start at `p`, low byte first.
pub open spec fn u32_at(s: Seq<u8>, p: int) -> u32 {
    (s[p] + 256 * s[p + 1] + 65536 * s[p + 2] + 16777216 * s[p + 3]) as u32
}

/// The 64-bit number whose eight bytes start at `p`, low byte first.
pub open spec fn u64_at(s: Seq<u8>, p: int) -> u64 {
    (u32_at(s, p) + 0x1_0000_0000 * u32_at(s, p + 4)) as u64
}

/// The signed reading of a 32-bit pattern (two's complement).
pub open spec fn signed(u: u32) -> i32 {
    if u < 0x8000_0000 {
        u as i32
    } else {
        (u - 0x1_0000_0000) as i32
    }
}

/// The 32-bit pattern of a signed value (two's complement).
pub open spec fn unsigned(v: i32) -> u32 {
    if v >= 0 {
        v as u32
    } else {
        (v + 0x1_0000_0000) as u32
    }
}

/// The signed 32-bit number whose four bytes start at `p`, low byte first.
pub open spec fn i32_at(s: Seq<u8>, p: int) -> i32 {
    signed(u32_at(s, p))
}

/// The two bytes of a 16-bit number, low byte first.
pub open spec fn le16(v: u16) -> Seq<u8> {
    seq![(v % 256) as u8, (v / 256) as u8]
}

/// The four bytes of a 32-bit number, low byte first.
pub open spec fn le32(v: u32) -> Seq<u8> {
    seq![
        (v % 256) as u8,
        (v / 256 % 256) as u8,
        (v / 65536 % 256) as u8,
        (v / 16777216) as u8,
    ]
}

/// The eight bytes of a 64-bit number, low byte first.
pub open spec fn le64(v: u64) -> Seq<u8> {
    le32((v % 0x1_0000_0000) as u32) + le32((v / 0x1_0000_0000) as u32)
}

/// The four bytes of a signed 32-bit number, low byte first.
pub open spec fn le32i(v: i32) -> Seq<u8> {
    le32(unsigned(v))
}

/// What reading a field of `n` bytes at `p` gives: the value, or the end of input.
pub open spec fn field<T>(s: Seq<u8>, p: int, n: int, value: T) -> Result<T, ZipError> {
    if avail(s, p, n) {
        Ok(value)
    } else {
        Err(ZipError::UnexpectedEnd)
    }
}

/// Reads the byte at `pos`.
pub fn read_u8(data: &[u8], pos: usize) -> (r: Result<u8, ZipError>)
    ensures
        r == field(data@, pos as int, 1, data@[pos as int]),
{
    if pos < data.len() {
        Ok(data[pos])
    } else {
        Err(ZipError::UnexpectedEnd)
    }
}

/// Reads the 16-bit number at `pos`.
pub fn read_u16(data: &[u8], pos: usize) -> (r: Result<u16, ZipError>)
    ensures
        r == field(data@, pos as int, 2, u16_at(data@, pos as int)),
{
    if data.len() < 2 || pos > data.len() - 2 {
        return Err(ZipError::UnexpectedEnd);
    }
    let b0: u16 = data[pos] as u16;
    let b1: u16 = data[pos + 1] as u16;
    Ok(b0 + 256 * b1)
}

/// Reads the 32-bit number at `pos`.
pub fn read_u32(data: &[u8], pos: usize) -> (r: Result<u32, ZipError>)
    ensures
        r == field(data@, pos as int, 4, u32_at(data@, pos as int)),
{
    if data.len() < 4 || pos > data.len() - 4 {
        return Err(ZipError::UnexpectedEnd);
    }
    let b0: u32 = data[pos] as u32;
    let b1: u32 = data[pos + 1] as u32;
    let b2: u32 = data[pos + 2] as u32;
    let b3: u32 = data[pos + 3] as u32;
    Ok(b0 + 256 * b1 + 65536 * b2 + 16777216 * b3)
}

/// Reads the 64-bit number at `pos`.
pub fn read_u64(data: &[u8], pos: usize) -> (r: Result<u64, ZipError>)
    ensures
        r == field(data@, pos as int, 8, u64_at(data@, pos as int)),
{
    if data.len() < 8 || pos > data.len() - 8 {
        return Err(ZipError::UnexpectedEnd);
    }
    let lo: u32 = read_u32(data, pos)?;
    let hi: u32 = read_u32(data, pos + 4)?;
    Ok(lo as u64 + 0x1_0000_0000 * (hi as u64))
}

/// Reads the signed 32-bit number at `pos`.
pub fn read_i32(data: &[u8], pos: usize) -> (r: Result<i32, ZipError>)
    ensures
        r == field(data@, pos as int, 4, i32_at(data@, pos as int)),
{
    let u: u32 = read_u32(data, pos)?;
    if u < 0x8000_0000 {
        Ok(u as i32)
    } else {
        Ok((u as i64 - 0x1_0000_0000) as i32)
    }
}

/// The `n` bytes at `pos`, copied out.
pub fn read_bytes(data: &[u8], pos: usize, n: usize) -> (r: Result<Vec<u8>, ZipError>)
    ensures
        r is Ok <==> avail(data@, pos as int, n as int),
        r matches Ok(v) ==> v@ == data@.subrange(pos as int, pos + n),
        r matches Err(e) ==> e == ZipError::UnexpectedEnd,
{
    if pos > data.len() || n > data.len() - pos {
        return Err(ZipError::UnexpectedEnd);
    }
    let mut v: Vec<u8> = Vec::with_capacity(n);
    let mut i: usize = 0;
    while i < n
        invariant
            i <= n,
            pos + n <= data@.len() <= usize::MAX,
            v@ == data@.subrange(pos as int, pos + i),
        decreases n - i,
    {
        v.push(data[pos + i]);
        i += 1;
        assert(v@ =~= data@.subrange(pos as int, pos + i));
    }
    Ok(v)
}

/// Appends a byte.
pub fn put_u8(out: &mut Vec<u8>, v: u8)
    ensures
        final(out)@ == old(out)@ + seq![v],
{
    out.push(v);
    assert(out@ =~= old(out)@ + seq![v]);
}

/// Appends a 16-bit number.
pub fn put_u16(out: &mut Vec<u8>, v: u16)
    ensures
        final(out)@ == old(out)@ + le16(v),
{
    out.push((v % 256) as u8);
    out.push((v / 256) as u8);
    assert(out@ =~= old(out)@ + le16(v));
}

/// Appends a 32-bit number.
pub fn put_u32(out: &mut Vec<u8>, v: u32)
    ensures
        final(out)@ == old(out)@ + le32(v),
{
    out.push((v % 256) as u8);
    out.push((v / 256 % 256) as u8);
    out.push((v / 65536 % 256) as u8);
    out.push((v / 16777216) as u8);
    assert(out@ =~= old(out)@ + le32(v));
}

/// Appends a 64-bit number.
pub fn put_u64(out: &mut Vec<u8>, v: u64)
    ensures
        final(out)@ == old(out)@ + le64(v),
{
    put_u32(out, (v % 0x1_0000_0000) as u32);
    put_u32(out, (v / 0x1_0000_0000) as u32);
    assert(out@ =~= old(out)@ + le64(v));
}

/// Appends a signed 32-bit number.
pub fn put_i32(out: &mut Vec<u8>, v: i32)
    ensures
        final(out)@ == old(out)@ + le32i(v),
{
    if v >= 0 {
        put_u32(out, v as u32);
    } else {
        put_u32(out, (v as i64 + 0x1_0000_0000) as u32);
    }
}

/// Appends the bytes.
pub fn put_bytes(out: &mut Vec<u8>, bytes: &[u8])
    ensures
        final(out)@ == old(out)@ + bytes@,
{
    let mut i: usize = 0;
    while i < bytes.len()
        invariant
            i <= bytes@.len(),
            out@ == old(out)@ + bytes@.subrange(0, i as int),
        decreases bytes@.len() - i,
    {
        out.push(bytes[i]);
        i += 1;
        assert(out@ =~= old(out)@ + bytes@.subrange(0, i as int));
    }
    assert(bytes@.subrange(0, bytes@.len() as int) =~= bytes@);
}

/// A 16-bit field written after `pre` reads back as the value written.
pub proof fn lemma_le16_at(pre: Seq<u8>, v: u16, post: Seq<u8>)
    ensures
        u16_at(pre + le16(v) + post, pre.len() as int) == v,
        le16(v).len() == 2,
{
    let s = pre + le16(v) + post;
    let p = pre.len() as int;
    assert(s[p] == le16(v)[0]);
    assert(s[p + 1] == le16(v)[1]);
}

/// A 32-bit field written after `pre` reads back as the value written.
pub proof fn lemma_le32_at(pre: Seq<u8>, v: u32, post: Seq<u8>)
    ensures
        u32_at(pre + le32(v) + post, pre.len() as int) == v,
        le32(v).len() == 4,
{
    let s = pre + le32(v) + post;
    let p = pre.len() as int;
    assert(s[p] == le32(v)[0]);
    assert(s[p + 1] == le32(v)[1]);
    assert(s[p + 2] == le32(v)[2]);
    assert(s[p + 3] == le32(v)[3]);
}

/// A 64-bit field written after `pre` reads back as the value written.
pub proof fn lemma_le64_at(pre: Seq<u8>, v: u64, post: Seq<u8>)
    ensures
        u64_at(pre + le64(v) + post, pre.len() as int) == v,
        le64(v).len() == 8,
{
    let lo = (v % 0x1_0000_0000) as u32;
    let hi = (v / 0x1_0000_0000) as u32;
    let s = pre + le64(v) + post;
    assert(s =~= pre + le32(lo) + (le32(hi) + post));
    lemma_le32_at(pre, lo, le32(hi) + post);
    assert(s =~= (pre + le32(lo)) + le32(hi) + post);
    lemma_le32_at(pre + le32(lo), hi, post);
}

/// A signed 32-bit field written after `pre` reads back as the value written.
pub proof fn lemma_le32i_at(pre: Seq<u8>, v: i32, post: Seq<u8>)
    ensures
        i32_at(pre + le32i(v) + post, pre.len() as int) == v,
        le32i(v).len() == 4,
{
    lemma_le32_at(pre, unsigned(v), post);
}

/// The bytes of `s` from `pre.len()` on are those of `w`, where `s` is `w`
/// between `pre` and `post`.
pub proof fn lemma_embedded(pre: Seq<u8>, w: Seq<u8>, post: Seq<u8>)
    ensures
        (pre + w + post).len() == pre.len() + w.len() + post.len(),
        forall|j: int|
            pre.len() <= j < pre.len() + w.len() ==> #[trigger] (pre + w + post)[j] == w[j
                - pre.len()],
{
}

/// A 16-bit field of `w` is read from `w` between `pre` and `post` as from
/// `w` alone.
pub proof fn lemma_u16_embedded(pre: Seq<u8>, w: Seq<u8>, post: Seq<u8>, k: int)
    requires
        0 <= k,
        k + 2 <= w.len(),
    ensures
        u16_at(pre + w + post, pre.len() + k) == u16_at(w, k),
{
    lemma_embedded(pre, w, post);
}

/// A 32-bit field of `w` is read from `w` between `pre` and `post` as from
/// `w` alone.
pub proof fn lemma_u32_embedded(pre: Seq<u8>, w: Seq<u8>, post: Seq<u8>, k: int)
    requires
        0 <= k,
        k + 4 <= w.len(),
    ensures
        u32_at(pre + w + post, pre.len() + k) == u32_at(w, k),
{
    lemma_embedded(pre, w, post);
}

/// What holds a sequence in some place is that sequence between what
/// precedes the place and what follows it.
pub proof fn lemma_found(s: Seq<u8>, p: int, w: Seq<u8>)
    requires
        0 <= p,
        p + w.len() <= s.len(),
        s.subrange(p, p + w.len()) == w,
    ensures
        s == s.take(p) + w + s.skip(p + w.len()),
        s.take(p).len() == p,
{
    assert(s =~= s.take(p) + w + s.skip(p + w.len()));
}

/// The part between `pre` and `post` is found where `pre` ends.
pub proof fn lemma_placed(pre: Seq<u8>, w: Seq<u8>, post: Seq<u8>)
    ensures
        (pre + w + post).subrange(pre.len() as int, (pre.len() + w.len()) as int) == w,
        (pre + w + post).len() == pre.len() + w.len() + post.len(),
{
    assert((pre + w + post).subrange(pre.len() as int, (pre.len() + w.len()) as int) =~= w);
}

/// A part that is followed by more is, within its surroundings, a part
/// between what precedes it and all that follows; and what precedes the
/// rest ends with it.
pub proof fn lemma_part(pre: Seq<u8>, part: Seq<u8>, rest: Seq<u8>, post: Seq<u8>)
    ensures
        pre + (part + rest) + post == pre + part + (rest + post),
        pre + (part + rest) + post == (pre + part) + rest + post,
        (pre + part).len() == pre.len() + part.len(),
{
    assert(pre + (part + rest) + post =~= pre + part + (rest + post));
    assert(pre + (part + rest) + post =~= (pre + part) + rest + post);
}

} // verus!
