//! What is written is read back: where the records of a written archive
//! lie, and what a reader makes of them.

use crate::directory::{CompressionType, DirectoryView};
use crate::eocd::EoCdView;
use crate::error::ZipError;
use crate::layout::{
    archive_wire, can_be_laid, central_offset_of, centrals_wire, laid_out, laid_upto, layout_fits,
    locals_wire, offset_of, prepared_all, trailer_of, trailer_wire, written,
};
use crate::le::le32;
use crate::positions::{
    lemma_centrals, lemma_centrals_len, lemma_local_len, lemma_locals, lemma_locals_len,
};
use crate::table::{collected, distinct_names, Entries};
use crate::zip::{entries_at, parse_of, ZipView};
use crate::zip_file::FILE_MAGIC;
use vstd::prelude::*;

verus! {

/// The entries are ready for the wire: every length and size fits its
/// field and says what the entry holds, every entry names the offset at
/// which its local record lies, and local records and central directory
/// end within what the trailer's fields can say.
#[verifier::opaque]
pub open spec fn settled(es: Entries) -> bool {
    &&& es.len() <= u16::MAX
    &&& offset_of(es, es.len() as int) <= u32::MAX
    &&& central_offset_of(es, es.len() as int) <= u32::MAX
    &&& forall|i: int|
        0 <= i < es.len() ==> {
            &&& (#[trigger] es[i]).1.fits()
            &&& es[i].1.file.fits()
            &&& es[i].1.compressed_size == es[i].1.data.len()
            &&& es[i].1.offset_of_local_file_header == offset_of(es, i)
        }
}

/// The entries as a reader finds them.
pub open spec fn as_read(es: Entries) -> Seq<DirectoryView> {
    Seq::new(es.len(), |i: int| es[i].1.as_read())
}

/// Every offset leads to its header: in the bytes of an archive whose
/// entries are ready for the wire, the local record of each entry stands
/// at the offset that the entry's central directory record names, and it
/// starts with the signature of a local file header.
pub proof fn lemma_offsets_lead_to_headers(z: ZipView, i: int)
    requires
        settled(z.directories),
        0 <= i < z.directories.len(),
    ensures
        ({
            let e = z.directories[i].1;
            let at = e.offset_of_local_file_header as int;
            &&& at + e.local_size() <= archive_wire(z).len()
            &&& archive_wire(z).subrange(at, at + e.local_size()) == e.local_wire()
            &&& archive_wire(z).subrange(at, at + 4) == le32(FILE_MAGIC)
        }),
{
    let es = z.directories;
    let e = es[i].1;
    let at = e.offset_of_local_file_header as int;
    let locals = locals_wire(es);
    let rest = centrals_wire(es) + trailer_wire(z.eo_cd);
    lemma_settled_entry(es, i);
    lemma_locals(es, i);
    lemma_local_len(e);
    crate::zip_file::lemma_header_len(e.file);
    assert(archive_wire(z) =~= locals + rest);
    assert(archive_wire(z).subrange(at, at + e.local_size()) =~= locals.subrange(
        at,
        at + e.local_size(),
    ));
    assert(archive_wire(z).subrange(at, at + 4) =~= e.local_wire().subrange(0, 4));
    assert(e.local_wire().subrange(0, 4) =~= e.file.header_wire().subrange(0, 4));
}

/// An archive that was laid out has entries that are ready for the wire.
pub proof fn lemma_laid_out_settled(es: Entries, crc32_computer: bool, level: u8)
    requires
        layout_fits(es, crc32_computer, level),
    ensures
        settled(laid_out(es, crc32_computer, level)),
        laid_out(es, crc32_computer, level).len() == es.len(),
        forall|i: int|
            0 <= i < es.len() ==> (#[trigger] laid_out(es, crc32_computer, level)[i]).0 == es[i].0,
{
    let out = laid_out(es, crc32_computer, level);
    let ps = prepared_all(es, crc32_computer, level);
    let n = es.len() as int;
    crate::layout::lemma_laid_out_len(es, crc32_computer, level);
    assert forall|i: int| 0 <= i < n implies {
        &&& (#[trigger] out[i]).1.fits()
        &&& out[i].1.file.fits()
        &&& out[i].1.compressed_size == out[i].1.data.len()
        &&& out[i].1.offset_of_local_file_header == offset_of(out, i)
        &&& out[i].0 == es[i].0
        &&& offset_of(out, i + 1) <= u32::MAX
        &&& central_offset_of(out, i + 1) <= u32::MAX
    } by {
        crate::layout::lemma_offsets_of_laid_out(es, crc32_computer, level, i);
        crate::layout::lemma_offsets_of_laid_out(es, crc32_computer, level, i + 1);
        lemma_laid_entry(es, crc32_computer, level, i);
    }
    if n > 0 {
        assert(offset_of(out, (n - 1) + 1) <= u32::MAX);
        assert(central_offset_of(out, (n - 1) + 1) <= u32::MAX);
        assert(out[n - 1].1.fits());
    }
    reveal(settled);
}

/// After writing, every offset leads to its header: in the bytes that
/// `write` appends for an archive, the local record of each entry stands at
/// the offset that the entry names afterwards, and starts with the
/// signature of a local file header.
pub proof fn lemma_written_offsets_lead_to_headers(z: ZipView, i: int)
    requires
        layout_fits(z.directories, z.crc32_computer, z.compression_level.value()),
        0 <= i < z.directories.len(),
    ensures
        ({
            let w = written(z);
            let e = w.directories[i].1;
            let at = e.offset_of_local_file_header as int;
            &&& w.directories.len() == z.directories.len()
            &&& w.directories[i].0 == z.directories[i].0
            &&& at + e.local_size() <= archive_wire(w).len()
            &&& archive_wire(w).subrange(at, at + e.local_size()) == e.local_wire()
            &&& archive_wire(w).subrange(at, at + 4) == le32(FILE_MAGIC)
        }),
{
    lemma_laid_out_settled(z.directories, z.crc32_computer, z.compression_level.value());
    lemma_offsets_lead_to_headers(written(z), i);
}

/// What laying out gives for one entry.
proof fn lemma_laid_entry(es: Entries, crc32_computer: bool, level: u8, i: int)
    requires
        layout_fits(es, crc32_computer, level),
        0 <= i < es.len(),
    ensures
        ({
            let out = laid_out(es, crc32_computer, level);
            let ps = prepared_all(es, crc32_computer, level);
            &&& out[i].0 == es[i].0
            &&& out[i].1.fits()
            &&& out[i].1.file.fits()
            &&& out[i].1.compressed_size == out[i].1.data.len()
            &&& out[i].1.offset_of_local_file_header == offset_of(ps, i)
            &&& offset_of(ps, i + 1) <= u32::MAX
            &&& central_offset_of(ps, i + 1) <= u32::MAX
        }),
{
    reveal(laid_upto);
    reveal(can_be_laid);
    reveal(prepared_all);
    reveal(DirectoryView::prepared);
    let ps = prepared_all(es, crc32_computer, level);
    assert(ps[i].1.can_be_placed(offset_of(ps, i), central_offset_of(ps, i)));
}

/// What being ready for the wire says of one entry.
pub proof fn lemma_settled_entry(es: Entries, i: int)
    requires
        settled(es),
        0 <= i < es.len(),
    ensures
        es[i].1.fits(),
        es[i].1.file.fits(),
        es[i].1.compressed_size == es[i].1.data.len(),
        es[i].1.offset_of_local_file_header == offset_of(es, i),
        es.len() <= u16::MAX,
        offset_of(es, es.len() as int) <= u32::MAX,
        central_offset_of(es, es.len() as int) <= u32::MAX,
{
    reveal(settled);
}

/// The bytes of an archive with a trailer: local records, central
/// directory, trailer; and where each part lies.
proof fn lemma_archive_parts(z: ZipView)
    requires
        z.eo_cd is Some,
    ensures
        ({
            let s = archive_wire(z);
            let es = z.directories;
            let locals = offset_of(es, es.len() as int);
            let centrals = central_offset_of(es, es.len() as int);
            &&& s == locals_wire(es) + centrals_wire(es) + crate::eocd::wire(z.eo_cd->0)
            &&& locals_wire(es).len() == locals
            &&& centrals_wire(es).len() == centrals
            &&& s.len() == locals + centrals + 22
        }),
{
    let es = z.directories;
    lemma_locals_len(es);
    lemma_centrals_len(es);
    crate::eocd::lemma_round_trip(locals_wire(es) + centrals_wire(es), z.eo_cd->0);
}

/// A part of the first of three sequences is that part of the three.
proof fn lemma_in_first(a: Seq<u8>, b: Seq<u8>, c: Seq<u8>, from: int, to: int)
    requires
        0 <= from <= to <= a.len(),
    ensures
        (a + b + c).subrange(from, to) == a.subrange(from, to),
{
    assert((a + b + c).subrange(from, to) =~= a.subrange(from, to));
}

/// A part of the second of three sequences is that part of the three,
/// behind the first.
proof fn lemma_in_second(a: Seq<u8>, b: Seq<u8>, c: Seq<u8>, from: int, to: int)
    requires
        0 <= from <= to <= b.len(),
    ensures
        (a + b + c).subrange(a.len() + from, a.len() + to) == b.subrange(from, to),
{
    assert((a + b + c).subrange(a.len() + from, a.len() + to) =~= b.subrange(from, to));
}

/// The start of a part is a part.
proof fn lemma_start_of_part(s: Seq<u8>, from: int, to: int, len: int)
    requires
        0 <= from,
        0 <= len,
        from + len <= to <= s.len(),
    ensures
        s.subrange(from, from + len) == s.subrange(from, to).subrange(0, len),
{
    assert(s.subrange(from, from + len) =~= s.subrange(from, to).subrange(0, len));
}

/// In the bytes of an archive the record of entry `i` in the central
/// directory lies behind the local records, at the entry's offset within
/// the central directory.
proof fn lemma_central_found(z: ZipView, i: int)
    requires
        z.eo_cd is Some,
        0 <= i < z.directories.len(),
    ensures
        ({
            let es = z.directories;
            let s = archive_wire(z);
            let p = (offset_of(es, es.len() as int) + central_offset_of(es, i)) as int;
            &&& p + es[i].1.wire_len() <= s.len()
            &&& p + es[i].1.wire_len() == offset_of(es, es.len() as int) + central_offset_of(
                es,
                i + 1,
            )
            &&& s.subrange(p, p + es[i].1.wire_len()) == es[i].1.wire()
        }),
{
    let es = z.directories;
    lemma_archive_parts(z);
    lemma_centrals(es, i);
    lemma_in_second(
        locals_wire(es),
        centrals_wire(es),
        crate::eocd::wire(z.eo_cd->0),
        central_offset_of(es, i) as int,
        central_offset_of(es, i + 1) as int,
    );
}

/// In the bytes of an archive the local file header and the payload of
/// entry `i` lie at the entry's offset.
proof fn lemma_local_found(z: ZipView, i: int)
    requires
        z.eo_cd is Some,
        0 <= i < z.directories.len(),
    ensures
        ({
            let es = z.directories;
            let e = es[i].1;
            let s = archive_wire(z);
            let at = offset_of(es, i) as int;
            let len = e.file.header_len() + e.data.len();
            &&& at + len <= s.len()
            &&& s.subrange(at, at + len) == e.file.header_wire() + e.data
        }),
{
    let es = z.directories;
    let e = es[i].1;
    let s = archive_wire(z);
    let at = offset_of(es, i) as int;
    let end = offset_of(es, i + 1) as int;
    let len = (e.file.header_len() + e.data.len()) as int;
    lemma_archive_parts(z);
    lemma_locals(es, i);
    lemma_local_len(e);
    lemma_in_first(
        locals_wire(es),
        centrals_wire(es),
        crate::eocd::wire(z.eo_cd->0),
        at,
        end,
    );
    lemma_start_of_part(s, at, end, len);
}

/// A reader at the record of entry `i` in the central directory gets the
/// entry as it stands on the wire, and ends at the record of the next.
proof fn lemma_entry_read_back(z: ZipView, i: int)
    requires
        z.eo_cd is Some,
        settled(z.directories),
        0 <= i < z.directories.len(),
    ensures
        ({
            let es = z.directories;
            let start = offset_of(es, es.len() as int) as int;
            crate::directory::decode_at(archive_wire(z), start + central_offset_of(es, i)) == Ok::<
                (DirectoryView, int),
                ZipError,
            >((es[i].1.as_read(), start + central_offset_of(es, i + 1)))
        }),
{
    let es = z.directories;
    let start = offset_of(es, es.len() as int) as int;
    lemma_settled_entry(es, i);
    lemma_central_found(z, i);
    lemma_local_found(z, i);
    crate::directory::lemma_entry_round_trip(
        archive_wire(z),
        start + central_offset_of(es, i),
        es[i].1,
    );
}

/// A reader at the record of entry `i` gets that entry and all behind it.
proof fn lemma_entries_read_back(z: ZipView, i: int)
    requires
        z.eo_cd is Some,
        settled(z.directories),
        0 <= i <= z.directories.len(),
    ensures
        ({
            let es = z.directories;
            let start = offset_of(es, es.len() as int) as int;
            entries_at(
                archive_wire(z),
                start + central_offset_of(es, i),
                (es.len() - i) as nat,
            ) == Ok::<Seq<DirectoryView>, ZipError>(as_read(es).skip(i))
        }),
    decreases z.directories.len() - i,
{
    let es = z.directories;
    if i < es.len() {
        lemma_entry_read_back(z, i);
        lemma_entries_read_back(z, i + 1);
        assert(seq![es[i].1.as_read()] + as_read(es).skip(i + 1) =~= as_read(es).skip(i));
    } else {
        assert(as_read(es).skip(i) =~= Seq::<DirectoryView>::empty());
    }
}

/// What is written is read back: the bytes of an archive whose entries are
/// ready for the wire, and whose trailer says where they lie, are read as
/// that trailer and those entries, each as it stands on the wire.
pub proof fn lemma_read_back(z: ZipView)
    requires
        settled(z.directories),
        z.eo_cd matches Some(t) && t == trailer_of(t, z.directories),
    ensures
        parse_of(archive_wire(z)) == Ok::<(EoCdView, Seq<DirectoryView>), ZipError>(
            (z.eo_cd->0, as_read(z.directories)),
        ),
{
    let es = z.directories;
    lemma_archive_parts(z);
    if es.len() > 0 {
        lemma_settled_entry(es, 0);
    } else {
        reveal(settled);
    }
    crate::eocd::lemma_round_trip(locals_wire(es) + centrals_wire(es), z.eo_cd->0);
    lemma_entries_read_back(z, 0);
    assert(as_read(es).skip(0) =~= as_read(es));
}

/// The payload of an entry as the file has it: what the deflated payload
/// inflates to, or the payload as it is held.
pub open spec fn payload(e: DirectoryView) -> Option<Seq<u8>> {
    if e.needs_inflate() {
        crate::deflate::inflated(e.data)
    } else {
        Some(e.data)
    }
}

/// The names with the entries as a reader finds them.
pub open spec fn read_table(es: Entries) -> Entries {
    Seq::new(es.len(), |i: int| (es[i].0, es[i].1.as_read()))
}

/// Writing an archive and reading the bytes gives back its entries: the
/// written bytes are read without error, and the table read holds, in the
/// same order and under the same names, entries with the same uncompressed
/// sizes, the same checksums and the same payloads on the wire; stored and
/// deflated entries have the same payloads as the files have them.
pub proof fn lemma_written_is_read_back(z: ZipView)
    requires
        z.wf(),
        z.eo_cd is Some,
        layout_fits(z.directories, z.crc32_computer, z.compression_level.value()),
    ensures
        ({
            let w = written(z);
            let read = parse_of(archive_wire(w));
            &&& read is Ok
            &&& read->Ok_0.0 == w.eo_cd->0
            &&& collected(read->Ok_0.1) == read_table(w.directories)
            &&& read_table(w.directories).len() == z.directories.len()
            &&& forall|i: int|
                0 <= i < z.directories.len() ==> {
                    let before = w.directories[i].1;
                    let after = (#[trigger] read_table(w.directories)[i]).1;
                    &&& read_table(w.directories)[i].0 == z.directories[i].0
                    &&& after.file_name == before.file_name
                    &&& after.uncompressed_size == before.uncompressed_size
                    &&& after.crc_32_uncompressed_data == before.crc_32_uncompressed_data
                    &&& after.compression_method == before.compression_method
                    &&& after.data == before.data
                    &&& (before.compression_method == CompressionType::Store
                        || before.compression_method == CompressionType::Deflate) ==> payload(
                        after,
                    ) == payload(before)
                }
        }),
{
    let w = written(z);
    let es = w.directories;
    let crc = z.crc32_computer;
    let level = z.compression_level.value();
    lemma_laid_out_settled(z.directories, crc, level);
    lemma_read_back(w);
    assert forall|i: int| 0 <= i < es.len() implies (#[trigger] es[i]).0 == es[i].1.file_name
        && (es[i].1.compression_method == CompressionType::Deflate ==> es[i].1.compressed) by {
        lemma_laid_entry_kept(z.directories, crc, level, i);
        assert(z.directories[i].0 == z.directories[i].1.file_name);
    }
    assert forall|i: int, j: int| 0 <= i < j < es.len() implies (#[trigger] es[i]).0 != (
    #[trigger] es[j]).0 by {
        assert(es[i].0 == z.directories[i].0);
        assert(es[j].0 == z.directories[j].0);
    }
    lemma_collected_read(es, es.len() as int);
    assert(as_read(es).take(es.len() as int) =~= as_read(es));
    assert(read_table(es).take(es.len() as int) =~= read_table(es));
}

/// Laying out keeps the name of an entry, and leaves no entry whose
/// method is Deflate with a payload that is not deflated.
proof fn lemma_laid_entry_kept(es: Entries, crc32_computer: bool, level: u8, i: int)
    requires
        0 <= i < es.len(),
    ensures
        ({
            let out = laid_out(es, crc32_computer, level);
            &&& out.len() == es.len()
            &&& out[i].0 == es[i].0
            &&& out[i].1.file_name == es[i].1.file_name
            &&& out[i].1.compression_method == CompressionType::Deflate ==> out[i].1.compressed
        }),
{
    reveal(laid_upto);
    reveal(DirectoryView::prepared);
}

/// Entries that stand under their own names, all apart, are collected
/// from what a reader finds of them in their order and under their names.
proof fn lemma_collected_read(es: Entries, n: int)
    requires
        0 <= n <= es.len(),
        distinct_names(es),
        forall|i: int| 0 <= i < es.len() ==> (#[trigger] es[i]).0 == es[i].1.file_name,
    ensures
        collected(as_read(es).take(n)) == read_table(es).take(n),
    decreases n,
{
    if n > 0 {
        lemma_collected_read(es, n - 1);
        let list = as_read(es).take(n);
        let front = read_table(es).take(n - 1);
        assert(list.drop_last() =~= as_read(es).take(n - 1));
        assert(list.last() == es[n - 1].1.as_read());
        let name = es[n - 1].0;
        assert(es[n - 1].0 == es[n - 1].1.file_name);
        if crate::table::contains_name(front, name) {
            let k = crate::table::index_of(front, name);
            assert(front[k].0 == es[k].0);
            assert(es[k].0 != es[n - 1].0);
        }
        assert(front.push((name, es[n - 1].1.as_read())) =~= read_table(es).take(n));
    } else {
        assert(as_read(es).take(0) =~= Seq::<DirectoryView>::empty());
        assert(read_table(es).take(0) =~= Seq::<(Seq<char>, DirectoryView)>::empty());
    }
}

} // verus!
