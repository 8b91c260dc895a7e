//! The layout of an archive on the wire: where each record lies, what the
//! trailer says of it, and the bytes of the whole.

use crate::directory::DirectoryView;
use crate::eocd::EoCdView;
use crate::table::Entries;
use crate::text::name_bytes;
use crate::extra::run_size;
use crate::zip::ZipView;
use crate::zip_file::ZipFileView;
use vstd::prelude::*;

verus! {

impl DirectoryView {
    /// The entry with the size of the payload, as it is held, for its
    /// compressed size; local file header and data descriptor follow.
    pub open spec fn sized(self) -> DirectoryView {
        if self.compressed_size == self.data.len() {
            self
        } else {
            (DirectoryView { compressed_size: self.data.len() as u32, ..self }).in_step()
        }
    }

    /// The entry with its length fields set to the lengths of what it holds.
    pub open spec fn measured(self) -> DirectoryView {
        DirectoryView {
            file_name_length: name_bytes(self.file_name).len() as u16,
            extra_field_length: run_size(self.extra_fields, true) as u16,
            file_comment_length: self.file_comment.len() as u16,
            file: ZipFileView {
                file_name_length: name_bytes(self.file.file_name).len() as u16,
                extra_field_length: run_size(self.file.extra_fields, false) as u16,
                ..self.file
            },
            ..self
        }
    }

    /// The entry with its local file header at `offset`.
    pub open spec fn placed(self, offset: u32) -> DirectoryView {
        DirectoryView { offset_of_local_file_header: offset, ..self }
    }

    /// The entry as it goes on the wire, but for its place: deflated where
    /// that was to do, with sizes and lengths that say what it holds.
    #[verifier::opaque]
    pub open spec fn prepared(self, crc32_computer: bool, level: u8) -> DirectoryView {
        self.executed(crc32_computer, level).sized().measured()
    }

    /// The bytes that local file header, payload and data descriptor take.
    pub open spec fn local_size(self) -> nat {
        self.file.size(false) + self.data.len()
    }

    /// Local file header, payload and data descriptor on the wire.
    pub open spec fn local_wire(self) -> Seq<u8> {
        self.file.header_wire() + self.data + self.file.descriptor_wire()
    }

    /// The entry, prepared, can be written with its local file header at
    /// `offset` and its central directory entry `central` bytes into the
    /// central directory: every length and size fits its field, and both
    /// records end within what 32 bits can address.
    pub open spec fn can_be_placed(self, offset: nat, central: nat) -> bool {
        &&& self.fits()
        &&& self.file.fits()
        &&& self.data.len() <= u32::MAX
        &&& offset + self.local_size() <= u32::MAX
        &&& central + self.size(true) <= u32::MAX
    }
}

/// The entries prepared for the wire, each as it stands before it is
/// given its place.
#[verifier::opaque]
pub open spec fn prepared_all(es: Entries, crc32_computer: bool, level: u8) -> Entries {
    Seq::new(es.len(), |i: int| (es[i].0, es[i].1.prepared(crc32_computer, level)))
}

/// Where the local file header of entry `i` starts: behind the local
/// records of all entries before it.
pub open spec fn offset_of(es: Entries, i: int) -> nat
    decreases i,
{
    if i <= 0 {
        0
    } else {
        offset_of(es, i - 1) + es[i - 1].1.local_size()
    }
}

/// Where the central directory entry of entry `i` starts, counted from the
/// start of the central directory.
pub open spec fn central_offset_of(es: Entries, i: int) -> nat
    decreases i,
{
    if i <= 0 {
        0
    } else {
        central_offset_of(es, i - 1) + es[i - 1].1.size(true)
    }
}

/// The first `n` entries can be placed one behind the other.
#[verifier::opaque]
pub open spec fn can_be_laid(es: Entries, n: int) -> bool {
    forall|i: int|
        0 <= i < n ==> (#[trigger] es[i]).1.can_be_placed(
            offset_of(es, i),
            central_offset_of(es, i),
        )
}

/// The archive can be written: its entries, prepared, can all be placed,
/// and their number fits the trailer's 16-bit count.
pub open spec fn layout_fits(es: Entries, crc32_computer: bool, level: u8) -> bool {
    &&& es.len() <= u16::MAX
    &&& can_be_laid(prepared_all(es, crc32_computer, level), es.len() as int)
}

/// The place of the first entry, from `from` on, that cannot be placed
/// behind those before it; the number of entries where all can.
pub open spec fn first_refused(es: Entries, from: int) -> int
    decreases es.len() - from,
{
    if from >= es.len() || from < 0 {
        es.len() as int
    } else if !es[from].1.can_be_placed(offset_of(es, from), central_offset_of(es, from)) {
        from
    } else {
        first_refused(es, from + 1)
    }
}

/// The number of entries that a layout that fails has laid out before it
/// ends: none where the archive has too many entries, else those before
/// the first that cannot be placed.
pub open spec fn laid_before_refusal(es: Entries, crc32_computer: bool, level: u8) -> int {
    if es.len() > u16::MAX {
        0
    } else {
        first_refused(prepared_all(es, crc32_computer, level), 0)
    }
}

/// The entries with the first `n` of them prepared and placed.
#[verifier::opaque]
pub open spec fn laid_upto(es: Entries, crc32_computer: bool, level: u8, n: int) -> Entries {
    Seq::new(
        es.len(),
        |i: int|
            if i < n {
                (
                    es[i].0,
                    es[i].1.prepared(crc32_computer, level).placed(
                        offset_of(prepared_all(es, crc32_computer, level), i) as u32,
                    ),
                )
            } else {
                es[i]
            },
    )
}

/// The entries prepared and placed.
pub open spec fn laid_out(es: Entries, crc32_computer: bool, level: u8) -> Entries {
    laid_upto(es, crc32_computer, level, es.len() as int)
}

/// The trailer of an archive that holds `es`, laid out: the number of
/// entries, and size and offset of the central directory.
pub open spec fn trailer_of(trailer: EoCdView, es: Entries) -> EoCdView {
    EoCdView {
        size: central_offset_of(es, es.len() as int) as u32,
        entries: es.len() as u16,
        number_of_directory_disk: es.len() as u16,
        offset: offset_of(es, es.len() as int) as u32,
        ..trailer
    }
}

/// The archive as it is written: entries laid out, and a trailer, where
/// the archive has one, that describes them.
pub open spec fn written(z: ZipView) -> ZipView {
    let es = laid_out(z.directories, z.crc32_computer, z.compression_level.value());
    ZipView {
        directories: es,
        eo_cd: match z.eo_cd {
            Some(t) => Some(trailer_of(t, es)),
            None => None,
        },
        ..z
    }
}

/// The local records of the entries, one behind the other.
pub open spec fn locals_wire(es: Entries) -> Seq<u8>
    decreases es.len(),
{
    if es.len() == 0 {
        Seq::empty()
    } else {
        locals_wire(es.drop_last()) + es.last().1.local_wire()
    }
}

/// The central directory: the entries, one behind the other.
pub open spec fn centrals_wire(es: Entries) -> Seq<u8>
    decreases es.len(),
{
    if es.len() == 0 {
        Seq::empty()
    } else {
        centrals_wire(es.drop_last()) + es.last().1.wire()
    }
}

/// The trailer on the wire, where there is one.
pub open spec fn trailer_wire(trailer: Option<EoCdView>) -> Seq<u8> {
    match trailer {
        Some(t) => crate::eocd::wire(t),
        None => Seq::empty(),
    }
}

/// The archive on the wire: local records, central directory, trailer.
pub open spec fn archive_wire(z: ZipView) -> Seq<u8> {
    locals_wire(z.directories) + centrals_wire(z.directories) + trailer_wire(z.eo_cd)
}

/// The total of the payloads that are still to be deflated.
pub open spec fn pending(es: Entries) -> nat
    decreases es.len(),
{
    if es.len() == 0 {
        0
    } else {
        pending(es.drop_last()) + if es.last().1.needs_exec() {
            es.last().1.data.len()
        } else {
            0
        }
    }
}

/// The archive after it was written with `write_clear`: no entries, no
/// trailer.
pub open spec fn emptied(z: ZipView) -> ZipView {
    ZipView { directories: Seq::empty(), eo_cd: None, ..z }
}

/// Placing the entries moves no record: the offsets computed over the
/// prepared entries are those of the entries laid out.
pub proof fn lemma_offsets_of_laid_out(es: Entries, crc32_computer: bool, level: u8, i: int)
    requires
        0 <= i <= es.len(),
    ensures
        offset_of(laid_out(es, crc32_computer, level), i) == offset_of(
            prepared_all(es, crc32_computer, level),
            i,
        ),
        central_offset_of(laid_out(es, crc32_computer, level), i) == central_offset_of(
            prepared_all(es, crc32_computer, level),
            i,
        ),
    decreases i,
{
    reveal(laid_upto);
    reveal(prepared_all);
    if i > 0 {
        lemma_offsets_of_laid_out(es, crc32_computer, level, i - 1);
        let a = laid_out(es, crc32_computer, level)[i - 1].1;
        let b = prepared_all(es, crc32_computer, level)[i - 1].1;
        assert(a.local_size() == b.local_size());
        assert(a.size(true) == b.size(true));
    }
}

/// Laying out keeps the number of entries.
pub proof fn lemma_laid_out_len(es: Entries, crc32_computer: bool, level: u8)
    ensures
        laid_out(es, crc32_computer, level).len() == es.len(),
{
    reveal(laid_upto);
}

/// Nothing is laid out before the first entry is.
pub proof fn lemma_laid_upto_none(es: Entries, crc32_computer: bool, level: u8)
    ensures
        laid_upto(es, crc32_computer, level, 0) == es,
        can_be_laid(prepared_all(es, crc32_computer, level), 0),
        prepared_all(es, crc32_computer, level).len() == es.len(),
{
    reveal(laid_upto);
    reveal(can_be_laid);
    reveal(prepared_all);
    assert(laid_upto(es, crc32_computer, level, 0) =~= es);
}

/// What holds before entry `i` is laid out: the entry stands in the table
/// as it was, and what `lay` asks of it is what the layout asks.
pub proof fn lemma_before_lay(es: Entries, crc32_computer: bool, level: u8, i: int)
    requires
        0 <= i < es.len(),
    ensures
        laid_upto(es, crc32_computer, level, i).len() == es.len(),
        laid_upto(es, crc32_computer, level, i)[i] == es[i],
        prepared_all(es, crc32_computer, level).len() == es.len(),
        prepared_all(es, crc32_computer, level)[i] == (
            es[i].0,
            es[i].1.prepared(crc32_computer, level),
        ),
{
    reveal(laid_upto);
    reveal(prepared_all);
}

/// Where every entry could be placed, the layout fits.
pub proof fn lemma_none_refused(es: Entries, crc32_computer: bool, level: u8)
    requires
        es.len() <= u16::MAX,
        can_be_laid(prepared_all(es, crc32_computer, level), es.len() as int),
    ensures
        layout_fits(es, crc32_computer, level),
{
}

/// An entry that cannot be placed ends the layout, and is the first that
/// is refused where all before it were placed.
pub proof fn lemma_lay_refused(es: Entries, crc32_computer: bool, level: u8, i: int)
    requires
        0 <= i < es.len(),
        !es[i].1.prepared(crc32_computer, level).can_be_placed(
            offset_of(prepared_all(es, crc32_computer, level), i),
            central_offset_of(prepared_all(es, crc32_computer, level), i),
        ),
    ensures
        !layout_fits(es, crc32_computer, level),
        first_refused(prepared_all(es, crc32_computer, level), i) == i,
{
    reveal(can_be_laid);
    reveal(prepared_all);
    let ps = prepared_all(es, crc32_computer, level);
    assert(ps[i].1 == es[i].1.prepared(crc32_computer, level));
}

/// An entry that was placed takes the layout one entry further.
pub proof fn lemma_lay_done(
    es: Entries,
    crc32_computer: bool,
    level: u8,
    i: int,
    table: Entries,
    entry: DirectoryView,
)
    requires
        0 <= i < es.len(),
        can_be_laid(prepared_all(es, crc32_computer, level), i),
        es[i].1.prepared(crc32_computer, level).can_be_placed(
            offset_of(prepared_all(es, crc32_computer, level), i),
            central_offset_of(prepared_all(es, crc32_computer, level), i),
        ),
        entry == es[i].1.prepared(crc32_computer, level).placed(
            offset_of(prepared_all(es, crc32_computer, level), i) as u32,
        ),
        table == laid_upto(es, crc32_computer, level, i).update(i, (es[i].0, entry)),
    ensures
        table == laid_upto(es, crc32_computer, level, i + 1),
        can_be_laid(prepared_all(es, crc32_computer, level), i + 1),
        first_refused(prepared_all(es, crc32_computer, level), i) == first_refused(
            prepared_all(es, crc32_computer, level),
            i + 1,
        ),
        offset_of(prepared_all(es, crc32_computer, level), i + 1) == offset_of(
            prepared_all(es, crc32_computer, level),
            i,
        ) + entry.local_size(),
        central_offset_of(prepared_all(es, crc32_computer, level), i + 1) == central_offset_of(
            prepared_all(es, crc32_computer, level),
            i,
        ) + entry.size(true),
{
    reveal(laid_upto);
    reveal(can_be_laid);
    reveal(prepared_all);
    let ps = prepared_all(es, crc32_computer, level);
    assert(ps[i].1 == es[i].1.prepared(crc32_computer, level));
    assert(table =~= laid_upto(es, crc32_computer, level, i + 1));
    assert(entry.local_size() == ps[i].1.local_size());
    assert(entry.size(true) == ps[i].1.size(true));
}

/// Every entry of an archive that was laid out fits the fields of its
/// records.
pub proof fn lemma_laid_out_fits(es: Entries, crc32_computer: bool, level: u8, i: int)
    requires
        layout_fits(es, crc32_computer, level),
        0 <= i < es.len(),
    ensures
        laid_out(es, crc32_computer, level).len() == es.len(),
        laid_out(es, crc32_computer, level)[i].1.fits(),
        laid_out(es, crc32_computer, level)[i].1.file.fits(),
{
    reveal(laid_upto);
    reveal(can_be_laid);
    reveal(prepared_all);
    let ps = prepared_all(es, crc32_computer, level);
    assert(ps[i].1.can_be_placed(offset_of(ps, i), central_offset_of(ps, i)));
}

/// Offsets grow from entry to entry.
pub proof fn lemma_offsets_grow(es: Entries, i: int, j: int)
    requires
        0 <= i <= j,
    ensures
        offset_of(es, i) <= offset_of(es, j),
        central_offset_of(es, i) <= central_offset_of(es, j),
    decreases j - i,
{
    if i < j {
        lemma_offsets_grow(es, i, j - 1);
    }
}

} // verus!
