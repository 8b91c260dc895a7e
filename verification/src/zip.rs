//! The archive: an ordered table of entries by name, and the operations that
//! read it from bytes, edit it and write it back.

use crate::deflate::CompressionLevel;
use crate::directory::{CompressionType, Directory, DirectoryView};
use crate::eocd::{EoCd, EoCdView};
use crate::error::ZipError;
use crate::extra::{run_size, Extra};
use crate::layout::{
    archive_wire, can_be_laid, central_offset_of, centrals_wire, emptied, laid_out, laid_upto,
    laid_before_refusal, first_refused, layout_fits, lemma_before_lay, lemma_laid_out_fits, lemma_laid_out_len, lemma_laid_upto_none,
    lemma_lay_done, lemma_none_refused,
    lemma_lay_refused, lemma_offsets_of_laid_out, locals_wire, offset_of, pending, prepared_all,
    trailer_of, written,
};
use crate::le::put_bytes;
use crate::table::{
    collected, contains_name, distinct_names, entries, index_of, inserted, lemma_inserted,
    lemma_removed, removed, table_get, table_get_mut, table_index_of, table_insert, table_len,
    table_new, table_shift_remove, Entries,
};
use crate::text::name_bytes;
use crate::zip_file::{DataDescriptor, ZipFile, ZipFileView};
use indexmap::IndexMap;
use vstd::prelude::*;
use vstd::string::StringSliceAdditionalSpecFns;

verus! {

/// Marks a value that stands in the archive's wire format.
#[derive(Debug, Clone, Copy, PartialEq, Eq, Structural)]
pub struct Parser;

/// Marks a value that stands in a snapshot.
#[derive(Debug, Clone, Copy, PartialEq, Eq, Structural)]
pub struct Cache;

/// An archive in memory.
#[derive(Debug, Clone)]
#[verifier::reject_recursive_types(TYPE)]
pub struct Zip<TYPE> {
    /// The length of the source that the archive was made over.
    pub stream_size: usize,
    /// The bytes that the archive is still to be read from.
    pub stream: Option<Vec<u8>>,
    /// Deflating records the CRC-32 of the payload.
    pub crc32_computer: bool,
    pub eo_cd: Option<EoCd<TYPE>>,
    /// Writing empties the archive.
    pub write_clear: bool,
    pub compression_level: CompressionLevel,
    /// The entries by name, in the order in which they go on the wire.
    pub directories: IndexMap<String, Directory<TYPE>>,
}

/// What an archive holds.
pub struct ZipView {
    pub stream_size: usize,
    pub stream: Option<Seq<u8>>,
    pub crc32_computer: bool,
    pub eo_cd: Option<EoCdView>,
    pub write_clear: bool,
    pub compression_level: CompressionLevel,
    pub directories: Entries,
}

/// The fields of a trailer, where there is one.
pub open spec fn trailer_view<TYPE>(eo_cd: Option<EoCd<TYPE>>) -> Option<EoCdView> {
    match eo_cd {
        Some(e) => Some(e@),
        None => None,
    }
}

/// The bytes of a source, where there is one.
pub open spec fn stream_view(stream: Option<Vec<u8>>) -> Option<Seq<u8>> {
    match stream {
        Some(s) => Some(s@),
        None => None,
    }
}

impl View for Zip<Parser> {
    type V = ZipView;

    open spec fn view(&self) -> ZipView {
        ZipView {
            stream_size: self.stream_size,
            stream: stream_view(self.stream),
            crc32_computer: self.crc32_computer,
            eo_cd: trailer_view(self.eo_cd),
            write_clear: self.write_clear,
            compression_level: self.compression_level,
            directories: entries(self.directories),
        }
    }
}

impl ZipView {
    /// Every entry stands under its own name, and no name stands twice.
    pub open spec fn wf(self) -> bool {
        &&& distinct_names(self.directories)
        &&& forall|i: int|
            0 <= i < self.directories.len() ==> (#[trigger] self.directories[i]).0
                == self.directories[i].1.file_name
    }
}

/// The entries that `count` central directory entries from `p` on decode
/// to, one behind the other.
pub open spec fn entries_at(s: Seq<u8>, p: int, count: nat) -> Result<Seq<DirectoryView>, ZipError>
    decreases count,
{
    if count == 0 {
        Ok(Seq::empty())
    } else {
        match crate::directory::decode_at(s, p) {
            Err(e) => Err(e),
            Ok((first, next)) => match entries_at(s, next, (count - 1) as nat) {
                Err(e) => Err(e),
                Ok(rest) => Ok(seq![first] + rest),
            },
        }
    }
}

/// What an archive holds: its trailer, and the entries that the trailer
/// counts, read from the offset that the trailer names.
pub open spec fn parse_of(s: Seq<u8>) -> Result<(EoCdView, Seq<DirectoryView>), ZipError> {
    match crate::eocd::decode_of(s) {
        Err(e) => Err(e),
        Ok(trailer) => match entries_at(s, trailer.offset as int, trailer.entries as nat) {
            Err(e) => Err(e),
            Ok(list) => Ok((trailer, list)),
        },
    }
}

/// `count` entries from `start` on decode as `done` followed by what
/// `left` entries from `at` on decode to, and fail as these fail.
pub open spec fn entries_prefix(
    s: Seq<u8>,
    start: int,
    count: nat,
    done: Seq<DirectoryView>,
    at: int,
    left: nat,
) -> bool {
    entries_at(s, start, count) == match entries_at(s, at, left) {
        Ok(rest) => Ok::<Seq<DirectoryView>, ZipError>(done + rest),
        Err(e) => Err(e),
    }
}

/// The extended timestamp that new entries carry.
pub const NEW_ENTRY_MTIME: i32 = 1736154637;

/// The access time that the local headers of new files carry.
pub const NEW_ENTRY_ATIME: i32 = 1736195293;

/// The MS-DOS time that new entries carry.
pub const NEW_ENTRY_TIME: u16 = 39620;

/// The MS-DOS date that new entries carry.
pub const NEW_ENTRY_DATE: u16 = 23170;

/// The owner that new entries carry.
pub const NEW_ENTRY_UID: u32 = 503;

/// The group that new entries carry.
pub const NEW_ENTRY_GID: u32 = 20;

/// The sample of a payload that tells text from binary: its first 1024 bytes.
pub const SAMPLE_SIZE: usize = 1024;

/// A byte that text is made of: printable ASCII, line feed, carriage return,
/// tab or vertical tab.
pub open spec fn is_text_byte(b: u8) -> bool {
    (0x20 <= b <= 0x7E) || b == 0x0A || b == 0x0D || b == 0x09 || b == 0x0B
}

/// The number of bytes in `s` that text is not made of.
pub open spec fn non_text_count(s: Seq<u8>) -> nat
    decreases s.len(),
{
    if s.len() == 0 {
        0
    } else {
        non_text_count(s.drop_last()) + if is_text_byte(s.last()) {
            0nat
        } else {
            1nat
        }
    }
}

/// More than three in ten bytes of `s` are no text.
pub open spec fn looks_binary(s: Seq<u8>) -> bool {
    non_text_count(s) * 10 > s.len() * 3
}

/// The part of a payload that is looked at to tell text from binary.
pub open spec fn sample(data: Seq<u8>) -> Seq<u8> {
    if data.len() <= SAMPLE_SIZE {
        data
    } else {
        data.take(SAMPLE_SIZE as int)
    }
}

/// The extra fields of a new entry in the central directory.
pub open spec fn new_center_extras(mtime: i32) -> Seq<Extra> {
    seq![
        Extra::UnixExtendedTimestamp { mtime: Some(mtime), atime: None, ctime: None },
        Extra::UnixAttrs { uid: NEW_ENTRY_UID, gid: NEW_ENTRY_GID },
    ]
}

/// The extra fields of a new entry in its local file header.
pub open spec fn new_local_extras(mtime: i32, atime: i32) -> Seq<Extra> {
    seq![
        Extra::UnixExtendedTimestamp { mtime: Some(mtime), atime: Some(atime), ctime: None },
        Extra::UnixAttrs { uid: NEW_ENTRY_UID, gid: NEW_ENTRY_GID },
    ]
}

/// The entry that `add_file` makes of a payload and a name: to be deflated,
/// streamed, with a data descriptor that holds the sizes known so far.
pub open spec fn new_file(data: Seq<u8>, name: Seq<char>) -> DirectoryView {
    DirectoryView {
        data,
        compressed: false,
        version: 798,
        min_version: 20,
        flags: 0x08,
        compression_method: CompressionType::Deflate,
        last_modification_time: NEW_ENTRY_TIME,
        last_modification_date: NEW_ENTRY_DATE,
        crc_32_uncompressed_data: 0,
        compressed_size: data.len() as u32,
        uncompressed_size: data.len() as u32,
        file_name_length: name_bytes(name).len() as u16,
        extra_field_length: 24,
        file_comment_length: 0,
        number_of_starts: 0,
        internal_file_attributes: if looks_binary(sample(data)) {
            0
        } else {
            1
        },
        external_file_attributes: 2175008768,
        offset_of_local_file_header: 0,
        file_name: name,
        extra_fields: new_center_extras(NEW_ENTRY_MTIME),
        file_comment: Seq::empty(),
        file: ZipFileView {
            min_version: 20,
            flags: 0x08,
            compression_method: CompressionType::Deflate,
            last_modification_time: NEW_ENTRY_TIME,
            last_modification_date: NEW_ENTRY_DATE,
            crc_32_uncompressed_data: 0,
            compressed_size: 0,
            uncompressed_size: data.len() as u32,
            file_name_length: name_bytes(name).len() as u16,
            extra_field_length: 28,
            file_name: name,
            extra_fields: new_local_extras(NEW_ENTRY_MTIME, NEW_ENTRY_ATIME),
            data_descriptor: Some(
                DataDescriptor {
                    crc32: 0,
                    compressed_size: data.len() as u32,
                    uncompressed_size: data.len() as u32,
                },
            ),
            data_position: 0,
        },
    }
}

/// The entry that `add_folder` makes of a name: stored, empty.
pub open spec fn new_folder(name: Seq<char>) -> DirectoryView {
    DirectoryView {
        data: Seq::empty(),
        compressed: true,
        version: 798,
        min_version: 10,
        flags: 0,
        compression_method: CompressionType::Store,
        last_modification_time: NEW_ENTRY_TIME,
        last_modification_date: NEW_ENTRY_DATE,
        crc_32_uncompressed_data: 0,
        compressed_size: 0,
        uncompressed_size: 0,
        file_name_length: name_bytes(name).len() as u16,
        extra_field_length: 24,
        file_comment_length: 0,
        number_of_starts: 0,
        internal_file_attributes: 0,
        external_file_attributes: 0x41ED0010,
        offset_of_local_file_header: 0,
        file_name: name,
        extra_fields: new_center_extras(0),
        file_comment: Seq::empty(),
        file: ZipFileView {
            min_version: 10,
            flags: 0,
            compression_method: CompressionType::Store,
            last_modification_time: NEW_ENTRY_TIME,
            last_modification_date: NEW_ENTRY_DATE,
            crc_32_uncompressed_data: 0,
            compressed_size: 0,
            uncompressed_size: 0,
            file_name_length: name_bytes(name).len() as u16,
            extra_field_length: 28,
            file_name: name,
            extra_fields: new_local_extras(0, 0),
            data_descriptor: None,
            data_position: 0,
        },
    }
}

/// Tells whether more than three in ten bytes of `data` are no text.
pub fn is_binary(data: &[u8]) -> (b: bool)
    ensures
        b == looks_binary(data@),
{
    let mut non_text: usize = 0;
    let mut i: usize = 0;
    while i < data.len()
        invariant
            i <= data@.len(),
            non_text == non_text_count(data@.take(i as int)),
            non_text <= i,
        decreases data@.len() - i,
    {
        let b: u8 = data[i];
        let text: bool = (0x20 <= b && b <= 0x7E) || b == 0x0A || b == 0x0D || b == 0x09 || b
            == 0x0B;
        proof {
            assert(data@.take(i + 1).drop_last() =~= data@.take(i as int));
            assert(data@.take(i + 1).last() == b);
        }
        if !text {
            non_text += 1;
        }
        i += 1;
    }
    proof {
        assert(data@.take(i as int) =~= data@);
    }
    non_text as u128 * 10 > data.len() as u128 * 3
}

fn center_extras(mtime: i32) -> (v: Vec<Extra>)
    ensures
        v@ == new_center_extras(mtime),
        run_size(v@, true) == 24,
{
    let mut v: Vec<Extra> = Vec::new();
    v.push(Extra::UnixExtendedTimestamp { mtime: Some(mtime), atime: None, ctime: None });
    v.push(Extra::UnixAttrs { uid: NEW_ENTRY_UID, gid: NEW_ENTRY_GID });
    proof {
        assert(v@ =~= new_center_extras(mtime));
        lemma_run_size_of_two(v@, true);
    }
    v
}

fn local_extras(mtime: i32, atime: i32) -> (v: Vec<Extra>)
    ensures
        v@ == new_local_extras(mtime, atime),
        run_size(v@, false) == 28,
{
    let mut v: Vec<Extra> = Vec::new();
    v.push(Extra::UnixExtendedTimestamp { mtime: Some(mtime), atime: Some(atime), ctime: None });
    v.push(Extra::UnixAttrs { uid: NEW_ENTRY_UID, gid: NEW_ENTRY_GID });
    proof {
        assert(v@ =~= new_local_extras(mtime, atime));
        lemma_run_size_of_two(v@, false);
    }
    v
}

proof fn lemma_run_size_of_two(extras: Seq<Extra>, center: bool)
    requires
        extras.len() == 2,
    ensures
        run_size(extras, center) == extras[0].spec_size(center) + extras[1].spec_size(center),
{
    assert(extras.drop_last().len() == 1);
    assert(extras.drop_last().drop_last().len() == 0);
    assert(run_size(extras.drop_last().drop_last(), center) == 0);
    assert(extras.drop_last().last() == extras[0]);
    assert(run_size(extras.drop_last(), center) == extras[0].spec_size(center));
}

impl Zip<Parser> {
    /// The length of the source that the archive was made over.
    pub fn size(&self) -> (n: usize)
        ensures
            n == self@.stream_size,
    {
        self.stream_size
    }

    /// Sets whether `exec` records the CRC-32 of what it deflates.
    pub fn with_crc32(&mut self, value: bool)
        ensures
            final(self)@ == (ZipView { crc32_computer: value, ..old(self)@ }),
    {
        self.crc32_computer = value;
    }

    /// Sets the level at which entries are deflated.
    pub fn with_compression_level(&mut self, compression_level: CompressionLevel)
        ensures
            final(self)@ == (ZipView { compression_level, ..old(self)@ }),
    {
        self.compression_level = compression_level
    }

    /// An archive to be filled: no entries, an empty trailer, and `stream`
    /// kept as a source that `parse` may read.
    pub fn create(stream: Vec<u8>) -> (zip: Zip<Parser>)
        ensures
            zip@ == (ZipView {
                stream_size: stream@.len() as usize,
                stream: Some(stream@),
                crc32_computer: false,
                eo_cd: Some(
                    EoCdView {
                        number_of_disk: 0,
                        directory_starts: 0,
                        number_of_directory_disk: 0,
                        entries: 0,
                        size: 0,
                        offset: 0,
                        comment_length: 0,
                    },
                ),
                write_clear: true,
                compression_level: CompressionLevel::DefaultLevel,
                directories: Seq::empty(),
            }),
            zip@.wf(),
    {
        Zip {
            stream_size: stream.len(),
            stream: Some(stream),
            crc32_computer: false,
            eo_cd: Some(
                EoCd {
                    kind: Parser,
                    number_of_disk: 0,
                    directory_starts: 0,
                    number_of_directory_disk: 0,
                    entries: 0,
                    size: 0,
                    offset: 0,
                    comment_length: 0,
                },
            ),
            write_clear: true,
            compression_level: CompressionLevel::DefaultLevel,
            directories: table_new(),
        }
    }

    /// Reads the archive in `data`: the trailer, then the entries that it
    /// counts. An entry whose name came before takes that entry's place.
    pub fn read(data: &[u8]) -> (r: Result<
        (EoCd<Parser>, IndexMap<String, Directory<Parser>>),
        ZipError,
    >)
        ensures
            r matches Ok((trailer, table)) ==> parse_of(data@) matches Ok((t, list)) && t
                == trailer@ && entries(table) == collected(list),
            r matches Err(e) ==> parse_of(data@) == Err::<(EoCdView, Seq<DirectoryView>), ZipError>(
                e,
            ),
    {
        let eo_cd: EoCd<Parser> = EoCd::<Parser>::decode(data)?;
        let mut table: IndexMap<String, Directory<Parser>> = table_new();
        let ghost mut done: Seq<DirectoryView> = Seq::empty();
        let mut at: usize = eo_cd.offset as usize;
        let mut i: u16 = 0;
        proof {
            assert(done + entries_at(data@, at as int, eo_cd.entries as nat)->Ok_0
                =~= entries_at(data@, at as int, eo_cd.entries as nat)->Ok_0);
        }
        while i < eo_cd.entries
            invariant
                i <= eo_cd.entries,
                crate::eocd::decode_of(data@) == Ok::<EoCdView, ZipError>(eo_cd@),
                entries(table) == collected(done),
                entries_prefix(
                    data@,
                    eo_cd.offset as int,
                    eo_cd.entries as nat,
                    done,
                    at as int,
                    (eo_cd.entries - i) as nat,
                ),
            decreases eo_cd.entries - i,
        {
            let ghost left = (eo_cd.entries - i) as nat;
            match Directory::<Parser>::decode(data, at) {
                Err(e) => {
                    assert(entries_at(data@, at as int, left) == Err::<
                        Seq<DirectoryView>,
                        ZipError,
                    >(e));
                    return Err(e);
                },
                Ok((dir, next)) => {
                    proof {
                        let rest = entries_at(data@, next as int, (left - 1) as nat);
                        assert(entries_at(data@, at as int, left) == match rest {
                            Ok(tail) => Ok::<Seq<DirectoryView>, ZipError>(seq![dir@] + tail),
                            Err(e) => Err(e),
                        });
                        if let Ok(tail) = rest {
                            assert(done + (seq![dir@] + tail) =~= done.push(dir@) + tail);
                        }
                        assert(done.push(dir@).drop_last() =~= done);
                        done = done.push(dir@);
                    }
                    let name: String = dir.file_name.clone();
                    table_insert(&mut table, name, dir);
                    at = next;
                    i += 1;
                },
            }
        }
        proof {
            assert(done + Seq::<DirectoryView>::empty() =~= done);
        }
        Ok((eo_cd, table))
    }

    /// Reads the archive from the source, where there still is one: the
    /// trailer and the table take the place of what the archive held, and
    /// the source is given up. With no source, and on an error, the archive
    /// stays as it is.
    pub fn parse(&mut self) -> (r: Result<(), ZipError>)
        ensures
            old(self)@.stream is None ==> r is Ok && final(self)@ == old(self)@,
            old(self)@.stream matches Some(s) ==> match parse_of(s) {
                Ok((trailer, list)) => r is Ok && final(self)@ == (ZipView {
                    stream: None,
                    eo_cd: Some(trailer),
                    directories: collected(list),
                    ..old(self)@
                }) && final(self)@.wf(),
                Err(e) => r == Err::<(), ZipError>(e) && final(self)@ == old(self)@,
            },
    {
        let parsed = match &self.stream {
            None => {
                return Ok(());
            },
            Some(stream) => Self::read(stream.as_slice()),
        };
        match parsed {
            Ok((eo_cd, table)) => {
                proof {
                    lemma_collected_wf(parse_of(old(self)@.stream->0)->Ok_0.1);
                }
                self.directories = table;
                self.eo_cd = Some(eo_cd);
                self.stream = None;
                Ok(())
            },
            Err(e) => Err(e),
        }
    }

    /// Opens the archive in `stream`: reads trailer and entries. Deflating
    /// will record checksums, and writing will empty the archive.
    pub fn new(stream: Vec<u8>) -> (r: Result<Zip<Parser>, ZipError>)
        ensures
            match parse_of(stream@) {
                Ok((trailer, list)) => r matches Ok(zip) && zip@ == (ZipView {
                    stream_size: stream@.len() as usize,
                    stream: None,
                    crc32_computer: true,
                    eo_cd: Some(trailer),
                    write_clear: true,
                    compression_level: CompressionLevel::DefaultLevel,
                    directories: collected(list),
                }) && zip@.wf(),
                Err(e) => r matches Err(f) && f == e,
            },
    {
        let mut info = Zip {
            stream_size: stream.len(),
            stream: Some(stream),
            eo_cd: None,
            write_clear: true,
            crc32_computer: true,
            compression_level: CompressionLevel::DefaultLevel,
            directories: table_new(),
        };
        match info.parse() {
            Ok(()) => Ok(info),
            Err(e) => Err(e),
        }
    }

    /// The total of the payloads that are still to be deflated, or
    /// `usize::MAX` where the total is larger.
    pub fn computer_un_compress_size(&self) -> (total: usize)
        ensures
            total == if pending(self@.directories) <= usize::MAX {
                pending(self@.directories)
            } else {
                usize::MAX as nat
            },
    {
        let n: usize = table_len(&self.directories);
        let mut total: usize = 0;
        let mut i: usize = 0;
        while i < n
            invariant
                i <= n,
                n == self@.directories.len(),
                total == if pending(self@.directories.take(i as int)) <= usize::MAX {
                    pending(self@.directories.take(i as int))
                } else {
                    usize::MAX as nat
                },
            decreases n - i,
        {
            let pair = table_get(&self.directories, i);
            let size: usize = pair.1.exec_un_compress_size();
            proof {
                assert(self@.directories.take(i + 1).drop_last() =~= self@.directories.take(
                    i as int,
                ));
            }
            total = if size > usize::MAX - total {
                usize::MAX
            } else {
                total + size
            };
            i += 1;
        }
        proof {
            assert(self@.directories.take(n as int) =~= self@.directories);
        }
        total
    }

    /// Lays the archive out for writing: every entry is prepared and gets
    /// the offset at which its local file header will lie, and the trailer,
    /// where there is one, is told the number of entries and where the
    /// central directory lies. `callback` hears, after each payload that was
    /// deflated, `total` and the bytes of payload deflated so far. An entry
    /// that does not fit ends the layout; the entries before it stay laid
    /// out.
    pub fn computer(&mut self, total: usize, callback: &mut impl FnMut(usize, usize)) -> (r:
        Result<(), ZipError>)
        requires
            forall|a: usize, b: usize| call_requires(*old(callback), (a, b)),
        ensures
            r is Ok <==> layout_fits(
                old(self)@.directories,
                old(self)@.crc32_computer,
                old(self)@.compression_level.value(),
            ),
            r is Ok ==> final(self)@ == written(old(self)@),
            r matches Err(e) ==> e == ZipError::TooLarge && final(self)@ == (ZipView {
                directories: laid_upto(
                    old(self)@.directories,
                    old(self)@.crc32_computer,
                    old(self)@.compression_level.value(),
                    laid_before_refusal(
                        old(self)@.directories,
                        old(self)@.crc32_computer,
                        old(self)@.compression_level.value(),
                    ),
                ),
                ..old(self)@
            }),
    {
        let ghost es = old(self)@.directories;
        let ghost crc = old(self)@.crc32_computer;
        let ghost level = old(self)@.compression_level.value();
        let ghost ps = prepared_all(es, crc, level);
        let n: usize = table_len(&self.directories);
        proof {
            lemma_laid_upto_none(es, crc, level);
        }
        if n > u16::MAX as usize {
            return Err(ZipError::TooLarge);
        }
        let mut at: u32 = 0;
        let mut central: u32 = 0;
        let mut processed: usize = 0;
        let mut i: usize = 0;
        while i < n
            invariant
                i <= n,
                n == es.len(),
                ps == prepared_all(es, crc, level),
                crc == old(self)@.crc32_computer,
                level == old(self)@.compression_level.value(),
                es == old(self)@.directories,
                self@ == (ZipView { directories: laid_upto(es, crc, level, i as int), ..old(self)@ }),
                at == offset_of(ps, i as int),
                central == central_offset_of(ps, i as int),
                can_be_laid(ps, i as int),
                n <= u16::MAX,
                first_refused(ps, 0) == first_refused(ps, i as int),
                forall|a: usize, b: usize| call_requires(*callback, (a, b)),
            decreases n - i,
        {
            let crc32_computer: bool = self.crc32_computer;
            let compression_level: CompressionLevel = self.compression_level;
            let ghost before = self@.directories;
            proof {
                lemma_before_lay(es, crc, level, i as int);
            }
            let dir = table_get_mut(&mut self.directories, i);
            let size: usize = dir.exec_un_compress_size();
            match dir.lay(at, central, crc32_computer, &compression_level) {
                Err(e) => {
                    proof {
                        assert(self@.directories =~= before);
                        lemma_lay_refused(es, crc, level, i as int);
                    }
                    return Err(e);
                },
                Ok((next, next_central)) => {
                    proof {
                        lemma_lay_done(es, crc, level, i as int, self@.directories, dir@);
                    }
                    at = next;
                    central = next_central;
                },
            }
            if size > 0 {
                processed = if size > usize::MAX - processed {
                    usize::MAX
                } else {
                    processed + size
                };
                callback(total, processed);
            }
            i += 1;
        }
        let count: u16 = n as u16;
        proof {
            lemma_offsets_of_laid_out(es, crc, level, n as int);
            lemma_laid_out_len(es, crc, level);
            lemma_none_refused(es, crc, level);
        }
        if let Some(eo_cd) = &mut self.eo_cd {
            eo_cd.size = central;
            eo_cd.entries = count;
            eo_cd.number_of_directory_disk = count;
            eo_cd.offset = at;
        }
        Ok(())
    }

    /// Appends the local records of all entries, then the central
    /// directory.
    fn emit(&self, output: &mut Vec<u8>) -> (r: Result<(), ZipError>)
        requires
            forall|k: int|
                0 <= k < self@.directories.len() ==> (#[trigger] self@.directories[k]).1.fits()
                    && self@.directories[k].1.file.fits(),
        ensures
            r is Ok,
            final(output)@ == old(output)@ + locals_wire(self@.directories) + centrals_wire(
                self@.directories,
            ),
    {
        let ghost es = self@.directories;
        let n: usize = table_len(&self.directories);
        let mut central: Vec<u8> = Vec::new();
        let mut i: usize = 0;
        while i < n
            invariant
                i <= n,
                n == es.len(),
                es == entries(self.directories),
                forall|k: int|
                    0 <= k < es.len() ==> (#[trigger] es[k]).1.fits() && es[k].1.file.fits(),
                output@ == old(output)@ + locals_wire(es.take(i as int)),
                central@ == centrals_wire(es.take(i as int)),
            decreases n - i,
        {
            let pair = table_get(&self.directories, i);
            let dir: &Directory<Parser> = pair.1;
            let ghost before = output@;
            proof {
                assert(es[i as int].1.fits() && es[i as int].1.file.fits());
                assert(es.take(i + 1).drop_last() =~= es.take(i as int));
            }
            match dir.file.encode_header(output) {
                Err(e) => {
                    return Err(e);
                },
                Ok(()) => {},
            }
            put_bytes(output, dir.data.as_slice());
            if let Some(descriptor) = &dir.file.data_descriptor {
                descriptor.encode(output);
            }
            match dir.encode(&mut central) {
                Err(e) => {
                    return Err(e);
                },
                Ok(()) => {},
            }
            proof {
                assert(output@ =~= before + es[i as int].1.local_wire());
                assert(output@ =~= old(output)@ + locals_wire(es.take(i + 1)));
            }
            i += 1;
        }
        proof {
            assert(es.take(n as int) =~= es);
        }
        put_bytes(output, central.as_slice());
        Ok(())
    }

    /// Writes the archive behind what `output` holds: the local records in
    /// the order of the table, the central directory, and the trailer where
    /// the archive has one. Entries are deflated, sized and placed first, as
    /// `computer` does it; `callback` hears of the progress of deflating.
    /// With `write_clear` the archive is empty afterwards. An archive that
    /// does not fit the format's fields is refused, and nothing is written.
    pub fn write(&mut self, output: &mut Vec<u8>, callback: &mut impl FnMut(usize, usize)) -> (r:
        Result<(), ZipError>)
        requires
            forall|a: usize, b: usize| call_requires(*old(callback), (a, b)),
        ensures
            r is Ok <==> layout_fits(
                old(self)@.directories,
                old(self)@.crc32_computer,
                old(self)@.compression_level.value(),
            ),
            r is Ok ==> final(output)@ == old(output)@ + archive_wire(written(old(self)@)),
            r is Ok ==> final(self)@ == if old(self)@.write_clear {
                emptied(written(old(self)@))
            } else {
                written(old(self)@)
            },
            r matches Err(e) ==> e == ZipError::TooLarge && final(output)@ == old(output)@
                && final(self)@ == (ZipView {
                directories: laid_upto(
                    old(self)@.directories,
                    old(self)@.crc32_computer,
                    old(self)@.compression_level.value(),
                    laid_before_refusal(
                        old(self)@.directories,
                        old(self)@.crc32_computer,
                        old(self)@.compression_level.value(),
                    ),
                ),
                ..old(self)@
            }),
    {
        let total: usize = self.computer_un_compress_size();
        self.computer(total, callback)?;
        let ghost z = self@;
        proof {
            let crc = old(self)@.crc32_computer;
            let level = old(self)@.compression_level.value();
            lemma_laid_out_len(old(self)@.directories, crc, level);
            assert forall|i: int| 0 <= i < z.directories.len() implies (
            #[trigger] z.directories[i]).1.fits() && z.directories[i].1.file.fits() by {
                lemma_laid_out_fits(old(self)@.directories, crc, level, i);
            }
        }
        let emitted = self.emit(output);
        if let Some(eo_cd) = &self.eo_cd {
            eo_cd.encode(output);
        }
        proof {
            assert(output@ =~= old(output)@ + archive_wire(z));
        }
        if self.write_clear {
            self.directories = table_new();
            self.eo_cd = None;
        }
        emitted
    }

    /// The entry of `file_name`, if the archive has one.
    pub fn get(&self, file_name: &str) -> (r: Option<&Directory<Parser>>)
        ensures
            r is Some <==> contains_name(self@.directories, file_name@),
            r matches Some(d) ==> exists|i: int|
                0 <= i < self@.directories.len() && #[trigger] self@.directories[i] == (
                    file_name@,
                    d@,
                ),
    {
        match table_index_of(&self.directories, file_name) {
            Some(i) => {
                let pair = table_get(&self.directories, i);
                assert(self@.directories[i as int] == (file_name@, pair.1@));
                Some(pair.1)
            },
            None => None,
        }
    }

    /// The entry of `file_name`, to be changed where it stands, if the
    /// archive has one.
    pub fn get_mut(&mut self, file_name: &str) -> (r: Option<&mut Directory<Parser>>)
        ensures
            r is Some <==> contains_name(old(self)@.directories, file_name@),
            r is None ==> final(self)@ == old(self)@,
            r matches Some(d) ==> exists|i: int|
                0 <= i < old(self)@.directories.len() && #[trigger] old(self)@.directories[i] == (
                    file_name@,
                    d@,
                ) && final(self)@ == (ZipView {
                    directories: old(self)@.directories.update(i, (file_name@, final(d)@)),
                    ..old(self)@
                }),
    {
        match table_index_of(&self.directories, file_name) {
            Some(i) => {
                assert(old(self)@.directories[i as int].0 == file_name@);
                let dir = table_get_mut(&mut self.directories, i);
                Some(dir)
            },
            None => None,
        }
    }

    /// The number of entries.
    pub fn len(&self) -> (n: usize)
        ensures
            n == self@.directories.len(),
    {
        table_len(&self.directories)
    }

    /// Takes the entry of `file_name` out of the archive. The entries that
    /// stay keep their order; an archive without such an entry stays as it
    /// is.
    pub fn remove_file(&mut self, file_name: &str)
        ensures
            final(self)@ == (ZipView {
                directories: removed(old(self)@.directories, file_name@),
                ..old(self)@
            }),
            old(self)@.wf() ==> final(self)@.wf(),
            old(self)@.wf() ==> !contains_name(final(self)@.directories, file_name@),
    {
        table_shift_remove(&mut self.directories, file_name);
        proof {
            if old(self)@.wf() {
                lemma_removed(old(self)@.directories, file_name@);
                lemma_removed_names(old(self)@.directories, file_name@);
            }
        }
    }

    /// Puts `dir` into the archive under its name, in the place of the entry
    /// that has this name or behind all others. The local file header takes
    /// the entry's name.
    pub fn add_directory(&mut self, dir: Directory<Parser>)
        ensures
            final(self)@ == (ZipView {
                directories: inserted(
                    old(self)@.directories,
                    dir@.file_name,
                    DirectoryView {
                        file: ZipFileView { file_name: dir@.file_name, ..dir@.file },
                        ..dir@
                    },
                ),
                ..old(self)@
            }),
            old(self)@.wf() ==> final(self)@.wf(),
    {
        let mut dir = dir;
        dir.file.file_name = dir.file_name.clone();
        let name: String = dir.file_name.clone();
        proof {
            if old(self)@.wf() {
                lemma_inserted(old(self)@.directories, name@, dir@);
                lemma_inserted_names(old(self)@.directories, name@, dir@);
            }
        }
        table_insert(&mut self.directories, name, dir);
    }

    /// Puts a new file into the archive under `file_name`, in the place of
    /// the entry that has this name or behind all others. The entry is to be
    /// deflated when the archive is written. A name longer than 65535 bytes
    /// or a payload of more than `u32::MAX` bytes is refused.
    pub fn add_file(&mut self, data: Vec<u8>, file_name: &str) -> (r: Result<(), ZipError>)
        ensures
            r is Ok <==> name_bytes(file_name@).len() <= u16::MAX && data@.len() <= u32::MAX,
            r is Ok ==> final(self)@ == (ZipView {
                directories: inserted(
                    old(self)@.directories,
                    file_name@,
                    new_file(data@, file_name@),
                ),
                ..old(self)@
            }),
            r matches Err(e) ==> e == ZipError::TooLarge && final(self)@ == old(self)@,
            old(self)@.wf() ==> final(self)@.wf(),
    {
        let name_len: usize = file_name.as_bytes().len();
        if name_len > u16::MAX as usize || data.len() > u32::MAX as usize {
            return Err(ZipError::TooLarge);
        }
        let file_name_length: u16 = name_len as u16;
        let uncompressed_size: u32 = data.len() as u32;
        let sample_len: usize = if data.len() <= SAMPLE_SIZE {
            data.len()
        } else {
            SAMPLE_SIZE
        };
        let binary: bool = is_binary(vstd::slice::slice_subrange(data.as_slice(), 0, sample_len));
        proof {
            assert(data@.subrange(0, sample_len as int) =~= sample(data@));
        }
        let internal_file_attributes: u16 = if binary {
            0
        } else {
            1
        };
        let directory = Directory {
            kind: Parser,
            compressed: false,
            data,
            version: 798,
            min_version: 20,
            flags: 0x08,
            compression_method: CompressionType::Deflate,
            last_modification_time: NEW_ENTRY_TIME,
            last_modification_date: NEW_ENTRY_DATE,
            crc_32_uncompressed_data: 0,
            compressed_size: uncompressed_size,
            uncompressed_size,
            file_name_length,
            extra_field_length: 24,
            file_comment_length: 0,
            number_of_starts: 0,
            internal_file_attributes,
            external_file_attributes: 2175008768,
            offset_of_local_file_header: 0,
            file_name: file_name.to_owned(),
            extra_fields: center_extras(NEW_ENTRY_MTIME),
            file_comment: Vec::new(),
            file: ZipFile {
                kind: Parser,
                min_version: 20,
                flags: 0x08,
                compression_method: CompressionType::Deflate,
                last_modification_time: NEW_ENTRY_TIME,
                last_modification_date: NEW_ENTRY_DATE,
                crc_32_uncompressed_data: 0,
                compressed_size: 0,
                uncompressed_size,
                file_name_length,
                extra_field_length: 28,
                file_name: file_name.to_owned(),
                extra_fields: local_extras(NEW_ENTRY_MTIME, NEW_ENTRY_ATIME),
                data_descriptor: Some(
                    DataDescriptor {
                        crc32: 0,
                        compressed_size: uncompressed_size,
                        uncompressed_size,
                    },
                ),
                data_position: 0,
            },
        };
        proof {
            assert(directory@ == new_file(directory@.data, file_name@));
            if old(self)@.wf() {
                lemma_inserted(old(self)@.directories, file_name@, directory@);
                lemma_inserted_names(old(self)@.directories, file_name@, directory@);
            }
        }
        table_insert(&mut self.directories, file_name.to_owned(), directory);
        Ok(())
    }

    /// Puts an empty folder into the archive under `file_name`, in the place
    /// of the entry that has this name or behind all others. A name longer
    /// than 65535 bytes is refused.
    pub fn add_folder(&mut self, file_name: &str) -> (r: Result<(), ZipError>)
        ensures
            r is Ok <==> name_bytes(file_name@).len() <= u16::MAX,
            r is Ok ==> final(self)@ == (ZipView {
                directories: inserted(old(self)@.directories, file_name@, new_folder(file_name@)),
                ..old(self)@
            }),
            r matches Err(e) ==> e == ZipError::TooLarge && final(self)@ == old(self)@,
            old(self)@.wf() ==> final(self)@.wf(),
    {
        let name_len: usize = file_name.as_bytes().len();
        if name_len > u16::MAX as usize {
            return Err(ZipError::TooLarge);
        }
        let file_name_length: u16 = name_len as u16;
        let directory = Directory {
            kind: Parser,
            compressed: true,
            data: Vec::new(),
            version: 798,
            min_version: 10,
            flags: 0,
            compression_method: CompressionType::Store,
            last_modification_time: NEW_ENTRY_TIME,
            last_modification_date: NEW_ENTRY_DATE,
            crc_32_uncompressed_data: 0,
            compressed_size: 0,
            uncompressed_size: 0,
            file_name_length,
            extra_field_length: 24,
            file_comment_length: 0,
            number_of_starts: 0,
            internal_file_attributes: 0,
            external_file_attributes: 0x41ED0010,
            offset_of_local_file_header: 0,
            file_name: file_name.to_owned(),
            extra_fields: center_extras(0),
            file_comment: Vec::new(),
            file: ZipFile {
                kind: Parser,
                min_version: 10,
                flags: 0,
                compression_method: CompressionType::Store,
                last_modification_time: NEW_ENTRY_TIME,
                last_modification_date: NEW_ENTRY_DATE,
                crc_32_uncompressed_data: 0,
                compressed_size: 0,
                uncompressed_size: 0,
                file_name_length,
                extra_field_length: 28,
                file_name: file_name.to_owned(),
                extra_fields: local_extras(0, 0),
                data_descriptor: None,
                data_position: 0,
            },
        };
        proof {
            assert(directory@ == new_folder(file_name@));
            if old(self)@.wf() {
                lemma_inserted(old(self)@.directories, file_name@, directory@);
                lemma_inserted_names(old(self)@.directories, file_name@, directory@);
            }
        }
        table_insert(&mut self.directories, file_name.to_owned(), directory);
        Ok(())
    }

    /// Gives the entry of `file_name` the payload `data`, or makes a new file
    /// of it where the archive has no such entry. A payload of more than
    /// `u32::MAX` bytes is refused, and so is a new name longer than 65535
    /// bytes.
    pub fn save_file(&mut self, data: Vec<u8>, file_name: &str) -> (r: Result<(), ZipError>)
        ensures
            r is Ok <==> data@.len() <= u32::MAX && (contains_name(
                old(self)@.directories,
                file_name@,
            ) || name_bytes(file_name@).len() <= u16::MAX),
            r is Ok && contains_name(old(self)@.directories, file_name@) ==> exists|i: int|
                0 <= i < old(self)@.directories.len() && (#[trigger] old(self)@.directories[i]).0
                    == file_name@ && final(self)@ == (ZipView {
                    directories: old(self)@.directories.update(
                        i,
                        (file_name@, old(self)@.directories[i].1.with_data(data@)),
                    ),
                    ..old(self)@
                }),
            r is Ok && !contains_name(old(self)@.directories, file_name@) ==> final(self)@ == (
            ZipView {
                directories: inserted(
                    old(self)@.directories,
                    file_name@,
                    new_file(data@, file_name@),
                ),
                ..old(self)@
            }),
            r matches Err(e) ==> e == ZipError::TooLarge && final(self)@ == old(self)@,
            old(self)@.wf() ==> final(self)@.wf(),
    {
        match table_index_of(&self.directories, file_name) {
            Some(i) => {
                if data.len() > u32::MAX as usize {
                    return Err(ZipError::TooLarge);
                }
                let ghost s = old(self)@.directories;
                assert(s[i as int].0 == file_name@);
                let dir = table_get_mut(&mut self.directories, i);
                dir.put_data(data);
                proof {
                    let t = s.update(i as int, (file_name@, s[i as int].1.with_data(data@)));
                    assert(self@.directories == t);
                    if old(self)@.wf() {
                        assert forall|a: int, b: int| 0 <= a < b < t.len() implies (
                        #[trigger] t[a]).0 != (#[trigger] t[b]).0 by {
                            assert(t[a].0 == s[a].0);
                            assert(t[b].0 == s[b].0);
                        }
                        assert forall|a: int| 0 <= a < t.len() implies (#[trigger] t[a]).0
                            == t[a].1.file_name by {
                            assert(t[a].0 == s[a].0);
                            assert(s[a].0 == s[a].1.file_name);
                        }
                    }
                }
                Ok(())
            },
            None => self.add_file(data, file_name),
        }
    }
}

/// What a run of insertions leaves has every entry under its own name,
/// and no name twice.
pub proof fn lemma_collected_wf(list: Seq<DirectoryView>)
    ensures
        distinct_names(collected(list)),
        forall|i: int|
            0 <= i < collected(list).len() ==> (#[trigger] collected(list)[i]).0 == collected(
                list,
            )[i].1.file_name,
    decreases list.len(),
{
    if list.len() > 0 {
        lemma_collected_wf(list.drop_last());
        lemma_inserted(collected(list.drop_last()), list.last().file_name, list.last());
        lemma_inserted_names(collected(list.drop_last()), list.last().file_name, list.last());
    }
}

/// Putting an entry in under its own name keeps every entry under its own
/// name.
proof fn lemma_inserted_names(s: Entries, name: Seq<char>, entry: DirectoryView)
    requires
        forall|i: int| 0 <= i < s.len() ==> (#[trigger] s[i]).0 == s[i].1.file_name,
        entry.file_name == name,
    ensures
        forall|i: int|
            0 <= i < inserted(s, name, entry).len() ==> (#[trigger] inserted(s, name, entry)[i]).0
                == inserted(s, name, entry)[i].1.file_name,
{
    let t = inserted(s, name, entry);
    assert forall|i: int| 0 <= i < t.len() implies (#[trigger] t[i]).0 == t[i].1.file_name by {
        if contains_name(s, name) {
            if i != index_of(s, name) {
                assert(t[i] == s[i]);
            }
        } else {
            if i < s.len() {
                assert(t[i] == s[i]);
            }
        }
    }
}

/// Taking an entry out keeps every entry under its own name.
proof fn lemma_removed_names(s: Entries, name: Seq<char>)
    requires
        forall|i: int| 0 <= i < s.len() ==> (#[trigger] s[i]).0 == s[i].1.file_name,
    ensures
        forall|i: int|
            0 <= i < removed(s, name).len() ==> (#[trigger] removed(s, name)[i]).0 == removed(
                s,
                name,
            )[i].1.file_name,
{
    let t = removed(s, name);
    if contains_name(s, name) {
        let at = index_of(s, name);
        s.remove_ensures(at);
        assert forall|i: int| 0 <= i < t.len() implies (#[trigger] t[i]).0
            == t[i].1.file_name by {
            if i < at {
                assert(t[i] == s[i]);
            } else {
                assert(t[i] == s[i + 1]);
            }
        }
    }
}

} // verus!
