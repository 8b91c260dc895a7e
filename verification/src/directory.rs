//! Central directory entries: one per file, each paired with the local file
//! header that precedes the file's payload.

use crate::crc32::{checksum, crc32};
use crate::deflate::{deflate, deflated, inflate, inflated, CompressionLevel};
use crate::error::ZipError;
use crate::extra::{
    add_run_size, decode_run, decode_run_at, encode_run, run_length, run_size, run_wire, Extra,
};
use crate::le::{
    avail, le16, le32, lemma_le16_at, lemma_le32_at, put_bytes, put_u16, put_u32, read_bytes,
    read_u16, read_u32, u16_at, u32_at,
};
use crate::magic::Magic;
use crate::text::{is_name, name_bytes, name_of, string_from_utf8};
use crate::zip::Parser;
use crate::zip_file::{is_streaming, DataDescriptor, ZipFile, ZipFileView};
use vstd::prelude::*;
use vstd::slice::slice_to_vec;
use vstd::string::StringSliceAdditionalSpecFns;

verus! {

/// How a payload is stored.
#[derive(Debug, Clone, Copy, Default, PartialEq, Eq, Structural)]
pub enum CompressionType {
    #[default]
    Store,
    Shrink,
    Implode,
    Deflate,
    Deflate64,
    BZIP2,
    LZMA,
    XZ,
    JPEG,
    WavPack,
    PPMd,
    AES,
}

impl CompressionType {
    /// The number that stands for the method on the wire.
    pub open spec fn value(self) -> u16 {
        match self {
            CompressionType::Store => 0x0000,
            CompressionType::Shrink => 0x0001,
            CompressionType::Implode => 0x0006,
            CompressionType::Deflate => 0x0008,
            CompressionType::Deflate64 => 0x0009,
            CompressionType::BZIP2 => 0x000C,
            CompressionType::LZMA => 0x000E,
            CompressionType::XZ => 0x005F,
            CompressionType::JPEG => 0x0060,
            CompressionType::WavPack => 0x0061,
            CompressionType::PPMd => 0x0062,
            CompressionType::AES => 0x0063,
        }
    }

    /// The method that a number stands for, if any.
    pub open spec fn of(v: u16) -> Option<CompressionType> {
        if v == 0x0000 {
            Some(CompressionType::Store)
        } else if v == 0x0001 {
            Some(CompressionType::Shrink)
        } else if v == 0x0006 {
            Some(CompressionType::Implode)
        } else if v == 0x0008 {
            Some(CompressionType::Deflate)
        } else if v == 0x0009 {
            Some(CompressionType::Deflate64)
        } else if v == 0x000C {
            Some(CompressionType::BZIP2)
        } else if v == 0x000E {
            Some(CompressionType::LZMA)
        } else if v == 0x005F {
            Some(CompressionType::XZ)
        } else if v == 0x0060 {
            Some(CompressionType::JPEG)
        } else if v == 0x0061 {
            Some(CompressionType::WavPack)
        } else if v == 0x0062 {
            Some(CompressionType::PPMd)
        } else if v == 0x0063 {
            Some(CompressionType::AES)
        } else {
            None
        }
    }

    /// The width of a method number on the wire.
    pub fn byte_size() -> (n: usize)
        ensures
            n == 2,
    {
        2
    }

    /// The number that stands for the method on the wire.
    pub fn number(&self) -> (v: u16)
        ensures
            v == self.value(),
    {
        match self {
            CompressionType::Store => 0x0000,
            CompressionType::Shrink => 0x0001,
            CompressionType::Implode => 0x0006,
            CompressionType::Deflate => 0x0008,
            CompressionType::Deflate64 => 0x0009,
            CompressionType::BZIP2 => 0x000C,
            CompressionType::LZMA => 0x000E,
            CompressionType::XZ => 0x005F,
            CompressionType::JPEG => 0x0060,
            CompressionType::WavPack => 0x0061,
            CompressionType::PPMd => 0x0062,
            CompressionType::AES => 0x0063,
        }
    }

    /// The method that a number stands for, if any.
    pub fn from_number(v: u16) -> (m: Option<CompressionType>)
        ensures
            m == CompressionType::of(v),
    {
        if v == 0x0000 {
            Some(CompressionType::Store)
        } else if v == 0x0001 {
            Some(CompressionType::Shrink)
        } else if v == 0x0006 {
            Some(CompressionType::Implode)
        } else if v == 0x0008 {
            Some(CompressionType::Deflate)
        } else if v == 0x0009 {
            Some(CompressionType::Deflate64)
        } else if v == 0x000C {
            Some(CompressionType::BZIP2)
        } else if v == 0x000E {
            Some(CompressionType::LZMA)
        } else if v == 0x005F {
            Some(CompressionType::XZ)
        } else if v == 0x0060 {
            Some(CompressionType::JPEG)
        } else if v == 0x0061 {
            Some(CompressionType::WavPack)
        } else if v == 0x0062 {
            Some(CompressionType::PPMd)
        } else if v == 0x0063 {
            Some(CompressionType::AES)
        } else {
            None
        }
    }

    /// Every method is found again from its number, and only from it.
    pub proof fn lemma_number_round_trip(m: CompressionType, v: u16)
        ensures
            CompressionType::of(m.value()) == Some(m),
            CompressionType::of(v) matches Some(k) ==> k.value() == v,
    {
    }
}

impl From<CompressionType> for u16 {
    /// The number that stands for the method on the wire.
    fn from(m: CompressionType) -> (v: u16) {
        m.number()
    }
}

impl vstd::std_specs::convert::FromSpecImpl<CompressionType> for u16 {
    open spec fn obeys_from_spec() -> bool {
        true
    }

    open spec fn from_spec(m: CompressionType) -> u16 {
        m.value()
    }
}

/// The signature of a central directory entry as a number.
pub const DIRECTORY_MAGIC: u32 = 0x02014b50;

/// The bytes of a central directory entry before its name.
pub const DIRECTORY_HEADER_SIZE: usize = 46;

/// One file of the archive: what the central directory says of it, its
/// payload, and its local file header.
#[derive(Debug, Clone)]
pub struct Directory<TYPE> {
    pub kind: TYPE,
    /// The payload, deflated or not as `compressed` says.
    pub data: Vec<u8>,
    /// `data` holds the payload as it goes on the wire.
    pub compressed: bool,
    pub version: u16,
    pub min_version: u16,
    pub flags: u16,
    pub compression_method: CompressionType,
    pub last_modification_time: u16,
    pub last_modification_date: u16,
    pub crc_32_uncompressed_data: u32,
    pub compressed_size: u32,
    pub uncompressed_size: u32,
    pub file_name_length: u16,
    pub extra_field_length: u16,
    pub file_comment_length: u16,
    pub number_of_starts: u16,
    pub internal_file_attributes: u16,
    pub external_file_attributes: u32,
    pub offset_of_local_file_header: u32,
    pub file_name: String,
    pub extra_fields: Vec<Extra>,
    pub file_comment: Vec<u8>,
    pub file: ZipFile<TYPE>,
}

/// What an entry holds.
pub struct DirectoryView {
    pub data: Seq<u8>,
    pub compressed: bool,
    pub version: u16,
    pub min_version: u16,
    pub flags: u16,
    pub compression_method: CompressionType,
    pub last_modification_time: u16,
    pub last_modification_date: u16,
    pub crc_32_uncompressed_data: u32,
    pub compressed_size: u32,
    pub uncompressed_size: u32,
    pub file_name_length: u16,
    pub extra_field_length: u16,
    pub file_comment_length: u16,
    pub number_of_starts: u16,
    pub internal_file_attributes: u16,
    pub external_file_attributes: u32,
    pub offset_of_local_file_header: u32,
    pub file_name: Seq<char>,
    pub extra_fields: Seq<Extra>,
    pub file_comment: Seq<u8>,
    pub file: ZipFileView,
}

impl<TYPE> View for Directory<TYPE> {
    type V = DirectoryView;

    open spec fn view(&self) -> DirectoryView {
        DirectoryView {
            data: self.data@,
            compressed: self.compressed,
            version: self.version,
            min_version: self.min_version,
            flags: self.flags,
            compression_method: self.compression_method,
            last_modification_time: self.last_modification_time,
            last_modification_date: self.last_modification_date,
            crc_32_uncompressed_data: self.crc_32_uncompressed_data,
            compressed_size: self.compressed_size,
            uncompressed_size: self.uncompressed_size,
            file_name_length: self.file_name_length,
            extra_field_length: self.extra_field_length,
            file_comment_length: self.file_comment_length,
            number_of_starts: self.number_of_starts,
            internal_file_attributes: self.internal_file_attributes,
            external_file_attributes: self.external_file_attributes,
            offset_of_local_file_header: self.offset_of_local_file_header,
            file_name: self.file_name@,
            extra_fields: self.extra_fields@,
            file_comment: self.file_comment@,
            file: self.file@,
        }
    }
}

impl DirectoryView {
    /// Name, extra fields and comment are short enough for their 16-bit
    /// length fields.
    pub open spec fn fits(self) -> bool {
        &&& name_bytes(self.file_name).len() <= u16::MAX
        &&& run_size(self.extra_fields, true) <= u16::MAX
        &&& self.file_comment.len() <= u16::MAX
    }

    /// The 46 bytes before the name, with the lengths of name, extra fields
    /// and comment as they stand.
    #[verifier::opaque]
    pub open spec fn fixed_wire(self) -> Seq<u8> {
        le32(DIRECTORY_MAGIC) + le16(self.version) + le16(self.min_version) + le16(self.flags)
            + le16(self.compression_method.value()) + le16(self.last_modification_time) + le16(
            self.last_modification_date,
        ) + le32(self.crc_32_uncompressed_data) + le32(self.compressed_size) + le32(
            self.uncompressed_size,
        ) + le16(name_bytes(self.file_name).len() as u16) + le16(
            run_size(self.extra_fields, true) as u16,
        ) + le16(self.file_comment.len() as u16) + le16(self.number_of_starts) + le16(
            self.internal_file_attributes,
        ) + le32(self.external_file_attributes) + le32(self.offset_of_local_file_header)
    }

    /// The entry on the wire: fixed part, name, extra fields, comment.
    #[verifier::opaque]
    pub open spec fn wire(self) -> Seq<u8> {
        self.fixed_wire() + name_bytes(self.file_name) + run_wire(self.extra_fields, true)
            + self.file_comment
    }

    /// The bytes that the entry takes in the central directory, with the
    /// extra fields counted as the given context encodes them.
    pub open spec fn size(self, center: bool) -> nat {
        DIRECTORY_HEADER_SIZE as nat + name_bytes(self.file_name).len() + self.file_comment.len()
            + run_size(self.extra_fields, center)
    }

    /// The bytes that the entry takes in the central directory.
    pub open spec fn wire_len(self) -> nat {
        self.size(true)
    }

    /// The entry as a reader finds it: with the lengths of what it holds,
    /// the extra fields as the central directory keeps them, the payload
    /// taken for deflated where the method is Deflate, and the local file
    /// header as it stands at the entry's offset, with a data descriptor
    /// made of the entry's checksum and sizes where the header's streaming
    /// flag is set.
    pub open spec fn as_read(self) -> DirectoryView {
        DirectoryView {
            compressed: self.compression_method == CompressionType::Deflate,
            file_name_length: name_bytes(self.file_name).len() as u16,
            extra_field_length: run_size(self.extra_fields, true) as u16,
            file_comment_length: self.file_comment.len() as u16,
            extra_fields: crate::extra::run_as_written(self.extra_fields, true),
            file: ZipFileView {
                data_descriptor: if is_streaming(self.file.flags) {
                    Some(
                        DataDescriptor {
                            crc32: self.crc_32_uncompressed_data,
                            compressed_size: self.compressed_size,
                            uncompressed_size: self.uncompressed_size,
                        },
                    )
                } else {
                    None
                },
                ..self.file.as_read(self.offset_of_local_file_header as int)
            },
            ..self
        }
    }

    /// The payload waits to be deflated.
    pub open spec fn needs_exec(self) -> bool {
        !self.compressed && self.compression_method == CompressionType::Deflate
    }

    /// The payload is held deflated.
    pub open spec fn needs_inflate(self) -> bool {
        self.compressed && self.compression_method != CompressionType::Store
    }

    /// The entry with checksum and sizes carried over to its local file
    /// header and, where that holds one, to the data descriptor.
    pub open spec fn in_step(self) -> DirectoryView {
        DirectoryView {
            file: ZipFileView {
                crc_32_uncompressed_data: self.crc_32_uncompressed_data,
                compressed_size: self.compressed_size,
                uncompressed_size: self.uncompressed_size,
                data_descriptor: match self.file.data_descriptor {
                    Some(_) => Some(
                        DataDescriptor {
                            crc32: self.crc_32_uncompressed_data,
                            compressed_size: self.compressed_size,
                            uncompressed_size: self.uncompressed_size,
                        },
                    ),
                    None => None,
                },
                ..self.file
            },
            ..self
        }
    }

    /// The entry once `bytes`, the deflated payload, and `crc` took the
    /// place of payload and checksum.
    pub open spec fn with_deflated(self, crc: u32, bytes: Seq<u8>) -> DirectoryView {
        (DirectoryView {
            data: bytes,
            compressed: true,
            crc_32_uncompressed_data: crc,
            compressed_size: bytes.len() as u32,
            ..self
        }).in_step()
    }

    /// The entry once `bytes`, the inflated payload, took the place of the
    /// deflated one.
    pub open spec fn with_inflated(self, bytes: Seq<u8>) -> DirectoryView {
        DirectoryView { data: bytes, compressed: false, ..self }
    }

    /// The checksum that `exec` records: the payload's CRC-32, or 0 where
    /// it is not asked for.
    pub open spec fn exec_crc(self, crc32_computer: bool) -> u32 {
        if crc32_computer {
            crc32(self.data)
        } else {
            0
        }
    }

    /// The entry after `exec`: deflated where that was still to do.
    pub open spec fn executed(self, crc32_computer: bool, level: u8) -> DirectoryView {
        if self.needs_exec() {
            self.with_deflated(self.exec_crc(crc32_computer), deflated(self.data, level))
        } else {
            self
        }
    }

    /// The entry after new payload was put in: stored, not compressed, with
    /// the compressed size left open.
    pub open spec fn with_data(self, bytes: Seq<u8>) -> DirectoryView {
        (DirectoryView {
            data: bytes,
            compressed: false,
            compression_method: CompressionType::Store,
            compressed_size: 0,
            uncompressed_size: bytes.len() as u32,
            file: ZipFileView { compression_method: CompressionType::Store, ..self.file },
            ..self
        }).in_step()
    }
}

/// The entry that starts at `p`, with the position behind it. The entry's
/// local file header is read where the entry says it lies, and the payload
/// behind that header. A header with the streaming flag gets a data
/// descriptor made of the entry's own checksum and sizes.
#[verifier::opaque]
pub open spec fn decode_at(s: Seq<u8>, p: int) -> Result<(DirectoryView, int), ZipError> {
    if !avail(s, p, 4) {
        Err(ZipError::UnexpectedEnd)
    } else if u32_at(s, p) != DIRECTORY_MAGIC {
        Err(ZipError::BadMagic)
    } else if !avail(s, p, DIRECTORY_HEADER_SIZE as int) {
        Err(ZipError::UnexpectedEnd)
    } else {
        let crc = u32_at(s, p + 16);
        let compressed_size = u32_at(s, p + 20);
        let uncompressed_size = u32_at(s, p + 24);
        let name_len = u16_at(s, p + 28);
        let extra_len = u16_at(s, p + 30);
        let comment_len = u16_at(s, p + 32);
        let offset = u32_at(s, p + 42);
        let name_at = p + DIRECTORY_HEADER_SIZE;
        let extras_at = name_at + name_len;
        let comment_at = extras_at + extra_len;
        match CompressionType::of(u16_at(s, p + 10)) {
            None => Err(ZipError::UnsupportedCompression(u16_at(s, p + 10))),
            Some(method) => if !avail(s, name_at, name_len as int) {
                Err(ZipError::UnexpectedEnd)
            } else if !is_name(s.subrange(name_at, extras_at)) {
                Err(ZipError::InvalidName)
            } else {
                match decode_run_at(s, extras_at, comment_at) {
                    Err(e) => Err(e),
                    Ok(extras) => if !avail(s, comment_at, comment_len as int) {
                        Err(ZipError::UnexpectedEnd)
                    } else {
                        match crate::zip_file::decode_at(s, offset as int) {
                            Err(e) => Err(e),
                            Ok(file) => if !avail(
                                s,
                                file.data_position as int,
                                compressed_size as int,
                            ) {
                                Err(ZipError::UnexpectedEnd)
                            } else {
                                Ok(
                                    (
                                        DirectoryView {
                                            data: s.subrange(
                                                file.data_position as int,
                                                file.data_position + compressed_size,
                                            ),
                                            compressed: method == CompressionType::Deflate,
                                            version: u16_at(s, p + 4),
                                            min_version: u16_at(s, p + 6),
                                            flags: u16_at(s, p + 8),
                                            compression_method: method,
                                            last_modification_time: u16_at(s, p + 12),
                                            last_modification_date: u16_at(s, p + 14),
                                            crc_32_uncompressed_data: crc,
                                            compressed_size,
                                            uncompressed_size,
                                            file_name_length: name_len,
                                            extra_field_length: extra_len,
                                            file_comment_length: comment_len,
                                            number_of_starts: u16_at(s, p + 34),
                                            internal_file_attributes: u16_at(s, p + 36),
                                            external_file_attributes: u32_at(s, p + 38),
                                            offset_of_local_file_header: offset,
                                            file_name: name_of(s.subrange(name_at, extras_at)),
                                            extra_fields: extras,
                                            file_comment: s.subrange(
                                                comment_at,
                                                comment_at + comment_len,
                                            ),
                                            file: ZipFileView {
                                                data_descriptor: if is_streaming(file.flags) {
                                                    Some(
                                                        DataDescriptor {
                                                            crc32: crc,
                                                            compressed_size,
                                                            uncompressed_size,
                                                        },
                                                    )
                                                } else {
                                                    None
                                                },
                                                ..file
                                            },
                                        },
                                        comment_at + comment_len,
                                    ),
                                )
                            },
                        }
                    },
                }
            },
        }
    }
}

impl Directory<Parser> {
    /// The bytes of payload that `exec` has still to deflate.
    pub fn exec_un_compress_size(&self) -> (n: usize)
        ensures
            n == if self@.needs_exec() {
                self@.data.len()
            } else {
                0
            },
    {
        if !self.compressed && self.compression_method == CompressionType::Deflate {
            self.data.len()
        } else {
            0
        }
    }

    /// Puts the deflated payload `bytes` and the checksum `crc` in the place
    /// of payload and checksum, and carries the sizes over to the local file
    /// header. A payload too long for the 32-bit size field is refused.
    pub fn set_deflated(&mut self, crc: u32, bytes: Vec<u8>) -> (r: Result<(), ZipError>)
        ensures
            r is Ok <==> bytes@.len() <= u32::MAX,
            r is Ok ==> final(self)@ == old(self)@.with_deflated(crc, bytes@),
            r matches Err(e) ==> e == ZipError::TooLarge && final(self)@ == old(self)@,
    {
        if bytes.len() > u32::MAX as usize {
            return Err(ZipError::TooLarge);
        }
        self.crc_32_uncompressed_data = crc;
        self.compressed_size = bytes.len() as u32;
        self.compressed = true;
        self.data = bytes;
        self.keep_in_step();
        Ok(())
    }

    /// Carries checksum and sizes over to the local file header and its
    /// data descriptor.
    fn keep_in_step(&mut self)
        ensures
            final(self)@ == old(self)@.in_step(),
    {
        self.file.crc_32_uncompressed_data = self.crc_32_uncompressed_data;
        self.file.compressed_size = self.compressed_size;
        self.file.uncompressed_size = self.uncompressed_size;
        if self.file.data_descriptor.is_some() {
            self.file.data_descriptor = Some(
                DataDescriptor {
                    crc32: self.crc_32_uncompressed_data,
                    compressed_size: self.compressed_size,
                    uncompressed_size: self.uncompressed_size,
                },
            );
        }
    }

    /// Prepares the entry for the wire and puts its local file header at
    /// `offset`: deflates the payload where that is to do, and sets sizes,
    /// lengths and offset. `central` is where the entry's own record starts
    /// within the central directory. Returns where the next local record and
    /// the next central directory entry start. An entry that does not fit is
    /// refused and stays as it is.
    pub(crate) fn lay(
        &mut self,
        offset: u32,
        central: u32,
        crc32_computer: bool,
        compression_level: &CompressionLevel,
    ) -> (r: Result<(u32, u32), ZipError>)
        ensures
            r is Ok <==> old(self)@.prepared(
                crc32_computer,
                compression_level.value(),
            ).can_be_placed(offset as nat, central as nat),
            r matches Ok((next, next_central)) ==> {
                &&& final(self)@ == old(self)@.prepared(
                    crc32_computer,
                    compression_level.value(),
                ).placed(offset)
                &&& next == offset + final(self)@.local_size()
                &&& next_central == central + final(self)@.size(true)
            },
            r matches Err(e) ==> e == ZipError::TooLarge && final(self)@ == old(self)@,
    {
        reveal(DirectoryView::prepared);
        let name_len: usize = self.file_name.as_str().as_bytes().len();
        if name_len > u16::MAX as usize {
            return Err(ZipError::TooLarge);
        }
        let extra_len: u16 = match run_length(&self.extra_fields, true) {
            Some(n) => n,
            None => {
                return Err(ZipError::TooLarge);
            },
        };
        let comment_len: usize = self.file_comment.len();
        if comment_len > u16::MAX as usize {
            return Err(ZipError::TooLarge);
        }
        let local_name_len: usize = self.file.file_name.as_str().as_bytes().len();
        if local_name_len > u16::MAX as usize {
            return Err(ZipError::TooLarge);
        }
        let local_extra_len: u16 = match run_length(&self.file.extra_fields, false) {
            Some(n) => n,
            None => {
                return Err(ZipError::TooLarge);
            },
        };
        let needs: bool = !self.compressed && self.compression_method == CompressionType::Deflate;
        let mut crc: u32 = 0;
        let mut bytes: Vec<u8> = Vec::new();
        if needs {
            if crc32_computer {
                crc = checksum(self.data.as_slice());
            }
            bytes = deflate(self.data.as_slice(), compression_level.number());
        }
        let payload_len: usize = if needs {
            bytes.len()
        } else {
            self.data.len()
        };
        if payload_len > u32::MAX as usize {
            return Err(ZipError::TooLarge);
        }
        let descriptor_len: u64 = if self.file.data_descriptor.is_some() {
            16
        } else {
            0
        };
        let local: u64 = 30 + local_name_len as u64 + local_extra_len as u64 + descriptor_len
            + payload_len as u64;
        if offset as u64 + local > u32::MAX as u64 {
            return Err(ZipError::TooLarge);
        }
        let record: u64 = 46 + name_len as u64 + extra_len as u64 + comment_len as u64;
        if central as u64 + record > u32::MAX as u64 {
            return Err(ZipError::TooLarge);
        }
        if needs {
            let done = self.set_deflated(crc, bytes);
            assert(done is Ok);
        }
        assert(self@ == old(self)@.executed(crc32_computer, compression_level.value()));
        if self.compressed_size as usize != self.data.len() {
            self.compressed_size = self.data.len() as u32;
            self.keep_in_step();
        }
        assert(self@ == old(self)@.executed(crc32_computer, compression_level.value()).sized());
        self.file_name_length = name_len as u16;
        self.extra_field_length = extra_len;
        self.file_comment_length = comment_len as u16;
        self.file.file_name_length = local_name_len as u16;
        self.file.extra_field_length = local_extra_len;
        assert(self@ == old(self)@.prepared(crc32_computer, compression_level.value())) by {
            reveal(DirectoryView::prepared);
        }
        self.offset_of_local_file_header = offset;
        Ok(((offset as u64 + local) as u32, (central as u64 + record) as u32))
    }

    /// Deflates the payload where the entry's method is Deflate and that is
    /// still to do; otherwise the entry stays as it is. With `crc32_computer`
    /// the payload's CRC-32 is recorded, else 0. `callback` is told how many
    /// bytes of payload went through the compressor.
    pub fn exec(
        &mut self,
        crc32_computer: bool,
        compression_level: &CompressionLevel,
        callback: &mut impl FnMut(usize),
    ) -> (r: Result<(), ZipError>)
        requires
            forall|n: usize| call_requires(*old(callback), (n,)),
        ensures
            r is Ok <==> (old(self)@.needs_exec() ==> deflated(
                old(self)@.data,
                compression_level.value(),
            ).len() <= u32::MAX),
            r is Ok ==> final(self)@ == old(self)@.executed(
                crc32_computer,
                compression_level.value(),
            ),
            r matches Err(e) ==> e == ZipError::TooLarge && final(self)@ == old(self)@,
    {
        if !self.compressed && self.compression_method == CompressionType::Deflate {
            let crc: u32 = if crc32_computer {
                checksum(self.data.as_slice())
            } else {
                0
            };
            let bytes: Vec<u8> = deflate(self.data.as_slice(), compression_level.number());
            callback(self.data.len());
            return self.set_deflated(crc, bytes);
        }
        Ok(())
    }

    /// Puts `stream` in the place of the payload. The entry becomes a stored
    /// one that is not compressed; its local file header follows.
    pub fn put_data(&mut self, stream: Vec<u8>)
        requires
            stream@.len() <= u32::MAX,
        ensures
            final(self)@ == old(self)@.with_data(stream@),
    {
        self.compressed_size = 0;
        self.uncompressed_size = stream.len() as u32;
        self.compression_method = CompressionType::Store;
        self.file.compression_method = CompressionType::Store;
        self.compressed = false;
        self.data = stream;
        self.keep_in_step();
    }

    /// Puts what the deflated payload inflated to in its place, where it did
    /// inflate.
    pub fn set_inflated(&mut self, bytes: Option<Vec<u8>>) -> (r: Result<(), ZipError>)
        ensures
            r is Ok <==> bytes is Some,
            r is Ok ==> final(self)@ == old(self)@.with_inflated(bytes->0@),
            r matches Err(e) ==> e == ZipError::InvalidDeflate && final(self)@ == old(self)@,
    {
        match bytes {
            Some(v) => {
                self.data = v;
                self.compressed = false;
                Ok(())
            },
            None => Err(ZipError::InvalidDeflate),
        }
    }

    /// Inflates the payload where it is held deflated, tells `callback_fun`
    /// how many bytes came out, and returns the payload as the file has it.
    /// A stored entry stays as it is.
    pub fn decompressed_callback(&mut self, callback_fun: &mut impl FnMut(usize)) -> (r: Result<
        &Vec<u8>,
        ZipError,
    >)
        requires
            forall|n: usize| call_requires(*old(callback_fun), (n,)),
        ensures
            r is Ok <==> (old(self)@.needs_inflate() ==> inflated(old(self)@.data) is Some),
            r is Ok ==> final(self)@ == if old(self)@.needs_inflate() {
                old(self)@.with_inflated(inflated(old(self)@.data)->0)
            } else {
                old(self)@
            },
            r matches Ok(payload) ==> payload@ == final(self)@.data,
            r matches Err(e) ==> e == ZipError::InvalidDeflate && final(self)@ == old(self)@,
    {
        if self.compressed && self.compression_method != CompressionType::Store {
            let bytes: Option<Vec<u8>> = inflate(self.data.as_slice());
            if let Some(v) = &bytes {
                callback_fun(v.len());
            }
            self.set_inflated(bytes)?;
        }
        Ok(&self.data)
    }

    /// Inflates the payload where it is held deflated, and returns the
    /// payload as the file has it. A stored entry stays as it is.
    pub fn decompressed(&mut self) -> (r: Result<&Vec<u8>, ZipError>)
        ensures
            r is Ok <==> (old(self)@.needs_inflate() ==> inflated(old(self)@.data) is Some),
            r is Ok ==> final(self)@ == if old(self)@.needs_inflate() {
                old(self)@.with_inflated(inflated(old(self)@.data)->0)
            } else {
                old(self)@
            },
            r matches Ok(payload) ==> payload@ == final(self)@.data,
            r matches Err(e) ==> e == ZipError::InvalidDeflate && final(self)@ == old(self)@,
    {
        if self.compressed && self.compression_method != CompressionType::Store {
            let bytes: Option<Vec<u8>> = inflate(self.data.as_slice());
            self.set_inflated(bytes)?;
        }
        Ok(&self.data)
    }

    /// A copy of the entry, payload included.
    pub fn clone_all(&self) -> (r: Directory<Parser>)
        ensures
            r@ == self@,
    {
        let mut copy: Directory<Parser> = self.clone_not_stream();
        copy.data = slice_to_vec(self.data.as_slice());
        copy
    }

    /// A copy of the entry with an empty payload.
    pub fn clone_not_stream(&self) -> (r: Directory<Parser>)
        ensures
            r@ == (DirectoryView { data: Seq::empty(), ..self@ }),
    {
        Directory {
            kind: Parser,
            data: Vec::new(),
            compressed: self.compressed,
            version: self.version,
            min_version: self.min_version,
            flags: self.flags,
            compression_method: self.compression_method,
            last_modification_time: self.last_modification_time,
            last_modification_date: self.last_modification_date,
            crc_32_uncompressed_data: self.crc_32_uncompressed_data,
            compressed_size: self.compressed_size,
            uncompressed_size: self.uncompressed_size,
            file_name_length: self.file_name_length,
            extra_field_length: self.extra_field_length,
            file_comment_length: self.file_comment_length,
            number_of_starts: self.number_of_starts,
            internal_file_attributes: self.internal_file_attributes,
            external_file_attributes: self.external_file_attributes,
            offset_of_local_file_header: self.offset_of_local_file_header,
            file_name: self.file_name.clone(),
            extra_fields: slice_to_vec(self.extra_fields.as_slice()),
            file_comment: slice_to_vec(self.file_comment.as_slice()),
            file: self.file.copy(),
        }
    }

    /// The payload is held as it goes on the wire.
    pub fn compressed(&self) -> (b: bool)
        ensures
            b == self@.compressed,
    {
        self.compressed
    }

    /// The bytes that the entry takes in the central directory, with the
    /// extra fields counted as the given context encodes them.
    pub fn size(&self, center: bool) -> (n: usize)
        requires
            self@.size(center) <= usize::MAX,
        ensures
            n == self@.size(center),
    {
        let name_len: usize = self.file_name.as_str().as_bytes().len();
        add_run_size(
            DIRECTORY_HEADER_SIZE + name_len + self.file_comment.len(),
            &self.extra_fields,
            center,
        )
    }

    /// Appends the entry as it stands in the central directory. Name, extra
    /// fields or comment that are too long for their length fields are
    /// refused, and nothing is appended.
    pub fn encode(&self, out: &mut Vec<u8>) -> (r: Result<(), ZipError>)
        ensures
            r is Ok <==> self@.fits(),
            r is Ok ==> final(out)@ == old(out)@ + self@.wire(),
            r matches Err(e) ==> e == ZipError::TooLarge && final(out)@ == old(out)@,
    {
        let name: &[u8] = self.file_name.as_str().as_bytes();
        if name.len() > u16::MAX as usize {
            return Err(ZipError::TooLarge);
        }
        let extra_len: u16 = match run_length(&self.extra_fields, true) {
            Some(n) => n,
            None => {
                return Err(ZipError::TooLarge);
            },
        };
        if self.file_comment.len() > u16::MAX as usize {
            return Err(ZipError::TooLarge);
        }
        put_u32(out, Magic::Directory.number());
        put_u16(out, self.version);
        put_u16(out, self.min_version);
        put_u16(out, self.flags);
        put_u16(out, self.compression_method.number());
        put_u16(out, self.last_modification_time);
        put_u16(out, self.last_modification_date);
        put_u32(out, self.crc_32_uncompressed_data);
        put_u32(out, self.compressed_size);
        put_u32(out, self.uncompressed_size);
        put_u16(out, name.len() as u16);
        put_u16(out, extra_len);
        put_u16(out, self.file_comment.len() as u16);
        put_u16(out, self.number_of_starts);
        put_u16(out, self.internal_file_attributes);
        put_u32(out, self.external_file_attributes);
        put_u32(out, self.offset_of_local_file_header);
        assert(out@ =~= old(out)@ + self@.fixed_wire()) by {
            reveal(DirectoryView::fixed_wire);
        }
        put_bytes(out, name);
        encode_run(&self.extra_fields, true, out);
        put_bytes(out, self.file_comment.as_slice());
        assert(out@ =~= old(out)@ + self@.wire()) by {
            reveal(DirectoryView::wire);
        }
        Ok(())
    }

    /// Reads the entry that starts at `pos`, its local file header and its
    /// payload, and returns the entry with the position behind it.
    pub fn decode(data: &[u8], pos: usize) -> (r: Result<(Directory<Parser>, usize), ZipError>)
        ensures
            r matches Ok((d, next)) ==> decode_at(data@, pos as int) == Ok::<
                (DirectoryView, int),
                ZipError,
            >((d@, next as int)),
            r matches Err(e) ==> decode_at(data@, pos as int) == Err::<
                (DirectoryView, int),
                ZipError,
            >(e),
    {
        reveal(decode_at);
        reveal(crate::zip_file::decode_at);
        match Magic::from_number(read_u32(data, pos)?) {
            Some(Magic::Directory) => {},
            _ => {
                return Err(ZipError::BadMagic);
            },
        }
        if data.len() - pos < DIRECTORY_HEADER_SIZE {
            return Err(ZipError::UnexpectedEnd);
        }
        let version: u16 = read_u16(data, pos + 4)?;
        let min_version: u16 = read_u16(data, pos + 6)?;
        let flags: u16 = read_u16(data, pos + 8)?;
        let method_number: u16 = read_u16(data, pos + 10)?;
        let last_modification_time: u16 = read_u16(data, pos + 12)?;
        let last_modification_date: u16 = read_u16(data, pos + 14)?;
        let crc_32_uncompressed_data: u32 = read_u32(data, pos + 16)?;
        let compressed_size: u32 = read_u32(data, pos + 20)?;
        let uncompressed_size: u32 = read_u32(data, pos + 24)?;
        let file_name_length: u16 = read_u16(data, pos + 28)?;
        let extra_field_length: u16 = read_u16(data, pos + 30)?;
        let file_comment_length: u16 = read_u16(data, pos + 32)?;
        let number_of_starts: u16 = read_u16(data, pos + 34)?;
        let internal_file_attributes: u16 = read_u16(data, pos + 36)?;
        let external_file_attributes: u32 = read_u32(data, pos + 38)?;
        let offset_of_local_file_header: u32 = read_u32(data, pos + 42)?;
        let compression_method: CompressionType = match CompressionType::from_number(
            method_number,
        ) {
            Some(m) => m,
            None => {
                return Err(ZipError::UnsupportedCompression(method_number));
            },
        };
        let name_at: usize = pos + DIRECTORY_HEADER_SIZE;
        let name: Vec<u8> = read_bytes(data, name_at, file_name_length as usize)?;
        let file_name: String = match string_from_utf8(name) {
            Some(s) => s,
            None => {
                return Err(ZipError::InvalidName);
            },
        };
        let extras_at: usize = name_at + file_name_length as usize;
        let extra_fields: Vec<Extra> = decode_run(data, extras_at, extra_field_length)?;
        proof {
            crate::extra::lemma_run_ends_within(
                data@,
                extras_at as int,
                extras_at + extra_field_length,
            );
        }
        let comment_at: usize = extras_at + extra_field_length as usize;
        let file_comment: Vec<u8> = read_bytes(data, comment_at, file_comment_length as usize)?;
        let next: usize = comment_at + file_comment_length as usize;
        let mut file: ZipFile<Parser> = ZipFile::<Parser>::decode(
            data,
            offset_of_local_file_header as usize,
        )?;
        if file.flags / 8 % 2 == 1 {
            file.data_descriptor = Some(
                DataDescriptor {
                    crc32: crc_32_uncompressed_data,
                    compressed_size,
                    uncompressed_size,
                },
            );
        }
        if file.data_position > usize::MAX as u64 {
            return Err(ZipError::UnexpectedEnd);
        }
        let payload: Vec<u8> = read_bytes(
            data,
            file.data_position as usize,
            compressed_size as usize,
        )?;
        Ok(
            (
                Directory {
                    kind: Parser,
                    data: payload,
                    compressed: compression_method == CompressionType::Deflate,
                    version,
                    min_version,
                    flags,
                    compression_method,
                    last_modification_time,
                    last_modification_date,
                    crc_32_uncompressed_data,
                    compressed_size,
                    uncompressed_size,
                    file_name_length,
                    extra_field_length,
                    file_comment_length,
                    number_of_starts,
                    internal_file_attributes,
                    external_file_attributes,
                    offset_of_local_file_header,
                    file_name,
                    extra_fields,
                    file_comment,
                    file,
                },
                next,
            ),
        )
    }

    /// Deflating twice is deflating once: after `exec` a second `exec`
    /// leaves payload, sizes and every other field as the first left them.
    pub proof fn lemma_exec_twice(
        entry: DirectoryView,
        crc32_computer: bool,
        level: u8,
        again_crc32_computer: bool,
        again_level: u8,
    )
        ensures
            entry.executed(crc32_computer, level).executed(again_crc32_computer, again_level)
                == entry.executed(crc32_computer, level),
    {
    }
}

/// The fixed part of an entry holds the entry's fields where a reader
/// looks for them.
pub proof fn lemma_fixed_fields(d: DirectoryView)
    ensures
        ({
            let w = d.fixed_wire();
            &&& w.len() == DIRECTORY_HEADER_SIZE
            &&& u32_at(w, 0) == DIRECTORY_MAGIC
            &&& u16_at(w, 4) == d.version
            &&& u16_at(w, 6) == d.min_version
            &&& u16_at(w, 8) == d.flags
            &&& u16_at(w, 10) == d.compression_method.value()
            &&& u16_at(w, 12) == d.last_modification_time
            &&& u16_at(w, 14) == d.last_modification_date
            &&& u32_at(w, 16) == d.crc_32_uncompressed_data
            &&& u32_at(w, 20) == d.compressed_size
            &&& u32_at(w, 24) == d.uncompressed_size
            &&& u16_at(w, 28) == name_bytes(d.file_name).len() as u16
            &&& u16_at(w, 30) == run_size(d.extra_fields, true) as u16
            &&& u16_at(w, 32) == d.file_comment.len() as u16
            &&& u16_at(w, 34) == d.number_of_starts
            &&& u16_at(w, 36) == d.internal_file_attributes
            &&& u32_at(w, 38) == d.external_file_attributes
            &&& u32_at(w, 42) == d.offset_of_local_file_header
        }),
{
    reveal(DirectoryView::fixed_wire);
    let w = d.fixed_wire();
    let e0 = Seq::<u8>::empty();
    let h1 = le32(DIRECTORY_MAGIC);
    let h2 = h1 + le16(d.version);
    let h3 = h2 + le16(d.min_version);
    let h4 = h3 + le16(d.flags);
    let h5 = h4 + le16(d.compression_method.value());
    let h6 = h5 + le16(d.last_modification_time);
    let h7 = h6 + le16(d.last_modification_date);
    let h8 = h7 + le32(d.crc_32_uncompressed_data);
    let h9 = h8 + le32(d.compressed_size);
    let h10 = h9 + le32(d.uncompressed_size);
    let h11 = h10 + le16(name_bytes(d.file_name).len() as u16);
    let h12 = h11 + le16(run_size(d.extra_fields, true) as u16);
    let h13 = h12 + le16(d.file_comment.len() as u16);
    let h14 = h13 + le16(d.number_of_starts);
    let h15 = h14 + le16(d.internal_file_attributes);
    let h16 = h15 + le32(d.external_file_attributes);
    assert(w.len() == 46);
    assert(w =~= e0 + le32(DIRECTORY_MAGIC) + w.subrange(4, 46));
    lemma_le32_at(e0, DIRECTORY_MAGIC, w.subrange(4, 46));
    assert(w =~= h1 + le16(d.version) + w.subrange(6, 46));
    lemma_le16_at(h1, d.version, w.subrange(6, 46));
    assert(w =~= h2 + le16(d.min_version) + w.subrange(8, 46));
    lemma_le16_at(h2, d.min_version, w.subrange(8, 46));
    assert(w =~= h3 + le16(d.flags) + w.subrange(10, 46));
    lemma_le16_at(h3, d.flags, w.subrange(10, 46));
    assert(w =~= h4 + le16(d.compression_method.value()) + w.subrange(12, 46));
    lemma_le16_at(h4, d.compression_method.value(), w.subrange(12, 46));
    assert(w =~= h5 + le16(d.last_modification_time) + w.subrange(14, 46));
    lemma_le16_at(h5, d.last_modification_time, w.subrange(14, 46));
    assert(w =~= h6 + le16(d.last_modification_date) + w.subrange(16, 46));
    lemma_le16_at(h6, d.last_modification_date, w.subrange(16, 46));
    assert(w =~= h7 + le32(d.crc_32_uncompressed_data) + w.subrange(20, 46));
    lemma_le32_at(h7, d.crc_32_uncompressed_data, w.subrange(20, 46));
    assert(w =~= h8 + le32(d.compressed_size) + w.subrange(24, 46));
    lemma_le32_at(h8, d.compressed_size, w.subrange(24, 46));
    assert(w =~= h9 + le32(d.uncompressed_size) + w.subrange(28, 46));
    lemma_le32_at(h9, d.uncompressed_size, w.subrange(28, 46));
    assert(w =~= h10 + le16(name_bytes(d.file_name).len() as u16) + w.subrange(30, 46));
    lemma_le16_at(h10, name_bytes(d.file_name).len() as u16, w.subrange(30, 46));
    assert(w =~= h11 + le16(run_size(d.extra_fields, true) as u16) + w.subrange(32, 46));
    lemma_le16_at(h11, run_size(d.extra_fields, true) as u16, w.subrange(32, 46));
    assert(w =~= h12 + le16(d.file_comment.len() as u16) + w.subrange(34, 46));
    lemma_le16_at(h12, d.file_comment.len() as u16, w.subrange(34, 46));
    assert(w =~= h13 + le16(d.number_of_starts) + w.subrange(36, 46));
    lemma_le16_at(h13, d.number_of_starts, w.subrange(36, 46));
    assert(w =~= h14 + le16(d.internal_file_attributes) + w.subrange(38, 46));
    lemma_le16_at(h14, d.internal_file_attributes, w.subrange(38, 46));
    assert(w =~= h15 + le32(d.external_file_attributes) + w.subrange(42, 46));
    lemma_le32_at(h15, d.external_file_attributes, w.subrange(42, 46));
    assert(w =~= h16 + le32(d.offset_of_local_file_header) + e0);
    lemma_le32_at(h16, d.offset_of_local_file_header, e0);
}

/// The record of an entry is made of its parts, and as long as they are.
pub proof fn lemma_wire_parts(d: DirectoryView)
    ensures
        d.wire() == d.fixed_wire() + (name_bytes(d.file_name) + (run_wire(d.extra_fields, true)
            + d.file_comment)),
        d.wire().len() == d.wire_len(),
        d.fixed_wire().len() == DIRECTORY_HEADER_SIZE,
        run_wire(d.extra_fields, true).len() == run_size(d.extra_fields, true),
{
    reveal(DirectoryView::wire);
    lemma_fixed_fields(d);
    crate::extra::lemma_run_wire_len(d.extra_fields, true);
    assert(d.wire() =~= d.fixed_wire() + (name_bytes(d.file_name) + (run_wire(
        d.extra_fields,
        true,
    ) + d.file_comment)));
}

/// What a reader finds in the fixed part of the record that stands at `p`.
proof fn lemma_record_fields(s: Seq<u8>, p: int, d: DirectoryView)
    requires
        0 <= p,
        p + d.wire_len() <= s.len(),
        s.subrange(p, p + d.wire_len()) == d.wire(),
    ensures
        avail(s, p, DIRECTORY_HEADER_SIZE as int),
        u32_at(s, p) == DIRECTORY_MAGIC,
        u16_at(s, p + 4) == d.version,
        u16_at(s, p + 6) == d.min_version,
        u16_at(s, p + 8) == d.flags,
        u16_at(s, p + 10) == d.compression_method.value(),
        u16_at(s, p + 12) == d.last_modification_time,
        u16_at(s, p + 14) == d.last_modification_date,
        u32_at(s, p + 16) == d.crc_32_uncompressed_data,
        u32_at(s, p + 20) == d.compressed_size,
        u32_at(s, p + 24) == d.uncompressed_size,
        u16_at(s, p + 28) == name_bytes(d.file_name).len() as u16,
        u16_at(s, p + 30) == run_size(d.extra_fields, true) as u16,
        u16_at(s, p + 32) == d.file_comment.len() as u16,
        u16_at(s, p + 34) == d.number_of_starts,
        u16_at(s, p + 36) == d.internal_file_attributes,
        u32_at(s, p + 38) == d.external_file_attributes,
        u32_at(s, p + 42) == d.offset_of_local_file_header,
{
    let fixed = d.fixed_wire();
    let rest = name_bytes(d.file_name) + (run_wire(d.extra_fields, true) + d.file_comment);
    lemma_wire_parts(d);
    lemma_fixed_fields(d);
    crate::le::lemma_found(s, p, d.wire());
    let pre = s.take(p);
    let post = s.skip(p + d.wire().len());
    crate::le::lemma_part(pre, fixed, rest, post);
    let tail = rest + post;
    crate::le::lemma_u32_embedded(pre, fixed, tail, 0);
    crate::le::lemma_u16_embedded(pre, fixed, tail, 4);
    crate::le::lemma_u16_embedded(pre, fixed, tail, 6);
    crate::le::lemma_u16_embedded(pre, fixed, tail, 8);
    crate::le::lemma_u16_embedded(pre, fixed, tail, 10);
    crate::le::lemma_u16_embedded(pre, fixed, tail, 12);
    crate::le::lemma_u16_embedded(pre, fixed, tail, 14);
    crate::le::lemma_u32_embedded(pre, fixed, tail, 16);
    crate::le::lemma_u32_embedded(pre, fixed, tail, 20);
    crate::le::lemma_u32_embedded(pre, fixed, tail, 24);
    crate::le::lemma_u16_embedded(pre, fixed, tail, 28);
    crate::le::lemma_u16_embedded(pre, fixed, tail, 30);
    crate::le::lemma_u16_embedded(pre, fixed, tail, 32);
    crate::le::lemma_u16_embedded(pre, fixed, tail, 34);
    crate::le::lemma_u16_embedded(pre, fixed, tail, 36);
    crate::le::lemma_u32_embedded(pre, fixed, tail, 38);
    crate::le::lemma_u32_embedded(pre, fixed, tail, 42);
}

/// What a reader finds behind the fixed part of the record that stands at
/// `p`: the name, the extra fields and the comment.
proof fn lemma_record_parts(s: Seq<u8>, p: int, d: DirectoryView)
    requires
        0 <= p,
        p + d.wire_len() <= s.len(),
        s.subrange(p, p + d.wire_len()) == d.wire(),
    ensures
        ({
            let name_at = p + DIRECTORY_HEADER_SIZE;
            let extras_at = name_at + name_bytes(d.file_name).len();
            let comment_at = extras_at + run_size(d.extra_fields, true);
            &&& s.subrange(name_at, extras_at) == name_bytes(d.file_name)
            &&& decode_run_at(s, extras_at, comment_at) == Ok::<Seq<Extra>, ZipError>(
                crate::extra::run_as_written(d.extra_fields, true),
            )
            &&& s.subrange(comment_at, comment_at + d.file_comment.len()) == d.file_comment
            &&& comment_at + d.file_comment.len() == p + d.wire_len()
        }),
{
    let fixed = d.fixed_wire();
    let name = name_bytes(d.file_name);
    let run = run_wire(d.extra_fields, true);
    let comment = d.file_comment;
    lemma_wire_parts(d);
    crate::le::lemma_found(s, p, d.wire());
    let pre = s.take(p);
    let post = s.skip(p + d.wire().len());
    crate::le::lemma_part(pre, fixed, name + (run + comment), post);
    crate::le::lemma_part(pre + fixed, name, run + comment, post);
    crate::le::lemma_placed(pre + fixed, name, run + comment + post);
    crate::le::lemma_part(pre + fixed + name, run, comment, post);
    crate::extra::lemma_run_round_trip(pre + fixed + name, d.extra_fields, true, comment + post);
    crate::le::lemma_placed(pre + fixed + name + run, comment, post);
}

/// An entry is read back as it was written: from a buffer that holds the
/// entry's own record at `p`, and the entry's local file header and payload
/// at the offset that the entry names, a reader gets the entry as it stands
/// on the wire and ends behind the record.
pub proof fn lemma_entry_round_trip(s: Seq<u8>, p: int, d: DirectoryView)
    requires
        d.fits(),
        d.file.fits(),
        d.compressed_size == d.data.len(),
        0 <= p,
        p + d.wire_len() <= s.len(),
        s.subrange(p, p + d.wire_len()) == d.wire(),
        d.offset_of_local_file_header + d.file.header_len() + d.data.len() <= s.len(),
        s.subrange(
            d.offset_of_local_file_header as int,
            d.offset_of_local_file_header + d.file.header_len() + d.data.len(),
        ) == d.file.header_wire() + d.data,
    ensures
        decode_at(s, p) == Ok::<(DirectoryView, int), ZipError>((d.as_read(), p + d.wire_len())),
{
    lemma_record_fields(s, p, d);
    lemma_record_parts(s, p, d);
    lemma_local_read(s, d);
    crate::text::lemma_name_round_trip(d.file_name);
    CompressionType::lemma_number_round_trip(d.compression_method, 0);
    reveal(decode_at);
}

/// What a reader finds at the offset that an entry names: the local file
/// header, and the payload behind it.
proof fn lemma_local_read(s: Seq<u8>, d: DirectoryView)
    requires
        d.file.fits(),
        d.offset_of_local_file_header + d.file.header_len() + d.data.len() <= s.len(),
        s.subrange(
            d.offset_of_local_file_header as int,
            d.offset_of_local_file_header + d.file.header_len() + d.data.len(),
        ) == d.file.header_wire() + d.data,
    ensures
        crate::zip_file::decode_at(s, d.offset_of_local_file_header as int) == Ok::<
            ZipFileView,
            ZipError,
        >(d.file.as_read(d.offset_of_local_file_header as int)),
        s.subrange(
            d.offset_of_local_file_header + d.file.header_len(),
            d.offset_of_local_file_header + d.file.header_len() + d.data.len(),
        ) == d.data,
{
    let off = d.offset_of_local_file_header as int;
    let header = d.file.header_wire();
    crate::zip_file::lemma_header_round_trip(Seq::empty(), d.file, Seq::empty());
    crate::le::lemma_found(s, off, header + d.data);
    let pre = s.take(off);
    let post = s.skip(off + (header + d.data).len());
    crate::le::lemma_part(pre, header, d.data, post);
    crate::zip_file::lemma_header_round_trip(pre, d.file, d.data + post);
    crate::le::lemma_placed(pre + header, d.data, post);
}

} // verus!
