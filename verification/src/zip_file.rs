//! Local file headers: the record that precedes each payload, and the data
//! descriptor that may follow it.

use crate::directory::CompressionType;
use crate::error::ZipError;
use crate::extra::{
    add_run_size, decode_run, decode_run_at, encode_run, run_length, run_size, run_wire, Extra,
};
use crate::le::{
    avail, le16, le32, lemma_embedded, lemma_le16_at, lemma_le32_at, lemma_part, put_bytes,
    put_u16, put_u32, put_u8, read_bytes, read_u16, read_u32, u16_at, u32_at,
};
use crate::magic::Magic;
use crate::text::{is_name, name_bytes, name_of, string_from_utf8};
use crate::zip::Parser;
use vstd::prelude::*;
use vstd::slice::slice_to_vec;
use vstd::string::StringSliceAdditionalSpecFns;

verus! {

/// The signature of a local file header as a number.
pub const FILE_MAGIC: u32 = 0x04034b50;

/// The bytes of a local file header before its name.
pub const ZIP_FILE_HEADER_SIZE: usize = 30;

/// The flag bit that announces a data descriptor behind the payload.
pub const STREAMING_FLAG: u16 = 0x0008;

/// The flag bit was set in `flags`.
pub open spec fn is_streaming(flags: u16) -> bool {
    flags / 8 % 2 == 1
}

/// Checksum and sizes of a payload that was written before they were known.
#[derive(Debug, Clone, Copy, PartialEq, Eq, Structural)]
pub struct DataDescriptor {
    pub crc32: u32,
    pub compressed_size: u32,
    pub uncompressed_size: u32,
}

impl DataDescriptor {
    /// The descriptor on the wire: its signature `50 4B 07 08`, then the
    /// three fields.
    pub open spec fn wire(self) -> Seq<u8> {
        seq![0x50u8, 0x4Bu8, 0x07u8, 0x08u8] + le32(self.crc32) + le32(self.compressed_size) + le32(
            self.uncompressed_size,
        )
    }

    /// The descriptor whose 16 bytes start at `p`. The signature is passed
    /// over, not tested.
    pub open spec fn decode_at(s: Seq<u8>, p: int) -> Result<(DataDescriptor, int), ZipError> {
        if !avail(s, p, 16) {
            Err(ZipError::UnexpectedEnd)
        } else {
            Ok(
                (
                    DataDescriptor {
                        crc32: u32_at(s, p + 4),
                        compressed_size: u32_at(s, p + 8),
                        uncompressed_size: u32_at(s, p + 12),
                    },
                    p + 16,
                ),
            )
        }
    }

    /// The bytes of a descriptor on the wire.
    pub fn size() -> (n: usize)
        ensures
            n == 16,
    {
        4 * 4
    }

    /// Appends the descriptor.
    pub fn encode(&self, out: &mut Vec<u8>)
        ensures
            final(out)@ == old(out)@ + self.wire(),
            self.wire().len() == 16,
    {
        put_u8(out, 0x50);
        put_u8(out, 0x4B);
        put_u8(out, 0x07);
        put_u8(out, 0x08);
        put_u32(out, self.crc32);
        put_u32(out, self.compressed_size);
        put_u32(out, self.uncompressed_size);
        assert(out@ =~= old(out)@ + self.wire());
    }

    /// Reads the descriptor that starts at `pos` and returns it with the
    /// position behind it.
    pub fn decode(data: &[u8], pos: usize) -> (r: Result<(DataDescriptor, usize), ZipError>)
        ensures
            crate::extra::agrees(r, DataDescriptor::decode_at(data@, pos as int)),
    {
        if pos > data.len() || data.len() - pos < 16 {
            return Err(ZipError::UnexpectedEnd);
        }
        let crc32: u32 = read_u32(data, pos + 4)?;
        let compressed_size: u32 = read_u32(data, pos + 8)?;
        let uncompressed_size: u32 = read_u32(data, pos + 12)?;
        Ok((DataDescriptor { crc32, compressed_size, uncompressed_size }, pos + 16))
    }
}

/// A local file header. `file_name_length` and `extra_field_length` are what
/// was read or last laid out; on the wire the lengths are always those of
/// `file_name` and `extra_fields` as they stand.
#[derive(Debug, Clone)]
pub struct ZipFile<TYPE> {
    pub kind: TYPE,
    pub min_version: u16,
    pub flags: u16,
    pub compression_method: CompressionType,
    pub last_modification_time: u16,
    pub last_modification_date: u16,
    pub crc_32_uncompressed_data: u32,
    pub compressed_size: u32,
    pub uncompressed_size: u32,
    pub file_name_length: u16,
    pub extra_field_length: u16,
    pub file_name: String,
    pub extra_fields: Vec<Extra>,
    pub data_descriptor: Option<DataDescriptor>,
    /// Where the payload began in the input that the header was read from.
    pub data_position: u64,
}

/// What a local file header holds.
pub struct ZipFileView {
    pub min_version: u16,
    pub flags: u16,
    pub compression_method: CompressionType,
    pub last_modification_time: u16,
    pub last_modification_date: u16,
    pub crc_32_uncompressed_data: u32,
    pub compressed_size: u32,
    pub uncompressed_size: u32,
    pub file_name_length: u16,
    pub extra_field_length: u16,
    pub file_name: Seq<char>,
    pub extra_fields: Seq<Extra>,
    pub data_descriptor: Option<DataDescriptor>,
    pub data_position: u64,
}

impl<TYPE> View for ZipFile<TYPE> {
    type V = ZipFileView;

    open spec fn view(&self) -> ZipFileView {
        ZipFileView {
            min_version: self.min_version,
            flags: self.flags,
            compression_method: self.compression_method,
            last_modification_time: self.last_modification_time,
            last_modification_date: self.last_modification_date,
            crc_32_uncompressed_data: self.crc_32_uncompressed_data,
            compressed_size: self.compressed_size,
            uncompressed_size: self.uncompressed_size,
            file_name_length: self.file_name_length,
            extra_field_length: self.extra_field_length,
            file_name: self.file_name@,
            extra_fields: self.extra_fields@,
            data_descriptor: self.data_descriptor,
            data_position: self.data_position,
        }
    }
}

impl ZipFileView {
    /// Name and extra fields are short enough for their 16-bit length fields.
    pub open spec fn fits(self) -> bool {
        &&& name_bytes(self.file_name).len() <= u16::MAX
        &&& run_size(self.extra_fields, false) <= u16::MAX
    }

    /// The 30 bytes before the name, with the lengths of name and extra
    /// fields as they stand.
    #[verifier::opaque]
    pub open spec fn fixed_wire(self) -> Seq<u8> {
        le32(FILE_MAGIC) + le16(self.min_version) + le16(self.flags) + le16(
            self.compression_method.value(),
        ) + le16(self.last_modification_time) + le16(self.last_modification_date) + le32(
            self.crc_32_uncompressed_data,
        ) + le32(self.compressed_size) + le32(self.uncompressed_size) + le16(
            name_bytes(self.file_name).len() as u16,
        ) + le16(run_size(self.extra_fields, false) as u16)
    }

    /// The header on the wire: fixed part, name, extra fields.
    pub open spec fn header_wire(self) -> Seq<u8> {
        self.fixed_wire() + name_bytes(self.file_name) + run_wire(self.extra_fields, false)
    }

    /// The bytes that the header takes on the wire.
    pub open spec fn header_len(self) -> nat {
        ZIP_FILE_HEADER_SIZE as nat + name_bytes(self.file_name).len() + run_size(
            self.extra_fields,
            false,
        )
    }

    /// The header as a reader finds it at `at`: with the lengths of what it
    /// holds, no data descriptor, and the payload behind it.
    pub open spec fn as_read(self, at: int) -> ZipFileView {
        ZipFileView {
            file_name_length: name_bytes(self.file_name).len() as u16,
            extra_field_length: run_size(self.extra_fields, false) as u16,
            data_descriptor: None,
            data_position: (at + self.header_len()) as u64,
            ..self
        }
    }

    /// The data descriptor on the wire, where the header holds one.
    pub open spec fn descriptor_wire(self) -> Seq<u8> {
        match self.data_descriptor {
            Some(d) => d.wire(),
            None => Seq::empty(),
        }
    }

    /// Header and data descriptor on the wire.
    pub open spec fn wire(self) -> Seq<u8> {
        self.header_wire() + self.descriptor_wire()
    }

    /// The bytes that header and data descriptor take, with the extra fields
    /// counted as the given context encodes them.
    pub open spec fn size(self, center: bool) -> nat {
        ZIP_FILE_HEADER_SIZE as nat + name_bytes(self.file_name).len() + run_size(
            self.extra_fields,
            center,
        ) + if self.data_descriptor is Some {
            16nat
        } else {
            0nat
        }
    }
}

/// The header that starts at `p`. Its `data_position` is the position behind
/// it; it holds no data descriptor.
#[verifier::opaque]
pub open spec fn decode_at(s: Seq<u8>, p: int) -> Result<ZipFileView, ZipError> {
    if !avail(s, p, 4) {
        Err(ZipError::UnexpectedEnd)
    } else if u32_at(s, p) != FILE_MAGIC {
        Err(ZipError::BadMagic)
    } else if !avail(s, p, ZIP_FILE_HEADER_SIZE as int) {
        Err(ZipError::UnexpectedEnd)
    } else {
        let name_len = u16_at(s, p + 26);
        let extra_len = u16_at(s, p + 28);
        let name_at = p + ZIP_FILE_HEADER_SIZE;
        let extras_at = name_at + name_len;
        match CompressionType::of(u16_at(s, p + 8)) {
            None => Err(ZipError::UnsupportedCompression(u16_at(s, p + 8))),
            Some(method) => if !avail(s, name_at, name_len as int) {
                Err(ZipError::UnexpectedEnd)
            } else if !is_name(s.subrange(name_at, extras_at)) {
                Err(ZipError::InvalidName)
            } else {
                match decode_run_at(s, extras_at, extras_at + extra_len) {
                    Err(e) => Err(e),
                    Ok(extras) => Ok(
                        ZipFileView {
                            min_version: u16_at(s, p + 4),
                            flags: u16_at(s, p + 6),
                            compression_method: method,
                            last_modification_time: u16_at(s, p + 10),
                            last_modification_date: u16_at(s, p + 12),
                            crc_32_uncompressed_data: u32_at(s, p + 14),
                            compressed_size: u32_at(s, p + 18),
                            uncompressed_size: u32_at(s, p + 22),
                            file_name_length: name_len,
                            extra_field_length: extra_len,
                            file_name: name_of(s.subrange(name_at, extras_at)),
                            extra_fields: extras,
                            data_descriptor: None,
                            data_position: (extras_at + extra_len) as u64,
                        },
                    ),
                }
            },
        }
    }
}

impl ZipFile<Parser> {
    /// The bytes that header and data descriptor take, with the extra fields
    /// counted as the given context encodes them.
    pub fn size(&self, center: bool) -> (n: usize)
        requires
            self@.size(center) <= usize::MAX,
        ensures
            n == self@.size(center),
    {
        let name_len: usize = self.file_name.as_str().as_bytes().len();
        let bytes: usize = add_run_size(ZIP_FILE_HEADER_SIZE + name_len, &self.extra_fields, center);
        if self.data_descriptor.is_some() {
            bytes + DataDescriptor::size()
        } else {
            bytes
        }
    }

    /// A copy of the header.
    pub fn copy(&self) -> (r: ZipFile<Parser>)
        ensures
            r@ == self@,
    {
        ZipFile {
            kind: Parser,
            min_version: self.min_version,
            flags: self.flags,
            compression_method: self.compression_method,
            last_modification_time: self.last_modification_time,
            last_modification_date: self.last_modification_date,
            crc_32_uncompressed_data: self.crc_32_uncompressed_data,
            compressed_size: self.compressed_size,
            uncompressed_size: self.uncompressed_size,
            file_name_length: self.file_name_length,
            extra_field_length: self.extra_field_length,
            file_name: self.file_name.clone(),
            extra_fields: slice_to_vec(self.extra_fields.as_slice()),
            data_descriptor: self.data_descriptor,
            data_position: self.data_position,
        }
    }

    /// Appends the header without its data descriptor. Name and extra fields
    /// that are too long for their length fields are refused, and nothing is
    /// appended.
    pub fn encode_header(&self, out: &mut Vec<u8>) -> (r: Result<(), ZipError>)
        ensures
            r is Ok <==> self@.fits(),
            r is Ok ==> final(out)@ == old(out)@ + self@.header_wire(),
            r matches Err(e) ==> e == ZipError::TooLarge && final(out)@ == old(out)@,
    {
        let name: &[u8] = self.file_name.as_str().as_bytes();
        if name.len() > u16::MAX as usize {
            return Err(ZipError::TooLarge);
        }
        let extra_len: u16 = match run_length(&self.extra_fields, false) {
            Some(n) => n,
            None => {
                return Err(ZipError::TooLarge);
            },
        };
        put_u32(out, Magic::File.number());
        put_u16(out, self.min_version);
        put_u16(out, self.flags);
        put_u16(out, self.compression_method.number());
        put_u16(out, self.last_modification_time);
        put_u16(out, self.last_modification_date);
        put_u32(out, self.crc_32_uncompressed_data);
        put_u32(out, self.compressed_size);
        put_u32(out, self.uncompressed_size);
        put_u16(out, name.len() as u16);
        put_u16(out, extra_len);
        assert(out@ =~= old(out)@ + self@.fixed_wire()) by {
            reveal(ZipFileView::fixed_wire);
        }
        put_bytes(out, name);
        encode_run(&self.extra_fields, false, out);
        assert(out@ =~= old(out)@ + self@.header_wire());
        Ok(())
    }

    /// Appends the header and, where it holds one, its data descriptor.
    pub fn encode(&self, out: &mut Vec<u8>) -> (r: Result<(), ZipError>)
        ensures
            r is Ok <==> self@.fits(),
            r is Ok ==> final(out)@ == old(out)@ + self@.wire(),
            r matches Err(e) ==> e == ZipError::TooLarge && final(out)@ == old(out)@,
    {
        self.encode_header(out)?;
        if let Some(d) = &self.data_descriptor {
            d.encode(out);
        }
        assert(out@ =~= old(out)@ + self@.wire());
        Ok(())
    }

    /// Reads the header that starts at `pos`. The payload begins at the
    /// `data_position` of the header returned.
    pub fn decode(data: &[u8], pos: usize) -> (r: Result<ZipFile<Parser>, ZipError>)
        ensures
            r matches Ok(f) ==> decode_at(data@, pos as int) == Ok::<ZipFileView, ZipError>(f@),
            r matches Err(e) ==> decode_at(data@, pos as int) == Err::<ZipFileView, ZipError>(e),
    {
        reveal(decode_at);
        match Magic::from_number(read_u32(data, pos)?) {
            Some(Magic::File) => {},
            _ => {
                return Err(ZipError::BadMagic);
            },
        }
        if data.len() - pos < ZIP_FILE_HEADER_SIZE {
            return Err(ZipError::UnexpectedEnd);
        }
        let min_version: u16 = read_u16(data, pos + 4)?;
        let flags: u16 = read_u16(data, pos + 6)?;
        let method_number: u16 = read_u16(data, pos + 8)?;
        let last_modification_time: u16 = read_u16(data, pos + 10)?;
        let last_modification_date: u16 = read_u16(data, pos + 12)?;
        let crc_32_uncompressed_data: u32 = read_u32(data, pos + 14)?;
        let compressed_size: u32 = read_u32(data, pos + 18)?;
        let uncompressed_size: u32 = read_u32(data, pos + 22)?;
        let file_name_length: u16 = read_u16(data, pos + 26)?;
        let extra_field_length: u16 = read_u16(data, pos + 28)?;
        let compression_method: CompressionType = match CompressionType::from_number(
            method_number,
        ) {
            Some(m) => m,
            None => {
                return Err(ZipError::UnsupportedCompression(method_number));
            },
        };
        let name_at: usize = pos + ZIP_FILE_HEADER_SIZE;
        let name: Vec<u8> = read_bytes(data, name_at, file_name_length as usize)?;
        let file_name: String = match string_from_utf8(name) {
            Some(s) => s,
            None => {
                return Err(ZipError::InvalidName);
            },
        };
        let extras_at: usize = name_at + file_name_length as usize;
        let extra_fields: Vec<Extra> = decode_run(data, extras_at, extra_field_length)?;
        proof {
            crate::extra::lemma_run_ends_within(
                data@,
                extras_at as int,
                extras_at + extra_field_length,
            );
        }
        Ok(
            ZipFile {
                kind: Parser,
                min_version,
                flags,
                compression_method,
                last_modification_time,
                last_modification_date,
                crc_32_uncompressed_data,
                compressed_size,
                uncompressed_size,
                file_name_length,
                extra_field_length,
                file_name,
                extra_fields,
                data_descriptor: None,
                data_position: (extras_at + extra_field_length as usize) as u64,
            },
        )
    }
}

/// The fixed part of a header holds the header's fields where a reader
/// looks for them.
pub proof fn lemma_fixed_fields(f: ZipFileView)
    ensures
        ({
            let w = f.fixed_wire();
            &&& w.len() == ZIP_FILE_HEADER_SIZE
            &&& u32_at(w, 0) == FILE_MAGIC
            &&& u16_at(w, 4) == f.min_version
            &&& u16_at(w, 6) == f.flags
            &&& u16_at(w, 8) == f.compression_method.value()
            &&& u16_at(w, 10) == f.last_modification_time
            &&& u16_at(w, 12) == f.last_modification_date
            &&& u32_at(w, 14) == f.crc_32_uncompressed_data
            &&& u32_at(w, 18) == f.compressed_size
            &&& u32_at(w, 22) == f.uncompressed_size
            &&& u16_at(w, 26) == name_bytes(f.file_name).len() as u16
            &&& u16_at(w, 28) == run_size(f.extra_fields, false) as u16
        }),
{
    reveal(ZipFileView::fixed_wire);
    let w = f.fixed_wire();
    let e0 = Seq::<u8>::empty();
    let f1 = le32(FILE_MAGIC);
    let f2 = f1 + le16(f.min_version);
    let f3 = f2 + le16(f.flags);
    let f4 = f3 + le16(f.compression_method.value());
    let f5 = f4 + le16(f.last_modification_time);
    let f6 = f5 + le16(f.last_modification_date);
    let f7 = f6 + le32(f.crc_32_uncompressed_data);
    let f8 = f7 + le32(f.compressed_size);
    let f9 = f8 + le32(f.uncompressed_size);
    let f10 = f9 + le16(name_bytes(f.file_name).len() as u16);
    assert(w.len() == 30);
    assert(w =~= e0 + le32(FILE_MAGIC) + w.subrange(4, 30));
    lemma_le32_at(e0, FILE_MAGIC, w.subrange(4, 30));
    assert(w =~= f1 + le16(f.min_version) + w.subrange(6, 30));
    lemma_le16_at(f1, f.min_version, w.subrange(6, 30));
    assert(w =~= f2 + le16(f.flags) + w.subrange(8, 30));
    lemma_le16_at(f2, f.flags, w.subrange(8, 30));
    assert(w =~= f3 + le16(f.compression_method.value()) + w.subrange(10, 30));
    lemma_le16_at(f3, f.compression_method.value(), w.subrange(10, 30));
    assert(w =~= f4 + le16(f.last_modification_time) + w.subrange(12, 30));
    lemma_le16_at(f4, f.last_modification_time, w.subrange(12, 30));
    assert(w =~= f5 + le16(f.last_modification_date) + w.subrange(14, 30));
    lemma_le16_at(f5, f.last_modification_date, w.subrange(14, 30));
    assert(w =~= f6 + le32(f.crc_32_uncompressed_data) + w.subrange(18, 30));
    lemma_le32_at(f6, f.crc_32_uncompressed_data, w.subrange(18, 30));
    assert(w =~= f7 + le32(f.compressed_size) + w.subrange(22, 30));
    lemma_le32_at(f7, f.compressed_size, w.subrange(22, 30));
    assert(w =~= f8 + le32(f.uncompressed_size) + w.subrange(26, 30));
    lemma_le32_at(f8, f.uncompressed_size, w.subrange(26, 30));
    assert(w =~= f9 + le16(name_bytes(f.file_name).len() as u16) + w.subrange(28, 30));
    lemma_le16_at(f9, name_bytes(f.file_name).len() as u16, w.subrange(28, 30));
    assert(w =~= f10 + le16(run_size(f.extra_fields, false) as u16) + e0);
    lemma_le16_at(f10, run_size(f.extra_fields, false) as u16, e0);
}

/// A header takes on the wire the bytes that `header_len` gives, and starts
/// with its signature.
pub proof fn lemma_header_len(f: ZipFileView)
    ensures
        f.header_wire().len() == f.header_len(),
        f.header_wire().subrange(0, 4) == le32(FILE_MAGIC),
{
    reveal(ZipFileView::fixed_wire);
    crate::extra::lemma_run_wire_len(f.extra_fields, false);
    assert(f.header_wire().subrange(0, 4) =~= le32(FILE_MAGIC));
}

/// A header written after `pre` is read back as it was written: every
/// field, the name, and the extra fields.
pub proof fn lemma_header_round_trip(pre: Seq<u8>, f: ZipFileView, post: Seq<u8>)
    requires
        f.fits(),
    ensures
        f.header_wire().len() == f.header_len(),
        decode_at(pre + f.header_wire() + post, pre.len() as int) == Ok::<ZipFileView, ZipError>(
            f.as_read(pre.len() as int),
        ),
{
    let fixed = f.fixed_wire();
    let name = name_bytes(f.file_name);
    let run = run_wire(f.extra_fields, false);
    let s = pre + f.header_wire() + post;
    let p = pre.len() as int;
    lemma_fixed_fields(f);
    crate::extra::lemma_run_wire_len(f.extra_fields, false);
    assert(f.header_wire() =~= fixed + (name + run));
    lemma_part(pre, fixed, name + run, post);
    lemma_embedded(pre, fixed, name + run + post);
    assert(u32_at(s, p) == u32_at(fixed, 0));
    assert(u16_at(s, p + 4) == u16_at(fixed, 4));
    assert(u16_at(s, p + 6) == u16_at(fixed, 6));
    assert(u16_at(s, p + 8) == u16_at(fixed, 8));
    assert(u16_at(s, p + 10) == u16_at(fixed, 10));
    assert(u16_at(s, p + 12) == u16_at(fixed, 12));
    assert(u32_at(s, p + 14) == u32_at(fixed, 14));
    assert(u32_at(s, p + 18) == u32_at(fixed, 18));
    assert(u32_at(s, p + 22) == u32_at(fixed, 22));
    assert(u16_at(s, p + 26) == u16_at(fixed, 26));
    assert(u16_at(s, p + 28) == u16_at(fixed, 28));
    lemma_part(pre + fixed, name, run, post);
    assert(s.subrange(p + 30, p + 30 + name.len()) =~= name);
    crate::text::lemma_name_round_trip(f.file_name);
    crate::extra::lemma_run_round_trip(pre + fixed + name, f.extra_fields, false, post);
    crate::extra::lemma_run_kept(f.extra_fields);
    CompressionType::lemma_number_round_trip(f.compression_method, 0);
    assert(crate::extra::decode_run_at(
        s,
        p + 30 + name.len(),
        p + 30 + name.len() + run_size(f.extra_fields, false),
    ) == Ok::<Seq<Extra>, ZipError>(f.extra_fields));
    reveal(decode_at);
}

} // verus!
