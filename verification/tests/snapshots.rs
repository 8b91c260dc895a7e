use fast_zip::cache::{
    put_blob, put_extra_words, put_run, put_words, read_blob, read_run, read_words, take_extra,
};
use fast_zip::deflate::CompressionLevel;
use fast_zip::directory::{CompressionType, Directory};
use fast_zip::eocd::EoCd;
use fast_zip::error::ZipError;
use fast_zip::extra::Extra;
use fast_zip::zip::{Cache, Parser, Zip};
use fast_zip::zip_file::{DataDescriptor, ZipFile};

fn sample_archive() -> Zip<Parser> {
    let mut zip = Zip::create(b"what is left of the source".to_vec());
    zip.with_crc32(true);
    zip.with_compression_level(CompressionLevel::BestCompression);
    zip.write_clear = false;
    zip.add_file(b"some text, some text, some text".to_vec(), "docs/text.txt").unwrap();
    zip.add_folder("docs/").unwrap();
    zip.add_file((0..=255u8).collect(), "bytes.bin").unwrap();
    zip.add_file(vec![], "ünïcödé").unwrap();
    {
        let e = zip.get_mut("bytes.bin").unwrap();
        e.file_comment = b"a comment".to_vec();
        e.extra_fields.push(Extra::NTFS { mtime: 1, atime: u64::MAX, ctime: 3 });
        e.extra_fields.push(Extra::UnixExtendedTimestamp {
            mtime: None,
            atime: Some(-5),
            ctime: Some(i32::MIN),
        });
        e.file.data_position = u64::MAX;
        e.number_of_starts = 9;
    }
    {
        let e = zip.get_mut("docs/text.txt").unwrap();
        e.exec(true, &CompressionLevel::DefaultLevel, &mut |_| {}).unwrap();
    }
    zip.remove_file("docs/");
    zip
}

fn same_header<A, B>(a: &ZipFile<A>, b: &ZipFile<B>) {
    assert_eq!(a.min_version, b.min_version);
    assert_eq!(a.flags, b.flags);
    assert_eq!(a.compression_method, b.compression_method);
    assert_eq!(a.last_modification_time, b.last_modification_time);
    assert_eq!(a.last_modification_date, b.last_modification_date);
    assert_eq!(a.crc_32_uncompressed_data, b.crc_32_uncompressed_data);
    assert_eq!(a.compressed_size, b.compressed_size);
    assert_eq!(a.uncompressed_size, b.uncompressed_size);
    assert_eq!(a.file_name_length, b.file_name_length);
    assert_eq!(a.extra_field_length, b.extra_field_length);
    assert_eq!(a.file_name, b.file_name);
    assert_eq!(a.extra_fields, b.extra_fields);
    assert_eq!(a.data_descriptor, b.data_descriptor);
    assert_eq!(a.data_position, b.data_position);
}

fn same_entry<A, B>(a: &Directory<A>, b: &Directory<B>) {
    assert_eq!(a.data, b.data);
    assert_eq!(a.compressed, b.compressed);
    assert_eq!(a.version, b.version);
    assert_eq!(a.min_version, b.min_version);
    assert_eq!(a.flags, b.flags);
    assert_eq!(a.compression_method, b.compression_method);
    assert_eq!(a.last_modification_time, b.last_modification_time);
    assert_eq!(a.last_modification_date, b.last_modification_date);
    assert_eq!(a.crc_32_uncompressed_data, b.crc_32_uncompressed_data);
    assert_eq!(a.compressed_size, b.compressed_size);
    assert_eq!(a.uncompressed_size, b.uncompressed_size);
    assert_eq!(a.file_name_length, b.file_name_length);
    assert_eq!(a.extra_field_length, b.extra_field_length);
    assert_eq!(a.file_comment_length, b.file_comment_length);
    assert_eq!(a.number_of_starts, b.number_of_starts);
    assert_eq!(a.internal_file_attributes, b.internal_file_attributes);
    assert_eq!(a.external_file_attributes, b.external_file_attributes);
    assert_eq!(a.offset_of_local_file_header, b.offset_of_local_file_header);
    assert_eq!(a.file_name, b.file_name);
    assert_eq!(a.extra_fields, b.extra_fields);
    assert_eq!(a.file_comment, b.file_comment);
    same_header(&a.file, &b.file);
}

fn same_archive(a: &Zip<Parser>, b: &Zip<Parser>) {
    assert_eq!(a.size(), b.size());
    assert_eq!(a.stream, b.stream);
    assert_eq!(a.crc32_computer, b.crc32_computer);
    assert_eq!(a.eo_cd, b.eo_cd);
    assert_eq!(a.write_clear, b.write_clear);
    assert_eq!(a.compression_level, b.compression_level);
    assert_eq!(a.directories.len(), b.directories.len());
    for ((ka, va), (kb, vb)) in a.directories.iter().zip(b.directories.iter()) {
        assert_eq!(ka, kb);
        same_entry(va, vb);
    }
}

#[test]
fn words_and_blobs_on_the_wire() {
    let mut out = vec![0xEEu8];
    put_words(&mut out, &[1, 0x0102_0304_0506_0708]);
    put_blob(&mut out, b"abc");
    put_blob(&mut out, b"");
    assert_eq!(
        out,
        vec![
            0xEE, 1, 0, 0, 0, 0, 0, 0, 0, 8, 7, 6, 5, 4, 3, 2, 1, 3, 0, 0, 0, 0, 0, 0, 0, b'a',
            b'b', b'c', 0, 0, 0, 0, 0, 0, 0, 0,
        ]
    );
    assert_eq!(read_words(&out, 1, 2), Ok(vec![1, 0x0102_0304_0506_0708]));
    assert_eq!(read_words(&out, 1, 0), Ok(vec![]));
    assert_eq!(read_words(&out, 1, 5), Err(ZipError::UnexpectedEnd));
    assert_eq!(read_words(&out, 1, usize::MAX), Err(ZipError::UnexpectedEnd));
    assert_eq!(read_words(&out, 100, 0), Err(ZipError::UnexpectedEnd));
    assert_eq!(read_blob(&out, 17), Ok((b"abc".to_vec(), 28)));
    assert_eq!(read_blob(&out, 28), Ok((vec![], 36)));
    assert_eq!(read_blob(&out, 29), Err(ZipError::UnexpectedEnd));
    assert_eq!(read_blob(&out, 9), Err(ZipError::UnexpectedEnd));
}

#[test]
fn extras_in_a_snapshot() {
    let extras = vec![
        Extra::NTFS { mtime: 1, atime: 2, ctime: 3 },
        Extra::UnixExtendedTimestamp { mtime: Some(-1), atime: None, ctime: Some(7) },
        Extra::UnixAttrs { uid: 503, gid: u32::MAX },
    ];
    let mut words = vec![];
    for e in &extras {
        put_extra_words(&mut words, e);
    }
    assert_eq!(
        words,
        vec![
            0, 1, 2, 3, 0, 0, 0, 1, 1, 0xFFFF_FFFF, 0, 0, 1, 7, 2, 503, 0xFFFF_FFFF, 0, 0, 0, 0
        ]
    );
    for (i, e) in extras.iter().enumerate() {
        assert_eq!(take_extra(&words, i), Some(*e));
    }
    assert_eq!(take_extra(&[3, 0, 0, 0, 0, 0, 0], 0), None);
    assert_eq!(take_extra(&[1, 2, 0, 0, 0, 0, 0], 0), None);
    assert_eq!(take_extra(&[1, 1, 0x1_0000_0000, 0, 0, 0, 0], 0), None);
    assert_eq!(take_extra(&[2, 0x1_0000_0000, 0, 0, 0, 0, 0], 0), None);
    let mut out = vec![5u8];
    put_run(&mut out, &extras);
    assert_eq!(out.len(), 1 + 8 + 3 * 56);
    assert_eq!(read_run(&out, 1), Ok((extras, 1 + 8 + 3 * 56)));
    out[9] = 9;
    assert_eq!(read_run(&out, 1), Err(ZipError::InvalidCache));
    out[1] = 4;
    assert_eq!(read_run(&out, 1), Err(ZipError::UnexpectedEnd));
    out[1] = 0;
    assert_eq!(read_run(&out, 1), Ok((vec![], 9)));
    out[8] = 0xFF;
    assert_eq!(read_run(&out, 1), Err(ZipError::UnexpectedEnd));
}

#[test]
fn a_snapshot_gives_back_the_archive() {
    let zip = sample_archive();
    let twin = sample_archive();
    let bytes = zip.into_cache().into_bytes();
    let back = Zip::<Cache>::from_cache(bytes).unwrap().into_parser();
    same_archive(&back, &twin);
    let names: Vec<&str> = back.directories.keys().map(|k| k.as_str()).collect();
    assert_eq!(names, vec!["docs/text.txt", "bytes.bin", "ünïcödé"]);
}

#[test]
fn a_snapshot_of_a_parsed_archive_is_written_like_the_archive() {
    let mut zip = sample_archive();
    let mut first = vec![];
    zip.write(&mut first, &mut |_, _| {}).unwrap();
    let mut parsed = Zip::new(first.clone()).unwrap();
    let snapshot = Zip::new(first).unwrap().into_cache().into_bytes();
    let mut back = Zip::<Cache>::from_cache(snapshot).unwrap().into_parser();
    assert!(back.stream.is_none());
    same_archive(&back, &parsed);
    let mut direct = vec![];
    parsed.write(&mut direct, &mut |_, _| {}).unwrap();
    let mut restored = vec![];
    back.write(&mut restored, &mut |_, _| {}).unwrap();
    assert_eq!(restored, direct);
}

#[test]
fn a_snapshot_of_an_empty_archive() {
    let mut zip = Zip::create(vec![]);
    zip.stream = None;
    zip.eo_cd = None;
    zip.write_clear = true;
    zip.with_compression_level(CompressionLevel::DefaultCompression);
    let bytes = zip.into_cache().into_bytes();
    let mut expected = vec![];
    put_words(&mut expected, &[0, 0]);
    put_blob(&mut expected, b"");
    put_words(&mut expected, &[0, 0, 0, 0, 0, 0, 0, 0, 0, 1, 5, 0]);
    assert_eq!(bytes, expected);
    let back = Zip::<Cache>::from_cache(bytes).unwrap().into_parser();
    assert!(back.stream.is_none());
    assert!(back.eo_cd.is_none());
    assert!(back.write_clear);
    assert!(!back.crc32_computer);
    assert_eq!(back.compression_level, CompressionLevel::DefaultCompression);
    assert_eq!(back.len(), 0);
}

#[test]
fn every_level_and_flag_survives_a_snapshot() {
    for level in [
        CompressionLevel::NoCompression,
        CompressionLevel::BestSpeed,
        CompressionLevel::BestCompression,
        CompressionLevel::UberCompression,
        CompressionLevel::DefaultLevel,
        CompressionLevel::DefaultCompression,
    ] {
        for flag in [true, false] {
            let mut zip = Zip::create(vec![1, 2, 3]);
            zip.with_compression_level(level);
            zip.with_crc32(flag);
            zip.write_clear = !flag;
            zip.eo_cd = Some(EoCd {
                kind: Parser,
                number_of_disk: 1,
                directory_starts: 2,
                number_of_directory_disk: 3,
                entries: 4,
                size: 5,
                offset: u32::MAX,
                comment_length: u16::MAX,
            });
            let back =
                Zip::<Cache>::from_cache(zip.into_cache().into_bytes()).unwrap().into_parser();
            assert_eq!(back.compression_level, level);
            assert_eq!(back.crc32_computer, flag);
            assert_eq!(back.write_clear, !flag);
            assert_eq!(back.stream, Some(vec![1, 2, 3]));
            assert_eq!(back.size(), 3);
            let t = back.eo_cd.unwrap();
            assert_eq!(
                (
                    t.number_of_disk,
                    t.directory_starts,
                    t.number_of_directory_disk,
                    t.entries,
                    t.size,
                    t.offset,
                    t.comment_length
                ),
                (1, 2, 3, 4, 5, u32::MAX, u16::MAX)
            );
        }
    }
}

#[test]
fn a_truncated_snapshot_is_refused() {
    let bytes = sample_archive().into_cache().into_bytes();
    for cut in (0..bytes.len()).step_by(7) {
        assert_eq!(
            Zip::<Cache>::from_cache(bytes[..cut].to_vec()).err(),
            Some(ZipError::UnexpectedEnd)
        );
    }
    assert_eq!(
        Zip::<Cache>::from_cache(bytes[..bytes.len() - 1].to_vec()).err(),
        Some(ZipError::UnexpectedEnd)
    );
    let mut longer = bytes.clone();
    longer.extend_from_slice(b"ignored");
    assert!(Zip::<Cache>::from_cache(longer).is_ok());
}

#[test]
fn a_snapshot_with_a_field_out_of_range_is_refused() {
    let bytes = sample_archive().into_cache().into_bytes();
    let source_len = 26;
    let settings = 16 + 8 + source_len;
    for word in [0usize, 1, 2, 3, 4, 5, 6, 7, 8, 9, 10] {
        let mut bad = bytes.clone();
        bad[settings + 8 * word + 7] = 1;
        assert_eq!(Zip::<Cache>::from_cache(bad).err(), Some(ZipError::InvalidCache));
    }
    let mut bad = bytes.clone();
    bad[settings + 80] = 6;
    assert_eq!(Zip::<Cache>::from_cache(bad).err(), Some(ZipError::InvalidCache));
    let mut bad = bytes.clone();
    bad[8] = 2;
    assert_eq!(Zip::<Cache>::from_cache(bad).err(), Some(ZipError::InvalidCache));
    let mut bad = bytes.clone();
    let first_name = settings + 96 + 8;
    assert_eq!(&bad[first_name..first_name + 4], b"docs");
    bad[first_name] = 0xFF;
    assert_eq!(Zip::<Cache>::from_cache(bad).err(), Some(ZipError::InvalidName));
}

#[test]
fn a_snapshot_that_counts_more_entries_than_it_holds_is_refused() {
    let mut zip = Zip::create(vec![]);
    zip.add_folder("only").unwrap();
    let bytes = zip.into_cache().into_bytes();
    let count_at = 16 + 8 + 88;
    assert_eq!(bytes[count_at], 1);
    let mut more = bytes.clone();
    more[count_at] = 2;
    assert_eq!(Zip::<Cache>::from_cache(more).err(), Some(ZipError::UnexpectedEnd));
    let mut many = bytes.clone();
    for i in 0..8 {
        many[count_at + i] = 0xFF;
    }
    assert_eq!(Zip::<Cache>::from_cache(many).err(), Some(ZipError::UnexpectedEnd));
    let mut none = bytes.clone();
    none[count_at] = 0;
    assert_eq!(Zip::<Cache>::from_cache(none).unwrap().into_parser().len(), 0);
    let mut twice = bytes.clone();
    twice[count_at] = 2;
    let pair = bytes[count_at + 8..].to_vec();
    twice.extend_from_slice(&pair);
    let back = Zip::<Cache>::from_cache(twice).unwrap().into_parser();
    assert_eq!(back.len(), 1);
    assert!(back.get("only").is_some());
}

#[test]
fn an_entry_in_a_snapshot() {
    let zip = sample_archive();
    let entry = zip.get("bytes.bin").unwrap().clone_all().into_cache();
    let mut out = vec![0u8; 2];
    entry.encode(&mut out);
    let (back, next) = Directory::<Cache>::decode(&out, 2).unwrap();
    assert_eq!(next, out.len());
    same_entry(&back, &entry);
    same_entry(&back.to_parser(), zip.get("bytes.bin").unwrap());
    let mut bad = out.clone();
    bad[2 + 8 + 256 + 7] = 1;
    assert_eq!(Directory::<Cache>::decode(&bad, 2).err(), Some(ZipError::InvalidCache));
    let mut bad = out.clone();
    bad[2 + 8 + 256 + 8 * 4] = 2;
    assert_eq!(Directory::<Cache>::decode(&bad, 2).err(), Some(ZipError::InvalidCache));
}

#[test]
fn a_header_in_a_snapshot() {
    let header: ZipFile<Parser> = ZipFile {
        kind: Parser,
        min_version: 1,
        flags: 2,
        compression_method: CompressionType::LZMA,
        last_modification_time: 3,
        last_modification_date: 4,
        crc_32_uncompressed_data: 5,
        compressed_size: 6,
        uncompressed_size: 7,
        file_name_length: 8,
        extra_field_length: 9,
        file_name: "n".to_string(),
        extra_fields: vec![],
        data_descriptor: Some(DataDescriptor {
            crc32: 10,
            compressed_size: 11,
            uncompressed_size: 12,
        }),
        data_position: 13,
    };
    let cached = header.into_cache();
    let mut out = vec![];
    cached.encode(&mut out);
    let mut expected = vec![];
    put_words(&mut expected, &[1, 2, 14, 3, 4, 5, 6, 7, 8, 9, 1, 10, 11, 12, 13]);
    put_blob(&mut expected, b"n");
    put_words(&mut expected, &[0]);
    assert_eq!(out, expected);
    let (back, next) = ZipFile::<Cache>::decode(&out, 0).unwrap();
    assert_eq!(next, out.len());
    same_header(&back, &cached);
    let again = back.to_parser();
    assert_eq!(again.compression_method, CompressionType::LZMA);
    assert_eq!(again.data_position, 13);
    let mut bad = out.clone();
    bad[16] = 2;
    assert_eq!(ZipFile::<Cache>::decode(&bad, 0).err(), Some(ZipError::InvalidCache));
    let mut bad = out.clone();
    bad[80] = 2;
    assert_eq!(ZipFile::<Cache>::decode(&bad, 0).err(), Some(ZipError::InvalidCache));
    assert_eq!(ZipFile::<Cache>::decode(&out[..119], 0).err(), Some(ZipError::UnexpectedEnd));
}

#[test]
fn a_trailer_in_a_snapshot() {
    let trailer = EoCd {
        kind: Cache,
        number_of_disk: 1,
        directory_starts: 2,
        number_of_directory_disk: 3,
        entries: 4,
        size: 5,
        offset: 6,
        comment_length: 7,
    };
    let mut out = vec![];
    trailer.encode(&mut out);
    let mut expected = vec![];
    put_words(&mut expected, &[1, 2, 3, 4, 5, 6, 7]);
    assert_eq!(out, expected);
    assert_eq!(EoCd::<Cache>::decode(&out, 0), Ok((trailer, 56)));
    assert_eq!(EoCd::<Cache>::decode(&out, 1), Err(ZipError::UnexpectedEnd));
    out[2] = 1;
    assert_eq!(EoCd::<Cache>::decode(&out, 0), Err(ZipError::InvalidCache));
}
