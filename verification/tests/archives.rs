use fast_zip::deflate::CompressionLevel;
use fast_zip::directory::{CompressionType, Directory};
use fast_zip::eocd::EoCd;
use fast_zip::error::ZipError;
use fast_zip::extra::Extra;
use fast_zip::le::{read_u16, read_u32};
use fast_zip::zip::{is_binary, Parser, Zip};
use fast_zip::zip_file::{DataDescriptor, ZipFile};

fn plain_entry(name: &str, payload: &[u8], method: CompressionType, crc: u32) -> Directory<Parser> {
    let size = payload.len() as u32;
    Directory {
        kind: Parser,
        data: payload.to_vec(),
        compressed: false,
        version: 798,
        min_version: 10,
        flags: 0,
        compression_method: method,
        last_modification_time: 0,
        last_modification_date: 0,
        crc_32_uncompressed_data: crc,
        compressed_size: size,
        uncompressed_size: size,
        file_name_length: 0,
        extra_field_length: 0,
        file_comment_length: 0,
        number_of_starts: 0,
        internal_file_attributes: 0,
        external_file_attributes: 0,
        offset_of_local_file_header: 0,
        file_name: name.to_string(),
        extra_fields: vec![],
        file_comment: vec![],
        file: ZipFile {
            kind: Parser,
            min_version: 10,
            flags: 0,
            compression_method: method,
            last_modification_time: 0,
            last_modification_date: 0,
            crc_32_uncompressed_data: crc,
            compressed_size: size,
            uncompressed_size: size,
            file_name_length: 0,
            extra_field_length: 0,
            file_name: name.to_string(),
            extra_fields: vec![],
            data_descriptor: None,
            data_position: 0,
        },
    }
}

fn names(zip: &Zip<Parser>) -> Vec<String> {
    zip.directories.keys().cloned().collect()
}

fn written(zip: &mut Zip<Parser>) -> Vec<u8> {
    let mut output = vec![];
    zip.write(&mut output, &mut |_, _| {}).unwrap();
    output
}

#[test]
fn one_stored_entry_is_written_and_read_back() {
    let mut zip = Zip::create(vec![]);
    zip.add_directory(plain_entry("a.txt", b"hello", CompressionType::Store, 0x3610a686));
    let output = written(&mut zip);
    assert_eq!(
        output,
        vec![
            0x50, 0x4B, 0x03, 0x04, 10, 0, 0, 0, 0, 0, 0, 0, 0, 0, 0x86, 0xA6, 0x10, 0x36, 5, 0,
            0, 0, 5, 0, 0, 0, 5, 0, 0, 0, b'a', b'.', b't', b'x', b't', b'h', b'e', b'l', b'l',
            b'o', 0x50, 0x4B, 0x01, 0x02, 0x1E, 0x03, 10, 0, 0, 0, 0, 0, 0, 0, 0, 0, 0x86, 0xA6,
            0x10, 0x36, 5, 0, 0, 0, 5, 0, 0, 0, 5, 0, 0, 0, 0, 0, 0, 0, 0, 0, 0, 0, 0, 0, 0, 0,
            0, 0, b'a', b'.', b't', b'x', b't', 0x50, 0x4B, 0x05, 0x06, 0, 0, 0, 0, 1, 0, 1, 0,
            51, 0, 0, 0, 40, 0, 0, 0, 0, 0,
        ]
    );
    let mut again = Zip::new(output).unwrap();
    assert_eq!(again.len(), 1);
    let entry = again.get("a.txt").unwrap();
    assert_eq!(entry.uncompressed_size, 5);
    assert_eq!(entry.compression_method, CompressionType::Store);
    assert_eq!(entry.file_name, "a.txt");
    assert_eq!(entry.crc_32_uncompressed_data, 0x3610a686);
    let entry = again.get_mut("a.txt").unwrap();
    assert_eq!(entry.decompressed().unwrap(), b"hello");
    assert_eq!(entry.data, b"hello");
}

#[test]
fn create_holds_the_source_until_it_is_parsed() {
    let mut source = Zip::create(vec![]);
    source.add_directory(plain_entry("inner", b"1", CompressionType::Store, 0));
    let bytes = written(&mut source);
    let mut zip = Zip::create(bytes.clone());
    assert_eq!(zip.size(), bytes.len());
    assert_eq!(zip.len(), 0);
    assert_eq!(zip.stream, Some(bytes.clone()));
    assert!(zip.write_clear);
    assert_eq!(zip.compression_level, CompressionLevel::DefaultLevel);
    assert_eq!(zip.eo_cd.unwrap().entries, 0);
    zip.parse().unwrap();
    assert_eq!(zip.stream, None);
    assert_eq!(zip.len(), 1);
    assert_eq!(zip.eo_cd.unwrap().entries, 1);
    assert_eq!(zip.size(), bytes.len());
    zip.remove_file("inner");
    zip.parse().unwrap();
    assert_eq!(zip.len(), 0);
}

#[test]
fn what_is_no_archive_is_not_opened() {
    assert_eq!(Zip::new(vec![]).err(), Some(ZipError::NotZip));
    assert_eq!(Zip::new(vec![0; 1000]).err(), Some(ZipError::NotZip));
    let mut zip = Zip::create(b"no archive at all, just some text".to_vec());
    assert_eq!(zip.parse(), Err(ZipError::NotZip));
    assert_eq!(zip.stream, Some(b"no archive at all, just some text".to_vec()));
    assert_eq!(zip.len(), 0);
}

#[test]
fn broken_archive_is_not_opened() {
    let mut zip = Zip::create(vec![]);
    zip.add_directory(plain_entry("a", b"one", CompressionType::Store, 1));
    zip.add_directory(plain_entry("b", b"two", CompressionType::Store, 2));
    let good = written(&mut zip);
    assert_eq!(Zip::new(good.clone()).unwrap().len(), 2);
    let central = read_u32(&good, good.len() - 6).unwrap() as usize;
    let mut bad = good.clone();
    bad[central] = 0;
    assert_eq!(Zip::new(bad).err(), Some(ZipError::BadMagic));
    let mut bad = good.clone();
    bad[0] = 0;
    assert_eq!(Zip::new(bad).err(), Some(ZipError::BadMagic));
    let mut bad = good.clone();
    let at = bad.len() - 12;
    bad[at] = 3;
    assert_eq!(Zip::new(bad).err(), Some(ZipError::BadMagic));
    let mut bad = good.clone();
    let at = bad.len() - 6;
    bad[at] = 0xFF;
    bad[at + 1] = 0xFF;
    assert_eq!(Zip::new(bad).err(), Some(ZipError::UnexpectedEnd));
    let mut bad = good.clone();
    bad[central + 46] = 0xC0;
    assert_eq!(Zip::new(bad).err(), Some(ZipError::InvalidName));
}

#[test]
fn a_later_entry_of_the_same_name_takes_the_place_of_the_earlier() {
    let mut zip = Zip::create(vec![]);
    zip.add_directory(plain_entry("a", b"first", CompressionType::Store, 1));
    zip.add_directory(plain_entry("b", b"other", CompressionType::Store, 2));
    let mut bytes = written(&mut zip);
    let central = read_u32(&bytes, bytes.len() - 6).unwrap() as usize;
    let second_record = central + 46 + 1;
    assert_eq!(bytes[second_record + 46], b'b');
    bytes[second_record + 46] = b'a';
    let again = Zip::new(bytes).unwrap();
    assert_eq!(again.len(), 1);
    assert_eq!(names(&again), vec!["a"]);
    assert_eq!(again.get("a").unwrap().data, b"other");
    assert_eq!(again.get("a").unwrap().crc_32_uncompressed_data, 2);
}

#[test]
fn adding_under_one_name_twice_leaves_the_second() {
    let mut zip = Zip::create(vec![]);
    zip.add_file(b"zero".to_vec(), "z").unwrap();
    zip.add_file(b"first payload".to_vec(), "same").unwrap();
    zip.add_file(b"last".to_vec(), "y").unwrap();
    assert_eq!(zip.len(), 3);
    zip.add_file(b"second".to_vec(), "same").unwrap();
    assert_eq!(zip.len(), 3);
    assert_eq!(names(&zip), vec!["z", "same", "y"]);
    assert_eq!(zip.get("same").unwrap().data, b"second");
    assert_eq!(zip.get("same").unwrap().uncompressed_size, 6);
    assert_eq!(zip.directories.keys().filter(|k| k.as_str() == "same").count(), 1);
}

#[test]
fn a_new_file_is_to_be_deflated_and_streamed() {
    let mut zip = Zip::create(vec![]);
    zip.add_file(b"hello world".to_vec(), "Payload/Info.plist").unwrap();
    let e = zip.get("Payload/Info.plist").unwrap();
    assert_eq!(e.data, b"hello world");
    assert!(!e.compressed());
    assert_eq!(e.version, 798);
    assert_eq!(e.min_version, 20);
    assert_eq!(e.flags, 8);
    assert_eq!(e.compression_method, CompressionType::Deflate);
    assert_eq!(e.last_modification_time, 39620);
    assert_eq!(e.last_modification_date, 23170);
    assert_eq!(e.crc_32_uncompressed_data, 0);
    assert_eq!(e.compressed_size, 11);
    assert_eq!(e.uncompressed_size, 11);
    assert_eq!(e.file_name_length, 18);
    assert_eq!(e.extra_field_length, 24);
    assert_eq!(e.file_comment_length, 0);
    assert_eq!(e.internal_file_attributes, 1);
    assert_eq!(e.external_file_attributes, 2175008768);
    assert_eq!(e.offset_of_local_file_header, 0);
    assert_eq!(
        e.extra_fields,
        vec![
            Extra::UnixExtendedTimestamp { mtime: Some(1736154637), atime: None, ctime: None },
            Extra::UnixAttrs { uid: 503, gid: 20 },
        ]
    );
    assert!(e.file_comment.is_empty());
    assert_eq!(e.file.file_name, "Payload/Info.plist");
    assert_eq!(e.file.flags, 8);
    assert_eq!(e.file.min_version, 20);
    assert_eq!(e.file.compression_method, CompressionType::Deflate);
    assert_eq!(e.file.compressed_size, 0);
    assert_eq!(e.file.uncompressed_size, 11);
    assert_eq!(e.file.extra_field_length, 28);
    assert_eq!(
        e.file.extra_fields,
        vec![
            Extra::UnixExtendedTimestamp {
                mtime: Some(1736154637),
                atime: Some(1736195293),
                ctime: None
            },
            Extra::UnixAttrs { uid: 503, gid: 20 },
        ]
    );
    assert_eq!(
        e.file.data_descriptor,
        Some(DataDescriptor { crc32: 0, compressed_size: 11, uncompressed_size: 11 })
    );
}

#[test]
fn a_new_folder_is_stored_and_empty() {
    let mut zip = Zip::create(vec![]);
    zip.add_folder("Payload/").unwrap();
    let e = zip.get("Payload/").unwrap();
    assert!(e.data.is_empty());
    assert!(e.compressed());
    assert_eq!(e.min_version, 10);
    assert_eq!(e.flags, 0);
    assert_eq!(e.compression_method, CompressionType::Store);
    assert_eq!(e.external_file_attributes, 0x41ED0010);
    assert_eq!(e.internal_file_attributes, 0);
    assert_eq!(e.extra_field_length, 24);
    assert_eq!(e.file.extra_field_length, 28);
    assert_eq!(e.file.data_descriptor, None);
    assert_eq!(
        e.file.extra_fields[0],
        Extra::UnixExtendedTimestamp { mtime: Some(0), atime: Some(0), ctime: None }
    );
    let long = "d".repeat(65536);
    assert_eq!(zip.add_folder(&long), Err(ZipError::TooLarge));
    assert_eq!(zip.len(), 1);
    let bytes = written(&mut zip);
    let mut again = Zip::new(bytes).unwrap();
    let e = again.get_mut("Payload/").unwrap();
    assert_eq!(e.uncompressed_size, 0);
    e.decompressed().unwrap();
    assert!(e.data.is_empty());
}

#[test]
fn text_and_binary_are_told_apart() {
    assert!(!is_binary(b""));
    assert!(!is_binary(b"plain text\r\n\twith \x0B tabs"));
    assert!(is_binary(&[0u8; 10]));
    assert!(!is_binary(&[b'a', b'a', b'a', b'a', b'a', b'a', b'a', 0, 1, 2]));
    assert!(is_binary(&[b'a', b'a', b'a', b'a', b'a', b'a', 0, 1, 2]));
    assert!(is_binary(&[0x7F]));
    assert!(is_binary(&[0x1F]));
    assert!(!is_binary(&[0x7E]));
    assert!(!is_binary(&[0x20]));
    let mut zip = Zip::create(vec![]);
    let mut mostly_text = vec![b'x'; 1024];
    mostly_text.extend_from_slice(&[0u8; 5000]);
    zip.add_file(mostly_text, "text-first").unwrap();
    assert_eq!(zip.get("text-first").unwrap().internal_file_attributes, 1);
    let mut mostly_binary = vec![0u8; 308];
    mostly_binary.extend_from_slice(&[b'x'; 5000]);
    zip.add_file(mostly_binary, "binary-first").unwrap();
    assert_eq!(zip.get("binary-first").unwrap().internal_file_attributes, 0);
    let mut at_the_limit = vec![0u8; 307];
    at_the_limit.extend_from_slice(&[b'x'; 5000]);
    zip.add_file(at_the_limit, "limit").unwrap();
    assert_eq!(zip.get("limit").unwrap().internal_file_attributes, 1);
    zip.add_file(vec![], "empty").unwrap();
    assert_eq!(zip.get("empty").unwrap().internal_file_attributes, 1);
}

#[test]
fn names_too_long_are_not_added() {
    let mut zip = Zip::create(vec![]);
    let long = "n".repeat(65536);
    assert_eq!(zip.add_file(vec![1], &long), Err(ZipError::TooLarge));
    assert_eq!(zip.save_file(vec![1], &long), Err(ZipError::TooLarge));
    assert_eq!(zip.len(), 0);
    let fits = "n".repeat(65535);
    assert_eq!(zip.add_file(vec![1], &fits), Ok(()));
    assert_eq!(zip.get(&fits).unwrap().file_name_length, 65535);
}

#[test]
fn removing_keeps_the_order_of_the_entries_that_stay() {
    let mut zip = Zip::create(vec![]);
    for name in ["a", "b", "c", "d"] {
        zip.add_file(name.as_bytes().to_vec(), name).unwrap();
    }
    zip.remove_file("b");
    assert_eq!(names(&zip), vec!["a", "c", "d"]);
    assert!(zip.get("b").is_none());
    assert_eq!(zip.get("c").unwrap().data, b"c");
    assert_eq!(zip.get("d").unwrap().data, b"d");
    zip.remove_file("missing");
    assert_eq!(names(&zip), vec!["a", "c", "d"]);
    zip.remove_file("a");
    assert_eq!(names(&zip), vec!["c", "d"]);
    zip.remove_file("d");
    assert_eq!(names(&zip), vec!["c"]);
    zip.add_file(b"again".to_vec(), "a").unwrap();
    assert_eq!(names(&zip), vec!["c", "a"]);
    zip.remove_file("c");
    zip.remove_file("a");
    assert_eq!(zip.len(), 0);
    assert!(zip.get_mut("a").is_none());
    zip.remove_file("a");
    assert_eq!(zip.len(), 0);
}

#[test]
fn the_entries_that_stay_are_written_in_their_order() {
    let mut zip = Zip::create(vec![]);
    for name in ["k0", "k1", "k2", "k3", "k4"] {
        zip.add_directory(plain_entry(name, name.as_bytes(), CompressionType::Store, 0));
    }
    zip.remove_file("k1");
    zip.remove_file("k3");
    let bytes = written(&mut zip);
    let read = Zip::new(bytes).unwrap();
    assert_eq!(names(&read), vec!["k0", "k2", "k4"]);
    let offsets: Vec<u32> =
        read.directories.values().map(|e| e.offset_of_local_file_header).collect();
    assert_eq!(offsets, vec![0, 34, 68]);
}

#[test]
fn saving_replaces_the_payload_or_adds_a_file() {
    let mut zip = Zip::create(vec![]);
    zip.add_file(b"first".to_vec(), "a").unwrap();
    zip.add_file(b"other".to_vec(), "b").unwrap();
    zip.save_file(b"changed payload".to_vec(), "a").unwrap();
    assert_eq!(names(&zip), vec!["a", "b"]);
    let a = zip.get("a").unwrap();
    assert_eq!(a.data, b"changed payload");
    assert_eq!(a.compression_method, CompressionType::Store);
    assert_eq!(a.uncompressed_size, 15);
    assert_eq!(a.compressed_size, 0);
    assert_eq!(a.file.uncompressed_size, 15);
    assert!(!a.compressed());
    assert_eq!(a.flags, 8);
    zip.save_file(b"new".to_vec(), "c").unwrap();
    assert_eq!(names(&zip), vec!["a", "b", "c"]);
    assert_eq!(zip.get("c").unwrap().compression_method, CompressionType::Deflate);
    assert_eq!(zip.get("c").unwrap().data, b"new");
    let bytes = written(&mut zip);
    let mut again = Zip::new(bytes).unwrap();
    let a = again.get_mut("a").unwrap();
    assert_eq!(a.compressed_size, 15);
    assert_eq!(a.file.compressed_size, 15);
    a.decompressed().unwrap();
    assert_eq!(a.data, b"changed payload");
}

#[test]
fn add_directory_gives_the_header_the_name_of_the_entry() {
    let mut zip = Zip::create(vec![]);
    let mut e = plain_entry("entry-name", b"x", CompressionType::Store, 0);
    e.file.file_name = "other-name".to_string();
    zip.add_directory(e);
    assert_eq!(names(&zip), vec!["entry-name"]);
    assert_eq!(zip.get("entry-name").unwrap().file.file_name, "entry-name");
}

#[test]
fn offsets_lead_to_headers_after_adding_and_removing() {
    let mut zip = Zip::create(vec![]);
    zip.with_crc32(true);
    zip.write_clear = false;
    zip.add_file(vec![b'a'; 300], "first.txt").unwrap();
    zip.add_file(vec![0, 1, 2, 3, 4, 5, 6, 7, 8, 9], "second.bin").unwrap();
    zip.add_folder("folder/").unwrap();
    zip.add_file(b"fourth".to_vec(), "folder/fourth").unwrap();
    zip.add_directory(plain_entry("stored", b"stored payload", CompressionType::Store, 77));
    zip.remove_file("second.bin");
    let output = written(&mut zip);
    let trailer = EoCd::<Parser>::decode(&output).unwrap();
    assert_eq!(trailer.entries, 4);
    assert_eq!(trailer.number_of_directory_disk, 4);
    assert_eq!(trailer.offset as usize + trailer.size as usize + 22, output.len());
    let mut at = trailer.offset as usize;
    let mut seen = vec![];
    let mut expected_offset = 0usize;
    for _ in 0..trailer.entries {
        assert_eq!(read_u32(&output, at), Ok(0x02014b50));
        let compressed_size = read_u32(&output, at + 20).unwrap() as usize;
        let name_len = read_u16(&output, at + 28).unwrap() as usize;
        let extra_len = read_u16(&output, at + 30).unwrap() as usize;
        let comment_len = read_u16(&output, at + 32).unwrap() as usize;
        let offset = read_u32(&output, at + 42).unwrap() as usize;
        let name = String::from_utf8(output[at + 46..at + 46 + name_len].to_vec()).unwrap();
        assert_eq!(offset, expected_offset);
        assert_eq!(read_u32(&output, offset), Ok(0x04034b50));
        let local_flags = read_u16(&output, offset + 6).unwrap();
        let local_name_len = read_u16(&output, offset + 26).unwrap() as usize;
        let local_extra_len = read_u16(&output, offset + 28).unwrap() as usize;
        assert_eq!(&output[offset + 30..offset + 30 + local_name_len], name.as_bytes());
        let descriptor = if local_flags & 8 != 0 { 16 } else { 0 };
        expected_offset =
            offset + 30 + local_name_len + local_extra_len + compressed_size + descriptor;
        seen.push(name);
        at += 46 + name_len + extra_len + comment_len;
    }
    assert_eq!(at, trailer.offset as usize + trailer.size as usize);
    assert_eq!(expected_offset, trailer.offset as usize);
    assert_eq!(seen, vec!["first.txt", "folder/", "folder/fourth", "stored"]);
    for (i, (_, entry)) in zip.directories.iter().enumerate() {
        let offset = entry.offset_of_local_file_header as usize;
        assert_eq!(&output[offset..offset + 4], &[0x50, 0x4B, 0x03, 0x04]);
        assert_eq!(entry.file_name, seen[i]);
    }
}

#[test]
fn a_written_archive_is_read_back_entry_by_entry() {
    let mut zip = Zip::create(vec![]);
    zip.with_crc32(true);
    zip.write_clear = false;
    let text: Vec<u8> = b"lorem ipsum dolor sit amet ".repeat(40);
    let binary: Vec<u8> = (0..5000u32).map(|i| (i * 7919 % 251) as u8).collect();
    zip.add_file(text.clone(), "text.txt").unwrap();
    zip.add_file(binary.clone(), "data.bin").unwrap();
    zip.add_file(vec![], "empty").unwrap();
    zip.add_directory(plain_entry("stored", b"as it is", CompressionType::Store, 0x1234));
    let first = written(&mut zip);
    let mut read = Zip::new(first.clone()).unwrap();
    assert_eq!(names(&read), vec!["text.txt", "data.bin", "empty", "stored"]);
    for (name, payload) in
        [("text.txt", &text), ("data.bin", &binary), ("empty", &vec![]), ("stored", &b"as it is".to_vec())]
    {
        let before = zip.get(name).unwrap().clone_all();
        let after = read.get_mut(name).unwrap();
        assert_eq!(after.file_name, before.file_name);
        assert_eq!(after.uncompressed_size, before.uncompressed_size);
        assert_eq!(after.uncompressed_size as usize, payload.len());
        assert_eq!(after.compressed_size, before.compressed_size);
        assert_eq!(after.crc_32_uncompressed_data, before.crc_32_uncompressed_data);
        assert_eq!(after.compression_method, before.compression_method);
        assert_eq!(after.offset_of_local_file_header, before.offset_of_local_file_header);
        assert_eq!(after.data, before.data);
        assert_eq!(after.extra_fields, before.extra_fields);
        assert_eq!(after.file.extra_fields, before.file.extra_fields);
        after.decompressed().unwrap();
        assert_eq!(&after.data, payload);
    }
    assert_eq!(
        read.get("text.txt").unwrap().crc_32_uncompressed_data,
        fast_zip::crc32::checksum(&text)
    );
    let mut read = Zip::new(first.clone()).unwrap();
    read.write_clear = false;
    let second = written(&mut read);
    assert_eq!(second, first);
    let third = written(&mut read);
    assert_eq!(third, first);
    let mut reread = Zip::new(second).unwrap();
    assert_eq!(names(&reread), vec!["text.txt", "data.bin", "empty", "stored"]);
    let e = reread.get_mut("data.bin").unwrap();
    e.decompressed().unwrap();
    assert_eq!(e.data, binary);
}

#[test]
fn an_inflated_entry_is_deflated_again_when_written() {
    let mut zip = Zip::create(vec![]);
    let text: Vec<u8> = b"again and again and again and again".repeat(10);
    zip.add_file(text.clone(), "t").unwrap();
    let bytes = written(&mut zip);
    let mut read = Zip::new(bytes.clone()).unwrap();
    read.with_crc32(false);
    read.get_mut("t").unwrap().decompressed().unwrap();
    assert_eq!(read.computer_un_compress_size(), text.len());
    let mut heard = vec![];
    let mut output = vec![];
    read.write(&mut output, &mut |total, done| heard.push((total, done))).unwrap();
    assert_eq!(heard, vec![(text.len(), text.len())]);
    assert_eq!(output, bytes);
}

#[test]
fn writing_empties_the_archive_or_keeps_it() {
    let mut zip = Zip::create(vec![]);
    zip.add_file(b"payload".to_vec(), "a").unwrap();
    zip.write_clear = false;
    let first = written(&mut zip);
    assert_eq!(zip.len(), 1);
    assert!(zip.eo_cd.is_some());
    assert_eq!(zip.eo_cd.unwrap().entries, 1);
    assert_eq!(zip.eo_cd.unwrap().offset as usize + zip.eo_cd.unwrap().size as usize + 22, first.len());
    assert!(zip.get("a").unwrap().compressed());
    let second = written(&mut zip);
    assert_eq!(first, second);
    zip.write_clear = true;
    let third = written(&mut zip);
    assert_eq!(first, third);
    assert_eq!(zip.len(), 0);
    assert!(zip.eo_cd.is_none());
    let mut fourth = vec![7u8];
    zip.write(&mut fourth, &mut |_, _| {}).unwrap();
    assert_eq!(fourth, vec![7u8]);
}

#[test]
fn a_copy_of_an_archive_is_an_archive_of_its_own() {
    let mut zip = Zip::create(b"source".to_vec());
    zip.write_clear = false;
    zip.add_file(b"payload of a".to_vec(), "a").unwrap();
    zip.add_directory(plain_entry("b", b"payload of b", CompressionType::Store, 9));
    let mut copy = zip.clone();
    assert_eq!(names(&copy), vec!["a", "b"]);
    assert_eq!(copy.stream, Some(b"source".to_vec()));
    assert_eq!(copy.size(), 6);
    assert_eq!(copy.get("b").unwrap().data, b"payload of b");
    copy.remove_file("a");
    copy.get_mut("b").unwrap().put_data(b"changed".to_vec());
    assert_eq!(names(&zip), vec!["a", "b"]);
    assert_eq!(zip.get("b").unwrap().data, b"payload of b");
    let first = written(&mut zip);
    let second = written(&mut zip.clone());
    assert_eq!(first, second);
}

#[test]
fn writing_appends_to_what_the_output_holds() {
    let mut zip = Zip::create(vec![]);
    zip.write_clear = false;
    zip.add_directory(plain_entry("a", b"1", CompressionType::Store, 0));
    let alone = written(&mut zip);
    let mut output = b"prefix".to_vec();
    zip.write(&mut output, &mut |_, _| {}).unwrap();
    assert_eq!(&output[..6], b"prefix");
    assert_eq!(&output[6..], &alone[..]);
}

#[test]
fn progress_is_counted_over_the_payloads_still_to_deflate() {
    let mut zip = Zip::create(vec![]);
    zip.add_file(vec![b'a'; 100], "a").unwrap();
    zip.add_directory(plain_entry("stored", &[1u8; 40], CompressionType::Store, 0));
    zip.add_file(vec![b'b'; 250], "b").unwrap();
    zip.add_folder("f/").unwrap();
    zip.add_file(vec![], "empty").unwrap();
    assert_eq!(zip.computer_un_compress_size(), 350);
    let mut heard = vec![];
    let mut output = vec![];
    zip.write(&mut output, &mut |total, done| heard.push((total, done))).unwrap();
    assert_eq!(heard, vec![(350, 100), (350, 350)]);
}

#[test]
fn layout_sets_offsets_sizes_and_lengths() {
    let mut zip = Zip::create(vec![]);
    zip.with_compression_level(CompressionLevel::NoCompression);
    zip.add_file(b"0123456789".to_vec(), "ab").unwrap();
    zip.add_directory(plain_entry("stored", b"xyz", CompressionType::Store, 5));
    zip.get_mut("stored").unwrap().file_comment = b"note".to_vec();
    let total = zip.computer_un_compress_size();
    assert_eq!(total, 10);
    zip.computer(total, &mut |_, _| {}).unwrap();
    let a = zip.get("ab").unwrap();
    assert_eq!(a.offset_of_local_file_header, 0);
    assert_eq!(a.compressed_size, 15);
    assert_eq!(a.file.compressed_size, 15);
    assert_eq!(a.file_name_length, 2);
    assert_eq!(a.extra_field_length, 24);
    assert_eq!(a.file.extra_field_length, 28);
    assert!(a.compressed());
    assert_eq!(a.crc_32_uncompressed_data, 0);
    let s = zip.get("stored").unwrap();
    assert_eq!(s.offset_of_local_file_header, 30 + 2 + 28 + 15 + 16);
    assert_eq!(s.file_name_length, 6);
    assert_eq!(s.extra_field_length, 0);
    assert_eq!(s.file_comment_length, 4);
    assert_eq!(s.file.file_name_length, 6);
    let trailer = zip.eo_cd.unwrap();
    assert_eq!(trailer.entries, 2);
    assert_eq!(trailer.number_of_directory_disk, 2);
    assert_eq!(trailer.offset, 91 + 30 + 6 + 3);
    assert_eq!(trailer.size, (46 + 2 + 24) + (46 + 6 + 4));
}

#[test]
fn an_archive_with_too_many_entries_is_not_written() {
    let mut zip = Zip::create(vec![]);
    for i in 0..65536u32 {
        zip.add_directory(plain_entry(&format!("{}", i), b"", CompressionType::Store, 0));
    }
    let mut output = vec![3u8];
    assert_eq!(zip.write(&mut output, &mut |_, _| {}), Err(ZipError::TooLarge));
    assert_eq!(output, vec![3u8]);
    assert_eq!(zip.len(), 65536);
    zip.remove_file("0");
    assert_eq!(zip.write(&mut output, &mut |_, _| {}), Ok(()));
    let again = Zip::new(output[1..].to_vec()).unwrap();
    assert_eq!(again.len(), 65535);
    assert_eq!(again.eo_cd.unwrap().entries, 65535);
}

#[test]
fn an_entry_that_does_not_fit_ends_the_layout() {
    let mut zip = Zip::create(vec![]);
    zip.add_file(b"fine fine fine".to_vec(), "a").unwrap();
    zip.add_file(b"too long a comment".to_vec(), "b").unwrap();
    zip.add_file(b"never reached".to_vec(), "c").unwrap();
    zip.get_mut("b").unwrap().file_comment = vec![0; 65536];
    let mut output = vec![];
    assert_eq!(zip.write(&mut output, &mut |_, _| {}), Err(ZipError::TooLarge));
    assert!(output.is_empty());
    assert_eq!(zip.len(), 3);
    assert!(zip.get("a").unwrap().compressed());
    assert!(!zip.get("b").unwrap().compressed());
    assert_eq!(zip.get("b").unwrap().data, b"too long a comment");
    assert!(!zip.get("c").unwrap().compressed());
    zip.get_mut("b").unwrap().file_comment = vec![0; 65535];
    assert_eq!(zip.write(&mut output, &mut |_, _| {}), Ok(()));
}

#[test]
fn an_archive_made_elsewhere_is_read() {
    let bytes: Vec<u8> = vec![
        0x50, 0x4B, 0x03, 0x04, 0x14, 0x00, 0x08, 0x00, 0x08, 0x00, 0x00, 0x00, 0x21, 0x00, 0x00,
        0x00, 0x00, 0x00, 0x00, 0x00, 0x00, 0x00, 0x00, 0x00, 0x00, 0x00, 0x05, 0x00, 0x09, 0x00,
        b'h', b'.', b't', b'x', b't', 0x55, 0x54, 0x05, 0x00, 0x01, 0x80, 0x43, 0x6D, 0x38, 0xCB,
        0x48, 0xCD, 0xC9, 0xC9, 0x07, 0x00, 0x50, 0x4B, 0x07, 0x08, 0x86, 0xA6, 0x10, 0x36, 0x07,
        0x00, 0x00, 0x00, 0x05, 0x00, 0x00, 0x00, 0x50, 0x4B, 0x01, 0x02, 0x14, 0x03, 0x14, 0x00,
        0x08, 0x00, 0x08, 0x00, 0x00, 0x00, 0x21, 0x00, 0x86, 0xA6, 0x10, 0x36, 0x07, 0x00, 0x00,
        0x00, 0x05, 0x00, 0x00, 0x00, 0x05, 0x00, 0x09, 0x00, 0x03, 0x00, 0x00, 0x00, 0x00, 0x00,
        0x00, 0x00, 0xA4, 0x81, 0x00, 0x00, 0x00, 0x00, b'h', b'.', b't', b'x', b't', 0x55, 0x54,
        0x05, 0x00, 0x01, 0x80, 0x43, 0x6D, 0x38, b'a', b'b', b'c', 0x50, 0x4B, 0x05, 0x06, 0x00,
        0x00, 0x00, 0x00, 0x01, 0x00, 0x01, 0x00, 0x3F, 0x00, 0x00, 0x00, 0x43, 0x00, 0x00, 0x00,
        0x04, 0x00, b'n', b'o', b't', b'e',
    ];
    let mut zip = Zip::new(bytes).unwrap();
    assert_eq!(zip.eo_cd.unwrap().comment_length, 4);
    assert_eq!(zip.eo_cd.unwrap().offset, 0x43);
    let e = zip.get_mut("h.txt").unwrap();
    assert_eq!(e.compression_method, CompressionType::Deflate);
    assert!(e.compressed());
    assert_eq!(e.compressed_size, 7);
    assert_eq!(e.uncompressed_size, 5);
    assert_eq!(e.crc_32_uncompressed_data, 0x3610a686);
    assert_eq!(e.file_comment, b"abc");
    assert_eq!(e.file.compressed_size, 0);
    assert_eq!(e.file.data_position, 44);
    assert_eq!(
        e.file.data_descriptor,
        Some(DataDescriptor { crc32: 0x3610a686, compressed_size: 7, uncompressed_size: 5 })
    );
    assert_eq!(
        e.extra_fields,
        vec![Extra::UnixExtendedTimestamp { mtime: Some(0x386D4380), atime: None, ctime: None }]
    );
    assert_eq!(e.decompressed().unwrap(), b"hello");
    assert_eq!(e.data, b"hello");
    assert_eq!(fast_zip::crc32::checksum(&e.data), e.crc_32_uncompressed_data);
}
