use fast_zip::crc32::checksum;
use fast_zip::deflate::CompressionLevel;
use fast_zip::directory::CompressionType;
use fast_zip::error::ZipError;
use fast_zip::le::{
    put_bytes, put_i32, put_u16, put_u32, put_u64, put_u8, read_bytes, read_i32, read_u16,
    read_u32, read_u64, read_u8,
};
use fast_zip::magic::Magic;

#[test]
fn little_endian_fields_are_written_low_byte_first() {
    let mut out = vec![0xAAu8];
    put_u8(&mut out, 0x7F);
    put_u16(&mut out, 0x1234);
    put_u32(&mut out, 0x0403_4b50);
    put_u64(&mut out, 0x0102_0304_0506_0708);
    put_i32(&mut out, -2);
    put_bytes(&mut out, b"zip");
    assert_eq!(
        out,
        vec![
            0xAA, 0x7F, 0x34, 0x12, 0x50, 0x4B, 0x03, 0x04, 0x08, 0x07, 0x06, 0x05, 0x04, 0x03,
            0x02, 0x01, 0xFE, 0xFF, 0xFF, 0xFF, b'z', b'i', b'p',
        ]
    );
}

#[test]
fn little_endian_fields_are_read_back() {
    let data = [
        0x7Fu8, 0x34, 0x12, 0x50, 0x4B, 0x03, 0x04, 0x08, 0x07, 0x06, 0x05, 0x04, 0x03, 0x02,
        0x01, 0xFE, 0xFF, 0xFF, 0xFF,
    ];
    assert_eq!(read_u8(&data, 0), Ok(0x7F));
    assert_eq!(read_u16(&data, 1), Ok(0x1234));
    assert_eq!(read_u32(&data, 3), Ok(0x0403_4b50));
    assert_eq!(read_u64(&data, 7), Ok(0x0102_0304_0506_0708));
    assert_eq!(read_i32(&data, 15), Ok(-2));
    assert_eq!(read_bytes(&data, 1, 2), Ok(vec![0x34, 0x12]));
    assert_eq!(read_bytes(&data, 19, 0), Ok(vec![]));
}

#[test]
fn extreme_values_survive_the_wire() {
    let mut out = vec![];
    put_u16(&mut out, u16::MAX);
    put_u32(&mut out, u32::MAX);
    put_u64(&mut out, u64::MAX);
    put_i32(&mut out, i32::MIN);
    put_i32(&mut out, i32::MAX);
    put_i32(&mut out, -1);
    assert_eq!(read_u16(&out, 0), Ok(u16::MAX));
    assert_eq!(read_u32(&out, 2), Ok(u32::MAX));
    assert_eq!(read_u64(&out, 6), Ok(u64::MAX));
    assert_eq!(read_i32(&out, 14), Ok(i32::MIN));
    assert_eq!(read_i32(&out, 18), Ok(i32::MAX));
    assert_eq!(read_i32(&out, 22), Ok(-1));
}

#[test]
fn reading_past_the_end_is_refused() {
    let data = [1u8, 2, 3];
    assert_eq!(read_u8(&data, 3), Err(ZipError::UnexpectedEnd));
    assert_eq!(read_u16(&data, 2), Err(ZipError::UnexpectedEnd));
    assert_eq!(read_u32(&data, 0), Err(ZipError::UnexpectedEnd));
    assert_eq!(read_u64(&data, 0), Err(ZipError::UnexpectedEnd));
    assert_eq!(read_i32(&data, 0), Err(ZipError::UnexpectedEnd));
    assert_eq!(read_bytes(&data, 1, 3), Err(ZipError::UnexpectedEnd));
    assert_eq!(read_bytes(&data, 4, 0), Err(ZipError::UnexpectedEnd));
    assert_eq!(read_u16(&data, usize::MAX), Err(ZipError::UnexpectedEnd));
    assert_eq!(read_bytes(&data, 1, usize::MAX), Err(ZipError::UnexpectedEnd));
}

#[test]
fn crc32_of_known_inputs() {
    assert_eq!(checksum(b"hello"), 0x3610a686);
    assert_eq!(checksum(b""), 0);
    assert_eq!(checksum(b"123456789"), 0xcbf43926);
    assert_eq!(checksum(b"The quick brown fox jumps over the lazy dog"), 0x414fa339);
}

#[test]
fn signatures_have_their_numbers() {
    assert_eq!(Magic::byte_size(), 4);
    assert_eq!(Magic::EoCd.number(), 0x06054b50);
    assert_eq!(Magic::Directory.number(), 0x02014b50);
    assert_eq!(Magic::File.number(), 0x04034b50);
    assert_eq!(Magic::from_number(0x06054b50), Some(Magic::EoCd));
    assert_eq!(Magic::from_number(0x02014b50), Some(Magic::Directory));
    assert_eq!(Magic::from_number(0x04034b50), Some(Magic::File));
    assert_eq!(Magic::from_number(0x08074b50), None);
    assert_eq!(Magic::from_number(0), None);
    let number: u32 = Magic::EoCd.into();
    assert_eq!(number, 0x06054b50);
    assert_eq!(u32::from(Magic::File), 0x04034b50);
}

#[test]
fn compression_methods_have_their_numbers() {
    assert_eq!(CompressionType::byte_size(), 2);
    let all = [
        (CompressionType::Store, 0x0000u16),
        (CompressionType::Shrink, 0x0001),
        (CompressionType::Implode, 0x0006),
        (CompressionType::Deflate, 0x0008),
        (CompressionType::Deflate64, 0x0009),
        (CompressionType::BZIP2, 0x000C),
        (CompressionType::LZMA, 0x000E),
        (CompressionType::XZ, 0x005F),
        (CompressionType::JPEG, 0x0060),
        (CompressionType::WavPack, 0x0061),
        (CompressionType::PPMd, 0x0062),
        (CompressionType::AES, 0x0063),
    ];
    for (method, number) in all {
        assert_eq!(method.number(), number);
        assert_eq!(CompressionType::from_number(number), Some(method));
    }
    assert_eq!(CompressionType::from_number(2), None);
    assert_eq!(CompressionType::from_number(0x0064), None);
    assert_eq!(CompressionType::from_number(u16::MAX), None);
    assert_eq!(CompressionType::default(), CompressionType::Store);
    let number: u16 = CompressionType::Deflate.into();
    assert_eq!(number, 8);
}

#[test]
fn compression_levels_have_their_numbers() {
    assert_eq!(CompressionLevel::NoCompression.number(), 0);
    assert_eq!(CompressionLevel::BestSpeed.number(), 1);
    assert_eq!(CompressionLevel::BestCompression.number(), 9);
    assert_eq!(CompressionLevel::UberCompression.number(), 10);
    assert_eq!(CompressionLevel::DefaultLevel.number(), 6);
    assert_eq!(CompressionLevel::DefaultCompression.number(), 6);
}
