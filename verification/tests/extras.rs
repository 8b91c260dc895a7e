use fast_zip::error::ZipError;
use fast_zip::extra::{add_run_size, decode_run, encode_run, run_length, Extra};

fn ntfs() -> Extra {
    Extra::NTFS { mtime: 0x0102_0304_0506_0708, atime: 2, ctime: u64::MAX }
}

fn timestamp(mtime: Option<i32>, atime: Option<i32>, ctime: Option<i32>) -> Extra {
    Extra::UnixExtendedTimestamp { mtime, atime, ctime }
}

fn attrs() -> Extra {
    Extra::UnixAttrs { uid: 503, gid: 20 }
}

fn encoded(e: &Extra, center: bool) -> Vec<u8> {
    let mut out = vec![];
    e.encode(center, &mut out);
    out
}

fn every_extra() -> Vec<Extra> {
    let mut all = vec![ntfs(), attrs(), Extra::UnixAttrs { uid: u32::MAX, gid: 0 }];
    for m in [None, Some(1736154637), Some(-1)] {
        for a in [None, Some(1736195293), Some(i32::MIN)] {
            for c in [None, Some(0), Some(i32::MAX)] {
                all.push(timestamp(m, a, c));
            }
        }
    }
    all
}

#[test]
fn extra_sizes_and_identifiers() {
    assert_eq!(ntfs().header_id(), 0x000a);
    assert_eq!(timestamp(None, None, None).header_id(), 0x5455);
    assert_eq!(attrs().header_id(), 0x7875);
    assert_eq!(ntfs().field_size(true), 32);
    assert_eq!(ntfs().field_size(false), 32);
    assert_eq!(ntfs().size(true), 36);
    assert_eq!(attrs().field_size(true), 11);
    assert_eq!(attrs().size(false), 15);
    let full = timestamp(Some(1), Some(2), Some(3));
    assert_eq!(full.field_size(false), 13);
    assert_eq!(full.size(false), 17);
    assert_eq!(full.field_size(true), 5);
    assert_eq!(full.size(true), 9);
    let none = timestamp(None, None, None);
    assert_eq!(none.size(false), 5);
    assert_eq!(none.size(true), 5);
    let access_only = timestamp(None, Some(2), None);
    assert_eq!(access_only.size(false), 9);
    assert_eq!(access_only.size(true), 5);
    assert_eq!(Extra::optional_field_size(&Some(7)), 4);
    assert_eq!(Extra::optional_field_size(&None), 0);
    assert_eq!(Extra::if_present(Some(0), 4), 4);
    assert_eq!(Extra::if_present(None, 4), 0);
}

#[test]
fn ntfs_on_the_wire() {
    let bytes = encoded(&ntfs(), false);
    assert_eq!(
        bytes,
        vec![
            0x0a, 0x00, 32, 0, 0, 0, 0, 0, 1, 0, 24, 0, 8, 7, 6, 5, 4, 3, 2, 1, 2, 0, 0, 0, 0, 0,
            0, 0, 255, 255, 255, 255, 255, 255, 255, 255,
        ]
    );
    assert_eq!(encoded(&ntfs(), true), bytes);
    assert_eq!(Extra::decode(&bytes, 0), Ok((ntfs(), 36)));
}

#[test]
fn unix_attrs_on_the_wire() {
    let bytes = encoded(&attrs(), true);
    assert_eq!(bytes, vec![0x75, 0x78, 11, 0, 1, 4, 0xF7, 0x01, 0, 0, 4, 20, 0, 0, 0]);
    assert_eq!(encoded(&attrs(), false), bytes);
    assert_eq!(Extra::decode(&bytes, 0), Ok((attrs(), 15)));
}

#[test]
fn timestamp_on_the_wire_in_a_local_header() {
    let e = timestamp(Some(1736154637), Some(1736195293), None);
    let bytes = encoded(&e, false);
    assert_eq!(
        bytes,
        vec![0x55, 0x54, 9, 0, 3, 0x0D, 0x9E, 0x7B, 0x67, 0xDD, 0x3C, 0x7C, 0x67]
    );
    assert_eq!(Extra::decode(&bytes, 0), Ok((e, 13)));
}

#[test]
fn timestamp_on_the_wire_in_the_central_directory() {
    let e = timestamp(Some(1736154637), Some(1736195293), Some(5));
    let bytes = encoded(&e, true);
    assert_eq!(bytes, vec![0x55, 0x54, 5, 0, 7, 0x0D, 0x9E, 0x7B, 0x67]);
    assert_eq!(
        Extra::decode(&bytes, 0),
        Ok((timestamp(Some(1736154637), None, None), 9))
    );
}

#[test]
fn encoder_writes_what_size_announces_and_decoder_consumes_it() {
    for e in every_extra() {
        for center in [true, false] {
            let mut buffer = vec![0xEEu8; 3];
            e.encode(center, &mut buffer);
            let written = buffer.len() - 3;
            assert_eq!(written, e.size(center) as usize);
            buffer.extend_from_slice(&[0x55, 0x54, 0x0a, 0x00]);
            let (back, next) = Extra::decode(&buffer, 3).unwrap();
            assert_eq!(next, 3 + written);
            let expected = match (e, center) {
                (Extra::UnixExtendedTimestamp { mtime, .. }, true) => {
                    timestamp(mtime, None, None)
                }
                _ => e,
            };
            assert_eq!(back, expected);
        }
    }
}

#[test]
fn timestamp_padding_is_passed_over() {
    let bytes = [0x55u8, 0x54, 8, 0, 1, 1, 0, 0, 0, 9, 9, 9, 0xAA];
    assert_eq!(Extra::decode(&bytes, 0), Ok((timestamp(Some(1), None, None), 12)));
    let bytes = [0x55u8, 0x54, 3, 0, 1, 9, 9];
    assert_eq!(Extra::decode(&bytes, 0), Ok((timestamp(None, None, None), 7)));
    let bytes = [0x55u8, 0x54, 5, 0, 4, 7, 0, 0, 0];
    assert_eq!(Extra::decode(&bytes, 0), Ok((timestamp(None, None, Some(7)), 9)));
    let bytes = [0x55u8, 0x54, 1, 0, 0];
    assert_eq!(Extra::decode(&bytes, 0), Ok((timestamp(None, None, None), 5)));
}

#[test]
fn unknown_extra_is_refused() {
    let bytes = [0x55u8, 0x58, 4, 0, 1, 2, 3, 4];
    assert_eq!(Extra::decode(&bytes, 0), Err(ZipError::UnsupportedExtra(0x5855)));
    let bytes = [0x01u8, 0x00];
    assert_eq!(Extra::decode(&bytes, 0), Err(ZipError::UnsupportedExtra(1)));
}

#[test]
fn truncated_extra_is_refused() {
    let whole = encoded(&ntfs(), false);
    for cut in 0..whole.len() {
        assert_eq!(Extra::decode(&whole[..cut], 0), Err(ZipError::UnexpectedEnd));
    }
    assert_eq!(Extra::decode(&whole, 1), Err(ZipError::UnsupportedExtra(0x2000)));
    assert_eq!(Extra::decode(&whole, whole.len()), Err(ZipError::UnexpectedEnd));
}

#[test]
fn extra_with_a_wrong_length_is_refused() {
    let mut bytes = encoded(&ntfs(), false);
    bytes[2] = 31;
    assert_eq!(Extra::decode(&bytes, 0), Err(ZipError::ExtraLength));
    let mut bytes = encoded(&attrs(), false);
    bytes[2] = 10;
    assert_eq!(Extra::decode(&bytes, 0), Err(ZipError::ExtraLength));
    let bytes = [0x55u8, 0x54, 0, 0];
    assert_eq!(Extra::decode(&bytes, 0), Err(ZipError::ExtraLength));
}

#[test]
fn ntfs_with_a_wrong_tag_or_size_is_refused() {
    let mut bytes = encoded(&ntfs(), false);
    bytes[8] = 2;
    assert_eq!(Extra::decode(&bytes, 0), Err(ZipError::InvalidNtfsTag));
    let mut bytes = encoded(&ntfs(), false);
    bytes[10] = 23;
    assert_eq!(Extra::decode(&bytes, 0), Err(ZipError::InvalidNtfsSize));
}

#[test]
fn timestamp_with_unknown_flags_is_refused() {
    let bytes = [0x55u8, 0x54, 5, 0, 8, 1, 0, 0, 0];
    assert_eq!(Extra::decode(&bytes, 0), Err(ZipError::InvalidTimestampFlags));
    let bytes = [0x55u8, 0x54, 1, 0, 0x80];
    assert_eq!(Extra::decode(&bytes, 0), Err(ZipError::InvalidTimestampFlags));
}

#[test]
fn runs_of_extras() {
    let extras = vec![timestamp(Some(1), Some(2), None), attrs(), ntfs()];
    assert_eq!(run_length(&extras, false), Some(13 + 15 + 36));
    assert_eq!(run_length(&extras, true), Some(9 + 15 + 36));
    assert_eq!(run_length(&vec![], true), Some(0));
    assert_eq!(add_run_size(30, &extras, false), 94);
    let mut out = vec![1u8, 2];
    encode_run(&extras, false, &mut out);
    assert_eq!(out.len(), 2 + 64);
    assert_eq!(decode_run(&out, 2, 64), Ok(extras.clone()));
    assert_eq!(decode_run(&out, 2, 0), Ok(vec![]));
    assert_eq!(decode_run(&out, 2, 13), Ok(vec![extras[0]]));
    assert_eq!(decode_run(&out, 2, 12), Err(ZipError::ExtraLength));
    assert_eq!(decode_run(&out, 2, 14), Err(ZipError::ExtraLength));
    assert_eq!(decode_run(&out, 2, 65), Err(ZipError::UnexpectedEnd));
    assert_eq!(decode_run(&out, 66, 0), Ok(vec![]));
    assert_eq!(decode_run(&out, 67, 0), Ok(vec![]));
    assert_eq!(decode_run(&out, 67, 1), Err(ZipError::UnexpectedEnd));
    assert_eq!(decode_run(&out, usize::MAX, u16::MAX), Err(ZipError::UnexpectedEnd));
    assert_eq!(decode_run(&out, 66, 1), Err(ZipError::UnexpectedEnd));
}

#[test]
fn a_run_too_long_for_its_length_field_has_no_length() {
    let extras = vec![ntfs(); 1821];
    assert_eq!(run_length(&extras, true), None);
    let extras = vec![ntfs(); 1820];
    assert_eq!(run_length(&extras, true), Some(65520));
}
