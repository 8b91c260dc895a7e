use fast_zip::eocd::EoCd;
use fast_zip::error::ZipError;
use fast_zip::zip::Parser;

fn trailer(comment_length: u16) -> EoCd<Parser> {
    EoCd {
        kind: Parser,
        number_of_disk: 1,
        directory_starts: 2,
        number_of_directory_disk: 3,
        entries: 4,
        size: 0x0506_0708,
        offset: 0x090A_0B0C,
        comment_length,
    }
}

fn with_trailer_before_comment(total: usize, comment: usize) -> Vec<u8> {
    let mut data = vec![0u8; total - 22 - comment];
    trailer(comment as u16).encode(&mut data);
    data.resize(total, 0x20);
    data
}

#[test]
fn trailer_on_the_wire() {
    let mut out = vec![];
    trailer(7).encode(&mut out);
    assert_eq!(
        out,
        vec![
            0x50, 0x4B, 0x05, 0x06, 1, 0, 2, 0, 3, 0, 4, 0, 8, 7, 6, 5, 0x0C, 0x0B, 0x0A, 9, 7, 0,
        ]
    );
    assert_eq!(EoCd::<Parser>::decode(&out), Ok(trailer(7)));
    assert_eq!(EoCd::<Parser>::find_offset(&out), Ok(22));
}

#[test]
fn trailer_is_found_before_a_comment_of_any_length() {
    for comment in [0usize, 1, 3, 4, 21, 22, 23, 100, 4096, 65534, 65535] {
        for slack in [0usize, 1, 50] {
            let total = 22 + comment + slack;
            let data = with_trailer_before_comment(total, comment);
            assert_eq!(EoCd::<Parser>::find_offset(&data), Ok(22 + comment as u64));
            assert_eq!(EoCd::<Parser>::decode(&data), Ok(trailer(comment as u16)));
        }
    }
}

#[test]
fn trailer_beyond_the_reach_is_not_found() {
    let mut data = with_trailer_before_comment(22 + 65535, 65535);
    data.push(0x20);
    assert_eq!(EoCd::<Parser>::find_offset(&data), Err(ZipError::NotZip));
    data.pop();
    assert_eq!(EoCd::<Parser>::find_offset(&data), Ok(65557));
}

#[test]
fn input_without_trailer_is_no_archive() {
    assert_eq!(EoCd::<Parser>::find_offset(&[]), Err(ZipError::NotZip));
    assert_eq!(EoCd::<Parser>::find_offset(&[0u8; 21]), Err(ZipError::NotZip));
    assert_eq!(EoCd::<Parser>::find_offset(&[0u8; 100]), Err(ZipError::NotZip));
    assert_eq!(EoCd::<Parser>::decode(&[0u8; 100]), Err(ZipError::NotZip));
    let mut short = vec![];
    trailer(0).encode(&mut short);
    short.pop();
    assert_eq!(EoCd::<Parser>::find_offset(&short), Err(ZipError::NotZip));
    let mut late = vec![0u8; 30];
    late.extend_from_slice(&[0x50, 0x4B, 0x05, 0x06]);
    late.extend_from_slice(&[0u8; 17]);
    assert_eq!(EoCd::<Parser>::find_offset(&late), Err(ZipError::NotZip));
    late.push(0);
    assert_eq!(EoCd::<Parser>::find_offset(&late), Ok(22));
}

#[test]
fn the_signature_nearest_to_the_end_is_the_trailer() {
    let mut data = with_trailer_before_comment(22 + 40, 40);
    assert_eq!(EoCd::<Parser>::find_offset(&data), Ok(62));
    let at = data.len() - 30;
    data[at..at + 4].copy_from_slice(&[0x50, 0x4B, 0x05, 0x06]);
    assert_eq!(EoCd::<Parser>::find_offset(&data), Ok(30));
    let at = data.len() - 10;
    data[at..at + 4].copy_from_slice(&[0x50, 0x4B, 0x05, 0x06]);
    assert_eq!(EoCd::<Parser>::find_offset(&data), Ok(30));
}

#[test]
fn trailer_changes_state_and_keeps_its_fields() {
    let cached = trailer(9).to_cache();
    assert_eq!(cached.entries, 4);
    assert_eq!(cached.size, 0x0506_0708);
    assert_eq!(cached.to_parser(), trailer(9));
}
