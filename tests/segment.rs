use delay_message_rs::mmap::MmapWriter;
use delay_message_rs::segment::{
    latest_segment_start, local_offset, parse_segment_name, segment_file_name, segment_index,
};

#[test]
fn segment_names_are_twenty_digits() {
    assert_eq!(segment_file_name(0), b"00000000000000000000".to_vec());
    assert_eq!(segment_file_name(200), b"00000000000000000200".to_vec());
    assert_eq!(
        segment_file_name(u64::MAX),
        b"18446744073709551615".to_vec()
    );
    assert_eq!(parse_segment_name(b"00000000000000000200"), Some(200));
    assert_eq!(parse_segment_name(&segment_file_name(123456789)), Some(123456789));
    assert_eq!(parse_segment_name(b"18446744073709551616"), None);
    assert_eq!(parse_segment_name(b"0000000000000000020"), None);
    assert_eq!(parse_segment_name(b"0000000000000000020x"), None);
}

#[test]
fn offsets_split_into_segment_and_position() {
    assert_eq!(segment_index(0, 200), 0);
    assert_eq!(local_offset(0, 200), 0);
    assert_eq!(segment_index(199, 200), 0);
    assert_eq!(local_offset(199, 200), 199);
    assert_eq!(segment_index(200, 200), 1);
    assert_eq!(local_offset(200, 200), 0);
    assert_eq!(segment_index(470, 200), 2);
    assert_eq!(local_offset(470, 200), 70);
}

#[test]
fn newest_segment_is_opened() {
    assert_eq!(latest_segment_start(&[]), 0);
    assert_eq!(latest_segment_start(&[400, 0, 200]), 400);
    assert_eq!(MmapWriter::file_name_create(&[0, 200]), 200);
}
