use delay_message_rs::data_process_util::{crc32, crc_check, hashcode, CrcError};
use delay_message_rs::message::{Message, MessageError};
use std::collections::hash_map::DefaultHasher;
use std::hash::{Hash, Hasher};
use std::time::SystemTime;

fn poem(body: &str) -> Message {
    Message::new(
        0,
        1232432443,
        1232432999,
        body.as_bytes().to_vec(),
        b"topic_oms".to_vec(),
        Vec::new(),
    )
    .unwrap()
}

#[test]
fn test_word_len() {
    let timestamp = SystemTime::now()
        .duration_since(SystemTime::UNIX_EPOCH)
        .unwrap()
        .as_secs();
    println!("timestamp: {timestamp}");
}

#[test]
fn concrete_frame_lengths() {
    let m = poem("此情可待成追忆");
    assert_eq!(m.body_len, 21);
    assert_eq!(m.topic_len, 9);
    assert_eq!(m.prop_len, 0);
    assert_eq!(m.msg_len, 66);
    assert_eq!(m.msg_len(), 70);
    assert_eq!(Message::mix_len(), 40);
    let frame = m.serialize_binary();
    assert_eq!(frame.len(), 4 + 36 + 21 + 9);
    assert_eq!(&frame[0..4], &66u32.to_le_bytes());
    assert_eq!(&frame[4..8], &crc32("此情可待成追忆".as_bytes()).to_le_bytes());
    assert_eq!(&frame[16..24], &1232432443u64.to_le_bytes());
    assert_eq!(&frame[32..36], &21u32.to_le_bytes());
    assert_eq!(&frame[36..57], "此情可待成追忆".as_bytes());
}

#[test]
fn round_trip_restores_every_field() {
    let m = Message::new(
        4096,
        7,
        9,
        b"hello".to_vec(),
        b"orders".to_vec(),
        b"_delay-10".to_vec(),
    )
    .unwrap();
    let frame = m.serialize_binary();
    let back = Message::deserialize_binary(&frame[4..], m.msg_len).unwrap();
    assert_eq!(back.msg_len, m.msg_len);
    assert_eq!(back.body_crc, crc32(b"hello"));
    assert_eq!(back.physical_offset, 4096);
    assert_eq!(back.send_timestamp, 7);
    assert_eq!(back.store_timestamp, 9);
    assert_eq!(back.body, b"hello".to_vec());
    assert_eq!(back.topic, b"orders".to_vec());
    assert_eq!(back.prop, b"_delay-10".to_vec());
    assert_eq!(back.serialize_binary(), frame);
}

#[test]
fn decode_rejects_corrupt_body() {
    let m = poem("只是当时已惘然");
    let mut frame = m.serialize_binary();
    frame[40] ^= 1;
    assert_eq!(
        Message::deserialize_binary(&frame[4..], m.msg_len).unwrap_err(),
        MessageError::ChecksumMismatch
    );
}

#[test]
fn decode_rejects_short_and_mislabelled_frames() {
    let m = poem("abc");
    let frame = m.serialize_binary();
    assert_eq!(
        Message::deserialize_binary(&frame[4..20], m.msg_len).unwrap_err(),
        MessageError::Truncated
    );
    assert_eq!(
        Message::deserialize_binary(&frame[4..frame.len() - 1], m.msg_len).unwrap_err(),
        MessageError::Truncated
    );
    assert_eq!(
        Message::deserialize_binary(&frame[4..], m.msg_len + 1).unwrap_err(),
        MessageError::LengthMismatch
    );
}

#[test]
fn new_rejects_overlong_topic() {
    let r = Message::new(0, 0, 0, Vec::new(), vec![b'a'; 70_000], Vec::new());
    assert_eq!(r.unwrap_err(), MessageError::TooLong);
}

#[test]
fn crc32_matches_cksum_check_value() {
    assert_eq!(crc32(b"123456789"), 0x765E_7680);
    assert_eq!(crc_check(0x765E_7680, b"123456789"), Ok(()));
    assert_eq!(
        crc_check(1, b"123456789"),
        Err(CrcError::Mismatch { computed: 0x765E_7680, stored: 1 })
    );
}

#[test]
fn hashcode_is_the_str_hash() {
    let mut s = DefaultHasher::new();
    "topic_oms".hash(&mut s);
    assert_eq!(hashcode(b"topic_oms"), s.finish());
    assert_eq!(hashcode(b"topic_oms"), hashcode(b"topic_oms"));
    assert_ne!(hashcode(b"topic_oms"), hashcode(b"topic_sms"));
}

#[test]
fn frame_checksum_is_recomputed_from_body() {
    let mut m = poem("此情可待成追忆");
    m.body_crc = 342342;
    let frame = m.serialize_binary();
    assert_eq!(&frame[4..8], &crc32("此情可待成追忆".as_bytes()).to_le_bytes());
    let back = Message::deserialize_binary(&frame[4..], m.msg_len).unwrap();
    assert_eq!(back.body_crc, crc32("此情可待成追忆".as_bytes()));
}

#[test]
fn checksum_is_checked_before_the_topic_is_read() {
    let m = poem("abc");
    let mut frame = m.serialize_binary();
    frame[36] ^= 1;
    // The bytes stop right after the body, before the topic length.
    assert_eq!(
        Message::deserialize_binary(&frame[4..39], m.msg_len).unwrap_err(),
        MessageError::ChecksumMismatch
    );
    assert_eq!(
        Message::deserialize_binary(&frame[4..30], m.msg_len).unwrap_err(),
        MessageError::Truncated
    );
}
