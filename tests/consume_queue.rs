use delay_message_rs::consume_queue::{
    delay_of_prop, parse_u32, ConsumeQueueWriter, Expiry, QueueError, QueueMessage,
};
use delay_message_rs::data_process_util::hashcode;
use delay_message_rs::message::Message;
use delay_message_rs::mmap::{MmapWriter, WriteError};
use memmap2::MmapMut;

fn anon(len: usize) -> MmapMut {
    MmapMut::map_anon(len).unwrap()
}

#[test]
fn record_fields_and_bytes() {
    assert_eq!(QueueMessage::len(), 24);
    let (q, secs) = QueueMessage::new(512, 70, "topic_oms", 10);
    assert_eq!(secs, 10);
    assert_eq!(q.tag_hashcode, hashcode(b"topic_oms"));
    assert_eq!(q.duration(), 10);
    assert!(!q.is_block_message());
    let bytes = q.serialize_binary();
    assert_eq!(bytes.len(), 24);
    assert_eq!(&bytes[0..8], &512u64.to_le_bytes());
    assert_eq!(&bytes[8..12], &70u32.to_le_bytes());
    assert_eq!(&bytes[12..20], &q.tag_hashcode.to_le_bytes());
    assert_eq!(&bytes[20..24], &10u32.to_le_bytes());
}

#[test]
fn record_from_message_takes_the_delay_field() {
    let m = Message::new(
        140,
        0,
        0,
        b"body".to_vec(),
        b"topic_oms".to_vec(),
        b"_delay-10".to_vec(),
    )
    .unwrap();
    let (q, secs) = QueueMessage::from_message(&m).unwrap();
    assert_eq!(secs, 10);
    assert_eq!(q.physical_offset, 140);
    assert_eq!(q.size, m.msg_len + 4);
    assert_eq!(q.tag_hashcode, hashcode(b"topic_oms"));
    assert_eq!(q.delay_time, 10);
}

#[test]
fn delay_parsing() {
    assert_eq!(delay_of_prop(b"_delay-10"), Ok(10));
    assert_eq!(delay_of_prop(b"_delay-+7-extra"), Ok(7));
    assert_eq!(delay_of_prop(b"_delay"), Err(QueueError::MissingDelay));
    assert_eq!(delay_of_prop(b"_delay-"), Err(QueueError::BadDelay));
    assert_eq!(delay_of_prop(b"_delay-1x"), Err(QueueError::BadDelay));
    assert_eq!(delay_of_prop(b"_delay-4294967296"), Err(QueueError::BadDelay));
    assert_eq!(parse_u32(b"4294967295"), Some(u32::MAX));
    assert_eq!(parse_u32(b"+"), None);
    assert_eq!(parse_u32(b""), None);
}

#[test]
fn sentinel_is_put_back_and_never_delivered() {
    let (block, secs) = QueueMessage::block_message(31_536_000);
    assert_eq!(secs, 31_536_000);
    assert!(block.is_block_message());
    assert_eq!(
        block.expire(31_536_000),
        Expiry::Reinsert { record: block, secs: 31_536_000 }
    );
    let (q, _) = QueueMessage::new(1, 70, "t", 3);
    assert_eq!(q.expire(31_536_000), Expiry::Deliver { record: q });
}

#[test]
fn queue_segment_keeps_cursor_in_footer() {
    let mut w: ConsumeQueueWriter = MmapWriter::consume_queue_new(0, anon(64)).unwrap();
    assert_eq!(w.prev_write_size, 0);
    let (q, _) = QueueMessage::new(0, 70, "topic_oms", 10);
    let rec = q.serialize_binary();
    assert_eq!(w.consume_queue_write(&rec), Ok(0));
    assert_eq!(&w.writer[56..64], &24u64.to_le_bytes());
    assert_eq!(w.consume_queue_write(&rec), Ok(24));
    assert_eq!(&w.writer[56..64], &48u64.to_le_bytes());
    assert_eq!(
        w.consume_queue_write(&rec),
        Err(WriteError::SegmentFull { next_start: 64 })
    );
    let reopened = MmapWriter::consume_queue_new(0, w.writer).unwrap();
    assert_eq!(reopened.prev_write_size, 48);
    assert_eq!(&reopened.writer[24..48], rec.as_slice());
}

#[test]
fn queue_segment_rotates() {
    let mut w = MmapWriter::consume_queue_new(0, anon(32)).unwrap();
    let (q, _) = QueueMessage::new(0, 70, "topic_oms", 10);
    let rec = q.serialize_binary();
    assert_eq!(w.consume_queue_write(&rec), Ok(0));
    assert_eq!(
        w.consume_queue_write(&rec),
        Err(WriteError::SegmentFull { next_start: 32 })
    );
    assert_eq!(w.consume_queue_new_writer_create(anon(32)), Ok(()));
    assert_eq!(w.consume_queue_write(&rec), Ok(32));
    assert_eq!(MmapWriter::consume_queue_new(0, anon(4)).err(), Some(WriteError::BadSegment));
}

#[test]
fn unreadable_footer_gives_zero() {
    let mut map = anon(64);
    map[56..64].copy_from_slice(&1000u64.to_le_bytes());
    let w = MmapWriter::consume_queue_new(0, map).unwrap();
    assert_eq!(w.prev_write_size, 0);
}
