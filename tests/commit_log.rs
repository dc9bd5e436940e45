use delay_message_rs::commit_log::{CommitLogWriter, MmapReader, ReadError};
use delay_message_rs::message::Message;
use delay_message_rs::mmap::{MmapWriter, WriteError};
use delay_message_rs::start_offset::StartOffset;
use memmap2::MmapMut;

fn anon(len: usize) -> MmapMut {
    MmapMut::map_anon(len).unwrap()
}

fn frame(body: &str) -> Vec<u8> {
    Message::new(
        0,
        1232432443,
        1232432999,
        body.as_bytes().to_vec(),
        b"topic_oms".to_vec(),
        Vec::new(),
    )
    .unwrap()
    .serialize_binary()
}

fn fresh_log(capacity: usize) -> (CommitLogWriter, StartOffset) {
    let checkpoint = StartOffset::new(anon(8));
    let writer = MmapWriter::commit_log_new(0, anon(capacity), &checkpoint).unwrap();
    (writer, checkpoint)
}

#[test]
fn commit_log_test_01_write_message() {
    let (mut writer, mut checkpoint) = fresh_log(1024);
    let x = frame("此情可待成追忆");
    assert_eq!(writer.commit_log_write(&x, &mut checkpoint), Ok(0));
    let x2 = frame("只是当时已茫然");
    assert_eq!(writer.commit_log_write(&x2, &mut checkpoint), Ok(70));
    assert_eq!(checkpoint.read(), 140);
    assert_eq!(&writer.writer[70..140], x2.as_slice());
}

#[test]
fn mmap_writer_test_01_write_message() {
    let (mut writer, mut checkpoint) = fresh_log(1024);
    let x = frame("此情可待成追忆");
    writer.commit_log_write(&x, &mut checkpoint).unwrap();
    let x2 = frame("只是当时已惘然");
    writer.commit_log_write(&x2, &mut checkpoint).unwrap();
    assert_eq!(writer.prev_write_size, 140);
    assert_eq!(&writer.writer[0..70], x.as_slice());
}

#[test]
fn test_start_offset_read() {
    let mut checkpoint = StartOffset::new(anon(8));
    assert_eq!(checkpoint.read(), 0);
    checkpoint.write(4242);
    assert_eq!(checkpoint.read(), 4242);
    let mut short = StartOffset::new(anon(4));
    short.write(9);
    assert_eq!(short.read(), 0);
}

#[test]
fn third_frame_rotates_once() {
    let (mut writer, mut checkpoint) = fresh_log(200);
    let f = frame("此情可待成追忆");
    assert_eq!(f.len(), 70);
    assert_eq!(writer.commit_log_write(&f, &mut checkpoint), Ok(0));
    assert_eq!(writer.commit_log_write(&f, &mut checkpoint), Ok(70));
    assert_eq!(writer.segment_start, 0);
    assert_eq!(
        writer.commit_log_write(&f, &mut checkpoint),
        Err(WriteError::SegmentFull { next_start: 200 })
    );
    assert_eq!(writer.prev_write_size, 140);
    assert_eq!(writer.commit_log_new_writer_create(anon(200), &mut checkpoint), Ok(()));
    assert_eq!(checkpoint.read(), 0);
    assert_eq!(writer.segment_start, 200);
    assert_eq!(writer.commit_log_write(&f, &mut checkpoint), Ok(200));
    assert_eq!(&writer.writer[0..70], f.as_slice());
    assert_eq!(writer.prev_write_size, 70);
    assert_eq!(checkpoint.read(), 70);
}

#[test]
fn oversized_frame_and_mismatched_segment_are_refused() {
    let (mut writer, mut checkpoint) = fresh_log(60);
    let f = frame("此情可待成追忆");
    assert_eq!(writer.commit_log_write(&f, &mut checkpoint), Err(WriteError::TooLarge));
    assert_eq!(
        writer.commit_log_new_writer_create(anon(100), &mut checkpoint),
        Err(WriteError::BadSegment)
    );
    assert_eq!(writer.segment_start, 0);
}

#[test]
fn recovery_replays_past_a_lagging_checkpoint() {
    let (mut writer, mut checkpoint) = fresh_log(400);
    let f = frame("此情可待成追忆");
    for _ in 0..3 {
        writer.commit_log_write(&f, &mut checkpoint).unwrap();
    }
    for lag in [0u64, 70, 140, 210] {
        let mut stale = StartOffset::new(anon(8));
        stale.write(lag);
        let map = std::mem::replace(&mut writer.writer, anon(400));
        let reopened = MmapWriter::commit_log_new(0, map, &stale).unwrap();
        assert_eq!(reopened.prev_write_size, 210);
        writer.writer = reopened.writer;
    }
}

#[test]
fn recovery_stops_at_a_corrupt_frame() {
    let (mut writer, mut checkpoint) = fresh_log(400);
    let f = frame("此情可待成追忆");
    for _ in 0..3 {
        writer.commit_log_write(&f, &mut checkpoint).unwrap();
    }
    writer.writer[70 + 45] ^= 0xff;
    let mut stale = StartOffset::new(anon(8));
    stale.write(0);
    let reopened = MmapWriter::commit_log_new(0, writer.writer, &stale).unwrap();
    assert_eq!(reopened.prev_write_size, 70);
}

#[test]
fn reads_resolve_segment_and_position() {
    let (mut writer, mut checkpoint) = fresh_log(200);
    let f = frame("此情可待成追忆");
    writer.commit_log_write(&f, &mut checkpoint).unwrap();
    writer.commit_log_write(&f, &mut checkpoint).unwrap();
    let first = std::mem::replace(&mut writer.writer, anon(1));
    let readers = vec![MmapReader::new(0, first.make_read_only().unwrap())];
    assert_eq!(MmapReader::read(&readers, 200, 70, 70), Ok(f.clone()));
    assert_eq!(MmapReader::read(&readers, 200, 150, 60), Err(ReadError::OutOfRange));
    assert_eq!(MmapReader::read(&readers, 200, 200, 10), Err(ReadError::OutOfRange));
}

#[test]
fn appended_messages_carry_their_offsets() {
    let (mut writer, mut checkpoint) = fresh_log(200);
    let mut m = Message::new(
        999,
        1,
        2,
        "此情可待成追忆".as_bytes().to_vec(),
        b"topic_oms".to_vec(),
        b"_delay-10".to_vec(),
    )
    .unwrap();
    assert_eq!(writer.commit_log_write_message(&mut m, &mut checkpoint), Ok(0));
    assert_eq!(m.physical_offset, 0);
    assert_eq!(writer.commit_log_write_message(&mut m, &mut checkpoint), Ok(79));
    assert_eq!(m.physical_offset, 79);
    assert_eq!(
        writer.commit_log_write_message(&mut m, &mut checkpoint),
        Err(WriteError::SegmentFull { next_start: 200 })
    );
    writer.commit_log_new_writer_create(anon(200), &mut checkpoint).unwrap();
    assert_eq!(writer.commit_log_write_message(&mut m, &mut checkpoint), Ok(200));
    assert_eq!(m.physical_offset, 200);
    let stored = Message::deserialize_binary(&writer.writer[4..79], m.msg_len).unwrap();
    assert_eq!(stored.physical_offset, 200);
    assert_eq!(stored.prop, b"_delay-10".to_vec());
}

#[test]
fn recovery_keeps_the_smallest_frames() {
    let (mut writer, mut checkpoint) = fresh_log(400);
    let tiny = Message::new(0, 0, 0, b"a".to_vec(), Vec::new(), Vec::new())
        .unwrap()
        .serialize_binary();
    assert_eq!(tiny.len(), 41);
    writer.commit_log_write(&tiny, &mut checkpoint).unwrap();
    writer.commit_log_write(&tiny, &mut checkpoint).unwrap();
    let mut stale = StartOffset::new(anon(8));
    stale.write(0);
    let reopened = MmapWriter::commit_log_new(0, writer.writer, &stale).unwrap();
    assert_eq!(reopened.prev_write_size, 82);
}

#[test]
fn recovery_stops_before_a_torn_frame() {
    let (mut writer, mut checkpoint) = fresh_log(400);
    let f = frame("此情可待成追忆");
    writer.commit_log_write(&f, &mut checkpoint).unwrap();
    writer.commit_log_write(&f[..50], &mut checkpoint).unwrap();
    let mut stale = StartOffset::new(anon(8));
    stale.write(0);
    let reopened = MmapWriter::commit_log_new(0, writer.writer, &stale).unwrap();
    assert_eq!(reopened.prev_write_size, 70);
}
