//! The commit log: the append-only log of message frames. One writer owns
//! the active segment; read-only mappings serve reads of every segment.

use crate::le_bytes::{le_u32, le_u64, lemma_u32_bytes_round_trip, lemma_u32_round_trip, u32_le};
use crate::message::{
    lemma_parse_encodes, lemma_round_trip, parse_frame, Message, MessageView, FIXED_HEADER_LEN,
};
use crate::mmap::{
    append_spec, footer_len, lemma_replay_bounds, mapped_bytes, mapped_len, mapping_len, reader_len,
    reader_read, replay, rotated,
    splice, MmapWriter, SegmentState, WriteError,
};
use crate::segment::{index_of, local_of};
use crate::start_offset::{stored_offset, StartOffset};
use memmap2::{Mmap, MmapMut};
use vstd::prelude::*;

verus! {

/// The writer of the commit log's active segment.
pub type CommitLogWriter = MmapWriter;

impl MmapWriter {
    /// Opens the commit log's active segment, which starts at `segment_start`
    /// and is mapped by `writer`, and recovers its cursor by replay from the
    /// checkpoint.
    pub fn commit_log_new(segment_start: u64, writer: MmapMut, checkpoint: &StartOffset) -> (r:
        Result<MmapWriter, WriteError>)
        ensures
            r is Ok <==> segment_start + mapped_bytes(writer).len() <= u64::MAX,
            r is Err ==> r == Err::<MmapWriter, WriteError>(WriteError::BadSegment),
            r matches Ok(w) ==> {
                let d = mapped_bytes(writer);
                let c = stored_offset(checkpoint.bytes());
                &&& w@.start == segment_start
                &&& w@.bytes == d
                &&& w@.cursor == replay(d, if c <= d.len() { c as int } else { d.len() as int })
                &&& w.wf(false)
            },
    {
        let offset = checkpoint.read();
        MmapWriter::new(segment_start, writer, Some(offset))
    }

    /// Appends a frame to the active segment and checkpoints the new cursor;
    /// returns the logical offset of the frame. Where the segment is full the
    /// error names the start of the next segment, which must be opened with
    /// [`MmapWriter::commit_log_new_writer_create`] before the append is
    /// tried again.
    pub fn commit_log_write(&mut self, data: &[u8], checkpoint: &mut StartOffset) -> (r: Result<
        u64,
        WriteError,
    >)
        requires
            old(self).wf(false),
        ensures
            (final(self)@, r) == append_spec(old(self)@, data@, false),
            final(self).wf(false),
            r is Ok && old(checkpoint).bytes().len() >= 8 ==> stored_offset(final(checkpoint).bytes())
                == final(self)@.cursor,
            r is Err ==> final(checkpoint).bytes() == old(checkpoint).bytes(),
            final(checkpoint).bytes().len() == old(checkpoint).bytes().len(),
    {
        let r = self.append(data, false);
        if r.is_ok() {
            checkpoint.write(self.prev_write_size as u64);
        }
        r
    }

    /// Appends `msg` with its `physical_offset` set to where its frame
    /// starts: the logical offset of the cursor. Where the segment is full
    /// nothing is written and the offset stays set to the full segment's
    /// cursor; it is set again by the append after the rotation.
    pub fn commit_log_write_message(
        &mut self,
        msg: &mut Message,
        checkpoint: &mut StartOffset,
    ) -> (r: Result<u64, WriteError>)
        requires
            old(self).wf(false),
        ensures
            final(msg)@ == (MessageView {
                physical_offset: (old(self)@.start + old(self)@.cursor) as u64,
                ..old(msg)@
            }),
            (final(self)@, r) == append_spec(old(self)@, final(msg)@.encode(), false),
            r matches Ok(o) ==> o == final(msg).physical_offset,
            final(self).wf(false),
            r is Ok && old(checkpoint).bytes().len() >= 8 ==> stored_offset(final(checkpoint).bytes())
                == final(self)@.cursor,
            r is Err ==> final(checkpoint).bytes() == old(checkpoint).bytes(),
            final(checkpoint).bytes().len() == old(checkpoint).bytes().len(),
    {
        msg.physical_offset = self.segment_start + self.prev_write_size as u64;
        let frame = msg.serialize_binary();
        self.commit_log_write(frame.as_slice(), checkpoint)
    }

    /// Makes the segment that follows the active one, mapped by
    /// `new_writer`, the active one, and resets the checkpoint to its start.
    /// The new mapping must be as large as the active one.
    pub fn commit_log_new_writer_create(&mut self, new_writer: MmapMut, checkpoint: &mut StartOffset) -> (r:
        Result<(), WriteError>)
        requires
            old(self).wf(false),
        ensures
            r is Ok <==> {
                &&& mapped_bytes(new_writer).len() == old(self)@.bytes.len()
                &&& old(self)@.start + 2 * old(self)@.bytes.len() <= u64::MAX
            },
            r is Ok ==> final(self)@ == rotated(
                (old(self)@.start + old(self)@.bytes.len()) as u64,
                mapped_bytes(new_writer),
            ),
            r is Ok && old(checkpoint).bytes().len() >= 8 ==> stored_offset(final(checkpoint).bytes())
                == 0,
            r is Err ==> r == Err::<(), WriteError>(WriteError::BadSegment) && final(self)@ == old(
                self,
            )@ && final(checkpoint).bytes() == old(checkpoint).bytes(),
            final(self).wf(false),
    {
        let cap = mapping_len(&self.writer);
        let next_start = self.segment_start + cap as u64;
        let r = self.new_writer_create(next_start, new_writer);
        if r.is_ok() {
            checkpoint.write(0);
        }
        r
    }
}

/// A full segment sends the data on to the next one: where the data fits in
/// an empty segment but not in the rest of the active one, the append changes
/// nothing and names the segment that starts `capacity` bytes later; once
/// that segment is the active one, the same append writes all the data at
/// its first byte, at the logical offset of that start, and a consume-queue
/// segment's footer then holds the data's length as its cursor.
pub proof fn lemma_rotation(s: SegmentState, data: Seq<u8>, footer: bool, next: Seq<u8>)
    requires
        data.len() + footer_len(footer) <= s.bytes.len(),
        s.cursor + data.len() + footer_len(footer) > s.bytes.len(),
        next.len() == s.bytes.len(),
        s.start + 2 * s.bytes.len() <= u64::MAX,
    ensures
        append_spec(s, data, footer) == (
            s,
            Err::<u64, WriteError>(
                WriteError::SegmentFull { next_start: (s.start + s.bytes.len()) as u64 },
            ),
        ),
        ({
            let n = rotated((s.start + s.bytes.len()) as u64, next);
            let (after, r) = append_spec(n, data, footer);
            &&& r == Ok::<u64, WriteError>((s.start + s.bytes.len()) as u64)
            &&& after.start == s.start + s.bytes.len()
            &&& after.cursor == data.len()
            &&& after.bytes.subrange(0, data.len() as int) == data
            &&& footer ==> after.bytes.subrange(next.len() - 8, next.len() as int) == le_u64(
                data.len() as u64,
            )
        }),
{
    let n = rotated((s.start + s.bytes.len()) as u64, next);
    let (after, r) = append_spec(n, data, footer);
    let written = splice(next, 0, data);
    assert(written.subrange(0, data.len() as int) =~= data);
    if footer {
        let cap = next.len() as int;
        assert(after.bytes.subrange(cap - 8, cap) =~= le_u64(data.len() as u64));
        assert(after.bytes.subrange(0, data.len() as int) =~= written.subrange(
            0,
            data.len() as int,
        ));
    }
}

/// The bytes of `ms`' frames, one after another.
pub open spec fn frames(ms: Seq<MessageView>) -> Seq<u8>
    decreases ms.len(),
{
    if ms.len() == 0 {
        Seq::empty()
    } else {
        ms[0].encode() + frames(ms.skip(1))
    }
}

/// A replay at a well-formed frame goes on past it.
proof fn lemma_replay_step(d: Seq<u8>, pos: int, m: MessageView)
    requires
        m.wf(),
        0 <= pos,
        pos + m.encode().len() <= d.len(),
        d.subrange(pos, pos + m.encode().len()) == m.encode(),
    ensures
        replay(d, pos) == replay(d, pos + m.encode().len()),
{
    let e = m.encode();
    lemma_round_trip(m);
    assert(d.subrange(pos, pos + 4) =~= e.subrange(0, 4));
    lemma_u32_round_trip(m.msg_len);
    assert(u32_le(d.subrange(pos, pos + 4)) == m.msg_len);
    assert(d.subrange(pos + 4, pos + 4 + m.msg_len) =~= e.subrange(4, e.len() as int));
}

/// Bytes at which a replay stops: too few for a length field, a length too
/// small for a frame, a frame that runs past the end (a torn write), or one
/// that does not parse or fails its checksum.
pub open spec fn ends_log(tail: Seq<u8>) -> bool {
    tail.len() < 4 || ({
        let len = u32_le(tail.subrange(0, 4));
        len + 4 < FIXED_HEADER_LEN || 4 + len > tail.len() || parse_frame(
            tail.subrange(4, 4 + len),
            len,
        ) is Err
    })
}

/// Recovery finds the true cursor from any checkpoint that does not pass
/// it: where a segment holds some bytes, then whole well-formed frames, then
/// bytes at which a replay stops (unwritten zeros, a torn frame, a bad
/// checksum), a replay that starts where the frames start stops exactly where
/// the last frame ends, neither before nor past it.
pub proof fn lemma_recovery(prefix: Seq<u8>, ms: Seq<MessageView>, tail: Seq<u8>)
    requires
        forall|i: int| 0 <= i < ms.len() ==> (#[trigger] ms[i]).wf(),
        ends_log(tail),
    ensures
        replay(prefix + frames(ms) + tail, prefix.len() as int) == prefix.len() + frames(ms).len(),
    decreases ms.len(),
{
    let d = prefix + frames(ms) + tail;
    let pos = prefix.len() as int;
    if ms.len() == 0 {
        assert(d =~= prefix + tail);
        if pos + 4 <= d.len() {
            assert(d.subrange(pos, pos + 4) =~= tail.subrange(0, 4));
            let len = u32_le(tail.subrange(0, 4));
            if pos + 4 + len <= d.len() {
                assert(d.subrange(pos + 4, pos + 4 + len) =~= tail.subrange(4, 4 + len));
            }
        }
    } else {
        let m = ms[0];
        let e = m.encode();
        let rest = ms.skip(1);
        assert(frames(ms) == e + frames(rest));
        assert(d =~= (prefix + e) + frames(rest) + tail);
        assert(d.subrange(pos, pos + e.len()) =~= e);
        lemma_replay_step(d, pos, m);
        assert forall|i: int| 0 <= i < rest.len() implies (#[trigger] rest[i]).wf() by {
            assert(rest[i] == ms[i + 1]);
        }
        lemma_recovery(prefix + e, rest, tail);
    }
}

/// The frames that a replay from `pos` passes over, in order.
pub open spec fn replayed_frames(d: Seq<u8>, pos: int) -> Seq<MessageView>
    decreases d.len() - pos,
{
    if pos < 0 || pos + 4 > d.len() {
        Seq::empty()
    } else {
        let len = u32_le(d.subrange(pos, pos + 4));
        if len + 4 < FIXED_HEADER_LEN || pos + 4 + len > d.len() {
            Seq::empty()
        } else {
            match parse_frame(d.subrange(pos + 4, pos + 4 + len), len) {
                Err(_) => Seq::empty(),
                Ok(v) => seq![v] + replayed_frames(d, pos + 4 + len),
            }
        }
    }
}

/// A recovered cursor never lands mid-frame nor past valid data: from where
/// the replay starts to where it stops, the segment holds nothing but whole,
/// well-formed frames with matching checksums, one after another.
pub proof fn lemma_replay_whole_frames(d: Seq<u8>, pos: int)
    requires
        0 <= pos <= d.len(),
    ensures
        pos <= replay(d, pos) <= d.len(),
        forall|i: int| 0 <= i < replayed_frames(d, pos).len() ==> (#[trigger] replayed_frames(
            d,
            pos,
        )[i]).wf(),
        d.subrange(pos, replay(d, pos)) == frames(replayed_frames(d, pos)),
    decreases d.len() - pos,
{
    lemma_replay_bounds(d, pos);
    let fs = replayed_frames(d, pos);
    if pos + 4 <= d.len() {
        let len = u32_le(d.subrange(pos, pos + 4));
        let next = pos + 4 + len;
        if len + 4 >= FIXED_HEADER_LEN && next <= d.len() && parse_frame(
            d.subrange(pos + 4, next),
            len,
        ) is Ok {
            let x = d.subrange(pos + 4, next);
            let v = parse_frame(x, len)->Ok_0;
            lemma_replay_whole_frames(d, next);
            lemma_parse_encodes(x, len);
            lemma_u32_bytes_round_trip(d.subrange(pos, pos + 4));
            let rest = replayed_frames(d, next);
            assert(fs == seq![v] + rest);
            assert(fs.skip(1) =~= rest);
            assert(x.subrange(0, len as int) =~= x);
            assert(d.subrange(pos, next) =~= le_u32(len) + x);
            assert(d.subrange(pos, replay(d, pos)) =~= d.subrange(pos, next) + d.subrange(
                next,
                replay(d, next),
            ));
            assert forall|i: int| 0 <= i < fs.len() implies (#[trigger] fs[i]).wf() by {
                if i > 0 {
                    assert(fs[i] == rest[i - 1]);
                }
            }
            return;
        }
    }
    assert(d.subrange(pos, replay(d, pos)) =~= Seq::<u8>::empty());
}

/// Recovering again from a recovered cursor changes nothing.
pub proof fn lemma_replay_idempotent(d: Seq<u8>, pos: int)
    requires
        0 <= pos <= d.len(),
    ensures
        replay(d, replay(d, pos)) == replay(d, pos),
    decreases d.len() - pos,
{
    if pos + 4 <= d.len() {
        let len = u32_le(d.subrange(pos, pos + 4));
        if len + 4 >= FIXED_HEADER_LEN && pos + 4 + len <= d.len() && parse_frame(
            d.subrange(pos + 4, pos + 4 + len),
            len,
        ) is Ok {
            lemma_replay_idempotent(d, pos + 4 + len);
        }
    }
}

/// A read-only mapping of one commit-log segment.
pub struct MmapReader {
    /// Logical offset of the segment's first byte.
    pub segment_start: u64,
    pub reader: Mmap,
}

/// Why a read found nothing.
#[derive(Debug, Clone, Copy, PartialEq, Eq, Structural)]
pub enum ReadError {
    /// No mapping covers the requested bytes.
    OutOfRange,
}

/// `readers` serve `size` bytes at logical `offset`: the reader at the
/// offset's segment index starts that segment, and the bytes lie within it.
pub open spec fn readable(readers: Seq<MmapReader>, capacity: u64, offset: u64, size: u32) -> bool {
    let i = index_of(offset, capacity);
    &&& i < readers.len()
    &&& readers[i as int].segment_start == offset - local_of(offset, capacity)
    &&& local_of(offset, capacity) + size <= mapped_len(readers[i as int].reader)
}

impl MmapReader {
    pub fn new(segment_start: u64, reader: Mmap) -> (r: MmapReader)
        ensures
            r.segment_start == segment_start,
            r.reader == reader,
    {
        MmapReader { segment_start, reader }
    }

    /// Reads `size` bytes at logical `offset` from the segment mappings
    /// `readers`, the one of index `i` covering the segment that starts at
    /// `i * capacity`.
    pub fn read(readers: &[MmapReader], capacity: u64, offset: u64, size: u32) -> (r: Result<
        Vec<u8>,
        ReadError,
    >)
        requires
            capacity > 0,
        ensures
            r is Ok <==> readable(readers@, capacity, offset, size),
            r matches Ok(v) ==> v@.len() == size,
            r is Err ==> r == Err::<Vec<u8>, ReadError>(ReadError::OutOfRange),
    {
        let index = offset / capacity;
        let local = offset % capacity;
        assert(local <= offset) by (nonlinear_arith)
            requires
                local == offset % capacity,
                capacity > 0,
        ;
        if index >= readers.len() as u64 {
            return Err(ReadError::OutOfRange);
        }
        let reader = &readers[index as usize];
        if reader.segment_start != offset - local {
            return Err(ReadError::OutOfRange);
        }
        let len = reader_len(&reader.reader);
        if local > len as u64 || size as u64 > len as u64 - local {
            return Err(ReadError::OutOfRange);
        }
        Ok(reader_read(&reader.reader, local as usize, local as usize + size as usize))
    }
}

} // verus!
