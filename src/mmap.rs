//! Memory-mapped segments: the writable mapping of a log's active segment,
//! read-only mappings of its segments, and how the write cursor of a segment
//! is recovered when it is opened.

use crate::le_bytes::{le_u64, read_u32, read_u64, u32_le, u64_le};
use crate::message::{parse_frame, Message, FIXED_HEADER_LEN};
use memmap2::{Mmap, MmapMut};
use vstd::prelude::*;

verus! {

#[verifier::external_type_specification]
#[verifier::external_body]
pub struct ExMmapMut(memmap2::MmapMut);

#[verifier::external_type_specification]
#[verifier::external_body]
pub struct ExMmap(memmap2::Mmap);

/// What a writable mapping holds. Its owner is the one writer of the mapped
/// file: the bytes change only through the writes below.
pub uninterp spec fn mapped_bytes(m: MmapMut) -> Seq<u8>;

/// How many bytes a read-only mapping covers. Its contents may change under
/// it, since the writer of the same file shares them.
pub uninterp spec fn mapped_len(m: Mmap) -> nat;

/// Relies on memmap2's `MmapMut` dereferencing to its bytes: their count.
#[verifier::external_body]
pub(crate) fn mapping_len(m: &MmapMut) -> (r: usize)
    ensures
        r == mapped_bytes(*m).len(),
{
    m.len()
}

/// Relies on memmap2's `MmapMut` dereferencing to its bytes: a copy of
/// `start..end`.
#[verifier::external_body]
pub(crate) fn mapping_read(m: &MmapMut, start: usize, end: usize) -> (r: Vec<u8>)
    requires
        start <= end <= mapped_bytes(*m).len(),
    ensures
        r@ == mapped_bytes(*m).subrange(start as int, end as int),
{
    m[start..end].to_vec()
}

/// The bytes `b` with `data` written over them from `at` on.
pub open spec fn splice(b: Seq<u8>, at: int, data: Seq<u8>) -> Seq<u8> {
    b.subrange(0, at) + data + b.subrange(at + data.len(), b.len() as int)
}

/// Relies on memmap2's `MmapMut` dereferencing mutably to its bytes: `data`
/// is copied over them from `at` on, the rest is kept.
#[verifier::external_body]
pub(crate) fn mapping_write(m: &mut MmapMut, at: usize, data: &[u8])
    requires
        at + data@.len() <= mapped_bytes(*old(m)).len(),
    ensures
        mapped_bytes(*final(m)) == splice(mapped_bytes(*old(m)), at as int, data@),
{
    m[at..at + data.len()].copy_from_slice(data)
}

/// Relies on memmap2's `Mmap` dereferencing to its bytes: their count.
#[verifier::external_body]
pub(crate) fn reader_len(m: &Mmap) -> (r: usize)
    ensures
        r == mapped_len(*m),
{
    m.len()
}

/// Relies on memmap2's `Mmap` dereferencing to its bytes: a copy of
/// `start..end`.
#[verifier::external_body]
pub(crate) fn reader_read(m: &Mmap, start: usize, end: usize) -> (r: Vec<u8>)
    requires
        start <= end <= mapped_len(*m),
    ensures
        r@.len() == end - start,
{
    m[start..end].to_vec()
}

/// Where the replay of a commit-log segment from `pos` stops: frames are read
/// one after another, each a length field and that many bytes, as long as the
/// whole frame is at least as long as the fixed header, fits in the segment
/// and parses with a matching checksum.
pub open spec fn replay(d: Seq<u8>, pos: int) -> int
    decreases d.len() - pos,
{
    if pos < 0 || pos + 4 > d.len() {
        pos
    } else {
        let len = u32_le(d.subrange(pos, pos + 4));
        if len + 4 < FIXED_HEADER_LEN || pos + 4 + len > d.len() {
            pos
        } else if parse_frame(d.subrange(pos + 4, pos + 4 + len), len) is Err {
            pos
        } else {
            replay(d, pos + 4 + len)
        }
    }
}

pub proof fn lemma_replay_bounds(d: Seq<u8>, pos: int)
    requires
        0 <= pos <= d.len(),
    ensures
        pos <= replay(d, pos) <= d.len(),
    decreases d.len() - pos,
{
    if pos + 4 <= d.len() {
        let len = u32_le(d.subrange(pos, pos + 4));
        if len + 4 >= FIXED_HEADER_LEN && pos + 4 + len <= d.len() {
            lemma_replay_bounds(d, pos + 4 + len);
        }
    }
}

/// The cursor that a consume-queue segment keeps in its last 8 bytes; 0 where
/// there is no room for it or it points past the room for records.
pub open spec fn footer_cursor(d: Seq<u8>) -> int {
    if d.len() < 8 {
        0
    } else {
        let v = u64_le(d.subrange(d.len() - 8, d.len() as int));
        if v <= d.len() - 8 {
            v as int
        } else {
            0
        }
    }
}

/// The write cursor of a segment when it is opened: from its footer when no
/// checkpoint is given, else by replay from the checkpoint (taken no further
/// than the segment's end).
pub open spec fn opened_cursor(offset: Option<u64>, d: Seq<u8>) -> int {
    match offset {
        None => footer_cursor(d),
        Some(c) => replay(d, if c <= d.len() { c as int } else { d.len() as int }),
    }
}

/// Why an append or a change of segment did not happen.
#[derive(Debug, Clone, Copy, PartialEq, Eq, Structural)]
pub enum WriteError {
    /// The data would not fit even in an empty segment.
    TooLarge,
    /// The active segment has no room left for the data: the next segment,
    /// starting at `next_start`, must be opened first.
    SegmentFull { next_start: u64 },
    /// A segment whose start or size does not continue the log.
    BadSegment,
}

/// The abstract state of a segment being written.
pub ghost struct SegmentState {
    /// Logical offset of the segment's first byte.
    pub start: u64,
    /// How many of its bytes hold data.
    pub cursor: nat,
    /// Its bytes.
    pub bytes: Seq<u8>,
}

/// Bytes kept at a segment's end for its cursor.
pub open spec fn footer_len(footer: bool) -> nat {
    if footer {
        8
    } else {
        0
    }
}

/// The effect of appending `data` to segment `s`: written at the cursor when
/// it fits before the footer, the cursor then moved past it and, where there
/// is a footer, stored there; else nothing changes.
pub open spec fn append_spec(s: SegmentState, data: Seq<u8>, footer: bool) -> (
    SegmentState,
    Result<u64, WriteError>,
) {
    let cap = s.bytes.len();
    if data.len() + footer_len(footer) > cap {
        (s, Err(WriteError::TooLarge))
    } else if s.cursor + data.len() + footer_len(footer) > cap {
        (s, Err(WriteError::SegmentFull { next_start: (s.start + cap) as u64 }))
    } else {
        let cursor = s.cursor + data.len();
        let written = splice(s.bytes, s.cursor as int, data);
        let bytes = if footer {
            splice(written, cap - 8, le_u64(cursor as u64))
        } else {
            written
        };
        (SegmentState { start: s.start, cursor, bytes }, Ok((s.start + s.cursor) as u64))
    }
}

/// The state after the segment that starts at `start` and holds `bytes`
/// becomes the active one.
pub open spec fn rotated(start: u64, bytes: Seq<u8>) -> SegmentState {
    SegmentState { start, cursor: 0, bytes }
}

/// The writer of a log's active segment.
pub struct MmapWriter {
    /// How many bytes of the segment hold data: where the next append goes.
    pub prev_write_size: usize,
    /// Logical offset of the segment's first byte; its file name writes it.
    pub segment_start: u64,
    pub writer: MmapMut,
}

impl View for MmapWriter {
    type V = SegmentState;

    open spec fn view(&self) -> SegmentState {
        SegmentState {
            start: self.segment_start,
            cursor: self.prev_write_size as nat,
            bytes: mapped_bytes(self.writer),
        }
    }
}

impl MmapWriter {
    /// The cursor lies within the room for data, and every logical offset of
    /// the segment fits in a `u64`.
    pub open spec fn wf(&self, footer: bool) -> bool {
        &&& self@.cursor + footer_len(footer) <= self@.bytes.len()
        &&& self.segment_start + self@.bytes.len() <= u64::MAX
    }

    /// Opens the writer of the segment that starts at `segment_start` over
    /// its mapping `writer`. With `offset`, the checkpoint of a commit-log
    /// segment, the cursor is recovered by replay from it; without, it is
    /// read from the footer of a consume-queue segment.
    pub fn new(segment_start: u64, writer: MmapMut, offset: Option<u64>) -> (r: Result<
        MmapWriter,
        WriteError,
    >)
        ensures
            r is Ok <==> segment_start + mapped_bytes(writer).len() <= u64::MAX
                && mapped_bytes(writer).len() >= footer_len(offset is None),
            r is Err ==> r == Err::<MmapWriter, WriteError>(WriteError::BadSegment),
            r matches Ok(w) ==> {
                &&& w@.start == segment_start
                &&& w@.bytes == mapped_bytes(writer)
                &&& w@.cursor == opened_cursor(offset, mapped_bytes(writer))
                &&& w.wf(offset is None)
            },
    {
        let len = mapping_len(&writer);
        if len as u64 > u64::MAX - segment_start || (offset.is_none() && len < 8) {
            return Err(WriteError::BadSegment);
        }
        let prev_write_size = Self::start_offset_process(offset, &writer);
        Ok(MmapWriter { prev_write_size, segment_start, writer })
    }

    /// The write cursor of a segment being opened (see [`opened_cursor`]).
    pub fn start_offset_process(offset: Option<u64>, writer: &MmapMut) -> (r: usize)
        ensures
            r == opened_cursor(offset, mapped_bytes(*writer)),
            mapped_bytes(*writer).len() >= footer_len(offset is None) ==> r + footer_len(
                offset is None,
            ) <= mapped_bytes(*writer).len(),
    {
        let len = mapping_len(writer);
        match offset {
            None => {
                if len < 8 {
                    return 0;
                }
                let tail = mapping_read(writer, len - 8, len);
                let v = read_u64(tail.as_slice(), 0);
                assert(tail@.subrange(0, 8) =~= tail@);
                if v <= (len - 8) as u64 {
                    v as usize
                } else {
                    0
                }
            },
            Some(c) => {
                let start = if c <= len as u64 {
                    c as usize
                } else {
                    len
                };
                Self::replay_from(writer, start)
            },
        }
    }

    /// Replays the frames of a commit-log segment from `start`.
    fn replay_from(writer: &MmapMut, start: usize) -> (r: usize)
        requires
            start <= mapped_bytes(*writer).len(),
        ensures
            r == replay(mapped_bytes(*writer), start as int),
            r <= mapped_bytes(*writer).len(),
    {
        let ghost d = mapped_bytes(*writer);
        let cap = mapping_len(writer);
        let mut pos = start;
        proof {
            lemma_replay_bounds(d, start as int);
        }
        loop
            invariant
                pos <= cap == d.len(),
                d == mapped_bytes(*writer),
                replay(d, pos as int) == replay(d, start as int),
            decreases cap - pos,
        {
            if cap - pos < 4 {
                return pos;
            }
            let head = mapping_read(writer, pos, pos + 4);
            let len = read_u32(head.as_slice(), 0);
            assert(head@.subrange(0, 4) =~= head@);
            if len < FIXED_HEADER_LEN - 4 || len as usize > cap - pos - 4 {
                return pos;
            }
            let frame = mapping_read(writer, pos + 4, pos + 4 + len as usize);
            match Message::deserialize_binary(frame.as_slice(), len) {
                Err(_) => {
                    return pos;
                },
                Ok(_) => {
                    pos = pos + 4 + len as usize;
                },
            }
        }
    }

    /// Appends `data` at the cursor (see [`append_spec`]), and returns the
    /// logical offset at which it was written.
    pub(crate) fn append(&mut self, data: &[u8], footer: bool) -> (r: Result<u64, WriteError>)
        requires
            old(self).wf(footer),
        ensures
            (final(self)@, r) == append_spec(old(self)@, data@, footer),
            final(self).wf(footer),
    {
        let cap = mapping_len(&self.writer);
        let reserved: usize = if footer {
            8
        } else {
            0
        };
        if data.len() > cap - reserved {
            return Err(WriteError::TooLarge);
        }
        if data.len() > cap - reserved - self.prev_write_size {
            return Err(WriteError::SegmentFull { next_start: self.segment_start + cap as u64 });
        }
        let at = self.prev_write_size;
        mapping_write(&mut self.writer, at, data);
        self.prev_write_size = at + data.len();
        if footer {
            let mut cursor_bytes: Vec<u8> = Vec::new();
            crate::le_bytes::push_u64(&mut cursor_bytes, self.prev_write_size as u64);
            assert(cursor_bytes@ =~= le_u64(self.prev_write_size as u64));
            mapping_write(&mut self.writer, cap - 8, cursor_bytes.as_slice());
        }
        Ok(self.segment_start + at as u64)
    }

    /// Makes the segment that starts at `new_start`, mapped by `new_writer`,
    /// the active one, with nothing written yet. It must follow the active
    /// segment directly and be as large.
    pub fn new_writer_create(&mut self, new_start: u64, new_writer: MmapMut) -> (r: Result<
        (),
        WriteError,
    >)
        requires
            old(self).wf(false),
        ensures
            r is Ok <==> {
                &&& new_start == old(self)@.start + old(self)@.bytes.len()
                &&& mapped_bytes(new_writer).len() == old(self)@.bytes.len()
                &&& new_start + mapped_bytes(new_writer).len() <= u64::MAX
            },
            r is Ok ==> final(self)@ == rotated(new_start, mapped_bytes(new_writer)),
            r is Err ==> r == Err::<(), WriteError>(WriteError::BadSegment) && final(self)@ == old(
                self,
            )@,
            final(self).wf(false),
    {
        let cap = mapping_len(&self.writer);
        let new_cap = mapping_len(&new_writer);
        if new_start != self.segment_start + cap as u64 || new_cap != cap || new_cap as u64
            > u64::MAX - new_start {
            return Err(WriteError::BadSegment);
        }
        self.prev_write_size = 0;
        self.segment_start = new_start;
        self.writer = new_writer;
        Ok(())
    }

    /// The start of the segment to open as the active one, given the starts
    /// of the segments already on disk: the newest, else the first (0).
    pub fn file_name_create(starts: &[u64]) -> (r: u64)
        ensures
            starts@.len() == 0 ==> r == 0,
            starts@.len() > 0 ==> starts@.contains(r),
            forall|i: int| 0 <= i < starts@.len() ==> starts@[i] <= r,
    {
        crate::segment::latest_segment_start(starts)
    }
}

} // verus!
