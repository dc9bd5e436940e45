//! The consume queue: per topic, a segmented log of fixed-size index records
//! that point into the commit log, with each segment's cursor kept in its
//! last 8 bytes; and the decisions of the delay scheduler over those records.

use crate::data_process_util::{hashcode, tag_hash};
use crate::le_bytes::{le_u32, le_u64, push_u32, push_u64};
use crate::message::Message;
use crate::mmap::{append_spec, mapped_bytes, mapping_len, rotated, MmapWriter, WriteError};
use crate::segment::{decimal_value, is_digit, lemma_decimal_prefix_le};
use memmap2::MmapMut;
use vstd::prelude::*;
use vstd::string::StringSliceAdditionalSpecFns;

verus! {

/// Bytes of an index record.
pub const RECORD_LEN: u16 = 24;

/// The writer of a topic's active consume-queue segment.
pub type ConsumeQueueWriter = MmapWriter;

/// An index record: where a message lies in the commit log, how long it is,
/// the hash of its tag and its delay in seconds. A record of size 0 is the
/// scheduler's sentinel, never a message.
#[derive(Debug, Clone, Copy, PartialEq, Eq, Structural)]
pub struct QueueMessage {
    pub physical_offset: u64,
    pub size: u32,
    pub tag_hashcode: u64,
    pub delay_time: u32,
}

/// Why a message yields no index record.
#[derive(Debug, Clone, Copy, PartialEq, Eq, Structural)]
pub enum QueueError {
    /// The properties hold no `-`-separated delay field.
    MissingDelay,
    /// The delay field is not a decimal number that fits in a `u32`.
    BadDelay,
    /// The frame is too long for a record's size field.
    TooLong,
}

/// The first position at or after `from` that holds `-`, else `s.len()`.
pub open spec fn find_dash(s: Seq<u8>, from: int) -> int
    decreases s.len() - from,
{
    if from < 0 || from >= s.len() {
        s.len() as int
    } else if s[from] == 45 {
        from
    } else {
        find_dash(s, from + 1)
    }
}

/// The second of the `-`-separated pieces of `prop` (`10` in `_delay-10`).
pub open spec fn delay_field(prop: Seq<u8>) -> Option<Seq<u8>> {
    let i = find_dash(prop, 0);
    if i >= prop.len() {
        None
    } else {
        Some(prop.subrange(i + 1, find_dash(prop, i + 1)))
    }
}

/// `s` without its leading `+`, if it has one.
pub open spec fn unsigned_digits(s: Seq<u8>) -> Seq<u8> {
    if s.len() > 0 && s[0] == 43 {
        s.skip(1)
    } else {
        s
    }
}

/// The `u32` that `s` writes in decimal, with an optional leading `+`.
pub open spec fn parsed_u32(s: Seq<u8>) -> Option<u32> {
    let digits = unsigned_digits(s);
    if digits.len() > 0 && (forall|i: int| 0 <= i < digits.len() ==> is_digit(#[trigger] digits[i]))
        && decimal_value(digits) <= u32::MAX {
        Some(decimal_value(digits) as u32)
    } else {
        None
    }
}

/// The delay that a message's properties give.
pub open spec fn prop_delay(prop: Seq<u8>) -> Result<u32, QueueError> {
    match delay_field(prop) {
        None => Err(QueueError::MissingDelay),
        Some(f) => match parsed_u32(f) {
            None => Err(QueueError::BadDelay),
            Some(d) => Ok(d),
        },
    }
}

/// The bytes of an index record.
pub open spec fn record_bytes(q: QueueMessage) -> Seq<u8> {
    le_u64(q.physical_offset) + le_u32(q.size) + le_u64(q.tag_hashcode) + le_u32(q.delay_time)
}

fn find_dash_from(s: &[u8], from: usize) -> (r: usize)
    requires
        from <= s@.len(),
    ensures
        r == find_dash(s@, from as int),
        from <= r <= s@.len(),
{
    let mut k = from;
    while k < s.len()
        invariant
            from <= k <= s@.len(),
            find_dash(s@, k as int) == find_dash(s@, from as int),
        decreases s@.len() - k,
    {
        if s[k] == 45 {
            return k;
        }
        k = k + 1;
    }
    k
}

/// Reads a `u32` written in decimal, with an optional leading `+`.
pub fn parse_u32(s: &[u8]) -> (r: Option<u32>)
    ensures
        r == parsed_u32(s@),
{
    let start: usize = if s.len() > 0 && s[0] == 43 {
        1
    } else {
        0
    };
    let ghost digits = s@.subrange(start as int, s@.len() as int);
    assert(digits =~= unsigned_digits(s@));
    if start == s.len() {
        return None;
    }
    let mut acc: u32 = 0;
    let mut i: usize = start;
    while i < s.len()
        invariant
            start <= i <= s@.len(),
            digits == s@.subrange(start as int, s@.len() as int),
            digits == unsigned_digits(s@),
            forall|j: int| 0 <= j < i - start ==> is_digit(#[trigger] digits[j]),
            acc == decimal_value(digits.subrange(0, i - start)),
        decreases s@.len() - i,
    {
        let c = s[i];
        if c < 48 || c > 57 {
            assert(!is_digit(digits[i - start]));
            return None;
        }
        let d = (c - 48) as u32;
        assert(digits.subrange(0, i - start + 1).drop_last() =~= digits.subrange(0, i - start));
        if acc > (u32::MAX - d) / 10 {
            assert(decimal_value(digits.subrange(0, i - start + 1)) > u32::MAX) by (nonlinear_arith)
                requires
                    acc > (u32::MAX - d) / 10,
                    decimal_value(digits.subrange(0, i - start + 1)) == acc * 10 + d,
            ;
            proof {
                if forall|j: int| 0 <= j < digits.len() ==> is_digit(#[trigger] digits[j]) {
                    lemma_decimal_prefix_le(digits, i - start + 1);
                }
            }
            return None;
        }
        assert(acc * 10 + d <= u32::MAX) by (nonlinear_arith)
            requires
                acc <= (u32::MAX - d) / 10,
                d <= 9,
        ;
        acc = acc * 10 + d;
        i = i + 1;
    }
    assert(digits.subrange(0, digits.len() as int) =~= digits);
    Some(acc)
}

/// The delay that a message's properties give: the second `-`-separated
/// field, in decimal.
pub fn delay_of_prop(prop: &[u8]) -> (r: Result<u32, QueueError>)
    ensures
        r == prop_delay(prop@),
{
    let i = find_dash_from(prop, 0);
    if i >= prop.len() {
        return Err(QueueError::MissingDelay);
    }
    let j = find_dash_from(prop, i + 1);
    let field = crate::message::copy_range(prop, i + 1, j);
    match parse_u32(field.as_slice()) {
        None => Err(QueueError::BadDelay),
        Some(d) => Ok(d),
    }
}

/// The scheduler's sentinel: size 0, due after the longest delay.
pub open spec fn sentinel(max_delay_time: u32) -> QueueMessage {
    QueueMessage { physical_offset: 0, size: 0, tag_hashcode: 0, delay_time: max_delay_time }
}

/// What the scheduler does with a record whose deadline has passed.
#[derive(Debug, Clone, Copy, PartialEq, Eq, Structural)]
pub enum Expiry {
    /// Schedule this record again, `secs` seconds from now.
    Reinsert { record: QueueMessage, secs: u64 },
    /// Publish this record to its subscribers.
    Deliver { record: QueueMessage },
}

/// What becomes of record `q` when its deadline passes.
pub open spec fn expiry_of(q: QueueMessage, max_delay_time: u32) -> Expiry {
    if q.size == 0 {
        Expiry::Reinsert { record: sentinel(max_delay_time), secs: max_delay_time as u64 }
    } else {
        Expiry::Deliver { record: q }
    }
}

impl QueueMessage {
    /// Bytes of an index record.
    pub fn len() -> (r: u16)
        ensures
            r == RECORD_LEN,
    {
        RECORD_LEN
    }

    /// The record for the message at `physical_offset`, `size` bytes long,
    /// with tag `tag`, due `delay_time` seconds from now; with that delay.
    pub fn new(physical_offset: u64, size: u32, tag: &str, delay_time: u32) -> (r: (
        QueueMessage,
        u64,
    ))
        ensures
            r.0 == (QueueMessage {
                physical_offset,
                size,
                tag_hashcode: tag_hash(tag.spec_bytes()),
                delay_time,
            }),
            r.1 == delay_time,
    {
        let message = QueueMessage {
            physical_offset,
            size,
            tag_hashcode: hashcode(tag.as_bytes()),
            delay_time,
        };
        let time = message.duration();
        (message, time)
    }

    /// The record that indexes a stored message: its offset, its frame's
    /// length, the hash of its topic, and the delay that its properties give.
    pub fn from_message(message: &Message) -> (r: Result<(QueueMessage, u64), QueueError>)
        ensures
            message.msg_len + 4 > u32::MAX ==> r == Err::<(QueueMessage, u64), QueueError>(
                QueueError::TooLong,
            ),
            message.msg_len + 4 <= u32::MAX ==> match prop_delay(message.prop@) {
                Err(e) => r == Err::<(QueueMessage, u64), QueueError>(e),
                Ok(d) => r == Ok::<(QueueMessage, u64), QueueError>(
                    (
                        QueueMessage {
                            physical_offset: message.physical_offset,
                            size: (message.msg_len + 4) as u32,
                            tag_hashcode: tag_hash(message.topic@),
                            delay_time: d,
                        },
                        d as u64,
                    ),
                ),
            },
    {
        if message.msg_len > u32::MAX - 4 {
            return Err(QueueError::TooLong);
        }
        let delay_time = match delay_of_prop(message.prop.as_slice()) {
            Ok(d) => d,
            Err(e) => {
                return Err(e);
            },
        };
        let record = QueueMessage {
            physical_offset: message.physical_offset,
            size: message.msg_len(),
            tag_hashcode: hashcode(message.topic.as_slice()),
            delay_time,
        };
        Ok((record, delay_time as u64))
    }

    /// The sentinel that keeps the scheduler's queue from running empty: size
    /// 0, due after the longest delay.
    pub fn block_message(max_delay_time: u32) -> (r: (QueueMessage, u64))
        ensures
            r.0 == sentinel(max_delay_time),
            r.1 == max_delay_time,
    {
        let message = QueueMessage {
            physical_offset: 0,
            size: 0,
            tag_hashcode: 0,
            delay_time: max_delay_time,
        };
        let time = message.duration();
        (message, time)
    }

    /// Whether this is the scheduler's sentinel.
    pub fn is_block_message(&self) -> (r: bool)
        ensures
            r == (self.size == 0),
    {
        self.size == 0
    }

    /// The delay, in seconds.
    pub fn duration(&self) -> (r: u64)
        ensures
            r == self.delay_time,
    {
        self.delay_time as u64
    }

    /// The record's 24 bytes, little-endian: offset, size, tag hash, delay.
    pub fn serialize_binary(&self) -> (r: Vec<u8>)
        ensures
            r@ == record_bytes(*self),
            r@.len() == RECORD_LEN,
    {
        let mut v: Vec<u8> = Vec::new();
        push_u64(&mut v, self.physical_offset);
        push_u32(&mut v, self.size);
        push_u64(&mut v, self.tag_hashcode);
        push_u32(&mut v, self.delay_time);
        v
    }

    /// What the scheduler does with this record once its deadline has
    /// passed: the sentinel is put back, due after the longest delay; any
    /// other record is delivered.
    pub fn expire(self, max_delay_time: u32) -> (r: Expiry)
        ensures
            r == expiry_of(self, max_delay_time),
    {
        if self.is_block_message() {
            let (block, duration) = QueueMessage::block_message(max_delay_time);
            Expiry::Reinsert { record: block, secs: duration }
        } else {
            Expiry::Deliver { record: self }
        }
    }
}

/// The scheduler never hands its sentinel to subscribers: whatever expires,
/// a delivered record has a non-zero size, and it is the record that expired.
pub proof fn lemma_sentinel_never_delivered(q: QueueMessage, max_delay_time: u32)
    ensures
        match expiry_of(q, max_delay_time) {
            Expiry::Deliver { record } => record.size != 0 && record == q,
            Expiry::Reinsert { record, secs } => record.size == 0 && secs == max_delay_time,
        },
{
}

impl MmapWriter {
    /// Opens a topic's active consume-queue segment, which starts at
    /// `segment_start` and is mapped by `writer`; its cursor is read from its
    /// footer.
    pub fn consume_queue_new(segment_start: u64, writer: MmapMut) -> (r: Result<MmapWriter, WriteError>)
        ensures
            r is Ok <==> segment_start + mapped_bytes(writer).len() <= u64::MAX
                && mapped_bytes(writer).len() >= 8,
            r is Err ==> r == Err::<MmapWriter, WriteError>(WriteError::BadSegment),
            r matches Ok(w) ==> {
                &&& w@.start == segment_start
                &&& w@.bytes == mapped_bytes(writer)
                &&& w@.cursor == crate::mmap::footer_cursor(mapped_bytes(writer))
                &&& w.wf(true)
            },
    {
        MmapWriter::new(segment_start, writer, None)
    }

    /// Appends a record's bytes and stores the new cursor in the footer;
    /// returns the logical offset of the record. Where the segment is full
    /// the error names the start of the next segment, which must be opened
    /// with [`MmapWriter::consume_queue_new_writer_create`] first.
    pub fn consume_queue_write(&mut self, data: &[u8]) -> (r: Result<u64, WriteError>)
        requires
            old(self).wf(true),
        ensures
            (final(self)@, r) == append_spec(old(self)@, data@, true),
            final(self).wf(true),
    {
        self.append(data, true)
    }

    /// Makes the segment that follows the active one, mapped by
    /// `new_writer`, the active one. The new mapping must be as large as the
    /// active one.
    pub fn consume_queue_new_writer_create(&mut self, new_writer: MmapMut) -> (r: Result<(), WriteError>)
        requires
            old(self).wf(true),
        ensures
            r is Ok <==> {
                &&& mapped_bytes(new_writer).len() == old(self)@.bytes.len()
                &&& old(self)@.start + 2 * old(self)@.bytes.len() <= u64::MAX
            },
            r is Ok ==> final(self)@ == rotated(
                (old(self)@.start + old(self)@.bytes.len()) as u64,
                mapped_bytes(new_writer),
            ),
            r is Err ==> r == Err::<(), WriteError>(WriteError::BadSegment) && final(self)@ == old(
                self,
            )@,
            final(self).wf(true),
    {
        let cap = mapping_len(&self.writer);
        let next_start = self.segment_start + cap as u64;
        self.new_writer_create(next_start, new_writer)
    }
}

} // verus!
