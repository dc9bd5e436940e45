//! The message and its binary frame.
//!
//! A frame is, little-endian and in this order: `msg_len: u32`,
//! `body_crc: u32`, `physical_offset: u64`, `send_timestamp: u64`,
//! `store_timestamp: u64`, `body_len: u32`, the body, `topic_len: u16`, the
//! topic, `prop_len: u16`, the properties. `msg_len` counts every byte of the
//! frame but its own four.

use crate::data_process_util::{crc32, crc32_of};
use crate::le_bytes::{
    le_u16, le_u32, le_u64, push_u16, push_u32, push_u64, read_u16, read_u32, read_u64, u16_le,
    u32_le, u64_le, lemma_u16_round_trip, lemma_u32_round_trip, lemma_u64_round_trip,
    lemma_u16_bytes_round_trip, lemma_u32_bytes_round_trip, lemma_u64_bytes_round_trip,
};
use vstd::prelude::*;

verus! {

/// Bytes of a frame besides its body, topic and properties.
pub const FIXED_HEADER_LEN: u32 = 40;

/// Bytes of a frame before its body, not counting `msg_len`.
pub const BODY_START: usize = 32;

/// A stored message. `body`, `topic` and `prop` are byte strings; `prop`
/// holds the message's attributes, among them its delay (`_delay-10`).
#[derive(Debug, Clone)]
pub struct Message {
    pub msg_len: u32,
    pub body_crc: u32,
    pub physical_offset: u64,
    pub send_timestamp: u64,
    pub store_timestamp: u64,
    pub body_len: u32,
    pub body: Vec<u8>,
    pub topic_len: u16,
    pub topic: Vec<u8>,
    pub prop_len: u16,
    pub prop: Vec<u8>,
}

/// The value of a [`Message`].
pub ghost struct MessageView {
    pub msg_len: u32,
    pub body_crc: u32,
    pub physical_offset: u64,
    pub send_timestamp: u64,
    pub store_timestamp: u64,
    pub body_len: u32,
    pub body: Seq<u8>,
    pub topic_len: u16,
    pub topic: Seq<u8>,
    pub prop_len: u16,
    pub prop: Seq<u8>,
}

impl View for Message {
    type V = MessageView;

    open spec fn view(&self) -> MessageView {
        MessageView {
            msg_len: self.msg_len,
            body_crc: self.body_crc,
            physical_offset: self.physical_offset,
            send_timestamp: self.send_timestamp,
            store_timestamp: self.store_timestamp,
            body_len: self.body_len,
            body: self.body@,
            topic_len: self.topic_len,
            topic: self.topic@,
            prop_len: self.prop_len,
            prop: self.prop@,
        }
    }
}

/// Why bytes are not a message, or fields cannot make one.
#[derive(Debug, Clone, Copy, PartialEq, Eq, Structural)]
pub enum MessageError {
    /// The bytes end before a field does.
    Truncated,
    /// The fields do not add up to the declared length.
    LengthMismatch,
    /// The body does not match its checksum.
    ChecksumMismatch,
    /// A body, topic or properties too long for its length field.
    TooLong,
}

impl MessageView {
    /// The lengths and the checksum agree with the contents.
    pub open spec fn wf(self) -> bool {
        &&& self.body_len == self.body.len()
        &&& self.topic_len == self.topic.len()
        &&& self.prop_len == self.prop.len()
        &&& self.msg_len == FIXED_HEADER_LEN - 4 + self.body.len() + self.topic.len()
            + self.prop.len()
        &&& self.body_crc == crc32_of(self.body)
    }

    /// The frame of this message. Its checksum is always that of the body,
    /// whatever the stored field holds.
    pub open spec fn encode(self) -> Seq<u8> {
        le_u32(self.msg_len) + frame_rest(self)
    }
}

/// What the bytes of a frame after its length field hold, given that field.
#[verifier::opaque]
pub open spec fn parse_frame(d: Seq<u8>, msg_len: u32) -> Result<MessageView, MessageError> {
    if d.len() < BODY_START {
        Err(MessageError::Truncated)
    } else {
        let body_len = u32_le(d.subrange(28, 32));
        let body_end = BODY_START + body_len;
        if d.len() < body_end {
            Err(MessageError::Truncated)
        } else if crc32_of(d.subrange(BODY_START as int, body_end)) != u32_le(d.subrange(0, 4)) {
            Err(MessageError::ChecksumMismatch)
        } else if d.len() < body_end + 2 {
            Err(MessageError::Truncated)
        } else {
            let topic_len = u16_le(d.subrange(body_end, body_end + 2));
            let topic_end = body_end + 2 + topic_len;
            if d.len() < topic_end + 2 {
                Err(MessageError::Truncated)
            } else {
                let prop_len = u16_le(d.subrange(topic_end, topic_end + 2));
                let prop_end = topic_end + 2 + prop_len;
                if d.len() < prop_end {
                    Err(MessageError::Truncated)
                } else if prop_end != msg_len {
                    Err(MessageError::LengthMismatch)
                } else {
                    Ok(
                        MessageView {
                            msg_len,
                            body_crc: u32_le(d.subrange(0, 4)),
                            physical_offset: u64_le(d.subrange(4, 12)),
                            send_timestamp: u64_le(d.subrange(12, 20)),
                            store_timestamp: u64_le(d.subrange(20, 28)),
                            body_len,
                            body: d.subrange(BODY_START as int, body_end),
                            topic_len,
                            topic: d.subrange(body_end + 2, topic_end),
                            prop_len,
                            prop: d.subrange(topic_end + 2, prop_end),
                        },
                    )
                }
            }
        }
    }
}

/// The fixed-width fields that precede the body, after the length field.
pub open spec fn header_bytes(m: MessageView) -> Seq<u8> {
    le_u32(crc32_of(m.body)) + le_u64(m.physical_offset) + le_u64(m.send_timestamp) + le_u64(
        m.store_timestamp,
    ) + le_u32(m.body_len)
}

/// The bytes of a frame after its length field.
pub open spec fn frame_rest(m: MessageView) -> Seq<u8> {
    header_bytes(m) + m.body + le_u16(m.topic_len) + m.topic + le_u16(m.prop_len) + m.prop
}

proof fn lemma_header_fields(m: MessageView, d: Seq<u8>)
    requires
        d.len() >= 32,
        d.subrange(0, 32) == header_bytes(m),
    ensures
        d.subrange(0, 4) == le_u32(crc32_of(m.body)),
        d.subrange(4, 12) == le_u64(m.physical_offset),
        d.subrange(12, 20) == le_u64(m.send_timestamp),
        d.subrange(20, 28) == le_u64(m.store_timestamp),
        d.subrange(28, 32) == le_u32(m.body_len),
{
    let h = header_bytes(m);
    assert(d.subrange(0, 4) =~= h.subrange(0, 4));
    assert(d.subrange(4, 12) =~= h.subrange(4, 12));
    assert(d.subrange(12, 20) =~= h.subrange(12, 20));
    assert(d.subrange(20, 28) =~= h.subrange(20, 28));
    assert(d.subrange(28, 32) =~= h.subrange(28, 32));
    assert(h.subrange(0, 4) =~= le_u32(crc32_of(m.body)));
    assert(h.subrange(4, 12) =~= le_u64(m.physical_offset));
    assert(h.subrange(12, 20) =~= le_u64(m.send_timestamp));
    assert(h.subrange(20, 28) =~= le_u64(m.store_timestamp));
    assert(h.subrange(28, 32) =~= le_u32(m.body_len));
}

proof fn lemma_tail_fields(m: MessageView)
    ensures
        ({
            let d = frame_rest(m);
            let body_end = BODY_START + m.body.len();
            let topic_end = body_end + 2 + m.topic.len();
            let prop_end = topic_end + 2 + m.prop.len();
            &&& d.len() == prop_end
            &&& d.subrange(0, 32) == header_bytes(m)
            &&& d.subrange(32, body_end) == m.body
            &&& d.subrange(body_end, body_end + 2) == le_u16(m.topic_len)
            &&& d.subrange(body_end + 2, topic_end) == m.topic
            &&& d.subrange(topic_end, topic_end + 2) == le_u16(m.prop_len)
            &&& d.subrange(topic_end + 2, prop_end) == m.prop
        }),
{
    let d = frame_rest(m);
    let body_end = BODY_START + m.body.len();
    let topic_end = body_end + 2 + m.topic.len();
    let prop_end = topic_end + 2 + m.prop.len();
    assert(d.subrange(0, 32) =~= header_bytes(m));
    assert(d.subrange(32, body_end) =~= m.body);
    assert(d.subrange(body_end, body_end + 2) =~= le_u16(m.topic_len));
    assert(d.subrange(body_end + 2, topic_end) =~= m.topic);
    assert(d.subrange(topic_end, topic_end + 2) =~= le_u16(m.prop_len));
    assert(d.subrange(topic_end + 2, prop_end) =~= m.prop);
}

/// Decoding inverts encoding: a well-formed message's frame starts with its
/// length field, is that long plus four, and the rest of it parses back to the
/// same message, whose checksum is that of its body.
pub proof fn lemma_round_trip(m: MessageView)
    requires
        m.wf(),
    ensures
        m.encode().len() == m.msg_len + 4,
        m.encode().subrange(0, 4) == le_u32(m.msg_len),
        parse_frame(m.encode().subrange(4, m.encode().len() as int), m.msg_len) == Ok::<
            MessageView,
            MessageError,
        >(m),
        m.body_crc == crc32_of(m.body),
{
    let e = m.encode();
    let d = frame_rest(m);
    assert(e.subrange(4, e.len() as int) =~= d);
    assert(e.subrange(0, 4) =~= le_u32(m.msg_len));
    lemma_tail_fields(m);
    lemma_header_fields(m, d);
    lemma_u32_round_trip(m.body_crc);
    lemma_u32_round_trip(m.body_len);
    lemma_u64_round_trip(m.physical_offset);
    lemma_u64_round_trip(m.send_timestamp);
    lemma_u64_round_trip(m.store_timestamp);
    lemma_u16_round_trip(m.topic_len);
    lemma_u16_round_trip(m.prop_len);
    reveal(parse_frame);
    let body_end = BODY_START + m.body_len;
    let topic_end = body_end + 2 + m.topic_len;
    assert(u32_le(d.subrange(28, 32)) == m.body_len);
    assert(u16_le(d.subrange(body_end, body_end + 2)) == m.topic_len);
    assert(u16_le(d.subrange(topic_end, topic_end + 2)) == m.prop_len);
    assert(u32_le(d.subrange(0, 4)) == m.body_crc);
    assert(parse_frame(d, m.msg_len) =~= Ok::<MessageView, MessageError>(m));
}

/// Encoding inverts decoding: bytes that parse as a frame with length field
/// `msg_len` hold, in their first `msg_len` bytes, exactly the encoding of
/// the well-formed message they parse to, behind that length field.
pub proof fn lemma_parse_encodes(x: Seq<u8>, msg_len: u32)
    requires
        parse_frame(x, msg_len) is Ok,
    ensures
        ({
            let v = parse_frame(x, msg_len)->Ok_0;
            &&& v.wf()
            &&& v.msg_len == msg_len
            &&& msg_len <= x.len()
            &&& frame_rest(v) == x.subrange(0, msg_len as int)
            &&& v.encode() == le_u32(msg_len) + x.subrange(0, msg_len as int)
        }),
{
    reveal(parse_frame);
    let v = parse_frame(x, msg_len)->Ok_0;
    let body_end = BODY_START + v.body_len;
    let topic_end = body_end + 2 + v.topic_len;
    let prop_end = topic_end + 2 + v.prop_len;
    lemma_u32_bytes_round_trip(x.subrange(0, 4));
    lemma_u64_bytes_round_trip(x.subrange(4, 12));
    lemma_u64_bytes_round_trip(x.subrange(12, 20));
    lemma_u64_bytes_round_trip(x.subrange(20, 28));
    lemma_u32_bytes_round_trip(x.subrange(28, 32));
    lemma_u16_bytes_round_trip(x.subrange(body_end, body_end + 2));
    lemma_u16_bytes_round_trip(x.subrange(topic_end, topic_end + 2));
    assert(header_bytes(v) =~= x.subrange(0, 32));
    assert(frame_rest(v) =~= x.subrange(0, prop_end));
}

/// Copies `b[start..end]`.
pub fn copy_range(b: &[u8], start: usize, end: usize) -> (r: Vec<u8>)
    requires
        start <= end <= b@.len(),
    ensures
        r@ == b@.subrange(start as int, end as int),
{
    let mut r: Vec<u8> = Vec::new();
    let mut i: usize = start;
    while i < end
        invariant
            start <= i <= end <= b@.len(),
            r@ == b@.subrange(start as int, i as int),
        decreases end - i,
    {
        r.push(b[i]);
        i = i + 1;
        assert(r@ =~= b@.subrange(start as int, i as int));
    }
    r
}

/// Appends all of `src` to `v`.
fn push_all(v: &mut Vec<u8>, src: &[u8])
    ensures
        final(v)@ == old(v)@ + src@,
{
    let mut i: usize = 0;
    while i < src.len()
        invariant
            i <= src@.len(),
            v@ == old(v)@ + src@.subrange(0, i as int),
        decreases src@.len() - i,
    {
        v.push(src[i]);
        i = i + 1;
        assert(v@ =~= old(v)@ + src@.subrange(0, i as int));
    }
    assert(src@.subrange(0, src@.len() as int) =~= src@);
}

impl Message {
    /// Builds a message from its timestamps, offset and contents: the
    /// checksum and every length are computed here, never taken from outside.
    pub fn new(
        physical_offset: u64,
        send_timestamp: u64,
        store_timestamp: u64,
        body: Vec<u8>,
        topic: Vec<u8>,
        prop: Vec<u8>,
    ) -> (r: Result<Message, MessageError>)
        ensures
            r is Ok <==> body@.len() + topic@.len() + prop@.len() + FIXED_HEADER_LEN <= u32::MAX
                && topic@.len() <= u16::MAX && prop@.len() <= u16::MAX,
            r is Err ==> r == Err::<Message, MessageError>(MessageError::TooLong),
            r matches Ok(m) ==> {
                &&& m@.wf()
                &&& m.msg_len + 4 <= u32::MAX
                &&& m.physical_offset == physical_offset
                &&& m.send_timestamp == send_timestamp
                &&& m.store_timestamp == store_timestamp
                &&& m.body@ == body@
                &&& m.topic@ == topic@
                &&& m.prop@ == prop@
            },
    {
        let bl = body.len();
        let tl = topic.len();
        let pl = prop.len();
        if tl > u16::MAX as usize || pl > u16::MAX as usize {
            return Err(MessageError::TooLong);
        }
        if bl > (u32::MAX - FIXED_HEADER_LEN) as usize || tl > (u32::MAX - FIXED_HEADER_LEN) as usize - bl
            || pl > (u32::MAX - FIXED_HEADER_LEN) as usize - bl - tl {
            return Err(MessageError::TooLong);
        }
        let body_crc = crc32(body.as_slice());
        Ok(
            Message {
                msg_len: (FIXED_HEADER_LEN - 4) + bl as u32 + tl as u32 + pl as u32,
                body_crc,
                physical_offset,
                send_timestamp,
                store_timestamp,
                body_len: bl as u32,
                body,
                topic_len: tl as u16,
                topic,
                prop_len: pl as u16,
                prop,
            },
        )
    }

    /// Bytes of a frame's fixed-width fields: the least a frame can hold.
    pub fn mix_len() -> (r: u32)
        ensures
            r == FIXED_HEADER_LEN,
    {
        FIXED_HEADER_LEN
    }

    /// Bytes of the whole frame, its length field included.
    pub fn msg_len(&self) -> (r: u32)
        requires
            self.msg_len + 4 <= u32::MAX,
        ensures
            r == self.msg_len + 4,
    {
        self.msg_len + 4
    }

    /// The frame of this message, with the checksum of its body computed
    /// afresh.
    pub fn serialize_binary(&self) -> (r: Vec<u8>)
        ensures
            r@ == self@.encode(),
    {
        let mut v: Vec<u8> = Vec::new();
        push_u32(&mut v, self.msg_len);
        push_u32(&mut v, crc32(self.body.as_slice()));
        push_u64(&mut v, self.physical_offset);
        push_u64(&mut v, self.send_timestamp);
        push_u64(&mut v, self.store_timestamp);
        push_u32(&mut v, self.body_len);
        push_all(&mut v, self.body.as_slice());
        push_u16(&mut v, self.topic_len);
        push_all(&mut v, self.topic.as_slice());
        push_u16(&mut v, self.prop_len);
        push_all(&mut v, self.prop.as_slice());
        v
    }

    /// Reads a message from the bytes that follow a frame's length field
    /// `msg_len`, and checks the body against its checksum.
    pub fn deserialize_binary(data: &[u8], msg_len: u32) -> (r: Result<Message, MessageError>)
        ensures
            r matches Ok(m) ==> parse_frame(data@, msg_len) == Ok::<MessageView, MessageError>(m@),
            r matches Err(e) ==> parse_frame(data@, msg_len) == Err::<MessageView, MessageError>(e),
    {
        reveal(parse_frame);
        let n = data.len();
        if n < BODY_START {
            return Err(MessageError::Truncated);
        }
        let body_crc = read_u32(data, 0);
        let body_len = read_u32(data, 28);
        if body_len as usize > n - BODY_START {
            return Err(MessageError::Truncated);
        }
        let body_end = BODY_START + body_len as usize;
        let body = copy_range(data, BODY_START, body_end);
        if crc32(body.as_slice()) != body_crc {
            return Err(MessageError::ChecksumMismatch);
        }
        if n - body_end < 2 {
            return Err(MessageError::Truncated);
        }
        let topic_len = read_u16(data, body_end);
        if topic_len as usize + 4 > n - body_end {
            return Err(MessageError::Truncated);
        }
        let topic_end = body_end + 2 + topic_len as usize;
        let prop_len = read_u16(data, topic_end);
        if prop_len as usize > n - topic_end - 2 {
            return Err(MessageError::Truncated);
        }
        let prop_end = topic_end + 2 + prop_len as usize;
        if prop_end != msg_len as usize {
            return Err(MessageError::LengthMismatch);
        }
        let m = Message {
            msg_len,
            body_crc,
            physical_offset: read_u64(data, 4),
            send_timestamp: read_u64(data, 12),
            store_timestamp: read_u64(data, 20),
            body_len,
            body,
            topic_len,
            topic: copy_range(data, body_end + 2, topic_end),
            prop_len,
            prop: copy_range(data, topic_end + 2, prop_end),
        };
        proof {
            assert(m@ =~= parse_frame(data@, msg_len).unwrap());
        }
        Ok(m)
    }
}

} // verus!
