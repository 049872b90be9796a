//! Fixed-layout binary packet formats of the stream.
//!
//! Both packet kinds arrive as UDP datagrams with little-endian multi-byte
//! fields and no implicit padding. A buffer of at least the declared wire
//! size parses successfully and every field is read exactly as transmitted;
//! a shorter buffer is rejected as malformed.

use vstd::prelude::*;
use vstd::slice::slice_to_vec;

verus! {

/// Wire size of one video datagram.
pub const VIDEO_PACKET_SIZE: usize = 780;

/// Bytes of packed pixel payload carried by one video packet.
pub const VIDEO_PAYLOAD_SIZE: usize = 768;

/// Wire size of one audio datagram.
pub const AUDIO_PACKET_SIZE: usize = 770;

/// Stereo sample pairs carried by one audio packet.
pub const AUDIO_SAMPLE_PAIRS: usize = 192;

/// Bit of the `line` field that marks the last packet of a frame.
pub const END_OF_FRAME_BIT: u16 = 0x8000;

/// Why a received datagram was rejected.
#[derive(Debug, Clone, Copy, PartialEq, Eq, Structural)]
pub enum StreamError {
    /// The datagram is shorter than the fixed layout requires.
    MalformedPacket,
}

/// The unsigned 16-bit value stored little-endian at offset `i` of `b`.
pub open spec fn le16(b: Seq<u8>, i: int) -> u16
    recommends
        0 <= i,
        i + 2 <= b.len(),
{
    (b[i] + b[i + 1] * 256) as u16
}

/// The signed 16-bit value stored little-endian at offset `i` of `b`
/// (two's complement).
pub open spec fn le_i16(b: Seq<u8>, i: int) -> i16
    recommends
        0 <= i,
        i + 2 <= b.len(),
{
    let v = b[i] + b[i + 1] * 256;
    if v < 32768 {
        v as i16
    } else {
        (v - 65536) as i16
    }
}

/// One video packet: four scan lines of nibble-packed pixels plus framing
/// counters. Field values are taken from the wire unchecked; semantic
/// validation against the protocol constants is left to the consumer.
#[derive(Debug)]
pub struct VideoStream {
    /// Monotonically increasing packet counter (informational for video).
    pub seq: u16,
    /// Frame counter the packet belongs to.
    pub frame: u16,
    /// Bits 0-14: line group index; bit 15: end-of-frame marker.
    pub line: u16,
    /// Pixels per scan line (the source hardware always sends 384).
    pub width: u16,
    /// Scan lines per packet (always 4).
    pub lpp: u8,
    /// Bits per pixel (always 4).
    pub bits: u8,
    /// 0 = raw nibble-packed pixels, 1 = reserved for run-length encoding.
    pub encoding: u16,
    /// Packed pixel payload, two pixels per byte.
    pub data: Vec<u8>,
}

/// One audio packet: a sequence counter and 192 interleaved stereo pairs.
#[derive(Debug)]
pub struct AudioStream {
    /// Strictly incrementing, wrapping packet sequence number.
    pub seq: u16,
    /// Stereo sample pairs, `(left, right)`, signed 16-bit.
    pub data: Vec<(i16, i16)>,
}

/// Reads the little-endian `u16` at offset `i`.
fn read_u16(buf: &[u8], i: usize) -> (v: u16)
    requires
        i + 2 <= buf@.len(),
    ensures
        v == le16(buf@, i as int),
{
    buf[i] as u16 + buf[i + 1] as u16 * 256
}

/// Reads the little-endian `i16` at offset `i`.
fn read_i16(buf: &[u8], i: usize) -> (v: i16)
    requires
        i + 2 <= buf@.len(),
    ensures
        v == le_i16(buf@, i as int),
{
    let raw = read_u16(buf, i);
    if raw < 32768 {
        raw as i16
    } else {
        (raw as i32 - 65536) as i16
    }
}

impl VideoStream {
    /// A parsed packet always carries exactly one payload's worth of bytes.
    pub open spec fn wf(&self) -> bool {
        self.data@.len() == VIDEO_PAYLOAD_SIZE
    }

    /// The fields a well-formed buffer parses to.
    pub open spec fn parsed_from(&self, b: Seq<u8>) -> bool {
        &&& self.seq == le16(b, 0)
        &&& self.frame == le16(b, 2)
        &&& self.line == le16(b, 4)
        &&& self.width == le16(b, 6)
        &&& self.lpp == b[8]
        &&& self.bits == b[9]
        &&& self.encoding == le16(b, 10)
        &&& self.data@ == b.subrange(12, VIDEO_PACKET_SIZE as int)
    }

    /// Parses a received datagram. Succeeds exactly when the buffer holds at
    /// least the declared wire size; extra trailing bytes are ignored.
    pub fn read_from_bytes(buf: &[u8]) -> (r: Result<VideoStream, StreamError>)
        ensures
            r is Ok <==> buf@.len() >= VIDEO_PACKET_SIZE,
            r matches Ok(v) ==> v.parsed_from(buf@) && v.wf(),
            r matches Err(e) ==> e == StreamError::MalformedPacket,
    {
        if buf.len() < VIDEO_PACKET_SIZE {
            return Err(StreamError::MalformedPacket);
        }
        let data: Vec<u8> = slice_to_vec(&buf[12..VIDEO_PACKET_SIZE]);
        Ok(VideoStream {
            seq: read_u16(buf, 0),
            frame: read_u16(buf, 2),
            line: read_u16(buf, 4),
            width: read_u16(buf, 6),
            lpp: buf[8],
            bits: buf[9],
            encoding: read_u16(buf, 10),
            data,
        })
    }

    /// Whether this packet is marked as the last packet of its frame.
    pub fn end_of_frame(&self) -> (end: bool)
        ensures
            end == is_end_of_frame(self.line),
    {
        self.line & END_OF_FRAME_BIT != 0
    }
}

/// Whether a `line` field carries the end-of-frame marker.
pub open spec fn is_end_of_frame(line: u16) -> bool {
    line & END_OF_FRAME_BIT != 0
}

impl AudioStream {
    /// A parsed packet always carries exactly 192 sample pairs.
    pub open spec fn wf(&self) -> bool {
        self.data@.len() == AUDIO_SAMPLE_PAIRS
    }

    /// The fields a well-formed buffer parses to.
    pub open spec fn parsed_from(&self, b: Seq<u8>) -> bool {
        &&& self.seq == le16(b, 0)
        &&& self.data@.len() == AUDIO_SAMPLE_PAIRS
        &&& forall|k: int|
            0 <= k < AUDIO_SAMPLE_PAIRS ==> #[trigger] self.data@[k] == (
            le_i16(b, 2 + 4 * k),
            le_i16(b, 4 + 4 * k),
            )
    }

    /// Parses a received datagram. Succeeds exactly when the buffer holds at
    /// least the declared wire size; extra trailing bytes are ignored.
    pub fn read_from_bytes(buf: &[u8]) -> (r: Result<AudioStream, StreamError>)
        ensures
            r is Ok <==> buf@.len() >= AUDIO_PACKET_SIZE,
            r matches Ok(a) ==> a.parsed_from(buf@) && a.wf(),
            r matches Err(e) ==> e == StreamError::MalformedPacket,
    {
        if buf.len() < AUDIO_PACKET_SIZE {
            return Err(StreamError::MalformedPacket);
        }
        let seq: u16 = read_u16(buf, 0);
        let mut data: Vec<(i16, i16)> = Vec::new();
        for k in 0..AUDIO_SAMPLE_PAIRS
            invariant
                buf@.len() >= AUDIO_PACKET_SIZE,
                data@.len() == k,
                forall|j: int|
                    0 <= j < k ==> #[trigger] data@[j] == (
                    le_i16(buf@, 2 + 4 * j),
                    le_i16(buf@, 4 + 4 * j),
                    ),
        {
            let left: i16 = read_i16(buf, 2 + 4 * k);
            let right: i16 = read_i16(buf, 4 + 4 * k);
            data.push((left, right));
        }
        Ok(AudioStream { seq, data })
    }
}

} // verus!
