use u64stream::protocol::AudioStream;
use u64stream::{AudioDecoder, RingBuffer};

fn packet(seq: u16, sample: i16) -> AudioStream {
    AudioStream {
        seq,
        data: vec![(sample, sample); 192],
    }
}

#[test]
fn test_sequence_gap_inserts_silence() {
    // Packets 5, 6, 8: the gap at 7 inserts 384 silent samples immediately
    // before packet 8's samples.
    let mut decoder = AudioDecoder::new();
    let mut buffer: RingBuffer<i16> = RingBuffer::new(10_000, 0);

    decoder.process(&packet(5, 500), &mut buffer);
    decoder.process(&packet(6, 600), &mut buffer);
    decoder.process(&packet(8, 800), &mut buffer);

    // 384 samples per packet, plus 384 of silence for the gap.
    assert_eq!(buffer.len(), 3 * 384 + 384);
    for _ in 0..384 {
        assert_eq!(buffer.pop(), 500);
    }
    for _ in 0..384 {
        assert_eq!(buffer.pop(), 600);
    }
    for _ in 0..384 {
        assert_eq!(buffer.pop(), 0);
    }
    for _ in 0..384 {
        assert_eq!(buffer.pop(), 800);
    }
}

#[test]
fn test_first_packet_is_never_a_gap() {
    let mut decoder = AudioDecoder::new();
    let mut buffer: RingBuffer<i16> = RingBuffer::new(10_000, 0);
    decoder.process(&packet(12345, 1), &mut buffer);
    assert_eq!(buffer.len(), 384);
}

#[test]
fn test_sequence_wraparound_is_continuous() {
    // 65535 followed by 0 is a direct successor: no silence inserted.
    let mut decoder = AudioDecoder::new();
    let mut buffer: RingBuffer<i16> = RingBuffer::new(10_000, 0);
    decoder.process(&packet(65535, 1), &mut buffer);
    decoder.process(&packet(0, 2), &mut buffer);
    assert_eq!(buffer.len(), 2 * 384);
}

#[test]
fn test_samples_are_interleaved_left_then_right() {
    let mut decoder = AudioDecoder::new();
    let mut buffer: RingBuffer<i16> = RingBuffer::new(10_000, 0);
    let stream = AudioStream {
        seq: 1,
        data: (0..192).map(|k| (k as i16, -(k as i16))).collect(),
    };
    decoder.process(&stream, &mut buffer);
    assert_eq!(buffer.len(), 384);
    for k in 0..192i16 {
        assert_eq!(buffer.pop(), k);
        assert_eq!(buffer.pop(), -k);
    }
}

#[test]
fn test_duplicate_sequence_counts_as_gap() {
    // A repeated sequence number is not the direct successor, so silence
    // is inserted before its samples.
    let mut decoder = AudioDecoder::new();
    let mut buffer: RingBuffer<i16> = RingBuffer::new(10_000, 0);
    decoder.process(&packet(9, 1), &mut buffer);
    decoder.process(&packet(9, 2), &mut buffer);
    assert_eq!(buffer.len(), 2 * 384 + 384);
}
