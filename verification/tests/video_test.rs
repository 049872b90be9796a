use u64stream::protocol::VideoStream;
use u64stream::FrameAssembler;

fn packet(line: u16, fill: u8) -> VideoStream {
    VideoStream {
        seq: 0,
        frame: 0,
        line,
        width: 384,
        lpp: 4,
        bits: 4,
        encoding: 0,
        data: vec![fill; 768],
    }
}

#[test]
fn test_first_marker_packet_is_discarded() {
    // The stream starts mid-frame: the first packet already carries the
    // end-of-frame marker. It must be fully discarded, and only the next
    // completed frame comes out.
    let mut assembler = FrameAssembler::new();
    assert!(assembler.process(&packet(0x8003, 0xAA)).is_none());

    // Next frame: one plain packet, then its marker packet.
    assert!(assembler.process(&packet(0x0004, 0x11)).is_none());
    let frame = assembler.process(&packet(0x8005, 0x22)).unwrap();
    assert_eq!(frame.len(), 2 * 768);
    assert!(frame[..768].iter().all(|&b| b == 0x11));
    assert!(frame[768..].iter().all(|&b| b == 0x22));
}

#[test]
fn test_four_packets_one_frame() {
    // Four packets, only the fourth marked: exactly one frame, equal to the
    // concatenation of all four payloads in arrival order.
    let mut assembler = FrameAssembler::new();
    // End the warm-up first.
    assert!(assembler.process(&packet(0x8000, 0xFF)).is_none());

    assert!(assembler.process(&packet(0x0000, 1)).is_none());
    assert!(assembler.process(&packet(0x0001, 2)).is_none());
    assert!(assembler.process(&packet(0x0002, 3)).is_none());
    let frame = assembler.process(&packet(0x8003, 4)).unwrap();
    assert_eq!(frame.len(), 4 * 768);
    for (chunk, expected) in frame.chunks(768).zip([1u8, 2, 3, 4]) {
        assert!(chunk.iter().all(|&b| b == expected));
    }
}

#[test]
fn test_warmup_discards_everything_before_marker() {
    // Packets of a frame already in progress are discarded entirely.
    let mut assembler = FrameAssembler::new();
    assert!(assembler.process(&packet(0x0007, 0x33)).is_none());
    assert!(assembler.process(&packet(0x0008, 0x44)).is_none());
    // The marker ends the warm-up but its payload is discarded too.
    assert!(assembler.process(&packet(0x8009, 0x55)).is_none());
    // The first emitted frame holds only post-marker payloads.
    let frame = assembler.process(&packet(0x800A, 0x66)).unwrap();
    assert_eq!(frame.len(), 768);
    assert!(frame.iter().all(|&b| b == 0x66));
}

#[test]
fn test_consecutive_frames_are_independent() {
    let mut assembler = FrameAssembler::new();
    assert!(assembler.process(&packet(0x8000, 0)).is_none());

    let first = assembler.process(&packet(0x8001, 7)).unwrap();
    let second = assembler.process(&packet(0x8002, 9)).unwrap();
    assert_eq!(first.len(), 768);
    assert_eq!(second.len(), 768);
    assert!(first.iter().all(|&b| b == 7));
    assert!(second.iter().all(|&b| b == 9));
}

#[test]
fn test_end_of_frame_flag() {
    assert!(packet(0x8000, 0).end_of_frame());
    assert!(packet(0x8010, 0).end_of_frame());
    assert!(!packet(0x0010, 0).end_of_frame());
    assert!(!packet(0x7FFF, 0).end_of_frame());
}
