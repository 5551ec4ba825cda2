use parse_tcp::inbound::{ReceiveSegmentResult, StreamInboundState};

#[test]
fn receive() {
    let mut inbound = StreamInboundState::new(4096, true);
    let hello = String::from("Hello, ");
    let world = String::from("world!");
    assert_eq!(
        inbound.receive_segment(hello.len() as u64, world.as_bytes()),
        ReceiveSegmentResult::Received
    );
    assert_eq!(
        inbound.receive_segment(0, hello.as_bytes()),
        ReceiveSegmentResult::Received
    );
    assert_eq!(
        inbound.receive_segment(8192, &[3, 4, 5, 6]),
        ReceiveSegmentResult::ExceedsWindow
    );
    assert_eq!(inbound.receive_segment(3, &[3]), ReceiveSegmentResult::Duplicate);
    assert!(inbound.set_final_offset((hello.len() + world.len()) as u64));
    let read = inbound.read_next(64).unwrap();
    let hello2 = String::from_utf8(read).unwrap();
    assert_eq!(hello2, hello + &world);
    assert!(inbound.finished());
}

#[test]
fn receive_idempotent() {
    // receiving the same segment twice changes nothing and reports a
    // duplicate the second time
    let mut inbound = StreamInboundState::new(4096, true);
    assert_eq!(inbound.receive_segment(10, b"abcdef"), ReceiveSegmentResult::Received);
    let before = inbound.read_segment(10, 16).unwrap();
    assert_eq!(inbound.receive_segment(10, b"abcdef"), ReceiveSegmentResult::Duplicate);
    let after = inbound.read_segment(10, 16).unwrap();
    assert_eq!(before, after);
    assert_eq!(after, b"abcdef".to_vec());
}

#[test]
fn receive_overlap_first_write_wins() {
    // bytes in the overlap of two segments keep their first-written value
    let mut inbound = StreamInboundState::new(4096, true);
    assert_eq!(inbound.receive_segment(0, b"AAAA"), ReceiveSegmentResult::Received);
    assert_eq!(inbound.receive_segment(2, b"BBBB"), ReceiveSegmentResult::Received);
    let bytes = inbound.read_segment(0, 6).unwrap();
    assert_eq!(bytes, b"AAAABB".to_vec());
}

#[test]
fn advance_buffer_drops_consumed_bytes() {
    let mut inbound = StreamInboundState::new(4096, true);
    assert_eq!(inbound.receive_segment(0, b"0123456789"), ReceiveSegmentResult::Received);
    inbound.advance_buffer(4);
    assert_eq!(inbound.buffer_offset, 4);
    let rest = inbound.read_segment(4, 10).unwrap();
    assert_eq!(rest, b"456789".to_vec());
    // bytes below the new base are no longer available
    assert!(inbound.read_segment(0, 4).is_none());
}

#[test]
fn set_final_offset_only_once() {
    let mut inbound = StreamInboundState::new(4096, true);
    assert!(inbound.set_final_offset(100));
    assert!(!inbound.set_final_offset(200));
    assert_eq!(inbound.final_offset, Some(100));
}

#[test]
fn max_contiguous_tracks_first_range() {
    let mut inbound = StreamInboundState::new(4096, true);
    assert_eq!(inbound.max_contiguous_offset(), None);
    assert_eq!(inbound.receive_segment(5, b"xx"), ReceiveSegmentResult::Received);
    assert_eq!(inbound.max_contiguous_offset(), Some(7));
    assert_eq!(inbound.receive_segment(0, b"yyyyy"), ReceiveSegmentResult::Received);
    assert_eq!(inbound.max_contiguous_offset(), Some(7));
}

#[test]
fn read_next_after_advance() {
    // the readable run is measured from the buffer start, not from offset
    // zero: after consuming a prefix only the bytes past it come out
    let mut inbound = StreamInboundState::new(4096, true);
    assert_eq!(inbound.receive_segment(0, b"abcdefgh"), ReceiveSegmentResult::Received);
    inbound.advance_buffer(4);
    let read = inbound.read_next(64).unwrap();
    assert_eq!(read, b"efgh".to_vec());
    let capped = inbound.read_next(2).unwrap();
    assert_eq!(capped, b"ef".to_vec());
}
