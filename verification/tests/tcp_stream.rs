use parse_tcp::connection::{Connection, ConnectionEvent, ConnectionState, Direction};
use parse_tcp::flow_table::Flow;
use parse_tcp::serialized::PacketExtra;
use parse_tcp::stream::{in_range_wrapping, SegmentType};
use parse_tcp::{IpAddress, TcpFlags, TcpMeta};

fn base_meta(seq: u32, ack: u32, window: u16) -> TcpMeta {
    TcpMeta {
        src_addr: IpAddress::V4(0x5b5c9069),
        src_port: 3161,
        dst_addr: IpAddress::V4(0x17926801),
        dst_port: 45143,
        seq_number: seq,
        ack_number: ack,
        flags: TcpFlags::default(),
        window,
        option_window_scale: None,
        option_timestamp: None,
    }
}

fn swap_meta(meta: &TcpMeta) -> TcpMeta {
    let mut out = meta.clone();
    std::mem::swap(&mut out.src_addr, &mut out.dst_addr);
    std::mem::swap(&mut out.src_port, &mut out.dst_port);
    std::mem::swap(&mut out.seq_number, &mut out.ack_number);
    out
}

/// Run a full three-way handshake with the given ISNs and raw window.
fn handshake(client_isn: u32, server_isn: u32, window: u16) -> (Connection, Vec<ConnectionEvent>) {
    let mut events = Vec::new();
    let mut syn = base_meta(client_isn, 0, window);
    syn.flags.syn = true;
    let mut conn = Connection::new(Flow::from_meta(&syn));
    assert!(conn.handle_packet(&syn, &[], &PacketExtra::Empty, &mut events));

    let mut syn_ack = swap_meta(&syn);
    syn_ack.seq_number = server_isn;
    syn_ack.ack_number = client_isn.wrapping_add(1);
    syn_ack.flags.ack = true;
    assert!(conn.handle_packet(&syn_ack, &[], &PacketExtra::Empty, &mut events));

    let mut ack = swap_meta(&syn_ack);
    ack.ack_number = server_isn.wrapping_add(1);
    ack.flags.syn = false;
    assert!(conn.handle_packet(&ack, &[], &PacketExtra::Empty, &mut events));
    (conn, events)
}

/// A client-to-server data packet of the handshake connection.
fn client_data(client_isn: u32, server_isn: u32, offset: u32, window: u16) -> TcpMeta {
    let mut meta = base_meta(
        client_isn.wrapping_add(1).wrapping_add(offset),
        server_isn.wrapping_add(1),
        window,
    );
    meta.flags.ack = true;
    meta
}

#[test]
fn hello_world_in_order() {
    let client_isn = 1_587_232;
    let server_isn = 315_848;
    let (mut conn, events) = handshake(client_isn, server_isn, 1024);
    assert!(matches!(conn.conn_state, ConnectionState::Established { .. }));
    assert_eq!(events, vec![ConnectionEvent::HandshakeDone]);

    let data = client_data(client_isn, server_isn, 0, 1024);
    let mut events = Vec::new();
    assert!(conn.handle_packet(&data, b"Hello, world!", &PacketExtra::Empty, &mut events));

    assert_eq!(conn.forward_stream.readable_buffered_length(), 13);
    let bytes = conn.forward_stream.read_buffer_until(13).unwrap();
    assert_eq!(bytes, b"Hello, world!".to_vec());
}

#[test]
fn out_of_order_arrival() {
    let client_isn = 1_587_232;
    let server_isn = 315_848;
    let (mut conn, _) = handshake(client_isn, server_isn, 1024);

    let mut events = Vec::new();
    let late = client_data(client_isn, server_isn, 7, 1024);
    assert!(conn.handle_packet(&late, b"world!", &PacketExtra::Empty, &mut events));
    assert_eq!(conn.forward_stream.readable_buffered_length(), 0);

    let early = client_data(client_isn, server_isn, 0, 1024);
    assert!(conn.handle_packet(&early, b"Hello, ", &PacketExtra::Empty, &mut events));
    assert_eq!(conn.forward_stream.readable_buffered_length(), 13);

    // no gaps remain over the assembled range
    let mut gaps = Vec::new();
    conn.forward_stream.read_gaps_until(13, &mut gaps);
    assert_eq!(gaps, vec![]);
    assert_eq!(conn.forward_stream.gaps_length, 0);
}

#[test]
fn retransmit_counted_once() {
    let client_isn = 44_000;
    let server_isn = 91_000;
    let (mut conn, _) = handshake(client_isn, server_isn, 1024);

    let payload = [0x5au8; 64];
    let mut events = Vec::new();
    let data = client_data(client_isn, server_isn, 0, 1024);
    assert!(conn.handle_packet(&data, &payload, &PacketExtra::Empty, &mut events));
    conn.handle_packet(&data, &payload, &PacketExtra::Empty, &mut events);
    // the byte-for-byte repeat counts as exactly one retransmit and adds
    // no data event
    let data_events = events
        .iter()
        .filter(|e| **e == ConnectionEvent::DataReceived(Direction::Forward))
        .count();
    assert_eq!(data_events, 1);
    assert_eq!(conn.forward_stream.retransmit_count, 1);
    assert_eq!(conn.forward_stream.total_buffered_length(), 64);
}

#[test]
fn partial_overlap_not_counted_as_retransmit() {
    let client_isn = 44_000;
    let server_isn = 91_000;
    let (mut conn, _) = handshake(client_isn, server_isn, 1024);

    let mut events = Vec::new();
    let first = client_data(client_isn, server_isn, 0, 1024);
    assert!(conn.handle_packet(&first, &[1u8; 64], &PacketExtra::Empty, &mut events));
    // overlaps the first segment but carries 32 new bytes
    let second = client_data(client_isn, server_isn, 32, 1024);
    assert!(conn.handle_packet(&second, &[2u8; 64], &PacketExtra::Empty, &mut events));

    assert_eq!(conn.forward_stream.retransmit_count, 0);
    assert_eq!(conn.forward_stream.total_buffered_length(), 96);
    // the overlap kept its first-written value
    let bytes = conn.forward_stream.read_buffer_until(96).unwrap();
    assert_eq!(&bytes[..64], &[1u8; 64][..]);
    assert_eq!(&bytes[64..], &[2u8; 32][..]);
}

#[test]
fn window_scale_inference() {
    // handshake advertises a 64 KiB window with no window-scale option
    let client_isn = 7_000_000;
    let server_isn = 3_000_000;
    let (mut conn, _) = handshake(client_isn, server_isn, 65535);
    assert!(!conn.forward_stream.got_window_scale);
    assert_eq!(conn.forward_stream.window_scale, 0);

    // a data packet lands at offset 200,000, past the unscaled window
    let mut events = Vec::new();
    let data = client_data(client_isn, server_isn, 200_000, 65535);
    assert!(conn.handle_packet(&data, &[7u8; 16], &PacketExtra::Empty, &mut events));
    assert!(events.contains(&ConnectionEvent::DataReceived(Direction::Forward)));

    // the stream inferred a scale of at least 2 and accepted the bytes
    assert!(conn.forward_stream.window_scale >= 2);
    let mut segments = Vec::new();
    conn.forward_stream.pop_segments_until(None, &mut segments);
    assert!(segments.iter().any(|s| {
        s.offset == 200_000 && matches!(s.data, SegmentType::Data { len: 16, is_retransmit: false })
    }));
}

#[test]
fn fin_and_ack() {
    let client_isn = 52_000;
    let server_isn = 87_000;
    let (mut conn, _) = handshake(client_isn, server_isn, 1024);

    let mut events = Vec::new();
    let data = client_data(client_isn, server_isn, 0, 1024);
    assert!(conn.handle_packet(&data, b"Hi", &PacketExtra::Empty, &mut events));

    let mut fin = client_data(client_isn, server_isn, 2, 1024);
    fin.flags.fin = true;
    assert!(conn.handle_packet(&fin, &[], &PacketExtra::Empty, &mut events));
    assert!(events.contains(&ConnectionEvent::FinReceived(Direction::Forward)));
    assert!(!conn.forward_stream.has_ended);

    // the server acks past the FIN
    let mut server_ack = swap_meta(&fin);
    server_ack.flags.fin = false;
    server_ack.seq_number = server_isn.wrapping_add(1);
    server_ack.ack_number = client_isn.wrapping_add(4);
    assert!(conn.handle_packet(&server_ack, &[], &PacketExtra::Empty, &mut events));

    assert!(conn.forward_stream.has_ended);
    let ends: Vec<_> = events
        .iter()
        .filter(|e| **e == ConnectionEvent::StreamEnd(Direction::Forward))
        .collect();
    assert_eq!(ends.len(), 1);
    assert!(conn.forward_stream.state.finished());
}

#[test]
fn sequence_wrap() {
    // the ISN sits just below the 32-bit rollover
    let client_isn: u32 = 4_294_960_000;
    let server_isn: u32 = 12_345;
    let (mut conn, _) = handshake(client_isn, server_isn, 65535);

    let mut fed: Vec<u8> = Vec::new();
    let mut events = Vec::new();
    for chunk in 0u32..10 {
        let mut payload = [0u8; 1024];
        for (j, byte) in payload.iter_mut().enumerate() {
            *byte = ((chunk as usize * 1024 + j) % 251) as u8;
        }
        fed.extend_from_slice(&payload);
        let data = client_data(client_isn, server_isn, chunk * 1024, 65535);
        assert!(conn.handle_packet(&data, &payload, &PacketExtra::Empty, &mut events));
    }

    assert_eq!(conn.forward_stream.readable_buffered_length(), 10_240);
    let bytes = conn.forward_stream.read_buffer_until(10_240).unwrap();
    assert_eq!(bytes.len(), 10_240);
    assert_eq!(bytes, fed);
    // and the retransmit counter stayed at zero
    assert_eq!(conn.forward_stream.retransmit_count, 0);
}

#[test]
fn wrapping_range_check() {
    // plain interior range
    assert!(in_range_wrapping(1000, 100, 100, 950));
    assert!(in_range_wrapping(1000, 100, 100, 1100));
    assert!(!in_range_wrapping(1000, 100, 100, 899));
    assert!(!in_range_wrapping(1000, 100, 100, 1101));
    // range straddling the 32-bit rollover
    assert!(in_range_wrapping(u32::MAX, 10, 10, u32::MAX));
    assert!(in_range_wrapping(u32::MAX, 10, 10, 5));
    assert!(in_range_wrapping(u32::MAX, 10, 10, u32::MAX - 10));
    assert!(!in_range_wrapping(u32::MAX, 10, 10, 20));
    assert!(in_range_wrapping(5, 10, 10, u32::MAX));
    assert!(!in_range_wrapping(5, 10, 10, u32::MAX - 10));
}
