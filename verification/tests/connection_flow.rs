use parse_tcp::connection::{Connection, ConnectionEvent, ConnectionState, Direction};
use parse_tcp::flow_table::{Flow, FlowCompare, FlowTable, IPPROTO_TCP};
use parse_tcp::serialized::PacketExtra;
use parse_tcp::{IpAddress, TcpFlags, TcpMeta};

fn meta_for(seq: u32, ack: u32) -> TcpMeta {
    TcpMeta {
        src_addr: IpAddress::V4(0x0a03a018),
        src_port: 35619,
        dst_addr: IpAddress::V4(0x01010101),
        dst_port: 53,
        seq_number: seq,
        ack_number: ack,
        flags: TcpFlags::default(),
        window: 256,
        option_window_scale: None,
        option_timestamp: None,
    }
}

fn swap_meta(meta: &TcpMeta) -> TcpMeta {
    let mut out = meta.clone();
    std::mem::swap(&mut out.src_addr, &mut out.dst_addr);
    std::mem::swap(&mut out.src_port, &mut out.dst_port);
    std::mem::swap(&mut out.seq_number, &mut out.ack_number);
    out
}

#[test]
fn simple() {
    let mut events = Vec::new();
    let mut hs1 = meta_for(1_587_232, 0);
    hs1.flags.syn = true;
    hs1.option_window_scale = Some(2);

    let mut conn = Connection::new(Flow::from_meta(&hs1));
    assert!(conn.handle_packet(&hs1, &[], &PacketExtra::Empty, &mut events));
    let mut hs2 = swap_meta(&hs1);
    hs2.seq_number = 315_848;
    hs2.ack_number += 1;
    hs2.flags.ack = true;
    assert!(conn.handle_packet(&hs2, &[], &PacketExtra::Empty, &mut events));
    let mut hs3 = swap_meta(&hs2);
    hs3.ack_number += 1;
    hs3.flags.syn = false;
    assert!(conn.handle_packet(&hs3, &[], &PacketExtra::Empty, &mut events));

    assert!(events.contains(&ConnectionEvent::HandshakeDone));
    assert!(conn.observed_handshake);

    let data1 = hs3.clone();
    assert!(conn.handle_packet(&data1, b"test", &PacketExtra::Empty, &mut events));
    assert_eq!(conn.forward_stream.readable_buffered_length(), 4);
}

#[test]
fn three_way_handshake_events() {
    // a well-formed handshake plus one data segment each way yields exactly
    // one HandshakeDone and one DataReceived per direction, and no desync
    let mut events = Vec::new();
    let mut syn = meta_for(1000, 0);
    syn.flags.syn = true;
    let mut conn = Connection::new(Flow::from_meta(&syn));
    conn.handle_packet(&syn, &[], &PacketExtra::Empty, &mut events);

    let mut syn_ack = swap_meta(&syn);
    syn_ack.seq_number = 2000;
    syn_ack.ack_number = 1001;
    syn_ack.flags.ack = true;
    conn.handle_packet(&syn_ack, &[], &PacketExtra::Empty, &mut events);

    let mut ack = swap_meta(&syn_ack);
    ack.ack_number = 2001;
    ack.flags.syn = false;
    conn.handle_packet(&ack, &[], &PacketExtra::Empty, &mut events);

    let fwd_data = ack.clone();
    assert!(conn.handle_packet(&fwd_data, b"ping", &PacketExtra::Empty, &mut events));
    let mut rev_data = swap_meta(&ack);
    rev_data.flags.ack = true;
    assert!(conn.handle_packet(&rev_data, b"pong", &PacketExtra::Empty, &mut events));

    let count = |e: &ConnectionEvent| events.iter().filter(|x| *x == e).count();
    assert_eq!(count(&ConnectionEvent::HandshakeDone), 1);
    assert_eq!(count(&ConnectionEvent::DataReceived(Direction::Forward)), 1);
    assert_eq!(count(&ConnectionEvent::DataReceived(Direction::Reverse)), 1);
    assert!(!events.iter().any(|e| matches!(e, ConnectionEvent::ConnectionDesync(_))));
}

#[test]
fn syn_on_established_desyncs() {
    let mut events = Vec::new();
    let mut syn = meta_for(1000, 0);
    syn.flags.syn = true;
    let mut conn = Connection::new(Flow::from_meta(&syn));
    conn.handle_packet(&syn, &[], &PacketExtra::Empty, &mut events);
    let data = meta_for(1001, 0);
    conn.handle_packet(&data, b"x", &PacketExtra::Empty, &mut events);
    assert!(matches!(conn.conn_state, ConnectionState::Established { .. }));

    let mut stray_syn = meta_for(5000, 0);
    stray_syn.flags.syn = true;
    assert!(!conn.handle_packet(&stray_syn, &[], &PacketExtra::Empty, &mut events));
    assert_eq!(conn.conn_state, ConnectionState::Desync);
    assert!(events
        .iter()
        .any(|e| matches!(e, ConnectionEvent::ConnectionDesync(_))));
}

#[test]
fn reset_closes_connection() {
    let mut events = Vec::new();
    let mut syn = meta_for(1000, 0);
    syn.flags.syn = true;
    let mut conn = Connection::new(Flow::from_meta(&syn));
    conn.handle_packet(&syn, &[], &PacketExtra::Empty, &mut events);
    let data = meta_for(1001, 0);
    conn.handle_packet(&data, b"hello", &PacketExtra::Empty, &mut events);

    // reset in the forward direction at a plausible offset
    let mut rst = meta_for(1006, 0);
    rst.flags.rst = true;
    assert!(conn.handle_packet(&rst, &[], &PacketExtra::Empty, &mut events));
    assert_eq!(conn.conn_state, ConnectionState::Closed);
    assert!(conn.observed_close);
    assert!(conn.forward_stream.had_reset);
    assert!(events
        .iter()
        .any(|e| matches!(e, ConnectionEvent::RstReceived(Direction::Forward, _))));
}

#[test]
fn implausible_reset_dropped() {
    let mut events = Vec::new();
    let mut syn = meta_for(1000, 0);
    syn.flags.syn = true;
    let mut conn = Connection::new(Flow::from_meta(&syn));
    conn.handle_packet(&syn, &[], &PacketExtra::Empty, &mut events);
    let data = meta_for(1001, 0);
    conn.handle_packet(&data, b"hello", &PacketExtra::Empty, &mut events);

    // a reset far beyond the plausible lookahead is not believed
    let mut rst = meta_for(1001u32.wrapping_add(20_000_000), 0);
    rst.flags.rst = true;
    assert!(!conn.handle_packet(&rst, &[], &PacketExtra::Empty, &mut events));
    assert!(matches!(conn.conn_state, ConnectionState::Established { .. }));
}

#[test]
fn flow_compare_is_direction_insensitive() {
    let forward = Flow {
        proto: IPPROTO_TCP,
        src_addr: IpAddress::V4(0x0a03a018),
        src_port: 35619,
        dst_addr: IpAddress::V4(0x01010101),
        dst_port: 53,
    };
    let reverse = forward.reversed();
    let unrelated = Flow {
        dst_addr: IpAddress::V4(0x08080808),
        ..forward
    };
    assert_eq!(forward.compare(&forward), FlowCompare::Forward);
    assert_eq!(forward.compare(&reverse), FlowCompare::Reverse);
    assert_eq!(forward.compare(&unrelated), FlowCompare::Unrelated);
    assert_eq!(reverse.compare(&forward), FlowCompare::Reverse);
}

#[test]
fn flow_table_routes_and_retires() {
    let mut table = FlowTable::new();
    table.save_retired = true;
    let mut events = Vec::new();

    let mut syn = meta_for(1000, 0);
    syn.flags.syn = true;
    assert!(table.handle_packet(&syn, &[], &PacketExtra::Empty, &mut events));
    assert_eq!(table.entries.len(), 1);

    let data = meta_for(1001, 0);
    assert!(table.handle_packet(&data, b"payload", &PacketExtra::Empty, &mut events));
    assert_eq!(table.entries.len(), 1);

    // a validated reset closes and retires the connection on the spot
    let mut rst = meta_for(1008, 0);
    rst.flags.rst = true;
    assert!(table.handle_packet(&rst, &[], &PacketExtra::Empty, &mut events));
    assert_eq!(table.entries.len(), 0);
    assert_eq!(table.retired.len(), 1);

    // will_retire fired exactly once for the one retired connection
    let retire_count = events
        .iter()
        .filter(|e| **e == ConnectionEvent::WillRetire)
        .count();
    assert_eq!(retire_count, 1);
}

#[test]
fn flow_table_close_retires_all() {
    let mut table = FlowTable::new();
    table.save_retired = true;
    let mut events = Vec::new();

    let mut syn_a = meta_for(1000, 0);
    syn_a.flags.syn = true;
    table.handle_packet(&syn_a, &[], &PacketExtra::Empty, &mut events);

    let mut syn_b = meta_for(4000, 0);
    syn_b.flags.syn = true;
    syn_b.src_port = 40000;
    table.handle_packet(&syn_b, &[], &PacketExtra::Empty, &mut events);
    assert_eq!(table.entries.len(), 2);

    let before = events.len();
    table.close(&mut events);
    assert_eq!(table.entries.len(), 0);
    assert_eq!(table.retired.len(), 2);
    assert_eq!(events.len(), before + 2);
    assert!(events[before..]
        .iter()
        .all(|e| *e == ConnectionEvent::WillRetire));
}

#[test]
fn desync_recreates_flow() {
    let mut table = FlowTable::new();
    table.save_retired = true;
    let mut events = Vec::new();

    let mut syn = meta_for(1000, 0);
    syn.flags.syn = true;
    table.handle_packet(&syn, &[], &PacketExtra::Empty, &mut events);
    let data = meta_for(1001, 0);
    table.handle_packet(&data, b"x", &PacketExtra::Empty, &mut events);

    // a stray SYN desynchronizes; the table retires and recreates the flow
    let mut stray = meta_for(9_000_000, 0);
    stray.flags.syn = true;
    table.handle_packet(&stray, &[], &PacketExtra::Empty, &mut events);
    assert_eq!(table.entries.len(), 1);
    assert_eq!(table.retired.len(), 1);
    assert_eq!(
        events
            .iter()
            .filter(|e| **e == ConnectionEvent::WillRetire)
            .count(),
        1
    );
}
