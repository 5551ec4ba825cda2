use parse_tcp::connection::{Connection, ConnectionEvent, Direction};
use parse_tcp::flow_table::{Flow, FlowTable, HandlePacketResult};
use parse_tcp::serialized::{PacketExtra, SerializedSegment};
use parse_tcp::stream::{SegmentInfo, SegmentType, MAX_ALLOWED_BUFFER_SIZE};
use parse_tcp::{IpAddress, TcpFlags, TcpMeta};

fn sample_meta() -> TcpMeta {
    TcpMeta {
        src_addr: IpAddress::V6(0x2001_0db8_0000_0000_0000_0000_0000_0001),
        src_port: 443,
        dst_addr: IpAddress::V6(0x2001_0db8_0000_0000_0000_0000_0000_0002),
        dst_port: 51234,
        seq_number: 77,
        ack_number: 0,
        flags: TcpFlags::default(),
        window: 1024,
        option_window_scale: None,
        option_timestamp: None,
    }
}

#[test]
fn segment_records_flatten_each_kind() {
    let extra = PacketExtra::LegacyPcap { index: 5, ts_sec: 100, ts_usec: 42 };
    let data_info = SegmentInfo {
        offset: 10,
        reverse_acked: 3,
        extra,
        data: SegmentType::Data { len: 7, is_retransmit: true },
    };
    assert!(matches!(
        SerializedSegment::from_info(&data_info),
        SerializedSegment::Data { offset: 10, len: 7, is_retransmit: true, reverse_acked: 3, .. }
    ));

    let ack_info = SegmentInfo { data: SegmentType::Ack { window: 9000 }, ..data_info };
    assert!(matches!(
        SerializedSegment::from_info(&ack_info),
        SerializedSegment::Ack { offset: 10, window: 9000, reverse_acked: 3, .. }
    ));

    // a FIN record reports the announced end offset as its offset
    let fin_info = SegmentInfo { data: SegmentType::Fin { end_offset: 17 }, ..data_info };
    assert!(matches!(
        SerializedSegment::from_info(&fin_info),
        SerializedSegment::Fin { offset: 17, reverse_acked: 3, .. }
    ));

    let rst_info = SegmentInfo { data: SegmentType::Rst, ..data_info };
    assert!(matches!(
        SerializedSegment::from_info(&rst_info),
        SerializedSegment::Rst { offset: 10, reverse_acked: 3, .. }
    ));

    assert!(matches!(
        SerializedSegment::new_gap(4, 9),
        SerializedSegment::Gap { offset: 4, len: 9 }
    ));
}

#[test]
fn unknown_flow_is_not_found() {
    let mut table = FlowTable::new();
    let meta = sample_meta();
    let mut events = Vec::new();
    let result = table.handle_packet_direct(&meta, &[], &PacketExtra::Empty, &mut events);
    assert_eq!(result, HandlePacketResult::NotFound);
    assert!(events.is_empty());
}

#[test]
fn oversized_ack_window_is_capped() {
    // establish with a large advertised window and the maximum scale
    let mut events = Vec::new();
    let mut syn = sample_meta();
    syn.flags.syn = true;
    syn.option_window_scale = Some(14);
    let mut conn = Connection::new(Flow::from_meta(&syn));
    conn.handle_packet(&syn, &[], &PacketExtra::Empty, &mut events);
    let mut data = sample_meta();
    data.seq_number = 78;
    conn.handle_packet(&data, b"x", &PacketExtra::Empty, &mut events);

    // a reverse ack advertising the full scaled window would blow past the
    // buffer cap; the limit stays within it
    let mut ack = sample_meta();
    std::mem::swap(&mut ack.src_addr, &mut ack.dst_addr);
    std::mem::swap(&mut ack.src_port, &mut ack.dst_port);
    ack.seq_number = 0;
    ack.ack_number = 79;
    ack.flags.ack = true;
    ack.window = 65535;
    conn.handle_packet(&ack, &[], &PacketExtra::Empty, &mut events);

    let stream = &conn.forward_stream;
    assert!(
        stream.state.window_limit
            <= stream.state.buffer_offset + MAX_ALLOWED_BUFFER_SIZE
    );
    assert!(events.contains(&ConnectionEvent::AckReceived(Direction::Reverse)));
}

#[test]
fn oversized_window_scale_rejected() {
    let mut events = Vec::new();
    let mut syn = sample_meta();
    syn.flags.syn = true;
    syn.option_window_scale = Some(15);
    let mut conn = Connection::new(Flow::from_meta(&syn));
    conn.handle_packet(&syn, &[], &PacketExtra::Empty, &mut events);
    // the oversized option was dropped entirely
    assert!(!conn.forward_stream.got_window_scale);
    assert_eq!(conn.forward_stream.window_scale, 0);
}
