//! Per-flow TCP connection state machine: tracks the three-way handshake
//! and teardown, resolves packet direction, dispatches data, acks, FINs and
//! resets to the two per-direction streams, and reports what happened as a
//! list of events for the caller's handler to act on.

use vstd::prelude::*;

use crate::flow_table::{spec_flow_compare, spec_flow_of_meta, Flow, FlowCompare};
use crate::serialized::PacketExtra;
use crate::stream::{
    ack_ends, ack_packet_post, data_accepted, data_packet_post, fin_packet_post,
    in_range_wrapping, resolves, rst_accepted, rst_packet_post, seq_add, set_isn_post, Stream,
    RESET_MAX_LOOKAHEAD,
};
use crate::TcpMeta;

verus! {

/// Packet direction relative to a connection.
#[derive(Clone, Copy, Debug, PartialEq, Eq, Structural)]
pub enum Direction {
    /// Client to server, the client being whoever sent the first SYN.
    Forward,
    /// Server to client.
    Reverse,
}

impl Direction {
    /// The opposite direction.
    pub fn swap(self) -> (r: Direction)
        ensures
            r == dir_swap(self),
    {
        match self {
            Direction::Forward => Direction::Reverse,
            Direction::Reverse => Direction::Forward,
        }
    }
}

/// The opposite direction.
pub open spec fn dir_swap(d: Direction) -> Direction {
    match d {
        Direction::Forward => Direction::Reverse,
        Direction::Reverse => Direction::Forward,
    }
}


/// A reset during the handshake is plausible when its sequence number lies
/// in `[base, base + RESET_MAX_LOOKAHEAD]` on the 32-bit circle.
pub open spec fn rst_plausible(base: u32, value: u32) -> bool {
    let end = seq_add(base, RESET_MAX_LOOKAHEAD);
    if base <= end {
        base <= value <= end
    } else {
        value >= base || value <= end
    }
}

/// TCP handshake state.
#[derive(Clone, Copy, Debug, PartialEq, Eq, Structural)]
pub enum ConnectionState {
    /// Not yet initialized.
    Initial,
    /// SYN seen, expecting a SYN/ACK.
    SynSent {
        /// Sequence number of the initial SYN.
        seq_no: u32,
    },
    /// SYN/ACK seen, expecting the final ACK.
    SynReceived {
        /// Sequence number of the SYN/ACK.
        seq_no: u32,
        /// Acknowledgment number of the SYN/ACK.
        ack_no: u32,
        /// Window advertised by the SYN/ACK.
        window_size: u16,
        /// Whether the first SYN itself was observed.
        syn_seen: bool,
    },
    /// Handshake complete (observed or synthesized).
    Established {
        /// Initial sequence number of the forward direction.
        forward_isn: u32,
        /// Initial sequence number of the reverse direction.
        reverse_isn: u32,
    },
    /// Connection closed.
    Closed,
    /// Connection fatally desynchronized.
    Desync,
}

/// What a connection observed while handling a packet; the caller replays
/// these to its handler.
#[derive(Clone, Copy, Debug, PartialEq, Eq, Structural)]
pub enum ConnectionEvent {
    /// The handshake completed (observed or synthesized).
    HandshakeDone,
    /// New (non-retransmit) data arrived in the given direction.
    DataReceived(Direction),
    /// The ack point advanced; the direction is that of the ack packet.
    AckReceived(Direction),
    /// A FIN arrived in the given direction.
    FinReceived(Direction),
    /// A validated reset arrived in the given direction.
    RstReceived(Direction, PacketExtra),
    /// The given direction's FIN has been acked: that stream is complete.
    StreamEnd(Direction),
    /// The connection fatally desynchronized.
    ConnectionDesync(Direction),
    /// The connection is about to be dropped from the flow table.
    WillRetire,
}


/// Number of handshake-completion events in a list.
pub open spec fn count_handshake_done(s: Seq<ConnectionEvent>) -> int
    decreases s.len(),
{
    if s.len() == 0 {
        0
    } else {
        count_handshake_done(s.drop_last()) + if s.last() == ConnectionEvent::HandshakeDone {
            1int
        } else {
            0int
        }
    }
}

/// Counting handshake-completion events distributes over concatenation.
pub proof fn lemma_count_handshake_done_concat(a: Seq<ConnectionEvent>, b: Seq<ConnectionEvent>)
    ensures
        count_handshake_done(a + b) == count_handshake_done(a) + count_handshake_done(b),
    decreases b.len(),
{
    if b.len() == 0 {
        assert(a + b =~= a);
    } else {
        lemma_count_handshake_done_concat(a, b.drop_last());
        assert((a + b).drop_last() =~= a + b.drop_last());
        assert((a + b).last() == b.last());
    }
}


/// Counting handshake-completion events after appending one event.
pub proof fn lemma_count_handshake_done_push(s: Seq<ConnectionEvent>, e: ConnectionEvent)
    ensures
        count_handshake_done(s.push(e)) == count_handshake_done(s) + (
        if e == ConnectionEvent::HandshakeDone {
            1int
        } else {
            0int
        }),
{
    assert(s.push(e).drop_last() =~= s);
    assert(s.push(e).last() == e);
}

/// Handshake-completion count of a one-or-zero event list.
pub proof fn lemma_count_handshake_done_event_if(b: bool, e: ConnectionEvent)
    ensures
        count_handshake_done(event_if(b, e)) == (if b && e == ConnectionEvent::HandshakeDone {
            1int
        } else {
            0int
        }),
{
    if b {
        assert(event_if(b, e) =~= seq![e]);
        assert(event_if(b, e).drop_last() =~= Seq::<ConnectionEvent>::empty());
        assert(event_if(b, e).last() == e);
        assert(count_handshake_done(Seq::<ConnectionEvent>::empty()) == 0);
    } else {
        assert(event_if(b, e).len() == 0);
    }
}

/// Whether the connection is still in a phase before `Established`.
pub open spec fn pre_established(c: ConnectionState) -> bool {
    c is Initial || c is SynSent || c is SynReceived
}

/// The event list `[e]` when `b` holds, else no events.
pub open spec fn event_if(b: bool, e: ConnectionEvent) -> Seq<ConnectionEvent> {
    if b {
        seq![e]
    } else {
        seq![]
    }
}

/// A TCP connection: the handshake state machine and its two streams.
pub struct Connection {
    /// Unique identifier of the connection.
    pub uuid: u128,
    /// Canonical forward-direction flow tuple.
    pub forward_flow: Flow,
    /// Handshake state.
    pub conn_state: ConnectionState,
    /// Whether the full three-way handshake was observed.
    pub observed_handshake: bool,
    /// Whether the close (FIN exchange or reset) was observed.
    pub observed_close: bool,
    /// Stream of data flowing in the forward direction.
    pub forward_stream: Stream,
    /// Stream of data flowing in the reverse direction.
    pub reverse_stream: Stream,
}

/// Relies on uuid::Uuid::new_v4 for a fresh random version-4 UUID, taken
/// as its 128-bit value.
#[verifier::external_body]
fn fresh_uuid() -> u128 {
    uuid::Uuid::new_v4().as_u128()
}

/// What a just-created connection for `flow` looks like, apart from its
/// random identifier: uninitialized state, fresh streams, nothing seen.
pub open spec fn fresh_connection(c: Connection, flow: Flow) -> bool {
    &&& c.wf()
    &&& c.forward_flow == flow
    &&& c.conn_state == ConnectionState::Initial
    &&& !c.observed_handshake
    &&& !c.observed_close
    &&& c.forward_stream.state.window_limit == 0
    &&& c.reverse_stream.state.window_limit == 0
    &&& c.forward_stream.state.buffer_offset == 0
    &&& c.reverse_stream.state.buffer_offset == 0
    &&& c.forward_stream.state.received@ == Seq::<(u64, u64)>::empty()
    &&& c.reverse_stream.state.received@ == Seq::<(u64, u64)>::empty()
    &&& c.forward_stream.state.final_offset is None
    &&& c.reverse_stream.state.final_offset is None
    &&& !c.forward_stream.has_ended && !c.reverse_stream.has_ended
    &&& !c.forward_stream.got_window_scale && !c.reverse_stream.got_window_scale
    &&& c.forward_stream.window_scale == 0 && c.reverse_stream.window_scale == 0
    &&& c.forward_stream.retransmit_count == 0 && c.reverse_stream.retransmit_count == 0
    &&& c.forward_stream.segments_info@ == Seq::<crate::stream::SegmentInfo>::empty()
    &&& c.reverse_stream.segments_info@ == Seq::<crate::stream::SegmentInfo>::empty()
}

/// The stream carrying data in direction `d`.
pub open spec fn stream_of(c: Connection, d: Direction) -> Stream {
    match d {
        Direction::Forward => c.forward_stream,
        Direction::Reverse => c.reverse_stream,
    }
}

/// The chain of per-stream effects one established-phase packet has on its
/// data-bearing stream: first the payload ([`data_packet_post`]), then the
/// stamp of the opposite stream's ack progress, then the FIN
/// ([`fin_packet_post`]). `ds1` is the stream between the payload and the
/// stamp; `as_post` is the ack stream after the packet.
#[verifier::opaque]
pub open spec fn stream_chain(
    ds0: Stream,
    ds1: Stream,
    as_post: Stream,
    ds_post: Stream,
    meta: TcpMeta,
    data: Seq<u8>,
    extra: PacketExtra,
    gd: bool,
    gf: bool,
) -> bool {
    &&& (data.len() > 0 ==> data_packet_post(ds0, ds1, meta.seq_number, data, extra, gd))
    &&& (data.len() == 0 ==> ds1 == ds0 && !gd)
    &&& ({
        let ds2 = if meta.flags.ack {
            Stream { reverse_acked: as_post.highest_acked, ..ds1 }
        } else {
            ds1
        };
        &&& (meta.flags.fin ==> fin_packet_post(
            ds2,
            ds_post,
            meta.seq_number,
            data.len() as int,
            extra,
            gf,
        ))
        &&& (!meta.flags.fin ==> ds_post == ds2 && !gf)
    })
}

/// How one established-phase packet drives the two streams: its ack applies
/// to the opposite stream ([`ack_packet_post`]), and the data-bearing
/// stream takes the payload, the ack-progress stamp and the FIN in order
/// ([`stream_chain`]).
#[verifier::opaque]
pub open spec fn established_stream_post(
    ds0: Stream,
    as0: Stream,
    ds_post: Stream,
    as_post: Stream,
    meta: TcpMeta,
    data: Seq<u8>,
    extra: PacketExtra,
    gd: bool,
    ga: bool,
    gf: bool,
) -> bool {
    &&& (meta.flags.ack ==> ack_packet_post(as0, as_post, meta.ack_number, meta.window, extra, ga))
    &&& (!meta.flags.ack ==> as_post == as0 && !ga)
    &&& exists|ds1: Stream|
        #[trigger] stream_chain(ds0, ds1, as_post, ds_post, meta, data, extra, gd, gf)
}

/// Everything handling a data/ack/FIN packet on a connection past the
/// handshake guarantees: which events were appended and in what order, the
/// result, the close bookkeeping, and the two streams' new contents per
/// [`established_stream_post`].
#[verifier::opaque]
pub open spec fn conn_established_post(
    pre: Connection,
    post: Connection,
    meta: TcpMeta,
    data: Seq<u8>,
    extra: PacketExtra,
    evs0: Seq<ConnectionEvent>,
    evs1: Seq<ConnectionEvent>,
    r: bool,
) -> bool {
    let cmp = spec_flow_compare(pre.forward_flow, spec_flow_of_meta(meta));
    let dir = if cmp == FlowCompare::Forward {
        Direction::Forward
    } else {
        Direction::Reverse
    };
    let ds = stream_of(pre, dir);
    let ack_s = stream_of(pre, dir_swap(dir));
    let gd = data.len() > 0 && data_accepted(ds, meta.seq_number, data.len() as int);
    let ga = meta.flags.ack && resolves(ack_s, meta.ack_number);
    let ended = meta.flags.ack && ack_ends(ack_s, meta.ack_number);
    &&& post.uuid == pre.uuid
    &&& post.forward_flow == pre.forward_flow
    &&& post.observed_handshake == pre.observed_handshake
    &&& post.conn_state == (if ended && ds.has_ended {
        ConnectionState::Closed
    } else {
        pre.conn_state
    })
    &&& post.observed_close == (pre.observed_close || (ended && ds.has_ended))
    &&& stream_of(post, dir_swap(dir)).has_ended == (ack_s.has_ended || ended)
    &&& stream_of(post, dir).has_ended == ds.has_ended
    &&& (exists|gf: bool|
        #[trigger] established_events(pre, post, meta, data, extra, evs0, evs1, r, gf))
}

/// The witness relation inside [`conn_established_post`]: `gf` says
/// whether the FIN was accepted, which the event list and the data-bearing
/// stream's FIN record both reflect.
#[verifier::opaque]
pub open spec fn established_events(
    pre: Connection,
    post: Connection,
    meta: TcpMeta,
    data: Seq<u8>,
    extra: PacketExtra,
    evs0: Seq<ConnectionEvent>,
    evs1: Seq<ConnectionEvent>,
    r: bool,
    gf: bool,
) -> bool {
    let cmp = spec_flow_compare(pre.forward_flow, spec_flow_of_meta(meta));
    let dir = if cmp == FlowCompare::Forward {
        Direction::Forward
    } else {
        Direction::Reverse
    };
    let ds = stream_of(pre, dir);
    let ack_s = stream_of(pre, dir_swap(dir));
    let gd = data.len() > 0 && data_accepted(ds, meta.seq_number, data.len() as int);
    let ga = meta.flags.ack && resolves(ack_s, meta.ack_number);
    let ended = meta.flags.ack && ack_ends(ack_s, meta.ack_number);
    &&& (gf ==> meta.flags.fin)
    &&& evs1 == evs0 + event_if(gd, ConnectionEvent::DataReceived(dir)) + event_if(
        ga,
        ConnectionEvent::AckReceived(dir),
    ) + event_if(gf, ConnectionEvent::FinReceived(dir)) + event_if(
        ended,
        ConnectionEvent::StreamEnd(dir_swap(dir)),
    )
    &&& r == (gd || ga || gf)
    &&& established_stream_post(
        ds,
        ack_s,
        stream_of(post, dir),
        stream_of(post, dir_swap(dir)),
        meta,
        data,
        extra,
        gd,
        ga,
        gf,
    )
}

/// Everything handling a data packet seen before any SYN/ACK guarantees:
/// the handshake is synthesized from the packet's own numbers, both streams
/// restart at those ISNs with a zero advertised window
/// ([`set_isn_post`]), the completion event fires, and a payload is then
/// replayed as on an established connection ([`conn_established_post`]).
#[verifier::opaque]
pub open spec fn conn_data_hs1_post(
    pre: Connection,
    post: Connection,
    meta: TcpMeta,
    data: Seq<u8>,
    extra: PacketExtra,
    evs0: Seq<ConnectionEvent>,
    evs1: Seq<ConnectionEvent>,
    r: bool,
) -> bool {
    let cmp = spec_flow_compare(pre.forward_flow, spec_flow_of_meta(meta));
    let fwd_isn = if cmp == FlowCompare::Forward {
        meta.seq_number
    } else {
        meta.ack_number
    };
    let rev_isn = if cmp == FlowCompare::Forward {
        meta.ack_number
    } else {
        meta.seq_number
    };
    &&& post.uuid == pre.uuid
    &&& post.forward_flow == pre.forward_flow
    &&& post.conn_state == (ConnectionState::Established {
        forward_isn: fwd_isn,
        reverse_isn: rev_isn,
    })
    &&& post.observed_handshake == pre.observed_handshake
    &&& post.observed_close == pre.observed_close
    &&& exists|f1: Stream, r1: Stream|
        #[trigger] hs1_streams(pre, f1, r1, post, meta, data, extra, evs0, evs1, r)
}

/// The witness relation inside [`conn_data_hs1_post`]: `f1` and `r1` are
/// the two streams right after their restart at the synthesized ISNs.
#[verifier::opaque]
pub open spec fn hs1_streams(
    pre: Connection,
    f1: Stream,
    r1: Stream,
    post: Connection,
    meta: TcpMeta,
    data: Seq<u8>,
    extra: PacketExtra,
    evs0: Seq<ConnectionEvent>,
    evs1: Seq<ConnectionEvent>,
    r: bool,
) -> bool {
    let cmp = spec_flow_compare(pre.forward_flow, spec_flow_of_meta(meta));
    let fwd_isn = if cmp == FlowCompare::Forward {
        meta.seq_number
    } else {
        meta.ack_number
    };
    let rev_isn = if cmp == FlowCompare::Forward {
        meta.ack_number
    } else {
        meta.seq_number
    };
    let mid = Connection {
        conn_state: ConnectionState::Established { forward_isn: fwd_isn, reverse_isn: rev_isn },
        forward_stream: f1,
        reverse_stream: r1,
        ..pre
    };
    &&& set_isn_post(pre.forward_stream, f1, fwd_isn, 0u16)
    &&& set_isn_post(pre.reverse_stream, r1, rev_isn, 0u16)
    &&& (data.len() == 0 ==> post == mid && evs1 == evs0.push(ConnectionEvent::HandshakeDone) && r
        == true)
    &&& (data.len() > 0 ==> conn_established_post(
        mid,
        post,
        meta,
        data,
        extra,
        evs0.push(ConnectionEvent::HandshakeDone),
        evs1,
        r,
    ))
}

/// Everything handling a data packet after a SYN/ACK guarantees: the
/// handshake completes (or is synthesized) from the stored SYN/ACK values,
/// both streams restart at the ISNs with the windows those packets
/// advertised ([`set_isn_post`]), a fully observed handshake is recorded
/// exactly on the expected final ACK, and a payload is then replayed as on
/// an established connection ([`conn_established_post`]).
#[verifier::opaque]
pub open spec fn conn_data_hs2_post(
    pre: Connection,
    post: Connection,
    meta: TcpMeta,
    data: Seq<u8>,
    extra: PacketExtra,
    evs0: Seq<ConnectionEvent>,
    evs1: Seq<ConnectionEvent>,
    r: bool,
) -> bool {
    let cmp = spec_flow_compare(pre.forward_flow, spec_flow_of_meta(meta));
    let fwd_isn = if cmp == FlowCompare::Forward {
        meta.seq_number
    } else {
        meta.ack_number
    };
    let rev_isn = if cmp == FlowCompare::Forward {
        meta.ack_number
    } else {
        meta.seq_number
    };
    pre.conn_state matches ConnectionState::SynReceived {
        seq_no,
        ack_no,
        window_size,
        syn_seen,
    } ==> {
        let exact_ack = cmp == FlowCompare::Forward && meta.flags.ack && meta.seq_number == ack_no
            && meta.ack_number == seq_add(seq_no, 1) && syn_seen;
        &&& post.uuid == pre.uuid
        &&& post.forward_flow == pre.forward_flow
        &&& post.conn_state == (ConnectionState::Established {
            forward_isn: fwd_isn,
            reverse_isn: rev_isn,
        })
        &&& post.observed_handshake == (pre.observed_handshake || exact_ack)
        &&& post.observed_close == pre.observed_close
        &&& exists|f1: Stream, r1: Stream|
            #[trigger] hs2_streams(pre, f1, r1, post, meta, data, extra, evs0, evs1, r)
    }
}

/// The witness relation inside [`conn_data_hs2_post`]: `f1` and `r1` are
/// the two streams right after their restart at the handshake's ISNs, with
/// the window limits the stored SYN/ACK and the final ACK advertised.
#[verifier::opaque]
pub open spec fn hs2_streams(
    pre: Connection,
    f1: Stream,
    r1: Stream,
    post: Connection,
    meta: TcpMeta,
    data: Seq<u8>,
    extra: PacketExtra,
    evs0: Seq<ConnectionEvent>,
    evs1: Seq<ConnectionEvent>,
    r: bool,
) -> bool {
    let cmp = spec_flow_compare(pre.forward_flow, spec_flow_of_meta(meta));
    let fwd_isn = if cmp == FlowCompare::Forward {
        meta.seq_number
    } else {
        meta.ack_number
    };
    let rev_isn = if cmp == FlowCompare::Forward {
        meta.ack_number
    } else {
        meta.seq_number
    };
    pre.conn_state matches ConnectionState::SynReceived {
        seq_no,
        ack_no,
        window_size,
        syn_seen,
    } ==> {
        let exact_ack = cmp == FlowCompare::Forward && meta.flags.ack && meta.seq_number == ack_no
            && meta.ack_number == seq_add(seq_no, 1) && syn_seen;
        let mid = Connection {
            conn_state: ConnectionState::Established {
                forward_isn: fwd_isn,
                reverse_isn: rev_isn,
            },
            observed_handshake: pre.observed_handshake || exact_ack,
            forward_stream: f1,
            reverse_stream: r1,
            ..pre
        };
        &&& set_isn_post(pre.forward_stream, f1, fwd_isn, window_size)
        &&& set_isn_post(
            pre.reverse_stream,
            r1,
            rev_isn,
            if exact_ack {
                meta.window
            } else {
                0u16
            },
        )
        &&& (data.len() == 0 ==> post == mid && evs1 == evs0.push(ConnectionEvent::HandshakeDone)
            && r == true)
        &&& (data.len() > 0 ==> conn_established_post(
            mid,
            post,
            meta,
            data,
            extra,
            evs0.push(ConnectionEvent::HandshakeDone),
            evs1,
            r,
        ))
    }
}

/// Everything handling a packet without SYN or RST guarantees, in whatever
/// handshake state the connection is: each state's handler's full
/// postcondition.
#[verifier::opaque]
pub open spec fn conn_data_post(
    pre: Connection,
    post: Connection,
    meta: TcpMeta,
    data: Seq<u8>,
    extra: PacketExtra,
    evs0: Seq<ConnectionEvent>,
    evs1: Seq<ConnectionEvent>,
    r: bool,
) -> bool {
    &&& ((pre.conn_state is Initial || pre.conn_state is SynSent) ==> conn_data_hs1_post(
        pre,
        post,
        meta,
        data,
        extra,
        evs0,
        evs1,
        r,
    ))
    &&& (pre.conn_state is SynReceived ==> conn_data_hs2_post(
        pre,
        post,
        meta,
        data,
        extra,
        evs0,
        evs1,
        r,
    ))
    &&& (!pre_established(pre.conn_state) ==> conn_established_post(
        pre,
        post,
        meta,
        data,
        extra,
        evs0,
        evs1,
        r,
    ))
}

/// Everything [`Connection::handle_syn`] guarantees: how a SYN or SYN/ACK
/// advances the handshake state machine, which stream records the window
/// scale, when the canonical flow flips, and the desynchronization of an
/// established connection.
#[verifier::opaque]
pub open spec fn conn_syn_post(
    pre: Connection,
    post: Connection,
    meta: TcpMeta,
    evs0: Seq<ConnectionEvent>,
    evs1: Seq<ConnectionEvent>,
    r: bool,
) -> bool {
    let cmp = spec_flow_compare(pre.forward_flow, spec_flow_of_meta(meta));
    let scaled_fwd = match meta.option_window_scale {
        Some(s) => if s <= 14 {
            Stream { window_scale: s, got_window_scale: true, ..pre.forward_stream }
        } else {
            pre.forward_stream
        },
        None => pre.forward_stream,
    };
    let scaled_rev = match meta.option_window_scale {
        Some(s) => if s <= 14 {
            Stream { window_scale: s, got_window_scale: true, ..pre.reverse_stream }
        } else {
            pre.reverse_stream
        },
        None => pre.reverse_stream,
    };
    &&& post.uuid == pre.uuid
    &&& post.observed_handshake == pre.observed_handshake
    &&& post.observed_close == pre.observed_close
    &&& pre_established(post.conn_state) == pre_established(pre.conn_state)
    &&& match pre.conn_state {
        ConnectionState::Initial => {
            if meta.flags.ack {
                // SYN/ACK with no SYN seen: server speaks first
                &&& r == true
                &&& post.conn_state == (ConnectionState::SynReceived {
                    seq_no: meta.seq_number,
                    ack_no: meta.ack_number,
                    window_size: meta.window,
                    syn_seen: false,
                })
                &&& post.reverse_stream == scaled_rev
                &&& post.forward_stream == pre.forward_stream
                &&& post.forward_flow == (if cmp == FlowCompare::Forward {
                    pre.forward_flow.spec_reversed()
                } else {
                    pre.forward_flow
                })
                &&& evs1 == evs0
            } else {
                &&& r == true
                &&& post.conn_state == (ConnectionState::SynSent { seq_no: meta.seq_number })
                &&& post.forward_stream == scaled_fwd
                &&& post.reverse_stream == pre.reverse_stream
                &&& post.forward_flow == (if cmp == FlowCompare::Reverse {
                    pre.forward_flow.spec_reversed()
                } else {
                    pre.forward_flow
                })
                &&& evs1 == evs0
            }
        },
        ConnectionState::SynSent { seq_no } => {
            if meta.flags.ack && cmp == FlowCompare::Reverse {
                &&& r == true
                &&& post.conn_state == (ConnectionState::SynReceived {
                    seq_no: meta.seq_number,
                    ack_no: meta.ack_number,
                    window_size: meta.window,
                    syn_seen: true,
                })
                &&& post.reverse_stream == scaled_rev
                &&& post.forward_stream == pre.forward_stream
                &&& post.forward_flow == pre.forward_flow
                &&& evs1 == evs0
            } else {
                r == false && post == pre && evs1 == evs0
            }
        },
        ConnectionState::SynReceived { .. } => { r == false && post == pre && evs1 == evs0 },
        ConnectionState::Established { .. } => {
            &&& r == false
            &&& post.conn_state == ConnectionState::Desync
            &&& post.forward_stream == pre.forward_stream
            &&& post.reverse_stream == pre.reverse_stream
            &&& post.forward_flow == pre.forward_flow
            &&& evs1 == evs0.push(
                ConnectionEvent::ConnectionDesync(
                    if cmp == FlowCompare::Forward {
                        Direction::Forward
                    } else {
                        Direction::Reverse
                    },
                ),
            )
        },
        _ => { r == false && post == pre && evs1 == evs0 },
    }
}

/// The witness relation inside [`conn_rst_post`]: `s1` is the direction's
/// stream right after its reset record was queued, before the reset mark.
pub open spec fn rst_stream_mid(
    pre: Connection,
    post: Connection,
    meta: TcpMeta,
    extra: PacketExtra,
    s1: Stream,
) -> bool {
    let cmp = spec_flow_compare(pre.forward_flow, spec_flow_of_meta(meta));
    let dir = if cmp == FlowCompare::Forward {
        Direction::Forward
    } else {
        Direction::Reverse
    };
    &&& rst_packet_post(stream_of(pre, dir), s1, meta.seq_number, extra, true)
    &&& stream_of(post, dir) == (Stream { had_reset: true, ..s1 })
}

/// Everything [`Connection::handle_rst`] guarantees: when a reset is
/// believed, that its direction's stream records it ([`rst_packet_post`])
/// and is marked reset, the other stream is untouched, the connection
/// closes and the event is appended; a disbelieved reset changes nothing.
#[verifier::opaque]
pub open spec fn conn_rst_post(
    pre: Connection,
    post: Connection,
    meta: TcpMeta,
    extra: PacketExtra,
    evs0: Seq<ConnectionEvent>,
    evs1: Seq<ConnectionEvent>,
    r: bool,
) -> bool {
    let cmp = spec_flow_compare(pre.forward_flow, spec_flow_of_meta(meta));
    let dir = if cmp == FlowCompare::Forward {
        Direction::Forward
    } else {
        Direction::Reverse
    };
    let accepted = match pre.conn_state {
        ConnectionState::Initial => true,
        ConnectionState::SynSent { .. } => dir != Direction::Forward,
        ConnectionState::SynReceived { seq_no, ack_no, .. } => rst_plausible(
            if dir == Direction::Forward {
                seq_no
            } else {
                ack_no
            },
            meta.seq_number,
        ),
        ConnectionState::Established { .. } => rst_accepted(stream_of(pre, dir), meta.seq_number),
        _ => false,
    };
    &&& post.uuid == pre.uuid
    &&& post.forward_flow == pre.forward_flow
    &&& post.observed_handshake == pre.observed_handshake
    &&& r == accepted
    &&& (!accepted ==> post == pre && evs1 == evs0)
    &&& (accepted ==> ({
        &&& post.conn_state == ConnectionState::Closed
        &&& post.observed_close
        &&& evs1 == evs0.push(ConnectionEvent::RstReceived(dir, extra))
        &&& stream_of(post, dir_swap(dir)) == stream_of(pre, dir_swap(dir))
        &&& (pre.conn_state is Established ==> exists|s1: Stream|
            #[trigger] rst_stream_mid(pre, post, meta, extra, s1))
        &&& (!(pre.conn_state is Established) ==> stream_of(post, dir) == (Stream {
            had_reset: true,
            ..stream_of(pre, dir)
        }))
    }))
}

/// Everything [`Connection::handle_packet`] guarantees: the packet is
/// dispatched on its flags, and the matching handler's full postcondition
/// relates the connection, the event list and the result.
#[verifier::opaque]
pub open spec fn conn_packet_post(
    pre: Connection,
    post: Connection,
    meta: TcpMeta,
    data: Seq<u8>,
    extra: PacketExtra,
    evs0: Seq<ConnectionEvent>,
    evs1: Seq<ConnectionEvent>,
    r: bool,
) -> bool {
    &&& (meta.flags.syn ==> conn_syn_post(pre, post, meta, evs0, evs1, r))
    &&& (!meta.flags.syn && meta.flags.rst ==> conn_rst_post(pre, post, meta, extra, evs0, evs1, r))
    &&& (!meta.flags.syn && !meta.flags.rst ==> conn_data_post(
        pre,
        post,
        meta,
        data,
        extra,
        evs0,
        evs1,
        r,
    ))
}


/// Assemble [`conn_established_post`] from what the per-stream handlers
/// guarantee and from the caller's event and close bookkeeping. `ds1` is
/// the data-bearing stream after the payload was applied; `gd`, `ga` and
/// `gf` are the three handlers' results; `ase` says whether this packet's
/// ack ended the opposite stream.
#[verifier::spinoff_prover]
proof fn lemma_assemble_established(
    pre: Connection,
    post: Connection,
    ds1: Stream,
    meta: TcpMeta,
    data: Seq<u8>,
    extra: PacketExtra,
    evs0: Seq<ConnectionEvent>,
    evs1: Seq<ConnectionEvent>,
    gd: bool,
    ga: bool,
    gf: bool,
    ase: bool,
)
    requires
        ({
            let cmp = spec_flow_compare(pre.forward_flow, spec_flow_of_meta(meta));
            let dir = if cmp == FlowCompare::Forward {
                Direction::Forward
            } else {
                Direction::Reverse
            };
            let ds0 = stream_of(pre, dir);
            let as0 = stream_of(pre, dir_swap(dir));
            let as_post = stream_of(post, dir_swap(dir));
            let ds_post = stream_of(post, dir);
            let ds2 = if meta.flags.ack {
                Stream { reverse_acked: as_post.highest_acked, ..ds1 }
            } else {
                ds1
            };
            &&& (data.len() > 0 ==> data_packet_post(ds0, ds1, meta.seq_number, data, extra, gd))
            &&& (data.len() == 0 ==> ds1 == ds0 && !gd)
            &&& (meta.flags.ack ==> ack_packet_post(
                as0,
                as_post,
                meta.ack_number,
                meta.window,
                extra,
                ga,
            ))
            &&& (!meta.flags.ack ==> as_post == as0 && !ga)
            &&& (meta.flags.fin ==> fin_packet_post(
                ds2,
                ds_post,
                meta.seq_number,
                data.len() as int,
                extra,
                gf,
            ))
            &&& (!meta.flags.fin ==> ds_post == ds2 && !gf)
            &&& ase == (meta.flags.ack && !as0.has_ended && as_post.has_ended)
            &&& evs1 == evs0 + event_if(gd, ConnectionEvent::DataReceived(dir)) + event_if(
                ga,
                ConnectionEvent::AckReceived(dir),
            ) + event_if(gf, ConnectionEvent::FinReceived(dir)) + event_if(
                ase,
                ConnectionEvent::StreamEnd(dir_swap(dir)),
            )
            &&& post.conn_state == (if ase && ds_post.has_ended {
                ConnectionState::Closed
            } else {
                pre.conn_state
            })
            &&& post.observed_close == (pre.observed_close || (ase && ds_post.has_ended))
            &&& post.uuid == pre.uuid
            &&& post.forward_flow == pre.forward_flow
            &&& post.observed_handshake == pre.observed_handshake
        }),
    ensures
        conn_established_post(pre, post, meta, data, extra, evs0, evs1, gd || ga || gf),
{
    reveal(data_packet_post);
    reveal(ack_packet_post);
    reveal(fin_packet_post);
    reveal(stream_chain);
    reveal(established_stream_post);
    reveal(established_events);
    reveal(conn_established_post);
    let cmp = spec_flow_compare(pre.forward_flow, spec_flow_of_meta(meta));
    let dir = if cmp == FlowCompare::Forward {
        Direction::Forward
    } else {
        Direction::Reverse
    };
    let ds0 = stream_of(pre, dir);
    let as0 = stream_of(pre, dir_swap(dir));
    let as_post = stream_of(post, dir_swap(dir));
    let ds_post = stream_of(post, dir);
    assert(stream_chain(ds0, ds1, as_post, ds_post, meta, data, extra, gd, gf));
    assert(established_stream_post(ds0, as0, ds_post, as_post, meta, data, extra, gd, ga, gf));
    assert(established_events(pre, post, meta, data, extra, evs0, evs1, gd || ga || gf, gf));
}

/// A packet replayed on a freshly established connection cannot close it:
/// with no final offset recorded on either stream, no ack can end one.
proof fn lemma_established_keeps_open(
    mid: Connection,
    post: Connection,
    meta: TcpMeta,
    data: Seq<u8>,
    extra: PacketExtra,
    evs0: Seq<ConnectionEvent>,
    evs1: Seq<ConnectionEvent>,
    r: bool,
)
    requires
        conn_established_post(mid, post, meta, data, extra, evs0, evs1, r),
        mid.forward_stream.state.final_offset is None,
        mid.reverse_stream.state.final_offset is None,
    ensures
        post.conn_state == mid.conn_state,
        post.observed_close == mid.observed_close,
        post.uuid == mid.uuid,
        post.forward_flow == mid.forward_flow,
        post.observed_handshake == mid.observed_handshake,
{
    reveal(conn_established_post);
}

/// Assemble [`conn_rst_post`] for a believed reset from what the caller's
/// code did: `mids` is the direction's stream right after its reset record
/// was queued, before the reset mark was set.
proof fn lemma_assemble_rst(
    pre: Connection,
    post: Connection,
    meta: TcpMeta,
    extra: PacketExtra,
    evs0: Seq<ConnectionEvent>,
    evs1: Seq<ConnectionEvent>,
    mids: Stream,
)
    requires
        ({
            let cmp = spec_flow_compare(pre.forward_flow, spec_flow_of_meta(meta));
            let dir = if cmp == FlowCompare::Forward {
                Direction::Forward
            } else {
                Direction::Reverse
            };
            &&& (match pre.conn_state {
                ConnectionState::Initial => true,
                ConnectionState::SynSent { .. } => dir != Direction::Forward,
                ConnectionState::SynReceived { seq_no, ack_no, .. } => rst_plausible(
                    if dir == Direction::Forward {
                        seq_no
                    } else {
                        ack_no
                    },
                    meta.seq_number,
                ),
                ConnectionState::Established { .. } => rst_accepted(
                    stream_of(pre, dir),
                    meta.seq_number,
                ),
                _ => false,
            })
            &&& post.conn_state == ConnectionState::Closed
            &&& post.observed_close
            &&& evs1 == evs0.push(ConnectionEvent::RstReceived(dir, extra))
            &&& stream_of(post, dir_swap(dir)) == stream_of(pre, dir_swap(dir))
            &&& (pre.conn_state is Established ==> rst_packet_post(
                stream_of(pre, dir),
                mids,
                meta.seq_number,
                extra,
                true,
            ) && stream_of(post, dir) == (Stream { had_reset: true, ..mids }))
            &&& (!(pre.conn_state is Established) ==> stream_of(post, dir) == (Stream {
                had_reset: true,
                ..stream_of(pre, dir)
            }))
            &&& post.uuid == pre.uuid
            &&& post.forward_flow == pre.forward_flow
            &&& post.observed_handshake == pre.observed_handshake
        }),
    ensures
        conn_rst_post(pre, post, meta, extra, evs0, evs1, true),
{
    reveal(conn_rst_post);
    let cmp = spec_flow_compare(pre.forward_flow, spec_flow_of_meta(meta));
    let dir = if cmp == FlowCompare::Forward {
        Direction::Forward
    } else {
        Direction::Reverse
    };
    if pre.conn_state is Established {
        assert(rst_stream_mid(pre, post, meta, extra, mids));
    }
}

impl Connection {
    /// Structural invariant: both streams are well-formed, and until the
    /// connection is established the streams still have their zero window
    /// and have seen no FIN.
    pub open spec fn wf(&self) -> bool {
        &&& self.forward_stream.wf()
        &&& self.reverse_stream.wf()
        &&& ((self.conn_state is Initial || self.conn_state is SynSent || self.conn_state
            is SynReceived) ==> self.forward_stream.state.window_limit == 0
            && self.reverse_stream.state.window_limit == 0
            && self.forward_stream.state.final_offset is None
            && self.reverse_stream.state.final_offset is None)
    }

    /// Create a new connection for a flow, in the uninitialized state.
    pub fn new(forward_flow: Flow) -> (r: Connection)
        ensures
            r.wf(),
            fresh_connection(r, forward_flow),
    {
        Connection {
            uuid: fresh_uuid(),
            forward_flow,
            conn_state: ConnectionState::Initial,
            observed_handshake: false,
            observed_close: false,
            forward_stream: Stream::new(),
            reverse_stream: Stream::new(),
        }
    }

    /// Handle a packet belonging to this connection, appending the events
    /// it produced. Returns whether the packet changed anything.
    #[verifier::rlimit(100)]
    #[verifier::spinoff_prover]
    pub fn handle_packet(&mut self, meta: &TcpMeta, data: &[u8], extra: &PacketExtra, events:
        &mut Vec<ConnectionEvent>) -> (r: bool)
        requires
            old(self).wf(),
            spec_flow_compare(old(self).forward_flow, spec_flow_of_meta(*meta))
                != FlowCompare::Unrelated,
        ensures
            final(self).wf(),
            final(self).uuid == old(self).uuid,
            spec_flow_compare(final(self).forward_flow, spec_flow_of_meta(*meta))
                != FlowCompare::Unrelated,
            final(events)@.len() >= old(events)@.len(),
            final(events)@.take(old(events)@.len() as int) == old(events)@,
            // the handshake-done event fires exactly on the first data-path
            // packet of the pre-established phase, which also ends that
            // phase; the phase is never re-entered, so over a connection's
            // lifetime the event fires at most once
            count_handshake_done(final(events)@) == count_handshake_done(old(events)@) + (
            if pre_established(old(self).conn_state) && !meta.flags.syn && !meta.flags.rst {
                1int
            } else {
                0int
            }),
            !pre_established(old(self).conn_state) ==> !pre_established(final(self).conn_state),
            count_handshake_done(final(events)@) > count_handshake_done(old(events)@)
                ==> !pre_established(final(self).conn_state),
            conn_packet_post(
                *old(self),
                *final(self),
                *meta,
                data@,
                *extra,
                old(events)@,
                final(events)@,
                r,
            ),
    {
        proof {
            reveal(conn_packet_post);
            crate::flow_table::lemma_flow_compare_related(
                old(self).forward_flow,
                spec_flow_of_meta(*meta),
                spec_flow_of_meta(*meta),
            );
        }
        let r = if meta.flags.syn {
            self.handle_syn(meta, events)
        } else if meta.flags.rst {
            self.handle_rst(meta, extra, events)
        } else {
            // FIN packets are handled here too, as they may carry data
            self.handle_data(meta, data, extra, events)
        };
        r
    }

    /// Handle a packet with the SYN flag, advancing the handshake state
    /// machine. A SYN on an established connection forces `Desync`.
    #[verifier::rlimit(100)]
    pub fn handle_syn(&mut self, meta: &TcpMeta, events: &mut Vec<ConnectionEvent>) -> (r: bool)
        requires
            old(self).wf(),
            meta.flags.syn,
            spec_flow_compare(old(self).forward_flow, spec_flow_of_meta(*meta))
                != FlowCompare::Unrelated,
        ensures
            final(self).wf(),
            final(self).uuid == old(self).uuid,
            final(self).observed_handshake == old(self).observed_handshake,
            final(self).observed_close == old(self).observed_close,
            spec_flow_compare(final(self).forward_flow, spec_flow_of_meta(*meta))
                != FlowCompare::Unrelated,
            count_handshake_done(final(events)@) == count_handshake_done(old(events)@),
            pre_established(final(self).conn_state) == pre_established(old(self).conn_state),
            final(events)@.len() >= old(events)@.len(),
            final(events)@.take(old(events)@.len() as int) == old(events)@,
            conn_syn_post(*old(self), *final(self), *meta, old(events)@, final(events)@, r),
    {
        proof {
            reveal(conn_syn_post);
        }
        match self.conn_state {
            ConnectionState::Initial => {
                if meta.flags.ack {
                    // SYN/ACK as the first packet of the flow
                    self.conn_state = ConnectionState::SynReceived {
                        seq_no: meta.seq_number,
                        ack_no: meta.ack_number,
                        window_size: meta.window,
                        syn_seen: false,
                    };
                    match meta.option_window_scale {
                        Some(scale) => {
                            self.reverse_stream.set_window_scale(scale);
                        },
                        None => {},
                    }
                    if self.forward_flow.compare_tcp_meta(meta) == FlowCompare::Forward {
                        // a SYN/ACK travels server to client: flip the flow
                        self.forward_flow.reverse();
                    }
                    true
                } else {
                    // first SYN
                    self.conn_state = ConnectionState::SynSent { seq_no: meta.seq_number };
                    match meta.option_window_scale {
                        Some(scale) => {
                            self.forward_stream.set_window_scale(scale);
                        },
                        None => {},
                    }
                    if self.forward_flow.compare_tcp_meta(meta) == FlowCompare::Reverse {
                        // a SYN travels client to server: flip the flow
                        self.forward_flow.reverse();
                    }
                    true
                }
            },
            ConnectionState::SynSent { .. } => {
                if meta.flags.ack {
                    if !(self.forward_flow.compare_tcp_meta(meta) == FlowCompare::Reverse) {
                        // SYN/ACK in the wrong direction
                        false
                    } else {
                        self.conn_state = ConnectionState::SynReceived {
                            seq_no: meta.seq_number,
                            ack_no: meta.ack_number,
                            window_size: meta.window,
                            syn_seen: true,
                        };
                        match meta.option_window_scale {
                            Some(scale) => {
                                self.reverse_stream.set_window_scale(scale);
                            },
                            None => {},
                        }
                        true
                    }
                } else {
                    // likely a duplicate SYN
                    false
                }
            },
            ConnectionState::SynReceived { .. } => {
                // duplicate SYN or SYN/ACK
                false
            },
            ConnectionState::Established { .. } => {
                // a SYN on a live connection: give up on it
                self.conn_state = ConnectionState::Desync;
                let dir = if self.forward_flow.compare_tcp_meta(meta) == FlowCompare::Forward {
                    Direction::Forward
                } else {
                    Direction::Reverse
                };
                let ghost evs0 = events@;
                events.push(ConnectionEvent::ConnectionDesync(dir));
                proof {
                    lemma_count_handshake_done_push(evs0, ConnectionEvent::ConnectionDesync(dir));
                    assert(events@.take(evs0.len() as int) =~= evs0);
                }
                false
            },
            _ => false,
        }
    }

    /// Handle a packet with the RST flag. In the handshake states only the
    /// plausible direction is believed; on an established connection the
    /// stream of the reset's direction validates it against the highest
    /// acked offset. An accepted reset closes the connection.
    #[verifier::rlimit(100)]
    pub fn handle_rst(&mut self, meta: &TcpMeta, extra: &PacketExtra, events: &mut Vec<
        ConnectionEvent,
    >) -> (r: bool)
        requires
            old(self).wf(),
            meta.flags.rst,
            spec_flow_compare(old(self).forward_flow, spec_flow_of_meta(*meta))
                != FlowCompare::Unrelated,
        ensures
            final(self).wf(),
            final(self).uuid == old(self).uuid,
            final(self).forward_flow == old(self).forward_flow,
            final(self).observed_handshake == old(self).observed_handshake,
            count_handshake_done(final(events)@) == count_handshake_done(old(events)@),
            final(self).conn_state == old(self).conn_state || final(self).conn_state
                == ConnectionState::Closed,
            final(events)@.len() >= old(events)@.len(),
            final(events)@.take(old(events)@.len() as int) == old(events)@,
            conn_rst_post(*old(self), *final(self), *meta, *extra, old(events)@, final(events)@, r),
    {
        proof {
            reveal(conn_rst_post);
            reveal(rst_packet_post);
        }
        let cmp = self.forward_flow.compare_tcp_meta(meta);
        let dir = if cmp == FlowCompare::Forward {
            Direction::Forward
        } else {
            Direction::Reverse
        };
        match self.conn_state {
            ConnectionState::Initial => {
                // nothing to validate against yet
            },
            ConnectionState::SynSent { .. } => {
                if dir == Direction::Forward {
                    // a reset in the same direction as the SYN answers
                    // nothing; drop it
                    return false;
                }
                // a reset answering the SYN: connection refused
            },
            ConnectionState::SynReceived { seq_no, ack_no, .. } => {
                let base = if dir == Direction::Forward {
                    seq_no
                } else {
                    ack_no
                };
                if !in_range_wrapping(base, 0, RESET_MAX_LOOKAHEAD, meta.seq_number) {
                    return false;
                }
            },
            ConnectionState::Established { .. } => {
                let accepted = match dir {
                    Direction::Forward => self.forward_stream.handle_rst_packet(
                        meta.seq_number,
                        extra.dup(),
                    ),
                    Direction::Reverse => self.reverse_stream.handle_rst_packet(
                        meta.seq_number,
                        extra.dup(),
                    ),
                };
                if !accepted {
                    return false;
                }
            },
            _ => {
                // connection already dead
                return false;
            },
        }
        let ghost midc = *self;
        match dir {
            Direction::Forward => {
                self.forward_stream.had_reset = true;
            },
            Direction::Reverse => {
                self.reverse_stream.had_reset = true;
            },
        }
        self.conn_state = ConnectionState::Closed;
        self.observed_close = true;
        let ghost evs0 = events@;
        let rst_event = ConnectionEvent::RstReceived(dir, extra.dup());
        events.push(rst_event);
        proof {
            lemma_count_handshake_done_push(evs0, rst_event);
            assert(events@.take(evs0.len() as int) =~= evs0);
            if old(self).conn_state is Established {
                assert(rst_packet_post(
                    stream_of(*old(self), dir),
                    stream_of(midc, dir),
                    meta.seq_number,
                    *extra,
                    true,
                ));
            }
            lemma_assemble_rst(
                *old(self),
                *self,
                *meta,
                *extra,
                evs0,
                events@,
                stream_of(midc, dir),
            );
        }
        true
    }

    /// Handle data, ack and FIN on a connection past the handshake: the
    /// packet's direction picks the data-bearing stream; its ack applies to
    /// the opposite stream. Emits one event per thing that happened and
    /// closes the connection once both FINs are acked.
    #[verifier::rlimit(100)]
    #[verifier::spinoff_prover]
    pub fn handle_data_established(&mut self, meta: &TcpMeta, data: &[u8], extra: &PacketExtra,
        events: &mut Vec<ConnectionEvent>) -> (r: bool)
        requires
            old(self).wf(),
            spec_flow_compare(old(self).forward_flow, spec_flow_of_meta(*meta))
                != FlowCompare::Unrelated,
            !(old(self).conn_state is Initial),
            !(old(self).conn_state is SynSent),
            !(old(self).conn_state is SynReceived),
        ensures
            final(self).wf(),
            final(self).uuid == old(self).uuid,
            final(self).forward_flow == old(self).forward_flow,
            final(self).observed_handshake == old(self).observed_handshake,
            count_handshake_done(final(events)@) == count_handshake_done(old(events)@),
            !pre_established(final(self).conn_state),
            final(events)@.len() >= old(events)@.len(),
            final(events)@.take(old(events)@.len() as int) == old(events)@,
            conn_established_post(
                *old(self),
                *final(self),
                *meta,
                data@,
                *extra,
                old(events)@,
                final(events)@,
                r,
            ),
    {
        let cmp = self.forward_flow.compare_tcp_meta(meta);
        if cmp == FlowCompare::Forward {
            self.handle_data_directed_forward(meta, data, extra, events)
        } else {
            self.handle_data_directed_reverse(meta, data, extra, events)
        }
    }

    /// The packet direction relative to this connection's canonical flow.
    fn meta_direction(&self, meta: &TcpMeta) -> (r: Direction)
        requires
            spec_flow_compare(self.forward_flow, spec_flow_of_meta(*meta))
                != FlowCompare::Unrelated,
        ensures
            r == (if spec_flow_compare(self.forward_flow, spec_flow_of_meta(*meta))
                == FlowCompare::Forward {
                Direction::Forward
            } else {
                Direction::Reverse
            }),
    {
        if self.forward_flow.compare_tcp_meta(meta) == FlowCompare::Forward {
            Direction::Forward
        } else {
            Direction::Reverse
        }
    }

    /// Stream phase of a forward-direction established-phase packet: the
    /// payload, the ack with its cross-stream stamp, and the FIN are applied
    /// to the two streams, in that order. Returns the three handlers'
    /// results, whether the ack ended the reverse stream, and the forward
    /// stream as it stood between the payload and the stamp.
    fn stream_phase_forward(&mut self, meta: &TcpMeta, data: &[u8], extra: &PacketExtra) -> (r: (
        bool,
        bool,
        bool,
        bool,
        Ghost<Stream>,
    ))
        requires
            old(self).wf(),
        ensures
            final(self).forward_stream.wf(),
            final(self).reverse_stream.wf(),
            *final(self) == (Connection {
                forward_stream: final(self).forward_stream,
                reverse_stream: final(self).reverse_stream,
                ..*old(self)
            }),
            final(self).forward_stream.has_ended == old(self).forward_stream.has_ended,
            ({
                let ds1 = r.4@;
                let as_post = final(self).reverse_stream;
                let ds2 = if meta.flags.ack {
                    Stream { reverse_acked: as_post.highest_acked, ..ds1 }
                } else {
                    ds1
                };
                &&& (data@.len() > 0 ==> data_packet_post(
                    old(self).forward_stream,
                    ds1,
                    meta.seq_number,
                    data@,
                    *extra,
                    r.0,
                ))
                &&& (data@.len() == 0 ==> ds1 == old(self).forward_stream && !r.0)
                &&& (meta.flags.ack ==> ack_packet_post(
                    old(self).reverse_stream,
                    as_post,
                    meta.ack_number,
                    meta.window,
                    *extra,
                    r.1,
                ))
                &&& (!meta.flags.ack ==> as_post == old(self).reverse_stream && !r.1)
                &&& (meta.flags.fin ==> fin_packet_post(
                    ds2,
                    final(self).forward_stream,
                    meta.seq_number,
                    data@.len() as int,
                    *extra,
                    r.2,
                ))
                &&& (!meta.flags.fin ==> final(self).forward_stream == ds2 && !r.2)
                &&& r.3 == (meta.flags.ack && !old(self).reverse_stream.has_ended
                    && as_post.has_ended)
            }),
    {
        proof {
            reveal(data_packet_post);
            reveal(ack_packet_post);
            reveal(fin_packet_post);
        }
        let mut got_data = false;
        if data.len() > 0 {
            got_data = self.forward_stream.handle_data_packet(meta.seq_number, data, extra.dup());
        }
        let ghost ds1w = self.forward_stream;
        let mut got_ack = false;
        let mut ack_stream_got_end = false;
        if meta.flags.ack {
            let was_ended = self.reverse_stream.has_ended;
            got_ack = self.reverse_stream.handle_ack_packet(
                meta.ack_number,
                meta.window,
                extra.dup(),
            );
            // correlate the directions: stamp the data stream with the
            // opposite stream's ack progress
            self.forward_stream.reverse_acked = self.reverse_stream.highest_acked;
            if !was_ended && self.reverse_stream.has_ended {
                ack_stream_got_end = true;
            }
        }
        let mut got_fin = false;
        if meta.flags.fin {
            got_fin = self.forward_stream.handle_fin_packet(
                meta.seq_number,
                data.len(),
                extra.dup(),
            );
        }
        (got_data, got_ack, got_fin, ack_stream_got_end, Ghost(ds1w))
    }

    /// Stream phase of a reverse-direction established-phase packet, the
    /// mirror image of [`Connection::stream_phase_forward`].
    fn stream_phase_reverse(&mut self, meta: &TcpMeta, data: &[u8], extra: &PacketExtra) -> (r: (
        bool,
        bool,
        bool,
        bool,
        Ghost<Stream>,
    ))
        requires
            old(self).wf(),
        ensures
            final(self).forward_stream.wf(),
            final(self).reverse_stream.wf(),
            *final(self) == (Connection {
                forward_stream: final(self).forward_stream,
                reverse_stream: final(self).reverse_stream,
                ..*old(self)
            }),
            final(self).reverse_stream.has_ended == old(self).reverse_stream.has_ended,
            ({
                let ds1 = r.4@;
                let as_post = final(self).forward_stream;
                let ds2 = if meta.flags.ack {
                    Stream { reverse_acked: as_post.highest_acked, ..ds1 }
                } else {
                    ds1
                };
                &&& (data@.len() > 0 ==> data_packet_post(
                    old(self).reverse_stream,
                    ds1,
                    meta.seq_number,
                    data@,
                    *extra,
                    r.0,
                ))
                &&& (data@.len() == 0 ==> ds1 == old(self).reverse_stream && !r.0)
                &&& (meta.flags.ack ==> ack_packet_post(
                    old(self).forward_stream,
                    as_post,
                    meta.ack_number,
                    meta.window,
                    *extra,
                    r.1,
                ))
                &&& (!meta.flags.ack ==> as_post == old(self).forward_stream && !r.1)
                &&& (meta.flags.fin ==> fin_packet_post(
                    ds2,
                    final(self).reverse_stream,
                    meta.seq_number,
                    data@.len() as int,
                    *extra,
                    r.2,
                ))
                &&& (!meta.flags.fin ==> final(self).reverse_stream == ds2 && !r.2)
                &&& r.3 == (meta.flags.ack && !old(self).forward_stream.has_ended
                    && as_post.has_ended)
            }),
    {
        proof {
            reveal(data_packet_post);
            reveal(ack_packet_post);
            reveal(fin_packet_post);
        }
        let mut got_data = false;
        if data.len() > 0 {
            got_data = self.reverse_stream.handle_data_packet(meta.seq_number, data, extra.dup());
        }
        let ghost ds1w = self.reverse_stream;
        let mut got_ack = false;
        let mut ack_stream_got_end = false;
        if meta.flags.ack {
            let was_ended = self.forward_stream.has_ended;
            got_ack = self.forward_stream.handle_ack_packet(
                meta.ack_number,
                meta.window,
                extra.dup(),
            );
            self.reverse_stream.reverse_acked = self.forward_stream.highest_acked;
            if !was_ended && self.forward_stream.has_ended {
                ack_stream_got_end = true;
            }
        }
        let mut got_fin = false;
        if meta.flags.fin {
            got_fin = self.reverse_stream.handle_fin_packet(
                meta.seq_number,
                data.len(),
                extra.dup(),
            );
        }
        (got_data, got_ack, got_fin, ack_stream_got_end, Ghost(ds1w))
    }

    /// `handle_data_established` for a forward-direction packet.
    #[verifier::rlimit(100)]
    #[verifier::spinoff_prover]
    fn handle_data_directed_forward(&mut self, meta: &TcpMeta, data: &[u8], extra: &PacketExtra,
        events: &mut Vec<ConnectionEvent>) -> (r: bool)
        requires
            old(self).wf(),
            spec_flow_compare(old(self).forward_flow, spec_flow_of_meta(*meta))
                == FlowCompare::Forward,
            !(old(self).conn_state is Initial),
            !(old(self).conn_state is SynSent),
            !(old(self).conn_state is SynReceived),
        ensures
            final(self).wf(),
            final(self).uuid == old(self).uuid,
            final(self).forward_flow == old(self).forward_flow,
            final(self).observed_handshake == old(self).observed_handshake,
            count_handshake_done(final(events)@) == count_handshake_done(old(events)@),
            !pre_established(final(self).conn_state),
            final(events)@.len() >= old(events)@.len(),
            final(events)@.take(old(events)@.len() as int) == old(events)@,
            conn_established_post(
                *old(self),
                *final(self),
                *meta,
                data@,
                *extra,
                old(events)@,
                final(events)@,
                r,
            ),
    {
        let ghost evs0 = events@;
        let (got_data, got_ack, got_fin, ack_stream_got_end, ds1g) = self.stream_phase_forward(
            meta,
            data,
            extra,
        );
        let ghost ds1w = ds1g@;
        let data_stream_has_ended = self.forward_stream.has_ended;
        if got_data {
            events.push(ConnectionEvent::DataReceived(Direction::Forward));
        }
        if got_ack {
            events.push(ConnectionEvent::AckReceived(Direction::Forward));
        }
        if got_fin {
            events.push(ConnectionEvent::FinReceived(Direction::Forward));
        }
        if ack_stream_got_end {
            events.push(ConnectionEvent::StreamEnd(Direction::Reverse));
            if data_stream_has_ended {
                self.conn_state = ConnectionState::Closed;
                self.observed_close = true;
            }
        }
        proof {
            let ea = event_if(got_data, ConnectionEvent::DataReceived(Direction::Forward));
            let eb = event_if(got_ack, ConnectionEvent::AckReceived(Direction::Forward));
            let ec = event_if(got_fin, ConnectionEvent::FinReceived(Direction::Forward));
            let ed = event_if(ack_stream_got_end, ConnectionEvent::StreamEnd(Direction::Reverse));
            assert(events@ =~= evs0 + ea + eb + ec + ed);
            lemma_count_handshake_done_event_if(got_data, ConnectionEvent::DataReceived(Direction::Forward));
            lemma_count_handshake_done_event_if(got_ack, ConnectionEvent::AckReceived(Direction::Forward));
            lemma_count_handshake_done_event_if(got_fin, ConnectionEvent::FinReceived(Direction::Forward));
            lemma_count_handshake_done_event_if(ack_stream_got_end, ConnectionEvent::StreamEnd(Direction::Reverse));
            lemma_count_handshake_done_concat(evs0, ea);
            lemma_count_handshake_done_concat(evs0 + ea, eb);
            lemma_count_handshake_done_concat(evs0 + ea + eb, ec);
            lemma_count_handshake_done_concat(evs0 + ea + eb + ec, ed);
            lemma_assemble_established(
                *old(self),
                *self,
                ds1w,
                *meta,
                data@,
                *extra,
                evs0,
                events@,
                got_data,
                got_ack,
                got_fin,
                ack_stream_got_end,
            );
        }
        got_data || got_ack || got_fin
    }

    /// `handle_data_established` for a reverse-direction packet.
    #[verifier::rlimit(100)]
    #[verifier::spinoff_prover]
    fn handle_data_directed_reverse(&mut self, meta: &TcpMeta, data: &[u8], extra: &PacketExtra,
        events: &mut Vec<ConnectionEvent>) -> (r: bool)
        requires
            old(self).wf(),
            spec_flow_compare(old(self).forward_flow, spec_flow_of_meta(*meta))
                != FlowCompare::Unrelated,
            spec_flow_compare(old(self).forward_flow, spec_flow_of_meta(*meta))
                != FlowCompare::Forward,
            !(old(self).conn_state is Initial),
            !(old(self).conn_state is SynSent),
            !(old(self).conn_state is SynReceived),
        ensures
            final(self).wf(),
            final(self).uuid == old(self).uuid,
            final(self).forward_flow == old(self).forward_flow,
            final(self).observed_handshake == old(self).observed_handshake,
            count_handshake_done(final(events)@) == count_handshake_done(old(events)@),
            !pre_established(final(self).conn_state),
            final(events)@.len() >= old(events)@.len(),
            final(events)@.take(old(events)@.len() as int) == old(events)@,
            conn_established_post(
                *old(self),
                *final(self),
                *meta,
                data@,
                *extra,
                old(events)@,
                final(events)@,
                r,
            ),
    {
        let ghost evs0 = events@;
        let (got_data, got_ack, got_fin, ack_stream_got_end, ds1g) = self.stream_phase_reverse(
            meta,
            data,
            extra,
        );
        let ghost ds1w = ds1g@;
        let data_stream_has_ended = self.reverse_stream.has_ended;
        if got_data {
            events.push(ConnectionEvent::DataReceived(Direction::Reverse));
        }
        if got_ack {
            events.push(ConnectionEvent::AckReceived(Direction::Reverse));
        }
        if got_fin {
            events.push(ConnectionEvent::FinReceived(Direction::Reverse));
        }
        if ack_stream_got_end {
            events.push(ConnectionEvent::StreamEnd(Direction::Forward));
            if data_stream_has_ended {
                self.conn_state = ConnectionState::Closed;
                self.observed_close = true;
            }
        }
        proof {
            let ea = event_if(got_data, ConnectionEvent::DataReceived(Direction::Reverse));
            let eb = event_if(got_ack, ConnectionEvent::AckReceived(Direction::Reverse));
            let ec = event_if(got_fin, ConnectionEvent::FinReceived(Direction::Reverse));
            let ed = event_if(ack_stream_got_end, ConnectionEvent::StreamEnd(Direction::Forward));
            assert(events@ =~= evs0 + ea + eb + ec + ed);
            lemma_count_handshake_done_event_if(got_data, ConnectionEvent::DataReceived(Direction::Reverse));
            lemma_count_handshake_done_event_if(got_ack, ConnectionEvent::AckReceived(Direction::Reverse));
            lemma_count_handshake_done_event_if(got_fin, ConnectionEvent::FinReceived(Direction::Reverse));
            lemma_count_handshake_done_event_if(ack_stream_got_end, ConnectionEvent::StreamEnd(Direction::Forward));
            lemma_count_handshake_done_concat(evs0, ea);
            lemma_count_handshake_done_concat(evs0 + ea, eb);
            lemma_count_handshake_done_concat(evs0 + ea + eb, ec);
            lemma_count_handshake_done_concat(evs0 + ea + eb + ec, ed);
            lemma_assemble_established(
                *old(self),
                *self,
                ds1w,
                *meta,
                data@,
                *extra,
                evs0,
                events@,
                got_data,
                got_ack,
                got_fin,
                ack_stream_got_end,
            );
        }
        got_data || got_ack || got_fin
    }

    /// Handle a data packet seen before any SYN/ACK: synthesize the
    /// handshake from the packet's own sequence and ack numbers.
    #[verifier::rlimit(100)]
    #[verifier::spinoff_prover]
    pub fn handle_data_hs1(&mut self, meta: &TcpMeta, data: &[u8], extra: &PacketExtra, events:
        &mut Vec<ConnectionEvent>) -> (r: bool)
        requires
            old(self).wf(),
            old(self).conn_state is Initial || old(self).conn_state is SynSent,
            spec_flow_compare(old(self).forward_flow, spec_flow_of_meta(*meta))
                != FlowCompare::Unrelated,
        ensures
            final(self).wf(),
            final(self).uuid == old(self).uuid,
            final(self).forward_flow == old(self).forward_flow,
            final(self).conn_state is Established,
            count_handshake_done(final(events)@) == count_handshake_done(old(events)@) + 1,
            !pre_established(final(self).conn_state),
            final(events)@.len() > old(events)@.len(),
            final(events)@[old(events)@.len() as int] == ConnectionEvent::HandshakeDone,
            final(events)@.take(old(events)@.len() as int) == old(events)@,
            conn_data_hs1_post(
                *old(self),
                *final(self),
                *meta,
                data@,
                *extra,
                old(events)@,
                final(events)@,
                r,
            ),
    {
        let ghost evs0 = events@;
        let cmp = self.forward_flow.compare_tcp_meta(meta);
        let (forward_isn, reverse_isn) = if cmp == FlowCompare::Forward {
            (meta.seq_number, meta.ack_number)
        } else {
            (meta.ack_number, meta.seq_number)
        };
        self.conn_state = ConnectionState::Established { forward_isn, reverse_isn };
        self.forward_stream.set_isn(forward_isn, 0);
        self.reverse_stream.set_isn(reverse_isn, 0);
        let ghost f1w = self.forward_stream;
        let ghost r1w = self.reverse_stream;
        let ghost midc = *self;
        let ghost evs_before_done = events@;
        events.push(ConnectionEvent::HandshakeDone);
        let ghost evs_mid = events@;
        proof {
            lemma_count_handshake_done_push(evs_before_done, ConnectionEvent::HandshakeDone);
        }
        let r = if data.len() > 0 {
            self.handle_data_established(meta, data, extra, events)
        } else {
            true
        };
        proof {
            reveal(set_isn_post);
            assert(evs_mid =~= evs0.push(ConnectionEvent::HandshakeDone));
            assert(evs_mid.len() == evs0.len() + 1);
            assert(events@.take(evs_mid.len() as int) =~= evs_mid);
            assert(events@[evs0.len() as int] == ConnectionEvent::HandshakeDone);
            assert(events@.take(evs0.len() as int) =~= evs0);
            // the fresh streams carry no final offset, so no ack can end one
            assert(f1w.state.final_offset is None && r1w.state.final_offset is None);
            assert(midc == (Connection {
                conn_state: ConnectionState::Established { forward_isn, reverse_isn },
                forward_stream: f1w,
                reverse_stream: r1w,
                ..*old(self)
            }));
            if data@.len() > 0 {
                lemma_established_keeps_open(
                    midc,
                    *self,
                    *meta,
                    data@,
                    *extra,
                    evs0.push(ConnectionEvent::HandshakeDone),
                    events@,
                    r,
                );
            }
            reveal(hs1_streams);
            reveal(conn_data_hs1_post);
            assert(hs1_streams(*old(self), f1w, r1w, *self, *meta, data@, *extra, evs0, events@, r));
            assert(conn_data_hs1_post(*old(self), *self, *meta, data@, *extra, evs0, events@, r));
        }
        r
    }

    /// Handle a data packet after a SYN/ACK: complete or synthesize the
    /// handshake using the stored SYN/ACK values, recording a fully
    /// observed handshake when the packet is the expected final ACK.
    #[verifier::rlimit(100)]
    #[verifier::spinoff_prover]
    pub fn handle_data_hs2(&mut self, meta: &TcpMeta, data: &[u8], extra: &PacketExtra, events:
        &mut Vec<ConnectionEvent>) -> (r: bool)
        requires
            old(self).wf(),
            old(self).conn_state is SynReceived,
            spec_flow_compare(old(self).forward_flow, spec_flow_of_meta(*meta))
                != FlowCompare::Unrelated,
        ensures
            final(self).wf(),
            final(self).uuid == old(self).uuid,
            final(self).forward_flow == old(self).forward_flow,
            final(self).conn_state is Established,
            count_handshake_done(final(events)@) == count_handshake_done(old(events)@) + 1,
            !pre_established(final(self).conn_state),
            final(events)@.len() > old(events)@.len(),
            final(events)@[old(events)@.len() as int] == ConnectionEvent::HandshakeDone,
            final(events)@.take(old(events)@.len() as int) == old(events)@,
            conn_data_hs2_post(
                *old(self),
                *final(self),
                *meta,
                data@,
                *extra,
                old(events)@,
                final(events)@,
                r,
            ),
    {
        let ghost evs0 = events@;
        let (seq_no, ack_no, forward_window, syn_seen) = match self.conn_state {
            ConnectionState::SynReceived { seq_no, ack_no, window_size, syn_seen } => (
                seq_no,
                ack_no,
                window_size,
                syn_seen,
            ),
            _ => {
                proof {
                    assert(false);
                }
                (0, 0, 0, false)
            },
        };
        let cmp = self.forward_flow.compare_tcp_meta(meta);
        let mut reverse_window: u16 = 0;
        let (forward_isn, reverse_isn) = if cmp == FlowCompare::Forward {
            if meta.flags.ack && meta.seq_number == ack_no && meta.ack_number
                == seq_no.wrapping_add(1) {
                if syn_seen {
                    // the expected third packet of the handshake
                    self.observed_handshake = true;
                    reverse_window = meta.window;
                }
            }
            (meta.seq_number, meta.ack_number)
        } else {
            (meta.ack_number, meta.seq_number)
        };
        self.conn_state = ConnectionState::Established { forward_isn, reverse_isn };
        self.forward_stream.set_isn(forward_isn, forward_window);
        self.reverse_stream.set_isn(reverse_isn, reverse_window);
        let ghost f1w = self.forward_stream;
        let ghost r1w = self.reverse_stream;
        let ghost midc = *self;
        let ghost evs_before_done = events@;
        events.push(ConnectionEvent::HandshakeDone);
        let ghost evs_mid = events@;
        proof {
            lemma_count_handshake_done_push(evs_before_done, ConnectionEvent::HandshakeDone);
        }
        let r = if data.len() > 0 {
            self.handle_data_established(meta, data, extra, events)
        } else {
            true
        };
        proof {
            reveal(set_isn_post);
            assert(evs_mid =~= evs0.push(ConnectionEvent::HandshakeDone));
            assert(evs_mid.len() == evs0.len() + 1);
            assert(events@.take(evs_mid.len() as int) =~= evs_mid);
            assert(events@[evs0.len() as int] == ConnectionEvent::HandshakeDone);
            assert(events@.take(evs0.len() as int) =~= evs0);
            // the restarted streams carry no final offset, so no ack can end one
            assert(f1w.state.final_offset is None && r1w.state.final_offset is None);
            assert(midc == (Connection {
                conn_state: ConnectionState::Established { forward_isn, reverse_isn },
                observed_handshake: midc.observed_handshake,
                forward_stream: f1w,
                reverse_stream: r1w,
                ..*old(self)
            }));
            if data@.len() > 0 {
                lemma_established_keeps_open(
                    midc,
                    *self,
                    *meta,
                    data@,
                    *extra,
                    evs0.push(ConnectionEvent::HandshakeDone),
                    events@,
                    r,
                );
            }
            reveal(hs2_streams);
            reveal(conn_data_hs2_post);
            assert(hs2_streams(*old(self), f1w, r1w, *self, *meta, data@, *extra, evs0, events@, r));
            assert(conn_data_hs2_post(*old(self), *self, *meta, data@, *extra, evs0, events@, r));
        }
        r
    }

    /// Handle an ordinary data packet in whatever handshake state the
    /// connection is in.
    #[verifier::rlimit(100)]
    #[verifier::spinoff_prover]
    pub fn handle_data(&mut self, meta: &TcpMeta, data: &[u8], extra: &PacketExtra, events:
        &mut Vec<ConnectionEvent>) -> (r: bool)
        requires
            old(self).wf(),
            spec_flow_compare(old(self).forward_flow, spec_flow_of_meta(*meta))
                != FlowCompare::Unrelated,
        ensures
            final(self).wf(),
            final(self).uuid == old(self).uuid,
            final(self).forward_flow == old(self).forward_flow,
            final(events)@.len() >= old(events)@.len(),
            final(events)@.take(old(events)@.len() as int) == old(events)@,
            count_handshake_done(final(events)@) == count_handshake_done(old(events)@) + (
            if pre_established(old(self).conn_state) {
                1int
            } else {
                0int
            }),
            !pre_established(final(self).conn_state),
            conn_data_post(
                *old(self),
                *final(self),
                *meta,
                data@,
                *extra,
                old(events)@,
                final(events)@,
                r,
            ),
    {
        proof {
            reveal(conn_data_post);
        }
        let r = match self.conn_state {
            ConnectionState::Initial | ConnectionState::SynSent { .. } => self.handle_data_hs1(
                meta,
                data,
                extra,
                events,
            ),
            ConnectionState::SynReceived { .. } => self.handle_data_hs2(meta, data, extra, events),
            _ => {
                let ghost evs0 = events@;
                let r = self.handle_data_established(meta, data, extra, events);
                proof {
                    assert(events@.take(evs0.len() as int) =~= evs0);
                }
                r
            },
        };
        r
    }

    /// Borrow the stream carrying data in the given direction.
    pub fn get_stream(&mut self, direction: Direction) -> (r: &mut Stream)
        ensures
            *r == stream_of(*old(self), direction),
            *final(self) == (match direction {
                Direction::Forward => Connection { forward_stream: *final(r), ..*old(self) },
                Direction::Reverse => Connection { reverse_stream: *final(r), ..*old(self) },
            }),
    {
        match direction {
            Direction::Forward => &mut self.forward_stream,
            Direction::Reverse => &mut self.reverse_stream,
        }
    }

    /// Announce that the connection is about to be dropped from the table.
    pub fn will_retire(&mut self, events: &mut Vec<ConnectionEvent>)
        ensures
            *final(self) == *old(self),
            final(events)@ == old(events)@.push(ConnectionEvent::WillRetire),
    {
        events.push(ConnectionEvent::WillRetire);
    }
}

} // verus!