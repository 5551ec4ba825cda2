//! TCP stream reassembly core.
//!
//! The crate reconstructs each direction of observed TCP connections as a
//! contiguous, offset-indexed byte stream. Packets (already parsed into
//! [`TcpMeta`](tcp_meta::TcpMeta) records plus payload) are fed to a
//! [`FlowTable`](flow_table::FlowTable), which demultiplexes them onto
//! per-flow [`Connection`](connection::Connection) state machines; each
//! connection drives two [`Stream`](stream::Stream)s, one per direction,
//! which map 32-bit wrapping sequence numbers onto 64-bit absolute offsets
//! and write payload bytes through an [`inbound`] buffer built on the
//! [`range_set`] and [`ring_buffer`] primitives.

pub mod connection;
pub mod encoding;
pub mod flow_table;
pub mod frame;
pub mod frame_encoding;
pub mod inbound;
pub mod range_set;
pub mod ring_buffer;
pub mod serialized;
pub mod stream;

use vstd::prelude::*;

verus! {

/// An IP address, v4 or v6, as a plain integer value.
#[derive(Clone, Copy, PartialEq, Eq, Structural, Debug, Hash)]
pub enum IpAddress {
    /// An IPv4 address, as the big-endian interpretation of its 4 octets.
    V4(u32),
    /// An IPv6 address, as the big-endian interpretation of its 16 octets.
    V6(u128),
}

/// TCP packet flags (the ones the reassembler cares about).
#[derive(Clone, Copy, Debug, Default)]
pub struct TcpFlags {
    /// SYN flag.
    pub syn: bool,
    /// ACK flag.
    pub ack: bool,
    /// FIN flag.
    pub fin: bool,
    /// RST flag.
    pub rst: bool,
}

/// TCP packet metadata, as handed over by the capture parser.
#[derive(Clone, Debug)]
pub struct TcpMeta {
    /// Source address.
    pub src_addr: IpAddress,
    /// Source port.
    pub src_port: u16,
    /// Destination address.
    pub dst_addr: IpAddress,
    /// Destination port.
    pub dst_port: u16,
    /// Sequence number.
    pub seq_number: u32,
    /// Acknowledgment number.
    pub ack_number: u32,
    /// Packet flags.
    pub flags: TcpFlags,
    /// Raw window value.
    pub window: u16,
    /// Window scale option, if present.
    pub option_window_scale: Option<u8>,
    /// Timestamp option (value, echo), if present.
    pub option_timestamp: Option<(u32, u32)>,
}

} // verus!
