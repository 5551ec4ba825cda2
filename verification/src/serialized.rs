//! Plain record forms of per-packet metadata: the opaque extra carried with
//! each captured packet, and the flat segment records that output handlers
//! write, one per segment or gap, in ascending offset order.

use vstd::prelude::*;

use crate::stream::{SegmentInfo, SegmentType};

verus! {

/// Extra information associated with a captured packet.
#[derive(Clone, Copy, PartialEq, Eq, Structural, Debug)]
pub enum PacketExtra {
    /// No extra information.
    Empty,
    /// Capture position and timestamp from a legacy pcap file.
    LegacyPcap {
        /// Packet number within the capture.
        index: u64,
        /// Timestamp, seconds part.
        ts_sec: u32,
        /// Timestamp, microseconds part.
        ts_usec: u32,
    },
}

impl PacketExtra {
    /// An identical copy of this value.
    pub fn dup(&self) -> (r: PacketExtra)
        ensures
            r == *self,
    {
        match self {
            PacketExtra::Empty => PacketExtra::Empty,
            PacketExtra::LegacyPcap { index, ts_sec, ts_usec } => PacketExtra::LegacyPcap {
                index: *index,
                ts_sec: *ts_sec,
                ts_usec: *ts_usec,
            },
        }
    }
}

/// Flat, per-record form of a segment or gap, as written by output handlers.
pub enum SerializedSegment {
    /// A data segment.
    Data { offset: u64, len: usize, is_retransmit: bool, reverse_acked: u64, extra: PacketExtra },
    /// An acknowledgment.
    Ack { offset: u64, window: usize, reverse_acked: u64, extra: PacketExtra },
    /// A FIN; `offset` is the final offset it announced.
    Fin { offset: u64, reverse_acked: u64, extra: PacketExtra },
    /// A reset.
    Rst { offset: u64, reverse_acked: u64, extra: PacketExtra },
    /// A gap: `len` bytes at `offset` were never captured.
    Gap { offset: u64, len: u64 },
}

impl SerializedSegment {
    /// Build a gap record.
    pub fn new_gap(offset: u64, len: u64) -> (r: SerializedSegment)
        ensures
            r == (SerializedSegment::Gap { offset, len }),
    {
        SerializedSegment::Gap { offset, len }
    }

    /// Flatten a segment-info entry into its record form; a FIN record
    /// carries the announced end offset in its `offset` field.
    pub fn from_info(info: &SegmentInfo) -> (r: SerializedSegment)
        ensures
            r == match info.data {
                SegmentType::Data { len, is_retransmit } => SerializedSegment::Data {
                    offset: info.offset,
                    len,
                    is_retransmit,
                    reverse_acked: info.reverse_acked,
                    extra: info.extra,
                },
                SegmentType::Ack { window } => SerializedSegment::Ack {
                    offset: info.offset,
                    window,
                    reverse_acked: info.reverse_acked,
                    extra: info.extra,
                },
                SegmentType::Fin { end_offset } => SerializedSegment::Fin {
                    offset: end_offset,
                    reverse_acked: info.reverse_acked,
                    extra: info.extra,
                },
                SegmentType::Rst => SerializedSegment::Rst {
                    offset: info.offset,
                    reverse_acked: info.reverse_acked,
                    extra: info.extra,
                },
            },
    {
        match &info.data {
            SegmentType::Data { len, is_retransmit } => SerializedSegment::Data {
                offset: info.offset,
                len: *len,
                is_retransmit: *is_retransmit,
                reverse_acked: info.reverse_acked,
                extra: info.extra.dup(),
            },
            SegmentType::Ack { window } => SerializedSegment::Ack {
                offset: info.offset,
                window: *window,
                reverse_acked: info.reverse_acked,
                extra: info.extra.dup(),
            },
            SegmentType::Fin { end_offset } => SerializedSegment::Fin {
                offset: *end_offset,
                reverse_acked: info.reverse_acked,
                extra: info.extra.dup(),
            },
            SegmentType::Rst => SerializedSegment::Rst {
                offset: info.offset,
                reverse_acked: info.reverse_acked,
                extra: info.extra.dup(),
            },
        }
    }
}

} // verus!
