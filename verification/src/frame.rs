//! Frame types for streams: a data frame carrying a segment of stream
//! bytes, and a window-limit frame advertising new flow-control room. Both
//! serialize to a compact byte layout built on the varint8 encoding.

use vstd::prelude::*;

use crate::encoding::{spec_varint_byte, spec_varint_size, spec_varint_value, spec_varint_width};
use crate::frame_encoding::{read_varint8, write_varint8};

verus! {

/// Stream data frame.
pub struct StreamData {
    /// Stream identifier.
    pub stream_id: u64,
    /// Offset of this segment into the stream.
    pub stream_offset: u64,
    /// Offset within the segment where a message starts, if any.
    pub message_offset: Option<u16>,
    /// Segment payload.
    pub data: Vec<u8>,
}

/// Stream window limit frame.
pub struct StreamWindowLimit {
    /// Stream identifier.
    pub stream_id: u64,
    /// New flow control limit.
    pub limit: u64,
}

/// Result of decoding a [`StreamData`] frame from a byte sequence: bytes
/// consumed, stream id, stream offset, message offset, payload.
pub open spec fn spec_stream_data_read(b: Seq<u8>) -> Option<(int, u64, u64, Option<u16>, Seq<u8>)> {
    if b.len() < 1 {
        None
    } else {
        let has_msg = b[0] % 2 == 1;
        let i1 = 1int;
        if !(i1 < b.len() && i1 + spec_varint_width(b[i1]) <= b.len()) {
            None
        } else {
            let id = spec_varint_value(b, i1);
            let i2 = i1 + spec_varint_width(b[i1]);
            if !(i2 < b.len() && i2 + spec_varint_width(b[i2]) <= b.len()) {
                None
            } else {
                let off = spec_varint_value(b, i2);
                let i3 = i2 + spec_varint_width(b[i2]);
                if i3 + 2 > b.len() {
                    None
                } else {
                    let dlen = b[i3] * 0x100 + b[i3 + 1];
                    let i4 = i3 + 2;
                    if has_msg {
                        if i4 + 2 > b.len() {
                            None
                        } else {
                            let msg = (b[i4] * 0x100 + b[i4 + 1]) as u16;
                            let i5 = i4 + 2;
                            if i5 + dlen > b.len() {
                                None
                            } else {
                                Some(
                                    (
                                        i5 + dlen,
                                        id as u64,
                                        off as u64,
                                        Some(msg),
                                        b.subrange(i5, i5 + dlen),
                                    ),
                                )
                            }
                        }
                    } else {
                        if i4 + dlen > b.len() {
                            None
                        } else {
                            Some(
                                (
                                    i4 + dlen,
                                    id as u64,
                                    off as u64,
                                    None::<u16>,
                                    b.subrange(i4, i4 + dlen),
                                ),
                            )
                        }
                    }
                }
            }
        }
    }
}

impl StreamData {
    /// Serialized length of this frame.
    pub fn serialized_length(&self) -> (r: usize)
        requires
            spec_varint_size(self.stream_id) != 0,
            spec_varint_size(self.stream_offset) != 0,
            self.data@.len() <= u16::MAX,
        ensures
            r == 1 + spec_varint_size(self.stream_id) + spec_varint_size(self.stream_offset) + (
            if self.message_offset is Some {
                2int
            } else {
                0int
            }) + 2 + self.data@.len(),
    {
        let id_size = match crate::encoding::varint_size(self.stream_id) {
            Some(s) => s,
            None => 0,
        };
        let off_size = match crate::encoding::varint_size(self.stream_offset) {
            Some(s) => s,
            None => 0,
        };
        let msg_size: usize = if self.message_offset.is_some() {
            2
        } else {
            0
        };
        1 + id_size + off_size + msg_size + 2 + self.data.len()
    }

    /// Write the frame into the start of `buf`, returning the number of
    /// bytes written: a flags byte, the varint8 stream id and offset, the
    /// big-endian payload length, the optional big-endian message offset,
    /// then the payload bytes.
    #[verifier::rlimit(100)]
    pub fn write(&self, buf: &mut Vec<u8>) -> (r: usize)
        requires
            spec_varint_size(self.stream_id) != 0,
            spec_varint_size(self.stream_offset) != 0,
            self.data@.len() <= u16::MAX,
            old(buf)@.len() >= 1 + spec_varint_size(self.stream_id) + spec_varint_size(
                self.stream_offset,
            ) + (if self.message_offset is Some {
                2int
            } else {
                0int
            }) + 2 + self.data@.len(),
        ensures
            final(buf)@.len() == old(buf)@.len(),
            r == 1 + spec_varint_size(self.stream_id) + spec_varint_size(self.stream_offset) + (
            if self.message_offset is Some {
                2int
            } else {
                0int
            }) + 2 + self.data@.len(),
            ({
                let s1 = spec_varint_size(self.stream_id);
                let s2 = spec_varint_size(self.stream_offset);
                let lp = 1 + s1 + s2;
                let mp = lp + 2;
                let dp = mp + (if self.message_offset is Some {
                    2int
                } else {
                    0int
                });
                let dlen = self.data@.len() as int;
                &&& final(buf)@[0] == (if self.message_offset is Some {
                    1u8
                } else {
                    0u8
                })
                &&& (forall|k: int|
                    0 <= k < s1 ==> final(buf)@[1 + k] == spec_varint_byte(
                        self.stream_id,
                        s1,
                        k,
                    ))
                &&& (forall|k: int|
                    0 <= k < s2 ==> final(buf)@[1 + s1 + k] == spec_varint_byte(
                        self.stream_offset,
                        s2,
                        k,
                    ))
                &&& final(buf)@[lp] == dlen / 0x100
                &&& final(buf)@[lp + 1] == dlen % 0x100
                &&& (self.message_offset matches Some(m) ==> final(buf)@[mp] == m / 0x100
                    && final(buf)@[mp + 1] == m % 0x100)
                &&& (forall|k: int| 0 <= k < dlen ==> final(buf)@[dp + k] == self.data@[k])
                &&& (forall|k: int|
                    0 <= k < old(buf)@.len() && k >= dp + dlen ==> final(buf)@[k] == old(
                        buf,
                    )@[k])
            }),
    {
        let blen: usize = buf.len();
        buf[0] = if self.message_offset.is_some() {
            1
        } else {
            0
        };
        let mut index: usize = 1;
        let id_len = match write_varint8(buf, index, self.stream_id) {
            Some(l) => l,
            None => 0,
        };
        index = index + id_len;
        let off_len = match write_varint8(buf, index, self.stream_offset) {
            Some(l) => l,
            None => 0,
        };
        index = index + off_len;
        let dlen: usize = self.data.len();
        buf[index] = (dlen / 0x100) as u8;
        buf[index + 1] = (dlen % 0x100) as u8;
        index = index + 2;
        match self.message_offset {
            Some(msg) => {
                buf[index] = (msg / 0x100) as u8;
                buf[index + 1] = (msg % 0x100) as u8;
                index = index + 2;
            },
            None => {},
        }
        let ghost mid = buf@;
        let ghost data_start = index as int;
        let mut j: usize = 0;
        while j < dlen
            invariant
                0 <= j <= dlen,
                dlen == self.data@.len(),
                data_start == index,
                index + dlen <= blen,
                blen == buf@.len(),
                buf@.len() == mid.len(),
                forall|k: int|
                    0 <= k < buf@.len() && !(data_start <= k < data_start + j)
                        ==> #[trigger] buf@[k] == mid[k],
                forall|k: int| 0 <= k < j ==> #[trigger] buf@[data_start + k] == self.data@[k],
            decreases dlen - j,
        {
            buf[index + j] = self.data[j];
            j += 1;
        }
        index + dlen
    }

    /// Read a frame from the start of `buf`, returning the number of bytes
    /// consumed and the frame, or an error when the buffer is too short.
    pub fn read(buf: &[u8]) -> (r: Result<(usize, StreamData), ()>)
        ensures
            (r is Ok) <==> spec_stream_data_read(buf@) is Some,
            (r matches Ok(v) ==> spec_stream_data_read(buf@) matches Some(p) && v.0 == p.0
                && v.1.stream_id == p.1 && v.1.stream_offset == p.2 && v.1.message_offset == p.3
                && v.1.data@ == p.4),
    {
        if buf.len() < 1 {
            return Err(());
        }
        let has_msg = buf[0] % 2 == 1;
        let (stream_id, w1) = match read_varint8(buf, 1) {
            Some(v) => v,
            None => {
                return Err(());
            },
        };
        let i2 = 1 + w1;
        let (stream_offset, w2) = match read_varint8(buf, i2) {
            Some(v) => v,
            None => {
                return Err(());
            },
        };
        let i3 = i2 + w2;
        if buf.len() - i3 < 2 {
            return Err(());
        }
        let dlen: usize = buf[i3] as usize * 0x100 + buf[i3 + 1] as usize;
        let i4 = i3 + 2;
        let (message_offset, data_at) = if has_msg {
            if buf.len() - i4 < 2 {
                return Err(());
            }
            let msg: u16 = buf[i4] as u16 * 0x100 + buf[i4 + 1] as u16;
            (Some(msg), i4 + 2)
        } else {
            (None, i4)
        };
        if buf.len() - data_at < dlen {
            return Err(());
        }
        let blen: usize = buf.len();
        let mut data: Vec<u8> = Vec::new();
        let mut j: usize = 0;
        while j < dlen
            invariant
                0 <= j <= dlen,
                data_at + dlen <= blen,
                blen == buf@.len(),
                data@ == buf@.subrange(data_at as int, data_at + j),
            decreases dlen - j,
        {
            data.push(buf[data_at + j]);
            j += 1;
            proof {
                assert(data@ =~= buf@.subrange(data_at as int, data_at + j));
            }
        }
        Ok((data_at + dlen, StreamData { stream_id, stream_offset, message_offset, data }))
    }
}

impl StreamWindowLimit {
    /// Serialized length of this frame.
    pub fn serialized_length(&self) -> (r: usize)
        requires
            spec_varint_size(self.stream_id) != 0,
            spec_varint_size(self.limit) != 0,
        ensures
            r == spec_varint_size(self.stream_id) + spec_varint_size(self.limit),
    {
        let id_size = match crate::encoding::varint_size(self.stream_id) {
            Some(s) => s,
            None => 0,
        };
        let limit_size = match crate::encoding::varint_size(self.limit) {
            Some(s) => s,
            None => 0,
        };
        id_size + limit_size
    }

    /// Write the frame into the start of `buf`, returning the number of
    /// bytes written: the varint8 stream id followed by the varint8 limit.
    pub fn write(&self, buf: &mut Vec<u8>) -> (r: usize)
        requires
            spec_varint_size(self.stream_id) != 0,
            spec_varint_size(self.limit) != 0,
            old(buf)@.len() >= spec_varint_size(self.stream_id) + spec_varint_size(self.limit),
        ensures
            final(buf)@.len() == old(buf)@.len(),
            r == spec_varint_size(self.stream_id) + spec_varint_size(self.limit),
            ({
                let s1 = spec_varint_size(self.stream_id);
                let s2 = spec_varint_size(self.limit);
                &&& (forall|k: int|
                    0 <= k < s1 ==> final(buf)@[k] == spec_varint_byte(self.stream_id, s1, k))
                &&& (forall|k: int|
                    0 <= k < s2 ==> final(buf)@[s1 + k] == spec_varint_byte(self.limit, s2, k))
                &&& (forall|k: int|
                    s1 + s2 <= k < old(buf)@.len() ==> final(buf)@[k] == old(buf)@[k])
            }),
    {
        let w1 = match write_varint8(buf, 0, self.stream_id) {
            Some(l) => l,
            None => 0,
        };
        let w2 = match write_varint8(buf, w1, self.limit) {
            Some(l) => l,
            None => 0,
        };
        w1 + w2
    }

    /// Read a frame from the start of `buf`, returning the number of bytes
    /// consumed and the frame, or an error when the buffer is too short.
    pub fn read(buf: &[u8]) -> (r: Result<(usize, StreamWindowLimit), ()>)
        ensures
            (r is Ok) <==> (0 < buf@.len() && spec_varint_width(buf@[0]) < buf@.len()
                && spec_varint_width(buf@[0]) + spec_varint_width(
                buf@[spec_varint_width(buf@[0])],
            ) <= buf@.len()),
            (r matches Ok(v) ==> ({
                let w1 = spec_varint_width(buf@[0]);
                &&& v.1.stream_id == spec_varint_value(buf@, 0)
                &&& v.1.limit == spec_varint_value(buf@, w1)
                &&& v.0 == w1 + spec_varint_width(buf@[w1])
            })),
    {
        let (stream_id, w1) = match read_varint8(buf, 0) {
            Some(v) => v,
            None => {
                return Err(());
            },
        };
        let (limit, w2) = match read_varint8(buf, w1) {
            Some(v) => v,
            None => {
                return Err(());
            },
        };
        Ok((w1 + w2, StreamWindowLimit { stream_id, limit }))
    }
}

} // verus!
