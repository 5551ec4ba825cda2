//! Variable-length integer encodings used by the frame layer: `varint8`
//! encodes up to 62 bits in 1, 2, 4 or 8 bytes; `varint4` encodes up to 31
//! bits in 1, 2 or 4 bytes. The leading bits of the first byte give the
//! width; the rest of the bits carry the value big-endian.

use vstd::prelude::*;

use crate::encoding::{
    pow256, read_varint, spec_varint_byte, spec_varint_size, spec_varint_value,
    spec_varint_width, write_varint,
};

verus! {

/// Determine how many bytes are required to encode a varint8.
pub fn varint8_size(n: u64) -> (r: Option<usize>)
    ensures
        spec_varint_size(n) == 0 ==> r is None,
        spec_varint_size(n) != 0 ==> r == Some(spec_varint_size(n) as usize),
{
    crate::encoding::varint_size(n)
}

/// Write a varint8 to `buf` at `at`, returning how many bytes were used.
pub fn write_varint8(buf: &mut Vec<u8>, at: usize, n: u64) -> (r: Option<usize>)
    requires
        at + spec_varint_size(n) <= old(buf)@.len(),
    ensures
        final(buf)@.len() == old(buf)@.len(),
        spec_varint_size(n) == 0 ==> r is None && final(buf)@ == old(buf)@,
        spec_varint_size(n) != 0 ==> ({
            let s = spec_varint_size(n);
            &&& r == Some(s as usize)
            &&& (forall|k: int|
                0 <= k < old(buf)@.len() && !(at <= k < at + s) ==> final(buf)@[k] == old(
                    buf,
                )@[k])
            &&& (forall|k: int|
                0 <= k < s ==> final(buf)@[at + k] == spec_varint_byte(n, s, k))
        }),
{
    write_varint(buf, at, n)
}

/// Read a varint8 from `buf` at `at`, returning its value and width.
pub fn read_varint8(buf: &[u8], at: usize) -> (r: Option<(u64, usize)>)
    ensures
        (r is Some) <==> (at < buf@.len() && at + spec_varint_width(buf@[at as int])
            <= buf@.len()),
        (r matches Some(v) ==> v.0 == spec_varint_value(buf@, at as int) && v.1
            == spec_varint_width(buf@[at as int])),
{
    read_varint(buf, at)
}

/// Number of bytes the varint4 encoding of `n` takes, or 0 when `n` is too
/// large to encode.
pub open spec fn spec_varint4_size(n: u32) -> int {
    if n < 0x40 {
        1
    } else if n < 0x4000 {
        2
    } else if n < 0x8000_0000 {
        4
    } else {
        0
    }
}

/// The `k`-th byte (big-endian) of the `s`-byte varint4 encoding of `n`.
pub open spec fn spec_varint4_byte(n: u32, s: int, k: int) -> int {
    let tagged: int = if s == 1 {
        n as int
    } else if s == 2 {
        n + 0x4000
    } else {
        n + 0x8000_0000
    };
    (tagged / pow256(s - 1 - k)) % 256
}

/// Determine how many bytes are required to encode a varint4.
pub fn varint4_size(n: u32) -> (r: Option<usize>)
    ensures
        spec_varint4_size(n) == 0 ==> r is None,
        spec_varint4_size(n) != 0 ==> r == Some(spec_varint4_size(n) as usize),
{
    if n < 0x40 {
        Some(1)
    } else if n < 0x4000 {
        Some(2)
    } else if n < 0x8000_0000 {
        Some(4)
    } else {
        None
    }
}

/// Write a varint4 to `buf` at `at`, returning how many bytes were used;
/// values of 31 bits or more cannot be encoded.
pub fn write_varint4(buf: &mut Vec<u8>, at: usize, n: u32) -> (r: Option<usize>)
    requires
        at + spec_varint4_size(n) <= old(buf)@.len(),
    ensures
        final(buf)@.len() == old(buf)@.len(),
        spec_varint4_size(n) == 0 ==> r is None && final(buf)@ == old(buf)@,
        spec_varint4_size(n) != 0 ==> ({
            let s = spec_varint4_size(n);
            &&& r == Some(s as usize)
            &&& (forall|k: int|
                0 <= k < old(buf)@.len() && !(at <= k < at + s) ==> final(buf)@[k] == old(
                    buf,
                )@[k])
            &&& (forall|k: int|
                0 <= k < s ==> final(buf)@[at + k] == spec_varint4_byte(n, s, k))
        }),
{
    let blen: usize = buf.len();
    proof {
        reveal_with_fuel(pow256, 5);
    }
    if n < 0x40 {
        buf[at] = n as u8;
        Some(1)
    } else if n < 0x4000 {
        let val: u32 = n + 0x4000;
        buf[at] = (val / 0x100) as u8;
        buf[at + 1] = (val % 0x100) as u8;
        Some(2)
    } else if n < 0x8000_0000 {
        let val: u32 = n + 0x8000_0000;
        buf[at] = (val / 0x100_0000) as u8;
        buf[at + 1] = ((val / 0x1_0000) % 0x100) as u8;
        buf[at + 2] = ((val / 0x100) % 0x100) as u8;
        buf[at + 3] = (val % 0x100) as u8;
        Some(4)
    } else {
        None
    }
}

/// Encoded width indicated by a varint4's first byte: the widest form is
/// tagged by the top bit alone.
pub open spec fn spec_varint4_width(b0: u8) -> int {
    if b0 < 0x40 {
        1
    } else if b0 < 0x80 {
        2
    } else {
        4
    }
}

/// Value carried by a varint4 whose bytes start at `at`.
pub open spec fn spec_varint4_value(bytes: Seq<u8>, at: int) -> int {
    let w = spec_varint4_width(bytes[at]);
    if w == 1 {
        (bytes[at] % 0x40) as int
    } else if w == 2 {
        (bytes[at] % 0x40) * 0x100 + bytes[at + 1]
    } else {
        (bytes[at] % 0x80) * 0x100_0000 + bytes[at + 1] * 0x1_0000 + bytes[at + 2] * 0x100
            + bytes[at + 3]
    }
}

/// Read a varint4 from `buf` at `at`, returning its value and width, or
/// `None` when the buffer is too short for the indicated width.
pub fn read_varint4(buf: &[u8], at: usize) -> (r: Option<(u32, usize)>)
    ensures
        (r is Some) <==> (at < buf@.len() && at + spec_varint4_width(buf@[at as int])
            <= buf@.len()),
        (r matches Some(v) ==> v.0 == spec_varint4_value(buf@, at as int) && v.1
            == spec_varint4_width(buf@[at as int])),
{
    if at >= buf.len() {
        return None;
    }
    let b0 = buf[at];
    if b0 < 0x40 {
        Some(((b0 % 0x40) as u32, 1))
    } else if b0 < 0x80 {
        if buf.len() - at < 2 {
            return None;
        }
        let v = (b0 % 0x40) as u32 * 0x100 + buf[at + 1] as u32;
        Some((v, 2))
    } else {
        if buf.len() - at < 4 {
            return None;
        }
        let v = (b0 % 0x80) as u32 * 0x100_0000 + buf[at + 1] as u32 * 0x1_0000 + buf[at
            + 2] as u32 * 0x100 + buf[at + 3] as u32;
        Some((v, 4))
    }
}

} // verus!
