//! Variable-length integer encoding: the top two bits of the first byte
//! give the encoded width (1, 2, 4 or 8 bytes), the rest carry the value
//! big-endian. Values up to `2^62 - 1` are representable.

use vstd::prelude::*;

verus! {

/// Number of bytes the varint encoding of `n` takes, or 0 when `n` is too
/// large to encode.
pub open spec fn spec_varint_size(n: u64) -> int {
    if n < 0x40 {
        1
    } else if n < 0x4000 {
        2
    } else if n < 0x4000_0000 {
        4
    } else if n < 0x4000_0000_0000_0000 {
        8
    } else {
        0
    }
}

/// The `k`-th byte (big-endian) of the `s`-byte encoding of `n`: the value
/// with the width tag added into the top two bits.
pub open spec fn spec_varint_byte(n: u64, s: int, k: int) -> int {
    let tagged: int = if s == 1 {
        n as int
    } else if s == 2 {
        n + 0x4000
    } else if s == 4 {
        n + 0x8000_0000
    } else {
        n + 0xC000_0000_0000_0000
    };
    (tagged / pow256(s - 1 - k)) % 256
}

/// 256 to the power `e`.
pub open spec fn pow256(e: int) -> int
    decreases e,
{
    if e <= 0 {
        1
    } else {
        256 * pow256(e - 1)
    }
}

/// Determine how many bytes are required to encode a varint.
pub fn varint_size(n: u64) -> (r: Option<usize>)
    ensures
        spec_varint_size(n) == 0 ==> r is None,
        spec_varint_size(n) != 0 ==> r == Some(spec_varint_size(n) as usize),
{
    if n < 0x40 {
        Some(1)
    } else if n < 0x4000 {
        Some(2)
    } else if n < 0x4000_0000 {
        Some(4)
    } else if n < 0x4000_0000_0000_0000 {
        Some(8)
    } else {
        None
    }
}

/// Write the varint encoding of `n` into `buf` at `at`, returning how many
/// bytes were used; values of 62 bits or more cannot be encoded.
pub fn write_varint(buf: &mut Vec<u8>, at: usize, n: u64) -> (r: Option<usize>)
    requires
        at + spec_varint_size(n) <= old(buf)@.len(),
    ensures
        final(buf)@.len() == old(buf)@.len(),
        spec_varint_size(n) == 0 ==> r is None && final(buf)@ == old(buf)@,
        spec_varint_size(n) != 0 ==> ({
            let s = spec_varint_size(n);
            &&& r == Some(s as usize)
            &&& (forall|k: int|
                0 <= k < old(buf)@.len() && !(at <= k < at + s) ==> final(buf)@[k] == old(
                    buf,
                )@[k])
            &&& (forall|k: int|
                0 <= k < s ==> final(buf)@[at + k] == spec_varint_byte(n, s, k))
        }),
{
    let blen: usize = buf.len();
    proof {
        reveal_with_fuel(pow256, 9);
    }
    if n < 0x40 {
        buf[at] = n as u8;
        Some(1)
    } else if n < 0x4000 {
        let val: u64 = n + 0x4000;
        buf[at] = (val / 0x100) as u8;
        buf[at + 1] = (val % 0x100) as u8;
        Some(2)
    } else if n < 0x4000_0000 {
        let val: u64 = n + 0x8000_0000;
        buf[at] = (val / 0x100_0000) as u8;
        buf[at + 1] = ((val / 0x1_0000) % 0x100) as u8;
        buf[at + 2] = ((val / 0x100) % 0x100) as u8;
        buf[at + 3] = (val % 0x100) as u8;
        Some(4)
    } else if n < 0x4000_0000_0000_0000 {
        let val: u64 = n + 0xC000_0000_0000_0000;
        buf[at] = (val / 0x100_0000_0000_0000) as u8;
        buf[at + 1] = ((val / 0x1_0000_0000_0000) % 0x100) as u8;
        buf[at + 2] = ((val / 0x100_0000_0000) % 0x100) as u8;
        buf[at + 3] = ((val / 0x1_0000_0000) % 0x100) as u8;
        buf[at + 4] = ((val / 0x100_0000) % 0x100) as u8;
        buf[at + 5] = ((val / 0x1_0000) % 0x100) as u8;
        buf[at + 6] = ((val / 0x100) % 0x100) as u8;
        buf[at + 7] = (val % 0x100) as u8;
        Some(8)
    } else {
        None
    }
}

/// Encoded width indicated by a varint's first byte.
pub open spec fn spec_varint_width(b0: u8) -> int {
    if b0 < 0x40 {
        1
    } else if b0 < 0x80 {
        2
    } else if b0 < 0xC0 {
        4
    } else {
        8
    }
}

/// Value carried by a varint whose bytes start at `at`.
pub open spec fn spec_varint_value(bytes: Seq<u8>, at: int) -> int {
    let w = spec_varint_width(bytes[at]);
    if w == 1 {
        (bytes[at] % 0x40) as int
    } else if w == 2 {
        (bytes[at] % 0x40) * 0x100 + bytes[at + 1]
    } else if w == 4 {
        (bytes[at] % 0x40) * 0x100_0000 + bytes[at + 1] * 0x1_0000 + bytes[at + 2] * 0x100
            + bytes[at + 3]
    } else {
        (bytes[at] % 0x40) * 0x100_0000_0000_0000 + bytes[at + 1] * 0x1_0000_0000_0000 + bytes[at
            + 2] * 0x100_0000_0000 + bytes[at + 3] * 0x1_0000_0000 + bytes[at + 4] * 0x100_0000
            + bytes[at + 5] * 0x1_0000 + bytes[at + 6] * 0x100 + bytes[at + 7]
    }
}

/// Read a varint from `buf` at `at`, returning its value and width, or
/// `None` when the buffer is too short for the indicated width.
pub fn read_varint(buf: &[u8], at: usize) -> (r: Option<(u64, usize)>)
    ensures
        (r is Some) <==> (at < buf@.len() && at + spec_varint_width(buf@[at as int])
            <= buf@.len()),
        (r matches Some(v) ==> v.0 == spec_varint_value(buf@, at as int) && v.1
            == spec_varint_width(buf@[at as int])),
{
    if at >= buf.len() {
        return None;
    }
    let b0 = buf[at];
    if b0 < 0x40 {
        Some(((b0 % 0x40) as u64, 1))
    } else if b0 < 0x80 {
        if buf.len() - at < 2 {
            return None;
        }
        let v = (b0 % 0x40) as u64 * 0x100 + buf[at + 1] as u64;
        Some((v, 2))
    } else if b0 < 0xC0 {
        if buf.len() - at < 4 {
            return None;
        }
        let v = (b0 % 0x40) as u64 * 0x100_0000 + buf[at + 1] as u64 * 0x1_0000 + buf[at
            + 2] as u64 * 0x100 + buf[at + 3] as u64;
        Some((v, 4))
    } else {
        if buf.len() - at < 8 {
            return None;
        }
        let v = (b0 % 0x40) as u64 * 0x100_0000_0000_0000 + buf[at + 1] as u64
            * 0x1_0000_0000_0000 + buf[at + 2] as u64 * 0x100_0000_0000 + buf[at + 3] as u64
            * 0x1_0000_0000 + buf[at + 4] as u64 * 0x100_0000 + buf[at + 5] as u64 * 0x1_0000
            + buf[at + 6] as u64 * 0x100 + buf[at + 7] as u64;
        Some((v, 8))
    }
}

} // verus!
