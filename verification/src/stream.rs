//! One direction of a TCP connection: maps 32-bit wrapping sequence numbers
//! onto 64-bit absolute offsets, feeds payload bytes into the inbound
//! reassembly buffer, tracks acknowledgment progress, detects retransmits
//! and keeps ordered per-segment metadata.

use vstd::prelude::*;

use crate::inbound::{ReceiveSegmentResult, StreamInboundState};
use crate::range_set::{lemma_wf_ordered, ranges_cover, ranges_cover_range, wf_ranges};
use crate::serialized::PacketExtra;

verus! {

/// Size of the sequence number sliding window.
pub const SEQ_WINDOW_SIZE: u32 = 0x4000_0000;

/// Threshold for advancing the sequence number window.
pub const SEQ_WINDOW_ADVANCE_THRESHOLD: u32 = 0x2000_0000;

/// How far behind the newest sequence number the advanced window starts.
pub const SEQ_WINDOW_ADVANCE_BY: u32 = 0x1000_0000;

/// Maximum allowed size of the stream buffer.
pub const MAX_ALLOWED_BUFFER_SIZE: u64 = 0x800_0000;

/// Maximum entry count of the segment metadata queue.
pub const MAX_SEGMENTS_INFO_COUNT: usize = 0x2_0000;

/// How far forward of the highest ack a reset packet is believed.
pub const RESET_MAX_LOOKAHEAD: u32 = 0x100_0000;

/// How far backward of the highest ack a reset packet is believed.
pub const RESET_MAX_LOOKBEHIND: u32 = 0x4_0000;

/// One full turn of the 32-bit sequence space.
pub const SEQ_SPACE: u64 = 0x1_0000_0000;

/// Distance from `b` up to `a` on the 32-bit circle: `(a - b) mod 2^32`.
pub open spec fn seq_sub(a: u32, b: u32) -> int {
    if a >= b {
        a - b
    } else {
        a + 0x1_0000_0000 - b
    }
}

/// Sum on the 32-bit circle: `(a + b) mod 2^32`.
pub open spec fn seq_add(a: u32, b: u32) -> int {
    if a + b <= u32::MAX {
        a + b
    } else {
        a + b - 0x1_0000_0000
    }
}

/// Whether `n` lies in the half-open window `[start, end)` of 32-bit
/// sequence space; a window with `start >= end` wraps through zero.
pub open spec fn seq_in_window(start: u32, end: u32, n: u32) -> bool {
    if start < end {
        start <= n && n < end
    } else {
        n >= start || n < end
    }
}

/// Determine whether `(base - before) <= value <= (base + after)` on the
/// circle of 32-bit sequence numbers.
pub fn in_range_wrapping(base: u32, before: u32, after: u32, value: u32) -> (r: bool)
    requires
        !(before > base && base + after > u32::MAX),
    ensures
        r == {
            let begin = seq_sub(base, before);
            let end = seq_add(base, after);
            if begin <= end {
                begin <= value && value <= end
            } else {
                value >= begin || value <= end
            }
        },
{
    let begin: u32 = if base >= before {
        base - before
    } else {
        ((base as u64 + SEQ_SPACE) - before as u64) as u32
    };
    let end: u32 = if after <= u32::MAX - base {
        base + after
    } else {
        ((base as u64 + after as u64) - SEQ_SPACE) as u32
    };
    if begin <= end {
        begin <= value && value <= end
    } else {
        begin <= value || value <= end
    }
}

/// Two to the power `e`.
pub open spec fn two_to(e: nat) -> nat
    decreases e,
{
    if e == 0 {
        1
    } else {
        2 * two_to((e - 1) as nat)
    }
}

/// `two_to` grows monotonically.
proof fn lemma_two_to_increases(a: nat, b: nat)
    requires
        a <= b,
    ensures
        two_to(a) <= two_to(b),
    decreases b,
{
    if a < b {
        lemma_two_to_increases(a, (b - 1) as nat);
    }
}

/// The window-scale multiplier `2^scale`.
fn scale_multiplier(scale: u8) -> (r: u64)
    requires
        scale <= 14,
    ensures
        r == two_to(scale as nat),
        1 <= r <= 0x4000,
{
    proof {
        reveal_with_fuel(two_to, 16);
    }
    let mut m: u64 = 1;
    let mut t: u8 = 0;
    while t < scale
        invariant
            0 <= t <= scale <= 14,
            m == two_to(t as nat),
            m <= 0x4000,
        decreases scale - t,
    {
        proof {
            reveal_with_fuel(two_to, 16);
            lemma_two_to_increases((t + 1) as nat, 14nat);
        }
        m = m * 2;
        t = t + 1;
    }
    m
}

/// Offset from a packet sequence number to the absolute stream offset.
pub enum SeqOffset {
    /// Before any rollover: the initial sequence number is subtracted.
    Initial(u32),
    /// After a rollover: the base is added.
    Subsequent(u64),
}

impl SeqOffset {
    /// The absolute offset this mapping assigns to sequence number `n`.
    pub open spec fn spec_absolute(self, n: u32) -> int {
        match self {
            SeqOffset::Initial(isn) => n - isn,
            SeqOffset::Subsequent(off) => n + off,
        }
    }

    /// Compute the absolute stream offset of sequence number `n`.
    pub fn compute_absolute(&self, n: u32) -> (r: u64)
        requires
            ((*self) matches SeqOffset::Initial(isn) ==> n >= isn),
            ((*self) matches SeqOffset::Subsequent(off) ==> n + off <= u64::MAX),
        ensures
            r == self.spec_absolute(n),
    {
        match self {
            SeqOffset::Initial(isn) => (n - isn) as u64,
            SeqOffset::Subsequent(off) => n as u64 + off,
        }
    }
}

/// Type-specific information for one observed segment.
#[derive(Clone, Copy, PartialEq, Eq, Structural, Debug)]
pub enum SegmentType {
    /// A data segment of `len` payload bytes.
    Data { len: usize, is_retransmit: bool },
    /// An acknowledgment advertising `window` bytes of receive window.
    Ack { window: usize },
    /// A FIN announcing that the stream ends at `end_offset`.
    Fin { end_offset: u64 },
    /// A validated reset.
    Rst,
}

/// Metadata for one observed segment.
#[derive(Clone, Copy, PartialEq, Eq, Structural, Debug)]
pub struct SegmentInfo {
    /// Absolute offset of this segment in its stream.
    pub offset: u64,
    /// Snapshot of the opposite stream's highest acked offset.
    pub reverse_acked: u64,
    /// Extra metadata carried by the packet.
    pub extra: PacketExtra,
    /// Segment type and type-specific information.
    pub data: SegmentType,
}

/// Ordering of segment metadata: ascending offset, ties broken by
/// ascending `reverse_acked`.
pub open spec fn seg_le(a: SegmentInfo, b: SegmentInfo) -> bool {
    a.offset < b.offset || (a.offset == b.offset && a.reverse_acked <= b.reverse_acked)
}

/// The metadata queue is sorted by [`seg_le`].
pub open spec fn segs_sorted(s: Seq<SegmentInfo>) -> bool {
    forall|k: int, l: int| 0 <= k < l < s.len() ==> seg_le(#[trigger] s[k], #[trigger] s[l])
}


/// Clamp an integer into the `u64` range from above.
pub open spec fn clamp64(x: int) -> int {
    if x > u64::MAX {
        u64::MAX as int
    } else {
        x
    }
}

/// Total length of a list of ranges.
pub open spec fn sum_range_lens(s: Seq<(u64, u64)>) -> int
    decreases s.len(),
{
    if s.len() == 0 {
        0
    } else {
        sum_range_lens(s.drop_last()) + (s.last().1 - s.last().0)
    }
}

/// Summing over a prefix extends one element at a time.
proof fn lemma_sum_take_step(s: Seq<(u64, u64)>, i: int)
    requires
        0 <= i < s.len(),
    ensures
        sum_range_lens(s.take(i + 1)) == sum_range_lens(s.take(i)) + (s[i].1 - s[i].0),
{
    assert(s.take(i + 1).drop_last() =~= s.take(i));
    assert(s.take(i + 1).last() == s[i]);
}

/// Once the scaled-window candidate has outgrown `u64`, no later scale can
/// give a representable candidate, and no earlier one reached the target.
proof fn lemma_estimate_no_witness(ha: int, u: int, fit: int, s0: int, t_over: int)
    requires
        0 <= s0 <= t_over,
        u >= 0,
        ha + u * two_to(t_over as nat) > u64::MAX,
        forall|tt: int| s0 <= tt < t_over ==> ha + u * #[trigger] two_to(tt as nat) < fit,
    ensures
        forall|tt: int|
            s0 <= tt < 14 ==> !(fit <= ha + u * #[trigger] two_to(tt as nat) && ha + u * two_to(
                tt as nat,
            ) <= u64::MAX),
{
    assert forall|tt: int|
        s0 <= tt < 14 implies !(fit <= ha + u * #[trigger] two_to(tt as nat) && ha + u * two_to(
        tt as nat,
    ) <= u64::MAX) by {
        if tt >= t_over {
            lemma_two_to_increases(t_over as nat, tt as nat);
            assert(u * two_to(t_over as nat) <= u * two_to(tt as nat)) by (nonlinear_arith)
                requires
                    u >= 0,
                    two_to(t_over as nat) <= two_to(tt as nat),
            ;
        }
    }
}

/// `post` is `pre` with `x` inserted at some position.
pub open spec fn seq_inserted<T>(pre: Seq<T>, post: Seq<T>, x: T) -> bool {
    exists|idx: int| 0 <= idx <= pre.len() && post == #[trigger] pre.insert(idx, x)
}


/// Whether the stream can resolve sequence number `n` to a representable
/// absolute offset.
pub open spec fn resolves(s: Stream, n: u32) -> bool {
    seq_in_window(s.seq_window_start, s.seq_window_end, n) && s.spec_abs_offset(n) <= u64::MAX
}

/// Whether a data segment of `len` bytes at sequence number `seq` would be
/// accepted as new data: its offset resolves, at least one byte fits under
/// the buffer cap, and the (possibly truncated) range is not already fully
/// received.
pub open spec fn data_accepted(s: Stream, seq: u32, len: int) -> bool {
    let o = s.spec_abs_offset(seq);
    let bo = s.state.buffer_offset as int;
    let wl = s.state.window_limit as int;
    let span = if o + len > bo {
        o + len - bo
    } else {
        0int
    };
    let fits = o + len <= u64::MAX && (o + len <= wl || span < MAX_ALLOWED_BUFFER_SIZE || bo
        + MAX_ALLOWED_BUFFER_SIZE > o);
    let le = if o + len <= wl || span < MAX_ALLOWED_BUFFER_SIZE {
        len
    } else {
        bo + MAX_ALLOWED_BUFFER_SIZE - o
    };
    &&& resolves(s, seq)
    &&& fits
    &&& !ranges_cover_range(s.state.received@, o, o + le)
}

/// Whether a reset at sequence number `seq` would be believed: its offset
/// resolves and lies within the plausibility range around the highest ack.
pub open spec fn rst_accepted(s: Stream, seq: u32) -> bool {
    let o = s.spec_abs_offset(seq);
    let ha = s.highest_acked as int;
    let lo = if ha - RESET_MAX_LOOKBEHIND >= 0 {
        ha - RESET_MAX_LOOKBEHIND
    } else {
        0int
    };
    let hi = clamp64(ha + RESET_MAX_LOOKAHEAD);
    resolves(s, seq) && lo <= o < hi
}

/// Whether an ack at `ack` would end the stream: it resolves, the stream
/// had not ended, and the resulting highest ack passes the final offset.
pub open spec fn ack_ends(s: Stream, ack: u32) -> bool {
    let o = s.spec_abs_offset(ack);
    let ha = if o > s.highest_acked {
        o
    } else {
        s.highest_acked as int
    };
    resolves(s, ack) && !s.has_ended && (s.state.final_offset matches Some(fo) && ha > fo)
}


/// Law: sequence numbers that are adjacent on the 32-bit circle map to
/// adjacent absolute offsets, also where the successor wraps through zero.
/// This is what makes a stream fed across the sequence-number rollover come
/// out contiguous: the byte after sequence number `2^32 - 1` lands at the
/// very next absolute offset.
pub proof fn lemma_abs_offset_contiguous(s: Stream, n: u32)
    requires
        s.seq_window_start != s.seq_window_end,
        seq_in_window(s.seq_window_start, s.seq_window_end, n),
        seq_in_window(
            s.seq_window_start,
            s.seq_window_end,
            if n == u32::MAX {
                0u32
            } else {
                (n + 1) as u32
            },
        ),
    ensures
        s.spec_abs_offset(
            if n == u32::MAX {
                0u32
            } else {
                (n + 1) as u32
            },
        ) == s.spec_abs_offset(n) + 1,
{
    let m: u32 = if n == u32::MAX {
        0u32
    } else {
        (n + 1) as u32
    };
    if s.seq_window_start < s.seq_window_end {
        // a non-wrapped window cannot contain the rollover edge
        assert(n < s.seq_window_end);
    } else {
        if n == u32::MAX {
            // the successor sits in the low, rolled-over part, one further
            // turn of the sequence space ahead
            assert(n >= s.seq_window_start);
            assert(m < s.seq_window_start);
        } else if n < s.seq_window_start {
            // both sit in the low part: the window bound keeps `m` there
            assert(n < s.seq_window_end);
            assert(m < s.seq_window_start);
        }
    }
}

/// The sequence-window fields (window bounds and offset mapping) are the
/// same in both streams; `spec_abs_offset` then agrees on every number.
pub open spec fn window_kept(pre: Stream, post: Stream) -> bool {
    &&& post.seq_window_start == pre.seq_window_start
    &&& post.seq_window_end == pre.seq_window_end
    &&& post.seq_offset == pre.seq_offset
}

/// The sequence window slid forward after resolving `number`: it now begins
/// `SEQ_WINDOW_ADVANCE_BY` behind that number, spans `SEQ_WINDOW_SIZE`, and
/// maps every number it contains to the offset of `number` plus the
/// circular distance from the new window start, less the advance distance.
/// In particular the offset mapping advances by one turn of the sequence
/// space exactly where the slide carries a number across the rollover.
pub open spec fn slid_window(pre: Stream, post: Stream, number: u32) -> bool {
    &&& post.seq_window_start as int == seq_sub(number, SEQ_WINDOW_ADVANCE_BY)
    &&& post.seq_window_end as int == seq_add(post.seq_window_start, SEQ_WINDOW_SIZE)
    &&& forall|m: u32|
        seq_in_window(post.seq_window_start, post.seq_window_end, m)
            ==> #[trigger] post.spec_abs_offset(m) == pre.spec_abs_offset(number)
            - SEQ_WINDOW_ADVANCE_BY + seq_sub(m, post.seq_window_start)
}

/// How the sequence window moves when `number` is resolved with advancing
/// allowed: a number further than `SEQ_WINDOW_ADVANCE_THRESHOLD` past the
/// window start slides the window ([`slid_window`]); a closer one leaves
/// the window fields untouched ([`window_kept`]).
pub open spec fn window_tracked(pre: Stream, post: Stream, number: u32) -> bool {
    if seq_sub(number, pre.seq_window_start) > SEQ_WINDOW_ADVANCE_THRESHOLD {
        slid_window(pre, post, number)
    } else {
        window_kept(pre, post)
    }
}

/// `window_tracked` carries over any further change that leaves the
/// sequence-window fields alone.
proof fn lemma_window_tracked_stable(pre: Stream, a: Stream, b: Stream, number: u32)
    requires
        window_tracked(pre, a, number),
        window_kept(a, b),
    ensures
        window_tracked(pre, b, number),
{
    if seq_sub(number, pre.seq_window_start) > SEQ_WINDOW_ADVANCE_THRESHOLD {
        assert forall|m: u32|
            seq_in_window(b.seq_window_start, b.seq_window_end, m) implies #[trigger] b.spec_abs_offset(
            m,
        ) == pre.spec_abs_offset(number) - SEQ_WINDOW_ADVANCE_BY + seq_sub(
            m,
            b.seq_window_start,
        ) by {
            assert(a.spec_abs_offset(m) == pre.spec_abs_offset(number) - SEQ_WINDOW_ADVANCE_BY
                + seq_sub(m, a.seq_window_start));
        }
    }
}

/// Law: a window slide preserves the absolute offset of every sequence
/// number that the old and new windows share. Packets whose numbers remain
/// resolvable after the slide therefore keep their place in the stream, so
/// a stream fed across a slide (the rollover included) stays consistent.
pub proof fn lemma_window_slide_preserves(pre: Stream, post: Stream, number: u32, m: u32)
    requires
        pre.seq_window_end as int == seq_add(pre.seq_window_start, SEQ_WINDOW_SIZE),
        seq_in_window(pre.seq_window_start, pre.seq_window_end, number),
        window_tracked(pre, post, number),
        seq_in_window(pre.seq_window_start, pre.seq_window_end, m),
        seq_in_window(post.seq_window_start, post.seq_window_end, m),
    ensures
        post.spec_abs_offset(m) == pre.spec_abs_offset(m),
{
    if seq_sub(number, pre.seq_window_start) > SEQ_WINDOW_ADVANCE_THRESHOLD {
        let ps = pre.seq_window_start;
        let qs = post.seq_window_start;
        // both windows span SEQ_WINDOW_SIZE, so all circular distances from
        // their starts to members stay below it
        assert(seq_sub(m, ps) < SEQ_WINDOW_SIZE);
        assert(seq_sub(number, ps) < SEQ_WINDOW_SIZE);
        assert(seq_sub(m, qs) < SEQ_WINDOW_SIZE);
        assert(seq_sub(number, qs) == SEQ_WINDOW_ADVANCE_BY);
        // distances measured from either start differ by a constant: the two
        // differences are congruent modulo 2^32 and both lie within one turn
        assert(seq_sub(m, ps) - seq_sub(number, ps) == seq_sub(m, qs) - seq_sub(number, qs));
        // within the old window the offset is affine in the circular distance
        assert(pre.spec_abs_offset(m) == pre.spec_abs_offset(number) + seq_sub(m, ps) - seq_sub(
            number,
            ps,
        ));
        assert(post.spec_abs_offset(m) == pre.spec_abs_offset(number) - SEQ_WINDOW_ADVANCE_BY
            + seq_sub(m, qs));
    }
}

/// Two streams that differ at most in their sequence-window fields.
pub open spec fn same_except_seq_window(a: Stream, b: Stream) -> bool {
    b == (Stream {
        seq_window_start: b.seq_window_start,
        seq_window_end: b.seq_window_end,
        seq_offset: b.seq_offset,
        ..a
    })
}

/// Everything [`Stream::handle_data_packet`] guarantees: how one data
/// segment at sequence number `seq` carrying `data` turns `pre` into
/// `post` and what its result `r` means.
#[verifier::opaque]
pub open spec fn data_packet_post(
    pre: Stream,
    post: Stream,
    seq: u32,
    data: Seq<u8>,
    extra: PacketExtra,
    r: bool,
) -> bool {
    &&& (!resolves(pre, seq) ==> r == false && post == pre)
    &&& (resolves(pre, seq) ==> ({
        let o = pre.spec_abs_offset(seq);
        let len = data.len() as int;
        let bo = pre.state.buffer_offset as int;
        let wl = pre.state.window_limit as int;
        let span = if o + len > bo {
            o + len - bo
        } else {
            0int
        };
        let fits = o + len <= u64::MAX && (o + len <= wl || span < MAX_ALLOWED_BUFFER_SIZE || bo
            + MAX_ALLOWED_BUFFER_SIZE > o);
        &&& window_tracked(pre, post, seq)
        &&& (!fits ==> (r == false && same_except_seq_window(pre, post)))
        &&& (fits ==> ({
            let le = if o + len <= wl || span < MAX_ALLOWED_BUFFER_SIZE {
                len
            } else {
                bo + MAX_ALLOWED_BUFFER_SIZE - o
            };
            let dup = ranges_cover_range(pre.state.received@, o, o + le);
            &&& r == !dup
            &&& post.retransmit_count as int == (if dup {
                if pre.retransmit_count < usize::MAX {
                    pre.retransmit_count + 1
                } else {
                    pre.retransmit_count as int
                }
            } else {
                pre.retransmit_count as int
            })
            &&& (forall|v: int|
                #[trigger] post.state.abs_covered(v) == (pre.state.abs_covered(v) || (o <= v < o
                    + le)))
            &&& (forall|v: int|
                o <= v < o + le && !pre.state.abs_covered(v) ==> #[trigger] post.state.byte_at(v)
                    == data[v - o])
            &&& (forall|v: int|
                pre.state.in_buffer_window(v) && !(o <= v < o + le && !pre.state.abs_covered(v))
                    ==> #[trigger] post.state.byte_at(v) == pre.state.byte_at(v))
            &&& post.state.buffer_offset == pre.state.buffer_offset
            &&& post.state.final_offset == pre.state.final_offset
            &&& post.state.is_reliable == pre.state.is_reliable
            &&& post.state.window_limit as int >= o + le
            &&& post.state.window_limit >= pre.state.window_limit
            &&& post.state.window_limit as int <= bo + MAX_ALLOWED_BUFFER_SIZE
            &&& (pre.got_window_scale ==> post.window_scale == pre.window_scale
                && post.state.window_limit as int == (if o + len <= wl {
                wl
            } else if span < MAX_ALLOWED_BUFFER_SIZE {
                o + len
            } else {
                bo + MAX_ALLOWED_BUFFER_SIZE
            }))
            &&& (pre.segments_info@.len() < MAX_SEGMENTS_INFO_COUNT ==> seq_inserted(
                pre.segments_info@,
                post.segments_info@,
                SegmentInfo {
                    offset: o as u64,
                    reverse_acked: pre.reverse_acked,
                    extra,
                    data: SegmentType::Data { len: le as usize, is_retransmit: dup },
                },
            ))
            &&& (pre.segments_info@.len() >= MAX_SEGMENTS_INFO_COUNT ==> post.segments_info
                == pre.segments_info)
            &&& post.highest_acked == pre.highest_acked
            &&& post.reverse_acked == pre.reverse_acked
            &&& post.has_ended == pre.has_ended
            &&& post.had_reset == pre.had_reset
            &&& post.gaps_length == pre.gaps_length
            &&& post.got_window_scale == pre.got_window_scale
            &&& post.initial_sequence_number == pre.initial_sequence_number
        }))
    }))
}

/// Everything [`Stream::set_isn`] guarantees: the sequence window is reset
/// around the ISN, the offset mapping restarts at it, and the window limit
/// is derived from the advertised window under the current scale, capped at
/// the buffer bound. All other fields keep their values.
#[verifier::opaque]
pub open spec fn set_isn_post(pre: Stream, post: Stream, isn: u32, window_size: u16) -> bool {
    &&& post.initial_sequence_number == isn
    &&& post.seq_offset == SeqOffset::Initial(isn)
    &&& post.seq_window_start == isn
    &&& post.seq_window_end as int == seq_add(isn, SEQ_WINDOW_SIZE)
    &&& post.state.window_limit as int == (if window_size * two_to(pre.window_scale as nat)
        < MAX_ALLOWED_BUFFER_SIZE {
        (window_size * two_to(pre.window_scale as nat)) as int
    } else {
        MAX_ALLOWED_BUFFER_SIZE as int
    })
    &&& post.state == (crate::inbound::StreamInboundState {
        window_limit: post.state.window_limit,
        ..pre.state
    })
    &&& post == (Stream {
        initial_sequence_number: post.initial_sequence_number,
        seq_offset: post.seq_offset,
        seq_window_start: post.seq_window_start,
        seq_window_end: post.seq_window_end,
        state: post.state,
        ..pre
    })
}

/// Everything [`Stream::handle_ack_packet`] guarantees: how one
/// acknowledgment at `ack` advertising `window` turns `pre` into `post`.
#[verifier::opaque]
pub open spec fn ack_packet_post(
    pre: Stream,
    post: Stream,
    ack: u32,
    window: u16,
    extra: PacketExtra,
    r: bool,
) -> bool {
    &&& r == resolves(pre, ack)
    &&& post.has_ended == (pre.has_ended || ack_ends(pre, ack))
    &&& post.highest_acked >= pre.highest_acked
    &&& (!resolves(pre, ack) ==> post == pre)
    &&& (resolves(pre, ack) ==> ({
        let o = pre.spec_abs_offset(ack);
        let rw = window * two_to(pre.window_scale as nat);
        let ha = if o > pre.highest_acked {
            o
        } else {
            pre.highest_acked as int
        };
        let limit = clamp64(o + rw);
        let bo = pre.state.buffer_offset as int;
        let wl = pre.state.window_limit as int;
        &&& window_tracked(pre, post, ack)
        &&& post.highest_acked == ha
        &&& post.has_ended == (pre.has_ended || (pre.state.final_offset matches Some(fo) && ha
            > fo))
        &&& post.state.window_limit as int == (if limit > wl {
            if limit - bo > MAX_ALLOWED_BUFFER_SIZE {
                bo + MAX_ALLOWED_BUFFER_SIZE
            } else {
                limit
            }
        } else {
            wl
        })
        &&& post.state == (StreamInboundState { window_limit: post.state.window_limit, ..pre.state })
        &&& (pre.segments_info@.len() < MAX_SEGMENTS_INFO_COUNT ==> seq_inserted(
            pre.segments_info@,
            post.segments_info@,
            SegmentInfo {
                offset: o as u64,
                reverse_acked: pre.reverse_acked,
                extra,
                data: SegmentType::Ack { window: rw as usize },
            },
        ))
        &&& (pre.segments_info@.len() >= MAX_SEGMENTS_INFO_COUNT ==> post.segments_info
            == pre.segments_info)
        &&& post.retransmit_count == pre.retransmit_count
        &&& post.reverse_acked == pre.reverse_acked
        &&& post.had_reset == pre.had_reset
        &&& post.gaps_length == pre.gaps_length
        &&& post.got_window_scale == pre.got_window_scale
        &&& post.window_scale == pre.window_scale
        &&& post.initial_sequence_number == pre.initial_sequence_number
    }))
}

/// Everything [`Stream::handle_fin_packet`] guarantees: how a FIN at `seq`
/// over `data_len` payload bytes turns `pre` into `post`.
#[verifier::opaque]
pub open spec fn fin_packet_post(
    pre: Stream,
    post: Stream,
    seq: u32,
    data_len: int,
    extra: PacketExtra,
    r: bool,
) -> bool {
    &&& r == resolves(pre, seq)
    &&& post.has_ended == pre.has_ended
    &&& post.highest_acked == pre.highest_acked
    &&& (!resolves(pre, seq) ==> post == pre)
    &&& (resolves(pre, seq) ==> ({
        let o = pre.spec_abs_offset(seq);
        let fin = clamp64(o + data_len);
        &&& window_tracked(pre, post, seq)
        &&& post.state.final_offset == (if pre.state.final_offset is None {
            Some(fin as u64)
        } else {
            pre.state.final_offset
        })
        &&& post.state == (StreamInboundState { final_offset: post.state.final_offset, ..pre.state })
        &&& (pre.segments_info@.len() < MAX_SEGMENTS_INFO_COUNT ==> seq_inserted(
            pre.segments_info@,
            post.segments_info@,
            SegmentInfo {
                offset: o as u64,
                reverse_acked: pre.reverse_acked,
                extra,
                data: SegmentType::Fin { end_offset: fin as u64 },
            },
        ))
        &&& (pre.segments_info@.len() >= MAX_SEGMENTS_INFO_COUNT ==> post.segments_info
            == pre.segments_info)
        &&& post.retransmit_count == pre.retransmit_count
        &&& post.gaps_length == pre.gaps_length
        &&& post.reverse_acked == pre.reverse_acked
        &&& post.had_reset == pre.had_reset
        &&& post.got_window_scale == pre.got_window_scale
        &&& post.window_scale == pre.window_scale
        &&& post.initial_sequence_number == pre.initial_sequence_number
    }))
}

/// Everything [`Stream::handle_rst_packet`] guarantees: a believed reset
/// only queues its metadata record; a disbelieved one changes nothing.
#[verifier::opaque]
pub open spec fn rst_packet_post(
    pre: Stream,
    post: Stream,
    seq: u32,
    extra: PacketExtra,
    r: bool,
) -> bool {
    &&& r == rst_accepted(pre, seq)
    &&& (!r ==> post == pre)
    &&& (r ==> ({
        let o = pre.spec_abs_offset(seq);
        &&& post.state == pre.state
        &&& (pre.segments_info@.len() < MAX_SEGMENTS_INFO_COUNT ==> seq_inserted(
            pre.segments_info@,
            post.segments_info@,
            SegmentInfo {
                offset: o as u64,
                reverse_acked: pre.reverse_acked,
                extra,
                data: SegmentType::Rst,
            },
        ))
        &&& post == (Stream {
            segments_info: post.segments_info,
            segments_info_dropped: post.segments_info_dropped,
            ..pre
        })
    }))
}

/// Unidirectional stream of a connection.
pub struct Stream {
    /// Initial sequence number.
    pub initial_sequence_number: u32,
    /// Mapping from packet sequence numbers to absolute stream offsets.
    pub seq_offset: SeqOffset,
    /// Window scale shift.
    pub window_scale: u8,
    /// Whether the window scale was observed (if not, it may be estimated).
    pub got_window_scale: bool,
    /// Inbound reassembly state.
    pub state: StreamInboundState,
    /// Lowest acceptable sequence number of the current window.
    pub seq_window_start: u32,
    /// Highest acceptable sequence number of the current window, plus one.
    pub seq_window_end: u32,
    /// Highest absolute offset at which an ack was seen.
    pub highest_acked: u64,
    /// Snapshot of the opposite stream's `highest_acked`.
    pub reverse_acked: u64,
    /// Whether a validated reset happened in this direction.
    pub had_reset: bool,
    /// Whether the FIN of this stream was acked.
    pub has_ended: bool,
    /// Total bytes skipped over as gaps.
    pub gaps_length: u64,
    /// Number of detected retransmissions.
    pub retransmit_count: usize,
    /// Segment metadata, sorted by [`seg_le`].
    pub segments_info: Vec<SegmentInfo>,
    /// Number of entries dropped because the metadata queue was full.
    pub segments_info_dropped: usize,
}

impl Stream {
    /// Structural invariant of a stream.
    pub open spec fn wf(&self) -> bool {
        &&& self.state.wf()
        &&& self.window_scale <= 14
        &&& segs_sorted(self.segments_info@)
        &&& self.state.window_limit as int <= self.state.buffer_offset
            + MAX_ALLOWED_BUFFER_SIZE
        &&& (self.seq_offset matches SeqOffset::Initial(isn) ==> self.seq_window_start >= isn)
        &&& (self.seq_window_end as int == seq_add(self.seq_window_start, SEQ_WINDOW_SIZE) || (
        self.seq_window_start == 0 && self.seq_window_end == 0))
    }

    /// The absolute offset the stream currently assigns to sequence number
    /// `n`: sequence numbers in the low, wrapped-around part of the window
    /// account for one further turn of the sequence space.
    pub open spec fn spec_abs_offset(&self, n: u32) -> int {
        if self.seq_window_start < self.seq_window_end || n >= self.seq_window_start {
            self.seq_offset.spec_absolute(n)
        } else {
            self.seq_offset.spec_absolute(n) + SEQ_SPACE
        }
    }

    /// Create a new stream with an empty window at sequence number zero.
    pub fn new() -> (r: Stream)
        ensures
            r.wf(),
            r.initial_sequence_number == 0,
            r.seq_offset == SeqOffset::Initial(0u32),
            r.window_scale == 0,
            !r.got_window_scale,
            r.state.window_limit == 0,
            r.state.buffer_offset == 0,
            r.state.buffer@.len() == 0,
            r.state.received@ == Seq::<(u64, u64)>::empty(),
            r.state.final_offset is None,
            r.state.is_reliable,
            r.seq_window_start == 0,
            r.seq_window_end == 0,
            r.highest_acked == 0,
            r.reverse_acked == 0,
            !r.had_reset,
            !r.has_ended,
            r.gaps_length == 0,
            r.retransmit_count == 0,
            r.segments_info@ == Seq::<SegmentInfo>::empty(),
            r.segments_info_dropped == 0,
    {
        Stream {
            initial_sequence_number: 0,
            seq_offset: SeqOffset::Initial(0),
            window_scale: 0,
            got_window_scale: false,
            state: StreamInboundState::new(0, true),
            seq_window_start: 0,
            seq_window_end: 0,
            highest_acked: 0,
            reverse_acked: 0,
            had_reset: false,
            has_ended: false,
            gaps_length: 0,
            retransmit_count: 0,
            segments_info: Vec::new(),
            segments_info_dropped: 0,
        }
    }

    /// Number of bytes buffered and readable from the buffer start: the
    /// contiguous run from `buffer_offset` to the end of the first received
    /// range, or zero while a gap still sits at the front.
    pub fn readable_buffered_length(&self) -> (r: usize)
        requires
            self.wf(),
        ensures
            r == (if self.state.received@.len() == 0 || self.state.received@[0].0
                > self.state.buffer_offset {
                0int
            } else {
                self.state.received@[0].1 - self.state.buffer_offset
            }),
    {
        let buffer_len: usize = self.state.buffer.len();
        proof {
            if self.state.received@.len() > 0 {
                self.lemma_first_range_spans_buffer_start();
            }
        }
        match self.state.received.peek_first() {
            Some((start, end)) => {
                if start <= self.state.buffer_offset {
                    (end - self.state.buffer_offset) as usize
                } else {
                    0
                }
            },
            None => 0,
        }
    }

    /// The first received range begins at or before the buffer start and
    /// reaches at least to it, and ends within the buffer.
    proof fn lemma_first_range_spans_buffer_start(&self)
        requires
            self.wf(),
            self.state.received@.len() > 0,
        ensures
            self.state.received@[0].1 >= self.state.buffer_offset,
            self.state.received@[0].1 <= self.state.buffer_offset + self.state.buffer@.len(),
    {
        let rs = self.state.received@;
        lemma_wf_ordered(rs);
        if self.state.buffer_offset > 0 {
            assert(ranges_cover(rs, self.state.buffer_offset - 1));
            let j = choose|j: int|
                0 <= j < rs.len() && (#[trigger] rs[j]).0 <= self.state.buffer_offset - 1
                    < rs[j].1;
            if j > 0 {
                assert(rs[j].0 > rs[0].1);
                assert(ranges_cover(rs, rs[0].1 as int));
            }
        }
        assert(ranges_cover(rs, rs[0].1 - 1)) by {
            assert(rs[0].0 <= rs[0].1 - 1 < rs[0].1);
        }
    }

    /// Total number of buffered bytes, readable or not.
    pub fn total_buffered_length(&self) -> (r: usize)
        ensures
            r == self.state.buffer@.len(),
    {
        self.state.buffer.len()
    }

    /// Absolute offset of the first buffered byte.
    pub fn buffer_start(&self) -> (r: u64)
        ensures
            r == self.state.buffer_offset,
    {
        self.state.buffer_offset
    }

    /// Record the window scale option; values above 14 are rejected.
    pub fn set_window_scale(&mut self, window_scale: u8) -> (r: bool)
        requires
            old(self).wf(),
        ensures
            final(self).wf(),
            r == (window_scale <= 14),
            r ==> *final(self) == (Stream {
                window_scale,
                got_window_scale: true,
                ..*old(self)
            }),
            !r ==> *final(self) == *old(self),
    {
        if window_scale > 14 {
            false
        } else {
            self.window_scale = window_scale;
            self.got_window_scale = true;
            true
        }
    }

    /// Update the sequence window and offset mapping for an observed
    /// sequence number, returning its absolute stream offset, or `None`
    /// when the number lies outside the current window (or its offset
    /// cannot be represented). Reset packets pass `should_advance = false`
    /// so that they can never slide the window.
    pub fn update_offset(&mut self, number: u32, should_advance: bool) -> (r: Option<u64>)
        requires
            old(self).wf(),
        ensures
            final(self).wf(),
            final(self).state == old(self).state,
            final(self).initial_sequence_number == old(self).initial_sequence_number,
            final(self).window_scale == old(self).window_scale,
            final(self).got_window_scale == old(self).got_window_scale,
            final(self).highest_acked == old(self).highest_acked,
            final(self).reverse_acked == old(self).reverse_acked,
            final(self).had_reset == old(self).had_reset,
            final(self).has_ended == old(self).has_ended,
            final(self).gaps_length == old(self).gaps_length,
            final(self).retransmit_count == old(self).retransmit_count,
            final(self).segments_info == old(self).segments_info,
            final(self).segments_info_dropped == old(self).segments_info_dropped,
            !should_advance ==> *final(self) == *old(self),
            (r is None) <==> (!seq_in_window(
                old(self).seq_window_start,
                old(self).seq_window_end,
                number,
            ) || old(self).spec_abs_offset(number) > u64::MAX),
            (r matches Some(o) ==> o == old(self).spec_abs_offset(number)),
            r is None ==> *final(self) == *old(self),
            should_advance && r is Some ==> window_tracked(*old(self), *final(self), number),
    {
        let start = self.seq_window_start;
        let end = self.seq_window_end;
        if start < end {
            // window does not wrap
            if !(number >= start && number < end) {
                None
            } else {
                let offset = match &self.seq_offset {
                    SeqOffset::Initial(isn) => (number - *isn) as u64,
                    SeqOffset::Subsequent(off) => {
                        if *off > u64::MAX - number as u64 {
                            return None;
                        }
                        number as u64 + *off
                    },
                };
                if should_advance && number - start > SEQ_WINDOW_ADVANCE_THRESHOLD {
                    self.seq_window_start = number - SEQ_WINDOW_ADVANCE_BY;
                    self.seq_window_end = self.seq_window_start.wrapping_add(SEQ_WINDOW_SIZE);
                    proof {
                        assert forall|m: u32|
                            seq_in_window(
                                self.seq_window_start,
                                self.seq_window_end,
                                m,
                            ) implies #[trigger] self.spec_abs_offset(m) == old(
                            self,
                        ).spec_abs_offset(number) - SEQ_WINDOW_ADVANCE_BY + seq_sub(
                            m,
                            self.seq_window_start,
                        ) by {}
                    }
                }
                Some(offset)
            }
        } else if number < start && number >= end {
            // window wraps and the number misses it
            None
        } else if number >= start {
            // high section of a wrapped window
            let offset = match &self.seq_offset {
                SeqOffset::Initial(isn) => (number - *isn) as u64,
                SeqOffset::Subsequent(off) => {
                    if *off > u64::MAX - number as u64 {
                        return None;
                    }
                    number as u64 + *off
                },
            };
            if should_advance && number - start > SEQ_WINDOW_ADVANCE_THRESHOLD {
                self.seq_window_start = number - SEQ_WINDOW_ADVANCE_BY;
                self.seq_window_end = self.seq_window_start.wrapping_add(SEQ_WINDOW_SIZE);
                proof {
                    assert forall|m: u32|
                        seq_in_window(
                            self.seq_window_start,
                            self.seq_window_end,
                            m,
                        ) implies #[trigger] self.spec_abs_offset(m) == old(self).spec_abs_offset(
                        number,
                    ) - SEQ_WINDOW_ADVANCE_BY + seq_sub(m, self.seq_window_start) by {}
                }
            }
            Some(offset)
        } else {
            // low section of a wrapped window: the sequence number has
            // rolled over, so one extra turn of the sequence space applies
            let rollover_offset = match &self.seq_offset {
                SeqOffset::Initial(isn) => SeqOffset::Subsequent(SEQ_SPACE - *isn as u64),
                SeqOffset::Subsequent(off) => {
                    if *off > u64::MAX - SEQ_SPACE {
                        return None;
                    }
                    SeqOffset::Subsequent(*off + SEQ_SPACE)
                },
            };
            let offset = match &rollover_offset {
                SeqOffset::Initial(_) => {
                    proof {
                        assert(false);
                    }
                    0
                },
                SeqOffset::Subsequent(off) => {
                    if *off > u64::MAX - number as u64 {
                        return None;
                    }
                    number as u64 + *off
                },
            };
            let bytes_from_start = number.wrapping_sub(start);
            if should_advance && bytes_from_start > SEQ_WINDOW_ADVANCE_THRESHOLD {
                self.seq_window_start = number.wrapping_sub(SEQ_WINDOW_ADVANCE_BY);
                self.seq_window_end = self.seq_window_start.wrapping_add(SEQ_WINDOW_SIZE);
                if self.seq_window_start < self.seq_window_end {
                    // rollover complete: move the offset mapping forward
                    self.seq_offset = rollover_offset;
                } else {
                    proof {
                        // the window stays wrapped only when the sequence
                        // number sat below the advance distance, which puts
                        // the new start above the old one
                        assert(number < start);
                        assert(number < end);
                        if number >= SEQ_WINDOW_ADVANCE_BY {
                            assert(self.seq_window_start == number - SEQ_WINDOW_ADVANCE_BY);
                            assert(self.seq_window_start >= 0x1_0000_0000 - SEQ_WINDOW_SIZE as int);
                            assert(end as int == start + SEQ_WINDOW_SIZE - 0x1_0000_0000);
                            assert(false);
                        }
                        assert(self.seq_window_start as int == number + 0x1_0000_0000
                            - SEQ_WINDOW_ADVANCE_BY);
                        assert(start < number + 0x1_0000_0000 - SEQ_WINDOW_ADVANCE_THRESHOLD);
                        assert(self.seq_window_start > start);
                    }
                }
                proof {
                    assert(seq_sub(number, start) == bytes_from_start);
                    assert forall|m: u32|
                        seq_in_window(
                            self.seq_window_start,
                            self.seq_window_end,
                            m,
                        ) implies #[trigger] self.spec_abs_offset(m) == old(self).spec_abs_offset(
                        number,
                    ) - SEQ_WINDOW_ADVANCE_BY + seq_sub(m, self.seq_window_start) by {}
                }
            }
            Some(offset)
        }
    }

    /// Set the initial sequence number and the receive window advertised
    /// with it, resetting the sequence window around the ISN.
    pub fn set_isn(&mut self, isn: u32, window_size: u16)
        requires
            old(self).wf(),
            // the limit derived from the handshake may never retreat
            old(self).state.window_limit as int <= (if window_size * two_to(
                old(self).window_scale as nat,
            ) < MAX_ALLOWED_BUFFER_SIZE {
                (window_size * two_to(old(self).window_scale as nat)) as int
            } else {
                MAX_ALLOWED_BUFFER_SIZE as int
            }),
        ensures
            final(self).wf(),
            set_isn_post(*old(self), *final(self), isn, window_size),
    {
        proof {
            reveal(set_isn_post);
        }
        self.initial_sequence_number = isn;
        self.seq_offset = SeqOffset::Initial(isn);
        self.seq_window_start = isn;
        self.seq_window_end = isn.wrapping_add(SEQ_WINDOW_SIZE);
        let m = scale_multiplier(self.window_scale);
        proof {
            assert(window_size * m <= 0xFFFF * 0x4000) by (nonlinear_arith)
                requires
                    window_size <= 0xFFFF,
                    m <= 0x4000,
            ;
        }
        let win: u64 = window_size as u64 * m;
        if win < MAX_ALLOWED_BUFFER_SIZE {
            self.state.set_limit(win);
        } else {
            self.state.set_limit(MAX_ALLOWED_BUFFER_SIZE);
        }
    }

    /// Queue a segment-info entry in its sorted position; once the queue
    /// is full, further entries are only counted as dropped.
    pub fn add_segment_info(&mut self, info: SegmentInfo) -> (r: bool)
        requires
            old(self).wf(),
        ensures
            final(self).wf(),
            r == (old(self).segments_info@.len() < MAX_SEGMENTS_INFO_COUNT),
            r ==> seq_inserted(old(self).segments_info@, final(self).segments_info@, info),
            r ==> final(self).segments_info_dropped == old(self).segments_info_dropped,
            !r ==> final(self).segments_info == old(self).segments_info,
            !r ==> final(self).segments_info_dropped as int == (if old(self).segments_info_dropped < usize::MAX {
                old(self).segments_info_dropped + 1
            } else {
                old(self).segments_info_dropped as int
            }),
            *final(self) == (Stream {
                segments_info: final(self).segments_info,
                segments_info_dropped: final(self).segments_info_dropped,
                ..*old(self)
            }),
    {
        let n: usize = self.segments_info.len();
        if n >= MAX_SEGMENTS_INFO_COUNT {
            if self.segments_info_dropped < usize::MAX {
                self.segments_info_dropped += 1;
            }
            return false;
        }
        let mut idx: usize = 0;
        while idx < n && (self.segments_info[idx].offset < info.offset
            || (self.segments_info[idx].offset == info.offset
                && self.segments_info[idx].reverse_acked <= info.reverse_acked))
            invariant
                *self == *old(self),
                old(self).wf(),
                0 <= idx <= n,
                n == self.segments_info@.len(),
                forall|k: int| 0 <= k < idx ==> seg_le(#[trigger] self.segments_info@[k], info),
            decreases n - idx,
        {
            idx += 1;
        }
        let ghost prev = self.segments_info@;
        let ghost gidx = idx as int;
        proof {
            assert forall|l: int| gidx <= l < prev.len() implies seg_le(
                info,
                #[trigger] prev[l],
            ) by {
                assert(!seg_le(prev[gidx], info));
                if l > gidx {
                    assert(seg_le(prev[gidx], prev[l]));
                }
            }
        }
        self.segments_info.insert(idx, info);
        proof {
            assert(self.segments_info@ == prev.insert(gidx, info));
            assert(seq_inserted(prev, self.segments_info@, info));
            let cur = self.segments_info@;
            assert forall|k: int, l: int| 0 <= k < l < cur.len() implies seg_le(
                #[trigger] cur[k],
                #[trigger] cur[l],
            ) by {
                if k < gidx && l < gidx {
                    assert(cur[k] == prev[k] && cur[l] == prev[l]);
                } else if k < gidx && l == gidx {
                    assert(cur[k] == prev[k] && cur[l] == info);
                } else if k < gidx && l > gidx {
                    assert(cur[k] == prev[k] && cur[l] == prev[l - 1]);
                } else if k == gidx {
                    assert(cur[k] == info && cur[l] == prev[l - 1]);
                } else {
                    assert(cur[k] == prev[k - 1] && cur[l] == prev[l - 1]);
                }
            }
        }
        true
    }

    /// Pop segment metadata in ascending order into `in_segments`, up to
    /// but not including an optional end offset; with `None`, pop all.
    pub fn pop_segments_until(&mut self, end_offset: Option<u64>, in_segments: &mut Vec<
        SegmentInfo,
    >)
        requires
            old(self).wf(),
        ensures
            final(self).wf(),
            *final(self) == (Stream { segments_info: final(self).segments_info, ..*old(self) }),
            exists|k: int|
                #![auto]
                0 <= k <= old(self).segments_info@.len() && final(self).segments_info@ == old(self).segments_info@.skip(k) && final(in_segments)@ == old(in_segments)@ + old(self).segments_info@.take(k) && (end_offset is Some ==> forall|j: int|
                    0 <= j < k ==> (#[trigger] old(self).segments_info@[j]).offset
                        < end_offset->Some_0) && (k == old(self).segments_info@.len() || (
                end_offset matches Some(e) && old(self).segments_info@[k].offset >= e)),
    {
        let ghost orig = old(self).segments_info@;
        let total: usize = self.segments_info.len();
        let mut k: usize = 0;
        loop
            invariant
                self.wf(),
                old(self).wf(),
                total == orig.len(),
                0 <= k <= total,
                self.segments_info@ == orig.skip(k as int),
                in_segments@ == old(in_segments)@ + orig.take(k as int),
                *self == (Stream { segments_info: self.segments_info, ..*old(self) }),
                end_offset is Some ==> forall|j: int|
                    0 <= j < k ==> (#[trigger] orig[j]).offset < end_offset->Some_0,
            ensures
                self.wf(),
                0 <= k <= orig.len(),
                self.segments_info@ == orig.skip(k as int),
                in_segments@ == old(in_segments)@ + orig.take(k as int),
                *self == (Stream { segments_info: self.segments_info, ..*old(self) }),
                end_offset is Some ==> forall|j: int|
                    0 <= j < k ==> (#[trigger] orig[j]).offset < end_offset->Some_0,
                k == orig.len() || (end_offset matches Some(e) && orig[k as int].offset >= e),
            decreases self.segments_info@.len(),
        {
            if self.segments_info.len() == 0 {
                proof {
                    assert(k == orig.len());
                }
                break ;
            }
            let first_offset = self.segments_info[0].offset;
            match end_offset {
                Some(e) => {
                    if first_offset >= e {
                        proof {
                            assert(orig[k as int].offset >= e);
                        }
                        break ;
                    }
                },
                None => {},
            }
            proof {
                assert(self.segments_info@.len() == orig.len() - k);
            }
            let popped = self.segments_info.remove(0);
            in_segments.push(popped);
            k += 1;
            proof {
                assert(self.segments_info@ =~= orig.skip(k as int));
                assert(in_segments@ =~= old(in_segments)@ + orig.take(k as int));
            }
        }
        proof {
            let kk = k as int;
            assert(0 <= kk <= old(self).segments_info@.len() && self.segments_info@ == old(self).segments_info@.skip(kk) && in_segments@ == old(in_segments)@ + old(self).segments_info@.take(kk));
        }
    }

    /// When the peer's window scale was never observed, try to infer the
    /// smallest scale that would make the advertised window reach
    /// `fit_end_offset`, and extend the window limit accordingly.
    #[verifier::rlimit(100)]
    #[verifier::spinoff_prover]
    pub fn estimate_window_scale(&mut self, fit_end_offset: u64) -> (r: bool)
        requires
            old(self).wf(),
            fit_end_offset > old(self).state.window_limit,
            fit_end_offset as int <= old(self).state.buffer_offset + MAX_ALLOWED_BUFFER_SIZE,
        ensures
            final(self).wf(),
            *final(self) == (Stream {
                window_scale: final(self).window_scale,
                state: final(self).state,
                ..*old(self)
            }),
            final(self).state == (StreamInboundState {
                window_limit: final(self).state.window_limit,
                ..old(self).state
            }),
            !r ==> *final(self) == *old(self),
            r ==> ({
                let ha = old(self).highest_acked as int;
                let wl = old(self).state.window_limit as int;
                let bo = old(self).state.buffer_offset as int;
                let wa = if wl > ha {
                    wl - ha
                } else {
                    0int
                };
                let u = wa / two_to(old(self).window_scale as nat) as int;
                let cand = ha + u * two_to(final(self).window_scale as nat);
                &&& old(self).window_scale <= final(self).window_scale < 14
                &&& wa >= 8
                &&& u >= 1
                &&& cand >= fit_end_offset
                &&& cand <= u64::MAX
                &&& (forall|tt: int|
                    old(self).window_scale <= tt < final(self).window_scale ==> ha + u
                        * #[trigger] two_to(tt as nat) < fit_end_offset)
                &&& final(self).state.window_limit as int == (if cand > bo
                    + MAX_ALLOWED_BUFFER_SIZE {
                    bo + MAX_ALLOWED_BUFFER_SIZE
                } else {
                    cand
                })
            }),
            // success is owed whenever some admissible scale exists
            ({
                let ha = old(self).highest_acked as int;
                let wl = old(self).state.window_limit as int;
                let wa = if wl > ha {
                    wl - ha
                } else {
                    0int
                };
                let u = wa / two_to(old(self).window_scale as nat) as int;
                (wa >= 8 && u >= 1 && exists|tt: int|
                    old(self).window_scale <= tt < 14 && fit_end_offset <= ha + u
                        * #[trigger] two_to(tt as nat) <= u64::MAX && (forall|t2: int|
                        old(self).window_scale <= t2 < tt ==> ha + u * #[trigger] two_to(
                            t2 as nat,
                        ) < fit_end_offset)) ==> r
            }),
    {
        let wl = self.state.window_limit;
        let ha = self.highest_acked;
        let wa: u64 = if wl > ha {
            wl - ha
        } else {
            0
        };
        if wa < 8 {
            return false;
        }
        let m0 = scale_multiplier(self.window_scale);
        let unscaled: u64 = wa / m0;
        if unscaled == 0 {
            return false;
        }
        let ghost s0 = self.window_scale;
        let mut try_scale: u8 = self.window_scale;
        let mut m: u64 = m0;
        loop
            invariant
                *self == *old(self),
                old(self).wf(),
                fit_end_offset > old(self).state.window_limit,
                fit_end_offset as int <= old(self).state.buffer_offset
                    + MAX_ALLOWED_BUFFER_SIZE,
                s0 == self.window_scale,
                wl == self.state.window_limit,
                ha == self.highest_acked,
                wa == (if wl > ha {
                    wl - ha
                } else {
                    0int
                }),
                wa >= 8,
                m0 == two_to(s0 as nat),
                unscaled == wa as int / two_to(s0 as nat) as int,
                unscaled >= 1,
                s0 <= try_scale <= 14,
                m == two_to(try_scale as nat),
                m <= 0x4000,
                forall|tt: int|
                    s0 <= tt < try_scale ==> ha + unscaled * #[trigger] two_to(tt as nat)
                        < fit_end_offset,
            decreases 15 - try_scale,
        {
            if try_scale >= 14 {
                proof {
                    assert forall|tt: int|
                        s0 <= tt < 14 implies ha + unscaled * #[trigger] two_to(tt as nat)
                        < fit_end_offset by {
                        assert(ha + unscaled * two_to(tt as nat) < fit_end_offset);
                    }
                }
                return false;
            }
            let cand_mul = match unscaled.checked_mul(m) {
                Some(p) => p,
                None => {
                    proof {
                        lemma_estimate_no_witness(
                            ha as int,
                            unscaled as int,
                            fit_end_offset as int,
                            s0 as int,
                            try_scale as int,
                        );
                    }
                    return false;
                },
            };
            let cand = match ha.checked_add(cand_mul) {
                Some(c) => c,
                None => {
                    proof {
                        lemma_estimate_no_witness(
                            ha as int,
                            unscaled as int,
                            fit_end_offset as int,
                            s0 as int,
                            try_scale as int,
                        );
                    }
                    return false;
                },
            };
            if cand < fit_end_offset {
                proof {
                    reveal_with_fuel(two_to, 16);
                    lemma_two_to_increases((try_scale + 1) as nat, 14nat);
                }
                try_scale = try_scale + 1;
                m = m * 2;
            } else {
                self.window_scale = try_scale;
                let bo = self.state.buffer_offset;
                let limit: u64 = if bo <= u64::MAX - MAX_ALLOWED_BUFFER_SIZE && cand > bo
                    + MAX_ALLOWED_BUFFER_SIZE {
                    bo + MAX_ALLOWED_BUFFER_SIZE
                } else {
                    cand
                };
                self.state.set_limit(limit);
                return true;
            }
        }
    }

    /// Handle a data packet: resolve its absolute offset, extend or cap the
    /// window as needed, write the new bytes, detect retransmits and queue
    /// the segment metadata. Returns whether any new data arrived.
    #[verifier::rlimit(100)]
    pub fn handle_data_packet(&mut self, sequence_number: u32, data: &[u8], extra: PacketExtra) -> (r:
        bool)
        requires
            old(self).wf(),
            data@.len() > 0,
        ensures
            final(self).wf(),
            data_packet_post(*old(self), *final(self), sequence_number, data@, extra, r),
    {
        proof {
            reveal(data_packet_post);
        }
        let dlen: usize = data.len();
        let offset = match self.update_offset(sequence_number, true) {
            Some(o) => o,
            None => {
                return false;
            },
        };
        let ghost mid = *self;
        let packet_end: u64 = match offset.checked_add(dlen as u64) {
            Some(e) => e,
            None => {
                return false;
            },
        };
        let mut eff_len: usize = dlen;
        if packet_end > self.state.window_limit {
            let span: u64 = packet_end.saturating_sub(self.state.buffer_offset);
            if span < MAX_ALLOWED_BUFFER_SIZE {
                // the window can be extended to fit the whole packet
                if !self.got_window_scale {
                    if !self.estimate_window_scale(packet_end) {
                        self.state.set_limit(packet_end);
                    }
                } else {
                    self.state.set_limit(packet_end);
                }
            } else {
                let max_offset: u64 = self.state.buffer_offset + MAX_ALLOWED_BUFFER_SIZE;
                if max_offset > offset {
                    // truncate the payload to what fits under the cap
                    eff_len = (max_offset - offset) as usize;
                    self.state.set_limit(max_offset);
                } else {
                    // not even the first byte fits
                    return false;
                }
            }
        }
        let result = self.state.receive_segment(offset, &data[0..eff_len]);
        let is_retransmit: bool = match result {
            ReceiveSegmentResult::Duplicate => {
                if self.retransmit_count < usize::MAX {
                    self.retransmit_count = self.retransmit_count + 1;
                }
                true
            },
            ReceiveSegmentResult::ExceedsWindow => {
                // ruled out: the window was extended or the payload capped
                proof {
                    assert(false);
                }
                true
            },
            ReceiveSegmentResult::Received => false,
        };
        self.add_segment_info(
            SegmentInfo {
                offset,
                reverse_acked: self.reverse_acked,
                extra,
                data: SegmentType::Data { len: eff_len, is_retransmit },
            },
        );
        proof {
            lemma_window_tracked_stable(*old(self), mid, *self, sequence_number);
        }
        !is_retransmit
    }

    /// Handle an acknowledgment: advance the highest acked offset, mark the
    /// stream ended once its FIN is acked, and extend the window limit from
    /// the advertised (scaled) window, capped at the buffer bound.
    #[verifier::rlimit(100)]
    pub fn handle_ack_packet(&mut self, acknowledgment_number: u32, window_size: u16, extra:
        PacketExtra) -> (r: bool)
        requires
            old(self).wf(),
        ensures
            final(self).wf(),
            ack_packet_post(
                *old(self),
                *final(self),
                acknowledgment_number,
                window_size,
                extra,
                r,
            ),
    {
        proof {
            reveal(ack_packet_post);
        }
        let offset = match self.update_offset(acknowledgment_number, true) {
            Some(o) => o,
            None => {
                return false;
            },
        };
        let ghost mid = *self;
        if offset > self.highest_acked {
            self.highest_acked = offset;
        }
        match self.state.final_offset {
            Some(final_seq) => {
                if self.highest_acked > final_seq {
                    self.has_ended = true;
                }
            },
            None => {},
        }
        let m = scale_multiplier(self.window_scale);
        proof {
            assert(window_size * m <= 0xFFFF * 0x4000) by (nonlinear_arith)
                requires
                    window_size <= 0xFFFF,
                    m <= 0x4000,
            ;
        }
        let real_window: u64 = window_size as u64 * m;
        let limit: u64 = offset.saturating_add(real_window);
        if limit > self.state.window_limit {
            let bo = self.state.buffer_offset;
            if limit.saturating_sub(bo) > MAX_ALLOWED_BUFFER_SIZE {
                self.state.set_limit(bo + MAX_ALLOWED_BUFFER_SIZE);
            } else {
                self.state.set_limit(limit);
            }
        }
        self.add_segment_info(
            SegmentInfo {
                offset,
                reverse_acked: self.reverse_acked,
                extra,
                data: SegmentType::Ack { window: real_window as usize },
            },
        );
        proof {
            lemma_window_tracked_stable(*old(self), mid, *self, acknowledgment_number);
        }
        true
    }

    /// Handle a FIN: record the final offset on first sight (later FINs are
    /// retransmits and never overwrite it) and queue the metadata.
    pub fn handle_fin_packet(&mut self, sequence_number: u32, data_len: usize, extra: PacketExtra) -> (r:
        bool)
        requires
            old(self).wf(),
        ensures
            final(self).wf(),
            fin_packet_post(
                *old(self),
                *final(self),
                sequence_number,
                data_len as int,
                extra,
                r,
            ),
    {
        proof {
            reveal(fin_packet_post);
        }
        let offset = match self.update_offset(sequence_number, true) {
            Some(o) => o,
            None => {
                return false;
            },
        };
        let ghost mid = *self;
        let fin_offset: u64 = offset.saturating_add(data_len as u64);
        match self.state.final_offset {
            None => {
                self.state.set_final_offset(fin_offset);
            },
            Some(_) => {
                // a repeated FIN is a retransmit; it never overwrites
            },
        }
        self.add_segment_info(
            SegmentInfo {
                offset,
                reverse_acked: self.reverse_acked,
                extra,
                data: SegmentType::Fin { end_offset: fin_offset },
            },
        );
        proof {
            lemma_window_tracked_stable(*old(self), mid, *self, sequence_number);
        }
        true
    }

    /// Handle a reset: believed only when its offset lies within a bounded
    /// distance of the highest acked offset. The sequence window is never
    /// advanced by a reset.
    pub fn handle_rst_packet(&mut self, sequence_number: u32, extra: PacketExtra) -> (r: bool)
        requires
            old(self).wf(),
        ensures
            final(self).wf(),
            rst_packet_post(*old(self), *final(self), sequence_number, extra, r),
    {
        proof {
            reveal(rst_packet_post);
        }
        let offset = match self.update_offset(sequence_number, false) {
            Some(o) => o,
            None => {
                return false;
            },
        };
        if offset >= self.highest_acked.saturating_sub(RESET_MAX_LOOKBEHIND as u64) && offset
            < self.highest_acked.saturating_add(RESET_MAX_LOOKAHEAD as u64) {
            self.add_segment_info(
                SegmentInfo {
                    offset,
                    reverse_acked: self.reverse_acked,
                    extra,
                    data: SegmentType::Rst,
                },
            );
            true
        } else {
            false
        }
    }

    /// Collect the gaps of `[buffer_offset, end_offset)` into `in_gaps`,
    /// accounting their total length.
    pub fn read_gaps_until(&mut self, end_offset: u64, in_gaps: &mut Vec<(u64, u64)>)
        requires
            old(self).wf(),
        ensures
            final(self).wf(),
            *final(self) == (Stream { gaps_length: final(self).gaps_length, ..*old(self) }),
            final(in_gaps)@.len() >= old(in_gaps)@.len(),
            final(in_gaps)@.take(old(in_gaps)@.len() as int) == old(in_gaps)@,
            wf_ranges(final(in_gaps)@.skip(old(in_gaps)@.len() as int)),
            forall|v: int|
                #[trigger] ranges_cover(final(in_gaps)@.skip(old(in_gaps)@.len() as int), v) == (
                old(self).state.buffer_offset <= v < end_offset && !old(self).state.abs_covered(
                    v,
                )),
            final(self).gaps_length as int == clamp64(
                old(self).gaps_length + sum_range_lens(
                    final(in_gaps)@.skip(old(in_gaps)@.len() as int),
                ),
            ),
    {
        let gaps: Vec<(u64, u64)> = self.state.received.range_complement(
            self.state.buffer_offset,
            end_offset,
        );
        let n: usize = gaps.len();
        let mut i: usize = 0;
        while i < n
            invariant
                old(self).wf(),
                0 <= i <= n,
                n == gaps@.len(),
                wf_ranges(gaps@),
                forall|v: int|
                    #[trigger] ranges_cover(gaps@, v) == (old(self).state.buffer_offset <= v
                        < end_offset && !old(self).state.abs_covered(v)),
                *self == (Stream { gaps_length: self.gaps_length, ..*old(self) }),
                in_gaps@ == old(in_gaps)@ + gaps@.take(i as int),
                self.gaps_length as int == clamp64(
                    old(self).gaps_length + sum_range_lens(gaps@.take(i as int)),
                ),
            decreases n - i,
        {
            let (gs, ge) = gaps[i];
            in_gaps.push((gs, ge));
            self.gaps_length = self.gaps_length.saturating_add(ge - gs);
            i += 1;
            proof {
                lemma_sum_take_step(gaps@, i - 1);
                assert(in_gaps@ =~= old(in_gaps)@ + gaps@.take(i as int));
            }
        }
        proof {
            assert(gaps@.take(n as int) =~= gaps@);
            assert(in_gaps@.take(old(in_gaps)@.len() as int) =~= old(in_gaps)@);
            assert(in_gaps@.skip(old(in_gaps)@.len() as int) =~= gaps@);
        }
    }

    /// Read the bytes `[buffer_offset, end_offset)`, first marking that
    /// whole span as received so the remaining gaps are never re-reported.
    /// The buffer itself is not consumed; [`Stream::consume_until`] does that.
    #[verifier::rlimit(100)]
    pub fn read_buffer_until(&mut self, end_offset: u64) -> (r: Option<Vec<u8>>)
        requires
            old(self).wf(),
        ensures
            final(self).wf(),
            (r is None) <==> (end_offset <= old(self).state.buffer_offset || end_offset - old(self).state.buffer_offset > old(self).state.buffer@.len()),
            r is None ==> *final(self) == *old(self),
            (r matches Some(v) ==> ({
                &&& v@.len() == end_offset - old(self).state.buffer_offset
                &&& (forall|k: int|
                    0 <= k < v@.len() ==> v@[k] == #[trigger] old(self).state.byte_at(
                        old(self).state.buffer_offset + k,
                    ))
                &&& (forall|p: int|
                    #[trigger] final(self).state.abs_covered(p) == (old(self).state.abs_covered(p)
                        || 0 <= p < end_offset))
                &&& final(self).state.buffer == old(self).state.buffer
                &&& final(self).state.buffer_offset == old(self).state.buffer_offset
                &&& final(self).state.window_limit == old(self).state.window_limit
                &&& final(self).state.final_offset == old(self).state.final_offset
                &&& final(self).state.message_offsets == old(self).state.message_offsets
                &&& final(self).state.is_reliable == old(self).state.is_reliable
                &&& *final(self) == (Stream { state: final(self).state, ..*old(self) })
            })),
    {
        let start_offset = self.state.buffer_offset;
        if end_offset <= start_offset {
            return None;
        }
        if end_offset - start_offset > self.state.buffer.len() as u64 {
            return None;
        }
        // treat the whole span as received: remaining holes are gaps the
        // caller has already been told about
        proof {
            crate::range_set::lemma_range_count_bound(
                self.state.received@,
                self.state.buffer_offset as int,
                self.state.buffer@.len() as int,
            );
        }
        let inserted = self.state.received.insert_range(0, end_offset);
        proof {
            assert(inserted);
        }
        let res = self.state.read_segment(start_offset, end_offset);
        match res {
            Some(v) => {
                proof {
                    assert(self.state.buffer == old(self).state.buffer);
                    assert forall|k: int| 0 <= k < v@.len() implies v@[k] == #[trigger] old(
                        self,
                    ).state.byte_at(old(self).state.buffer_offset + k) by {
                        assert(v@[k] == self.state.byte_at(start_offset as int + k));
                    }
                }
                Some(v)
            },
            None => {
                proof {
                    crate::range_set::lemma_contiguous_cover(
                        self.state.received@,
                        start_offset as int,
                        end_offset as int,
                    );
                    assert(false);
                }
                None
            },
        }
    }

    /// Drop the consumed bytes below `end_offset` from the buffer.
    pub fn consume_until(&mut self, end_offset: u64)
        requires
            old(self).wf(),
            end_offset >= old(self).state.buffer_offset,
        ensures
            final(self).wf(),
            *final(self) == (Stream { state: final(self).state, ..*old(self) }),
            final(self).state.buffer_offset == end_offset,
            final(self).state.window_limit == old(self).state.window_limit,
            final(self).state.final_offset == old(self).state.final_offset,
            final(self).state.is_reliable == old(self).state.is_reliable,
            forall|x: u64|
                #[trigger] final(self).state.message_offsets@.contains(x) == (old(
                    self,
                ).state.message_offsets@.contains(x) && x >= end_offset),
            forall|v: int|
                #[trigger] final(self).state.abs_covered(v) == (old(self).state.abs_covered(v) || 0
                    <= v < end_offset),
            final(self).state.buffer@.len() == (if old(self).state.buffer@.len() >= end_offset
                - old(self).state.buffer_offset {
                old(self).state.buffer@.len() - (end_offset - old(self).state.buffer_offset)
            } else {
                0int
            }),
            forall|v: int|
                final(self).state.in_buffer_window(v) ==> #[trigger] final(self).state.byte_at(v)
                    == old(self).state.byte_at(v),
    {
        self.state.advance_buffer(end_offset);
    }
}

/// Law: exactly one retransmit is counted per data segment whose whole
/// range was already received, and none for a segment that brings any new
/// byte; the fully-duplicated segment reports no new data. Stated for
/// segments that fit under the window limit with the counter not yet
/// saturated.
pub proof fn lemma_retransmit_counted_once(
    pre: Stream,
    post: Stream,
    seq: u32,
    data: Seq<u8>,
    extra: PacketExtra,
    r: bool,
)
    requires
        data.len() > 0,
        resolves(pre, seq),
        pre.spec_abs_offset(seq) + data.len() <= pre.state.window_limit,
        pre.retransmit_count < usize::MAX,
        data_packet_post(pre, post, seq, data, extra, r),
    ensures
        ranges_cover_range(
            pre.state.received@,
            pre.spec_abs_offset(seq),
            pre.spec_abs_offset(seq) + data.len(),
        ) ==> post.retransmit_count == pre.retransmit_count + 1 && r == false,
        !ranges_cover_range(
            pre.state.received@,
            pre.spec_abs_offset(seq),
            pre.spec_abs_offset(seq) + data.len(),
        ) ==> post.retransmit_count == pre.retransmit_count && r == true,
{
    reveal(data_packet_post);
}

} // verus!
