//! Per-direction reassembly state: an offset-indexed byte buffer, the set of
//! received ranges, a window limit and an optional final offset.
//!
//! Invariants held across every operation:
//! 1. `window_limit - buffer_offset` never exceeds [`MAX_BUFFER_SPAN`], so
//!    the buffer stays safely allocatable;
//! 2. `received` covers the whole of `[0, buffer_offset)`;
//! 3. `received` covers nothing at or past `buffer_offset + buffer.len()`;
//! 4. message markers are sorted and never lie below `buffer_offset`.

use vstd::prelude::*;

use crate::range_set::{
    lemma_contiguous_cover, lemma_cover_push, lemma_range_count_bound, lemma_wf_ordered,
    ranges_cover, ranges_cover_range, wf_ranges, RangeSet,
};
use crate::ring_buffer::RingBuf;

verus! {

/// Largest allowed distance from `buffer_offset` to `window_limit`: the
/// buffer can never be asked to grow beyond this many bytes.
pub const MAX_BUFFER_SPAN: u64 = 0x7fff_ffff;

/// Result of [`StreamInboundState::receive_segment`].
#[derive(PartialEq, Eq, Structural, Debug)]
pub enum ReceiveSegmentResult {
    /// Some or all of the segment is new and has been written.
    Received,
    /// All of the segment had already been received; nothing changed.
    Duplicate,
    /// The segment exceeds the window limit; nothing changed.
    ExceedsWindow,
}

/// Membership in a sequence of offsets after appending one element.
proof fn lemma_offsets_contains_push(s: Seq<u64>, p: u64)
    ensures
        forall|x: u64| #[trigger] s.push(p).contains(x) == (s.contains(x) || x == p),
{
    assert forall|x: u64| #[trigger] s.push(p).contains(x) == (s.contains(x) || x == p) by {
        if s.contains(x) {
            let k = choose|k: int| 0 <= k < s.len() && s[k] == x;
            assert(s.push(p)[k] == x);
        }
        assert(s.push(p)[s.len() as int] == p);
        if s.push(p).contains(x) {
            let k = choose|k: int| 0 <= k < s.push(p).len() && s.push(p)[k] == x;
            if k < s.len() {
                assert(s[k] == x);
            }
        }
    }
}

/// Membership in a sequence of offsets after inserting one element.
proof fn lemma_offsets_contains_insert(s: Seq<u64>, i: int, p: u64)
    requires
        0 <= i <= s.len(),
    ensures
        forall|x: u64| #[trigger] s.insert(i, p).contains(x) == (s.contains(x) || x == p),
{
    let t = s.insert(i, p);
    assert forall|x: u64| #[trigger] t.contains(x) == (s.contains(x) || x == p) by {
        if s.contains(x) {
            let k = choose|k: int| 0 <= k < s.len() && s[k] == x;
            if k < i {
                assert(t[k] == x);
            } else {
                assert(t[k + 1] == x);
            }
            assert(t.contains(x));
        }
        assert(t[i] == p);
        if t.contains(x) {
            let k = choose|k: int| 0 <= k < t.len() && t[k] == x;
            if k < i {
                assert(s[k] == x);
                assert(s.contains(x));
            } else if k > i {
                assert(s[k - 1] == x);
                assert(s.contains(x));
            }
        }
    }
}

/// One step of the gap-copy loop in `receive_segment`: after overwriting
/// the window of gap `g` with the matching slice of `data`, the buffer
/// reflects the first `g + 1` gaps.
proof fn lemma_gap_write_step(
    mid_buf: Seq<u8>,
    before: Seq<u8>,
    after: Seq<u8>,
    data: Seq<u8>,
    gaps: Seq<(u64, u64)>,
    g: int,
    bo: int,
    offset: int,
)
    requires
        0 <= g < gaps.len(),
        before.len() == mid_buf.len(),
        after.len() == before.len(),
        offset <= gaps[g].0 < gaps[g].1,
        bo <= gaps[g].0,
        gaps[g].1 - bo <= before.len(),
        forall|k: int|
            gaps[g].0 - bo <= k < gaps[g].1 - bo ==> #[trigger] after[k] == data[bo + k - offset],
        forall|k: int|
            0 <= k < before.len() && !(gaps[g].0 - bo <= k < gaps[g].1 - bo)
                ==> #[trigger] after[k] == before[k],
        forall|k: int|
            0 <= k < before.len() ==> #[trigger] before[k] == (if ranges_cover(
                gaps.take(g),
                bo + k,
            ) {
                data[bo + k - offset]
            } else {
                mid_buf[k]
            }),
    ensures
        forall|k: int|
            0 <= k < after.len() ==> #[trigger] after[k] == (if ranges_cover(
                gaps.take(g + 1),
                bo + k,
            ) {
                data[bo + k - offset]
            } else {
                mid_buf[k]
            }),
{
    lemma_cover_push(gaps.take(g), gaps[g]);
    assert(gaps.take(g + 1) =~= gaps.take(g).push(gaps[g]));
    assert forall|k: int|
        0 <= k < after.len() implies #[trigger] after[k] == (if ranges_cover(
        gaps.take(g + 1),
        bo + k,
    ) {
        data[bo + k - offset]
    } else {
        mid_buf[k]
    }) by {
        let v = bo + k;
        assert(ranges_cover(gaps.take(g + 1), v) == (ranges_cover(gaps.take(g), v) || (gaps[g].0
            <= v < gaps[g].1)));
        if gaps[g].0 - bo <= k < gaps[g].1 - bo {
            assert(after[k] == data[bo + k - offset]);
        } else {
            assert(after[k] == before[k]);
        }
    }
}

/// Stream inbound buffer.
pub struct StreamInboundState {
    /// Buffer for received data, holding the bytes at absolute offsets
    /// `[buffer_offset, buffer_offset + buffer.len())`.
    pub buffer: RingBuf<u8>,
    /// Absolute stream offset of the first byte in `buffer`.
    pub buffer_offset: u64,
    /// Set of absolute offset ranges received so far.
    pub received: RangeSet,
    /// Absolute offsets at which messages begin, ascending.
    pub message_offsets: Vec<u64>,
    /// Whether the stream is operating in reliable mode.
    pub is_reliable: bool,
    /// Highest acceptable absolute offset plus one.
    pub window_limit: u64,
    /// Final length of the stream (offset of the last byte plus one).
    pub final_offset: Option<u64>,
}

impl StreamInboundState {
    /// Structural invariant of the inbound state.
    pub open spec fn wf(&self) -> bool {
        &&& self.received.wf()
        &&& self.received.cap() == usize::MAX
        &&& self.window_limit as int - self.buffer_offset as int <= MAX_BUFFER_SPAN as int
        &&& forall|v: int| 0 <= v < self.buffer_offset ==> ranges_cover(self.received@, v)
        &&& forall|v: int|
            v >= self.buffer_offset + self.buffer@.len() ==> !ranges_cover(self.received@, v)
        &&& forall|k: int, l: int|
            0 <= k < l < self.message_offsets@.len() ==> self.message_offsets@[k]
                < self.message_offsets@[l]
        &&& forall|k: int|
            0 <= k < self.message_offsets@.len() ==> self.message_offsets@[k]
                >= self.buffer_offset
    }

    /// Whether the absolute offset `v` has been received.
    pub open spec fn abs_covered(&self, v: int) -> bool {
        ranges_cover(self.received@, v)
    }

    /// Whether the absolute offset `v` currently lies in the buffer.
    pub open spec fn in_buffer_window(&self, v: int) -> bool {
        self.buffer_offset <= v < self.buffer_offset + self.buffer@.len()
    }

    /// The buffered byte at absolute offset `v`.
    pub open spec fn byte_at(&self, v: int) -> u8 {
        self.buffer@[v - self.buffer_offset]
    }

    /// Create a new instance with the given initial window limit.
    pub fn new(initial_window_limit: u64, is_reliable: bool) -> (r: StreamInboundState)
        requires
            initial_window_limit <= MAX_BUFFER_SPAN,
        ensures
            r.wf(),
            r.buffer@.len() == 0,
            r.buffer_offset == 0,
            r.received@ == Seq::<(u64, u64)>::empty(),
            r.message_offsets@ == Seq::<u64>::empty(),
            r.is_reliable == is_reliable,
            r.window_limit == initial_window_limit,
            r.final_offset is None,
    {
        StreamInboundState {
            buffer: RingBuf::new(),
            buffer_offset: 0,
            received: RangeSet::unlimited(),
            message_offsets: Vec::new(),
            is_reliable,
            window_limit: initial_window_limit,
            final_offset: None,
        }
    }

    /// Process an incoming segment of `data` at absolute offset `offset`.
    ///
    /// Rejects segments past the window limit; reports fully-known segments
    /// as duplicates without touching anything; otherwise writes exactly the
    /// not-yet-received bytes of the segment into the buffer (extending it
    /// with zeroes as needed) and records the whole segment as received, so
    /// that bytes already present always keep their first-written value.
    #[verifier::rlimit(100)]
    pub fn receive_segment(&mut self, offset: u64, data: &[u8]) -> (r: ReceiveSegmentResult)
        requires
            old(self).wf(),
            data@.len() > 0,
        ensures
            final(self).wf(),
            final(self).buffer_offset == old(self).buffer_offset,
            final(self).window_limit == old(self).window_limit,
            final(self).final_offset == old(self).final_offset,
            final(self).is_reliable == old(self).is_reliable,
            final(self).message_offsets == old(self).message_offsets,
            (r is ExceedsWindow) <==> offset + data@.len() > old(self).window_limit,
            (r is Duplicate) <==> (offset + data@.len() <= old(self).window_limit
                && ranges_cover_range(
                old(self).received@,
                offset as int,
                offset + data@.len(),
            )),
            r is ExceedsWindow || r is Duplicate ==> *final(self) == *old(self),
            r is Received ==> {
                let tail = offset + data@.len();
                let old_end = old(self).buffer_offset + old(self).buffer@.len();
                &&& (forall|v: int|
                    #[trigger] final(self).abs_covered(v) == (old(self).abs_covered(v) || (offset
                        <= v < tail)))
                &&& final(self).buffer@.len() == (if tail - old(self).buffer_offset > old(self).buffer@.len() {
                    tail - old(self).buffer_offset
                } else {
                    old(self).buffer@.len() as int
                })
                &&& (forall|v: int|
                    offset <= v < tail && !old(self).abs_covered(v) ==> #[trigger] final(self).byte_at(v) == data@[v - offset])
                &&& (forall|v: int|
                    old(self).in_buffer_window(v) && !(offset <= v < tail && !old(self).abs_covered(v)) ==> #[trigger] final(self).byte_at(v) == old(self).byte_at(
                        v,
                    ))
                &&& (forall|v: int|
                    final(self).in_buffer_window(v) && v >= old_end && !(offset <= v < tail
                        && !old(self).abs_covered(v)) ==> #[trigger] final(self).byte_at(v) == 0)
            },
    {
        let len_u64: u64 = data.len() as u64;
        let tail: u64 = match offset.checked_add(len_u64) {
            Some(t) => t,
            None => {
                return ReceiveSegmentResult::ExceedsWindow;
            },
        };
        if tail > self.window_limit {
            return ReceiveSegmentResult::ExceedsWindow;
        }
        if self.received.has_range(offset, tail) {
            return ReceiveSegmentResult::Duplicate;
        }
        proof {
            // a segment below the buffer start would be fully covered
            if tail <= self.buffer_offset {
                lemma_contiguous_cover(self.received@, offset as int, tail as int);
                assert(false);
            }
        }
        // make the buffer long enough, filling new space with zeroes
        let buffer_end: usize = (tail - self.buffer_offset) as usize;
        let old_len: usize = self.buffer.len();
        if buffer_end > old_len {
            self.buffer.fill_at_back(buffer_end - old_len, 0);
        }
        let ghost mid = *self;
        let blen: usize = self.buffer.len();
        let dlen: usize = data.len();
        // copy exactly the sub-ranges not yet received
        let gaps: Vec<(u64, u64)> = self.received.range_complement(offset, tail);
        let gap_count: usize = gaps.len();
        let mut g: usize = 0;
        while g < gap_count
            invariant
                forall|v: int| 0 <= v < mid.buffer_offset ==> ranges_cover(mid.received@, v),
                data@.len() > 0,
                offset + data@.len() == tail,
                tail <= mid.window_limit,
                tail > mid.buffer_offset,
                0 <= g <= gap_count,
                gap_count == gaps@.len(),
                dlen == data@.len(),
                wf_ranges(gaps@),
                forall|v: int|
                    #[trigger] ranges_cover(gaps@, v) == (offset <= v < tail && !ranges_cover(
                        mid.received@,
                        v,
                    )),
                self.buffer_offset == mid.buffer_offset,
                self.received == mid.received,
                self.message_offsets == mid.message_offsets,
                self.is_reliable == mid.is_reliable,
                self.window_limit == mid.window_limit,
                self.final_offset == mid.final_offset,
                blen == self.buffer@.len(),
                blen == mid.buffer@.len(),
                tail - mid.buffer_offset <= blen,
                forall|k: int|
                    0 <= k < blen ==> #[trigger] self.buffer@[k] == (if ranges_cover(
                        gaps@.take(g as int),
                        mid.buffer_offset + k,
                    ) {
                        data@[mid.buffer_offset + k - offset]
                    } else {
                        mid.buffer@[k]
                    }),
            decreases gap_count - g,
        {
            let (gs, ge) = gaps[g];
            proof {
                assert(ranges_cover(gaps@, gs as int)) by {
                    assert(gaps@[g as int].0 <= gs < gaps@[g as int].1);
                }
                assert(ranges_cover(gaps@, ge - 1)) by {
                    assert(gaps@[g as int].0 <= ge - 1 < gaps@[g as int].1);
                }
                // the gap start is not yet received, so it sits at or past
                // the buffer start
                assert(gs >= mid.buffer_offset) by {
                    if gs < mid.buffer_offset {
                        assert(ranges_cover(mid.received@, gs as int));
                    }
                }
            }
            proof {
                assert(offset <= gs < tail);
                assert(gs < ge <= tail);
                assert(gs - offset < dlen as u64 && ge - offset <= dlen as u64);
                assert(gs - mid.buffer_offset < blen as u64 && ge - mid.buffer_offset <= blen
                    as u64);
            }
            let bi: usize = (gs - self.buffer_offset) as usize;
            let ds: usize = (gs - offset) as usize;
            let glen: usize = (ge - gs) as usize;
            let ghost before = self.buffer@;
            self.buffer.write_range(bi, &data[ds..ds + glen]);
            g += 1;
            proof {
                lemma_gap_write_step(
                    mid.buffer@,
                    before,
                    self.buffer@,
                    data@,
                    gaps@,
                    g - 1,
                    mid.buffer_offset as int,
                    offset as int,
                );
            }
        }
        // record the whole segment as received
        proof {
            lemma_range_count_bound(
                self.received@,
                self.buffer_offset as int,
                self.buffer@.len() as int,
            );
        }
        let inserted = self.received.insert_range(offset, tail);
        proof {
            assert(inserted);
            assert(gaps@.take(gap_count as int) =~= gaps@);
            // previously received bytes inside the old buffer kept their value
            assert forall|v: int|
                old(self).in_buffer_window(v) && !(offset <= v < tail && !old(self).abs_covered(
                    v,
                )) implies #[trigger] self.byte_at(v) == old(self).byte_at(v) by {
                let k = v - mid.buffer_offset;
                if ranges_cover(gaps@, v) {
                    assert(offset <= v < tail && !ranges_cover(mid.received@, v));
                }
                assert(self.buffer@[k] == mid.buffer@[k]);
            }
            assert forall|v: int|
                offset <= v < tail && !old(self).abs_covered(v) implies #[trigger] self.byte_at(
                v,
            ) == data@[v - offset] by {
                assert(ranges_cover(gaps@, v));
                let gi = choose|gi: int|
                    0 <= gi < gaps@.len() && (#[trigger] gaps@[gi]).0 <= v < gaps@[gi].1;
                assert(gaps@[gi].0 <= v < gaps@[gi].1);
            }
            assert forall|v: int|
                self.in_buffer_window(v) && v >= old(self).buffer_offset + old(self).buffer@.len() && !(offset <= v < tail && !old(self).abs_covered(v)) implies #[trigger] self.byte_at(
                v,
            ) == 0 by {
                let k = v - mid.buffer_offset;
                if ranges_cover(gaps@, v) {
                    assert(offset <= v < tail && !ranges_cover(mid.received@, v));
                }
                assert(self.buffer@[k] == mid.buffer@[k]);
            }
        }
        ReceiveSegmentResult::Received
    }

    /// Advance the window limit; it never retreats and never exceeds the
    /// buffer span bound.
    pub fn set_limit(&mut self, new_limit: u64)
        requires
            old(self).wf(),
            new_limit >= old(self).window_limit,
            new_limit as int - old(self).buffer_offset as int <= MAX_BUFFER_SPAN as int,
        ensures
            final(self).wf(),
            final(self).window_limit == new_limit,
            final(self).buffer == old(self).buffer,
            final(self).buffer_offset == old(self).buffer_offset,
            final(self).received == old(self).received,
            final(self).message_offsets == old(self).message_offsets,
            final(self).is_reliable == old(self).is_reliable,
            final(self).final_offset == old(self).final_offset,
    {
        self.window_limit = new_limit;
    }

    /// Record that a message begins at `offset`; offsets already dropped
    /// from the buffer are ignored.
    pub fn set_message_marker(&mut self, offset: u64)
        requires
            old(self).wf(),
        ensures
            final(self).wf(),
            final(self).buffer == old(self).buffer,
            final(self).buffer_offset == old(self).buffer_offset,
            final(self).received == old(self).received,
            final(self).is_reliable == old(self).is_reliable,
            final(self).window_limit == old(self).window_limit,
            final(self).final_offset == old(self).final_offset,
            offset < old(self).buffer_offset ==> final(self).message_offsets == old(self).message_offsets,
            offset >= old(self).buffer_offset ==> forall|x: u64|
                #[trigger] final(self).message_offsets@.contains(x) == (old(self).message_offsets@.contains(x) || x == offset),
    {
        if offset < self.buffer_offset {
            return ;
        }
        let n: usize = self.message_offsets.len();
        let mut i: usize = 0;
        while i < n && self.message_offsets[i] < offset
            invariant
                *self == *old(self),
                old(self).wf(),
                0 <= i <= n,
                n == self.message_offsets@.len(),
                forall|k: int| 0 <= k < i ==> #[trigger] self.message_offsets@[k] < offset,
            decreases n - i,
        {
            i += 1;
        }
        if i < n && self.message_offsets[i] == offset {
            // already recorded
            proof {
                assert(old(self).message_offsets@.contains(offset));
            }
            return ;
        }
        proof {
            assert(forall|k: int|
                i <= k < n ==> #[trigger] self.message_offsets@[k] > offset);
        }
        let ghost prev = self.message_offsets@;
        self.message_offsets.insert(i, offset);
        proof {
            lemma_offsets_contains_insert(prev, i as int, offset);
        }
    }

    /// Record the sender's final offset; succeeds exactly on the first call.
    pub fn set_final_offset(&mut self, offset: u64) -> (r: bool)
        requires
            old(self).wf(),
        ensures
            final(self).wf(),
            r == (old(self).final_offset is None),
            final(self).final_offset == (if old(self).final_offset is None {
                Some(offset)
            } else {
                old(self).final_offset
            }),
            final(self).buffer == old(self).buffer,
            final(self).buffer_offset == old(self).buffer_offset,
            final(self).received == old(self).received,
            final(self).message_offsets == old(self).message_offsets,
            final(self).is_reliable == old(self).is_reliable,
            final(self).window_limit == old(self).window_limit,
    {
        if self.final_offset.is_some() {
            false
        } else {
            self.final_offset = Some(offset);
            true
        }
    }

    /// End of the first received range, if any: with the buffer-start
    /// invariant this is the end of the contiguous prefix.
    pub fn max_contiguous_offset(&self) -> (r: Option<u64>)
        ensures
            self.received@.len() == 0 ==> r is None,
            self.received@.len() > 0 ==> r == Some(self.received@[0].1),
    {
        match self.received.peek_first() {
            Some((_, end)) => Some(end),
            None => None,
        }
    }

    /// Advance the buffer start to `new_base`, dropping the bytes below it
    /// and recording `[0, new_base)` as received.
    #[verifier::rlimit(50)]
    pub fn advance_buffer(&mut self, new_base: u64)
        requires
            old(self).wf(),
            new_base >= old(self).buffer_offset,
        ensures
            final(self).wf(),
            final(self).buffer_offset == new_base,
            final(self).window_limit == old(self).window_limit,
            final(self).final_offset == old(self).final_offset,
            final(self).is_reliable == old(self).is_reliable,
            forall|v: int|
                #[trigger] final(self).abs_covered(v) == (old(self).abs_covered(v) || 0 <= v
                    < new_base),
            final(self).buffer@.len() == (if old(self).buffer@.len() >= new_base - old(self).buffer_offset {
                old(self).buffer@.len() - (new_base - old(self).buffer_offset)
            } else {
                0int
            }),
            forall|v: int|
                final(self).in_buffer_window(v) ==> #[trigger] final(self).byte_at(v) == old(self).byte_at(v),
            forall|x: u64|
                #[trigger] final(self).message_offsets@.contains(x) == (old(self).message_offsets@.contains(x) && x >= new_base),
    {
        if new_base == self.buffer_offset {
            proof {
                assert forall|x: u64|
                    #[trigger] self.message_offsets@.contains(x) implies x >= new_base by {
                    let k = choose|k: int|
                        0 <= k < self.message_offsets@.len() && self.message_offsets@[k] == x;
                    assert(self.message_offsets@[k] >= self.buffer_offset);
                }
            }
            return ;
        }
        let delta: u64 = new_base - self.buffer_offset;
        // shift the buffer forward
        let blen: usize = self.buffer.len();
        if (blen as u64) < delta {
            self.buffer.clear();
        } else {
            self.buffer.drain_front(delta as usize);
        }
        self.buffer_offset = new_base;
        // discard message offsets that fell below the new base
        let n: usize = self.message_offsets.len();
        let mut kept: Vec<u64> = Vec::new();
        let mut i: usize = 0;
        while i < n
            invariant
                0 <= i <= n,
                n == self.message_offsets@.len(),
                forall|k: int, l: int|
                    0 <= k < l < self.message_offsets@.len() ==> self.message_offsets@[k]
                        < self.message_offsets@[l],
                forall|k: int, l: int| 0 <= k < l < kept@.len() ==> kept@[k] < kept@[l],
                forall|k: int| 0 <= k < kept@.len() ==> #[trigger] kept@[k] >= new_base,
                forall|x: u64|
                    #[trigger] kept@.contains(x) == (self.message_offsets@.take(
                        i as int,
                    ).contains(x) && x >= new_base),
                kept@.len() > 0 ==> exists|k: int|
                    0 <= k < i && self.message_offsets@[k] == kept@.last(),
            decreases n - i,
        {
            let m = self.message_offsets[i];
            let ghost prev = kept@;
            if m >= new_base {
                proof {
                    if prev.len() > 0 {
                        let k = choose|k: int|
                            0 <= k < i && self.message_offsets@[k] == prev.last();
                        assert(self.message_offsets@[k] < m);
                    }
                }
                kept.push(m);
            }
            i += 1;
            proof {
                assert(self.message_offsets@.take(i as int) =~= self.message_offsets@.take(
                    i - 1,
                ).push(self.message_offsets@[i - 1]));
                lemma_offsets_contains_push(
                    self.message_offsets@.take(i - 1),
                    self.message_offsets@[i - 1],
                );
                if m >= new_base {
                    lemma_offsets_contains_push(prev, m);
                }
            }
        }
        proof {
            assert(self.message_offsets@.take(n as int) =~= self.message_offsets@);
        }
        self.message_offsets = kept;
        // mark everything prior as received
        proof {
            lemma_range_count_bound(
                self.received@,
                old(self).buffer_offset as int,
                old(self).buffer@.len() as int,
            );
        }
        let inserted = self.received.insert_range(0, new_base);
        proof {
            assert(inserted);
        }
    }

    /// Read the bytes `[start, end)` from the buffer, if they have all been
    /// received and are still buffered.
    pub fn read_segment(&self, start: u64, end: u64) -> (r: Option<Vec<u8>>)
        requires
            self.wf(),
            start < end,
        ensures
            (r is Some) <==> (ranges_cover_range(self.received@, start as int, end as int)
                && start >= self.buffer_offset && end - self.buffer_offset <= self.buffer@.len()),
            r matches Some(v) ==> v@.len() == end - start && (forall|k: int|
                0 <= k < v@.len() ==> v@[k] == #[trigger] self.byte_at(start + k)),
    {
        if !self.received.has_range(start, end) {
            return None;
        }
        if start < self.buffer_offset {
            return None;
        }
        if end - self.buffer_offset > self.buffer.len() as u64 {
            return None;
        }
        let si: usize = (start - self.buffer_offset) as usize;
        let ei: usize = (end - self.buffer_offset) as usize;
        Some(self.buffer.range(si, ei))
    }

    /// Read the available bytes at the front of the buffer, up to `limit`
    /// bytes: the contiguous run from `buffer_offset` to the end of the
    /// first received range. Returns `None` when nothing contiguous waits.
    pub fn read_next(&self, limit: usize) -> (r: Option<Vec<u8>>)
        requires
            self.wf(),
        ensures
            (r is Some) <==> (self.received@.len() > 0 && self.received@[0].1
                > self.buffer_offset),
            r matches Some(v) ==> {
                let n = vstd::math::min(
                    self.received@[0].1 - self.buffer_offset,
                    limit as int,
                );
                v@ == self.buffer@.take(n)
            },
    {
        let available: u64 = match self.received.peek_first() {
            Some((_, end)) => end,
            None => {
                return None;
            },
        };
        proof {
            // the first range begins at or below the buffer start, so its
            // end lies between the buffer start and the buffer end
            lemma_wf_ordered(self.received@);
            if self.buffer_offset > 0 {
                assert(ranges_cover(self.received@, self.buffer_offset - 1));
                let j = choose|j: int|
                    0 <= j < self.received@.len() && (#[trigger] self.received@[j]).0
                        <= self.buffer_offset - 1 < self.received@[j].1;
                if j > 0 {
                    assert(self.received@[j].0 > self.received@[0].1);
                    assert(ranges_cover(self.received@, self.received@[0].1 as int));
                }
            }
            assert(ranges_cover(self.received@, self.received@[0].1 - 1)) by {
                assert(self.received@[0].0 <= self.received@[0].1 - 1 < self.received@[0].1);
            }
        }
        if available == self.buffer_offset {
            return None;
        }
        let mut n: u64 = available - self.buffer_offset;
        if (limit as u64) < n {
            n = limit as u64;
        }
        Some(self.buffer.range(0, n as usize))
    }

    /// Whether the stream has been fully received: a final offset is known
    /// and, in reliable mode, the contiguous prefix reaches it.
    pub fn finished(&self) -> (r: bool)
        requires
            self.wf(),
        ensures
            r == match self.final_offset {
                None => false,
                Some(fo) => !self.is_reliable || (self.received@.len() > 0 && self.received@[0].1
                    >= fo),
            },
    {
        match self.final_offset {
            None => false,
            Some(fo) => {
                if !self.is_reliable {
                    true
                } else {
                    match self.received.peek_first() {
                        Some((_, end)) => end >= fo,
                        None => false,
                    }
                }
            },
        }
    }
}

} // verus!
