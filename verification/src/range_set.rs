//! Set of disjoint, non-adjacent ranges over `u64`, kept sorted by start.
//!
//! A range is a pair `(start, end)` standing for the half-open interval
//! `[start, end)`. Overlapping or touching ranges are merged on insertion,
//! so the stored representation of any set of covered points is canonical.
//! An optional cap bounds the number of stored ranges; when the cap is
//! reached, inserts that would add a new range fail.

use vstd::prelude::*;

verus! {

/// Well-formedness of a stored range sequence: every range is non-empty and
/// consecutive ranges neither overlap nor touch.
pub open spec fn wf_ranges(rs: Seq<(u64, u64)>) -> bool {
    &&& forall|i: int| 0 <= i < rs.len() ==> #[trigger] rs[i].0 < rs[i].1
    &&& forall|i: int| 0 <= i < rs.len() - 1 ==> #[trigger] rs[i].1 < rs[i + 1].0
}

/// Whether the point `v` lies inside one of the stored ranges.
pub open spec fn ranges_cover(rs: Seq<(u64, u64)>, v: int) -> bool {
    exists|i: int| 0 <= i < rs.len() && (#[trigger] rs[i]).0 <= v < rs[i].1
}

/// Whether a single stored range fully covers the interval `[s, e)`.
pub open spec fn ranges_cover_range(rs: Seq<(u64, u64)>, s: int, e: int) -> bool {
    exists|i: int| 0 <= i < rs.len() && (#[trigger] rs[i]).0 <= s && e <= rs[i].1
}

/// Number of stored ranges that properly overlap the interval `[s, e)`.
pub open spec fn count_overlapping(rs: Seq<(u64, u64)>, s: int, e: int) -> int
    decreases rs.len(),
{
    if rs.len() == 0 {
        0
    } else {
        count_overlapping(rs.drop_last(), s, e) + if rs.last().0 < e && rs.last().1 > s {
            1int
        } else {
            0int
        }
    }
}

/// In a well-formed sequence the ranges are ordered globally, not just
/// between neighbours.
pub proof fn lemma_wf_ordered(rs: Seq<(u64, u64)>)
    requires
        wf_ranges(rs),
    ensures
        forall|i: int, j: int| 0 <= i < j < rs.len() ==> #[trigger] rs[i].1 < #[trigger] rs[j].0,
{
    assert forall|i: int, j: int| 0 <= i < j < rs.len() implies #[trigger] rs[i].1
        < #[trigger] rs[j].0 by {
        lemma_wf_ordered_pair(rs, i, j);
    }
}

proof fn lemma_wf_ordered_pair(rs: Seq<(u64, u64)>, i: int, j: int)
    requires
        wf_ranges(rs),
        0 <= i < j < rs.len(),
    ensures
        rs[i].1 < rs[j].0,
    decreases j - i,
{
    if j == i + 1 {
    } else {
        lemma_wf_ordered_pair(rs, i, j - 1);
    }
}

/// A well-formed sequence that covers exactly the points of `[s, e)` in the
/// closed neighbourhood `[s - 1, e]` stores `(s, e)` itself as an element.
pub proof fn lemma_cover_exact_element(rs: Seq<(u64, u64)>, s: u64, e: u64)
    requires
        wf_ranges(rs),
        s < e,
        forall|v: int| s <= v < e ==> ranges_cover(rs, v),
        !ranges_cover(rs, s - 1),
        !ranges_cover(rs, e as int),
    ensures
        rs.contains((s, e)),
{
    lemma_wf_ordered(rs);
    let i = choose|i: int| 0 <= i < rs.len() && (#[trigger] rs[i]).0 <= s < rs[i].1;
    assert(ranges_cover(rs, s as int));
    if rs[i].0 < s {
        assert(rs[i].0 <= s - 1 < rs[i].1);
        assert(ranges_cover(rs, s - 1));
    }
    if rs[i].1 < e {
        assert(ranges_cover(rs, rs[i].1 as int));
        let j = choose|j: int|
            0 <= j < rs.len() && (#[trigger] rs[j]).0 <= rs[i].1 < rs[j].1;
        if j < i {
            assert(rs[j].1 < rs[i].0);
        } else if j > i {
            assert(rs[i].1 < rs[j].0);
        }
        assert(false);
    }
    if rs[i].1 > e {
        assert(rs[i].0 <= e < rs[i].1);
        assert(ranges_cover(rs, e as int));
    }
    assert(rs[i] == (s, e));
}

/// Shape of the sequence produced by a merging insert: the ranges strictly
/// before the insertion window, one merged range, then the ranges strictly
/// after it.
spec fn merged_shape(
    oldv: Seq<(u64, u64)>,
    newv: Seq<(u64, u64)>,
    lo: int,
    hi: int,
    start: u64,
    end: u64,
    ns: u64,
    ne: u64,
) -> bool {
    &&& wf_ranges(oldv)
    &&& 0 <= lo <= hi <= oldv.len()
    &&& start < end
    &&& newv == oldv.take(lo) + seq![(ns, ne)] + oldv.subrange(hi, oldv.len() as int)
    &&& forall|j: int| 0 <= j < lo ==> (#[trigger] oldv[j]).1 < start
    &&& forall|j: int| hi <= j < oldv.len() ==> (#[trigger] oldv[j]).0 > end
    &&& forall|j: int| lo <= j < hi ==> (#[trigger] oldv[j]).1 >= start && oldv[j].0 <= end
    &&& (lo == hi ==> ns == start && ne == end)
    &&& (lo < hi ==> ns == (if oldv[lo].0 < start {
        oldv[lo].0
    } else {
        start
    }) && ne == (if oldv[hi - 1].1 > end {
        oldv[hi - 1].1
    } else {
        end
    }))
}

proof fn lemma_merged_wf(
    oldv: Seq<(u64, u64)>,
    newv: Seq<(u64, u64)>,
    lo: int,
    hi: int,
    start: u64,
    end: u64,
    ns: u64,
    ne: u64,
)
    requires
        merged_shape(oldv, newv, lo, hi, start, end, ns, ne),
    ensures
        wf_ranges(newv),
{
    lemma_wf_ordered(oldv);
    let shift = hi - lo - 1;
    assert(forall|k: int| 0 <= k < lo ==> newv[k] == oldv[k]);
    assert(newv[lo] == (ns, ne));
    assert(forall|k: int| lo < k < newv.len() ==> newv[k] == oldv[k + shift]);
    assert forall|k: int| 0 <= k < newv.len() implies (#[trigger] newv[k]).0 < newv[k].1 by {
        if k == lo {
            assert(ns <= start && end <= ne);
        }
    }
    assert forall|k: int| 0 <= k < newv.len() - 1 implies (#[trigger] newv[k]).1 < newv[k
        + 1].0 by {
        if k == lo - 1 {
            assert(oldv[k].1 < start);
            if ns < start {
                assert(lo < hi);
                assert(ns == oldv[lo].0);
                assert(oldv[k].1 < oldv[lo].0);
            }
        } else if k == lo {
            let nxt = k + 1 + shift;
            assert(nxt == hi);
            assert(oldv[nxt].0 > end);
            if ne > end {
                assert(lo < hi);
                assert(ne == oldv[hi - 1].1);
                assert(oldv[hi - 1].1 < oldv[hi].0);
            }
        }
    }
}

#[verifier::rlimit(100)]
#[verifier::spinoff_prover]
proof fn lemma_merged_cover(
    oldv: Seq<(u64, u64)>,
    newv: Seq<(u64, u64)>,
    lo: int,
    hi: int,
    start: u64,
    end: u64,
    ns: u64,
    ne: u64,
)
    requires
        merged_shape(oldv, newv, lo, hi, start, end, ns, ne),
    ensures
        forall|v: int|
            #[trigger] ranges_cover(newv, v) == (ranges_cover(oldv, v) || (start <= v < end)),
{
    lemma_wf_ordered(oldv);
    let shift = hi - lo - 1;
    assert(forall|k: int| 0 <= k < lo ==> newv[k] == oldv[k]);
    assert(newv[lo] == (ns, ne));
    assert(forall|k: int| lo < k < newv.len() ==> newv[k] == oldv[k + shift]);
    assert forall|v: int| #[trigger] ranges_cover(newv, v) == (ranges_cover(oldv, v) || (start
        <= v < end)) by {
        if start <= v < end {
            assert(ns <= v < ne);
            assert(newv[lo].0 <= v < newv[lo].1);
            assert(ranges_cover(newv, v));
        }
        if ranges_cover(oldv, v) {
            let j = choose|j: int| 0 <= j < oldv.len() && (#[trigger] oldv[j]).0 <= v < oldv[j].1;
            if j < lo {
                assert(newv[j].0 <= v < newv[j].1);
                assert(ranges_cover(newv, v));
            } else if j < hi {
                if j > lo {
                    assert(oldv[j].0 > oldv[lo].1);
                    assert(oldv[j].0 > oldv[lo].0);
                }
                assert(ns <= oldv[j].0);
                if j < hi - 1 {
                    assert(oldv[j].1 < oldv[hi - 1].0);
                    assert(oldv[j].1 < oldv[hi - 1].1);
                }
                assert(oldv[j].1 <= ne);
                assert(newv[lo].0 <= v < newv[lo].1);
                assert(ranges_cover(newv, v));
            } else {
                let k = j - shift;
                assert(newv[k] == oldv[j]);
                assert(newv[k].0 <= v < newv[k].1);
                assert(ranges_cover(newv, v));
            }
        }
        if ranges_cover(newv, v) && !(start <= v < end) {
            let k = choose|k: int| 0 <= k < newv.len() && (#[trigger] newv[k]).0 <= v < newv[k].1;
            if k < lo {
                assert(oldv[k].0 <= v < oldv[k].1);
                assert(ranges_cover(oldv, v));
            } else if k > lo {
                assert(oldv[k + shift].0 <= v < oldv[k + shift].1);
                assert(ranges_cover(oldv, v));
            } else {
                if v < start {
                    assert(ns <= v);
                    assert(lo < hi);
                    assert(ns == oldv[lo].0);
                    assert(oldv[lo].1 >= start > v);
                    assert(oldv[lo].0 <= v < oldv[lo].1);
                    assert(ranges_cover(oldv, v));
                } else {
                    assert(v >= end);
                    assert(v < ne);
                    assert(ne > end);
                    assert(lo < hi);
                    assert(ne == oldv[hi - 1].1);
                    assert(oldv[hi - 1].0 <= end <= v);
                    assert(oldv[hi - 1].0 <= v < oldv[hi - 1].1);
                    assert(ranges_cover(oldv, v));
                }
            }
        }
    }
}

/// Appending one range extends the covered points by exactly that range.
pub proof fn lemma_cover_push(rs: Seq<(u64, u64)>, p: (u64, u64))
    ensures
        forall|v: int|
            #[trigger] ranges_cover(rs.push(p), v) == (ranges_cover(rs, v) || (p.0 <= v < p.1)),
{
    assert forall|v: int| #[trigger] ranges_cover(rs.push(p), v) == (ranges_cover(rs, v) || (p.0
        <= v < p.1)) by {
        if ranges_cover(rs, v) {
            let i = choose|i: int| 0 <= i < rs.len() && (#[trigger] rs[i]).0 <= v < rs[i].1;
            assert(rs.push(p)[i] == rs[i]);
            assert(ranges_cover(rs.push(p), v));
        }
        if p.0 <= v < p.1 {
            assert(rs.push(p)[rs.len() as int] == p);
            assert(ranges_cover(rs.push(p), v));
        }
        if ranges_cover(rs.push(p), v) {
            let i = choose|i: int|
                0 <= i < rs.push(p).len() && (#[trigger] rs.push(p)[i]).0 <= v < rs.push(p)[i].1;
            if i < rs.len() {
                assert(rs[i].0 <= v < rs[i].1);
                assert(ranges_cover(rs, v));
            } else {
                assert(rs.push(p)[i] == p);
            }
        }
    }
}

/// Membership after appending one element.
proof fn lemma_contains_push(s: Seq<(u64, u64)>, p: (u64, u64))
    ensures
        forall|x: (u64, u64)| #[trigger] s.push(p).contains(x) == (s.contains(x) || x == p),
{
    assert forall|x: (u64, u64)| #[trigger] s.push(p).contains(x) == (s.contains(x) || x
        == p) by {
        if s.contains(x) {
            let i = choose|i: int| 0 <= i < s.len() && s[i] == x;
            assert(s.push(p)[i] == x);
        }
        assert(s.push(p)[s.len() as int] == p);
        if s.push(p).contains(x) {
            let i = choose|i: int| 0 <= i < s.push(p).len() && s.push(p)[i] == x;
            if i < s.len() {
                assert(s[i] == x);
            }
        }
    }
}

/// Counting overlaps over a prefix extends one element at a time.
proof fn lemma_count_take_step(rs: Seq<(u64, u64)>, i: int, s: int, e: int)
    requires
        0 <= i < rs.len(),
    ensures
        count_overlapping(rs.take(i + 1), s, e) == count_overlapping(rs.take(i), s, e) + if rs[i].0
            < e && rs[i].1 > s {
            1int
        } else {
            0int
        },
{
    assert(rs.take(i + 1).drop_last() =~= rs.take(i));
    assert(rs.take(i + 1).last() == rs[i]);
}

/// A pointwise-covered interval lies inside a single stored range.
pub proof fn lemma_contiguous_cover(rs: Seq<(u64, u64)>, s: int, e: int)
    requires
        wf_ranges(rs),
        s < e,
        forall|v: int| s <= v < e ==> ranges_cover(rs, v),
    ensures
        ranges_cover_range(rs, s, e),
{
    lemma_wf_ordered(rs);
    assert(ranges_cover(rs, s));
    let i = choose|i: int| 0 <= i < rs.len() && (#[trigger] rs[i]).0 <= s < rs[i].1;
    if rs[i].1 < e {
        assert(ranges_cover(rs, rs[i].1 as int));
        let j = choose|j: int| 0 <= j < rs.len() && (#[trigger] rs[j]).0 <= rs[i].1 < rs[j].1;
        if j < i {
            assert(rs[j].1 < rs[i].0);
        } else if j > i {
            assert(rs[i].1 < rs[j].0);
        }
        assert(false);
    }
    assert(rs[i].0 <= s && e <= rs[i].1);
}

/// Spanning bound: `j - i + 1` disjoint, non-adjacent, non-empty ranges
/// need at least `2 * (j - i) + 1` points of room.
proof fn lemma_range_span(rs: Seq<(u64, u64)>, i: int, j: int)
    requires
        wf_ranges(rs),
        0 <= i <= j < rs.len(),
    ensures
        rs[j].1 - rs[i].0 >= 2 * (j - i) + 1,
    decreases j - i,
{
    if i < j {
        lemma_range_span(rs, i, j - 1);
    }
}

/// A set that fully covers `[0, base)` and covers nothing at or beyond
/// `base + len` cannot store more than `1 + (len + 1) / 2` ranges.
pub proof fn lemma_range_count_bound(rs: Seq<(u64, u64)>, base: int, len: int)
    requires
        wf_ranges(rs),
        base >= 0,
        len >= 0,
        forall|v: int| 0 <= v < base ==> ranges_cover(rs, v),
        forall|v: int| v >= base + len ==> !ranges_cover(rs, v),
    ensures
        rs.len() <= 1 + (len + 1) / 2,
{
    lemma_wf_ordered(rs);
    let n = rs.len() as int;
    if n > 1 {
        assert(rs[1].0 >= base) by {
            if rs[1].0 < base {
                let p = rs[0].1 as int;
                assert(p < rs[1].0);
                assert(ranges_cover(rs, p));
                let j = choose|j: int| 0 <= j < n && (#[trigger] rs[j]).0 <= p < rs[j].1;
                if j >= 1 {
                    assert(rs[j].0 >= rs[1].0);
                }
                assert(false);
            }
        }
        assert(ranges_cover(rs, rs[n - 1].1 - 1)) by {
            assert(rs[n - 1].0 <= rs[n - 1].1 - 1 < rs[n - 1].1);
        }
        assert(rs[n - 1].1 - 1 < base + len);
        lemma_range_span(rs, 1, n - 1);
    }
}

/// Law: inserting `[a0, a1)` and then the adjacent `[a1, b1)` into a set
/// holding nothing that overlaps or touches `[a0, b1]` leaves the single
/// merged range `[a0, b1)` stored as one element.
///
/// `pre`, `mid` and `post` are the stored sequences before the first
/// insert, between the two, and after the second, as `insert_range`'s
/// contract describes them.
pub proof fn lemma_adjacent_inserts_merge(
    pre: Seq<(u64, u64)>,
    mid: Seq<(u64, u64)>,
    post: Seq<(u64, u64)>,
    a0: u64,
    a1: u64,
    b1: u64,
)
    requires
        wf_ranges(pre),
        wf_ranges(mid),
        wf_ranges(post),
        a0 < a1 < b1,
        forall|i: int| 0 <= i < pre.len() ==> (#[trigger] pre[i]).1 < a0 || pre[i].0 > b1,
        forall|v: int| #[trigger] ranges_cover(mid, v) == (ranges_cover(pre, v) || (a0 <= v < a1)),
        forall|v: int| #[trigger] ranges_cover(post, v) == (ranges_cover(mid, v) || (a1 <= v
            < b1)),
    ensures
        post.contains((a0, b1)),
{
    assert(!ranges_cover(pre, a0 - 1));
    assert(!ranges_cover(pre, b1 as int));
    assert forall|v: int| a0 <= v < b1 implies ranges_cover(post, v) by {
        assert(ranges_cover(mid, v) == (ranges_cover(pre, v) || (a0 <= v < a1)));
    }
    assert(!ranges_cover(post, a0 - 1));
    assert(!ranges_cover(post, b1 as int));
    lemma_cover_exact_element(post, a0, b1);
}

/// Set of disjoint `u64` ranges with automatic merging of adjacent ranges.
pub struct RangeSet {
    ranges: Vec<(u64, u64)>,
    max_size: usize,
}

impl View for RangeSet {
    type V = Seq<(u64, u64)>;

    closed spec fn view(&self) -> Seq<(u64, u64)> {
        self.ranges@
    }
}

impl RangeSet {
    /// Stored ranges are sorted, disjoint and non-adjacent.
    pub open spec fn wf(&self) -> bool {
        wf_ranges(self@)
    }

    /// The cap on the number of stored ranges.
    pub closed spec fn cap(&self) -> usize {
        self.max_size
    }

    /// Create an empty set holding at most `max_size` ranges.
    pub fn new(max_size: usize) -> (r: RangeSet)
        ensures
            r@ == Seq::<(u64, u64)>::empty(),
            r.cap() == max_size,
            r.wf(),
    {
        RangeSet { ranges: Vec::new(), max_size }
    }

    /// Create an empty set without a cap.
    pub fn unlimited() -> (r: RangeSet)
        ensures
            r@ == Seq::<(u64, u64)>::empty(),
            r.cap() == usize::MAX,
            r.wf(),
    {
        Self::new(usize::MAX)
    }

    /// Number of stored ranges.
    pub fn len(&self) -> (r: usize)
        ensures
            r == self@.len(),
    {
        self.ranges.len()
    }

    /// Test whether a single value is contained in the set.
    pub fn has_value(&self, val: u64) -> (r: bool)
        requires
            self.wf(),
        ensures
            r == ranges_cover(self@, val as int),
    {
        let n: usize = self.ranges.len();
        let mut i: usize = 0;
        while i < n
            invariant
                0 <= i <= n,
                n == self@.len(),
                forall|j: int| 0 <= j < i ==> !((#[trigger] self@[j]).0 <= val < self@[j].1),
            decreases n - i,
        {
            let (start, end) = self.ranges[i];
            if start <= val && val < end {
                return true;
            }
            i += 1;
        }
        false
    }

    /// Test whether a single stored range fully covers `[start, end)`.
    pub fn has_range(&self, start: u64, end: u64) -> (r: bool)
        requires
            self.wf(),
            start < end,
        ensures
            r == ranges_cover_range(self@, start as int, end as int),
    {
        let n: usize = self.ranges.len();
        let mut i: usize = 0;
        while i < n
            invariant
                0 <= i <= n,
                n == self@.len(),
                forall|j: int|
                    0 <= j < i ==> !((#[trigger] self@[j]).0 <= start && end <= self@[j].1),
            decreases n - i,
        {
            let (rs, re) = self.ranges[i];
            if rs <= start && end <= re {
                return true;
            }
            i += 1;
        }
        false
    }

    /// Insert the range `[start, end)`, merging it with any stored ranges it
    /// overlaps or touches. Fails (returning `false`, without mutation) only
    /// when the range touches nothing already stored and the cap is reached.
    #[verifier::rlimit(100)]
    pub fn insert_range(&mut self, start: u64, end: u64) -> (r: bool)
        requires
            old(self).wf(),
            start < end,
        ensures
            final(self).wf(),
            final(self).cap() == old(self).cap(),
            r == !(old(self)@.len() >= old(self).cap() && (forall|i: int|
                0 <= i < old(self)@.len() ==> (#[trigger] old(self)@[i]).1 < start
                    || old(self)@[i].0 > end)),
            r ==> (forall|v: int|
                #[trigger] ranges_cover(final(self)@, v) == (ranges_cover(old(self)@, v) || (
                start <= v < end))),
            !r ==> final(self)@ == old(self)@,
    {
        proof {
            lemma_wf_ordered(self@);
        }
        let n: usize = self.ranges.len();
        let mut out: Vec<(u64, u64)> = Vec::new();
        let mut i: usize = 0;
        while i < n && self.ranges[i].1 < start
            invariant
                *self == *old(self),
                0 <= i <= n,
                n == self@.len(),
                out@ == self@.take(i as int),
                forall|j: int| 0 <= j < i ==> (#[trigger] self@[j]).1 < start,
            decreases n - i,
        {
            let pair = self.ranges[i];
            out.push(pair);
            i += 1;
            proof {
                assert(out@ =~= self@.take(i as int));
            }
        }
        let lo: usize = i;
        let mut ns: u64 = start;
        let mut ne: u64 = end;
        while i < n && self.ranges[i].0 <= end
            invariant
                *self == *old(self),
                self.wf(),
                lo <= i <= n,
                n == self@.len(),
                i == lo ==> ns == start && ne == end,
                i > lo ==> ns == (if self@[lo as int].0 < start {
                    self@[lo as int].0
                } else {
                    start
                }),
                i > lo ==> ne == (if self@[i - 1].1 > end {
                    self@[i - 1].1
                } else {
                    end
                }),
                lo == n || self@[lo as int].1 >= start,
                forall|j: int|
                    lo <= j < i ==> (#[trigger] self@[j]).1 >= start && self@[j].0 <= end,
            decreases n - i,
        {
            let (rs, re) = self.ranges[i];
            proof {
                lemma_wf_ordered(self@);
                if i > lo {
                    assert(rs > self@[lo as int].1);
                    assert(self@[lo as int].1 >= start);
                    assert(re > self@[i - 1].1);
                }
            }
            if rs < ns {
                ns = rs;
            }
            if re > ne {
                ne = re;
            }
            i += 1;
        }
        let hi: usize = i;
        proof {
            lemma_wf_ordered(self@);
            assert(forall|j: int| 0 <= j < lo ==> (#[trigger] self@[j]).1 < start);
            assert(forall|j: int|
                hi <= j < n ==> (#[trigger] self@[j]).0 > end) by {
                if hi < n {
                    assert(self@[hi as int].0 > end);
                    assert(forall|j: int|
                        hi < j < n ==> (#[trigger] self@[j]).0 > self@[hi as int].1);
                }
            }
        }
        if lo == hi && n >= self.max_size {
            proof {
                assert(forall|j: int|
                    0 <= j < n ==> (#[trigger] self@[j]).1 < start || self@[j].0 > end);
            }
            return false;
        }
        out.push((ns, ne));
        while i < n
            invariant
                *self == *old(self),
                hi <= i <= n,
                n == self@.len(),
                out@ == self@.take(lo as int) + seq![(ns, ne)] + self@.subrange(
                    hi as int,
                    i as int,
                ),
            decreases n - i,
        {
            let pair = self.ranges[i];
            out.push(pair);
            i += 1;
            proof {
                assert(out@ =~= self@.take(lo as int) + seq![(ns, ne)] + self@.subrange(
                    hi as int,
                    i as int,
                ));
            }
        }
        proof {
            assert(out@ == self@.take(lo as int) + seq![(ns, ne)] + self@.subrange(
                hi as int,
                n as int,
            ));
            assert(merged_shape(self@, out@, lo as int, hi as int, start, end, ns, ne));
            lemma_merged_wf(self@, out@, lo as int, hi as int, start, end, ns, ne);
            lemma_merged_cover(self@, out@, lo as int, hi as int, start, end, ns, ne);
        }
        self.ranges = out;
        true
    }

    /// Subtract the range `[start, end)` from the set. Ranges fully inside
    /// it disappear, ranges crossing one edge are trimmed, and a range
    /// straddling both edges is split in two. Returns the number of stored
    /// ranges that overlapped `[start, end)`.
    #[verifier::rlimit(100)]
    pub fn remove_range(&mut self, start: u64, end: u64) -> (r: usize)
        requires
            old(self).wf(),
            start < end,
        ensures
            final(self).wf(),
            final(self).cap() == old(self).cap(),
            forall|v: int|
                #[trigger] ranges_cover(final(self)@, v) == (ranges_cover(old(self)@, v) && !(
                start <= v < end)),
            r == count_overlapping(old(self)@, start as int, end as int),
    {
        let n: usize = self.ranges.len();
        let mut out: Vec<(u64, u64)> = Vec::new();
        let mut affected: usize = 0;
        let mut i: usize = 0;
        while i < n
            invariant
                *self == *old(self),
                self.wf(),
                start < end,
                0 <= i <= n,
                n == self@.len(),
                affected <= i,
                affected == count_overlapping(self@.take(i as int), start as int, end as int),
                wf_ranges(out@),
                out@.len() > 0 && i < n ==> out@.last().1 < self@[i as int].0 || (out@.last().1
                    == start && self@[i as int].0 > start),
                forall|v: int|
                    #[trigger] ranges_cover(out@, v) == (ranges_cover(
                        self@.take(i as int),
                        v,
                    ) && !(start <= v < end)),
            decreases n - i,
        {
            let (rs, re) = self.ranges[i];
            proof {
                lemma_wf_ordered(self@);
                lemma_count_take_step(self@, i as int, start as int, end as int);
                assert(self@.take(i + 1).drop_last() =~= self@.take(i as int));
            }
            let ghost prev_out = out@;
            if re <= start || rs >= end {
                // untouched by the removal
                proof {
                    if prev_out.len() > 0 {
                        assert(prev_out.last().1 < rs);
                    }
                }
                out.push((rs, re));
                proof {
                    lemma_cover_push(prev_out, (rs, re));
                    assert(wf_ranges(out@));
                }
            } else {
                affected += 1;
                if rs < start {
                    proof {
                        if prev_out.len() > 0 {
                            assert(prev_out.last().1 < rs);
                        }
                    }
                    out.push((rs, start));
                    proof {
                        lemma_cover_push(prev_out, (rs, start));
                        assert(wf_ranges(out@));
                    }
                }
                let ghost mid_out = out@;
                if re > end {
                    proof {
                        if mid_out.len() > 0 {
                            if rs < start {
                                assert(mid_out.last() == (rs, start));
                            } else {
                                assert(mid_out == prev_out);
                                assert(prev_out.last().1 < rs || prev_out.last().1 == start);
                                assert(rs < end);
                            }
                            assert(mid_out.last().1 < end);
                        }
                    }
                    out.push((end, re));
                    proof {
                        lemma_cover_push(mid_out, (end, re));
                        assert(wf_ranges(out@));
                    }
                }
            }
            i += 1;
            proof {
                lemma_cover_push(self@.take(i - 1), self@[i - 1]);
                assert(self@.take(i as int) =~= self@.take(i - 1).push(self@[i - 1]));
            }
        }
        proof {
            assert(self@.take(n as int) =~= self@);
        }
        self.ranges = out;
        affected
    }

    /// Remove every range below `val`, truncating a range that contains it.
    #[verifier::rlimit(100)]
    pub fn remove_until_from_first(&mut self, val: u64)
        requires
            old(self).wf(),
        ensures
            final(self).wf(),
            final(self).cap() == old(self).cap(),
            forall|v: int|
                #[trigger] ranges_cover(final(self)@, v) == (ranges_cover(old(self)@, v) && v
                    >= val),
    {
        let n: usize = self.ranges.len();
        let mut out: Vec<(u64, u64)> = Vec::new();
        let mut i: usize = 0;
        while i < n
            invariant
                *self == *old(self),
                self.wf(),
                0 <= i <= n,
                n == self@.len(),
                wf_ranges(out@),
                out@.len() > 0 && i < n ==> out@.last().1 < self@[i as int].0 && self@[i as int].0
                    > val,
                forall|v: int|
                    #[trigger] ranges_cover(out@, v) == (ranges_cover(
                        self@.take(i as int),
                        v,
                    ) && v >= val),
            decreases n - i,
        {
            let (rs, re) = self.ranges[i];
            proof {
                lemma_wf_ordered(self@);
            }
            let ghost prev_out = out@;
            if re <= val {
                // entirely below the cut
            } else if rs < val {
                out.push((val, re));
                proof {
                    lemma_cover_push(prev_out, (val, re));
                }
            } else {
                out.push((rs, re));
                proof {
                    lemma_cover_push(prev_out, (rs, re));
                }
            }
            i += 1;
            proof {
                lemma_cover_push(self@.take(i - 1), self@[i - 1]);
                assert(self@.take(i as int) =~= self@.take(i - 1).push(self@[i - 1]));
            }
        }
        proof {
            assert(self@.take(n as int) =~= self@);
        }
        self.ranges = out;
    }

    /// All stored ranges, in ascending order.
    pub fn iter(&self) -> (r: Vec<(u64, u64)>)
        ensures
            r@ == self@,
    {
        let n: usize = self.ranges.len();
        let mut out: Vec<(u64, u64)> = Vec::new();
        let mut i: usize = 0;
        while i < n
            invariant
                0 <= i <= n,
                n == self@.len(),
                out@ == self@.take(i as int),
            decreases n - i,
        {
            let pair = self.ranges[i];
            out.push(pair);
            i += 1;
            proof {
                assert(out@ =~= self@.take(i as int));
            }
        }
        proof {
            assert(self@.take(n as int) =~= self@);
        }
        out
    }

    /// All stored ranges whose closure overlaps `[start, end)`, ascending:
    /// a range is yielded when it begins before `end` and either reaches
    /// past `start` or begins at or after `start`.
    pub fn iter_range(&self, start: u64, end: u64) -> (r: Vec<(u64, u64)>)
        requires
            self.wf(),
        ensures
            wf_ranges(r@),
            forall|p: (u64, u64)|
                #[trigger] r@.contains(p) == (self@.contains(p) && p.0 < end && (p.1 > start
                    || p.0 >= start)),
    {
        let n: usize = self.ranges.len();
        let mut out: Vec<(u64, u64)> = Vec::new();
        let ghost mut last_idx: int = 0;
        let mut i: usize = 0;
        while i < n
            invariant
                self.wf(),
                0 <= i <= n,
                n == self@.len(),
                wf_ranges(out@),
                out@.len() > 0 ==> 0 <= last_idx < i && out@.last() == self@[last_idx],
                forall|p: (u64, u64)|
                    #[trigger] out@.contains(p) == (self@.take(i as int).contains(p) && p.0 < end
                        && (p.1 > start || p.0 >= start)),
            decreases n - i,
        {
            let (rs, re) = self.ranges[i];
            proof {
                lemma_wf_ordered(self@);
                assert(self@.take(i + 1) =~= self@.take(i as int).push(self@[i as int]));
            }
            let ghost prev_out = out@;
            if rs < end && (re > start || rs >= start) {
                out.push((rs, re));
                proof {
                    last_idx = i as int;
                    lemma_contains_push(prev_out, (rs, re));
                }
            }
            i += 1;
            proof {
                lemma_contains_push(self@.take(i - 1), self@[i - 1]);
            }
        }
        proof {
            assert(self@.take(n as int) =~= self@);
        }
        out
    }

    /// Maximal subranges of `[start, end)` not covered by the set, in
    /// ascending order.
    #[verifier::rlimit(100)]
    pub fn range_complement(&self, start: u64, end: u64) -> (r: Vec<(u64, u64)>)
        requires
            self.wf(),
        ensures
            wf_ranges(r@),
            forall|v: int|
                #[trigger] ranges_cover(r@, v) == (start <= v < end && !ranges_cover(self@, v)),
    {
        let n: usize = self.ranges.len();
        let mut out: Vec<(u64, u64)> = Vec::new();
        let mut cursor: u64 = start;
        let mut i: usize = 0;
        while i < n
            invariant
                self.wf(),
                0 <= i <= n,
                n == self@.len(),
                cursor >= start,
                wf_ranges(out@),
                out@.len() > 0 ==> out@.last().1 < cursor,
                forall|j: int| 0 <= j < i ==> (#[trigger] self@[j]).1 <= cursor,
                forall|v: int|
                    #[trigger] ranges_cover(out@, v) == (start <= v < end && v < cursor
                        && !ranges_cover(self@, v)),
            decreases n - i,
        {
            let (rs, re) = self.ranges[i];
            proof {
                lemma_wf_ordered(self@);
            }
            let ghost prev_out = out@;
            if re > cursor {
                if rs > cursor && cursor < end {
                    let gap_end: u64 = if rs < end {
                        rs
                    } else {
                        end
                    };
                    out.push((cursor, gap_end));
                    proof {
                        lemma_cover_push(prev_out, (cursor, gap_end));
                    }
                }
                proof {
                    // points in [cursor, re) are covered by this range or lie
                    // in the pushed gap; nothing else in the set reaches them
                    assert forall|v: int| cursor <= v < re && !(rs <= v < re) implies
                        !ranges_cover(self@, v) by {
                        if ranges_cover(self@, v) {
                            let j = choose|j: int|
                                0 <= j < self@.len() && (#[trigger] self@[j]).0 <= v < self@[j].1;
                            if j < i {
                                assert(self@[j].1 <= cursor);
                            } else if j > i {
                                assert(self@[j].0 > self@[i as int].1);
                            }
                            assert(false);
                        }
                    }
                    assert forall|v: int| rs <= v < re implies #[trigger] ranges_cover(
                        self@,
                        v,
                    ) by {
                        assert(self@[i as int].0 <= v < self@[i as int].1);
                    }
                }
                cursor = re;
            }
            i += 1;
        }
        let ghost prev_out = out@;
        if cursor < end {
            out.push((cursor, end));
            proof {
                lemma_cover_push(prev_out, (cursor, end));
                assert forall|v: int| cursor <= v < end implies !ranges_cover(self@, v) by {
                    if ranges_cover(self@, v) {
                        let j = choose|j: int|
                            0 <= j < self@.len() && (#[trigger] self@[j]).0 <= v < self@[j].1;
                        assert(self@[j].1 <= cursor);
                        assert(false);
                    }
                }
            }
        }
        out
    }

    /// First (lowest) stored range, if any.
    pub fn peek_first(&self) -> (r: Option<(u64, u64)>)
        ensures
            self@.len() == 0 ==> r is None,
            self@.len() > 0 ==> r == Some(self@[0]),
    {
        if self.ranges.len() == 0 {
            None
        } else {
            Some(self.ranges[0])
        }
    }

    /// Last (highest) stored range, if any.
    pub fn peek_last(&self) -> (r: Option<(u64, u64)>)
        ensures
            self@.len() == 0 ==> r is None,
            self@.len() > 0 ==> r == Some(self@[self@.len() - 1]),
    {
        if self.ranges.len() == 0 {
            None
        } else {
            Some(self.ranges[self.ranges.len() - 1])
        }
    }
}

} // verus!
