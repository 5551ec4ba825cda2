//! Growable double-ended buffer of `Copy` elements.
//!
//! The buffer exposes its contents purely as a logical sequence: elements can
//! be pushed and popped at either end, read or overwritten in the middle, and
//! dropped off the front in bulk. Callers never observe the physical layout,
//! so the backing storage is free to reallocate or shift at any time.

use vstd::prelude::*;

verus! {

/// Double-ended buffer of `Copy` elements, viewed as the logical sequence of
/// its contents from front to back.
pub struct RingBuf<T: Copy> {
    buf: Vec<T>,
}

impl<T: Copy> View for RingBuf<T> {
    type V = Seq<T>;

    closed spec fn view(&self) -> Seq<T> {
        self.buf@
    }
}

impl<T: Copy> RingBuf<T> {
    /// Create an empty buffer.
    pub fn new() -> (r: RingBuf<T>)
        ensures
            r@ == Seq::<T>::empty(),
    {
        RingBuf { buf: Vec::new() }
    }

    /// Number of buffered elements.
    pub fn len(&self) -> (r: usize)
        ensures
            r == self@.len(),
    {
        self.buf.len()
    }

    /// Whether the buffer holds no elements.
    pub fn is_empty(&self) -> (r: bool)
        ensures
            r == (self@.len() == 0),
    {
        self.buf.len() == 0
    }

    /// Append one element at the back.
    pub fn push_back(&mut self, val: T)
        ensures
            final(self)@ == old(self)@.push(val),
    {
        self.buf.push(val);
    }

    /// Prepend one element at the front.
    pub fn push_front(&mut self, val: T)
        ensures
            final(self)@ == seq![val] + old(self)@,
    {
        self.buf.insert(0, val);
        proof {
            assert(final(self)@ =~= seq![val] + old(self)@);
        }
    }

    /// Remove and return the last element, if any.
    pub fn pop_back(&mut self) -> (r: Option<T>)
        ensures
            old(self)@.len() == 0 ==> r is None && final(self)@ == old(self)@,
            old(self)@.len() > 0 ==> r == Some(old(self)@.last()) && final(self)@ == old(
                self,
            )@.drop_last(),
    {
        self.buf.pop()
    }

    /// Remove and return the first element, if any.
    pub fn pop_front(&mut self) -> (r: Option<T>)
        ensures
            old(self)@.len() == 0 ==> r is None && final(self)@ == old(self)@,
            old(self)@.len() > 0 ==> r == Some(old(self)@[0]) && final(self)@ == old(self)@.skip(
                1,
            ),
    {
        if self.buf.len() == 0 {
            None
        } else {
            let v = self.buf.remove(0);
            proof {
                assert(final(self)@ =~= old(self)@.skip(1));
            }
            Some(v)
        }
    }

    /// Read the element at `index`, if it is in bounds.
    pub fn get(&self, index: usize) -> (r: Option<T>)
        ensures
            index < self@.len() ==> r == Some(self@[index as int]),
            index >= self@.len() ==> r is None,
    {
        if index < self.buf.len() {
            Some(self.buf[index])
        } else {
            None
        }
    }

    /// Drop all elements.
    pub fn clear(&mut self)
        ensures
            final(self)@ == Seq::<T>::empty(),
    {
        self.buf.clear();
    }

    /// Ask the backing storage to prepare room for `additional` more
    /// elements; the contents are unchanged.
    pub fn reserve(&mut self, additional: usize)
        ensures
            final(self)@ == old(self)@,
    {
        self.buf.reserve(additional);
    }

    /// Append `count` copies of `val` at the back.
    pub fn fill_at_back(&mut self, count: usize, val: T)
        ensures
            final(self)@.len() == old(self)@.len() + count,
            forall|k: int| 0 <= k < old(self)@.len() ==> final(self)@[k] == old(self)@[k],
            forall|k: int|
                old(self)@.len() <= k < final(self)@.len() ==> final(self)@[k] == val,
    {
        let mut j: usize = 0;
        while j < count
            invariant
                0 <= j <= count,
                self@.len() == old(self)@.len() + j,
                forall|k: int| 0 <= k < old(self)@.len() ==> self@[k] == old(self)@[k],
                forall|k: int| old(self)@.len() <= k < self@.len() ==> self@[k] == val,
            decreases count - j,
        {
            self.buf.push(val);
            j += 1;
        }
    }

    /// Append the contents of `data` at the back, in order.
    pub fn push_back_copy_from_slice(&mut self, data: &[T])
        ensures
            final(self)@ == old(self)@ + data@,
    {
        let n: usize = data.len();
        let mut j: usize = 0;
        while j < n
            invariant
                0 <= j <= n,
                n == data@.len(),
                self@ == old(self)@ + data@.take(j as int),
            decreases n - j,
        {
            self.buf.push(data[j]);
            j += 1;
            proof {
                assert(self@ =~= old(self)@ + data@.take(j as int));
            }
        }
        proof {
            assert(old(self)@ + data@.take(n as int) =~= old(self)@ + data@);
        }
    }

    /// Prepend the contents of `data` at the front, preserving its order.
    pub fn push_front_copy_from_slice(&mut self, data: &[T])
        ensures
            final(self)@ == data@ + old(self)@,
    {
        let n: usize = data.len();
        let mut j: usize = 0;
        while j < n
            invariant
                0 <= j <= n,
                n == data@.len(),
                self@ == data@.take(j as int) + old(self)@,
            decreases n - j,
        {
            self.buf.insert(j, data[j]);
            j += 1;
            proof {
                assert(self@ =~= data@.take(j as int) + old(self)@);
            }
        }
        proof {
            assert(data@.take(n as int) + old(self)@ =~= data@ + old(self)@);
        }
    }

    /// Copy the elements `[start, end)` out into a fresh vector.
    pub fn range(&self, start: usize, end: usize) -> (r: Vec<T>)
        requires
            start <= end <= self@.len(),
        ensures
            r@ == self@.subrange(start as int, end as int),
    {
        let mut out: Vec<T> = Vec::new();
        let mut j: usize = start;
        while j < end
            invariant
                start <= j <= end <= self@.len(),
                out@ == self@.subrange(start as int, j as int),
            decreases end - j,
        {
            out.push(self.buf[j]);
            j += 1;
            proof {
                assert(out@ =~= self@.subrange(start as int, j as int));
            }
        }
        out
    }

    /// Overwrite the elements starting at `start` with the contents of
    /// `data`; everything outside `[start, start + data.len())` is kept.
    pub fn write_range(&mut self, start: usize, data: &[T])
        requires
            start + data@.len() <= old(self)@.len(),
        ensures
            final(self)@.len() == old(self)@.len(),
            forall|k: int|
                0 <= k < old(self)@.len() && !(start <= k < start + data@.len())
                    ==> final(self)@[k] == old(self)@[k],
            forall|k: int|
                start <= k < start + data@.len() ==> final(self)@[k] == data@[k - start],
    {
        let n: usize = data.len();
        let buf_len: usize = self.buf.len();
        let mut j: usize = 0;
        while j < n
            invariant
                0 <= j <= n,
                n == data@.len(),
                start + n <= buf_len,
                buf_len == self@.len(),
                self@.len() == old(self)@.len(),
                forall|k: int|
                    0 <= k < old(self)@.len() && !(start <= k < start + j) ==> self@[k] == old(
                        self,
                    )@[k],
                forall|k: int| start <= k < start + j ==> self@[k] == data@[k - start],
            decreases n - j,
        {
            self.buf[start + j] = data[j];
            j += 1;
        }
    }

    /// Drop the first `count` elements.
    pub fn drain_front(&mut self, count: usize)
        requires
            count <= old(self)@.len(),
        ensures
            final(self)@ == old(self)@.skip(count as int),
    {
        let mut j: usize = 0;
        while j < count
            invariant
                0 <= j <= count <= old(self)@.len(),
                self@ == old(self)@.skip(j as int),
            decreases count - j,
        {
            self.buf.remove(0);
            j += 1;
            proof {
                assert(self@ =~= old(self)@.skip(j as int));
            }
        }
    }

    /// Pop elements off the front, overwriting `dest` completely with them
    /// in order.
    pub fn pop_front_copy_to_slice(&mut self, dest: &mut Vec<T>)
        requires
            old(dest)@.len() <= old(self)@.len(),
        ensures
            final(dest)@ == old(self)@.take(old(dest)@.len() as int),
            final(self)@ == old(self)@.skip(old(dest)@.len() as int),
    {
        let n: usize = dest.len();
        let mut j: usize = 0;
        while j < n
            invariant
                0 <= j <= n,
                n == dest@.len() <= self@.len(),
                *self == *old(self),
                dest@.len() == old(dest)@.len(),
                forall|k: int| 0 <= k < j ==> dest@[k] == self@[k],
            decreases n - j,
        {
            dest[j] = self.buf[j];
            j += 1;
        }
        proof {
            assert(dest@ =~= old(self)@.take(n as int));
        }
        self.drain_front(n);
    }

    /// Pop elements off the back, overwriting `dest` completely with them;
    /// `dest` receives the removed elements in their buffer order.
    pub fn pop_back_copy_to_slice(&mut self, dest: &mut Vec<T>)
        requires
            old(dest)@.len() <= old(self)@.len(),
        ensures
            final(dest)@ == old(self)@.skip(old(self)@.len() - old(dest)@.len()),
            final(self)@ == old(self)@.take(old(self)@.len() - old(dest)@.len()),
    {
        let n: usize = dest.len();
        let buf_len: usize = self.buf.len();
        let base: usize = buf_len - n;
        let mut j: usize = 0;
        while j < n
            invariant
                0 <= j <= n,
                n == dest@.len() <= self@.len(),
                buf_len == self@.len(),
                base == self@.len() - n,
                *self == *old(self),
                dest@.len() == old(dest)@.len(),
                forall|k: int| 0 <= k < j ==> dest@[k] == self@[base + k],
            decreases n - j,
        {
            dest[j] = self.buf[base + j];
            j += 1;
        }
        proof {
            assert(dest@ =~= old(self)@.skip(base as int));
        }
        self.buf.truncate(base);
        proof {
            assert(self@ =~= old(self)@.take(base as int));
        }
    }
}

/// Law: a buffer round-trips any byte string. Pushing `s` at the back of a
/// buffer holding `v` and popping `s.len()` elements from the back yields
/// `s` again; pushing `s` at the front and draining `s.len()` off the front
/// yields `s` again. These are the view-level identities behind
/// [`RingBuf::push_back_copy_from_slice`], [`RingBuf::pop_back_copy_to_slice`],
/// [`RingBuf::push_front_copy_from_slice`] and [`RingBuf::pop_front_copy_to_slice`],
/// whichever order the backing storage was grown in.
pub proof fn lemma_ring_buf_round_trip(v: Seq<u8>, s: Seq<u8>)
    ensures
        (v + s).skip(v.len() as int) == s,
        (v + s).take(v.len() as int) == v,
        (s + v).take(s.len() as int) == s,
        (s + v).skip(s.len() as int) == v,
{
    assert((v + s).skip(v.len() as int) =~= s);
    assert((v + s).take(v.len() as int) =~= v);
    assert((s + v).take(s.len() as int) =~= s);
    assert((s + v).skip(s.len() as int) =~= v);
}

} // verus!
