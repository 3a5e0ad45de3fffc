//! Fixed-capacity ring buffer for time-series history.

use vstd::prelude::*;

verus! {

/// Where the `i`-th oldest element of a ring with capacity `cap` starting at
/// `head` is stored.
pub open spec fn slot(head: int, i: int, cap: int) -> int {
    if head + i < cap {
        head + i
    } else {
        head + i - cap
    }
}

/// The contents after pushing `v` onto contents `s` of a ring with capacity
/// `cap`: nothing changes when `cap` is zero, and the oldest value is dropped
/// when the ring is already full.
pub open spec fn pushed<T>(s: Seq<T>, v: T, cap: nat) -> Seq<T> {
    if cap == 0 {
        s
    } else if s.len() < cap {
        s.push(v)
    } else {
        s.push(v).drop_first()
    }
}

/// The contents after pushing every value of `vs`, in order, onto contents `s`.
pub open spec fn pushed_all<T>(s: Seq<T>, vs: Seq<T>, cap: nat) -> Seq<T>
    decreases vs.len(),
{
    if vs.len() == 0 {
        s
    } else {
        pushed(pushed_all(s, vs.drop_last(), cap), vs.last(), cap)
    }
}

/// The last `cap` values of `s`, or all of `s` when it is no longer.
pub open spec fn keep_last<T>(s: Seq<T>, cap: nat) -> Seq<T> {
    if s.len() <= cap {
        s
    } else {
        s.subrange(s.len() - cap, s.len() as int)
    }
}

/// A ring of capacity `cap > 0` holds, after any sequence of pushes, exactly
/// the newest `cap` of all values it ever received (old contents first),
/// oldest first; the newest value pushed is always the last one held. A ring
/// of capacity zero never holds anything.
pub proof fn lemma_ring_keeps_newest<T>(s: Seq<T>, vs: Seq<T>, cap: nat)
    requires
        s.len() <= cap,
    ensures
        cap == 0 ==> pushed_all(s, vs, cap) == s,
        cap > 0 ==> pushed_all(s, vs, cap) == keep_last(s + vs, cap),
        cap > 0 && vs.len() > 0 ==> pushed_all(s, vs, cap).last() == vs.last(),
    decreases vs.len(),
{
    if vs.len() == 0 {
        assert(s + vs =~= s);
    } else {
        let prev = vs.drop_last();
        lemma_ring_keeps_newest(s, prev, cap);
        if cap > 0 {
            let t = keep_last(s + prev, cap);
            let all = s + vs;
            assert(all =~= (s + prev).push(vs.last()));
            if (s + prev).len() < cap {
                assert(t == s + prev);
                assert(t.push(vs.last()) =~= all);
            } else {
                assert(t.len() == cap);
                assert(t.push(vs.last()).drop_first() =~= all.subrange(all.len() - cap, all.len() as int));
            }
        }
    }
}

/// Fixed-capacity ring buffer holding at most `N` values; when full, a push
/// drops the oldest value. Storage for `N` values is reserved on creation.
pub struct RingBuffer<T, const N: usize> {
    buf: Vec<T>,
    head: usize,
    len: usize,
}

impl<T, const N: usize> RingBuffer<T, N> {
    /// Storage invariant: `buf` holds exactly `len` values, the oldest at
    /// `head`, and `head` only moves once the ring is full.
    pub closed spec fn wf(&self) -> bool {
        &&& self.len <= N
        &&& self.buf@.len() == self.len
        &&& (self.len < N ==> self.head == 0)
        &&& (N > 0 ==> self.head < N)
        &&& (N == 0 ==> self.head == 0)
    }
}

impl<T, const N: usize> View for RingBuffer<T, N> {
    type V = Seq<T>;

    /// The stored values, oldest first.
    closed spec fn view(&self) -> Seq<T> {
        Seq::new(self.len as nat, |i: int| self.buf@[slot(self.head as int, i, N as int)])
    }
}

impl<T, const N: usize> RingBuffer<T, N> {
    pub fn new() -> (r: Self)
        ensures
            r.wf(),
            r@ == Seq::<T>::empty(),
    {
        RingBuffer { buf: Vec::with_capacity(N), head: 0, len: 0 }
    }

    /// Push a value; the oldest one is dropped if the ring is full.
    pub fn push(&mut self, value: T)
        requires
            old(self).wf(),
        ensures
            final(self).wf(),
            final(self)@ == pushed(old(self)@, value, N as nat),
    {
        if N == 0 {
            return;
        }
        if self.len < N {
            self.buf.push(value);
            self.len = self.len + 1;
        } else {
            let idx = self.head;
            self.buf.set(idx, value);
            self.head = if self.head + 1 == N { 0 } else { self.head + 1 };
        }
    }

    /// Number of values currently stored.
    pub fn len(&self) -> (n: usize)
        requires
            self.wf(),
        ensures
            n == self@.len(),
            n <= N,
    {
        self.len
    }

    pub fn is_empty(&self) -> (b: bool)
        ensures
            b == (self@.len() == 0),
    {
        self.len == 0
    }

    pub fn capacity(&self) -> (c: usize)
        ensures
            c == N,
    {
        N
    }

    /// Iterate from oldest to newest.
    pub fn iter(&self) -> (it: RingBufferIter<'_, T, N>)
        requires
            self.wf(),
        ensures
            it.wf(),
            it.items() == self@,
            it.pos() == 0,
    {
        RingBufferIter { ring: self, pos: 0 }
    }

    /// Index into `buf` of the `i`-th oldest value.
    fn physical(&self, i: usize) -> (idx: usize)
        requires
            self.wf(),
            i < self.len,
        ensures
            idx == slot(self.head as int, i as int, N as int),
            idx < self.buf@.len(),
    {
        if i < N - self.head {
            self.head + i
        } else {
            i - (N - self.head)
        }
    }

    /// References to the last `n` values (all of them when fewer are stored),
    /// oldest first.
    pub fn last_n(&self, n: usize) -> (out: Vec<&T>)
        requires
            self.wf(),
        ensures
            out@.len() == if n < self@.len() { n as int } else { self@.len() as int },
            forall|i: int| 0 <= i < out@.len() ==>
                *out@[i] == self@[self@.len() - out@.len() + i],
    {
        let m = if n < self.len { n } else { self.len };
        let start = self.len - m;
        let mut out: Vec<&T> = Vec::new();
        let mut i: usize = 0;
        while i < m
            invariant
                self.wf(),
                m <= self.len,
                start == self.len - m,
                i <= m,
                out@.len() == i,
                forall|j: int| 0 <= j < i ==> *out@[j] == self@[start + j],
            decreases m - i,
        {
            let idx = self.physical(start + i);
            out.push(&self.buf[idx]);
            i = i + 1;
        }
        out
    }
}

impl<T: Copy, const N: usize> RingBuffer<T, N> {
    /// Copy the last `m` values into the front of `out`, oldest first, where
    /// `m` is the smaller of `out.len()` and the number stored; the rest of
    /// `out` is left as it was.
    pub fn copy_last_n(&self, out: &mut [T])
        requires
            self.wf(),
        ensures
            ({
                let m = if old(out)@.len() < self@.len() {
                    old(out)@.len() as int
                } else {
                    self@.len() as int
                };
                final(out)@ == self@.subrange(self@.len() - m, self@.len() as int)
                    + old(out)@.subrange(m, old(out)@.len() as int)
            }),
    {
        let m = if out.len() < self.len { out.len() } else { self.len };
        let start = self.len - m;
        let mut i: usize = 0;
        while i < m
            invariant
                self.wf(),
                m <= self.len,
                m <= out@.len(),
                m == if old(out)@.len() < self@.len() { old(out)@.len() as int } else { self@.len() as int },
                start == self.len - m,
                i <= m,
                out@.len() == old(out)@.len(),
                forall|j: int| 0 <= j < i ==> out@[j] == self@[start + j],
                forall|j: int| m <= j < out@.len() ==> out@[j] == old(out)@[j],
            decreases m - i,
        {
            let idx = self.physical(start + i);
            out[i] = self.buf[idx];
            i = i + 1;
        }
        assert(out@ =~= self@.subrange(start as int, self@.len() as int)
            + old(out)@.subrange(m as int, old(out)@.len() as int));
    }
}

impl<T, const N: usize> Default for RingBuffer<T, N> {
    fn default() -> (r: Self)
        ensures
            r.wf(),
            r@ == Seq::<T>::empty(),
    {
        Self::new()
    }
}

/// Iterator over a ring's values from oldest to newest.
pub struct RingBufferIter<'a, T, const N: usize> {
    ring: &'a RingBuffer<T, N>,
    pos: usize,
}

impl<'a, T, const N: usize> RingBufferIter<'a, T, N> {
    /// The ring being walked is well formed and the position is within it.
    pub closed spec fn wf(&self) -> bool {
        self.ring.wf() && self.pos <= self.ring@.len()
    }

    /// All values the iterator walks over, oldest first.
    pub closed spec fn items(&self) -> Seq<T> {
        self.ring@
    }

    /// How many values were already handed out.
    pub closed spec fn pos(&self) -> nat {
        self.pos as nat
    }

    /// The next value, or `None` once every value was handed out.
    pub fn next(&mut self) -> (r: Option<&'a T>)
        requires
            old(self).wf(),
        ensures
            final(self).wf(),
            final(self).items() == old(self).items(),
            old(self).pos() < old(self).items().len() ==> {
                &&& r == Some(&old(self).items()[old(self).pos() as int])
                &&& final(self).pos() == old(self).pos() + 1
            },
            old(self).pos() >= old(self).items().len() ==> {
                &&& r.is_none()
                &&& final(self).pos() == old(self).pos()
            },
    {
        if self.pos >= self.ring.len {
            return None;
        }
        let idx = self.ring.physical(self.pos);
        self.pos = self.pos + 1;
        Some(&self.ring.buf[idx])
    }
}

} // verus!
