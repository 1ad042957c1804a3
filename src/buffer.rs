//! A sequence indexed by a contiguous range of signed offsets that can grow
//! at both ends.
use std::ops::Range;
use vstd::prelude::*;

verus! {

/// The largest number of elements that one end of a buffer may hold.
pub const MAX_HALF: usize = 0x0fff_ffff;

/// Elements at indices `lo..hi`; index `i < 0` lives in `front[-1 - i]`,
/// index `i >= 0` in `back[i]`.
pub struct SignedBuffer<T> {
    front: Vec<T>,
    back: Vec<T>,
}

impl<T> SignedBuffer<T> {
    /// The lowest index that holds an element.
    pub closed spec fn lo(&self) -> int {
        -(self.front@.len() as int)
    }

    /// One past the highest index that holds an element.
    pub closed spec fn hi(&self) -> int {
        self.back@.len() as int
    }

    /// The element at signed index `i`, for `lo() <= i < hi()`.
    pub closed spec fn at(&self, i: int) -> T {
        if i < 0 {
            self.front@[-1 - i]
        } else {
            self.back@[i]
        }
    }

    /// Index `i` holds an element.
    pub open spec fn has(&self, i: int) -> bool {
        self.lo() <= i < self.hi()
    }

    /// Both ends fit the index type.
    pub open spec fn wf(&self) -> bool {
        -(MAX_HALF as int) <= self.lo() <= 0 <= self.hi() <= MAX_HALF
    }

    /// An empty buffer with bounds `0..0`.
    pub fn new() -> (r: Self)
        ensures
            r.wf(),
            r.lo() == 0,
            r.hi() == 0,
    {
        SignedBuffer { front: Vec::new(), back: Vec::new() }
    }

    /// The range of indices that hold an element.
    pub fn bounds(&self) -> (r: Range<isize>)
        requires
            self.wf(),
        ensures
            r.start == self.lo(),
            r.end == self.hi(),
    {
        let start: isize = -(self.front.len() as isize);
        let end: isize = self.back.len() as isize;
        start..end
    }

    /// The element at `i`, or `None` where `i` lies outside the bounds.
    pub fn get(&self, i: isize) -> (r: Option<&T>)
        requires
            self.wf(),
        ensures
            r.is_some() == self.has(i as int),
            r.is_some() ==> *r.unwrap() == self.at(i as int),
    {
        if i < 0 {
            let k: usize = (-1 - i) as usize;
            if k < self.front.len() {
                Some(&self.front[k])
            } else {
                None
            }
        } else {
            let k: usize = i as usize;
            if k < self.back.len() {
                Some(&self.back[k])
            } else {
                None
            }
        }
    }

    /// The element at the lowest index.
    pub fn first(&self) -> (r: Option<&T>)
        requires
            self.wf(),
        ensures
            r.is_some() == (self.lo() < self.hi()),
            r.is_some() ==> *r.unwrap() == self.at(self.lo()),
    {
        let lo: isize = -(self.front.len() as isize);
        self.get(lo)
    }

    /// The element at the highest index.
    pub fn last(&self) -> (r: Option<&T>)
        requires
            self.wf(),
        ensures
            r.is_some() == (self.lo() < self.hi()),
            r.is_some() ==> *r.unwrap() == self.at(self.hi() - 1),
    {
        let hi: isize = self.back.len() as isize;
        self.get(hi - 1)
    }

    /// Appends `xs` after the highest index.
    pub fn extend_end(&mut self, xs: Vec<T>)
        requires
            old(self).wf(),
            old(self).hi() + xs@.len() <= MAX_HALF,
        ensures
            final(self).wf(),
            final(self).lo() == old(self).lo(),
            final(self).hi() == old(self).hi() + xs@.len(),
            forall|i: int| old(self).has(i) ==> final(self).at(i) == old(self).at(i),
            forall|k: int| 0 <= k < xs@.len() ==> final(self).at(old(self).hi() + k) == xs@[k],
    {
        let mut xs = xs;
        self.back.append(&mut xs);
    }

    /// Prepends `xs`, given in index order: `xs[0]` lands on the new lowest index.
    pub fn extend_front(&mut self, xs: Vec<T>)
        requires
            old(self).wf(),
            -old(self).lo() + xs@.len() <= MAX_HALF,
        ensures
            final(self).wf(),
            final(self).hi() == old(self).hi(),
            final(self).lo() == old(self).lo() - xs@.len(),
            forall|i: int| old(self).has(i) ==> final(self).at(i) == old(self).at(i),
            forall|k: int| 0 <= k < xs@.len() ==> final(self).at(final(self).lo() + k) == xs@[k],
    {
        let mut xs = xs;
        let ghost xs0 = xs@;
        let ghost f0 = self.front@;
        let n = xs.len();
        let mut j: usize = n;
        while j > 0
            invariant
                j <= n,
                n == xs0.len(),
                xs@ == xs0.subrange(0, j as int),
                self.back@ == old(self).back@,
                f0 == old(self).front@,
                f0.len() + n <= MAX_HALF,
                self.front@.len() == f0.len() + (n - j),
                forall|k: int| 0 <= k < f0.len() ==> self.front@[k] == f0[k],
                forall|k: int| j <= k < n ==> self.front@[f0.len() + (n - 1 - k)] == xs0[k],
            decreases j,
        {
            let x = xs.pop().unwrap();
            self.front.push(x);
            j = j - 1;
        }
        assert forall|k: int| 0 <= k < n implies self.at(self.lo() + k) == xs0[k] by {
            assert(self.lo() + k < 0);
            assert(-1 - (self.lo() + k) == f0.len() + (n - 1 - k));
        }
    }
}

} // verus!
