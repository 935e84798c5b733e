use vstd::prelude::*;

use crate::SplitSlice;

verus! {

/// A forward cursor over a `SplitSlice`: the elements of the first part in
/// order, then those of the second, then nothing, for good.
pub struct SplitSliceIterator<'a, T> {
    split_slice: SplitSlice<'a, T>,
    position: usize,
}

impl<'a, T> SplitSliceIterator<'a, T> {
    /// The view being walked.
    pub closed spec fn source(self) -> SplitSlice<'a, T> {
        self.split_slice
    }

    /// How many elements have been produced so far.
    pub closed spec fn produced(self) -> nat {
        self.position as nat
    }

    /// The cursor stays within the view, whose length fits in a `usize`.
    pub closed spec fn wf(self) -> bool {
        &&& self.split_slice.len_fits()
        &&& self.position <= self.split_slice.spec_len()
    }

    /// The iterator that has not produced anything yet.
    pub closed spec fn spec_new(split_slice: SplitSlice<'a, T>) -> Self {
        SplitSliceIterator { split_slice, position: 0 }
    }

    /// The same walk, one element further.
    pub closed spec fn advanced(self) -> Self {
        SplitSliceIterator { split_slice: self.split_slice, position: (self.position + 1) as usize }
    }

    /// The elements still to come, in order.
    pub open spec fn remaining(self) -> Seq<T> {
        self.source()@.skip(self.produced() as int)
    }

    /// One step of the walk: the state after it, and the element produced,
    /// if any.
    pub open spec fn next_spec(self) -> (Self, Option<T>) {
        if self.remaining().len() > 0 {
            (self.advanced(), Some(self.remaining()[0]))
        } else {
            (self, None)
        }
    }

    /// The state after `n` steps.
    pub open spec fn advance_by(self, n: nat) -> Self
        decreases n,
    {
        if n == 0 {
            self
        } else {
            self.next_spec().0.advance_by((n - 1) as nat)
        }
    }

    /// What the next `n` steps produce, one entry per step.
    pub open spec fn outputs(self, n: nat) -> Seq<Option<T>>
        decreases n,
    {
        if n == 0 {
            Seq::empty()
        } else {
            seq![self.next_spec().1] + self.next_spec().0.outputs((n - 1) as nat)
        }
    }

    /// Starts a walk over `split_slice` at its first element.
    pub fn new(split_slice: SplitSlice<'a, T>) -> (r: Self)
        requires
            split_slice.len_fits(),
        ensures
            r == Self::spec_new(split_slice),
            r.wf(),
            r.source() == split_slice,
            r.produced() == 0,
            r.remaining() == split_slice@,
    {
        let r = SplitSliceIterator { split_slice, position: 0 };
        assert(r.remaining() =~= split_slice@);
        r
    }

    /// Produces the next element, or `None` once both parts are used up.
    pub fn next(&mut self) -> (r: Option<&'a T>)
        requires
            old(self).wf(),
        ensures
            final(self).wf(),
            *final(self) == old(self).next_spec().0,
            final(self).source() == old(self).source(),
            final(self).remaining() == if old(self).remaining().len() > 0 {
                old(self).remaining().drop_first()
            } else {
                old(self).remaining()
            },
            r is None <==> old(self).remaining().len() == 0,
            r matches Some(x) ==> old(self).next_spec().1 == Some(*x),
            r matches Some(x) ==> *x == old(self).remaining()[0],
    {
        let ghost pre = *self;
        proof {
            lemma_step(pre);
        }
        if self.position < self.split_slice.0.len() {
            let item = &self.split_slice.0[self.position];
            self.position = self.position + 1;
            Some(item)
        } else {
            let position_2 = self.position - self.split_slice.0.len();
            if position_2 < self.split_slice.1.len() {
                let item = &self.split_slice.1[position_2];
                self.position = self.position + 1;
                Some(item)
            } else {
                None
            }
        }
    }

    /// The exact number of elements still to come.
    pub fn len(&self) -> (r: usize)
        requires
            self.wf(),
        ensures
            r == self.remaining().len(),
            r + self.produced() == self.source()@.len(),
    {
        self.split_slice.len() - self.position
    }

    /// Lower and upper bound on the elements still to come; both are exact.
    pub fn size_hint(&self) -> (r: (usize, Option<usize>))
        requires
            self.wf(),
        ensures
            r.0 == self.remaining().len(),
            r.1 == Some(self.remaining().len() as usize),
    {
        (self.len(), Some(self.len()))
    }
}

/// What one step does to a well-formed walk, in terms of the two parts.
proof fn lemma_step<'a, T>(it: SplitSliceIterator<'a, T>)
    requires
        it.wf(),
    ensures
        it.remaining().len() == it.source()@.len() - it.produced(),
        it.next_spec().0.wf(),
        it.next_spec().0.source() == it.source(),
        it.remaining().len() > 0 ==> it.next_spec().0.remaining() == it.remaining().drop_first(),
        it.remaining().len() > 0 ==> it.next_spec().0.produced() == it.produced() + 1,
        it.produced() < it.source().0@.len() ==> it.remaining()[0] == it.source().0@[
            it.produced() as int
        ],
        it.source().0@.len() <= it.produced() < it.source()@.len() ==> it.remaining()[0]
            == it.source().1@[it.produced() - it.source().0@.len()],
{
    let s = it.source()@;
    let p = it.produced() as int;
    if p < s.len() {
        assert(it.next_spec().0.remaining() =~= it.remaining().drop_first());
    }
}

/// After `k` steps a well-formed walk is still well formed, over the same
/// view, and has `k` fewer elements left, or none once `k` reaches what was
/// left: the exact count never drifts, before or after exhaustion.
pub proof fn lemma_remaining_after_steps<'a, T>(it: SplitSliceIterator<'a, T>, k: nat)
    requires
        it.wf(),
    ensures
        it.advance_by(k).wf(),
        it.advance_by(k).source() == it.source(),
        it.advance_by(k).remaining().len() == if k <= it.remaining().len() {
            it.remaining().len() - k
        } else {
            0
        },
        k <= it.remaining().len() ==> it.advance_by(k).remaining() == it.remaining().skip(
            k as int,
        ),
    decreases k,
{
    lemma_step(it);
    if k > 0 {
        let next = it.next_spec().0;
        lemma_remaining_after_steps(next, (k - 1) as nat);
        if 0 < k <= it.remaining().len() {
            assert(it.remaining().drop_first().skip(k - 1) =~= it.remaining().skip(k as int));
        }
    } else {
        assert(it.remaining().skip(0) =~= it.remaining());
    }
}

/// A well-formed walk produces exactly its remaining elements, one per step
/// and in order, and then reports exhaustion: the number of steps that still
/// produce an element is exactly the remaining count.
pub proof fn lemma_walk_produces_remaining<'a, T>(it: SplitSliceIterator<'a, T>)
    requires
        it.wf(),
    ensures
        it.produced() + it.remaining().len() == it.source()@.len(),
        it.outputs(it.remaining().len()) == it.remaining().map_values(|x: T| Some(x)),
        it.advance_by(it.remaining().len()).next_spec().1 is None,
        it.advance_by(it.remaining().len()).remaining().len() == 0,
    decreases it.remaining().len(),
{
    lemma_step(it);
    let n = it.remaining().len();
    if n > 0 {
        let next = it.next_spec().0;
        lemma_walk_produces_remaining(next);
        assert(it.outputs(n) =~= it.remaining().map_values(|x: T| Some(x)));
    } else {
        assert(it.outputs(0) =~= it.remaining().map_values(|x: T| Some(x)));
    }
}

/// Once a step reports exhaustion, every later step does too, and the walk
/// no longer changes.
pub proof fn lemma_exhaustion_is_sticky<'a, T>(it: SplitSliceIterator<'a, T>, k: nat)
    requires
        it.next_spec().1 is None,
    ensures
        it.advance_by(k) == it,
        it.advance_by(k).next_spec().1 is None,
        it.outputs(k) == Seq::new(k, |i: int| None::<T>),
    decreases k,
{
    if k > 0 {
        lemma_exhaustion_is_sticky(it, (k - 1) as nat);
        assert(it.outputs(k) =~= Seq::new(k, |i: int| None::<T>));
    } else {
        assert(it.outputs(0) =~= Seq::new(0, |i: int| None::<T>));
    }
}

/// Walking `SplitSlice(a, b)` from the start produces the elements of `a` in
/// order, then those of `b` in order, as many as the view's length, and then
/// reports exhaustion.
pub proof fn lemma_walk_is_concatenation<'a, T>(a: &'a [T], b: &'a [T])
    requires
        a@.len() + b@.len() <= usize::MAX,
    ensures
        ({
            let it = SplitSliceIterator::spec_new(SplitSlice(a, b));
            let n = a@.len() + b@.len();
            &&& it.outputs(n) == (a@ + b@).map_values(|x: T| Some(x))
            &&& it.advance_by(n).next_spec().1 is None
        }),
{
    let s = SplitSlice(a, b);
    let it = SplitSliceIterator::spec_new(s);
    assert(it.wf());
    assert(it.remaining() =~= a@ + b@);
    lemma_walk_produces_remaining(it);
}

} // verus!
