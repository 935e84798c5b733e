//! A read-only view of two borrowed slices as one logical sequence, and a
//! forward iterator over it.
use vstd::prelude::*;

mod iter;

pub use iter::SplitSliceIterator;

verus! {

/// Two borrowed slices seen as one sequence: the elements of the first,
/// then those of the second. Nothing is copied.
pub struct SplitSlice<'a, T>(pub &'a [T], pub &'a [T]);

impl<'a, T> View for SplitSlice<'a, T> {
    type V = Seq<T>;

    /// The logical concatenation of the two parts.
    open spec fn view(&self) -> Seq<T> {
        self.0@ + self.1@
    }
}

impl<'a, T> SplitSlice<'a, T> {
    /// Total number of elements, as a mathematical integer.
    pub open spec fn spec_len(&self) -> nat {
        self.0@.len() + self.1@.len()
    }

    /// Whether the total length fits in a `usize`.
    pub open spec fn len_fits(&self) -> bool {
        self.spec_len() <= usize::MAX
    }

    /// Number of elements in both parts together.
    pub fn len(&self) -> (r: usize)
        requires
            self.len_fits(),
        ensures
            r == self.0@.len() + self.1@.len(),
            r == self@.len(),
    {
        self.0.len() + self.1.len()
    }

    /// Whether both parts are empty.
    pub fn is_empty(&self) -> (r: bool)
        ensures
            r == (self.0@.len() == 0 && self.1@.len() == 0),
            r == (self@.len() == 0),
    {
        self.0.len() == 0 && self.1.len() == 0
    }

    /// Starts a walk over the view at its first element.
    pub fn into_iter(self) -> (r: SplitSliceIterator<'a, T>)
        requires
            self.len_fits(),
        ensures
            r == SplitSliceIterator::spec_new(self),
            r.wf(),
            r.source() == self,
            r.remaining() == self@,
    {
        SplitSliceIterator::new(self)
    }

    /// References to all elements, in the order a walk produces them.
    pub fn to_vec(&self) -> (r: Vec<&'a T>)
        requires
            self.len_fits(),
        ensures
            r@.unref() == self@,
    {
        let mut it = self.clone().into_iter();
        let mut out: Vec<&'a T> = Vec::new();
        loop
            invariant
                it.wf(),
                it.source() == *self,
                out@.unref() + it.remaining() == self@,
            decreases it.remaining().len(),
        {
            match it.next() {
                Some(x) => {
                    proof {
                        assert(out@.push(x).unref() =~= out@.unref().push(*x));
                    }
                    out.push(x);
                },
                None => {
                    assert(out@.unref() =~= self@);
                    return out;
                },
            }
        }
    }
}

impl<'a, T> Clone for SplitSlice<'a, T> {
    /// A second view of the same two slices.
    fn clone(&self) -> (r: Self)
        ensures
            r == *self,
    {
        SplitSlice(self.0, self.1)
    }
}

impl<'a, T> Copy for SplitSlice<'a, T> {}

} // verus!
