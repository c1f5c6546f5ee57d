//! Half-open intervals.

use std::ops::Add;
use std::ops::Sub;
use vstd::prelude::*;
use vstd::std_specs::ops::AddSpec;
use vstd::std_specs::ops::SubSpec;

verus! {

/// A half-open interval `[start, end)` over any copyable scalar.
///
/// Nothing forces `start <= end`: an interval is a pair of bounds, and the
/// functions that need an ordered pair say so themselves.
pub struct Range<T: Copy> {
    start: T,
    end: T,
}

impl<T: Copy> Copy for Range<T> {

}

impl<T: Copy> Clone for Range<T> {
    /// A copy with the same bounds.
    fn clone(&self) -> (ret: Self)
        ensures
            ret == *self,
    {
        *self
    }
}

impl<T: Copy> Range<T> {
    /// The lower bound, as contracts see it.
    pub closed spec fn spec_start(&self) -> T {
        self.start
    }

    /// The upper bound, as contracts see it.
    pub closed spec fn spec_end(&self) -> T {
        self.end
    }

    /// Builds the interval from a `(start, end)` pair.
    pub fn new_from_tuple(range: (T, T)) -> (ret: Self)
        ensures
            ret.start() == range.0,
            ret.end() == range.1,
    {
        Range::new(range.0, range.1)
    }

    /// Builds the interval `[start, end)`.
    pub fn new(start: T, end: T) -> (ret: Self)
        ensures
            ret.start() == start,
            ret.end() == end,
    {
        Range { start, end }
    }

    /// The lower bound.
    #[verifier::when_used_as_spec(spec_start)]
    pub fn start(&self) -> (ret: T)
        ensures
            ret == self.spec_start(),
    {
        self.start
    }

    /// The upper bound.
    #[verifier::when_used_as_spec(spec_end)]
    pub fn end(&self) -> (ret: T)
        ensures
            ret == self.spec_end(),
    {
        self.end
    }
}

impl<T: Sub<Output = T> + Copy> Range<T> {
    /// The distance `end - start`, computed by the scalar's own subtraction.
    pub fn size(&self) -> (ret: T)
        requires
            self.end().sub_req(self.start()),
        ensures
            T::obeys_sub_spec() ==> ret == self.end().sub_spec(self.start()),
    {
        self.end - self.start
    }
}

impl<T: Add<Output = T> + Copy> Range<T> {
    /// Moves both bounds by `mv`.
    pub fn shift(&mut self, mv: T)
        requires
            old(self).start().add_req(mv),
            old(self).end().add_req(mv),
        ensures
            T::obeys_add_spec() ==> final(self).start() == old(self).start().add_spec(mv),
            T::obeys_add_spec() ==> final(self).end() == old(self).end().add_spec(mv),
    {
        self.start = self.start + mv;
        self.end = self.end + mv;
    }
}

impl<T: Add<Output = T> + Sub<Output = T> + Copy> Range<T> {
    /// Pulls both bounds inwards by `shrink`: the lower bound rises and the
    /// upper bound falls by the same amount.
    pub fn shrink(&mut self, shrink: T)
        requires
            old(self).start().add_req(shrink),
            old(self).end().sub_req(shrink),
        ensures
            T::obeys_add_spec() ==> final(self).start() == old(self).start().add_spec(shrink),
            T::obeys_sub_spec() ==> final(self).end() == old(self).end().sub_spec(shrink),
    {
        self.start = self.start + shrink;
        self.end = self.end - shrink;
    }
}

impl Range<usize> {
    /// The interval as a standard range, ready to be walked.
    pub fn iterable(&self) -> (ret: std::ops::Range<usize>)
        ensures
            ret.start == self.start(),
            ret.end == self.end(),
    {
        self.start..self.end
    }
}

} // verus!
