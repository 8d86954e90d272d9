use vstd::prelude::*;

verus! {

/// An index that lies outside the live part of a chunk.
#[derive(Debug, Clone, PartialEq, Eq)]
pub struct OutOfBounds {
    index: usize,
    bound: usize,
}

impl OutOfBounds {
    /// The index that was asked for.
    pub closed spec fn spec_index(&self) -> usize {
        self.index
    }

    /// The bound that the index failed against.
    pub closed spec fn spec_bound(&self) -> usize {
        self.bound
    }

    pub fn new(index: usize, bound: usize) -> (r: OutOfBounds)
        ensures
            r.spec_index() == index,
            r.spec_bound() == bound,
    {
        OutOfBounds { index, bound }
    }

    pub fn index(&self) -> (r: usize)
        ensures
            r == self.spec_index(),
    {
        self.index
    }

    pub fn bound(&self) -> (r: usize)
        ensures
            r == self.spec_bound(),
    {
        self.bound
    }
}

/// A pop from a chunk that holds nothing.
#[derive(Debug, Clone, PartialEq, Eq)]
pub struct BufferEmpty {}

/// A push onto a chunk that is at capacity.
#[derive(Debug, Clone, PartialEq, Eq)]
pub struct BufferFilled {}

/// A slice longer than the room left in a chunk.
#[derive(Debug, Clone, PartialEq, Eq)]
pub struct CantFitSlice {}

} // verus!
