use vstd::prelude::*;

use crate::bunch_errors::{BufferEmpty, BufferFilled, CantFitSlice, OutOfBounds};

verus! {

/// A fixed-capacity block of storage whose first `filled()` slots hold
/// the live elements, in order.
#[derive(Debug)]
pub struct Bunch<T> {
    data: Vec<T>,
    size: usize,
}

impl<T> View for Bunch<T> {
    type V = Seq<T>;

    /// The live elements, in order.
    closed spec fn view(&self) -> Seq<T> {
        self.data@
    }
}

impl<T: Copy> Bunch<T> {
    /// The number of slots, fixed when the chunk is made.
    pub closed spec fn cap(&self) -> nat {
        self.size as nat
    }

    /// The live elements never outnumber the slots.
    pub open spec fn wf(&self) -> bool {
        self@.len() <= self.cap()
    }

    pub fn new(size: usize) -> (r: Bunch<T>)
        ensures
            r.wf(),
            r@ == Seq::<T>::empty(),
            r.cap() == size,
    {
        Bunch { data: Vec::with_capacity(size), size }
    }

    pub fn filled(&self) -> (r: usize)
        ensures
            r == self@.len(),
    {
        self.data.len()
    }

    /// The live elements as a slice.
    pub(crate) fn live(&self) -> (r: &[T])
        ensures
            r@ == self@,
    {
        self.data.as_slice()
    }

    pub fn get(&self, index: usize) -> (r: Result<T, OutOfBounds>)
        ensures
            match r {
                Ok(v) => index < self@.len() && v == self@[index as int],
                Err(e) => index >= self@.len() && e.spec_index() == index && e.spec_bound()
                    == self@.len(),
            },
    {
        if index >= self.data.len() {
            return Err(OutOfBounds::new(index, self.data.len()));
        }
        Ok(self.data[index])
    }

    pub fn set(&mut self, index: usize, data: T) -> (r: Result<(), OutOfBounds>)
        ensures
            final(self).cap() == old(self).cap(),
            match r {
                Ok(_) => index < old(self)@.len() && final(self)@ == old(self)@.update(
                    index as int,
                    data,
                ),
                Err(e) => index >= old(self)@.len() && final(self)@ == old(self)@
                    && e.spec_index() == index && e.spec_bound() == old(self)@.len(),
            },
    {
        if index >= self.data.len() {
            return Err(OutOfBounds::new(index, self.data.len()));
        }
        self.data.set(index, data);
        Ok(())
    }

    pub fn remove(&mut self, index: usize) -> (r: Result<T, OutOfBounds>)
        ensures
            final(self).cap() == old(self).cap(),
            match r {
                Ok(v) => index < old(self)@.len() && v == old(self)@[index as int]
                    && final(self)@ == old(self)@.remove(index as int),
                Err(e) => index >= old(self)@.len() && final(self)@ == old(self)@
                    && e.spec_index() == index && e.spec_bound() == old(self)@.len(),
            },
    {
        if index >= self.data.len() {
            return Err(OutOfBounds::new(index, self.data.len()));
        }
        Ok(self.data.remove(index))
    }

    /// Inserts `data` at `index`, shifting the elements from `index` on one
    /// slot to the right. On a full chunk the last element is pushed out and
    /// returned.
    pub fn insert(&mut self, index: usize, data: T) -> (r: Result<Option<T>, OutOfBounds>)
        requires
            old(self).wf(),
        ensures
            final(self).wf(),
            final(self).cap() == old(self).cap(),
            match r {
                Ok(None) => index <= old(self)@.len() && index < old(self).cap() && old(self)@.len()
                    < old(self).cap() && final(self)@ == old(self)@.insert(index as int, data),
                Ok(Some(v)) => index <= old(self)@.len() && index < old(self).cap()
                    && old(self)@.len() == old(self).cap() && v == old(self)@.last()
                    && final(self)@ == old(self)@.drop_last().insert(index as int, data),
                Err(e) => (index > old(self)@.len() || index >= old(self).cap()) && final(self)@
                    == old(self)@ && e.spec_index() == index && e.spec_bound() == old(self)@.len(),
            },
    {
        if index > self.data.len() || index >= self.size {
            return Err(OutOfBounds::new(index, self.data.len()));
        }
        if self.data.len() == self.size {
            let evicted = self.data.pop();
            self.data.insert(index, data);
            Ok(evicted)
        } else {
            self.data.insert(index, data);
            Ok(None)
        }
    }

    pub fn pop(&mut self) -> (r: Result<T, BufferEmpty>)
        ensures
            final(self).cap() == old(self).cap(),
            match r {
                Ok(v) => old(self)@.len() > 0 && v == old(self)@.last() && final(self)@ == old(
                    self,
                )@.drop_last(),
                Err(_) => old(self)@.len() == 0 && final(self)@ == old(self)@,
            },
    {
        match self.data.pop() {
            Some(v) => Ok(v),
            None => Err(BufferEmpty {  }),
        }
    }

    pub fn push(&mut self, data: T) -> (r: Result<(), BufferFilled>)
        requires
            old(self).wf(),
        ensures
            final(self).wf(),
            final(self).cap() == old(self).cap(),
            match r {
                Ok(_) => old(self)@.len() < old(self).cap() && final(self)@ == old(self)@.push(
                    data,
                ),
                Err(_) => old(self)@.len() == old(self).cap() && final(self)@ == old(self)@,
            },
    {
        if self.data.len() == self.size {
            return Err(BufferFilled {  });
        }
        self.data.push(data);
        Ok(())
    }

    /// Copies `data` in after the live elements, if there is room for all of it.
    pub fn append(&mut self, data: &[T]) -> (r: Result<(), CantFitSlice>)
        requires
            old(self).wf(),
        ensures
            final(self).wf(),
            final(self).cap() == old(self).cap(),
            match r {
                Ok(_) => data@.len() <= old(self).cap() - old(self)@.len() && final(self)@ == old(
                    self,
                )@ + data@,
                Err(_) => data@.len() > old(self).cap() - old(self)@.len() && final(self)@ == old(
                    self,
                )@,
            },
    {
        if data.len() > self.size - self.data.len() {
            return Err(CantFitSlice {  });
        }
        self.append_unchecked(data);
        Ok(())
    }

    /// Copies `data` in after the live elements; the caller has made sure
    /// that it fits.
    pub fn append_unchecked(&mut self, data: &[T])
        requires
            old(self).wf(),
            old(self)@.len() + data@.len() <= old(self).cap(),
        ensures
            final(self).wf(),
            final(self).cap() == old(self).cap(),
            final(self)@ == old(self)@ + data@,
    {
        let n = data.len();
        let mut i: usize = 0;
        while i < n
            invariant
                n == data@.len(),
                i <= n,
                self.size == old(self).size,
                self@ == old(self)@ + data@.subrange(0, i as int),
                old(self)@.len() + data@.len() <= old(self).cap(),
            decreases n - i,
        {
            self.data.push(data[i]);
            i = i + 1;
            assert(self@ =~= old(self)@ + data@.subrange(0, i as int));
        }
        assert(data@.subrange(0, n as int) =~= data@);
    }

    /// Drops every live element; the slots stay allocated.
    pub fn erase(&mut self)
        ensures
            final(self).wf(),
            final(self).cap() == old(self).cap(),
            final(self)@ == Seq::<T>::empty(),
    {
        self.data.clear();
    }
}

} // verus!
