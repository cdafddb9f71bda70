//! A vector that never holds more than a fixed number of items.

use vstd::prelude::*;

verus! {

/// A sequence of at most `CAPACITY` items.
pub struct CapacityVec<T, const CAPACITY: usize> {
    data: Vec<T>,
}

impl<T, const CAPACITY: usize> View for CapacityVec<T, CAPACITY> {
    type V = Seq<T>;

    closed spec fn view(&self) -> Seq<T> {
        self.data@
    }
}

impl<T, const CAPACITY: usize> CapacityVec<T, CAPACITY> {
    /// The vector holds no more than `CAPACITY` items.
    pub open spec fn wf(&self) -> bool {
        self@.len() <= CAPACITY
    }

    /// A vector without items.
    pub fn empty() -> (r: Self)
        ensures
            r.wf(),
            r@ == Seq::<T>::empty(),
    {
        CapacityVec { data: Vec::new() }
    }

    /// Number of items held.
    pub fn len(&self) -> (r: usize)
        ensures
            r == self@.len(),
            self.wf() ==> r <= CAPACITY,
    {
        self.data.len()
    }

    /// Appends `item`. One slot always stays unused, so the vector must hold
    /// fewer than `CAPACITY - 1` items before the call.
    pub fn push(&mut self, item: T)
        requires
            old(self)@.len() + 1 < CAPACITY,
        ensures
            final(self).wf(),
            final(self)@ == old(self)@.push(item),
    {
        self.data.push(item);
    }

    /// The item at `index`.
    pub fn get(&self, index: usize) -> (r: &T)
        requires
            index < self@.len(),
        ensures
            *r == self@[index as int],
    {
        &self.data[index]
    }

    /// Replaces the item at `index` by `item`.
    pub fn set(&mut self, index: usize, item: T)
        requires
            index < old(self)@.len(),
        ensures
            final(self).wf() == old(self).wf(),
            final(self)@ == old(self)@.update(index as int, item),
    {
        self.data[index] = item;
    }

    /// Takes the item at `index` out; the items behind it move up by one.
    pub fn remove(&mut self, index: usize) -> (r: T)
        requires
            index < old(self)@.len(),
        ensures
            old(self).wf() ==> final(self).wf(),
            r == old(self)@[index as int],
            final(self)@ == old(self)@.remove(index as int),
    {
        self.data.remove(index)
    }

    /// The items as a slice.
    pub fn as_slice(&self) -> (r: &[T])
        ensures
            r@ == self@,
    {
        self.data.as_slice()
    }
}

impl<T: Copy, const CAPACITY: usize> CapacityVec<T, CAPACITY> {
    /// The first `CAPACITY` items of `items`, or all of them if they are fewer.
    pub fn from_slice(items: &[T]) -> (r: Self)
        ensures
            r.wf(),
            r@ == items@.take(if items@.len() <= CAPACITY { items@.len() as int } else { CAPACITY as int }),
    {
        let mut data: Vec<T> = Vec::new();
        let mut i: usize = 0;
        while i < items.len() && i < CAPACITY
            invariant
                i <= items@.len(),
                i <= CAPACITY,
                data@ == items@.take(i as int),
            decreases items@.len() - i,
        {
            data.push(items[i]);
            i += 1;
            assert(items@.take(i as int) =~= items@.take(i - 1).push(items@[i - 1]));
        }
        CapacityVec { data }
    }
}

} // verus!
