//! Numbered places for what is under way.

use vstd::prelude::*;

verus! {

/// Values, each in a numbered place. A place that was given up is used again.
pub struct Slots<T> {
    cells: Vec<Option<T>>,
}

impl<T> View for Slots<T> {
    type V = Map<usize, T>;

    closed spec fn view(&self) -> Map<usize, T> {
        let cells = self.cells@;
        Map::new(|i: usize| i < cells.len() && cells[i as int] is Some, |i: usize| cells[i as int]->0)
    }
}

impl<T> Slots<T> {
    /// How many places there are, in use or not.
    pub closed spec fn room(&self) -> nat {
        self.cells@.len()
    }

    /// No place in use.
    pub fn new() -> (res: Self)
        ensures
            res@ == Map::<usize, T>::empty(),
    {
        let res = Slots { cells: Vec::new() };
        assert(res@ =~= Map::<usize, T>::empty());
        res
    }

    /// Puts a value into a place that is not in use.
    pub fn insert(&mut self, value: T) -> (slot: usize)
        ensures
            !old(self)@.dom().contains(slot),
            final(self)@ == old(self)@.insert(slot, value),
    {
        let mut i: usize = 0;
        while i < self.cells.len()
            invariant
                i <= self.cells@.len(),
                *self == *old(self),
            decreases self.cells@.len() - i,
        {
            if self.cells[i].is_none() {
                self.cells[i] = Some(value);
                assert(self@ =~= old(self)@.insert(i, value));
                return i;
            }
            i += 1;
        }
        self.cells.push(Some(value));
        assert(self@ =~= old(self)@.insert(i, value));
        i
    }

    /// Takes the value out of a place, which is then no longer in use.
    pub fn take(&mut self, slot: usize) -> (res: Option<T>)
        ensures
            match res {
                Some(value) => old(self)@.dom().contains(slot) && value == old(self)@[slot]
                    && final(self)@ == old(self)@.remove(slot) && slot < final(self).room(),
                None => !old(self)@.dom().contains(slot) && final(self)@ == old(self)@,
            },
    {
        if slot >= self.cells.len() {
            return None;
        }
        let res = self.cells[slot].take();
        proof {
            if res is Some {
                assert(self@ =~= old(self)@.remove(slot));
            } else {
                assert(self@ =~= old(self)@);
            }
        }
        res
    }

    /// Puts a value back into the place that it was taken from.
    pub fn put_back(&mut self, slot: usize, value: T)
        requires
            slot < old(self).room(),
        ensures
            final(self)@ == old(self)@.insert(slot, value),
    {
        self.cells[slot] = Some(value);
        assert(self@ =~= old(self)@.insert(slot, value));
    }
}

} // verus!
