use vstd::prelude::*;

use crate::chess_move::Move;

verus! {

/// A stack of at most `SIZE` values whose length can be saved and restored,
/// so that one buffer serves each depth of a search as a window.
pub struct StaticBuffer<E, const SIZE: usize> {
    data: Vec<E>,
}

/// The buffer a position record is written into.
pub type FenBuffer = StaticBuffer<u8, 90>;

impl<E, const SIZE: usize> StaticBuffer<E, SIZE> {
    /// The values held, oldest first.
    pub closed spec fn view(&self) -> Seq<E> {
        self.data@
    }

    pub closed spec fn wf(&self) -> bool {
        self.data@.len() <= SIZE
    }

    pub fn new() -> (r: Self)
        ensures
            r@ == Seq::<E>::empty(),
            r.wf(),
    {
        StaticBuffer { data: Vec::new() }
    }

    pub fn len(&self) -> (r: usize)
        ensures
            r == self@.len(),
    {
        self.data.len()
    }

    pub fn get(&self, index: usize) -> (r: E)
        where
            E: Copy,
        requires
            index < self@.len(),
        ensures
            r == self@[index as int],
    {
        self.data[index]
    }

    pub fn add(&mut self, value: E)
        requires
            old(self).wf(),
            old(self)@.len() < SIZE,
        ensures
            final(self)@ == old(self)@.push(value),
            final(self).wf(),
    {
        self.data.push(value);
    }

    pub fn as_slice(&self) -> (r: &[E])
        ensures
            r@ == self@,
    {
        self.data.as_slice()
    }

    /// Drops every value from position `value` on.
    pub fn restore_cursor(&mut self, value: usize)
        requires
            old(self).wf(),
            value <= old(self)@.len(),
        ensures
            final(self)@ == old(self)@.subrange(0, value as int),
            final(self).wf(),
    {
        self.data.truncate(value);
    }

    pub fn reset(&mut self)
        requires
            old(self).wf(),
        ensures
            final(self)@ == Seq::<E>::empty(),
            final(self).wf(),
    {
        self.restore_cursor(0);
    }
}

impl<const SIZE: usize> StaticBuffer<u8, SIZE> {
    pub fn contains(&self, expected: u8) -> (r: bool)
        ensures
            r == self@.contains(expected),
    {
        let mut i: usize = 0;
        while i < self.data.len()
            invariant
                i <= self.data@.len(),
                forall|j: int| 0 <= j < i ==> self.data@[j] != expected,
            decreases self.data@.len() - i,
        {
            if self.data[i] == expected {
                return true;
            }
            i = i + 1;
        }
        false
    }
}

impl<const SIZE: usize> StaticBuffer<Move, SIZE> {
    pub fn contains(&self, expected: Move) -> (r: bool)
        ensures
            r == self@.contains(expected),
    {
        let mut i: usize = 0;
        while i < self.data.len()
            invariant
                i <= self.data@.len(),
                forall|j: int| 0 <= j < i ==> self.data@[j] != expected,
            decreases self.data@.len() - i,
        {
            if self.data[i] == expected {
                return true;
            }
            i = i + 1;
        }
        false
    }
}

} // verus!
