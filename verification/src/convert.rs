//! Deques from and to plain sequences, and copies of deques.

use crate::linked_list::LinkedList;
use crate::model::{step, yielded, Op};
use vstd::prelude::*;
use vstd::std_specs::iter::IteratorSpec;

verus! {

impl<T> Default for LinkedList<T> {
    /// An empty deque.
    fn default() -> (list: Self)
        ensures
            list@ == Seq::<T>::empty(),
    {
        LinkedList::new()
    }
}

impl<T: Clone> Clone for LinkedList<T> {
    /// A deque of clones of the elements, in the same order.
    fn clone(&self) -> (res: Self)
        ensures
            res@.len() == self@.len(),
            forall|i: int| 0 <= i < self@.len() ==> cloned::<T>(#[trigger] self@[i], res@[i]),
    {
        let mut new_list = Self::new();
        let mut it = self.iter();
        loop
            invariant
                new_list@.len() + it.remaining().len() == self@.len(),
                it.remaining() == self@.skip(new_list@.len() as int),
                forall|i: int|
                    0 <= i < new_list@.len() ==> cloned::<T>(#[trigger] self@[i], new_list@[i]),
            ensures
                new_list@.len() == self@.len(),
                forall|i: int|
                    0 <= i < self@.len() ==> cloned::<T>(#[trigger] self@[i], new_list@[i]),
            decreases it.remaining().len(),
        {
            match it.next() {
                Some(item) => {
                    new_list.push_back(item.clone());
                },
                None => {
                    break ;
                },
            }
        }
        new_list
    }
}

impl<T> LinkedList<T> {
    /// Adds what `iter` hands out at the back, in the order in which it comes.
    pub fn extend<I: Iterator<Item = T>>(&mut self, iter: I)
        requires
            iter.obeys_prophetic_iter_laws(),
            iter.decrease() is Some,
        ensures
            final(self)@ == old(self)@ + iter.remaining(),
    {
        let ghost start = self@;
        let ghost all = iter.remaining();
        let mut iter = iter;
        loop
            invariant
                iter.obeys_prophetic_iter_laws(),
                iter.decrease() is Some,
                self@ + iter.remaining() == start + all,
            ensures
                self@ == start + all,
            decreases iter.decrease()->0,
        {
            match iter.next() {
                Some(item) => {
                    self.push_back(item);
                },
                None => {
                    break ;
                },
            }
        }
    }

    /// A deque of what `iter` hands out, in the order in which it comes.
    pub fn from_iter<I: Iterator<Item = T>>(iter: I) -> (list: Self)
        requires
            iter.obeys_prophetic_iter_laws(),
            iter.decrease() is Some,
        ensures
            list@ == iter.remaining(),
    {
        let mut list = Self::new();
        list.extend(iter);
        list
    }

    /// Hands the first element out, as `pop_front` does: the deque is its own draining
    /// iterator.
    pub fn next(&mut self) -> (r: Option<T>)
        ensures
            r == yielded(old(self)@, Op::PopFront),
            final(self)@ == step(old(self)@, Op::PopFront),
    {
        self.pop_front()
    }

    /// Hands the last element out, as `pop_back` does.
    pub fn next_back(&mut self) -> (r: Option<T>)
        ensures
            r == yielded(old(self)@, Op::PopBack),
            final(self)@ == step(old(self)@, Op::PopBack),
    {
        if self.len() == 0 {
            None
        } else {
            self.pop_back()
        }
    }

    /// The elements, front to back, taken out of the deque.
    pub fn into_vec(self) -> (items: Vec<T>)
        ensures
            items@ == self@,
    {
        let mut list = self;
        let mut items = Vec::new();
        loop
            invariant
                items@ + list@ == self@,
            ensures
                items@ == self@,
            decreases list@.len(),
        {
            match list.pop_front() {
                Some(x) => {
                    items.push(x);
                },
                None => {
                    break ;
                },
            }
        }
        items
    }
}

} // verus!
