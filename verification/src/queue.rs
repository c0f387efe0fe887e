//! A first-in, first-out queue on the linked deque.

use crate::linked_list::LinkedList;
use vstd::prelude::*;

verus! {

/// A queue. Its view lists the elements from the oldest to the newest.
pub struct List<T> {
    items: LinkedList<T>,
}

impl<T> View for List<T> {
    type V = Seq<T>;

    closed spec fn view(&self) -> Seq<T> {
        self.items@
    }
}

impl<T> List<T> {
    /// An empty queue.
    pub fn new() -> (list: Self)
        ensures
            list@ == Seq::<T>::empty(),
    {
        List { items: LinkedList::new() }
    }

    /// Takes the oldest element out, if there is one.
    pub fn pop(&mut self) -> (r: Option<T>)
        ensures
            match r {
                Some(e) => {
                    &&& old(self)@.len() > 0
                    &&& e == old(self)@[0]
                    &&& final(self)@ == old(self)@.drop_first()
                },
                None => old(self)@.len() == 0 && final(self)@ == old(self)@,
            },
    {
        self.items.pop_front()
    }

    /// Adds `elem` as the newest element.
    pub fn push(&mut self, elem: T)
        ensures
            final(self)@ == old(self)@.push(elem),
    {
        self.items.push_back(elem)
    }
}

} // verus!
