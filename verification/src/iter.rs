//! Iterators over the deque: from both ends, and always aware of how much is left.

use crate::arena::{handle_at, handle_before};
use crate::linked_list::LinkedList;
use vstd::prelude::*;

verus! {

/// Reads the elements of a deque, from the front and from the back.
///
/// What it has not handed out yet is `remaining()`, a stretch of the deque.
pub struct Iter<'a, T> {
    list: &'a LinkedList<T>,
    /// Handle of the first node that remains.
    front: Option<usize>,
    /// Handle of the last node that remains.
    back: Option<usize>,
    /// Number of nodes that remain.
    len: usize,
    /// Position of the first node that remains.
    lo: Ghost<int>,
}

impl<'a, T> Iter<'a, T> {
    /// What remains is a stretch of the deque, and `front` and `back` are its ends.
    #[verifier::type_invariant]
    spec fn inv(&self) -> bool {
        &&& self.list.inv()
        &&& 0 <= self.lo@
        &&& self.lo@ + self.len <= self.list.handles().len()
        &&& self.len > 0 ==> self.front == handle_at(self.list.handles(), self.lo@) && self.back
            == handle_before(self.list.handles(), self.lo@ + self.len)
    }

    /// The elements not handed out yet, in deque order.
    pub closed spec fn remaining(&self) -> Seq<T> {
        self.list@.subrange(self.lo@, self.lo@ + self.len)
    }

    /// An iterator over all of `list`.
    pub(crate) fn new(list: &'a LinkedList<T>) -> (it: Self)
        ensures
            it.remaining() == list@,
    {
        proof {
            use_type_invariant(list);
        }
        let it = Iter {
            list,
            front: list.arena.head(),
            back: list.arena.tail(),
            len: list.arena.len(),
            lo: Ghost(0),
        };
        it
    }

    /// Hands out the first remaining element.
    pub fn next(&mut self) -> (r: Option<&'a T>)
        ensures
            match r {
                Some(e) => {
                    &&& old(self).remaining().len() > 0
                    &&& *e == old(self).remaining()[0]
                    &&& final(self).remaining() == old(self).remaining().drop_first()
                },
                None => {
                    &&& old(self).remaining().len() == 0
                    &&& final(self).remaining() == old(self).remaining()
                },
            },
    {
        proof {
            use_type_invariant(&*self);
        }
        if self.len == 0 {
            return None;
        }
        match self.front {
            Some(h) => {
                let list = self.list;
                let e = list.arena.elem(h, Ghost(self.lo@));
                let next = list.arena.next(h, Ghost(self.lo@));
                *self = Iter {
                    list,
                    front: next,
                    back: self.back,
                    len: self.len - 1,
                    lo: Ghost(self.lo@ + 1),
                };
                Some(e)
            },
            None => None,
        }
    }

    /// Hands out the last remaining element.
    pub fn next_back(&mut self) -> (r: Option<&'a T>)
        ensures
            match r {
                Some(e) => {
                    &&& old(self).remaining().len() > 0
                    &&& *e == old(self).remaining().last()
                    &&& final(self).remaining() == old(self).remaining().drop_last()
                },
                None => {
                    &&& old(self).remaining().len() == 0
                    &&& final(self).remaining() == old(self).remaining()
                },
            },
    {
        proof {
            use_type_invariant(&*self);
        }
        if self.len == 0 {
            return None;
        }
        match self.back {
            Some(h) => {
                let list = self.list;
                let ghost at = self.lo@ + self.len - 1;
                let e = list.arena.elem(h, Ghost(at));
                let prev = list.arena.prev(h, Ghost(at));
                *self = Iter {
                    list,
                    front: self.front,
                    back: prev,
                    len: self.len - 1,
                    lo: self.lo,
                };
                Some(e)
            },
            None => None,
        }
    }

    /// Number of elements that remain.
    pub fn len(&self) -> (n: usize)
        ensures
            n == self.remaining().len(),
    {
        proof {
            use_type_invariant(self);
        }
        self.len
    }

    /// Lower and upper bound of the number of elements that remain: both exact.
    pub fn size_hint(&self) -> (r: (usize, Option<usize>))
        ensures
            r.0 == self.remaining().len(),
            r.1 == Some(r.0),
    {
        proof {
            use_type_invariant(self);
        }
        (self.len, Some(self.len))
    }
}

/// Hands out the elements of a deque for writing, from the front and from the back.
///
/// What it has not handed out yet is `remaining()`: `len` elements of the deque,
/// from position `lo` on.
///
/// While the iterator lives, the deque can be reached through it alone. The fields are
/// public so that contracts can speak of the borrowed deque, of what it holds now and
/// of what it holds once the iterator is gone; code goes through the methods, which
/// keep `wf`.
pub struct IterMut<'a, T> {
    /// The deque that is walked.
    pub list: &'a mut LinkedList<T>,
    /// Handle of the first node that remains.
    pub front: Option<usize>,
    /// Handle of the last node that remains.
    pub back: Option<usize>,
    /// Number of nodes that remain.
    pub len: usize,
    /// Position of the first node that remains.
    pub lo: Ghost<int>,
}

impl<'a, T> IterMut<'a, T> {
    /// What remains is a stretch of the deque, and `front` and `back` are its ends.
    pub open(crate) spec fn wf(&self) -> bool {
        &&& 0 <= self.lo@
        &&& self.lo@ + self.len <= self.list.handles().len()
        &&& self.len > 0 ==> self.front == handle_at(self.list.handles(), self.lo@) && self.back
            == handle_before(self.list.handles(), self.lo@ + self.len)
    }

    /// The elements not handed out yet, in deque order.
    pub open spec fn remaining(&self) -> Seq<T> {
        self.list@.subrange(self.lo@, self.lo@ + self.len)
    }

    /// An iterator over all of `list`.
    pub(crate) fn new(list: &'a mut LinkedList<T>) -> (it: Self)
        ensures
            it.wf(),
            it.list@ == old(list)@,
            it.remaining() == old(list)@,
            it.lo@ == 0,
            it.len == old(list)@.len(),
            *final(list) == *final(it.list),
    {
        proof {
            use_type_invariant(&*list);
        }
        let front = list.arena.head();
        let back = list.arena.tail();
        let len = list.arena.len();
        let it = IterMut { list, front, back, len, lo: Ghost(0) };
        it
    }

    /// Hands out the first remaining element, at position `lo` of the deque.
    pub fn next(&mut self) -> (r: Option<&mut T>)
        requires
            old(self).wf(),
        ensures
            final(self).wf(),
            *final(final(self).list) == *final(old(self).list),
            match r {
                Some(e) => {
                    &&& old(self).remaining().len() > 0
                    &&& *e == old(self).remaining()[0]
                    &&& final(self).list@ == old(self).list@.update(old(self).lo@, *final(e))
                    &&& final(self).remaining() == old(self).remaining().drop_first()
                    &&& final(self).lo@ == old(self).lo@ + 1
                },
                None => {
                    &&& old(self).remaining().len() == 0
                    &&& final(self).list@ == old(self).list@
                    &&& final(self).remaining() == old(self).remaining()
                    &&& final(self).lo@ == old(self).lo@
                },
            },
    {
        proof {
            use_type_invariant(&*self.list);
        }
        if self.len == 0 {
            return None;
        }
        match self.front {
            Some(h) => {
                let ghost at = self.lo@;
                self.front = self.list.arena.next(h, Ghost(at));
                self.len = self.len - 1;
                self.lo = Ghost(at + 1);
                self.list.arena.elem_mut(h, Ghost(at))
            },
            None => None,
        }
    }

    /// Hands out the last remaining element, at position `lo + len - 1` of the deque.
    pub fn next_back(&mut self) -> (r: Option<&mut T>)
        requires
            old(self).wf(),
        ensures
            final(self).wf(),
            *final(final(self).list) == *final(old(self).list),
            final(self).lo@ == old(self).lo@,
            match r {
                Some(e) => {
                    &&& old(self).remaining().len() > 0
                    &&& *e == old(self).remaining().last()
                    &&& final(self).list@ == old(self).list@.update(
                        old(self).lo@ + old(self).len - 1,
                        *final(e),
                    )
                    &&& final(self).remaining() == old(self).remaining().drop_last()
                },
                None => {
                    &&& old(self).remaining().len() == 0
                    &&& final(self).list@ == old(self).list@
                    &&& final(self).remaining() == old(self).remaining()
                },
            },
    {
        proof {
            use_type_invariant(&*self.list);
        }
        if self.len == 0 {
            return None;
        }
        match self.back {
            Some(h) => {
                let ghost at = self.lo@ + self.len - 1;
                self.back = self.list.arena.prev(h, Ghost(at));
                self.len = self.len - 1;
                self.list.arena.elem_mut(h, Ghost(at))
            },
            None => None,
        }
    }

    /// Number of elements that remain.
    pub fn len(&self) -> (n: usize)
        requires
            self.wf(),
        ensures
            n == self.remaining().len(),
    {
        proof {
            use_type_invariant(&*self.list);
        }
        self.len
    }

    /// Lower and upper bound of the number of elements that remain: both exact.
    pub fn size_hint(&self) -> (r: (usize, Option<usize>))
        requires
            self.wf(),
        ensures
            r.0 == self.remaining().len(),
            r.1 == Some(r.0),
    {
        proof {
            use_type_invariant(&*self.list);
        }
        (self.len, Some(self.len))
    }
}

} // verus!
