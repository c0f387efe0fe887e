//! The doubly linked deque.

use crate::arena::{handle_at, handle_before, Arena};
use crate::cursor::CursorMut;
use crate::iter::{Iter, IterMut};
use crate::model::{step, yielded, Op};
use vstd::prelude::*;

verus! {

/// A double-ended queue of linked nodes.
///
/// Its view is the sequence of its elements, front to back.
pub struct LinkedList<T> {
    pub(crate) arena: Arena<T>,
}

impl<T> View for LinkedList<T> {
    type V = Seq<T>;

    open(crate) spec fn view(&self) -> Seq<T> {
        self.arena@
    }
}

impl<T> LinkedList<T> {
    /// The chain under the deque is consistent at all times.
    #[verifier::type_invariant]
    pub(crate) open spec fn inv(&self) -> bool {
        self.arena.wf()
    }

    /// Handles of the nodes, front to back.
    pub(crate) open spec fn handles(&self) -> Seq<usize> {
        self.arena.handles()
    }

    /// An empty deque.
    pub fn new() -> (list: Self)
        ensures
            list@ == Seq::<T>::empty(),
    {
        LinkedList { arena: Arena::new() }
    }

    /// Number of elements.
    pub fn len(&self) -> (n: usize)
        ensures
            n == self@.len(),
    {
        proof {
            use_type_invariant(self);
        }
        self.arena.len()
    }

    /// Whether the deque holds no element.
    pub fn is_empty(&self) -> (b: bool)
        ensures
            b == (self@.len() == 0),
    {
        proof {
            use_type_invariant(self);
        }
        self.arena.len() == 0
    }

    /// Links a new node holding `elem` in at position `i`, between the nodes `prev` and
    /// `next`, and returns its handle.
    pub(crate) fn link_at(
        &mut self,
        prev: Option<usize>,
        next: Option<usize>,
        elem: T,
        Ghost(i): Ghost<int>,
    ) -> (h: usize)
        requires
            0 <= i <= old(self).handles().len(),
            prev == handle_before(old(self).handles(), i),
            next == handle_at(old(self).handles(), i),
        ensures
            final(self).handles() == old(self).handles().insert(i, h),
            final(self)@ == old(self)@.insert(i, elem),
    {
        proof {
            use_type_invariant(&*self);
        }
        let mut arena = Arena::new();
        core::mem::swap(&mut self.arena, &mut arena);
        let h = arena.link_between(prev, next, elem, Ghost(i));
        self.arena = arena;
        h
    }

    /// Links the node `h`, at position `i`, out and returns its element.
    pub(crate) fn unlink_at(&mut self, h: usize, Ghost(i): Ghost<int>) -> (elem: T)
        requires
            handle_at(old(self).handles(), i) == Some(h),
        ensures
            final(self).handles() == old(self).handles().remove(i),
            final(self)@ == old(self)@.remove(i),
            elem == old(self)@[i],
    {
        proof {
            use_type_invariant(&*self);
        }
        let mut arena = Arena::new();
        core::mem::swap(&mut self.arena, &mut arena);
        let elem = arena.unlink(h, Ghost(i));
        self.arena = arena;
        elem
    }

    /// Adds `elem` at the front.
    pub fn push_front(&mut self, elem: T)
        ensures
            final(self)@ == seq![elem] + old(self)@,
            final(self)@ == step(old(self)@, Op::PushFront(elem)),
            final(self)@.len() == old(self)@.len() + 1,
    {
        proof {
            use_type_invariant(&*self);
        }
        let head = self.arena.head();
        self.link_at(None, head, elem, Ghost(0));
    }

    /// Adds `elem` at the back.
    pub fn push_back(&mut self, elem: T)
        ensures
            final(self)@ == old(self)@.push(elem),
            final(self)@ == step(old(self)@, Op::PushBack(elem)),
            final(self)@.len() == old(self)@.len() + 1,
    {
        proof {
            use_type_invariant(&*self);
        }
        let tail = self.arena.tail();
        self.link_at(tail, None, elem, Ghost(self@.len() as int));
    }

    /// Takes the first element out, if there is one.
    pub fn pop_front(&mut self) -> (r: Option<T>)
        ensures
            match r {
                Some(e) => {
                    &&& old(self)@.len() > 0
                    &&& e == old(self)@[0]
                    &&& final(self)@ == old(self)@.drop_first()
                },
                None => old(self)@.len() == 0 && final(self)@ == old(self)@,
            },
            r == yielded(old(self)@, Op::PopFront),
            final(self)@ == step(old(self)@, Op::PopFront),
            final(self)@.len() == old(self)@.len() - if r is Some { 1int } else { 0int },
    {
        proof {
            use_type_invariant(&*self);
        }
        match self.arena.head() {
            Some(h) => {
                let elem = self.unlink_at(h, Ghost(0));
                Some(elem)
            },
            None => None,
        }
    }

    /// Takes the last element out, if there is one.
    pub fn pop_back(&mut self) -> (r: Option<T>)
        ensures
            match r {
                Some(e) => {
                    &&& old(self)@.len() > 0
                    &&& e == old(self)@.last()
                    &&& final(self)@ == old(self)@.drop_last()
                },
                None => old(self)@.len() == 0 && final(self)@ == old(self)@,
            },
            r == yielded(old(self)@, Op::PopBack),
            final(self)@ == step(old(self)@, Op::PopBack),
            final(self)@.len() == old(self)@.len() - if r is Some { 1int } else { 0int },
    {
        proof {
            use_type_invariant(&*self);
        }
        match self.arena.tail() {
            Some(h) => {
                let elem = self.unlink_at(h, Ghost(self@.len() - 1));
                Some(elem)
            },
            None => None,
        }
    }

    /// The first element.
    pub fn front(&self) -> (r: Option<&T>)
        ensures
            r == if self@.len() > 0 { Some(&self@[0]) } else { None },
    {
        proof {
            use_type_invariant(self);
        }
        match self.arena.head() {
            Some(h) => Some(self.arena.elem(h, Ghost(0))),
            None => None,
        }
    }

    /// The first element, for writing.
    pub fn front_mut(&mut self) -> (r: Option<&mut T>)
        ensures
            match r {
                Some(e) => {
                    &&& old(self)@.len() > 0
                    &&& *e == old(self)@[0]
                    &&& final(self)@ == old(self)@.update(0, *final(e))
                },
                None => old(self)@.len() == 0 && final(self)@ == old(self)@,
            },
    {
        proof {
            use_type_invariant(&*self);
        }
        match self.arena.head() {
            Some(h) => self.arena.elem_mut(h, Ghost(0)),
            None => None,
        }
    }

    /// The last element.
    pub fn back(&self) -> (r: Option<&T>)
        ensures
            r == if self@.len() > 0 { Some(&self@.last()) } else { None },
    {
        proof {
            use_type_invariant(self);
        }
        match self.arena.tail() {
            Some(h) => Some(self.arena.elem(h, Ghost(self@.len() - 1))),
            None => None,
        }
    }

    /// The last element, for writing.
    pub fn back_mut(&mut self) -> (r: Option<&mut T>)
        ensures
            match r {
                Some(e) => {
                    &&& old(self)@.len() > 0
                    &&& *e == old(self)@.last()
                    &&& final(self)@ == old(self)@.update(old(self)@.len() - 1, *final(e))
                },
                None => old(self)@.len() == 0 && final(self)@ == old(self)@,
            },
    {
        proof {
            use_type_invariant(&*self);
        }
        match self.arena.tail() {
            Some(h) => self.arena.elem_mut(h, Ghost(self@.len() - 1)),
            None => None,
        }
    }

    /// The first element; the same as `front`.
    pub fn peek(&self) -> (r: Option<&T>)
        ensures
            r == if self@.len() > 0 { Some(&self@[0]) } else { None },
    {
        self.front()
    }

    /// The first element, for writing; the same as `front_mut`.
    pub fn peek_mut(&mut self) -> (r: Option<&mut T>)
        ensures
            match r {
                Some(e) => {
                    &&& old(self)@.len() > 0
                    &&& *e == old(self)@[0]
                    &&& final(self)@ == old(self)@.update(0, *final(e))
                },
                None => old(self)@.len() == 0 && final(self)@ == old(self)@,
            },
    {
        self.front_mut()
    }

    /// Takes every element out, one at a time from the front.
    pub fn clear(&mut self)
        ensures
            final(self)@ == Seq::<T>::empty(),
    {
        loop
            ensures
                self@.len() == 0,
            decreases self@.len(),
        {
            match self.pop_front() {
                Some(_) => {},
                None => {
                    break ;
                },
            }
        }
    }

    /// A cursor on the deque, at the ghost position.
    pub fn cursor_mut(&mut self) -> (c: CursorMut<'_, T>)
        ensures
            c.wf(),
            c.index is None,
            c.list@ == old(self)@,
            *final(self) == *final(c.list),
    {
        CursorMut { list: self, cur: None, index: None }
    }

    /// An iterator over the elements, front to back and back to front.
    pub fn iter(&self) -> (it: Iter<'_, T>)
        ensures
            it.remaining() == self@,
    {
        Iter::new(self)
    }

    /// An iterator over the elements for writing, front to back and back to front.
    pub fn iter_mut(&mut self) -> (it: IterMut<'_, T>)
        ensures
            it.wf(),
            it.list@ == old(self)@,
            it.remaining() == old(self)@,
            it.lo@ == 0,
            it.len == old(self)@.len(),
            *final(self) == *final(it.list),
    {
        IterMut::new(self)
    }
}

} // verus!
