//! The cursor of the deque: it walks the nodes, and splits and splices at its position.

use crate::arena::handle_at;
use crate::linked_list::LinkedList;
use vstd::prelude::*;

verus! {

/// A position in a deque that it borrows for writing: on a node, or at the ghost
/// position that lies between the back and the front.
///
/// While the cursor lives, the deque can be reached through it alone. The fields are
/// public so that contracts can speak of the borrowed deque, of what it holds now and
/// of what it holds once the cursor is gone; code goes through the methods, which keep
/// `wf`.
pub struct CursorMut<'a, T> {
    /// The deque that the cursor walks.
    pub list: &'a mut LinkedList<T>,
    /// Handle of the node under the cursor; `None` at the ghost position.
    pub cur: Option<usize>,
    /// Index of the node under the cursor, counted from the front; `None` at the ghost
    /// position.
    pub index: Option<usize>,
}

/// Index of the element after a cursor at `index`; after the ghost position comes the
/// front.
pub open spec fn index_after(index: Option<usize>) -> int {
    match index {
        Some(i) => i + 1,
        None => 0,
    }
}

/// Index of the element before a cursor at `index` in a deque of `len` elements;
/// before the ghost position comes the back.
pub open spec fn index_before(index: Option<usize>, len: nat) -> int {
    match index {
        Some(i) => i - 1,
        None => len - 1,
    }
}

/// The cursor position that names the element at `i` of a deque of `len` elements: the
/// ghost position where there is no such element.
pub open spec fn position_of(i: int, len: nat) -> Option<usize> {
    if 0 <= i < len {
        Some(i as usize)
    } else {
        None
    }
}

/// What `split_before` returns from a deque that holds `items`, with the cursor at
/// `index`: the elements before the cursor; at the ghost position, all of them.
pub open spec fn split_before_taken<T>(items: Seq<T>, index: Option<usize>) -> Seq<T> {
    match index {
        Some(i) => items.subrange(0, i as int),
        None => items,
    }
}

/// What `split_before` leaves in the deque: the element under the cursor and those
/// after it; at the ghost position, nothing.
pub open spec fn split_before_kept<T>(items: Seq<T>, index: Option<usize>) -> Seq<T> {
    match index {
        Some(i) => items.subrange(i as int, items.len() as int),
        None => Seq::empty(),
    }
}

/// What `split_after` returns: the elements after the cursor; at the ghost position,
/// all of them.
pub open spec fn split_after_taken<T>(items: Seq<T>, index: Option<usize>) -> Seq<T> {
    match index {
        Some(i) => items.subrange(i + 1, items.len() as int),
        None => items,
    }
}

/// What `split_after` leaves in the deque: the element under the cursor and those
/// before it; at the ghost position, nothing.
pub open spec fn split_after_kept<T>(items: Seq<T>, index: Option<usize>) -> Seq<T> {
    match index {
        Some(i) => items.subrange(0, i + 1),
        None => Seq::empty(),
    }
}

/// The deque after `splice_before`: `input` stands just before the element under the
/// cursor; at the ghost position, at the back.
pub open spec fn spliced_before<T>(items: Seq<T>, index: Option<usize>, input: Seq<T>) -> Seq<T> {
    match index {
        Some(i) => items.subrange(0, i as int) + input + items.subrange(
            i as int,
            items.len() as int,
        ),
        None => items + input,
    }
}

/// The deque after `splice_after`: `input` stands just after the element under the
/// cursor; at the ghost position, at the front.
pub open spec fn spliced_after<T>(items: Seq<T>, index: Option<usize>, input: Seq<T>) -> Seq<T> {
    match index {
        Some(i) => items.subrange(0, i + 1) + input + items.subrange(i + 1, items.len() as int),
        None => input + items,
    }
}

/// The cursor position after `n` elements were put in before it.
pub open spec fn shifted(index: Option<usize>, n: nat) -> Option<usize> {
    match index {
        Some(i) => Some((i + n) as usize),
        None => None,
    }
}

/// The cursor position after `split_before`: on the first node, or still at the ghost
/// position.
pub open spec fn rebased(index: Option<usize>) -> Option<usize> {
    match index {
        Some(_) => Some(0usize),
        None => None,
    }
}

impl<'a, T> CursorMut<'a, T> {
    /// The cursor is at the ghost position and has no index, or it is on the node that
    /// its index names.
    pub open(crate) spec fn anchored(&self) -> bool {
        match (self.cur, self.index) {
            (None, None) => true,
            (Some(h), Some(i)) => handle_at(self.list.handles(), i as int) == Some(h),
            _ => false,
        }
    }

    /// The cursor is where its index says, and an index names an element of the deque.
    pub open spec fn wf(&self) -> bool {
        &&& self.anchored()
        &&& self.index matches Some(i) ==> i < self.list@.len()
    }

    /// Moves to the next node; from the back to the ghost position, and from there to
    /// the front.
    pub fn move_next(&mut self)
        requires
            old(self).wf(),
        ensures
            final(self).wf(),
            final(self).list@ == old(self).list@,
            final(self).index == position_of(index_after(old(self).index), old(self).list@.len()),
            *final(final(self).list) == *final(old(self).list),
    {
        proof {
            use_type_invariant(&*self.list);
        }
        match self.cur {
            Some(h) => {
                let i = self.index.unwrap();
                self.cur = self.list.arena.next(h, Ghost(i as int));
                if self.cur.is_some() {
                    self.index = Some(i + 1);
                } else {
                    self.index = None;
                }
            },
            None => {
                if !self.list.is_empty() {
                    self.cur = self.list.arena.head();
                    self.index = Some(0);
                }
            },
        }
    }

    /// Moves to the node before; from the front to the ghost position, and from there
    /// to the back.
    pub fn move_prev(&mut self)
        requires
            old(self).wf(),
        ensures
            final(self).wf(),
            final(self).list@ == old(self).list@,
            final(self).index == position_of(
                index_before(old(self).index, old(self).list@.len()),
                old(self).list@.len(),
            ),
            *final(final(self).list) == *final(old(self).list),
    {
        proof {
            use_type_invariant(&*self.list);
        }
        match self.cur {
            Some(h) => {
                let i = self.index.unwrap();
                self.cur = self.list.arena.prev(h, Ghost(i as int));
                if self.cur.is_some() {
                    self.index = Some(i - 1);
                } else {
                    self.index = None;
                }
            },
            None => {
                if !self.list.is_empty() {
                    self.cur = self.list.arena.tail();
                    self.index = Some(self.list.len() - 1);
                }
            },
        }
    }

    /// Index of the node under the cursor; `None` at the ghost position.
    pub fn index(&self) -> (r: Option<usize>)
        ensures
            r == self.index,
    {
        self.index
    }

    /// The element under the cursor; `None` at the ghost position.
    pub fn current(&mut self) -> (r: Option<&mut T>)
        requires
            old(self).wf(),
        ensures
            final(self).wf(),
            final(self).index == old(self).index,
            *final(final(self).list) == *final(old(self).list),
            match r {
                Some(e) => {
                    &&& old(self).index matches Some(i)
                    &&& *e == old(self).list@[i as int]
                    &&& final(self).list@ == old(self).list@.update(i as int, *final(e))
                },
                None => old(self).index is None && final(self).list@ == old(self).list@,
            },
    {
        proof {
            use_type_invariant(&*self.list);
        }
        match self.cur {
            Some(h) => self.list.arena.elem_mut(h, Ghost(self.index->0 as int)),
            None => None,
        }
    }

    /// The element after the cursor, which stays where it is. After the ghost position
    /// comes the front; after the back comes nothing.
    pub fn peek_next(&mut self) -> (r: Option<&mut T>)
        requires
            old(self).wf(),
        ensures
            final(self).wf(),
            final(self).index == old(self).index,
            *final(final(self).list) == *final(old(self).list),
            match r {
                Some(e) => {
                    &&& index_after(old(self).index) < old(self).list@.len()
                    &&& *e == old(self).list@[index_after(old(self).index)]
                    &&& final(self).list@ == old(self).list@.update(
                        index_after(old(self).index),
                        *final(e),
                    )
                },
                None => {
                    &&& index_after(old(self).index) >= old(self).list@.len()
                    &&& final(self).list@ == old(self).list@
                },
            },
    {
        proof {
            use_type_invariant(&*self.list);
        }
        let next = match self.cur {
            Some(h) => self.list.arena.next(h, Ghost(self.index->0 as int)),
            None => self.list.arena.head(),
        };
        match next {
            Some(n) => self.list.arena.elem_mut(n, Ghost(index_after(self.index))),
            None => None,
        }
    }

    /// The element before the cursor, which stays where it is. Before the ghost
    /// position comes the back; before the front comes nothing.
    pub fn peek_prev(&mut self) -> (r: Option<&mut T>)
        requires
            old(self).wf(),
        ensures
            final(self).wf(),
            final(self).index == old(self).index,
            *final(final(self).list) == *final(old(self).list),
            match r {
                Some(e) => {
                    &&& 0 <= index_before(old(self).index, old(self).list@.len())
                    &&& *e == old(self).list@[index_before(old(self).index, old(self).list@.len())]
                    &&& final(self).list@ == old(self).list@.update(
                        index_before(old(self).index, old(self).list@.len()),
                        *final(e),
                    )
                },
                None => {
                    &&& index_before(old(self).index, old(self).list@.len()) < 0
                    &&& final(self).list@ == old(self).list@
                },
            },
    {
        proof {
            use_type_invariant(&*self.list);
        }
        let prev = match self.cur {
            Some(h) => self.list.arena.prev(h, Ghost(self.index->0 as int)),
            None => self.list.arena.tail(),
        };
        match prev {
            Some(p) => self.list.arena.elem_mut(
                p,
                Ghost(index_before(self.index, self.list@.len())),
            ),
            None => None,
        }
    }

    /// Cuts the deque before the cursor: what lay before the cursor is returned, and the
    /// deque keeps the rest, with the cursor on its first node. At the ghost position
    /// the whole deque is returned and an empty one is left.
    pub fn split_before(&mut self) -> (out: LinkedList<T>)
        requires
            old(self).wf(),
        ensures
            final(self).wf(),
            *final(final(self).list) == *final(old(self).list),
            out@ == split_before_taken(old(self).list@, old(self).index),
            final(self).list@ == split_before_kept(old(self).list@, old(self).index),
            final(self).index == rebased(old(self).index),
    {
        let mut out = LinkedList::new();
        match self.cur {
            Some(h) => {
                let i = self.index.unwrap();
                let ghost items = self.list@;
                let ghost handles = self.list.handles();
                let mut k: usize = 0;
                while k < i
                    invariant
                        k <= i < items.len(),
                        items.len() == handles.len(),
                        handles[i as int] == h,
                        self.list@ == items.subrange(k as int, items.len() as int),
                        self.list.handles() == handles.subrange(k as int, handles.len() as int),
                        out@ == items.subrange(0, k as int),
                        self.cur == old(self).cur,
                        self.index == old(self).index,
                        *final(self.list) == *final(old(self).list),
                    decreases i - k,
                {
                    proof {
                        use_type_invariant(&*self.list);
                    }
                    if let Some(first) = self.list.arena.head() {
                        let x = self.list.unlink_at(first, Ghost(0));
                        out.push_back(x);
                    }
                    k = k + 1;
                    assert(self.list.handles() =~= handles.subrange(
                        k as int,
                        handles.len() as int,
                    ));
                }
                self.index = Some(0);
            },
            None => {
                core::mem::swap(self.list, &mut out);
            },
        }
        out
    }

    /// Cuts the deque after the cursor: what lay after the cursor is returned, and the
    /// deque keeps the rest, with the cursor on its last node. At the ghost position
    /// the whole deque is returned and an empty one is left.
    pub fn split_after(&mut self) -> (out: LinkedList<T>)
        requires
            old(self).wf(),
        ensures
            final(self).wf(),
            *final(final(self).list) == *final(old(self).list),
            final(self).index == old(self).index,
            out@ == split_after_taken(old(self).list@, old(self).index),
            final(self).list@ == split_after_kept(old(self).list@, old(self).index),
    {
        let mut out = LinkedList::new();
        match self.cur {
            Some(h) => {
                let i = self.index.unwrap();
                let ghost items = self.list@;
                let ghost handles = self.list.handles();
                let mut n: usize = self.list.len();
                while n > i + 1
                    invariant
                        i < n <= items.len(),
                        items.len() == handles.len(),
                        handles[i as int] == h,
                        self.list@ == items.subrange(0, n as int),
                        self.list.handles() == handles.subrange(0, n as int),
                        out@ == items.subrange(n as int, items.len() as int),
                        self.cur == old(self).cur,
                        self.index == old(self).index,
                        *final(self.list) == *final(old(self).list),
                    decreases n,
                {
                    proof {
                        use_type_invariant(&*self.list);
                    }
                    if let Some(last) = self.list.arena.tail() {
                        let x = self.list.unlink_at(last, Ghost(n - 1));
                        out.push_front(x);
                    }
                    n = n - 1;
                }
            },
            None => {
                core::mem::swap(self.list, &mut out);
            },
        }
        out
    }

    /// Moves the elements of `input` into the deque, in their order, just before the
    /// cursor, which stays on its node. At the ghost position they go to the back.
    pub fn splice_before(&mut self, input: LinkedList<T>)
        requires
            old(self).wf(),
        ensures
            final(self).wf(),
            *final(final(self).list) == *final(old(self).list),
            final(self).list@ == spliced_before(old(self).list@, old(self).index, input@),
            final(self).index == shifted(old(self).index, input@.len()),
    {
        let mut input = input;
        let ghost items = self.list@;
        let ghost added = input@;
        match self.cur {
            Some(h) => {
                let mut at: usize = self.index.unwrap();
                let ghost i = at as int;
                let ghost mut k: int = 0;
                loop
                    invariant
                        0 <= k <= added.len(),
                        0 <= i < items.len(),
                        at == i + k,
                        handle_at(self.list.handles(), at as int) == Some(h),
                        self.list@ == items.subrange(0, i) + added.subrange(0, k) + items.subrange(
                            i,
                            items.len() as int,
                        ),
                        input@ == added.subrange(k, added.len() as int),
                        self.cur == old(self).cur,
                        *final(self.list) == *final(old(self).list),
                    ensures
                        k == added.len(),
                    decreases added.len() - k,
                {
                    proof {
                        use_type_invariant(&*self.list);
                    }
                    match input.pop_front() {
                        Some(x) => {
                            let prev = self.list.arena.prev(h, Ghost(at as int));
                            self.list.link_at(prev, Some(h), x, Ghost(at as int));
                            proof {
                                use_type_invariant(&*self.list);
                                assert(self.list@ =~= items.subrange(0, i) + added.subrange(0, k + 1)
                                    + items.subrange(i, items.len() as int));
                                k = k + 1;
                            }
                            at = at + 1;
                        },
                        None => {
                            break ;
                        },
                    }
                }
                self.index = Some(at);
            },
            None => {
                if self.list.is_empty() {
                    core::mem::swap(self.list, &mut input);
                } else {
                    let ghost mut k: int = 0;
                    loop
                        invariant
                            0 <= k <= added.len(),
                            self.list@ == items + added.subrange(0, k),
                            input@ == added.subrange(k, added.len() as int),
                            self.cur == old(self).cur,
                            self.index == old(self).index,
                            *final(self.list) == *final(old(self).list),
                        ensures
                            k == added.len(),
                        decreases added.len() - k,
                    {
                        match input.pop_front() {
                            Some(x) => {
                                self.list.push_back(x);
                                proof {
                                    k = k + 1;
                                }
                            },
                            None => {
                                break ;
                            },
                        }
                    }
                }
            },
        }
    }

    /// Moves the elements of `input` into the deque, in their order, just after the
    /// cursor, which stays on its node. At the ghost position they go to the front.
    pub fn splice_after(&mut self, input: LinkedList<T>)
        requires
            old(self).wf(),
        ensures
            final(self).wf(),
            *final(final(self).list) == *final(old(self).list),
            final(self).index == old(self).index,
            final(self).list@ == spliced_after(old(self).list@, old(self).index, input@),
    {
        let mut input = input;
        let ghost items = self.list@;
        let ghost added = input@;
        match self.cur {
            Some(h) => {
                let ghost i = self.index->0 as int;
                let ghost mut k: int = added.len() as int;
                loop
                    invariant
                        0 <= k <= added.len(),
                        0 <= i < items.len(),
                        handle_at(self.list.handles(), i) == Some(h),
                        self.list@ == items.subrange(0, i + 1) + added.subrange(
                            k,
                            added.len() as int,
                        ) + items.subrange(i + 1, items.len() as int),
                        input@ == added.subrange(0, k),
                        self.cur == old(self).cur,
                        self.index == old(self).index,
                        *final(self.list) == *final(old(self).list),
                    ensures
                        k == 0,
                    decreases k,
                {
                    proof {
                        use_type_invariant(&*self.list);
                    }
                    match input.pop_back() {
                        Some(x) => {
                            let next = self.list.arena.next(h, Ghost(i));
                            self.list.link_at(Some(h), next, x, Ghost(i + 1));
                            proof {
                                assert(self.list@ =~= items.subrange(0, i + 1) + added.subrange(
                                    k - 1,
                                    added.len() as int,
                                ) + items.subrange(i + 1, items.len() as int));
                                k = k - 1;
                            }
                        },
                        None => {
                            break ;
                        },
                    }
                }
            },
            None => {
                if self.list.is_empty() {
                    core::mem::swap(self.list, &mut input);
                } else {
                    let ghost mut k: int = added.len() as int;
                    loop
                        invariant
                            0 <= k <= added.len(),
                            self.list@ == added.subrange(k, added.len() as int) + items,
                            input@ == added.subrange(0, k),
                            self.cur == old(self).cur,
                            self.index == old(self).index,
                            *final(self.list) == *final(old(self).list),
                        ensures
                            k == 0,
                        decreases k,
                    {
                        match input.pop_back() {
                            Some(x) => {
                                self.list.push_front(x);
                                proof {
                                    assert(self.list@ =~= added.subrange(k - 1, added.len() as int)
                                        + items);
                                    k = k - 1;
                                }
                            },
                            None => {
                                break ;
                            },
                        }
                    }
                }
            },
        }
    }
}

} // verus!
