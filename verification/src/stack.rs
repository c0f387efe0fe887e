//! A stack of `i32` as a chain of boxed nodes.

use vstd::prelude::*;

verus! {

/// A stack of `i32`. Its view lists the elements from the top down.
#[derive(Debug)]
pub struct List {
    head: Link,
}

#[derive(Debug)]
enum Link {
    Empty,
    More(Box<Node>),
}

#[derive(Debug)]
struct Node {
    elem: i32,
    next: Link,
}

/// The elements along the chain that starts at `link`.
spec fn chain(link: Link) -> Seq<i32>
    decreases link,
{
    match link {
        Link::Empty => Seq::empty(),
        Link::More(node) => seq![node.elem] + chain(node.next),
    }
}

impl View for List {
    type V = Seq<i32>;

    closed spec fn view(&self) -> Seq<i32> {
        chain(self.head)
    }
}

impl List {
    /// An empty stack.
    pub fn new() -> (list: Self)
        ensures
            list@ == Seq::<i32>::empty(),
    {
        List { head: Link::Empty }
    }

    /// Puts `elem` on top.
    pub fn push(&mut self, elem: i32)
        ensures
            final(self)@ == seq![elem] + old(self)@,
    {
        let mut link = Link::Empty;
        core::mem::swap(&mut self.head, &mut link);
        let new_node = Node { elem, next: link };
        self.head = Link::More(Box::new(new_node));
    }

    /// Takes the top element off, if there is one.
    pub fn pop(&mut self) -> (r: Option<i32>)
        ensures
            match r {
                Some(e) => {
                    &&& old(self)@.len() > 0
                    &&& e == old(self)@[0]
                    &&& final(self)@ == old(self)@.drop_first()
                },
                None => old(self)@.len() == 0 && final(self)@ == old(self)@,
            },
    {
        let mut link = Link::Empty;
        core::mem::swap(&mut self.head, &mut link);
        match link {
            Link::Empty => None,
            Link::More(s) => {
                let node = *s;
                self.head = node.next;
                Some(node.elem)
            },
        }
    }
}

impl Drop for List {
    /// Takes the chain apart node by node, so that a long stack is released without
    /// deep recursion.
    fn drop(&mut self)
        opens_invariants none
        no_unwind
    {
        let mut cur = Link::Empty;
        core::mem::swap(&mut self.head, &mut cur);
        loop
            decreases chain(cur).len(),
        {
            match cur {
                Link::More(boxed) => {
                    let node = *boxed;
                    cur = node.next;
                },
                Link::Empty => {
                    break ;
                },
            }
        }
    }
}

} // verus!
