//! The deque as a sequence: what each operation at an end does to the sequence of
//! elements, and what a run of such operations leaves and gives out.

use vstd::prelude::*;

verus! {

/// One operation at an end of the deque.
pub enum Op<T> {
    PushFront(T),
    PushBack(T),
    PopFront,
    PopBack,
}

/// The elements after `op`, when they were `items` before. A pop leaves an empty
/// sequence as it is.
pub open spec fn step<T>(items: Seq<T>, op: Op<T>) -> Seq<T> {
    match op {
        Op::PushFront(e) => seq![e] + items,
        Op::PushBack(e) => items.push(e),
        Op::PopFront => if items.len() > 0 {
            items.drop_first()
        } else {
            items
        },
        Op::PopBack => if items.len() > 0 {
            items.drop_last()
        } else {
            items
        },
    }
}

/// The element that `op` gives out, when the elements were `items` before: a pop gives
/// the element at its end, and nothing where there is none; a push gives nothing.
pub open spec fn yielded<T>(items: Seq<T>, op: Op<T>) -> Option<T> {
    match op {
        Op::PushFront(_) => None,
        Op::PushBack(_) => None,
        Op::PopFront => if items.len() > 0 {
            Some(items[0])
        } else {
            None
        },
        Op::PopBack => if items.len() > 0 {
            Some(items.last())
        } else {
            None
        },
    }
}

/// The elements after the operations `ops`, one after the other.
pub open spec fn run<T>(items: Seq<T>, ops: Seq<Op<T>>) -> Seq<T>
    decreases ops.len(),
{
    if ops.len() == 0 {
        items
    } else {
        run(step(items, ops[0]), ops.drop_first())
    }
}

/// What the operations `ops` give out, one after the other.
pub open spec fn outputs<T>(items: Seq<T>, ops: Seq<Op<T>>) -> Seq<Option<T>>
    decreases ops.len(),
{
    if ops.len() == 0 {
        Seq::empty()
    } else {
        seq![yielded(items, ops[0])] + outputs(step(items, ops[0]), ops.drop_first())
    }
}

/// Number of pushes among `ops`.
pub open spec fn pushes<T>(ops: Seq<Op<T>>) -> nat
    decreases ops.len(),
{
    if ops.len() == 0 {
        0
    } else {
        let rest = pushes(ops.drop_first());
        match ops[0] {
            Op::PushFront(_) => rest + 1,
            Op::PushBack(_) => rest + 1,
            _ => rest,
        }
    }
}

/// Number of pops among `ops` that give an element out, on a deque that holds `items`
/// at the start.
pub open spec fn pops_served<T>(items: Seq<T>, ops: Seq<Op<T>>) -> nat
    decreases ops.len(),
{
    if ops.len() == 0 {
        0
    } else {
        let rest = pops_served(step(items, ops[0]), ops.drop_first());
        if yielded(items, ops[0]) is Some {
            rest + 1
        } else {
            rest
        }
    }
}

/// One push at the back for each of `items`, in their order.
pub open spec fn push_backs<T>(items: Seq<T>) -> Seq<Op<T>> {
    Seq::new(items.len(), |i: int| Op::PushBack(items[i]))
}

/// `n` pops at the front.
pub open spec fn pop_fronts<T>(n: nat) -> Seq<Op<T>> {
    Seq::new(n, |i: int| Op::PopFront)
}

/// `n` pops at the back.
pub open spec fn pop_backs<T>(n: nat) -> Seq<Op<T>> {
    Seq::new(n, |i: int| Op::PopBack)
}

/// Each of `items` as an element that was given out.
pub open spec fn given<T>(items: Seq<T>) -> Seq<Option<T>> {
    Seq::new(items.len(), |i: int| Some(items[i]))
}

} // verus!
