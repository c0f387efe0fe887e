//! The slot arena under the deque.
//!
//! Nodes live in a vector of slots and name their neighbours by slot handle. A ghost
//! sequence lists the handles of the live nodes in chain order; everything the deque,
//! its iterators and its cursor say about positions is stated over that sequence.

use vstd::prelude::*;

verus! {

/// One slot: the links to the neighbouring nodes and the element.
pub struct Node<T> {
    /// Handle of the node before this one.
    pub prev: Option<usize>,
    /// Handle of the node after this one.
    pub next: Option<usize>,
    /// The element; `None` while the slot waits on the free list.
    pub elem: Option<T>,
}

/// A chain of nodes threaded through a vector of slots.
pub struct Arena<T> {
    pub slots: Vec<Node<T>>,
    /// Slots that hold no node and can be handed out again.
    pub free: Vec<usize>,
    /// Handle of the first node.
    pub head: Option<usize>,
    /// Handle of the last node.
    pub tail: Option<usize>,
    /// Number of nodes in the chain.
    pub len: usize,
    /// Handles of the nodes of the chain, first to last.
    pub order: Ghost<Seq<usize>>,
}

/// The handle before position `i` of `order`, if there is one.
pub open spec fn handle_before(order: Seq<usize>, i: int) -> Option<usize> {
    if 0 < i <= order.len() {
        Some(order[i - 1])
    } else {
        None
    }
}

/// The handle at position `i` of `order`, if there is one.
pub open spec fn handle_at(order: Seq<usize>, i: int) -> Option<usize> {
    if 0 <= i < order.len() {
        Some(order[i])
    } else {
        None
    }
}

/// `link` names slot `s`.
pub open spec fn points_to(link: Option<usize>, s: int) -> bool {
    link matches Some(h) && h == s
}

/// The node at position `i` of `order` sits in a slot, holds an element and is linked to
/// the nodes at positions `i - 1` and `i + 1`.
pub open spec fn linked_at<T>(slots: Seq<Node<T>>, order: Seq<usize>, i: int) -> bool {
    let h = order[i] as int;
    &&& h < slots.len()
    &&& slots[h].elem is Some
    &&& slots[h].prev == handle_before(order, i)
    &&& slots[h].next == handle_at(order, i + 1)
}

/// Link consistency: every node of `order` is linked to its neighbours in `order`.
#[verifier::opaque]
pub open spec fn chained<T>(slots: Seq<Node<T>>, order: Seq<usize>) -> bool {
    forall|i: int| 0 <= i < order.len() ==> #[trigger] linked_at(slots, order, i)
}

/// `order` and `free` together name each of the `n` slots exactly once.
#[verifier::opaque]
pub open spec fn partitioned(order: Seq<usize>, free: Seq<usize>, n: int) -> bool {
    &&& order.len() + free.len() == n
    &&& forall|i: int| 0 <= i < order.len() ==> #[trigger] order[i] < n
    &&& forall|k: int| 0 <= k < free.len() ==> #[trigger] free[k] < n
    &&& forall|i: int, j: int| 0 <= i < j < order.len() ==> order[i] != order[j]
    &&& forall|k: int, l: int| 0 <= k < l < free.len() ==> free[k] != free[l]
    &&& forall|i: int, k: int| 0 <= i < order.len() && 0 <= k < free.len() ==> order[i] != free[k]
}

/// The elements held by the nodes of `order`, first to last.
pub open spec fn elems<T>(slots: Seq<Node<T>>, order: Seq<usize>) -> Seq<T> {
    Seq::new(order.len(), |i: int| slots[order[i] as int].elem->0)
}

/// What the node at position `i` looks like, once the chain is known to be consistent.
pub proof fn lemma_linked_at<T>(slots: Seq<Node<T>>, order: Seq<usize>, i: int)
    requires
        chained(slots, order),
        0 <= i < order.len(),
    ensures
        linked_at(slots, order, i),
{
    reveal(chained);
}

/// A handle names one position only.
pub proof fn lemma_position_unique(order: Seq<usize>, free: Seq<usize>, n: int, i: int, j: int)
    requires
        partitioned(order, free, n),
        0 <= i < order.len(),
        0 <= j < order.len(),
        order[i] == order[j],
    ensures
        i == j,
{
    reveal(partitioned);
}

/// Taking the last free slot for a node at position `i` keeps the slots partitioned.
pub proof fn lemma_partition_reuse(order: Seq<usize>, free: Seq<usize>, n: int, i: int)
    requires
        partitioned(order, free, n),
        free.len() > 0,
        0 <= i <= order.len(),
    ensures
        partitioned(order.insert(i, free.last()), free.drop_last(), n),
        forall|j: int| 0 <= j < order.len() ==> #[trigger] order[j] != free.last(),
        free.last() < n,
        order.len() < n,
{
    reveal(partitioned);
}

/// Adding slot `n` for a node at position `i` keeps the slots partitioned.
pub proof fn lemma_partition_grow(order: Seq<usize>, free: Seq<usize>, n: int, i: int)
    requires
        partitioned(order, free, n),
        0 <= i <= order.len(),
        n <= usize::MAX,
    ensures
        partitioned(order.insert(i, n as usize), free, n + 1),
        forall|j: int| 0 <= j < order.len() ==> #[trigger] order[j] != n,
        order.len() <= n,
{
    reveal(partitioned);
}

/// Putting the slot of the node at position `i` on the free list keeps the slots
/// partitioned.
pub proof fn lemma_partition_release(order: Seq<usize>, free: Seq<usize>, n: int, i: int)
    requires
        partitioned(order, free, n),
        0 <= i < order.len(),
    ensures
        partitioned(order.remove(i), free.push(order[i]), n),
{
    reveal(partitioned);
}

/// The slots `after` hold the chain of `before` with one more node, `h`, linked in at
/// position `i`: `h` is new to the chain and carries `e`, its two neighbours point to
/// it, and nothing else has changed.
pub open spec fn node_linked_in<T>(
    before: Seq<Node<T>>,
    after: Seq<Node<T>>,
    order: Seq<usize>,
    i: int,
    h: usize,
    e: T,
) -> bool {
    &&& h < after.len()
    &&& before.len() <= after.len()
    &&& forall|j: int| 0 <= j < order.len() ==> #[trigger] order[j] != h
    &&& after[h as int].elem == Some(e)
    &&& after[h as int].prev == handle_before(order, i)
    &&& after[h as int].next == handle_at(order, i)
    &&& forall|s: int|
        0 <= s < before.len() && s != h ==> {
            &&& (#[trigger] after[s]).elem == before[s].elem
            &&& after[s].prev == if points_to(handle_at(order, i), s) {
                Some(h)
            } else {
                before[s].prev
            }
            &&& after[s].next == if points_to(handle_before(order, i), s) {
                Some(h)
            } else {
                before[s].next
            }
        }
}

/// Linking a node in at position `i` inserts its handle and its element at `i`.
pub proof fn lemma_chain_insert<T>(
    before: Seq<Node<T>>,
    after: Seq<Node<T>>,
    order: Seq<usize>,
    free: Seq<usize>,
    i: int,
    h: usize,
    e: T,
)
    requires
        chained(before, order),
        partitioned(order, free, before.len() as int),
        0 <= i <= order.len(),
        node_linked_in(before, after, order, i, h, e),
    ensures
        chained(after, order.insert(i, h)),
        elems(after, order.insert(i, h)) == elems(before, order).insert(i, e),
{
    reveal(chained);
    let order2 = order.insert(i, h);
    assert forall|j: int| 0 <= j < order2.len() implies #[trigger] linked_at(after, order2, j) by {
        if j != i {
            let j0 = if j < i { j } else { j - 1 };
            assert(linked_at(before, order, j0));
            if 0 <= i - 1 < order.len() && i - 1 != j0 {
                lemma_distinct(order, free, before.len() as int, j0, i - 1);
            }
            if 0 <= i < order.len() && i != j0 {
                lemma_distinct(order, free, before.len() as int, j0, i);
            }
        }
    }
    assert(elems(after, order2) =~= elems(before, order).insert(i, e)) by {
        assert forall|j: int| 0 <= j < order2.len() implies elems(after, order2)[j] == elems(
            before,
            order,
        ).insert(i, e)[j] by {
            if j != i {
                let j0 = if j < i { j } else { j - 1 };
                assert(linked_at(before, order, j0));
            }
        }
    }
}

/// Two positions of the chain hold two handles.
pub proof fn lemma_distinct(order: Seq<usize>, free: Seq<usize>, n: int, i: int, j: int)
    requires
        partitioned(order, free, n),
        0 <= i < order.len(),
        0 <= j < order.len(),
        i != j,
    ensures
        order[i] != order[j],
{
    if order[i] == order[j] {
        lemma_position_unique(order, free, n, i, j);
    }
}

/// The slots `after` hold the chain of `before` without the node at position `i`: its
/// two neighbours point to each other, and no other node has changed.
pub open spec fn node_linked_out<T>(
    before: Seq<Node<T>>,
    after: Seq<Node<T>>,
    order: Seq<usize>,
    i: int,
) -> bool {
    &&& before.len() == after.len()
    &&& forall|s: int|
        0 <= s < before.len() && s != order[i] ==> {
            &&& (#[trigger] after[s]).elem == before[s].elem
            &&& after[s].prev == if points_to(handle_at(order, i + 1), s) {
                handle_before(order, i)
            } else {
                before[s].prev
            }
            &&& after[s].next == if points_to(handle_before(order, i), s) {
                handle_at(order, i + 1)
            } else {
                before[s].next
            }
        }
}

/// Linking the node at position `i` out removes its handle and its element.
pub proof fn lemma_chain_remove<T>(
    before: Seq<Node<T>>,
    after: Seq<Node<T>>,
    order: Seq<usize>,
    free: Seq<usize>,
    i: int,
)
    requires
        chained(before, order),
        partitioned(order, free, before.len() as int),
        0 <= i < order.len(),
        node_linked_out(before, after, order, i),
    ensures
        chained(after, order.remove(i)),
        elems(after, order.remove(i)) == elems(before, order).remove(i),
{
    reveal(chained);
    let n = before.len() as int;
    let order2 = order.remove(i);
    assert forall|j: int| 0 <= j < order2.len() implies #[trigger] linked_at(after, order2, j) by {
        let j0 = if j < i { j } else { j + 1 };
        assert(linked_at(before, order, j0));
        lemma_distinct(order, free, n, j0, i);
        if i + 1 < order.len() && j0 != i + 1 {
            lemma_distinct(order, free, n, j0, i + 1);
        }
        if 0 <= i - 1 && j0 != i - 1 {
            lemma_distinct(order, free, n, j0, i - 1);
        }
    }
    assert(elems(after, order2) =~= elems(before, order).remove(i)) by {
        assert forall|j: int| 0 <= j < order2.len() implies elems(after, order2)[j] == elems(
            before,
            order,
        ).remove(i)[j] by {
            let j0 = if j < i { j } else { j + 1 };
            assert(linked_at(before, order, j0));
            lemma_distinct(order, free, n, j0, i);
        }
    }
}

/// Replacing the element of the node at position `i` leaves the chain as it is and
/// updates the element at `i`.
pub proof fn lemma_chain_update<T>(
    before: Seq<Node<T>>,
    after: Seq<Node<T>>,
    order: Seq<usize>,
    free: Seq<usize>,
    i: int,
    e: T,
)
    requires
        chained(before, order),
        partitioned(order, free, before.len() as int),
        0 <= i < order.len(),
        after == before.update(
            order[i] as int,
            Node {
                prev: before[order[i] as int].prev,
                next: before[order[i] as int].next,
                elem: Some(e),
            },
        ),
    ensures
        chained(after, order),
        elems(after, order) == elems(before, order).update(i, e),
{
    reveal(chained);
    let n = before.len() as int;
    assert(linked_at(before, order, i));
    assert forall|j: int| 0 <= j < order.len() implies #[trigger] linked_at(after, order, j) by {
        assert(linked_at(before, order, j));
        if j != i {
            lemma_distinct(order, free, n, j, i);
        }
    }
    assert(elems(after, order) =~= elems(before, order).update(i, e)) by {
        assert forall|j: int| 0 <= j < order.len() implies elems(after, order)[j] == elems(
            before,
            order,
        ).update(i, e)[j] by {
            assert(linked_at(before, order, j));
            if j != i {
                lemma_distinct(order, free, n, j, i);
            }
        }
    }
}

impl<T> Arena<T> {
    /// Handles of the live nodes, first to last.
    pub open spec fn handles(&self) -> Seq<usize> {
        self.order@
    }

    /// The chain is consistent:
    /// - `len` counts the nodes, and `head` and `tail` are absent exactly when there is
    ///   none; with one node they name the same slot;
    /// - each node's links name the nodes before and after it in chain order, so that
    ///   `len` steps lead from `head` to `tail` and back;
    /// - no slot is used twice, so the chain has no cycle, and every slot is either in
    ///   the chain or on the free list.
    pub open spec fn wf(&self) -> bool {
        &&& self.len == self.order@.len()
        &&& self.head == handle_at(self.order@, 0)
        &&& self.tail == handle_before(self.order@, self.order@.len() as int)
        &&& chained(self.slots@, self.order@)
        &&& partitioned(self.order@, self.free@, self.slots@.len() as int)
    }

    /// The elements of the chain, first to last.
    pub open spec fn view(&self) -> Seq<T> {
        elems(self.slots@, self.order@)
    }

    /// An arena with no slots and an empty chain.
    pub fn new() -> (a: Self)
        ensures
            a.wf(),
            a@ == Seq::<T>::empty(),
            a.handles() == Seq::<usize>::empty(),
    {
        let a = Arena {
            slots: Vec::new(),
            free: Vec::new(),
            head: None,
            tail: None,
            len: 0,
            order: Ghost(Seq::empty()),
        };
        proof {
            reveal(chained);
            reveal(partitioned);
        }
        a
    }

    /// Links a new node holding `elem` into the chain at position `i`, between the
    /// nodes `prev` and `next`, and returns its handle.
    pub fn link_between(
        &mut self,
        prev: Option<usize>,
        next: Option<usize>,
        elem: T,
        Ghost(i): Ghost<int>,
    ) -> (h: usize)
        requires
            old(self).wf(),
            0 <= i <= old(self).handles().len(),
            prev == handle_before(old(self).handles(), i),
            next == handle_at(old(self).handles(), i),
        ensures
            final(self).wf(),
            final(self).handles() == old(self).handles().insert(i, h),
            final(self)@ == old(self)@.insert(i, elem),
    {
        let ghost pre = *self;
        let ghost n = pre.slots@.len() as int;
        let node = Node { prev, next, elem: Some(elem) };
        let h = match self.free.pop() {
            Some(h) => {
                proof {
                    lemma_partition_reuse(pre.order@, pre.free@, n, i);
                }
                self.slots[h] = node;
                h
            },
            None => {
                self.slots.push(node);
                proof {
                    assert(self.slots.len() == n + 1);
                    lemma_partition_grow(pre.order@, pre.free@, n, i);
                }
                self.slots.len() - 1
            },
        };
        proof {
            assert(pre.order@.len() < self.slots.len());
            if 0 < i < pre.order@.len() {
                lemma_distinct(pre.order@, pre.free@, n, i - 1, i);
            }
        }
        match prev {
            Some(p) => {
                proof {
                    lemma_linked_at(pre.slots@, pre.order@, i - 1);
                }
                self.slots[p].next = Some(h);
            },
            None => {
                self.head = Some(h);
            },
        }
        match next {
            Some(q) => {
                proof {
                    lemma_linked_at(pre.slots@, pre.order@, i);
                }
                self.slots[q].prev = Some(h);
            },
            None => {
                self.tail = Some(h);
            },
        }
        self.len = self.len + 1;
        self.order = Ghost(pre.order@.insert(i, h));
        proof {
            lemma_chain_insert(pre.slots@, self.slots@, pre.order@, pre.free@, i, h, elem);
        }
        h
    }

    /// Links the node `h`, at position `i` of the chain, out of it, frees its slot and
    /// returns its element.
    pub fn unlink(&mut self, h: usize, Ghost(i): Ghost<int>) -> (elem: T)
        requires
            old(self).wf(),
            handle_at(old(self).handles(), i) == Some(h),
        ensures
            final(self).wf(),
            final(self).handles() == old(self).handles().remove(i),
            final(self)@ == old(self)@.remove(i),
            elem == old(self)@[i],
    {
        let ghost pre = *self;
        let ghost n = pre.slots@.len() as int;
        proof {
            lemma_linked_at(pre.slots@, pre.order@, i);
            if 0 < i {
                lemma_linked_at(pre.slots@, pre.order@, i - 1);
                lemma_distinct(pre.order@, pre.free@, n, i - 1, i);
            }
            if i + 1 < pre.order@.len() {
                lemma_linked_at(pre.slots@, pre.order@, i + 1);
                lemma_distinct(pre.order@, pre.free@, n, i + 1, i);
            }
            if 0 < i && i + 1 < pre.order@.len() {
                lemma_distinct(pre.order@, pre.free@, n, i - 1, i + 1);
            }
        }
        let prev = self.slots[h].prev;
        let next = self.slots[h].next;
        let elem = self.slots[h].elem.take();
        match prev {
            Some(p) => {
                self.slots[p].next = next;
            },
            None => {
                self.head = next;
            },
        }
        match next {
            Some(q) => {
                self.slots[q].prev = prev;
            },
            None => {
                self.tail = prev;
            },
        }
        self.len = self.len - 1;
        self.free.push(h);
        self.order = Ghost(pre.order@.remove(i));
        proof {
            lemma_partition_release(pre.order@, pre.free@, n, i);
            lemma_chain_remove(pre.slots@, self.slots@, pre.order@, pre.free@, i);
        }
        elem.unwrap()
    }

    /// Number of nodes in the chain.
    pub fn len(&self) -> (n: usize)
        requires
            self.wf(),
        ensures
            n == self@.len(),
            n == self.handles().len(),
    {
        self.len
    }

    /// Handle of the first node.
    pub fn head(&self) -> (h: Option<usize>)
        requires
            self.wf(),
        ensures
            h == handle_at(self.handles(), 0),
    {
        self.head
    }

    /// Handle of the last node.
    pub fn tail(&self) -> (h: Option<usize>)
        requires
            self.wf(),
        ensures
            h == handle_before(self.handles(), self.handles().len() as int),
    {
        self.tail
    }

    /// Handle of the node after `h`, the node at position `i`.
    pub fn next(&self, h: usize, Ghost(i): Ghost<int>) -> (r: Option<usize>)
        requires
            self.wf(),
            handle_at(self.handles(), i) == Some(h),
        ensures
            r == handle_at(self.handles(), i + 1),
    {
        proof {
            lemma_linked_at(self.slots@, self.order@, i);
        }
        self.slots[h].next
    }

    /// Handle of the node before `h`, the node at position `i`.
    pub fn prev(&self, h: usize, Ghost(i): Ghost<int>) -> (r: Option<usize>)
        requires
            self.wf(),
            handle_at(self.handles(), i) == Some(h),
        ensures
            r == handle_before(self.handles(), i),
    {
        proof {
            lemma_linked_at(self.slots@, self.order@, i);
        }
        self.slots[h].prev
    }

    /// The element of `h`, the node at position `i`.
    pub fn elem(&self, h: usize, Ghost(i): Ghost<int>) -> (e: &T)
        requires
            self.wf(),
            handle_at(self.handles(), i) == Some(h),
        ensures
            *e == self@[i],
    {
        proof {
            lemma_linked_at(self.slots@, self.order@, i);
        }
        self.slots[h].elem.as_ref().unwrap()
    }

    /// The element of `h`, the node at position `i`, for writing. The result is never
    /// `None`.
    pub fn elem_mut(&mut self, h: usize, Ghost(i): Ghost<int>) -> (r: Option<&mut T>)
        requires
            old(self).wf(),
            handle_at(old(self).handles(), i) == Some(h),
        ensures
            match r {
                Some(e) => *e == old(self)@[i] && final(self)@ == old(self)@.update(i, *final(e)),
                None => false,
            },
            final(self).wf(),
            final(self).handles() == old(self).handles(),
        no_unwind
    {
        proof {
            lemma_linked_at(self.slots@, self.order@, i);
        }
        proof {
            let before = self.slots@;
            let order = self.order@;
            let free = self.free@;
            assert forall|node: Node<T>| #![trigger before.update(h as int, node)]
                node.prev == before[h as int].prev && node.next == before[h as int].next
                    && node.elem is Some implies {
                &&& chained(before.update(h as int, node), order)
                &&& elems(before.update(h as int, node), order) == elems(before, order).update(
                    i,
                    node.elem->0,
                )
            } by {
                lemma_chain_update(before, before.update(h as int, node), order, free, i, node.elem->0);
            }
        }
        match &mut self.slots[h].elem {
            Some(e) => Some(e),
            None => None,
        }
    }
}

} // verus!
