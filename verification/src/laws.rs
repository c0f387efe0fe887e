//! Laws of the deque, its iterators and its cursor, proved from the contracts of the
//! operations.

use crate::compare::{lex_partial_cmp, seq_eq};
use crate::cursor::{
    index_after, index_before, position_of, rebased, split_after_kept, split_after_taken,
    split_before_kept, split_before_taken, spliced_after, spliced_before,
};
use crate::linked_list::LinkedList;
use crate::model::{
    given, outputs, pop_backs, pop_fronts, pops_served, push_backs, pushes, run, step, Op,
};
use core::cmp::Ordering;
use vstd::prelude::*;
use vstd::std_specs::cmp::{PartialEqSpec, PartialOrdIs, PartialOrdSpec};

verus! {

/// After any run of pushes and pops at either end, the length is the length at the
/// start, plus the number of pushes, minus the number of pops that gave an element out.
/// A pop on an empty deque gives nothing out and takes nothing off the length, so the
/// length never falls below zero.
pub proof fn law_length_counts_pushes_and_pops<T>(items: Seq<T>, ops: Seq<Op<T>>)
    ensures
        run(items, ops).len() == items.len() + pushes(ops) - pops_served(items, ops),
        pops_served(items, ops) <= items.len() + pushes(ops),
    decreases ops.len(),
{
    if ops.len() > 0 {
        law_length_counts_pushes_and_pops(step(items, ops[0]), ops.drop_first());
    }
}

/// Pushing `items` at the back of a deque that holds `start` leaves `start` followed
/// by `items`.
pub proof fn lemma_push_backs_append<T>(start: Seq<T>, items: Seq<T>)
    ensures
        run(start, push_backs(items)) == start + items,
    decreases items.len(),
{
    if items.len() > 0 {
        assert(push_backs(items).drop_first() =~= push_backs(items.drop_first()));
        lemma_push_backs_append(start.push(items[0]), items.drop_first());
    }
}

/// Popping at the front as often as there are elements gives them out first to last
/// and leaves nothing.
pub proof fn lemma_pop_fronts_drain<T>(items: Seq<T>)
    ensures
        outputs(items, pop_fronts(items.len())) == given(items),
        run(items, pop_fronts(items.len())) == Seq::<T>::empty(),
    decreases items.len(),
{
    if items.len() > 0 {
        let rest = items.drop_first();
        assert(pop_fronts::<T>(items.len()).drop_first() =~= pop_fronts::<T>(rest.len()));
        lemma_pop_fronts_drain(rest);
    }
}

/// Popping at the back as often as there are elements gives them out last to first
/// and leaves nothing.
pub proof fn lemma_pop_backs_drain<T>(items: Seq<T>)
    ensures
        outputs(items, pop_backs(items.len())) == given(items.reverse()),
        run(items, pop_backs(items.len())) == Seq::<T>::empty(),
    decreases items.len(),
{
    if items.len() > 0 {
        let rest = items.drop_last();
        assert(pop_backs::<T>(items.len()).drop_first() =~= pop_backs::<T>(rest.len()));
        lemma_pop_backs_drain(rest);
    }
}

/// Round trip through the front: elements pushed at the back of an empty deque come out
/// of the front in the order in which they went in.
pub proof fn law_push_back_then_pop_front<T>(items: Seq<T>)
    ensures
        run(Seq::<T>::empty(), push_backs(items)) == items,
        outputs(run(Seq::<T>::empty(), push_backs(items)), pop_fronts(items.len())) == given(items),
        run(run(Seq::<T>::empty(), push_backs(items)), pop_fronts(items.len()))
            == Seq::<T>::empty(),
{
    lemma_push_backs_append(Seq::<T>::empty(), items);
    lemma_pop_fronts_drain(items);
}

/// Round trip through the back: elements pushed at the back of an empty deque come out
/// of the back in the reverse of the order in which they went in.
pub proof fn law_push_back_then_pop_back<T>(items: Seq<T>)
    ensures
        outputs(run(Seq::<T>::empty(), push_backs(items)), pop_backs(items.len())) == given(
            items.reverse(),
        ),
        run(run(Seq::<T>::empty(), push_backs(items)), pop_backs(items.len()))
            == Seq::<T>::empty(),
{
    lemma_push_backs_append(Seq::<T>::empty(), items);
    lemma_pop_backs_drain(items);
}

/// Number of calls that hand an element out, among the calls `from_back` on an iterator
/// with `remaining` left: `true` stands for a call of `next_back`, `false` for one of
/// `next`.
pub open spec fn handed_out<T>(remaining: Seq<T>, from_back: Seq<bool>) -> nat
    decreases from_back.len(),
{
    if from_back.len() == 0 || remaining.len() == 0 {
        0
    } else if from_back[0] {
        1 + handed_out(remaining.drop_last(), from_back.drop_first())
    } else {
        1 + handed_out(remaining.drop_first(), from_back.drop_first())
    }
}

/// The count that an iterator reports is exact: whichever ends the calls take from, as
/// many of them hand an element out as there are elements left, and no more.
pub proof fn law_iterator_count_is_exact<T>(remaining: Seq<T>, from_back: Seq<bool>)
    ensures
        handed_out(remaining, from_back) == if from_back.len() < remaining.len() {
            from_back.len()
        } else {
            remaining.len()
        },
    decreases from_back.len(),
{
    if from_back.len() > 0 && remaining.len() > 0 {
        if from_back[0] {
            law_iterator_count_is_exact(remaining.drop_last(), from_back.drop_first());
        } else {
            law_iterator_count_is_exact(remaining.drop_first(), from_back.drop_first());
        }
    }
}

/// On an empty deque a cursor at the ghost position stays there, whichever way it
/// moves.
pub proof fn law_ghost_self_loop()
    ensures
        position_of(index_after(None), 0) is None,
        position_of(index_before(None, 0), 0) is None,
{
}

/// Cutting a deque after the cursor and splicing what was cut off back in after the
/// cursor gives the deque as it was.
pub proof fn law_split_after_then_splice_after<T>(items: Seq<T>, index: Option<usize>)
    requires
        index matches Some(i) ==> i < items.len(),
    ensures
        spliced_after(split_after_kept(items, index), index, split_after_taken(items, index))
            == items,
{
    assert(spliced_after(split_after_kept(items, index), index, split_after_taken(items, index))
        =~= items);
}

/// Cutting a deque before the cursor and splicing what was cut off back in before the
/// cursor gives the deque as it was.
pub proof fn law_split_before_then_splice_before<T>(items: Seq<T>, index: Option<usize>)
    requires
        index matches Some(i) ==> i < items.len(),
    ensures
        spliced_before(
            split_before_kept(items, index),
            rebased(index),
            split_before_taken(items, index),
        ) == items,
{
    assert(spliced_before(
        split_before_kept(items, index),
        rebased(index),
        split_before_taken(items, index),
    ) =~= items);
}

/// Deques that hold the same elements in the same order are equal, where each element
/// is equal to itself.
pub proof fn law_same_elements_are_equal<T: PartialEq>(a: LinkedList<T>, b: LinkedList<T>)
    requires
        a@ == b@,
        forall|i: int| 0 <= i < a@.len() ==> #[trigger] a@[i].eq_spec(&a@[i]),
    ensures
        a.eq_spec(&b),
        seq_eq(a@, b@),
{
}

/// An empty deque comes before every deque that holds an element.
pub proof fn law_empty_comes_first<T: PartialOrd>(a: LinkedList<T>, b: LinkedList<T>)
    requires
        a@.len() == 0,
        b@.len() > 0,
    ensures
        a.partial_cmp_spec(&b) == Some(Ordering::Less),
        b.partial_cmp_spec(&a) == Some(Ordering::Greater),
        a.is_lt(&b),
        b.is_gt(&a),
{
}

/// Where the first pair of elements that is not equal cannot be compared, the two
/// deques cannot be compared either: none of `<`, `<=`, `>` and `>=` holds of them.
pub proof fn law_incomparable_elements<T: PartialOrd>(a: LinkedList<T>, b: LinkedList<T>, k: int)
    requires
        0 <= k < a@.len(),
        k < b@.len(),
        forall|j: int|
            0 <= j < k ==> #[trigger] a@[j].partial_cmp_spec(&b@[j]) == Some(Ordering::Equal),
        a@[k].partial_cmp_spec(&b@[k]) is None,
    ensures
        a.partial_cmp_spec(&b) is None,
        !a.is_lt(&b),
        !a.is_le(&b),
        !a.is_gt(&b),
        !a.is_ge(&b),
{
    lemma_lex_skips_equal_prefix(a@, b@, k);
}

/// The order of two sequences that agree on their first `k` pairs is the order of what
/// follows those pairs.
pub proof fn lemma_lex_skips_equal_prefix<T: PartialOrd>(a: Seq<T>, b: Seq<T>, k: int)
    requires
        0 <= k <= a.len(),
        k <= b.len(),
        forall|j: int|
            0 <= j < k ==> #[trigger] a[j].partial_cmp_spec(&b[j]) == Some(Ordering::Equal),
    ensures
        lex_partial_cmp(a, b) == lex_partial_cmp(a.skip(k), b.skip(k)),
    decreases k,
{
    if k == 0 {
        assert(a.skip(0) =~= a);
        assert(b.skip(0) =~= b);
    } else {
        let a1 = a.drop_first();
        let b1 = b.drop_first();
        assert forall|j: int| 0 <= j < k - 1 implies #[trigger] a1[j].partial_cmp_spec(&b1[j])
            == Some(Ordering::Equal) by {
            assert(a1[j] == a[j + 1] && b1[j] == b[j + 1]);
        }
        lemma_lex_skips_equal_prefix(a1, b1, k - 1);
        assert(a1.skip(k - 1) =~= a.skip(k));
        assert(b1.skip(k - 1) =~= b.skip(k));
    }
}

} // verus!
