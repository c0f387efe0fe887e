use linked_lists::linked_list::LinkedList;
use std::cmp::Ordering;
use std::collections::hash_map::DefaultHasher;
use std::hash::{Hash, Hasher};

fn list_of(v: &[i32]) -> LinkedList<i32> {
    LinkedList::from_iter(v.iter().copied())
}

fn contents(list: &LinkedList<i32>) -> Vec<i32> {
    let mut out = Vec::new();
    let mut it = list.iter();
    while let Some(x) = it.next() {
        out.push(*x);
    }
    out
}

fn hash_of<T: Hash>(value: &T) -> u64 {
    let mut hasher = DefaultHasher::new();
    value.hash(&mut hasher);
    hasher.finish()
}

fn is_send<T: Send>() {}

fn is_sync<T: Sync>() {}

#[test]
fn length_is_pushes_minus_served_pops() {
    let mut list = LinkedList::new();
    let mut pushed = 0usize;
    let mut popped = 0usize;
    // A fixed mix of operations, with more pops than the deque can serve.
    let script = [0u8, 2, 3, 0, 1, 1, 2, 3, 3, 2, 0, 1, 0, 3, 2, 2, 2, 1];
    for (n, op) in script.iter().enumerate() {
        match *op {
            0 => {
                list.push_front(n as i32);
                pushed += 1;
            }
            1 => {
                list.push_back(n as i32);
                pushed += 1;
            }
            2 => {
                if list.pop_front().is_some() {
                    popped += 1;
                }
            }
            _ => {
                if list.pop_back().is_some() {
                    popped += 1;
                }
            }
        }
        assert_eq!(list.len(), pushed - popped);
        assert_eq!(list.is_empty(), pushed == popped);
    }
    assert_eq!(pushed, 8);
    assert_eq!(popped, 7);
    assert_eq!(list.len(), 1);
}

#[test]
fn pop_on_empty_gives_nothing_and_keeps_length_zero() {
    let mut list: LinkedList<i32> = LinkedList::new();
    assert_eq!(list.pop_front(), None);
    assert_eq!(list.pop_back(), None);
    assert_eq!(list.next(), None);
    assert_eq!(list.next_back(), None);
    assert_eq!(list.len(), 0);
    assert!(list.is_empty());
}

#[test]
fn push_back_then_pop_front_keeps_order() {
    let items = [5, 1, 4, 1, 9, 2];
    let mut list = list_of(&items);
    let mut out = Vec::new();
    while let Some(x) = list.pop_front() {
        out.push(x);
    }
    assert_eq!(out, items);
    assert!(list.is_empty());
}

#[test]
fn push_back_then_pop_back_reverses_order() {
    let items = [5, 1, 4, 1, 9, 2];
    let mut list = list_of(&items);
    let mut out = Vec::new();
    while let Some(x) = list.pop_back() {
        out.push(x);
    }
    assert_eq!(out, [2, 9, 1, 4, 1, 5]);
    assert!(list.is_empty());
}

#[test]
fn iterator_reports_exactly_what_is_left() {
    let list = list_of(&[1, 2, 3, 4, 5]);
    let mut it = list.iter();
    let from_back = [false, true, true, false, false, true, false];
    let mut left = 5usize;
    let mut handed_out = 0usize;
    for back in from_back {
        assert_eq!(it.len(), left);
        assert_eq!(it.size_hint(), (left, Some(left)));
        let got = if back { it.next_back() } else { it.next() };
        assert_eq!(got.is_some(), left > 0);
        if got.is_some() {
            left -= 1;
            handed_out += 1;
        }
    }
    assert_eq!(handed_out, 5);
    assert_eq!(it.len(), 0);
}

#[test]
fn mutable_iterator_reports_exactly_what_is_left_and_writes_through() {
    let mut list = list_of(&[1, 2, 3, 4]);
    let mut it = list.iter_mut();
    assert_eq!(it.len(), 4);
    *it.next().unwrap() += 10;
    assert_eq!(it.len(), 3);
    *it.next_back().unwrap() += 40;
    assert_eq!(it.size_hint(), (2, Some(2)));
    *it.next_back().unwrap() += 30;
    *it.next().unwrap() += 20;
    assert_eq!(it.len(), 0);
    assert!(it.next().is_none());
    assert!(it.next_back().is_none());
    assert_eq!(contents(&list), [11, 22, 33, 44]);
}

#[test]
fn cursor_stays_at_ghost_on_empty_deque() {
    let mut list: LinkedList<i32> = LinkedList::new();
    let mut cursor = list.cursor_mut();
    assert_eq!(cursor.index(), None);
    cursor.move_next();
    assert_eq!(cursor.index(), None);
    assert_eq!(cursor.current(), None);
    cursor.move_prev();
    assert_eq!(cursor.index(), None);
    assert_eq!(cursor.current(), None);
    assert_eq!(cursor.peek_next(), None);
    assert_eq!(cursor.peek_prev(), None);
}

#[test]
fn split_after_then_splice_after_gives_the_deque_back() {
    let items = [1, 2, 3, 4, 5];
    for i in 0..items.len() {
        let mut list = list_of(&items);
        let mut cursor = list.cursor_mut();
        for _ in 0..=i {
            cursor.move_next();
        }
        assert_eq!(cursor.index(), Some(i));
        let tail = cursor.split_after();
        assert_eq!(contents(&tail), &items[i + 1..]);
        assert_eq!(cursor.index(), Some(i));
        cursor.splice_after(tail);
        assert_eq!(cursor.index(), Some(i));
        assert_eq!(contents(&list), items);
        assert!(list == list_of(&items));
    }
    // At the ghost position everything goes out and comes back.
    let mut list = list_of(&items);
    let mut cursor = list.cursor_mut();
    let all = cursor.split_after();
    assert_eq!(contents(&all), items);
    cursor.splice_after(all);
    assert_eq!(cursor.index(), None);
    assert_eq!(contents(&list), items);
}

#[test]
fn split_before_then_splice_before_gives_the_deque_back() {
    let items = [1, 2, 3, 4, 5];
    for i in 0..items.len() {
        let mut list = list_of(&items);
        let mut cursor = list.cursor_mut();
        for _ in 0..=i {
            cursor.move_next();
        }
        let head = cursor.split_before();
        assert_eq!(contents(&head), &items[..i]);
        assert_eq!(cursor.index(), Some(0));
        assert_eq!(cursor.current(), Some(&mut items[i].clone()));
        cursor.splice_before(head);
        assert_eq!(cursor.index(), Some(i));
        assert_eq!(cursor.current(), Some(&mut items[i].clone()));
        assert_eq!(contents(&list), items);
    }
}

#[test]
fn scenario_three_pushes_and_a_pop() {
    let mut list = LinkedList::new();
    list.push_back(1);
    list.push_back(2);
    list.push_back(3);
    assert_eq!(list.pop_front(), Some(1));
    assert_eq!(list.len(), 2);
    assert_eq!(contents(&list), [2, 3]);
}

#[test]
fn scenario_splice_around_the_first_element() {
    let mut list = list_of(&[1, 2, 3, 4, 5, 6]);
    let mut cursor = list.cursor_mut();
    cursor.move_next();
    assert_eq!(cursor.index(), Some(0));
    cursor.splice_before(list_of(&[7]));
    assert_eq!(cursor.index(), Some(1));
    cursor.splice_after(list_of(&[8]));
    assert_eq!(cursor.index(), Some(1));
    assert_eq!(contents(&list), [7, 1, 8, 2, 3, 4, 5, 6]);
}

#[test]
fn scenario_splice_around_the_second_element() {
    let mut list = list_of(&[1, 2, 3, 4, 5, 6]);
    let mut cursor = list.cursor_mut();
    cursor.move_next();
    cursor.move_next();
    assert_eq!(cursor.index(), Some(1));
    cursor.splice_before(list_of(&[7]));
    assert_eq!(cursor.index(), Some(2));
    cursor.splice_after(list_of(&[8]));
    assert_eq!(contents(&list), [1, 7, 2, 8, 3, 4, 5, 6]);
}

#[test]
fn splice_of_an_empty_deque_changes_nothing() {
    let mut list = list_of(&[1, 2, 3]);
    let mut cursor = list.cursor_mut();
    cursor.move_next();
    cursor.move_next();
    cursor.splice_before(LinkedList::new());
    assert_eq!(cursor.index(), Some(1));
    cursor.splice_after(LinkedList::new());
    assert_eq!(cursor.index(), Some(1));
    cursor.move_next();
    cursor.move_next();
    assert_eq!(cursor.index(), None);
    cursor.splice_before(LinkedList::new());
    cursor.splice_after(LinkedList::new());
    assert_eq!(cursor.index(), None);
    assert_eq!(contents(&list), [1, 2, 3]);
}

#[test]
fn splice_into_an_empty_deque_makes_it_the_input() {
    let mut list: LinkedList<i32> = LinkedList::new();
    let mut cursor = list.cursor_mut();
    cursor.splice_before(list_of(&[1, 2]));
    assert_eq!(cursor.index(), None);
    assert_eq!(contents(&list), [1, 2]);

    let mut list: LinkedList<i32> = LinkedList::new();
    let mut cursor = list.cursor_mut();
    cursor.splice_after(list_of(&[3, 4]));
    assert_eq!(cursor.index(), None);
    assert_eq!(contents(&list), [3, 4]);
}

#[test]
fn splice_at_ghost_goes_to_the_ends() {
    let mut list = list_of(&[1, 2]);
    let mut cursor = list.cursor_mut();
    cursor.splice_before(list_of(&[8, 9]));
    cursor.splice_after(list_of(&[-2, -1]));
    assert_eq!(cursor.index(), None);
    cursor.move_next();
    assert_eq!(cursor.current(), Some(&mut -2));
    assert_eq!(contents(&list), [-2, -1, 1, 2, 8, 9]);
}

#[test]
fn split_before_on_a_node_keeps_the_node_first() {
    let mut list = list_of(&[1, 2, 3, 4]);
    let mut cursor = list.cursor_mut();
    cursor.move_next();
    cursor.move_next();
    cursor.move_next();
    let head = cursor.split_before();
    assert_eq!(contents(&head), [1, 2]);
    assert_eq!(cursor.index(), Some(0));
    assert_eq!(cursor.current(), Some(&mut 3));
    assert_eq!(cursor.peek_prev(), None);
    assert_eq!(cursor.peek_next(), Some(&mut 4));
    assert_eq!(contents(&list), [3, 4]);
    assert_eq!(list.len(), 2);
}

#[test]
fn split_on_the_end_nodes_returns_an_empty_deque() {
    let mut list = list_of(&[1, 2, 3]);
    let mut cursor = list.cursor_mut();
    cursor.move_next();
    let head = cursor.split_before();
    assert!(head.is_empty());
    cursor.move_prev();
    cursor.move_prev();
    assert_eq!(cursor.index(), Some(2));
    let tail = cursor.split_after();
    assert!(tail.is_empty());
    assert_eq!(contents(&list), [1, 2, 3]);
}

#[test]
fn cursor_writes_through_current_and_peeks() {
    let mut list = list_of(&[1, 2, 3]);
    let mut cursor = list.cursor_mut();
    cursor.move_next();
    cursor.move_next();
    *cursor.current().unwrap() = 20;
    *cursor.peek_prev().unwrap() = 10;
    *cursor.peek_next().unwrap() = 30;
    assert_eq!(cursor.index(), Some(1));
    assert_eq!(contents(&list), [10, 20, 30]);
}

#[test]
fn equal_when_built_from_the_same_elements() {
    let a = list_of(&[1, 2, 3]);
    let mut b = LinkedList::new();
    b.push_front(2);
    b.push_back(3);
    b.push_front(9);
    assert_eq!(b.pop_front(), Some(9));
    b.push_front(1);
    assert!(a == b);
    assert!(!(a != b));
    assert_eq!(a.partial_cmp(&b), Some(Ordering::Equal));
    assert_eq!(a.cmp(&b), Ordering::Equal);
    assert_eq!(hash_of(&a), hash_of(&b));
}

#[test]
fn different_lengths_are_not_equal() {
    let a = list_of(&[1, 2, 3]);
    let b = list_of(&[1, 2]);
    assert!(a != b);
    assert!(b != a);
    assert!(list_of(&[]) == list_of(&[]));
}

#[test]
fn order_is_lexicographic() {
    let empty = list_of(&[]);
    let a = list_of(&[1, 2, 3]);
    let b = list_of(&[1, 2, 4]);
    let prefix = list_of(&[1, 2]);
    assert!(empty < a);
    assert_eq!(empty.partial_cmp(&a), Some(Ordering::Less));
    assert_eq!(a.partial_cmp(&empty), Some(Ordering::Greater));
    assert_eq!(empty.partial_cmp(&list_of(&[])), Some(Ordering::Equal));
    assert_eq!(a.partial_cmp(&b), Some(Ordering::Less));
    assert_eq!(b.cmp(&a), Ordering::Greater);
    assert_eq!(prefix.cmp(&a), Ordering::Less);
    assert_eq!(a.cmp(&prefix), Ordering::Greater);
    assert_eq!(list_of(&[2]).cmp(&a), Ordering::Greater);
}

#[test]
fn an_incomparable_pair_decides_only_when_it_is_reached() {
    let nan = f64::NAN;
    let a: LinkedList<f64> = LinkedList::from_iter([1.0, nan].into_iter());
    let b: LinkedList<f64> = LinkedList::from_iter([1.0, 2.0].into_iter());
    assert_eq!(a.partial_cmp(&b), None);
    assert!(!(a < b) && !(a <= b) && !(a > b) && !(a >= b));
    // The first pair decides before the incomparable one is looked at.
    let c: LinkedList<f64> = LinkedList::from_iter([0.0, nan].into_iter());
    assert_eq!(c.partial_cmp(&b), Some(Ordering::Less));
    assert!(c < b);
    // A deque that holds an element unequal to itself is not equal to itself.
    assert!(a != a);
}

#[test]
fn hash_feeds_length_and_elements_in_order() {
    let a = list_of(&[1, 2, 3]);
    let mut expected = DefaultHasher::new();
    3usize.hash(&mut expected);
    1i32.hash(&mut expected);
    2i32.hash(&mut expected);
    3i32.hash(&mut expected);
    assert_eq!(hash_of(&a), expected.finish());
    assert_ne!(hash_of(&a), hash_of(&list_of(&[3, 2, 1])));
    assert_ne!(hash_of(&a), hash_of(&list_of(&[1, 2])));
}

#[test]
fn clone_is_equal_and_independent() {
    let a = list_of(&[1, 2, 3]);
    let mut b = a.clone();
    assert!(a == b);
    b.push_back(4);
    *b.front_mut().unwrap() = 0;
    assert_eq!(contents(&a), [1, 2, 3]);
    assert_eq!(contents(&b), [0, 2, 3, 4]);
}

#[test]
fn default_is_empty() {
    let list: LinkedList<i32> = Default::default();
    assert!(list.is_empty());
    assert_eq!(list.front(), None);
    assert_eq!(list.back(), None);
    assert_eq!(list.peek(), None);
}

#[test]
fn peeks_look_at_the_front() {
    let mut list = list_of(&[1, 2, 3]);
    assert_eq!(list.peek(), Some(&1));
    assert_eq!(list.front(), Some(&1));
    assert_eq!(list.back(), Some(&3));
    *list.peek_mut().unwrap() = 7;
    *list.back_mut().unwrap() = 9;
    assert_eq!(contents(&list), [7, 2, 9]);
    let mut empty: LinkedList<i32> = LinkedList::new();
    assert_eq!(empty.peek_mut(), None);
    assert_eq!(empty.front_mut(), None);
    assert_eq!(empty.back_mut(), None);
}

#[test]
fn clear_empties_and_the_deque_stays_usable() {
    let mut list = list_of(&[1, 2, 3]);
    list.clear();
    assert!(list.is_empty());
    assert_eq!(list.pop_front(), None);
    list.push_back(4);
    list.push_front(3);
    assert_eq!(contents(&list), [3, 4]);
}

#[test]
fn extend_appends_in_order() {
    let mut list = list_of(&[1, 2]);
    list.extend([3, 4].into_iter());
    list.extend(std::iter::empty());
    assert_eq!(contents(&list), [1, 2, 3, 4]);
    assert_eq!(list.into_vec(), [1, 2, 3, 4]);
}

#[test]
fn deque_drains_as_its_own_iterator() {
    let mut list = list_of(&[1, 2, 3, 4]);
    assert_eq!(list.next(), Some(1));
    assert_eq!(list.next_back(), Some(4));
    assert_eq!(list.len(), 2);
    assert_eq!(list.next_back(), Some(3));
    assert_eq!(list.next(), Some(2));
    assert_eq!(list.next(), None);
    assert_eq!(list.next_back(), None);
}

#[test]
fn slots_are_used_again_after_pops() {
    let mut list = LinkedList::new();
    for round in 0..50 {
        for i in 0..20 {
            if i % 2 == 0 {
                list.push_back(round * 100 + i);
            } else {
                list.push_front(round * 100 + i);
            }
        }
        for _ in 0..15 {
            assert!(list.pop_front().is_some());
        }
        assert_eq!(list.len(), (round as usize + 1) * 5);
    }
    let all = contents(&list);
    assert_eq!(all.len(), 250);
    assert_eq!(all[0], 2500);
    assert_eq!(all[1], 2502);
    assert_eq!(all[249], 4918);
    let mut back_to_front = Vec::new();
    let mut it = list.iter();
    while let Some(x) = it.next_back() {
        back_to_front.push(*x);
    }
    back_to_front.reverse();
    assert_eq!(back_to_front, all);
}

#[test]
fn a_long_deque_is_released_without_trouble() {
    let mut list = LinkedList::new();
    for i in 0..200_000 {
        list.push_back(i);
    }
    assert_eq!(list.len(), 200_000);
    drop(list);
}

#[test]
fn deque_and_read_only_iterator_can_cross_threads() {
    is_send::<LinkedList<i32>>();
    is_sync::<LinkedList<i32>>();
    is_send::<linked_lists::iter::Iter<i32>>();
    is_sync::<linked_lists::iter::Iter<i32>>();
    is_send::<linked_lists::iter::IterMut<i32>>();
    is_sync::<linked_lists::iter::IterMut<i32>>();
}
