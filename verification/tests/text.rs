use linked_lists::format::write_listing;
use linked_lists::iter_ext::{write_trailing_listing, IterExt};
use linked_lists::linked_list::LinkedList;

#[test]
fn listing_of_no_parts_is_a_pair_of_brackets() {
    assert_eq!(write_listing(&Vec::new()), "[]");
    assert_eq!(write_trailing_listing(&Vec::new()), "[]");
}

#[test]
fn listing_separates_with_comma_and_space() {
    let parts = vec![String::from("a"), String::from("b"), String::from("c")];
    assert_eq!(write_listing(&parts), "[a, b, c]");
    assert_eq!(write_listing(&parts[..1].to_vec()), "[a]");
}

#[test]
fn trailing_listing_ends_each_part_with_a_comma() {
    let parts = vec![String::from("a"), String::from("b"), String::from("c")];
    assert_eq!(write_trailing_listing(&parts), "[a,b,c,]");
    assert_eq!(write_trailing_listing(&parts[..1].to_vec()), "[a,]");
}

#[test]
fn deque_to_string_uses_display() {
    let list: LinkedList<&str> = LinkedList::from_iter(["a", "b", "c"].into_iter());
    assert_eq!(list.to_string(), "[a, b, c]");
    let one: LinkedList<i32> = LinkedList::from_iter(Some(-4).into_iter());
    assert_eq!(one.to_string(), "[-4]");
    let none: LinkedList<i32> = LinkedList::new();
    assert_eq!(none.to_string(), "[]");
}

#[test]
fn deque_to_debug_string_uses_debug() {
    let list: LinkedList<&str> = LinkedList::from_iter(["a", "b"].into_iter());
    assert_eq!(list.to_debug_string(), "[\"a\", \"b\"]");
    let nested: LinkedList<Option<u8>> = LinkedList::from_iter([Some(1), None].into_iter());
    assert_eq!(nested.to_debug_string(), "[Some(1), None]");
    let none: LinkedList<u8> = LinkedList::new();
    assert_eq!(none.to_debug_string(), "[]");
}

#[test]
fn to_string_follows_the_deque_order_after_changes() {
    let mut list: LinkedList<i32> = LinkedList::new();
    list.push_back(2);
    list.push_front(1);
    list.push_back(3);
    assert_eq!(list.pop_front(), Some(1));
    list.push_front(0);
    assert_eq!(list.to_string(), "[0, 2, 3]");
}

#[test]
fn iter_ext_writes_what_the_iterator_hands_out() {
    let mut numbers = IterExt { iter: vec![1, 2, 3].into_iter() };
    assert_eq!(numbers.to_string(), "[1,2,3,]");
    // The iterator was drained.
    assert_eq!(numbers.to_string(), "[]");

    let mut empty = IterExt { iter: Vec::<String>::new().into_iter() };
    assert_eq!(empty.to_string(), "[]");
}
