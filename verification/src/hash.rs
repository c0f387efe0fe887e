//! Hashing of deques: the length, then the elements front to back.

use crate::linked_list::LinkedList;
use core::hash::{Hash, Hasher};
use vstd::prelude::*;

verus! {

/// Feeds `value` into `state`, as `Hash::hash` of the standard library does. Nothing is
/// claimed of the state afterwards.
#[verifier::external_body]
fn feed<V: Hash, H: Hasher>(value: &V, state: &mut H) {
    value.hash(state)
}

impl<T: Hash> Hash for LinkedList<T> {
    /// Feeds the length and then each element, front to back, so that deques with equal
    /// elements feed the same values in the same order.
    fn hash<H: Hasher>(&self, state: &mut H) {
        let n = self.len();
        feed(&n, state);
        let mut it = self.iter();
        loop
            decreases it.remaining().len(),
        {
            match it.next() {
                Some(item) => {
                    feed(item, state);
                },
                None => {
                    break ;
                },
            }
        }
    }
}

} // verus!
