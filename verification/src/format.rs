//! Deques as text: the elements in order, separated by `, `, in square brackets.

use crate::linked_list::LinkedList;
use core::fmt::{Debug, Display};
use vstd::prelude::*;
use vstd::string::{to_string_from_display_ensures, StringExecFns};

verus! {

/// The texts of `parts`, separated by a comma and a space.
pub open spec fn joined(parts: Seq<Seq<char>>) -> Seq<char>
    decreases parts.len(),
{
    if parts.len() == 0 {
        Seq::empty()
    } else if parts.len() == 1 {
        parts[0]
    } else {
        joined(parts.drop_last()) + seq![',', ' '] + parts.last()
    }
}

/// The texts of `parts` as a listing: `[a, b, c]`.
pub open spec fn listing(parts: Seq<Seq<char>>) -> Seq<char> {
    seq!['['] + joined(parts) + seq![']']
}

/// The characters of each of `texts`.
pub open spec fn chars_of(texts: Seq<String>) -> Seq<Seq<char>> {
    texts.map_values(|t: String| t@)
}

/// `texts` holds, for each of `items` in order, a text that `Display` gives for it.
pub open spec fn displayed<T: Display>(items: Seq<T>, texts: Seq<String>) -> bool {
    &&& texts.len() == items.len()
    &&& forall|i: int|
        0 <= i < items.len() ==> to_string_from_display_ensures::<T>(&items[i], #[trigger] texts[i])
}

/// The text that `Debug` gives for `e`, as `format!` with `{:?}` writes it. Nothing is
/// claimed of what it holds.
#[verifier::external_body]
fn debug_text<T: Debug>(e: &T) -> String {
    format!("{:?}", e)
}

/// Writes `parts` as a listing.
pub fn write_listing(parts: &Vec<String>) -> (s: String)
    ensures
        s@ == listing(chars_of(parts@)),
{
    let ghost texts = chars_of(parts@);
    let mut s = String::new();
    proof {
        reveal_strlit("[");
        reveal_strlit(", ");
        reveal_strlit("]");
    }
    s.append("[");
    let n = parts.len();
    let mut i: usize = 0;
    while i < n
        invariant
            i <= n,
            n == parts@.len(),
            texts == chars_of(parts@),
            s@ == seq!['['] + joined(texts.take(i as int)),
            ", "@ == seq![',', ' '],
        decreases n - i,
    {
        if i > 0 {
            s.append(", ");
        }
        s.append(parts[i].as_str());
        assert(texts.take(i + 1).drop_last() =~= texts.take(i as int));
        i = i + 1;
    }
    s.append("]");
    assert(texts.take(n as int) =~= texts);
    s
}

impl<T: Display> LinkedList<T> {
    /// The deque as a listing of its elements, each as `Display` writes it.
    pub fn to_string(&self) -> (s: String)
        ensures
            exists|texts: Seq<String>| displayed(self@, texts) && s@ == listing(chars_of(texts)),
    {
        let mut parts: Vec<String> = Vec::new();
        let mut it = self.iter();
        loop
            invariant
                parts@.len() + it.remaining().len() == self@.len(),
                it.remaining() == self@.skip(parts@.len() as int),
                forall|i: int|
                    0 <= i < parts@.len() ==> to_string_from_display_ensures::<T>(
                        &self@[i],
                        #[trigger] parts@[i],
                    ),
            ensures
                displayed(self@, parts@),
            decreases it.remaining().len(),
        {
            match it.next() {
                Some(e) => {
                    parts.push(e.to_string());
                },
                None => {
                    break ;
                },
            }
        }
        write_listing(&parts)
    }
}

impl<T: Debug> LinkedList<T> {
    /// The deque as a listing of its elements, each as `Debug` writes it.
    pub fn to_debug_string(&self) -> (s: String)
        ensures
            exists|texts: Seq<String>| texts.len() == self@.len() && s@ == listing(chars_of(texts)),
    {
        let mut parts: Vec<String> = Vec::new();
        let mut it = self.iter();
        loop
            invariant
                parts@.len() + it.remaining().len() == self@.len(),
            ensures
                parts@.len() == self@.len(),
            decreases it.remaining().len(),
        {
            match it.next() {
                Some(e) => {
                    parts.push(debug_text(e));
                },
                None => {
                    break ;
                },
            }
        }
        write_listing(&parts)
    }
}

} // verus!
