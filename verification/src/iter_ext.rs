//! An iterator as text: what it hands out, each item followed by a comma, in square
//! brackets.

use crate::format::{chars_of, displayed};
use core::fmt::Display;
use vstd::prelude::*;
use vstd::std_specs::iter::IteratorSpec;
use vstd::string::{to_string_from_display_ensures, StringExecFns};

verus! {

/// The texts of `parts`, each followed by a comma.
pub open spec fn trailed(parts: Seq<Seq<char>>) -> Seq<char>
    decreases parts.len(),
{
    if parts.len() == 0 {
        Seq::empty()
    } else {
        trailed(parts.drop_last()) + parts.last() + seq![',']
    }
}

/// The texts of `parts` as a listing with trailing commas: `[a,b,c,]`.
pub open spec fn trailing_listing(parts: Seq<Seq<char>>) -> Seq<char> {
    seq!['['] + trailed(parts) + seq![']']
}

/// Writes `parts` as a listing with trailing commas.
pub fn write_trailing_listing(parts: &Vec<String>) -> (s: String)
    ensures
        s@ == trailing_listing(chars_of(parts@)),
{
    let ghost texts = chars_of(parts@);
    let mut s = String::new();
    proof {
        reveal_strlit("[");
        reveal_strlit(",");
        reveal_strlit("]");
    }
    s.append("[");
    let n = parts.len();
    let mut i: usize = 0;
    while i < n
        invariant
            i <= n,
            n == parts@.len(),
            texts == chars_of(parts@),
            s@ == seq!['['] + trailed(texts.take(i as int)),
            ","@ == seq![','],
        decreases n - i,
    {
        s.append(parts[i].as_str());
        s.append(",");
        assert(texts.take(i + 1).drop_last() =~= texts.take(i as int));
        i = i + 1;
    }
    s.append("]");
    assert(texts.take(n as int) =~= texts);
    s
}

/// An iterator that can be written out.
pub struct IterExt<ITER: Iterator> {
    /// The iterator that is written out.
    pub iter: ITER,
}

impl<ITER: Iterator> IterExt<ITER> where ITER::Item: Display {
    /// Drains the iterator and writes what it hands out as a listing with trailing
    /// commas, each item as `Display` writes it.
    pub fn to_string(&mut self) -> (s: String)
        requires
            old(self).iter.obeys_prophetic_iter_laws(),
            old(self).iter.decrease() is Some,
        ensures
            exists|texts: Seq<String>|
                displayed(old(self).iter.remaining(), texts) && s@ == trailing_listing(
                    chars_of(texts),
                ),
            final(self).iter.remaining().len() == 0,
    {
        let ghost all = self.iter.remaining();
        let mut parts: Vec<String> = Vec::new();
        loop
            invariant
                self.iter.obeys_prophetic_iter_laws(),
                self.iter.decrease() is Some,
                parts@.len() + self.iter.remaining().len() == all.len(),
                self.iter.remaining() == all.skip(parts@.len() as int),
                forall|i: int|
                    0 <= i < parts@.len() ==> to_string_from_display_ensures::<ITER::Item>(
                        &all[i],
                        #[trigger] parts@[i],
                    ),
            ensures
                displayed(all, parts@),
                self.iter.remaining().len() == 0,
            decreases self.iter.decrease()->0,
        {
            match self.iter.next() {
                Some(item) => {
                    parts.push(item.to_string());
                },
                None => {
                    break ;
                },
            }
        }
        write_trailing_listing(&parts)
    }
}

} // verus!
