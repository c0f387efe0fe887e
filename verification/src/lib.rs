//! Linked sequences: a doubly linked deque with iterators and a cursor, kept in a
//! slot arena, beside a linked stack, a linked queue, a family of shared pointers and
//! an iterator that can be written out.

mod arena;
pub mod compare;
pub mod convert;
pub mod cursor;
pub mod family;
pub mod format;
pub mod hash;
pub mod iter;
pub mod iter_ext;
pub mod laws;
pub mod linked_list;
pub mod model;
pub mod queue;
pub mod stack;
