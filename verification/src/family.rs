//! Families of reference-counted pointers, and a container that holds its value behind
//! a pointer of the family it is given.

use std::rc::Rc;
use std::sync::Arc;
use vstd::prelude::*;

verus! {

/// A family of reference-counted pointers: for each `T`, the pointer type that shares a
/// `T`.
pub trait RefCountedFamily<T> {
    type Pointer;

    /// The value that `p` shares.
    spec fn pointee(p: &Self::Pointer) -> T;

    /// A pointer to `value`.
    fn new(value: T) -> (p: Self::Pointer)
        ensures
            Self::pointee(&p) == value,
    ;
}

/// The family of `Rc`.
pub struct RcFamily;

impl<T> RefCountedFamily<T> for RcFamily {
    type Pointer = Rc<T>;

    open spec fn pointee(p: &Rc<T>) -> T {
        **p
    }

    fn new(value: T) -> (p: Rc<T>) {
        Rc::new(value)
    }
}

/// The family of `Arc`.
pub struct ArcFamily;

impl<T> RefCountedFamily<T> for ArcFamily {
    type Pointer = Arc<T>;

    open spec fn pointee(p: &Arc<T>) -> T {
        **p
    }

    fn new(value: T) -> (p: Arc<T>) {
        Arc::new(value)
    }
}

/// A value behind a pointer of the family `P`.
pub struct Container<P: RefCountedFamily<T>, T> {
    data: P::Pointer,
}

impl<P: RefCountedFamily<T>, T> Container<P, T> {
    /// The value that the container shares.
    pub closed spec fn value(&self) -> T {
        P::pointee(&self.data)
    }

    /// A container that shares `v`.
    pub fn new(v: T) -> (c: Self)
        ensures
            c.value() == v,
    {
        Container { data: P::new(v) }
    }
}

} // verus!
