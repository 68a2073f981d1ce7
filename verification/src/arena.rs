//! A minimal bump arena: 16-bit handles into a flat store, with handle 0
//! reserved so that valid handles are strictly positive.

use vstd::prelude::*;
use core::marker::PhantomData;

verus! {

/// The width of an arena handle.
pub type U = u16;

/// An opaque 16-bit handle into an [`Arena<T>`]. Value 0 is the null
/// sentinel and is never returned by allocation.
#[derive(Debug)]
pub struct Idx<T> {
    pub raw: U,
    pub _phantom: PhantomData<T>,
}

impl<T> Idx<T> {
    /// The handle with the given raw value.
    pub fn from_raw(value: U) -> (r: Idx<T>)
        ensures
            r.raw == value,
    {
        Idx { raw: value, _phantom: PhantomData }
    }
}

impl<T> Clone for Idx<T> {
    fn clone(&self) -> (r: Self)
        ensures
            r.raw == self.raw,
    {
        Idx { raw: self.raw, _phantom: PhantomData }
    }
}

impl<T> Copy for Idx<T> {}

impl<T> From<U> for Idx<T> {
    fn from(value: U) -> (r: Idx<T>) {
        Idx { raw: value, _phantom: PhantomData }
    }
}

impl<T> vstd::std_specs::convert::FromSpecImpl<U> for Idx<T> {
    open spec fn obeys_from_spec() -> bool {
        true
    }

    open spec fn from_spec(value: U) -> Idx<T> {
        Idx { raw: value, _phantom: PhantomData }
    }
}

/// A bump allocator over an owned store. The first field is the next
/// free handle, starting at 1 so that 0 stays the null sentinel; slot 0
/// of the store is never handed out.
pub struct Arena<T>(U, Vec<T>);

impl<T> Arena<T> {
    /// The watermark: handles below it have been handed out (or are the
    /// reserved 0).
    pub closed spec fn next(self) -> int {
        self.0 as int
    }

    /// The stored values.
    pub closed spec fn store(self) -> Seq<T> {
        self.1@
    }

    /// An arena over `slice`, with nothing allocated yet.
    pub fn new(slice: Vec<T>) -> (a: Arena<T>)
        ensures
            a.next() == 1,
            a.store() == slice@,
    {
        Arena(1, slice)
    }

    /// Read the value behind a handed-out handle.
    pub fn get(&self, idx: Idx<T>) -> (r: &T)
        requires
            idx.raw < self.next(),
            idx.raw < self.store().len(),
        ensures
            *r == self.store()[idx.raw as int],
    {
        &self.1[idx.raw as usize]
    }

    /// Write `value` behind a handed-out handle. (A handle does not lend
    /// out a mutable borrow here; the update is taken by value.)
    pub fn get_mut(&mut self, idx: Idx<T>, value: T)
        requires
            idx.raw < old(self).next(),
            idx.raw < old(self).store().len(),
        ensures
            final(self).next() == old(self).next(),
            final(self).store() == old(self).store().update(idx.raw as int, value),
    {
        self.1.set(idx.raw as usize, value);
    }

    /// Reserve the next handle, in strictly increasing order; nothing
    /// when the store (or the 16-bit handle space) is exhausted.
    pub fn allocate(&mut self) -> (r: Option<Idx<T>>)
        ensures
            final(self).store() == old(self).store(),
            old(self).next() >= old(self).store().len() || old(self).next() == U::MAX
                ==> r is None && final(self).next() == old(self).next(),
            old(self).next() < old(self).store().len() && old(self).next() < U::MAX
                ==> (r matches Some(idx) && idx.raw == old(self).next() && final(self).next()
                == old(self).next() + 1),
    {
        if self.0 as usize >= self.1.len() || self.0 == U::MAX {
            None
        } else {
            let ret = Idx { raw: self.0, _phantom: PhantomData };
            self.0 = self.0 + 1;
            Some(ret)
        }
    }
}

} // verus!
