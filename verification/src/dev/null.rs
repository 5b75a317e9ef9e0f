//! Null device.

use vstd::prelude::*;

use crate::arch::{Address, Value};
use crate::blk::Block;
use crate::dev::{Device, Dynamic, Space};

verus! {

/// Null device.
///
/// The `Null` device ignores all writes, and always yields the same "garbage"
/// value when read. This can be useful to allow memory accesses to an
/// unmapped region of memory without causing a contract violation.
///
/// `Null` defaults to yielding the null word when read, but this can be
/// changed either by constructing with [`Null::with`], or through the
/// [`Null::read_as`] method at runtime. Its fallible accesses honour the
/// length `N`, with zero standing for an unbounded device.
pub struct Null<V: Value, const N: usize>(pub V);

impl<V: Value, const N: usize> View for Null<V, N> {
    type V = V;

    open spec fn view(&self) -> V {
        self.0
    }
}

impl<V: Value, const N: usize> Null<V, N> {
    /// Constructs a new `Null<N>`.
    pub fn new() -> (r: Self)
        ensures
            r@ == V::zero(),
    {
        Null(V::zeroed())
    }

    /// Constructs an instance of [`Null`] that yields the specified value
    /// when performing a read.
    pub fn with(value: V) -> (r: Self)
        ensures
            r@ == value,
    {
        Null(value)
    }

    /// Sets the value to be used when performing a read.
    pub fn read_as(&mut self, value: V)
        ensures
            final(self)@ == value,
    {
        self.0 = value;
    }

    /// Attempts a read, failing past the device's length.
    pub fn try_read(&self, index: usize) -> (r: Option<V>)
        ensures
            r is Some <==> (N == 0 || index < N),
            r is Some ==> r->0 == self@,
    {
        if N == 0 || index < N {
            Some(self.0)
        } else {
            None
        }
    }

    /// Attempts a write, failing past the device's length.
    pub fn try_write(&mut self, index: usize, _value: V) -> (r: Option<()>)
        ensures
            final(self)@ == old(self)@,
            r is Some <==> (N == 0 || index < N),
    {
        if N == 0 || index < N {
            Some(())
        } else {
            None
        }
    }
}

impl<V: Value, const N: usize> Address<V> for Null<V, N> {
    open spec fn can_read(&self, index: usize) -> bool {
        true
    }

    open spec fn value_at(&self, index: usize) -> V {
        self.0
    }

    open spec fn can_write(&self, index: usize) -> bool {
        true
    }

    open spec fn write_rel(&self, post: Self, index: usize, value: V) -> bool {
        post@ == self@
    }

    fn read(&self, _index: usize) -> (r: V) {
        self.0
    }

    fn write(&mut self, _index: usize, _value: V) {
    }
}

impl<V: Value, const N: usize> Block for Null<V, N> {
    open spec fn reset_rel(&self, post: Self) -> bool {
        post@ == self@
    }

    fn reset(&mut self) {
    }
}

impl<const N: usize> Device for Null<u8, N> {
    open spec fn erased(&self) -> Space {
        Space::Null { value: self@, size: N }
    }

    fn to_dynamic(self) -> (d: Dynamic) {
        Dynamic::Null(self.0, N)
    }
}

} // verus!
