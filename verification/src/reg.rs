//! Basic register models.
//!
//! The [`Register`] model is a quick one-word memory cell, generic over the
//! word types of [`crate::arch::Value`]. To provide access as the
//! represented type, `Register` implements [`Cell`]; as a device it is
//! addressable at every index, always answering with its single word.

use vstd::prelude::*;

use crate::arch::{Address, Cell, Value};
use crate::blk::Block;
use crate::dev::{Device, Dynamic, Space};

verus! {

/// Register model.
pub struct Register<V: Value>(pub V);

impl<V: Value> View for Register<V> {
    type V = V;

    open spec fn view(&self) -> V {
        self.0
    }
}

impl<V: Value> Register<V> {
    /// Constructs a new `Register` holding zero.
    pub fn new() -> (r: Self)
        ensures
            r@ == V::zero(),
    {
        Register(V::zeroed())
    }

    /// Constructs a `Register` holding the given word.
    pub fn from(value: V) -> (r: Self)
        ensures
            r@ == value,
    {
        Register(value)
    }
}

impl<V: Value> Address<V> for Register<V> {
    open spec fn can_read(&self, index: usize) -> bool {
        true
    }

    open spec fn value_at(&self, index: usize) -> V {
        self.0
    }

    open spec fn can_write(&self, index: usize) -> bool {
        true
    }

    open spec fn write_rel(&self, post: Self, index: usize, value: V) -> bool {
        post@ == value
    }

    fn read(&self, _index: usize) -> (r: V) {
        self.0
    }

    fn write(&mut self, _index: usize, value: V) {
        self.0 = value;
    }
}

impl<V: Value> Cell<V> for Register<V> {
    open spec fn held(&self) -> V {
        self.0
    }

    fn load(&self) -> (r: V) {
        self.0
    }

    fn store(&mut self, value: V) {
        self.0 = value;
    }
}

impl<V: Value> Block for Register<V> {
    open spec fn reset_rel(&self, post: Self) -> bool {
        post@ == V::zero()
    }

    fn reset(&mut self) {
        self.0 = V::zeroed();
    }
}

impl Device for Register<u8> {
    open spec fn erased(&self) -> Space {
        Space::Register(self@)
    }

    fn to_dynamic(self) -> (d: Dynamic) {
        Dynamic::Register(self.0)
    }
}

} // verus!
