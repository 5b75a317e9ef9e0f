//! Exclusive device handles.

use vstd::prelude::*;

use crate::arch::{Address, Cell, Value};
use crate::blk::Block;
use crate::dev::{Device, Dynamic, Space};

verus! {

/// Owning handle to a device.
///
/// `Shared` grants scoped access to the device it holds and implements the
/// device contracts itself by delegation, so handles are interchangeable with
/// raw devices. Exclusive mutable access is enforced by single ownership: the
/// holder of the handle is the single writer, so a device can never observe a
/// conflicting re-entrant access through it.
pub struct Shared<T>(pub T);

impl<T> View for Shared<T> {
    type V = T;

    open spec fn view(&self) -> T {
        self.0
    }
}

impl<T> Shared<T> {
    /// Creates a new [`Shared`] handle.
    pub fn new(dev: T) -> (r: Self)
        ensures
            r@ == dev,
    {
        Shared(dev)
    }

    /// Gets a reference to the underlying device.
    pub fn inner(&self) -> (r: &T)
        ensures
            *r == self@,
    {
        &self.0
    }

    /// Gets a mutable reference to the underlying device.
    pub fn inner_mut(&mut self) -> (r: &mut T)
        ensures
            *r == old(self)@,
            final(self)@ == *final(r),
    {
        &mut self.0
    }

    /// Borrows the underlying device.
    pub fn borrow(&self) -> (r: &T)
        ensures
            *r == self@,
    {
        &self.0
    }

    /// Mutably borrows the underlying device.
    pub fn borrow_mut(&mut self) -> (r: &mut T)
        ensures
            *r == old(self)@,
            final(self)@ == *final(r),
    {
        &mut self.0
    }
}

impl<V: Value, T: Address<V>> Address<V> for Shared<T> {
    open spec fn can_read(&self, index: usize) -> bool {
        self.0.can_read(index)
    }

    open spec fn value_at(&self, index: usize) -> V {
        self.0.value_at(index)
    }

    open spec fn can_write(&self, index: usize) -> bool {
        self.0.can_write(index)
    }

    open spec fn write_rel(&self, post: Self, index: usize, value: V) -> bool {
        self.0.write_rel(post.0, index, value)
    }

    fn read(&self, index: usize) -> (r: V) {
        self.0.read(index)
    }

    fn write(&mut self, index: usize, value: V) {
        self.0.write(index, value)
    }
}

impl<V: Value, T: Cell<V>> Cell<V> for Shared<T> {
    open spec fn held(&self) -> V {
        self.0.held()
    }

    fn load(&self) -> (r: V) {
        self.0.load()
    }

    fn store(&mut self, value: V) {
        self.0.store(value)
    }
}

impl<T: Block> Block for Shared<T> {
    open spec fn reset_rel(&self, post: Self) -> bool {
        self.0.reset_rel(post.0)
    }

    fn reset(&mut self) {
        self.0.reset()
    }
}

impl<T: Device> Device for Shared<T> {
    open spec fn erased(&self) -> Space {
        self.0.erased()
    }

    fn to_dynamic(self) -> (d: Dynamic) {
        self.0.to_dynamic()
    }
}

} // verus!
