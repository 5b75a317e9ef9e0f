//! Bounded sub-range window onto a device.

use vstd::prelude::*;
use vstd::view::View as ViewSpec;

use crate::dev::{
    dyn_view, readable, t_readable, t_writable, value_at, wf, writable, written, Dynamic, Space,
};

verus! {

/// Partial address view.
///
/// The `View` adapter exposes only the inclusive range `[start, end]` of the
/// wrapped device, re-based so that local index 0 reaches `start`. Accesses
/// past the window fail; in conjunction with [`Remap`](super::Remap), devices
/// can be partially or completely mapped into another address space.
#[derive(Debug)]
pub struct View {
    pub start: usize,
    pub end: usize,
    pub dev: Dynamic,
}

impl vstd::view::View for View {
    type V = Space;

    open spec fn view(&self) -> Space {
        Space::View { start: self.start, end: self.end, dev: Box::new(dyn_view(self.dev)) }
    }
}

impl View {
    /// Constructs a new `View` over the inclusive range `[start, end]`.
    pub fn new(start: usize, end: usize, dev: Dynamic) -> (r: Self)
        requires
            start <= end,
        ensures
            r@ == (Space::View { start, end, dev: Box::new(dev@) }),
    {
        View { start, end, dev }
    }

    /// Reads from the inner device at the re-based address.
    ///
    /// A local index past the window is a contract violation.
    pub fn read(&self, index: usize) -> (r: u8)
        requires
            wf(self@),
            readable(self@, index),
        ensures
            r == value_at(self@, index),
        decreases self,
    {
        self.dev.read(self.start + index)
    }

    /// Attempts a read at the re-based address, failing past the window.
    pub fn try_read(&self, index: usize) -> (r: Option<u8>)
        requires
            wf(self@),
        ensures
            r is Some <==> t_readable(self@, index),
            r is Some ==> r->0 == value_at(self@, index),
        decreases self,
    {
        if index <= self.end && self.start <= self.end - index {
            match self.dev.try_read(self.start + index) {
                Ok(v) => Some(v),
                Err(_) => None,
            }
        } else {
            None
        }
    }

    /// Whether `index` lies within the window's own range.
    pub fn contains(&self, index: usize) -> (r: bool)
        ensures
            r == crate::dev::covers(self@, index),
    {
        self.start <= index && index <= self.end
    }

    /// Whether a fallible write at `index` would succeed.
    pub fn check_write(&self, index: usize) -> (r: bool)
        requires
            wf(self@),
        ensures
            r == t_writable(self@, index),
        decreases self,
    {
        if index <= self.end && self.start <= self.end - index {
            self.dev.check_write(self.start + index)
        } else {
            false
        }
    }

    /// Writes to the inner device at the re-based address.
    ///
    /// A local index past the window is a contract violation.
    pub fn write(&mut self, index: usize, value: u8)
        requires
            wf(old(self)@),
            writable(old(self)@, index),
        ensures
            final(self)@ == written(old(self)@, index, value),
        decreases *old(self),
    {
        self.dev.write(self.start + index, value)
    }

    /// Attempts a write at the re-based address, failing past the window. A
    /// failed attempt leaves the inner device unchanged.
    pub fn try_write(&mut self, index: usize, value: u8) -> (r: Option<()>)
        requires
            wf(old(self)@),
        ensures
            r is Some <==> t_writable(old(self)@, index),
            r is Some ==> final(self)@ == written(old(self)@, index, value),
            r is None ==> final(self)@ == old(self)@,
        decreases *old(self),
    {
        if index <= self.end && self.start <= self.end - index {
            match self.dev.try_write(self.start + index, value) {
                Ok(_) => Some(()),
                Err(_) => None,
            }
        } else {
            None
        }
    }

    /// Resets the inner device; the window is kept.
    pub fn reset(&mut self)
        ensures
            final(self)@ == crate::dev::reset_of(old(self)@),
        decreases *old(self),
    {
        self.dev.reset()
    }
}

/// View bounds: a window over `[start, end]` accepts exactly the local
/// indices below its length, each reaching the inner device at `start + i`;
/// a local index at or past the length fails, for reading and writing alike.
pub proof fn lemma_view_bounds(start: usize, end: usize, dev: Space, i: usize)
    requires
        start <= end,
    ensures
        i <= end - start ==> (t_readable(Space::View { start, end, dev: Box::new(dev) }, i)
            <==> t_readable(dev, (start + i) as usize)),
        i <= end - start ==> value_at(Space::View { start, end, dev: Box::new(dev) }, i)
            == value_at(dev, (start + i) as usize),
        i > end - start ==> !t_readable(Space::View { start, end, dev: Box::new(dev) }, i)
            && !t_writable(Space::View { start, end, dev: Box::new(dev) }, i),
{
}

impl crate::arch::Address<u8> for View {
    open spec fn can_read(&self, index: usize) -> bool {
        wf(self@) && readable(self@, index)
    }

    open spec fn value_at(&self, index: usize) -> u8 {
        value_at(self@, index)
    }

    open spec fn can_write(&self, index: usize) -> bool {
        wf(self@) && writable(self@, index)
    }

    open spec fn write_rel(&self, post: Self, index: usize, value: u8) -> bool {
        post@ == written(self@, index, value)
    }

    fn read(&self, index: usize) -> (r: u8) {
        View::read(self, index)
    }

    fn write(&mut self, index: usize, value: u8) {
        View::write(self, index, value)
    }
}

impl crate::blk::Block for View {
    open spec fn reset_rel(&self, post: Self) -> bool {
        post@ == crate::dev::reset_of(self@)
    }

    fn reset(&mut self) {
        View::reset(self)
    }
}

impl crate::dev::Device for View {
    open spec fn erased(&self) -> Space {
        self@
    }

    fn to_dynamic(self) -> (d: Dynamic) {
        Dynamic::View(Box::new(self))
    }
}

} // verus!
