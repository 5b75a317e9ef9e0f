//! Fixed-offset address translation.

use vstd::prelude::*;

use crate::dev::{
    dyn_view, readable, t_readable, t_writable, value_at, wf, writable, written, Dynamic, Space,
};

verus! {

/// The inner address that an access at `index` reaches: `index - off`.
fn shift(index: usize, off: isize) -> (r: usize)
    requires
        0 <= index as int - off as int <= usize::MAX,
    ensures
        r as int == index as int - off as int,
{
    if off >= 0 {
        index - (off as usize)
    } else {
        index + (((-(off + 1)) as usize) + 1)
    }
}

/// Address remap.
///
/// The `Remap` adapter shifts the wrapped device's effective address space by
/// the provided offset: an access at `index` reaches the device at
/// `index - offset`. The offset is signed and may be negative, so an already
/// built device (including a whole sub-bus) can be relocated either way
/// without altering its internals.
#[derive(Debug)]
pub struct Remap {
    pub off: isize,
    pub dev: Dynamic,
}

impl View for Remap {
    type V = Space;

    open spec fn view(&self) -> Space {
        Space::Remap { off: self.off, dev: Box::new(dyn_view(self.dev)) }
    }
}

impl Remap {
    /// Constructs a new `Remap`.
    pub fn new(off: isize, dev: Dynamic) -> (r: Self)
        ensures
            r@ == (Space::Remap { off, dev: Box::new(dev@) }),
    {
        Remap { off, dev }
    }

    /// Reads from the inner device at the translated address.
    ///
    /// A translated address outside the address space is a contract
    /// violation.
    pub fn read(&self, index: usize) -> (r: u8)
        requires
            wf(self@),
            readable(self@, index),
        ensures
            r == value_at(self@, index),
        decreases self,
    {
        let inner = shift(index, self.off);
        self.dev.read(inner)
    }

    /// Attempts a read at the translated address.
    pub fn try_read(&self, index: usize) -> (r: Result<u8, crate::bus::Error>)
        requires
            wf(self@),
        ensures
            r is Ok <==> t_readable(self@, index),
            r is Ok ==> r->Ok_0 == value_at(self@, index),
            r is Err ==> r == Err::<u8, crate::bus::Error>(crate::bus::Error::Unmapped(index)),
        decreases self,
    {
        if self.off >= 0 {
            let ou = self.off as usize;
            if index >= ou {
                match self.dev.try_read(index - ou) {
                    Ok(v) => Ok(v),
                    Err(_) => Err(crate::bus::Error::Unmapped(index)),
                }
            } else {
                Err(crate::bus::Error::Unmapped(index))
            }
        } else {
            let ou = ((-(self.off + 1)) as usize) + 1;
            if index <= usize::MAX - ou {
                match self.dev.try_read(index + ou) {
                    Ok(v) => Ok(v),
                    Err(_) => Err(crate::bus::Error::Unmapped(index)),
                }
            } else {
                Err(crate::bus::Error::Unmapped(index))
            }
        }
    }

    /// Whether the inner device reports `index` as within bounds; the
    /// report, unlike an access, is not translated.
    pub fn contains(&self, index: usize) -> (r: bool)
        requires
            wf(self@),
        ensures
            r == crate::dev::covers(self@, index),
        decreases self,
    {
        self.dev.contains(index)
    }

    /// Whether a fallible write at `index` would succeed.
    pub fn check_write(&self, index: usize) -> (r: bool)
        requires
            wf(self@),
        ensures
            r == t_writable(self@, index),
        decreases self,
    {
        if self.off >= 0 {
            let ou = self.off as usize;
            if index >= ou {
                self.dev.check_write(index - ou)
            } else {
                false
            }
        } else {
            let ou = ((-(self.off + 1)) as usize) + 1;
            if index <= usize::MAX - ou {
                self.dev.check_write(index + ou)
            } else {
                false
            }
        }
    }

    /// Writes to the inner device at the translated address.
    ///
    /// A translated address outside the address space is a contract
    /// violation.
    pub fn write(&mut self, index: usize, value: u8)
        requires
            wf(old(self)@),
            writable(old(self)@, index),
        ensures
            final(self)@ == written(old(self)@, index, value),
        decreases *old(self),
    {
        let inner = shift(index, self.off);
        self.dev.write(inner, value)
    }

    /// Attempts a write at the translated address. A failed attempt leaves
    /// the inner device unchanged.
    pub fn try_write(&mut self, index: usize, value: u8) -> (r: Result<(), crate::bus::Error>)
        requires
            wf(old(self)@),
        ensures
            r is Ok <==> t_writable(old(self)@, index),
            r is Ok ==> final(self)@ == written(old(self)@, index, value),
            r is Err ==> final(self)@ == old(self)@ && r == Err::<(), crate::bus::Error>(
                crate::bus::Error::Unmapped(index),
            ),
        decreases *old(self),
    {
        if self.off >= 0 {
            let ou = self.off as usize;
            if index >= ou {
                match self.dev.try_write(index - ou, value) {
                    Ok(_) => Ok(()),
                    Err(_) => Err(crate::bus::Error::Unmapped(index)),
                }
            } else {
                Err(crate::bus::Error::Unmapped(index))
            }
        } else {
            let ou = ((-(self.off + 1)) as usize) + 1;
            if index <= usize::MAX - ou {
                match self.dev.try_write(index + ou, value) {
                    Ok(_) => Ok(()),
                    Err(_) => Err(crate::bus::Error::Unmapped(index)),
                }
            } else {
                Err(crate::bus::Error::Unmapped(index))
            }
        }
    }

    /// Resets the inner device; the offset is kept.
    pub fn reset(&mut self)
        ensures
            final(self)@ == crate::dev::reset_of(old(self)@),
        decreases *old(self),
    {
        self.dev.reset()
    }
}

impl crate::arch::Address<u8> for Remap {
    open spec fn can_read(&self, index: usize) -> bool {
        wf(self@) && readable(self@, index)
    }

    open spec fn value_at(&self, index: usize) -> u8 {
        value_at(self@, index)
    }

    open spec fn can_write(&self, index: usize) -> bool {
        wf(self@) && writable(self@, index)
    }

    open spec fn write_rel(&self, post: Self, index: usize, value: u8) -> bool {
        post@ == written(self@, index, value)
    }

    fn read(&self, index: usize) -> (r: u8) {
        Remap::read(self, index)
    }

    fn write(&mut self, index: usize, value: u8) {
        Remap::write(self, index, value)
    }
}

impl crate::blk::Block for Remap {
    open spec fn reset_rel(&self, post: Self) -> bool {
        post@ == crate::dev::reset_of(self@)
    }

    fn reset(&mut self) {
        Remap::reset(self)
    }
}

impl crate::dev::Device for Remap {
    open spec fn erased(&self) -> Space {
        self@
    }

    fn to_dynamic(self) -> (d: Dynamic) {
        Dynamic::Remap(Box::new(self))
    }
}

} // verus!
