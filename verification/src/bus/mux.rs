//! Address multiplexing interface.

use vstd::prelude::*;

use crate::dev::Dynamic;

verus! {

/// Address multiplexer.
///
/// Presents the primary interface of an address bus: mounting devices over
/// ranges, taking them down again, and looking up which device answers for an
/// index. Contracts live on the implementing type's own methods, which the
/// trait methods mirror.
pub trait Mux: Sized {
    /// Gets the device resolved for the index.
    fn get(&self, index: usize) -> Option<&Dynamic>;

    /// Maps a device to the `size` addresses starting at `base`.
    fn map(&mut self, base: usize, size: usize, dev: Dynamic)
        requires
            base + size <= usize::MAX,
    ;

    /// Unmaps and returns the first device equal to `dev`.
    ///
    /// Returns `None` if no matching device is mapped.
    fn unmap(&mut self, dev: &Dynamic) -> Option<Dynamic>;
}

} // verus!
