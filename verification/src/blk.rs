//! Integrated circuit blocks.

use vstd::prelude::*;

use crate::share::Shared;

verus! {

/// Integrated circuit block.
///
/// A block can be reset to its power-on state. `reset_rel` relates the state
/// before a reset to the state after it; a block that deliberately keeps
/// persistent data across a reset says so there.
pub trait Block: Sized {
    /// How a reset changes the block.
    spec fn reset_rel(&self, post: Self) -> bool;

    /// Performs a reset on this [`Block`].
    ///
    /// Afterwards, the block behaves as if it has been re-initialized, except
    /// for persistent data an implementer deliberately leaves behind.
    fn reset(&mut self)
        ensures
            old(self).reset_rel(*final(self)),
    ;
}

/// Linked [`Block`] instance.
///
/// Declared for users wiring blocks together; no type of this crate
/// implements it.
pub trait Linked<T: Block>: Block {
    /// Gets an owning handle to the instance.
    fn mine(&self) -> Shared<T>;

    /// Links this block to the provided instance.
    fn link(&mut self, it: Shared<T>);
}

} // verus!
