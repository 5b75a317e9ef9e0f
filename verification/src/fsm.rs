//! Finite-state machines.

use vstd::prelude::*;

use crate::blk::Block;

verus! {

/// Finite-state machine.
///
/// Declared for users driving per-cycle execution; within this crate only
/// buffered devices implement it.
pub trait Machine: Block {
    /// Checks if the [`Machine`] is in a runnable state.
    fn enabled(&self) -> bool;

    /// Executes a single cycle on the [`Machine`], likely mutating its
    /// state.
    fn cycle(&mut self);
}

} // verus!
