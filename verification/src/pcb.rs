//! Board wiring interfaces.

use vstd::prelude::*;

use crate::blk::Block;
use crate::bus::Bus;

verus! {

/// Printed circuit board.
///
/// Declared for users wiring a full system together; no type of this crate
/// implements it.
pub trait Board: Block {
    /// Connects this board's blocks onto the bus.
    ///
    /// This must be called at least once.
    fn connect(&self, bus: &mut Bus);

    /// Disconnects this board's blocks from the bus.
    fn disconnect(&self, bus: &mut Bus);
}

} // verus!
