//! Building blocks for composing the address space of a hardware emulator.
//!
//! Devices implementing the addressable contract are mounted onto a
//! [`Bus`](bus::Bus), which resolves every access to the correct device with
//! correct address translation, even when mappings overlap. Adapters let
//! complex memory maps be built by nesting simple pieces.

pub mod arch;
pub mod blk;
pub mod bus;
pub mod dev;
pub mod fsm;
pub mod mem;
pub mod pcb;
pub mod reg;
pub mod share;
pub mod wired;

pub use crate::arch::{Address, Cell, Location, Value};
pub use crate::blk::{Block, Linked};
pub use crate::fsm::Machine;
pub use crate::pcb::Board;
pub use crate::share::Shared;
pub use crate::wired::{Wire, Wired};
