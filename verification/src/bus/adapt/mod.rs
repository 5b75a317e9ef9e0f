//! Device adapters.
//!
//! All device adapters wrap another device. Through nesting adapters, fairly
//! complex memory-mapped layouts can be composed from simple pieces. Adapters
//! are themselves devices, so they use the same interface as the devices they
//! modify.

pub mod bank;
pub mod mask;
pub mod remap;
pub mod view;

pub use self::bank::Bank;
pub use self::mask::{Layer, Mask};
pub use self::remap::Remap;
pub use self::view::View;
