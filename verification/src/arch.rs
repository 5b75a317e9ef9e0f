//! Core capability contracts for index and data words.

use vstd::prelude::*;

verus! {

/// Contract satisfied by every index/data word type.
///
/// A `Value` is a copyable word with a distinguished zero, the state every
/// storage cell holds after power-on.
pub trait Value: Copy + Sized {
    /// The word's power-on state.
    spec fn zero() -> Self;

    /// Constructs the power-on word.
    fn zeroed() -> (r: Self)
        ensures
            r == Self::zero(),
    ;
}

impl Value for u8 {
    open spec fn zero() -> u8 {
        0
    }

    fn zeroed() -> u8 {
        0
    }
}

impl Value for u16 {
    open spec fn zero() -> u16 {
        0
    }

    fn zeroed() -> u16 {
        0
    }
}

impl Value for u32 {
    open spec fn zero() -> u32 {
        0
    }

    fn zeroed() -> u32 {
        0
    }
}

impl Value for u64 {
    open spec fn zero() -> u64 {
        0
    }

    fn zeroed() -> u64 {
        0
    }
}

impl Value for u128 {
    open spec fn zero() -> u128 {
        0
    }

    fn zeroed() -> u128 {
        0
    }
}

impl Value for usize {
    open spec fn zero() -> usize {
        0
    }

    fn zeroed() -> usize {
        0
    }
}

impl Value for i8 {
    open spec fn zero() -> i8 {
        0
    }

    fn zeroed() -> i8 {
        0
    }
}

impl Value for i16 {
    open spec fn zero() -> i16 {
        0
    }

    fn zeroed() -> i16 {
        0
    }
}

impl Value for i32 {
    open spec fn zero() -> i32 {
        0
    }

    fn zeroed() -> i32 {
        0
    }
}

impl Value for i64 {
    open spec fn zero() -> i64 {
        0
    }

    fn zeroed() -> i64 {
        0
    }
}

impl Value for i128 {
    open spec fn zero() -> i128 {
        0
    }

    fn zeroed() -> i128 {
        0
    }
}

impl Value for isize {
    open spec fn zero() -> isize {
        0
    }

    fn zeroed() -> isize {
        0
    }
}

/// Addressable read-write contract.
///
/// `can_read`/`can_write` delimit the indices at which an infallible access is
/// legal; calling `read` or `write` outside them is a contract violation, so
/// both carry the corresponding precondition. `write_rel` relates the state
/// before a write to the state after it.
pub trait Address<V: Value>: Sized {
    /// Whether an infallible read at `index` is legal.
    spec fn can_read(&self, index: usize) -> bool;

    /// The word an in-bounds read at `index` yields.
    spec fn value_at(&self, index: usize) -> V;

    /// Whether an infallible write at `index` is legal.
    spec fn can_write(&self, index: usize) -> bool;

    /// How a write at `index` with `value` changes the device.
    spec fn write_rel(&self, post: Self, index: usize, value: V) -> bool;

    /// Reads from the specified address.
    fn read(&self, index: usize) -> (r: V)
        requires
            self.can_read(index),
        ensures
            r == self.value_at(index),
    ;

    /// Writes to the specified address.
    fn write(&mut self, index: usize, value: V)
        requires
            old(self).can_write(index),
        ensures
            old(self).write_rel(*final(self), index, value),
    ;
}

/// Register load-store contract.
pub trait Cell<V: Value>: Sized {
    /// The word the register currently holds.
    spec fn held(&self) -> V;

    /// Loads the register's value.
    fn load(&self) -> (r: V)
        ensures
            r == self.held(),
    ;

    /// Stores the value into the register.
    fn store(&mut self, value: V)
        ensures
            final(self).held() == value,
    ;
}

/// Processor load-store contract.
///
/// Implementers pick registers by name; this crate declares the interface for
/// processors built on top of it and implements it for none of its own types.
pub trait Location<V: Value> {
    /// Accessor for specifying registers.
    ///
    /// This should normally be implemented as an enum of register names.
    type Register;

    /// Loads from the specified register.
    fn load(&self, reg: Self::Register) -> V;

    /// Stores to the specified register.
    fn store(&mut self, reg: Self::Register, value: V);
}

} // verus!
