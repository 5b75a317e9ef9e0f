//! Random device.

use vstd::prelude::*;

verus! {

/// Random device.
///
/// The `Random` device ignores all writes, and yields "garbage" values when
/// read. This can be useful to allow memory accesses to an unmapped region
/// of memory without causing a contract violation. Nothing is promised of
/// the value a read yields. Its fallible accesses honour the length `N`,
/// with zero standing for an unbounded device.
pub struct Random<const N: usize> {}

/// Relies on rand::random: draws one word from the thread-local generator.
/// Nothing holds of the result beyond its type.
#[verifier::external_body]
fn random_word() -> u8 {
    rand::random()
}

impl<const N: usize> Random<N> {
    /// Constructs a new `Random`.
    pub fn new() -> Self {
        Random {}
    }

    /// Reads a fresh word; any value may come back.
    pub fn read(&self, _index: usize) -> u8 {
        random_word()
    }

    /// Ignores the write.
    pub fn write(&mut self, _index: usize, _value: u8)
        ensures
            *final(self) == *old(self),
    {
    }

    /// Attempts a read, failing past the device's length.
    pub fn try_read(&self, index: usize) -> (r: Result<u8, Error>)
        ensures
            r is Ok <==> (N == 0 || index < N),
            r is Err ==> r == Err::<u8, Error>(Error::Bounds(index)),
    {
        if N == 0 || index < N {
            Ok(random_word())
        } else {
            Err(Error::Bounds(index))
        }
    }

    /// Attempts a write, failing past the device's length.
    pub fn try_write(&mut self, index: usize, _value: u8) -> (r: Result<(), Error>)
        ensures
            *final(self) == *old(self),
            r is Ok <==> (N == 0 || index < N),
            r is Err ==> r == Err::<(), Error>(Error::Bounds(index)),
    {
        if N == 0 || index < N {
            Ok(())
        } else {
            Err(Error::Bounds(index))
        }
    }
}

/// A type specifying general categories of [`Random`] error.
#[derive(Clone, Copy, Debug, PartialEq, Eq, Structural)]
pub enum Error {
    /// The index lies past the device's length.
    Bounds(usize),
}

} // verus!
