//! Read-only memory.

use vstd::prelude::*;
use vstd::pervasive::unreached;

use crate::arch::{Address, Value};
use crate::blk::Block;
use crate::dev::{Device, Dynamic, Space};

verus! {

/// Read-only memory model.
///
/// A `Rom<V, N>` holds `N` words of type `V`. Reads work as for
/// [`Ram`](super::Ram); every write is rejected, and the infallible write is
/// a contract violation. Its words persist across a reset.
pub struct Rom<V: Value, const N: usize> {
    pub data: Vec<V>,
}

impl<V: Value, const N: usize> View for Rom<V, N> {
    type V = Seq<V>;

    open spec fn view(&self) -> Seq<V> {
        self.data@
    }
}

impl<V: Value, const N: usize> Rom<V, N> {
    /// Constructs a new, zero-filled `Rom<N>`.
    pub fn new() -> (r: Self)
        ensures
            r@ == Seq::new(N as nat, |j: int| V::zero()),
    {
        let mut data: Vec<V> = Vec::new();
        let mut i: usize = 0;
        while i < N
            invariant
                i <= N,
                data@ =~= Seq::new(i as nat, |j: int| V::zero()),
            decreases N - i,
        {
            data.push(V::zeroed());
            i = i + 1;
        }
        proof {
            assert(data@ =~= Seq::new(N as nat, |j: int| V::zero()));
        }
        Rom { data }
    }

    /// Constructs a `Rom<N>` holding a copy of the given words.
    pub fn from(arr: &[V; N]) -> (r: Self)
        ensures
            r@ == arr@,
    {
        let mut data: Vec<V> = Vec::new();
        let mut i: usize = 0;
        while i < N
            invariant
                i <= N,
                data@ =~= arr@.take(i as int),
            decreases N - i,
        {
            data.push(arr[i]);
            proof {
                assert(data@ =~= arr@.take(i as int + 1));
            }
            i = i + 1;
        }
        proof {
            assert(data@ =~= arr@);
        }
        Rom { data }
    }

    /// The number of words the memory holds.
    pub fn len(&self) -> (r: usize)
        ensures
            r == self@.len(),
    {
        self.data.len()
    }

    /// Attempts a read, failing past the memory's length.
    pub fn try_read(&self, index: usize) -> (r: Result<V, Error>)
        ensures
            r is Ok <==> index < self@.len(),
            r is Ok ==> r->Ok_0 == self@[index as int],
            r is Err ==> r == Err::<V, Error>(Error::Bounds(index)),
    {
        if index < self.data.len() {
            Ok(self.data[index])
        } else {
            Err(Error::Bounds(index))
        }
    }

    /// Attempts a write; every attempt fails, in bounds or out.
    pub fn try_write(&mut self, index: usize, _value: V) -> (r: Result<(), Error>)
        ensures
            final(self)@ == old(self)@,
            r is Err,
            index < old(self)@.len() ==> r == Err::<(), Error>(Error::Write),
            index >= old(self)@.len() ==> r == Err::<(), Error>(Error::Bounds(index)),
    {
        if index < self.data.len() {
            Err(Error::Write)
        } else {
            Err(Error::Bounds(index))
        }
    }
}

impl<V: Value, const N: usize> Address<V> for Rom<V, N> {
    open spec fn can_read(&self, index: usize) -> bool {
        index < self@.len()
    }

    open spec fn value_at(&self, index: usize) -> V {
        self@[index as int]
    }

    open spec fn can_write(&self, index: usize) -> bool {
        false
    }

    open spec fn write_rel(&self, post: Self, index: usize, value: V) -> bool {
        post@ == self@
    }

    fn read(&self, index: usize) -> (r: V) {
        self.data[index]
    }

    fn write(&mut self, _index: usize, _value: V) {
        unreached()
    }
}

impl<V: Value, const N: usize> Block for Rom<V, N> {
    open spec fn reset_rel(&self, post: Self) -> bool {
        post@ == self@
    }

    fn reset(&mut self) {
    }
}

impl<const N: usize> Rom<u8, N> {
    /// Renders the memory's contents as a hex dump: eight two-byte words per
    /// row, zero rows written once under a dotted address and then left out
    /// until a row holds data again.
    pub fn dump(&self) -> (r: String)
        ensures
            r@ == super::dump_of(self@),
    {
        super::render(&self.data)
    }
}

impl<const N: usize> Device for Rom<u8, N> {
    open spec fn erased(&self) -> Space {
        Space::Rom(self@)
    }

    fn to_dynamic(self) -> (d: Dynamic) {
        Dynamic::Rom(self.data)
    }
}

/// A type specifying general categories of [`Rom`] error.
#[derive(Clone, Copy, Debug, PartialEq, Eq, Structural)]
pub enum Error {
    /// The index lies past the memory's length.
    Bounds(usize),
    /// The memory is read-only.
    Write,
}

} // verus!
