//! Random-access memory.

use vstd::prelude::*;

use crate::arch::{Address, Value};
use crate::blk::Block;
use crate::dev::{Device, Dynamic, Space};

verus! {

/// Random-access memory model.
///
/// A `Ram<V, N>` holds `N` words of type `V`, every one of them readable and
/// writable; a reset returns every word to zero.
pub struct Ram<V: Value, const N: usize> {
    pub data: Vec<V>,
}

impl<V: Value, const N: usize> View for Ram<V, N> {
    type V = Seq<V>;

    open spec fn view(&self) -> Seq<V> {
        self.data@
    }
}

impl<V: Value, const N: usize> Ram<V, N> {
    /// Constructs a new, zero-filled `Ram<N>`.
    pub fn new() -> (r: Self)
        ensures
            r@ == Seq::new(N as nat, |j: int| V::zero()),
    {
        let mut data: Vec<V> = Vec::new();
        let mut i: usize = 0;
        while i < N
            invariant
                i <= N,
                data@ =~= Seq::new(i as nat, |j: int| V::zero()),
            decreases N - i,
        {
            data.push(V::zeroed());
            i = i + 1;
        }
        proof {
            assert(data@ =~= Seq::new(N as nat, |j: int| V::zero()));
        }
        Ram { data }
    }

    /// Constructs a `Ram<N>` holding a copy of the given words.
    pub fn from(arr: &[V; N]) -> (r: Self)
        ensures
            r@ == arr@,
    {
        let mut data: Vec<V> = Vec::new();
        let mut i: usize = 0;
        while i < N
            invariant
                i <= N,
                data@ =~= arr@.take(i as int),
            decreases N - i,
        {
            data.push(arr[i]);
            proof {
                assert(data@ =~= arr@.take(i as int + 1));
            }
            i = i + 1;
        }
        proof {
            assert(data@ =~= arr@);
        }
        Ram { data }
    }

    /// The number of words the memory holds.
    pub fn len(&self) -> (r: usize)
        ensures
            r == self@.len(),
    {
        self.data.len()
    }

    /// Attempts a read, failing past the memory's length.
    pub fn try_read(&self, index: usize) -> (r: Result<V, Error>)
        ensures
            r is Ok <==> index < self@.len(),
            r is Ok ==> r->Ok_0 == self@[index as int],
            r is Err ==> r == Err::<V, Error>(Error::Bounds(index)),
    {
        if index < self.data.len() {
            Ok(self.data[index])
        } else {
            Err(Error::Bounds(index))
        }
    }

    /// Attempts a write, failing past the memory's length.
    pub fn try_write(&mut self, index: usize, value: V) -> (r: Result<(), Error>)
        ensures
            r is Ok <==> index < old(self)@.len(),
            r is Ok ==> final(self)@ == old(self)@.update(index as int, value),
            r is Err ==> final(self)@ == old(self)@ && r == Err::<(), Error>(
                Error::Bounds(index),
            ),
    {
        if index < self.data.len() {
            self.data[index] = value;
            Ok(())
        } else {
            Err(Error::Bounds(index))
        }
    }
}

impl<V: Value, const N: usize> Address<V> for Ram<V, N> {
    open spec fn can_read(&self, index: usize) -> bool {
        index < self@.len()
    }

    open spec fn value_at(&self, index: usize) -> V {
        self@[index as int]
    }

    open spec fn can_write(&self, index: usize) -> bool {
        index < self@.len()
    }

    open spec fn write_rel(&self, post: Self, index: usize, value: V) -> bool {
        post@ == self@.update(index as int, value)
    }

    fn read(&self, index: usize) -> (r: V) {
        self.data[index]
    }

    fn write(&mut self, index: usize, value: V) {
        self.data[index] = value;
    }
}

impl<V: Value, const N: usize> Block for Ram<V, N> {
    open spec fn reset_rel(&self, post: Self) -> bool {
        post@ == Seq::new(self@.len(), |j: int| V::zero())
    }

    #[verifier::loop_isolation(false)]
    fn reset(&mut self) {
        let n = self.data.len();
        let mut i: usize = 0;
        while i < n
            invariant
                i <= n,
                self.data@.len() == n,
                forall|k: int| 0 <= k < i ==> self.data@[k] == V::zero(),
            decreases n - i,
        {
            self.data[i] = V::zeroed();
            i = i + 1;
        }
        proof {
            assert(self.data@ =~= Seq::new(old(self)@.len(), |j: int| V::zero()));
        }
    }
}

impl<const N: usize> Ram<u8, N> {
    /// Renders the memory's contents as a hex dump: eight two-byte words per
    /// row, zero rows written once under a dotted address and then left out
    /// until a row holds data again.
    pub fn dump(&self) -> (r: String)
        ensures
            r@ == super::dump_of(self@),
    {
        super::render(&self.data)
    }
}

impl<const N: usize> Device for Ram<u8, N> {
    open spec fn erased(&self) -> Space {
        Space::Ram(self@)
    }

    fn to_dynamic(self) -> (d: Dynamic) {
        Dynamic::Ram(self.data)
    }
}

/// A type specifying general categories of [`Ram`] error.
#[derive(Clone, Copy, Debug, PartialEq, Eq, Structural)]
pub enum Error {
    /// The index lies past the memory's length.
    Bounds(usize),
}

} // verus!
