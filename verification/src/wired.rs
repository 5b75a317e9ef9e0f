//! Registered device I/O.

use vstd::prelude::*;

use crate::arch::{Address, Value};
use crate::blk::Block;
use crate::fsm::Machine;

verus! {

/// Tri-state buffered wire.
///
/// A wire either floats, or holds the word a device asserted on it.
pub enum Wire<V: Value> {
    /// High impedance wire state.
    ///
    /// No value currently asserted.
    Impedant,
    /// Active wire state.
    ///
    /// Holds the value being asserted.
    Active(V),
}

impl<V: Value> View for Wire<V> {
    type V = Option<V>;

    open spec fn view(&self) -> Option<V> {
        match *self {
            Wire::Impedant => None,
            Wire::Active(v) => Some(v),
        }
    }
}

impl<V: Value> Wire<V> {
    /// Acquires the wire until it is released.
    ///
    /// This models a wire being driven by a device.
    pub fn acquire(&mut self, value: V)
        ensures
            final(self)@ == Some(value),
    {
        *self = Wire::Active(value);
    }

    /// Releases the wire.
    ///
    /// This models a wire that no device currently drives.
    pub fn release(&mut self)
        ensures
            final(self)@ == None::<V>,
    {
        *self = Wire::Impedant;
    }

    /// Gets the value, if any, asserted on the wire.
    pub fn get(&self) -> (r: Option<V>)
        ensures
            r == self@,
    {
        match self {
            Wire::Impedant => None,
            Wire::Active(value) => Some(*value),
        }
    }
}

/// Buffered device.
///
/// Uses [`Wire`]s to model registered I/O: an access latches its address and
/// word on the wires, and while a wire is held, later accesses keep seeing
/// the latched word until a cycle releases it.
pub struct Wired<T> {
    /// The device behind the wires.
    pub inner: T,
    /// The latched address, if a request is in flight.
    pub index: Wire<usize>,
    /// The latched word, if a request is in flight.
    pub value: Wire<u8>,
}

impl<T: Address<u8>> Wired<T> {
    /// Constructs a new `Wired` around a device, wires released.
    pub fn new(inner: T) -> (r: Self)
        ensures
            r.inner == inner,
            r.index@ == None::<usize>,
            r.value@ == None::<u8>,
    {
        Wired { inner, index: Wire::Impedant, value: Wire::Impedant }
    }

    /// The address an access at `index` effectively reaches: the latched
    /// one, if a request is in flight.
    pub open spec fn effective(&self, index: usize) -> usize {
        match self.index@ {
            Some(held) => held,
            None => index,
        }
    }

    /// Reads through the wires: a latched word answers directly, otherwise
    /// the device is read at the effective address; either way the request
    /// is latched until the next cycle.
    pub fn read(&mut self, index: usize) -> (r: u8)
        requires
            old(self).value@ is None ==> old(self).inner.can_read(old(self).effective(index)),
        ensures
            final(self).inner == old(self).inner,
            r == match old(self).value@ {
                Some(held) => held,
                None => old(self).inner.value_at(old(self).effective(index)),
            },
            final(self).index@ == Some(old(self).effective(index)),
            final(self).value@ == Some(r),
    {
        let idx = match self.index.get() {
            Some(held) => held,
            None => index,
        };
        let value = match self.value.get() {
            Some(held) => held,
            None => self.inner.read(idx),
        };
        self.index.acquire(idx);
        self.value.acquire(value);
        value
    }

    /// Writes through the wires: the device is written at the effective
    /// address with the latched word, if any, else the given one.
    pub fn write(&mut self, index: usize, value: u8)
        requires
            old(self).inner.can_write(old(self).effective(index)),
        ensures
            ({
                let word = match old(self).value@ {
                    Some(held) => held,
                    None => value,
                };
                old(self).inner.write_rel(
                    final(self).inner,
                    old(self).effective(index),
                    word,
                )
            }),
            final(self).index@ == old(self).index@,
            final(self).value@ == old(self).value@,
    {
        let idx = match self.index.get() {
            Some(held) => held,
            None => index,
        };
        let word = match self.value.get() {
            Some(held) => held,
            None => value,
        };
        self.inner.write(idx, word);
    }
}

impl Wired<crate::dev::Dynamic> {
    /// Attempts a read through the wires: a latched word answers directly,
    /// otherwise the device is probed at the effective address. Only a
    /// successful request is latched; a failed one leaves everything as it
    /// was.
    pub fn try_read(&mut self, index: usize) -> (r: Result<u8, crate::bus::Error>)
        requires
            crate::dev::wf(old(self).inner@),
        ensures
            final(self).inner == old(self).inner,
            match old(self).value@ {
                Some(held) => r == Ok::<u8, crate::bus::Error>(held),
                None => (r is Ok <==> crate::dev::t_readable(
                    old(self).inner@,
                    old(self).effective(index),
                )) && (r is Ok ==> r->Ok_0 == crate::dev::value_at(
                    old(self).inner@,
                    old(self).effective(index),
                )),
            },
            r is Ok ==> final(self).index@ == Some(old(self).effective(index))
                && final(self).value@ == Some(r->Ok_0),
            r is Err ==> *final(self) == *old(self),
    {
        let idx = match self.index.get() {
            Some(held) => held,
            None => index,
        };
        let value = match self.value.get() {
            Some(held) => held,
            None => match self.inner.try_read(idx) {
                Ok(v) => v,
                Err(e) => {
                    return Err(e);
                },
            },
        };
        self.index.acquire(idx);
        self.value.acquire(value);
        Ok(value)
    }

    /// Attempts a write through the wires: the device is probed at the
    /// effective address with the latched word, if any, else the given one.
    /// A failed attempt leaves the device unchanged.
    pub fn try_write(&mut self, index: usize, value: u8) -> (r: Result<(), crate::bus::Error>)
        requires
            crate::dev::wf(old(self).inner@),
        ensures
            ({
                let idx = old(self).effective(index);
                let word = match old(self).value@ {
                    Some(held) => held,
                    None => value,
                };
                (r is Ok <==> crate::dev::t_writable(old(self).inner@, idx)) && (r is Ok
                    ==> final(self).inner@ == crate::dev::written(old(self).inner@, idx, word)) && (
                r is Err ==> final(self).inner@ == old(self).inner@)
            }),
            final(self).index@ == old(self).index@,
            final(self).value@ == old(self).value@,
    {
        let idx = match self.index.get() {
            Some(held) => held,
            None => index,
        };
        let word = match self.value.get() {
            Some(held) => held,
            None => value,
        };
        self.inner.try_write(idx, word)
    }
}

impl<T: Address<u8> + Machine> Machine for Wired<T> {
    fn enabled(&self) -> bool {
        self.inner.enabled()
    }

    fn cycle(&mut self) {
        self.index.release();
        self.value.release();
        self.inner.cycle();
    }
}

impl<T: Address<u8> + Block> Block for Wired<T> {
    open spec fn reset_rel(&self, post: Self) -> bool {
        self.inner.reset_rel(post.inner) && post.index@ == None::<usize> && post.value@
            == None::<u8>
    }

    fn reset(&mut self) {
        self.index.release();
        self.value.release();
        self.inner.reset();
    }
}

} // verus!
