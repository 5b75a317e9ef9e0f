//! Memory interface.
//!
//! The [`Bus`] struct allows the user to mount a device anywhere within the
//! address space. As it is itself a device, it may be mapped in a nested
//! fashion, producing hierarchical address spaces. Together with the
//! [adapters](self::adapt), `Bus` is the primary method of emulating
//! memory-mapped I/O.

use vstd::prelude::*;

use vstd::pervasive::unreached;

use self::map::{resolve, MapModel, Maps};
use crate::dev::{
    dyn_view, lemma_maps_view, lemma_maps_wf, map_view, maps_view, readable, t_readable,
    t_writable, value_at, wf, writable, written, Dynamic, Space,
};

pub mod adapt;
pub mod map;
pub mod mux;

pub use self::mux::Mux;

verus! {

/// The single recognized access failure: the probed address reaches no
/// mapping, or lies out of a device's bounds. It carries the offending index.
#[derive(Clone, Copy, Debug, PartialEq, Eq, Structural)]
pub enum Error {
    /// No device answers for the index.
    Unmapped(usize),
}

/// Address bus.
///
/// A `Bus` owns an interval index of mappings and dispatches every read and
/// write to the mapping that resolution picks, translated so that each device
/// sees its own zero-based addresses.
#[derive(Debug)]
pub struct Bus {
    pub maps: Maps,
}

impl View for Bus {
    type V = Seq<MapModel>;

    open spec fn view(&self) -> Seq<MapModel> {
        maps_view(self.maps.list@)
    }
}

impl Bus {
    /// Constructs a new, empty `Bus`.
    pub fn new() -> (r: Self)
        ensures
            r@ == Seq::<MapModel>::empty(),
    {
        Bus { maps: Maps::new() }
    }

    /// Clears the bus, removing all devices.
    pub fn clear(&mut self)
        ensures
            final(self)@ == Seq::<MapModel>::empty(),
    {
        self.maps.clear();
    }

    /// Maps a device over the `size` addresses starting at `base`.
    ///
    /// Mappings may overlap freely; same-base mappings are all retained, and
    /// resolution prefers the narrowest among them.
    pub fn map(&mut self, base: usize, size: usize, dev: Dynamic)
        requires
            base + size <= usize::MAX,
        ensures
            final(self)@ == map::insert_at(
                old(self)@,
                map::MapModel { base, size, entry: dev@ },
            ),
    {
        self.maps.map(base, size, dev);
    }

    /// Unmaps and returns the first device in the bus equal to `dev`.
    ///
    /// Returns `None`, changing nothing, if no matching device is mapped.
    pub fn unmap(&mut self, dev: &Dynamic) -> (r: Option<Dynamic>)
        ensures
            match map::find_entry(old(self)@, dev@) {
                Some(j) => r is Some && (r->0)@ == dev@ && final(self)@ == old(self)@.remove(j),
                None => r is None && final(self)@ == old(self)@,
            },
    {
        self.maps.unmap(dev)
    }

    /// Gets the device that resolution picks for `index`.
    ///
    /// Returns `None` if no mapping covers the index.
    pub fn get(&self, index: usize) -> (r: Option<&Dynamic>)
        ensures
            match resolve(self@, index) {
                Some(j) => r is Some && dyn_view(*r->0) == self@[j].entry,
                None => r is None,
            },
    {
        match self.maps.position(index) {
            Some(p) => {
                proof {
                    lemma_maps_view(self.maps.list@);
                }
                Some(&self.maps.list[p].entry)
            },
            None => None,
        }
    }

    /// The length of the bus: zero when empty, else the span from the lowest
    /// mapped base to the end of the highest mapped range.
    pub fn len(&self) -> (r: usize)
        requires
            map::ordered(self@),
            map::bounded(self@),
        ensures
            r == map::span(self@),
    {
        self.maps.span()
    }

    /// Whether some mapping covers `index`.
    pub fn contains(&self, index: usize) -> (r: bool)
        ensures
            r == crate::dev::covers(Space::Bus(self@), index),
    {
        match self.maps.position(index) {
            Some(_) => true,
            None => false,
        }
    }

    /// Reads from the specified address.
    ///
    /// Resolution picks the mapping that services the address; the device is
    /// then queried at the address translated to its own zero-based space.
    /// Reading an unmapped address is a contract violation.
    pub fn read(&self, index: usize) -> (r: u8)
        requires
            wf(Space::Bus(self@)),
            readable(Space::Bus(self@), index),
        ensures
            r == value_at(Space::Bus(self@), index),
        decreases self,
    {
        proof {
            lemma_maps_view(self.maps.list@);
            broadcast use vstd::std_specs::vec::axiom_vec_index_decreases;

        }
        match self.maps.position(index) {
            Some(p) => {
                proof {
                    map::lemma_resolve(self@, index);
                    lemma_maps_wf(self@);
                    assert(decreases_to!(*self => self.maps.list@[p as int]));
                }
                let m = &self.maps.list[p];
                m.entry.read(index - m.base)
            },
            None => unreached(),
        }
    }

    /// Attempts a read, reporting an unmapped address instead of treating it
    /// as a contract violation.
    pub fn try_read(&self, index: usize) -> (r: Result<u8, Error>)
        requires
            wf(Space::Bus(self@)),
        ensures
            r is Ok <==> t_readable(Space::Bus(self@), index),
            r is Ok ==> r->Ok_0 == value_at(Space::Bus(self@), index),
            r is Err ==> r == Err::<u8, Error>(Error::Unmapped(index)),
        decreases self,
    {
        proof {
            lemma_maps_view(self.maps.list@);
            broadcast use vstd::std_specs::vec::axiom_vec_index_decreases;

        }
        match self.maps.position(index) {
            Some(p) => {
                proof {
                    map::lemma_resolve(self@, index);
                    lemma_maps_wf(self@);
                    assert(decreases_to!(*self => self.maps.list@[p as int]));
                }
                let m = &self.maps.list[p];
                match m.entry.try_read(index - m.base) {
                    Ok(v) => Ok(v),
                    Err(_) => Err(Error::Unmapped(index)),
                }
            },
            None => Err(Error::Unmapped(index)),
        }
    }

    /// Whether a fallible write at `index` would succeed.
    pub fn check_write(&self, index: usize) -> (r: bool)
        requires
            wf(Space::Bus(self@)),
        ensures
            r == t_writable(Space::Bus(self@), index),
        decreases self,
    {
        proof {
            lemma_maps_view(self.maps.list@);
            broadcast use vstd::std_specs::vec::axiom_vec_index_decreases;

        }
        match self.maps.position(index) {
            Some(p) => {
                proof {
                    map::lemma_resolve(self@, index);
                    lemma_maps_wf(self@);
                    assert(decreases_to!(*self => self.maps.list@[p as int]));
                }
                let m = &self.maps.list[p];
                m.entry.check_write(index - m.base)
            },
            None => false,
        }
    }

    /// Writes to the specified address.
    ///
    /// Resolution picks the mapping that services the address; the device is
    /// then written at the address translated to its own zero-based space.
    /// Writing an unmapped address is a contract violation.
    pub fn write(&mut self, index: usize, value: u8)
        requires
            wf(Space::Bus(old(self)@)),
            writable(Space::Bus(old(self)@), index),
        ensures
            Space::Bus(final(self)@) == written(Space::Bus(old(self)@), index, value),
        decreases *old(self),
    {
        proof {
            lemma_maps_view(self.maps.list@);
            broadcast use vstd::std_specs::vec::axiom_vec_index_decreases;

        }
        match self.maps.position(index) {
            Some(p) => {
                proof {
                    map::lemma_resolve(self@, index);
                    lemma_maps_wf(self@);
                    assert(decreases_to!(*old(self) => old(self).maps.list@[p as int]));
                }
                let ghost pre = self@;
                let m = &mut self.maps.list[p];
                let base = m.base;
                m.entry.write(index - base, value);
                proof {
                    lemma_maps_view(self.maps.list@);
                    assert(self@ =~= pre.update(
                        p as int,
                        MapModel {
                            base: pre[p as int].base,
                            size: pre[p as int].size,
                            entry: written(pre[p as int].entry, (index - pre[p as int].base) as usize, value),
                        },
                    ));
                }
            },
            None => unreached(),
        }
    }

    /// Attempts a write, reporting an unmapped address instead of treating
    /// it as a contract violation. A failed attempt leaves every device
    /// unchanged.
    pub fn try_write(&mut self, index: usize, value: u8) -> (r: Result<(), Error>)
        requires
            wf(Space::Bus(old(self)@)),
        ensures
            r is Ok <==> t_writable(Space::Bus(old(self)@), index),
            r is Ok ==> Space::Bus(final(self)@) == written(Space::Bus(old(self)@), index, value),
            r is Err ==> final(self)@ == old(self)@ && r == Err::<(), Error>(
                Error::Unmapped(index),
            ),
        decreases *old(self),
    {
        proof {
            lemma_maps_view(self.maps.list@);
            broadcast use vstd::std_specs::vec::axiom_vec_index_decreases;

        }
        match self.maps.position(index) {
            Some(p) => {
                proof {
                    map::lemma_resolve(self@, index);
                    lemma_maps_wf(self@);
                    assert(decreases_to!(*old(self) => old(self).maps.list@[p as int]));
                }
                let ghost pre = self@;
                let m = &mut self.maps.list[p];
                let base = m.base;
                match m.entry.try_write(index - base, value) {
                    Ok(_) => {
                        proof {
                            lemma_maps_view(self.maps.list@);
                            assert(self@ =~= pre.update(
                                p as int,
                                MapModel {
                                    base: pre[p as int].base,
                                    size: pre[p as int].size,
                                    entry: written(
                                        pre[p as int].entry,
                                        (index - pre[p as int].base) as usize,
                                        value,
                                    ),
                                },
                            ));
                        }
                        Ok(())
                    },
                    Err(_) => {
                        proof {
                            lemma_maps_view(self.maps.list@);
                            assert(self@ =~= pre);
                        }
                        Err(Error::Unmapped(index))
                    },
                }
            },
            None => Err(Error::Unmapped(index)),
        }
    }

    /// Resets every currently mapped device; the mapping table itself is
    /// unchanged in shape: every range keeps its place.
    #[verifier::loop_isolation(false)]
    pub fn reset(&mut self)
        ensures
            final(self)@ == crate::dev::maps_reset(old(self)@),
        decreases *old(self),
    {
        proof {
            lemma_maps_view(old(self).maps.list@);
            crate::dev::lemma_maps_reset(old(self)@);
            broadcast use vstd::std_specs::vec::axiom_vec_index_decreases;

        }
        let n = self.maps.list.len();
        let mut p: usize = 0;
        while p < n
            invariant
                p <= n,
                self.maps.list@.len() == n,
                forall|k: int| p <= k < n ==> self.maps.list@[k] == old(self).maps.list@[k],
                forall|k: int|
                    0 <= k < p ==> map_view(#[trigger] self.maps.list@[k]) == (MapModel {
                        base: old(self)@[k].base,
                        size: old(self)@[k].size,
                        entry: crate::dev::reset_of(old(self)@[k].entry),
                    }),
            decreases n - p,
        {
            proof {
                assert(decreases_to!(*old(self) => old(self).maps.list@[p as int]));
            }
            let m = &mut self.maps.list[p];
            m.entry.reset();
            p = p + 1;
        }
        proof {
            lemma_maps_view(self.maps.list@);
            assert(self@ =~= crate::dev::maps_reset(old(self)@));
        }
    }
}

/// Translation correctness: a bus read at an address is the resolved
/// device's read at the address translated to that device's zero-based
/// space; symmetrically, a bus write rewrites exactly the resolved device,
/// at the translated address.
pub proof fn lemma_translation(ms: Seq<MapModel>, i: usize, j: int, v: u8)
    requires
        resolve(ms, i) == Some(j),
    ensures
        0 <= j < ms.len(),
        value_at(Space::Bus(ms), i) == value_at(ms[j].entry, ((i - ms[j].base) as usize)),
        written(Space::Bus(ms), i, v) == Space::Bus(
            ms.update(
                j,
                MapModel {
                    base: ms[j].base,
                    size: ms[j].size,
                    entry: written(ms[j].entry, ((i - ms[j].base) as usize), v),
                },
            ),
        ),
{
    map::lemma_resolve(ms, i);
}

/// Reset propagation: a bus reset resets every currently mapped device and
/// nothing else; the mapping table keeps its length, and every mapping its
/// range and place, while its device becomes the reset of the old one.
pub proof fn lemma_reset_propagation(ms: Seq<MapModel>, k: int)
    requires
        0 <= k < ms.len(),
    ensures
        crate::dev::maps_reset(ms).len() == ms.len(),
        crate::dev::maps_reset(ms)[k].base == ms[k].base,
        crate::dev::maps_reset(ms)[k].size == ms[k].size,
        crate::dev::maps_reset(ms)[k].entry == crate::dev::reset_of(ms[k].entry),
{
    crate::dev::lemma_maps_reset(ms);
}

impl crate::arch::Address<u8> for Bus {
    open spec fn can_read(&self, index: usize) -> bool {
        wf(Space::Bus(self@)) && readable(Space::Bus(self@), index)
    }

    open spec fn value_at(&self, index: usize) -> u8 {
        value_at(Space::Bus(self@), index)
    }

    open spec fn can_write(&self, index: usize) -> bool {
        wf(Space::Bus(self@)) && writable(Space::Bus(self@), index)
    }

    open spec fn write_rel(&self, post: Self, index: usize, value: u8) -> bool {
        Space::Bus(post@) == written(Space::Bus(self@), index, value)
    }

    fn read(&self, index: usize) -> (r: u8) {
        Bus::read(self, index)
    }

    fn write(&mut self, index: usize, value: u8) {
        Bus::write(self, index, value)
    }
}

impl crate::blk::Block for Bus {
    open spec fn reset_rel(&self, post: Self) -> bool {
        Space::Bus(post@) == crate::dev::reset_of(Space::Bus(self@))
    }

    fn reset(&mut self) {
        Bus::reset(self)
    }
}

impl crate::dev::Device for Bus {
    open spec fn erased(&self) -> Space {
        Space::Bus(self@)
    }

    fn to_dynamic(self) -> (d: Dynamic) {
        Dynamic::Bus(Box::new(self))
    }
}

impl Mux for Bus {
    fn get(&self, index: usize) -> Option<&Dynamic> {
        Bus::get(self, index)
    }

    fn map(&mut self, base: usize, size: usize, dev: Dynamic) {
        Bus::map(self, base, size, dev)
    }

    fn unmap(&mut self, dev: &Dynamic) -> Option<Dynamic> {
        Bus::unmap(self, dev)
    }
}

} // verus!
