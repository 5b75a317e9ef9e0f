//! Generic memory-mapped devices and their mathematical model.
//!
//! Every mappable component of this crate erases to a [`Dynamic`] device, a
//! tree of leaves (words of storage) and composite nodes (buses and
//! adapters). Its behaviour is captured by the [`Space`] model: what each
//! address reads as, which accesses succeed, and how writes and resets
//! transform the tree. All contracts of the crate are stated over this model.

use vstd::prelude::*;

use crate::arch::Address;
use crate::blk::Block;
use crate::bus::adapt::mask::{read_hit, write_hit, Layer, LayerModel};
use crate::bus::adapt::view::View as Window;
use crate::bus::adapt::{Bank, Mask, Remap};
use crate::bus::map::{bounded, contains_at, ordered, resolve, MapModel, Mapping};
use crate::bus::Bus;

pub mod null;
pub mod random;

pub use self::null::Null;
pub use self::random::Random;

verus! {

/// Memory-mapped device.
///
/// The contract every mappable component satisfies: it is addressable, it
/// can be reset, and it erases into a [`Dynamic`] whose model is the
/// device's own.
pub trait Device: Address<u8> + Block {
    /// The model this device erases to.
    spec fn erased(&self) -> Space;

    /// Constructs a type-erased [`Dynamic`] device from `self`.
    fn to_dynamic(self) -> (d: Dynamic)
        ensures
            dyn_view(d) == self.erased(),
    ;
}

/// Model of a device's address-space behaviour.
///
/// Leaves carry the words they hold; composite nodes carry the models of
/// their children together with the data that routes accesses among them.
pub enum Space {
    /// Read-write words.
    Ram(Seq<u8>),
    /// Read-only words.
    Rom(Seq<u8>),
    /// Sink that ignores writes and always reads as `value`.
    Null { value: u8, size: usize },
    /// One word, readable and writable at every index.
    Register(u8),
    /// Interval index of mappings, in storage order.
    Bus(Seq<MapModel>),
    /// Switchable candidate set; only `banks[sel]` answers.
    Bank { sel: usize, banks: Seq<Space> },
    /// Offset translation: an access at `i` reaches `dev` at `i - off`.
    Remap { off: isize, dev: Box<Space> },
    /// Window `[start, end]` of `dev`, re-based to zero.
    View { start: usize, end: usize, dev: Box<Space> },
    /// Ordered overlay stack, queried front to back.
    Mask(Seq<LayerModel>),
}

/// Type-erased device.
///
/// A `Dynamic` permits heterogeneous devices in one collection: every
/// mappable component converts into it, and a `Dynamic` is itself a device.
#[derive(Debug)]
pub enum Dynamic {
    /// Read-write memory (see [`crate::mem::Ram`]).
    Ram(Vec<u8>),
    /// Read-only memory (see [`crate::mem::Rom`]).
    Rom(Vec<u8>),
    /// Null device holding its read-back value and length (see [`Null`]).
    Null(u8, usize),
    /// Single register cell (see [`crate::reg::Register`]).
    Register(u8),
    /// Nested address bus.
    Bus(Box<Bus>),
    /// Switchable device bank.
    Bank(Box<Bank>),
    /// Offset remapping of a device.
    Remap(Box<Remap>),
    /// Bounded window onto a device.
    View(Box<Window>),
    /// Layered overlay mask.
    Mask(Box<Mask>),
}

impl View for Dynamic {
    type V = Space;

    open spec fn view(&self) -> Space {
        dyn_view(*self)
    }
}

/// The model of a device tree.
pub open spec fn dyn_view(d: Dynamic) -> Space
    decreases d,
{
    match d {
        Dynamic::Ram(data) => Space::Ram(data@),
        Dynamic::Rom(data) => Space::Rom(data@),
        Dynamic::Null(value, size) => Space::Null { value, size },
        Dynamic::Register(value) => Space::Register(value),
        Dynamic::Bus(b) => Space::Bus(maps_view(b.maps.list@)),
        Dynamic::Bank(k) => Space::Bank { sel: k.sel, banks: banks_view(k.vec@) },
        Dynamic::Remap(r) => Space::Remap { off: r.off, dev: Box::new(dyn_view(r.dev)) },
        Dynamic::View(w) => Space::View {
            start: w.start,
            end: w.end,
            dev: Box::new(dyn_view(w.dev)),
        },
        Dynamic::Mask(m) => Space::Mask(layers_view(m.layers@)),
    }
}

/// The model of one mapping.
pub open spec fn map_view(m: Mapping) -> MapModel
    decreases m,
{
    MapModel { base: m.base, size: m.size, entry: dyn_view(m.entry) }
}

/// The models of a list of mappings, in order.
pub open spec fn maps_view(s: Seq<Mapping>) -> Seq<MapModel>
    decreases s,
{
    if s.len() == 0 {
        Seq::empty()
    } else {
        maps_view(s.drop_last()).push(map_view(s.last()))
    }
}

/// The models of a list of bank candidates, in order.
pub open spec fn banks_view(s: Seq<Dynamic>) -> Seq<Space>
    decreases s,
{
    if s.len() == 0 {
        Seq::empty()
    } else {
        banks_view(s.drop_last()).push(dyn_view(s.last()))
    }
}

/// The model of one mask layer.
pub open spec fn layer_view(l: Layer) -> LayerModel
    decreases l,
{
    LayerModel { bus: dyn_view(l.bus), skip: l.skip }
}

/// The models of a list of mask layers, in order.
pub open spec fn layers_view(s: Seq<Layer>) -> Seq<LayerModel>
    decreases s,
{
    if s.len() == 0 {
        Seq::empty()
    } else {
        layers_view(s.drop_last()).push(layer_view(s.last()))
    }
}

/// Mapping the model over a list is pointwise.
pub proof fn lemma_maps_view(s: Seq<Mapping>)
    ensures
        maps_view(s).len() == s.len(),
        forall|i: int|
            #![trigger maps_view(s)[i]]
            #![trigger s[i]]
            0 <= i < s.len() ==> maps_view(s)[i] == map_view(s[i]),
    decreases s.len(),
{
    if s.len() > 0 {
        lemma_maps_view(s.drop_last());
        assert(forall|i: int| 0 <= i < s.len() - 1 ==> s.drop_last()[i] == #[trigger] s[i]);
    }
}

/// Taking candidate models is pointwise.
pub proof fn lemma_banks_view(s: Seq<Dynamic>)
    ensures
        banks_view(s).len() == s.len(),
        forall|i: int|
            #![trigger banks_view(s)[i]]
            #![trigger s[i]]
            0 <= i < s.len() ==> banks_view(s)[i] == dyn_view(s[i]),
    decreases s.len(),
{
    if s.len() > 0 {
        lemma_banks_view(s.drop_last());
        assert(forall|i: int| 0 <= i < s.len() - 1 ==> s.drop_last()[i] == #[trigger] s[i]);
    }
}

/// Taking layer models is pointwise.
pub proof fn lemma_layers_view(s: Seq<Layer>)
    ensures
        layers_view(s).len() == s.len(),
        forall|i: int|
            #![trigger layers_view(s)[i]]
            #![trigger s[i]]
            0 <= i < s.len() ==> layers_view(s)[i] == layer_view(s[i]),
    decreases s.len(),
{
    if s.len() > 0 {
        lemma_layers_view(s.drop_last());
        assert(forall|i: int| 0 <= i < s.len() - 1 ==> s.drop_last()[i] == #[trigger] s[i]);
    }
}

/// Well-formedness of a device tree: every bus's index is sorted in storage
/// order with in-bounds ranges, and every window's range is non-empty.
pub open spec fn wf(s: Space) -> bool
    decreases s,
{
    match s {
        Space::Ram(_) => true,
        Space::Rom(_) => true,
        Space::Null { .. } => true,
        Space::Register(_) => true,
        Space::Bus(ms) => ordered(ms) && bounded(ms) && maps_wf(ms),
        Space::Bank { sel, banks } => banks_wf(banks),
        Space::Remap { off, dev } => wf(*dev),
        Space::View { start, end, dev } => start <= end && wf(*dev),
        Space::Mask(ls) => layers_wf(ls),
    }
}

/// Every mapping's device is well-formed.
pub open spec fn maps_wf(ms: Seq<MapModel>) -> bool
    decreases ms,
{
    ms.len() == 0 || (maps_wf(ms.drop_last()) && wf(ms.last().entry))
}

/// Every candidate is well-formed.
pub open spec fn banks_wf(banks: Seq<Space>) -> bool
    decreases banks,
{
    banks.len() == 0 || (banks_wf(banks.drop_last()) && wf(banks.last()))
}

/// Every layer's device is well-formed.
pub open spec fn layers_wf(ls: Seq<LayerModel>) -> bool
    decreases ls,
{
    ls.len() == 0 || (layers_wf(ls.drop_last()) && wf(ls.last().bus))
}

/// Well-formedness of a list of mappings is pointwise.
pub proof fn lemma_maps_wf(ms: Seq<MapModel>)
    ensures
        maps_wf(ms) <==> (forall|i: int| 0 <= i < ms.len() ==> wf((#[trigger] ms[i]).entry)),
    decreases ms.len(),
{
    if ms.len() > 0 {
        lemma_maps_wf(ms.drop_last());
        assert(forall|i: int| 0 <= i < ms.len() - 1 ==> ms.drop_last()[i] == #[trigger] ms[i]);
        if forall|i: int| 0 <= i < ms.len() ==> wf((#[trigger] ms[i]).entry) {
            assert(forall|i: int|
                0 <= i < ms.len() - 1 ==> wf((#[trigger] ms.drop_last()[i]).entry));
        }
    }
}

/// Well-formedness of a list of candidates is pointwise.
pub proof fn lemma_banks_wf(banks: Seq<Space>)
    ensures
        banks_wf(banks) <==> (forall|i: int| 0 <= i < banks.len() ==> wf(#[trigger] banks[i])),
    decreases banks.len(),
{
    if banks.len() > 0 {
        lemma_banks_wf(banks.drop_last());
        assert(forall|i: int|
            0 <= i < banks.len() - 1 ==> banks.drop_last()[i] == #[trigger] banks[i]);
        if forall|i: int| 0 <= i < banks.len() ==> wf(#[trigger] banks[i]) {
            assert(forall|i: int| 0 <= i < banks.len() - 1 ==> wf(#[trigger] banks.drop_last()[i]));
        }
    }
}

/// Well-formedness of a list of layers is pointwise.
pub proof fn lemma_layers_wf(ls: Seq<LayerModel>)
    ensures
        layers_wf(ls) <==> (forall|i: int| 0 <= i < ls.len() ==> wf((#[trigger] ls[i]).bus)),
    decreases ls.len(),
{
    if ls.len() > 0 {
        lemma_layers_wf(ls.drop_last());
        assert(forall|i: int| 0 <= i < ls.len() - 1 ==> ls.drop_last()[i] == #[trigger] ls[i]);
        if forall|i: int| 0 <= i < ls.len() ==> wf((#[trigger] ls[i]).bus) {
            assert(forall|i: int|
                0 <= i < ls.len() - 1 ==> wf((#[trigger] ls.drop_last()[i]).bus));
        }
    }
}

/// Whether an infallible read at `i` is legal.
pub open spec fn readable(s: Space, i: usize) -> bool
    decreases s,
{
    match s {
        Space::Ram(d) => i < d.len(),
        Space::Rom(d) => i < d.len(),
        Space::Null { .. } => true,
        Space::Register(_) => true,
        Space::Bus(ms) => match resolve(ms, i) {
            Some(j) => if 0 <= j < ms.len() {
                readable(ms[j].entry, (i - ms[j].base) as usize)
            } else {
                false
            },
            None => false,
        },
        Space::Bank { sel, banks } => sel < banks.len() && readable(banks[sel as int], i),
        Space::Remap { off, dev } => {
            let k = i as int - off as int;
            0 <= k <= usize::MAX && readable(*dev, k as usize)
        },
        Space::View { start, end, dev } => i + start <= end && readable(*dev, (i + start) as usize),
        Space::Mask(ls) => match read_hit(ls, i) {
            Some(j) => 0 <= j < ls.len(),
            None => false,
        },
    }
}

/// Whether a fallible read at `i` succeeds.
pub open spec fn t_readable(s: Space, i: usize) -> bool
    decreases s,
{
    match s {
        Space::Ram(d) => i < d.len(),
        Space::Rom(d) => i < d.len(),
        Space::Null { value, size } => size == 0 || i < size,
        Space::Register(_) => true,
        Space::Bus(ms) => match resolve(ms, i) {
            Some(j) => if 0 <= j < ms.len() {
                t_readable(ms[j].entry, (i - ms[j].base) as usize)
            } else {
                false
            },
            None => false,
        },
        Space::Bank { sel, banks } => sel < banks.len() && t_readable(banks[sel as int], i),
        Space::Remap { off, dev } => {
            let k = i as int - off as int;
            0 <= k <= usize::MAX && t_readable(*dev, k as usize)
        },
        Space::View { start, end, dev } => i + start <= end && t_readable(
            *dev,
            (i + start) as usize,
        ),
        Space::Mask(ls) => match read_hit(ls, i) {
            Some(j) => 0 <= j < ls.len(),
            None => false,
        },
    }
}

/// The word a read at `i` yields.
pub open spec fn value_at(s: Space, i: usize) -> u8
    decreases s,
{
    match s {
        Space::Ram(d) => d[i as int],
        Space::Rom(d) => d[i as int],
        Space::Null { value, .. } => value,
        Space::Register(v) => v,
        Space::Bus(ms) => match resolve(ms, i) {
            Some(j) => if 0 <= j < ms.len() {
                value_at(ms[j].entry, (i - ms[j].base) as usize)
            } else {
                0
            },
            None => 0,
        },
        Space::Bank { sel, banks } => if sel < banks.len() {
            value_at(banks[sel as int], i)
        } else {
            0
        },
        Space::Remap { off, dev } => {
            let k = i as int - off as int;
            if 0 <= k <= usize::MAX {
                value_at(*dev, k as usize)
            } else {
                0
            }
        },
        Space::View { start, end, dev } => if i + start <= end {
            value_at(*dev, (i + start) as usize)
        } else {
            0
        },
        Space::Mask(ls) => match read_hit(ls, i) {
            Some(j) => if 0 <= j < ls.len() {
                value_at(ls[j].bus, i)
            } else {
                0
            },
            None => 0,
        },
    }
}

/// Whether an infallible write at `i` is legal.
pub open spec fn writable(s: Space, i: usize) -> bool
    decreases s,
{
    match s {
        Space::Ram(d) => i < d.len(),
        Space::Rom(_) => false,
        Space::Null { .. } => true,
        Space::Register(_) => true,
        Space::Bus(ms) => match resolve(ms, i) {
            Some(j) => if 0 <= j < ms.len() {
                writable(ms[j].entry, (i - ms[j].base) as usize)
            } else {
                false
            },
            None => false,
        },
        Space::Bank { sel, banks } => sel < banks.len() && writable(banks[sel as int], i),
        Space::Remap { off, dev } => {
            let k = i as int - off as int;
            0 <= k <= usize::MAX && writable(*dev, k as usize)
        },
        Space::View { start, end, dev } => i + start <= end && writable(*dev, (i + start) as usize),
        Space::Mask(ls) => match write_hit(ls, i) {
            Some(j) => 0 <= j < ls.len(),
            None => false,
        },
    }
}

/// Whether a fallible write at `i` succeeds.
pub open spec fn t_writable(s: Space, i: usize) -> bool
    decreases s,
{
    match s {
        Space::Ram(d) => i < d.len(),
        Space::Rom(_) => false,
        Space::Null { value, size } => size == 0 || i < size,
        Space::Register(_) => true,
        Space::Bus(ms) => match resolve(ms, i) {
            Some(j) => if 0 <= j < ms.len() {
                t_writable(ms[j].entry, (i - ms[j].base) as usize)
            } else {
                false
            },
            None => false,
        },
        Space::Bank { sel, banks } => sel < banks.len() && t_writable(banks[sel as int], i),
        Space::Remap { off, dev } => {
            let k = i as int - off as int;
            0 <= k <= usize::MAX && t_writable(*dev, k as usize)
        },
        Space::View { start, end, dev } => i + start <= end && t_writable(
            *dev,
            (i + start) as usize,
        ),
        Space::Mask(ls) => match write_hit(ls, i) {
            Some(j) => 0 <= j < ls.len(),
            None => false,
        },
    }
}

/// The device tree after a successful write of `v` at `i`.
pub open spec fn written(s: Space, i: usize, v: u8) -> Space
    decreases s,
{
    match s {
        Space::Ram(d) => if i < d.len() {
            Space::Ram(d.update(i as int, v))
        } else {
            s
        },
        Space::Rom(_) => s,
        Space::Null { .. } => s,
        Space::Register(_) => Space::Register(v),
        Space::Bus(ms) => match resolve(ms, i) {
            Some(j) => if 0 <= j < ms.len() {
                Space::Bus(
                    ms.update(
                        j,
                        MapModel {
                            base: ms[j].base,
                            size: ms[j].size,
                            entry: written(ms[j].entry, (i - ms[j].base) as usize, v),
                        },
                    ),
                )
            } else {
                s
            },
            None => s,
        },
        Space::Bank { sel, banks } => if sel < banks.len() {
            Space::Bank { sel, banks: banks.update(sel as int, written(banks[sel as int], i, v)) }
        } else {
            s
        },
        Space::Remap { off, dev } => {
            let k = i as int - off as int;
            if 0 <= k <= usize::MAX {
                Space::Remap { off, dev: Box::new(written(*dev, k as usize, v)) }
            } else {
                s
            }
        },
        Space::View { start, end, dev } => if i + start <= end {
            Space::View { start, end, dev: Box::new(written(*dev, (i + start) as usize, v)) }
        } else {
            s
        },
        Space::Mask(ls) => match write_hit(ls, i) {
            Some(j) => if 0 <= j < ls.len() {
                Space::Mask(
                    ls.update(j, LayerModel { bus: written(ls[j].bus, i, v), skip: ls[j].skip }),
                )
            } else {
                s
            },
            None => s,
        },
    }
}

/// The device tree after a reset.
///
/// Volatile storage zeroes; read-only storage persists; a bus resets every
/// mapped device, its mapping table unchanged; a bank resets every candidate
/// and returns its selector to zero; a mask keeps its layers as they are.
pub open spec fn reset_of(s: Space) -> Space
    decreases s,
{
    match s {
        Space::Ram(d) => Space::Ram(Seq::new(d.len(), |j: int| 0u8)),
        Space::Rom(_) => s,
        Space::Null { .. } => s,
        Space::Register(_) => Space::Register(0),
        Space::Bus(ms) => Space::Bus(maps_reset(ms)),
        Space::Bank { sel, banks } => Space::Bank { sel: 0, banks: banks_reset(banks) },
        Space::Remap { off, dev } => Space::Remap { off, dev: Box::new(reset_of(*dev)) },
        Space::View { start, end, dev } => Space::View {
            start,
            end,
            dev: Box::new(reset_of(*dev)),
        },
        Space::Mask(_) => s,
    }
}

/// Resets every mapping's device, keeping ranges and order.
pub open spec fn maps_reset(ms: Seq<MapModel>) -> Seq<MapModel>
    decreases ms,
{
    if ms.len() == 0 {
        Seq::empty()
    } else {
        maps_reset(ms.drop_last()).push(
            MapModel {
                base: ms.last().base,
                size: ms.last().size,
                entry: reset_of(ms.last().entry),
            },
        )
    }
}

/// Resets every candidate, keeping order.
pub open spec fn banks_reset(banks: Seq<Space>) -> Seq<Space>
    decreases banks,
{
    if banks.len() == 0 {
        Seq::empty()
    } else {
        banks_reset(banks.drop_last()).push(reset_of(banks.last()))
    }
}

/// Resetting mappings is pointwise.
pub proof fn lemma_maps_reset(ms: Seq<MapModel>)
    ensures
        maps_reset(ms).len() == ms.len(),
        forall|i: int|
            #![trigger maps_reset(ms)[i]]
            #![trigger ms[i]]
            0 <= i < ms.len() ==> maps_reset(ms)[i] == (MapModel {
                base: ms[i].base,
                size: ms[i].size,
                entry: reset_of(ms[i].entry),
            }),
    decreases ms.len(),
{
    if ms.len() > 0 {
        lemma_maps_reset(ms.drop_last());
        assert(forall|i: int| 0 <= i < ms.len() - 1 ==> ms.drop_last()[i] == #[trigger] ms[i]);
    }
}

/// Resetting candidates is pointwise.
pub proof fn lemma_banks_reset(banks: Seq<Space>)
    ensures
        banks_reset(banks).len() == banks.len(),
        forall|i: int|
            #![trigger banks_reset(banks)[i]]
            #![trigger banks[i]]
            0 <= i < banks.len() ==> banks_reset(banks)[i] == reset_of(banks[i]),
    decreases banks.len(),
{
    if banks.len() > 0 {
        lemma_banks_reset(banks.drop_last());
        assert(forall|i: int|
            0 <= i < banks.len() - 1 ==> banks.drop_last()[i] == #[trigger] banks[i]);
    }
}

impl Dynamic {
    /// Reads from the specified address.
    ///
    /// Reading an address that no device answers for is a contract
    /// violation.
    pub fn read(&self, index: usize) -> (r: u8)
        requires
            wf(self@),
            readable(self@, index),
        ensures
            r == value_at(self@, index),
        decreases self,
    {
        match self {
            Dynamic::Ram(data) => data[index],
            Dynamic::Rom(data) => data[index],
            Dynamic::Null(value, _) => *value,
            Dynamic::Register(value) => *value,
            Dynamic::Bus(b) => b.read(index),
            Dynamic::Bank(k) => k.read(index),
            Dynamic::Remap(r) => r.read(index),
            Dynamic::View(w) => w.read(index),
            Dynamic::Mask(m) => m.read(index),
        }
    }

    /// Writes to the specified address.
    ///
    /// Writing an address that no device accepts is a contract violation.
    pub fn write(&mut self, index: usize, value: u8)
        requires
            wf(old(self)@),
            writable(old(self)@, index),
        ensures
            final(self)@ == written(old(self)@, index, value),
        decreases *old(self),
    {
        match self {
            Dynamic::Ram(data) => {
                data[index] = value;
            },
            Dynamic::Rom(_) => unreached(),
            Dynamic::Null(_, _) => {},
            Dynamic::Register(v) => {
                *v = value;
            },
            Dynamic::Bus(b) => b.write(index, value),
            Dynamic::Bank(k) => k.write(index, value),
            Dynamic::Remap(r) => r.write(index, value),
            Dynamic::View(w) => w.write(index, value),
            Dynamic::Mask(m) => m.write(index, value),
        }
    }

    /// Attempts a write, reporting an unmapped or rejected address instead
    /// of treating it as a contract violation. A failed attempt leaves every
    /// device unchanged.
    pub fn try_write(&mut self, index: usize, value: u8) -> (r: Result<(), crate::bus::Error>)
        requires
            wf(old(self)@),
        ensures
            r is Ok <==> t_writable(old(self)@, index),
            r is Ok ==> final(self)@ == written(old(self)@, index, value),
            r is Err ==> final(self)@ == old(self)@ && r == Err::<(), crate::bus::Error>(
                crate::bus::Error::Unmapped(index),
            ),
        decreases *old(self),
    {
        match self {
            Dynamic::Ram(data) => if index < data.len() {
                data[index] = value;
                Ok(())
            } else {
                Err(crate::bus::Error::Unmapped(index))
            },
            Dynamic::Rom(_) => Err(crate::bus::Error::Unmapped(index)),
            Dynamic::Null(_, size) => if *size == 0 || index < *size {
                Ok(())
            } else {
                Err(crate::bus::Error::Unmapped(index))
            },
            Dynamic::Register(v) => {
                *v = value;
                Ok(())
            },
            Dynamic::Bus(b) => b.try_write(index, value),
            Dynamic::Bank(k) => k.try_write(index, value),
            Dynamic::Remap(r) => r.try_write(index, value),
            Dynamic::View(w) => match w.try_write(index, value) {
                Some(_) => Ok(()),
                None => Err(crate::bus::Error::Unmapped(index)),
            },
            Dynamic::Mask(m) => m.try_write(index, value),
        }
    }

    /// Whether two devices are the same device: their models are equal,
    /// word for word and mapping for mapping.
    pub fn deep_eq(&self, other: &Dynamic) -> (r: bool)
        ensures
            r == (self@ == other@),
        decreases self,
    {
        match (self, other) {
            (Dynamic::Ram(a), Dynamic::Ram(b)) => bytes_eq(a, b),
            (Dynamic::Rom(a), Dynamic::Rom(b)) => bytes_eq(a, b),
            (Dynamic::Null(va, sa), Dynamic::Null(vb, sb)) => *va == *vb && *sa == *sb,
            (Dynamic::Register(a), Dynamic::Register(b)) => *a == *b,
            (Dynamic::Bus(a), Dynamic::Bus(b)) => maps_eq(&a.maps.list, &b.maps.list),
            (Dynamic::Bank(a), Dynamic::Bank(b)) => a.sel == b.sel && banks_eq(&a.vec, &b.vec),
            (Dynamic::Remap(a), Dynamic::Remap(b)) => a.off == b.off && a.dev.deep_eq(&b.dev),
            (Dynamic::View(a), Dynamic::View(b)) => a.start == b.start && a.end == b.end
                && a.dev.deep_eq(&b.dev),
            (Dynamic::Mask(a), Dynamic::Mask(b)) => layers_eq(&a.layers, &b.layers),
            _ => false,
        }
    }

    /// Whether the device reports `index` as within its bounds.
    pub fn contains(&self, index: usize) -> (r: bool)
        requires
            wf(self@),
        ensures
            r == covers(self@, index),
        decreases self,
    {
        match self {
            Dynamic::Ram(data) => index < data.len(),
            Dynamic::Rom(data) => index < data.len(),
            Dynamic::Null(_, size) => index < *size,
            Dynamic::Register(_) => true,
            Dynamic::Bus(b) => b.contains(index),
            Dynamic::Bank(k) => k.contains(index),
            Dynamic::Remap(r) => r.contains(index),
            Dynamic::View(w) => w.contains(index),
            Dynamic::Mask(m) => m.contains(index),
        }
    }

    /// Whether a fallible write at `index` would succeed.
    pub fn check_write(&self, index: usize) -> (r: bool)
        requires
            wf(self@),
        ensures
            r == t_writable(self@, index),
        decreases self,
    {
        match self {
            Dynamic::Ram(data) => index < data.len(),
            Dynamic::Rom(_) => false,
            Dynamic::Null(_, size) => *size == 0 || index < *size,
            Dynamic::Register(_) => true,
            Dynamic::Bus(b) => b.check_write(index),
            Dynamic::Bank(k) => k.check_write(index),
            Dynamic::Remap(r) => r.check_write(index),
            Dynamic::View(w) => w.check_write(index),
            Dynamic::Mask(m) => m.check_write(index),
        }
    }

    /// Resets the device tree to its power-on state.
    #[verifier::loop_isolation(false)]
    pub fn reset(&mut self)
        ensures
            final(self)@ == reset_of(old(self)@),
        decreases *old(self),
    {
        match self {
            Dynamic::Ram(data) => {
                let n = data.len();
                let mut i: usize = 0;
                while i < n
                    invariant
                        i <= n,
                        data@.len() == n,
                        forall|k: int| 0 <= k < i ==> data@[k] == 0u8,
                    decreases n - i,
                {
                    data[i] = 0;
                    i = i + 1;
                }
                proof {
                    assert(data@ =~= Seq::new(n as nat, |j: int| 0u8));
                }
            },
            Dynamic::Rom(_) => {},
            Dynamic::Null(_, _) => {},
            Dynamic::Register(v) => {
                *v = 0;
            },
            Dynamic::Bus(b) => b.reset(),
            Dynamic::Bank(k) => k.reset(),
            Dynamic::Remap(r) => r.reset(),
            Dynamic::View(w) => w.reset(),
            Dynamic::Mask(_) => {},
        }
    }

    /// Attempts a read, reporting an unmapped or out-of-bounds address
    /// instead of treating it as a contract violation.
    pub fn try_read(&self, index: usize) -> (r: Result<u8, crate::bus::Error>)
        requires
            wf(self@),
        ensures
            r is Ok <==> t_readable(self@, index),
            r is Ok ==> r->Ok_0 == value_at(self@, index),
            r is Err ==> r == Err::<u8, crate::bus::Error>(crate::bus::Error::Unmapped(index)),
        decreases self,
    {
        match self {
            Dynamic::Ram(data) => if index < data.len() {
                Ok(data[index])
            } else {
                Err(crate::bus::Error::Unmapped(index))
            },
            Dynamic::Rom(data) => if index < data.len() {
                Ok(data[index])
            } else {
                Err(crate::bus::Error::Unmapped(index))
            },
            Dynamic::Null(value, size) => if *size == 0 || index < *size {
                Ok(*value)
            } else {
                Err(crate::bus::Error::Unmapped(index))
            },
            Dynamic::Register(value) => Ok(*value),
            Dynamic::Bus(b) => b.try_read(index),
            Dynamic::Bank(k) => k.try_read(index),
            Dynamic::Remap(r) => r.try_read(index),
            Dynamic::View(w) => match w.try_read(index) {
                Some(v) => Ok(v),
                None => Err(crate::bus::Error::Unmapped(index)),
            },
            Dynamic::Mask(m) => m.try_read(index),
        }
    }
}

impl PartialEq for Dynamic {
    fn eq(&self, other: &Self) -> (r: bool) {
        self.deep_eq(other)
    }
}

impl Eq for Dynamic {

}

impl vstd::std_specs::cmp::PartialEqSpecImpl for Dynamic {
    open spec fn obeys_eq_spec() -> bool {
        true
    }

    open spec fn eq_spec(&self, other: &Self) -> bool {
        self@ == other@
    }
}

/// Whether two byte stores hold the same words.
#[verifier::loop_isolation(false)]
fn bytes_eq(a: &Vec<u8>, b: &Vec<u8>) -> (r: bool)
    ensures
        r == (a@ == b@),
{
    if a.len() != b.len() {
        return false;
    }
    let n = a.len();
    let mut i: usize = 0;
    while i < n
        invariant
            i <= n,
            a@.len() == n,
            b@.len() == n,
            forall|k: int| 0 <= k < i ==> a@[k] == b@[k],
        decreases n - i,
    {
        if a[i] != b[i] {
            return false;
        }
        i = i + 1;
    }
    proof {
        assert(a@ =~= b@);
    }
    true
}

/// Whether two mapping lists carry the same model, mapping for mapping.
#[verifier::loop_isolation(false)]
fn maps_eq(a: &Vec<Mapping>, b: &Vec<Mapping>) -> (r: bool)
    ensures
        r == (maps_view(a@) == maps_view(b@)),
    decreases a,
{
    proof {
        lemma_maps_view(a@);
        lemma_maps_view(b@);
        broadcast use vstd::std_specs::vec::axiom_vec_index_decreases;

    }
    if a.len() != b.len() {
        return false;
    }
    let n = a.len();
    let mut i: usize = 0;
    while i < n
        invariant
            i <= n,
            forall|k: int| 0 <= k < i ==> maps_view(a@)[k] == maps_view(b@)[k],
        decreases n - i,
    {
        let x = &a[i];
        let y = &b[i];
        if x.base != y.base || x.size != y.size {
            return false;
        }
        proof {
            assert(decreases_to!(*a => a@[i as int]));
        }
        if !x.entry.deep_eq(&y.entry) {
            return false;
        }
        i = i + 1;
    }
    proof {
        assert(maps_view(a@) =~= maps_view(b@));
    }
    true
}

/// Whether two candidate lists carry the same model, device for device.
#[verifier::loop_isolation(false)]
fn banks_eq(a: &Vec<Dynamic>, b: &Vec<Dynamic>) -> (r: bool)
    ensures
        r == (banks_view(a@) == banks_view(b@)),
    decreases a,
{
    proof {
        lemma_banks_view(a@);
        lemma_banks_view(b@);
        broadcast use vstd::std_specs::vec::axiom_vec_index_decreases;

    }
    if a.len() != b.len() {
        return false;
    }
    let n = a.len();
    let mut i: usize = 0;
    while i < n
        invariant
            i <= n,
            forall|k: int| 0 <= k < i ==> banks_view(a@)[k] == banks_view(b@)[k],
        decreases n - i,
    {
        proof {
            assert(decreases_to!(*a => a@[i as int]));
        }
        if !a[i].deep_eq(&b[i]) {
            return false;
        }
        i = i + 1;
    }
    proof {
        assert(banks_view(a@) =~= banks_view(b@));
    }
    true
}

/// Whether two layer stacks carry the same model, layer for layer.
#[verifier::loop_isolation(false)]
fn layers_eq(a: &Vec<Layer>, b: &Vec<Layer>) -> (r: bool)
    ensures
        r == (layers_view(a@) == layers_view(b@)),
    decreases a,
{
    proof {
        lemma_layers_view(a@);
        lemma_layers_view(b@);
        broadcast use vstd::std_specs::vec::axiom_vec_index_decreases;

    }
    if a.len() != b.len() {
        return false;
    }
    let n = a.len();
    let mut i: usize = 0;
    while i < n
        invariant
            i <= n,
            forall|k: int| 0 <= k < i ==> layers_view(a@)[k] == layers_view(b@)[k],
        decreases n - i,
    {
        let x = &a[i];
        let y = &b[i];
        if x.skip != y.skip {
            return false;
        }
        proof {
            assert(decreases_to!(*a => a@[i as int]));
        }
        if !x.bus.deep_eq(&y.bus) {
            return false;
        }
        i = i + 1;
    }
    proof {
        assert(layers_view(a@) =~= layers_view(b@));
    }
    true
}

impl Address<u8> for Dynamic {
    open spec fn can_read(&self, index: usize) -> bool {
        wf(self@) && readable(self@, index)
    }

    open spec fn value_at(&self, index: usize) -> u8 {
        value_at(self@, index)
    }

    open spec fn can_write(&self, index: usize) -> bool {
        wf(self@) && writable(self@, index)
    }

    open spec fn write_rel(&self, post: Self, index: usize, value: u8) -> bool {
        post@ == written(self@, index, value)
    }

    fn read(&self, index: usize) -> (r: u8) {
        Dynamic::read(self, index)
    }

    fn write(&mut self, index: usize, value: u8) {
        Dynamic::write(self, index, value)
    }
}

impl Block for Dynamic {
    open spec fn reset_rel(&self, post: Self) -> bool {
        post@ == reset_of(self@)
    }

    fn reset(&mut self) {
        Dynamic::reset(self)
    }
}

impl Device for Dynamic {
    open spec fn erased(&self) -> Space {
        self@
    }

    fn to_dynamic(self) -> (d: Dynamic) {
        self
    }
}

/// Whether the device reports address `i` as within its bounds.
pub open spec fn covers(s: Space, i: usize) -> bool
    decreases s,
{
    match s {
        Space::Ram(d) => i < d.len(),
        Space::Rom(d) => i < d.len(),
        Space::Null { value, size } => i < size,
        Space::Register(_) => true,
        Space::Bus(ms) => resolve(ms, i) is Some,
        Space::Bank { sel, banks } => sel < banks.len() && covers(banks[sel as int], i),
        Space::Remap { off, dev } => covers(*dev, i),
        Space::View { start, end, .. } => start <= i <= end,
        Space::Mask(ls) => read_hit(ls, i) is Some,
    }
}

} // verus!
