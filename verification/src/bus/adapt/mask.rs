//! Layered overlay masking.

use vstd::prelude::*;

use vstd::pervasive::unreached;

use crate::bus::Error;
use crate::dev::{
    dyn_view, layers_view, lemma_layers_view, lemma_layers_wf, readable, t_readable, t_writable,
    value_at, wf, writable, written, Dynamic, Space,
};

verus! {

/// One complete address-space layer stacked inside a [`Mask`].
#[derive(Debug)]
pub struct Layer {
    /// The device answering for this layer, usually a whole bus.
    pub bus: Dynamic,
    /// Soft-disables the layer without losing its position.
    pub skip: bool,
}

/// Model of a [`Layer`].
pub struct LayerModel {
    pub bus: Space,
    pub skip: bool,
}

impl View for Layer {
    type V = LayerModel;

    open spec fn view(&self) -> LayerModel {
        LayerModel { bus: dyn_view(self.bus), skip: self.skip }
    }
}

/// Bus mask.
///
/// The `Mask` adapter stacks complete address-space layers and queries them
/// top to bottom: an access walks the layers in order, skips those flagged
/// [`Layer::skip`], and the first layer whose fallible access succeeds wins.
/// If none succeeds the address is unmapped. This models overlay-style maps,
/// where several independently built, possibly overlapping address spaces
/// stack with the highest-priority covering layer winning.
#[derive(Debug)]
pub struct Mask {
    pub layers: Vec<Layer>,
}

impl View for Mask {
    type V = Seq<LayerModel>;

    open spec fn view(&self) -> Seq<LayerModel> {
        layers_view(self.layers@)
    }
}

impl Mask {
    /// Constructs a new, empty `Mask`.
    pub fn new() -> (r: Self)
        ensures
            r@ == Seq::<LayerModel>::empty(),
    {
        Mask { layers: Vec::new() }
    }

    /// Returns a reference to the layer residing at `index`.
    pub fn layer(&self, index: usize) -> (r: Option<&Layer>)
        ensures
            index < self@.len() ==> r is Some && (*r->0)@ == self@[index as int],
            index >= self@.len() ==> r is None,
    {
        proof {
            lemma_layers_view(self.layers@);
        }
        if index < self.layers.len() {
            Some(&self.layers[index])
        } else {
            None
        }
    }

    /// Returns a mutable reference to the layer residing at `index`, through
    /// which its device may be replaced or its skip flag flipped.
    ///
    /// An index at or past the number of layers is a contract violation.
    pub fn layer_mut(&mut self, index: usize) -> (r: &mut Layer)
        requires
            index < old(self)@.len(),
        ensures
            *r == old(self).layers@[index as int],
            final(self)@ == layers_view(
                old(self).layers@.update(index as int, *final(r)),
            ),
    {
        proof {
            lemma_layers_view(self.layers@);
        }
        &mut self.layers[index]
    }

    /// Inserts a layer at position `index` within the mask.
    ///
    /// A position past the number of layers is a contract violation.
    pub fn insert(&mut self, index: usize, bus: Dynamic)
        requires
            index <= old(self)@.len(),
        ensures
            final(self)@ == old(self)@.insert(
                index as int,
                LayerModel { bus: bus@, skip: false },
            ),
    {
        proof {
            lemma_layers_view(self.layers@);
        }
        let ghost bv = bus@;
        self.layers.insert(index, Layer { bus, skip: false });
        proof {
            lemma_layers_view(self.layers@);
            assert(self@ =~= old(self)@.insert(
                index as int,
                LayerModel { bus: bv, skip: false },
            ));
        }
    }

    /// Removes the layer at position `index` within the mask and returns its
    /// device.
    ///
    /// An index at or past the number of layers is a contract violation.
    pub fn remove(&mut self, index: usize) -> (r: Dynamic)
        requires
            index < old(self)@.len(),
        ensures
            r@ == old(self)@[index as int].bus,
            final(self)@ == old(self)@.remove(index as int),
    {
        proof {
            lemma_layers_view(self.layers@);
        }
        let l = self.layers.remove(index);
        proof {
            lemma_layers_view(self.layers@);
            assert(self@ =~= old(self)@.remove(index as int));
        }
        l.bus
    }

    /// Appends a layer to the back of the mask, live by default.
    pub fn push(&mut self, bus: Dynamic)
        ensures
            final(self)@ == old(self)@.push(LayerModel { bus: bus@, skip: false }),
    {
        proof {
            lemma_layers_view(self.layers@);
        }
        let ghost bv = bus@;
        self.layers.push(Layer { bus, skip: false });
        proof {
            lemma_layers_view(self.layers@);
            assert(self@ =~= old(self)@.push(LayerModel { bus: bv, skip: false }));
        }
    }

    /// Removes the last layer from the mask and returns its device.
    pub fn pop(&mut self) -> (r: Option<Dynamic>)
        ensures
            old(self)@.len() > 0 ==> r is Some && (r->0)@ == old(self)@.last().bus
                && final(self)@ == old(self)@.drop_last(),
            old(self)@.len() == 0 ==> r is None && final(self)@ == old(self)@,
    {
        proof {
            lemma_layers_view(self.layers@);
        }
        match self.layers.pop() {
            Some(l) => {
                proof {
                    lemma_layers_view(self.layers@);
                    assert(self@ =~= old(self)@.drop_last());
                }
                Some(l.bus)
            },
            None => None,
        }
    }

    /// Reverses the order of layers in the mask, in place.
    #[verifier::loop_isolation(false)]
    pub fn reverse(&mut self)
        ensures
            final(self)@ == old(self)@.reverse(),
    {
        proof {
            lemma_layers_view(self.layers@);
        }
        let mut out: Vec<Layer> = Vec::new();
        let ghost pre = self.layers@;
        let mut n = self.layers.len();
        while n > 0
            invariant
                n == self.layers@.len(),
                self.layers@ =~= pre.take(n as int),
                out@.len() == pre.len() - n,
                forall|k: int| 0 <= k < out@.len() ==> out@[k] == pre[pre.len() - 1 - k],
            decreases n,
        {
            match self.layers.pop() {
                Some(l) => {
                    out.push(l);
                },
                None => {
                    proof {
                        assert(false);
                    }
                },
            }
            proof {
                assert(self.layers@ =~= pre.take(n as int - 1));
            }
            n = n - 1;
        }
        self.layers = out;
        proof {
            lemma_layers_view(self.layers@);
            assert(self@ =~= layers_view(pre).reverse()) by {
                lemma_layers_view(pre);
                assert(forall|k: int|
                    0 <= k < pre.len() ==> self.layers@[k] == #[trigger] pre[pre.len() - 1 - k]);
            }
        }
    }

    /// Reads from the first live layer that answers for the address.
    ///
    /// Reading an address no live layer answers for is a contract violation.
    #[verifier::loop_isolation(false)]
    pub fn read(&self, index: usize) -> (r: u8)
        requires
            wf(Space::Mask(self@)),
            readable(Space::Mask(self@), index),
        ensures
            r == value_at(Space::Mask(self@), index),
        decreases self,
    {
        match self.try_read(index) {
            Ok(v) => v,
            Err(_) => unreached(),
        }
    }

    /// Attempts a read: walks the layers in order, skipping those flagged
    /// [`Layer::skip`], and yields the first fallible read that succeeds.
    #[verifier::loop_isolation(false)]
    pub fn try_read(&self, index: usize) -> (r: Result<u8, Error>)
        requires
            wf(Space::Mask(self@)),
        ensures
            r is Ok <==> t_readable(Space::Mask(self@), index),
            r is Ok ==> r->Ok_0 == value_at(Space::Mask(self@), index),
            r is Err ==> r == Err::<u8, Error>(Error::Unmapped(index)),
        decreases self,
    {
        proof {
            lemma_layers_view(self.layers@);
            lemma_layers_wf(self@);
            broadcast use vstd::std_specs::vec::axiom_vec_index_decreases;

        }
        let ghost ls = self@;
        let mut j: usize = 0;
        while j < self.layers.len()
            invariant
                j <= self.layers@.len(),
                forall|k: int|
                    0 <= k < j ==> (#[trigger] ls[k]).skip || !t_readable(ls[k].bus, index),
            decreases self.layers@.len() - j,
        {
            let l = &self.layers[j];
            if !l.skip {
                proof {
                    assert(decreases_to!(*self => self.layers@[j as int]));
                }
                match l.bus.try_read(index) {
                    Ok(v) => {
                        proof {
                            lemma_read_hit_at(ls, index, j as int);
                        }
                        return Ok(v);
                    },
                    Err(_) => {},
                }
            }
            j = j + 1;
        }
        proof {
            lemma_read_hit(ls, index);
        }
        Err(Error::Unmapped(index))
    }

    /// Writes through the first live layer that accepts the write.
    ///
    /// Writing an address no live layer accepts is a contract violation.
    pub fn write(&mut self, index: usize, value: u8)
        requires
            wf(Space::Mask(old(self)@)),
            writable(Space::Mask(old(self)@), index),
        ensures
            Space::Mask(final(self)@) == written(Space::Mask(old(self)@), index, value),
        decreases *old(self),
    {
        match self.try_write(index, value) {
            Ok(_) => {},
            Err(_) => unreached(),
        }
    }

    /// Whether some live layer answers a read at `index`.
    pub fn contains(&self, index: usize) -> (r: bool)
        requires
            wf(Space::Mask(self@)),
        ensures
            r == crate::dev::covers(Space::Mask(self@), index),
    {
        proof {
            lemma_read_hit(self@, index);
        }
        match self.try_read(index) {
            Ok(_) => true,
            Err(_) => false,
        }
    }

    /// Whether a fallible write at `index` would succeed in some live layer.
    #[verifier::loop_isolation(false)]
    pub fn check_write(&self, index: usize) -> (r: bool)
        requires
            wf(Space::Mask(self@)),
        ensures
            r == t_writable(Space::Mask(self@), index),
        decreases self,
    {
        proof {
            lemma_layers_view(self.layers@);
            lemma_layers_wf(self@);
            broadcast use vstd::std_specs::vec::axiom_vec_index_decreases;

        }
        let ghost ls = self@;
        let n = self.layers.len();
        let mut j: usize = 0;
        while j < n
            invariant
                j <= n,
                forall|k: int|
                    0 <= k < j ==> (#[trigger] ls[k]).skip || !t_writable(ls[k].bus, index),
            decreases n - j,
        {
            let l = &self.layers[j];
            if !l.skip {
                proof {
                    assert(decreases_to!(*self => self.layers@[j as int]));
                }
                if l.bus.check_write(index) {
                    proof {
                        lemma_write_hit_at(ls, index, j as int);
                    }
                    return true;
                }
            }
            j = j + 1;
        }
        proof {
            lemma_write_hit(ls, index);
        }
        false
    }

    /// Attempts a write: walks the layers in order, skipping those flagged
    /// [`Layer::skip`], and the first fallible write that succeeds wins. A
    /// failed attempt leaves every layer unchanged.
    #[verifier::loop_isolation(false)]
    pub fn try_write(&mut self, index: usize, value: u8) -> (r: Result<(), Error>)
        requires
            wf(Space::Mask(old(self)@)),
        ensures
            r is Ok <==> t_writable(Space::Mask(old(self)@), index),
            r is Ok ==> Space::Mask(final(self)@) == written(Space::Mask(old(self)@), index, value),
            r is Err ==> final(self)@ == old(self)@ && r == Err::<(), Error>(
                Error::Unmapped(index),
            ),
        decreases *old(self),
    {
        proof {
            lemma_layers_view(self.layers@);
            lemma_layers_wf(self@);
            broadcast use vstd::std_specs::vec::axiom_vec_index_decreases;

        }
        let ghost ls = old(self)@;
        let n = self.layers.len();
        let mut j: usize = 0;
        while j < n
            invariant
                j <= n,
                *self == *old(self),
                forall|k: int|
                    0 <= k < j ==> (#[trigger] ls[k]).skip || !t_writable(ls[k].bus, index),
            decreases n - j,
        {
            let l = &self.layers[j];
            if !l.skip {
                proof {
                    assert(decreases_to!(*self => self.layers@[j as int]));
                }
                if l.bus.check_write(index) {
                    proof {
                        lemma_write_hit_at(ls, index, j as int);
                        assert(decreases_to!(*old(self) => old(self).layers@[j as int]));
                    }
                    let r = self.layers[j].bus.try_write(index, value);
                    proof {
                        lemma_layers_view(self.layers@);
                        assert(self@ =~= ls.update(
                            j as int,
                            LayerModel {
                                bus: written(ls[j as int].bus, index, value),
                                skip: ls[j as int].skip,
                            },
                        ));
                    }
                    return Ok(());
                }
            }
            j = j + 1;
        }
        proof {
            lemma_write_hit(ls, index);
        }
        Err(Error::Unmapped(index))
    }
}

/// The position of the first live layer whose fallible read at `i` succeeds.
pub open spec fn read_hit(ls: Seq<LayerModel>, i: usize) -> Option<int>
    decreases ls,
{
    if ls.len() == 0 {
        None
    } else if !ls[0].skip && t_readable(ls[0].bus, i) {
        Some(0)
    } else {
        match read_hit(ls.drop_first(), i) {
            Some(j) => Some(j + 1),
            None => None,
        }
    }
}

/// The position of the first live layer whose fallible write at `i` succeeds.
pub open spec fn write_hit(ls: Seq<LayerModel>, i: usize) -> Option<int>
    decreases ls,
{
    if ls.len() == 0 {
        None
    } else if !ls[0].skip && t_writable(ls[0].bus, i) {
        Some(0)
    } else {
        match write_hit(ls.drop_first(), i) {
            Some(j) => Some(j + 1),
            None => None,
        }
    }
}

/// What a read hit is: the first live layer that can answer.
pub proof fn lemma_read_hit(ls: Seq<LayerModel>, i: usize)
    ensures
        match read_hit(ls, i) {
            Some(j) => 0 <= j < ls.len() && !ls[j].skip && t_readable(ls[j].bus, i) && (forall|
                k: int,
            |
                0 <= k < j ==> (#[trigger] ls[k]).skip || !t_readable(ls[k].bus, i)),
            None => forall|k: int|
                0 <= k < ls.len() ==> (#[trigger] ls[k]).skip || !t_readable(ls[k].bus, i),
        },
    decreases ls.len(),
{
    if ls.len() > 0 && !(!ls[0].skip && t_readable(ls[0].bus, i)) {
        lemma_read_hit(ls.drop_first(), i);
        assert(forall|k: int| 1 <= k < ls.len() ==> ls.drop_first()[k - 1] == #[trigger] ls[k]);
    }
}

/// A live layer that answers, below which none does, is the read hit.
pub proof fn lemma_read_hit_at(ls: Seq<LayerModel>, i: usize, j: int)
    requires
        0 <= j < ls.len(),
        !ls[j].skip,
        t_readable(ls[j].bus, i),
        forall|k: int| 0 <= k < j ==> (#[trigger] ls[k]).skip || !t_readable(ls[k].bus, i),
    ensures
        read_hit(ls, i) == Some(j),
    decreases ls.len(),
{
    if j > 0 {
        lemma_read_hit_at(ls.drop_first(), i, j - 1);
        assert(forall|k: int| 1 <= k < ls.len() ==> ls.drop_first()[k - 1] == #[trigger] ls[k]);
        assert(ls.drop_first()[j - 1] == ls[j]);
    }
}

/// A live layer that accepts, below which none does, is the write hit.
pub proof fn lemma_write_hit_at(ls: Seq<LayerModel>, i: usize, j: int)
    requires
        0 <= j < ls.len(),
        !ls[j].skip,
        t_writable(ls[j].bus, i),
        forall|k: int| 0 <= k < j ==> (#[trigger] ls[k]).skip || !t_writable(ls[k].bus, i),
    ensures
        write_hit(ls, i) == Some(j),
    decreases ls.len(),
{
    if j > 0 {
        lemma_write_hit_at(ls.drop_first(), i, j - 1);
        assert(forall|k: int| 1 <= k < ls.len() ==> ls.drop_first()[k - 1] == #[trigger] ls[k]);
        assert(ls.drop_first()[j - 1] == ls[j]);
    }
}

/// What a write hit is: the first live layer that accepts the write.
pub proof fn lemma_write_hit(ls: Seq<LayerModel>, i: usize)
    ensures
        match write_hit(ls, i) {
            Some(j) => 0 <= j < ls.len() && !ls[j].skip && t_writable(ls[j].bus, i) && (forall|
                k: int,
            |
                0 <= k < j ==> (#[trigger] ls[k]).skip || !t_writable(ls[k].bus, i)),
            None => forall|k: int|
                0 <= k < ls.len() ==> (#[trigger] ls[k]).skip || !t_writable(ls[k].bus, i),
        },
    decreases ls.len(),
{
    if ls.len() > 0 && !(!ls[0].skip && t_writable(ls[0].bus, i)) {
        lemma_write_hit(ls.drop_first(), i);
        assert(forall|k: int| 1 <= k < ls.len() ==> ls.drop_first()[k - 1] == #[trigger] ls[k]);
    }
}

/// Mask fallback order: with two live layers both able to answer an
/// address, the first one answers; once the first is skipped, the second
/// answers at the identical address; and with no layers at all, the access
/// fails as unmapped.
pub proof fn lemma_mask_fallback(l0: LayerModel, l1: LayerModel, p: usize)
    requires
        !l0.skip,
        !l1.skip,
        t_readable(l0.bus, p),
        t_readable(l1.bus, p),
    ensures
        value_at(Space::Mask(seq![l0, l1]), p) == value_at(l0.bus, p),
        value_at(
            Space::Mask(seq![LayerModel { bus: l0.bus, skip: true }, l1]),
            p,
        ) == value_at(l1.bus, p),
        !t_readable(Space::Mask(Seq::<LayerModel>::empty()), p),
{
    reveal_with_fuel(read_hit, 3);
    let ls = seq![l0, l1];
    assert(ls.drop_first() =~= seq![l1]);
    assert(seq![l1].drop_first() =~= Seq::<LayerModel>::empty());
    let lp = seq![LayerModel { bus: l0.bus, skip: true }, l1];
    assert(lp.drop_first() =~= seq![l1]);
}

impl crate::arch::Address<u8> for Mask {
    open spec fn can_read(&self, index: usize) -> bool {
        wf(Space::Mask(self@)) && readable(Space::Mask(self@), index)
    }

    open spec fn value_at(&self, index: usize) -> u8 {
        value_at(Space::Mask(self@), index)
    }

    open spec fn can_write(&self, index: usize) -> bool {
        wf(Space::Mask(self@)) && writable(Space::Mask(self@), index)
    }

    open spec fn write_rel(&self, post: Self, index: usize, value: u8) -> bool {
        Space::Mask(post@) == written(Space::Mask(self@), index, value)
    }

    fn read(&self, index: usize) -> (r: u8) {
        Mask::read(self, index)
    }

    fn write(&mut self, index: usize, value: u8) {
        Mask::write(self, index, value)
    }
}

impl crate::blk::Block for Mask {
    open spec fn reset_rel(&self, post: Self) -> bool {
        Space::Mask(post@) == crate::dev::reset_of(Space::Mask(self@))
    }

    fn reset(&mut self) {
    }
}

impl crate::dev::Device for Mask {
    open spec fn erased(&self) -> Space {
        Space::Mask(self@)
    }

    fn to_dynamic(self) -> (d: Dynamic) {
        Dynamic::Mask(Box::new(self))
    }
}

} // verus!
