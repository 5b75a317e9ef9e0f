//! Switchable bank of devices.

use vstd::prelude::*;

use crate::dev::{
    banks_view, banks_wf, dyn_view, lemma_banks_view, lemma_banks_wf, readable, t_readable, t_writable, value_at, wf, writable,
    written, Dynamic, Space,
};

verus! {

/// Device bank.
///
/// The `Bank` adapter holds an ordered list of candidate devices of which
/// exactly one, picked by the selector, answers reads and writes. The
/// selector changes only through an explicit [`Bank::set`]; using a selector
/// at or past the number of candidates is a contract violation.
#[derive(Debug)]
pub struct Bank {
    pub sel: usize,
    pub vec: Vec<Dynamic>,
}

impl View for Bank {
    type V = Space;

    open spec fn view(&self) -> Space {
        Space::Bank { sel: self.sel, banks: banks_view(self.vec@) }
    }
}

impl Bank {
    /// Constructs a new, empty `Bank`.
    pub fn new() -> (r: Self)
        ensures
            r@ == (Space::Bank { sel: 0usize, banks: Seq::<Space>::empty() }),
    {
        Bank { sel: 0, vec: Vec::new() }
    }

    /// Gets the selected device.
    pub fn get(&self) -> (r: usize)
        ensures
            r == self.sel,
    {
        self.sel
    }

    /// Sets the selected device.
    ///
    /// The candidates themselves are untouched; a selector at or past their
    /// number makes later accesses contract violations until it is set back.
    pub fn set(&mut self, sel: usize)
        ensures
            final(self)@ == (Space::Bank { sel, banks: banks_view(old(self).vec@) }),
    {
        self.sel = sel;
    }

    /// Appends a device to the back of the bank.
    pub fn add(&mut self, dev: Dynamic)
        ensures
            final(self)@ == (Space::Bank {
                sel: old(self).sel,
                banks: banks_view(old(self).vec@).push(dev@),
            }),
    {
        proof {
            lemma_banks_view(self.vec@);
        }
        let ghost dv = dev@;
        self.vec.push(dev);
        proof {
            lemma_banks_view(self.vec@);
            assert(banks_view(self.vec@) =~= banks_view(old(self).vec@).push(dv));
        }
    }

    /// Clears the bank, removing all devices.
    pub fn clear(&mut self)
        ensures
            final(self)@ == (Space::Bank { sel: old(self).sel, banks: Seq::<Space>::empty() }),
    {
        self.vec.clear();
    }

    /// Inserts a device at position `index` within the bank, shifting all
    /// devices after it to the right.
    pub fn insert(&mut self, index: usize, dev: Dynamic)
        requires
            index <= banks_view(old(self).vec@).len(),
        ensures
            final(self)@ == (Space::Bank {
                sel: old(self).sel,
                banks: banks_view(old(self).vec@).insert(index as int, dev@),
            }),
    {
        proof {
            lemma_banks_view(self.vec@);
        }
        let ghost dv = dev@;
        self.vec.insert(index, dev);
        proof {
            lemma_banks_view(self.vec@);
            assert(banks_view(self.vec@) =~= banks_view(old(self).vec@).insert(index as int, dv));
        }
    }

    /// Removes and returns the device at position `index` within the bank,
    /// shifting all devices after it to the left.
    pub fn remove(&mut self, index: usize) -> (r: Dynamic)
        requires
            index < banks_view(old(self).vec@).len(),
        ensures
            r@ == banks_view(old(self).vec@)[index as int],
            final(self)@ == (Space::Bank {
                sel: old(self).sel,
                banks: banks_view(old(self).vec@).remove(index as int),
            }),
    {
        proof {
            lemma_banks_view(self.vec@);
        }
        let r = self.vec.remove(index);
        proof {
            lemma_banks_view(self.vec@);
            assert(banks_view(self.vec@) =~= banks_view(old(self).vec@).remove(index as int));
        }
        r
    }

    /// Returns the number of candidate devices.
    pub fn len(&self) -> (r: usize)
        ensures
            r == banks_view(self.vec@).len(),
    {
        proof {
            lemma_banks_view(self.vec@);
        }
        self.vec.len()
    }

    /// Reads from the selected device.
    ///
    /// An out-of-range selector is a contract violation.
    pub fn read(&self, index: usize) -> (r: u8)
        requires
            wf(self@),
            readable(self@, index),
        ensures
            r == value_at(self@, index),
        decreases self,
    {
        proof {
            lemma_banks_view(self.vec@);
            lemma_banks_wf(banks_view(self.vec@));
            broadcast use vstd::std_specs::vec::axiom_vec_index_decreases;

            assert(decreases_to!(*self => self.vec@[self.sel as int]));
        }
        self.vec[self.sel].read(index)
    }

    /// Attempts a read through the selected device.
    pub fn try_read(&self, index: usize) -> (r: Result<u8, crate::bus::Error>)
        requires
            wf(self@),
        ensures
            r is Ok <==> t_readable(self@, index),
            r is Ok ==> r->Ok_0 == value_at(self@, index),
            r is Err ==> r == Err::<u8, crate::bus::Error>(crate::bus::Error::Unmapped(index)),
        decreases self,
    {
        proof {
            lemma_banks_view(self.vec@);
            broadcast use vstd::std_specs::vec::axiom_vec_index_decreases;

        }
        if self.sel < self.vec.len() {
            proof {
                assert(decreases_to!(*self => self.vec@[self.sel as int]));
                lemma_banks_wf(banks_view(self.vec@));
            }
            self.vec[self.sel].try_read(index)
        } else {
            Err(crate::bus::Error::Unmapped(index))
        }
    }

    /// Whether the selected device reports `index` as within bounds.
    pub fn contains(&self, index: usize) -> (r: bool)
        requires
            wf(self@),
        ensures
            r == crate::dev::covers(self@, index),
        decreases self,
    {
        proof {
            lemma_banks_view(self.vec@);
            lemma_banks_wf(banks_view(self.vec@));
            broadcast use vstd::std_specs::vec::axiom_vec_index_decreases;

        }
        if self.sel < self.vec.len() {
            proof {
                assert(decreases_to!(*self => self.vec@[self.sel as int]));
            }
            self.vec[self.sel].contains(index)
        } else {
            false
        }
    }

    /// Whether a fallible write at `index` would succeed.
    pub fn check_write(&self, index: usize) -> (r: bool)
        requires
            wf(self@),
        ensures
            r == t_writable(self@, index),
        decreases self,
    {
        proof {
            lemma_banks_view(self.vec@);
            lemma_banks_wf(banks_view(self.vec@));
            broadcast use vstd::std_specs::vec::axiom_vec_index_decreases;

        }
        if self.sel < self.vec.len() {
            proof {
                assert(decreases_to!(*self => self.vec@[self.sel as int]));
            }
            self.vec[self.sel].check_write(index)
        } else {
            false
        }
    }

    /// Writes to the selected device.
    ///
    /// An out-of-range selector is a contract violation.
    pub fn write(&mut self, index: usize, value: u8)
        requires
            wf(old(self)@),
            writable(old(self)@, index),
        ensures
            final(self)@ == written(old(self)@, index, value),
        decreases *old(self),
    {
        proof {
            lemma_banks_view(self.vec@);
            lemma_banks_wf(banks_view(self.vec@));
            broadcast use vstd::std_specs::vec::axiom_vec_index_decreases;

            assert(decreases_to!(*old(self) => old(self).vec@[old(self).sel as int]));
        }
        let ghost pre = banks_view(self.vec@);
        let s = self.sel;
        self.vec[s].write(index, value);
        proof {
            lemma_banks_view(self.vec@);
            assert(banks_view(self.vec@) =~= pre.update(
                s as int,
                written(pre[s as int], index, value),
            ));
        }
    }

    /// Attempts a write through the selected device. A failed attempt
    /// leaves every candidate unchanged.
    pub fn try_write(&mut self, index: usize, value: u8) -> (r: Result<(), crate::bus::Error>)
        requires
            wf(old(self)@),
        ensures
            r is Ok <==> t_writable(old(self)@, index),
            r is Ok ==> final(self)@ == written(old(self)@, index, value),
            r is Err ==> final(self)@ == old(self)@ && r == Err::<(), crate::bus::Error>(
                crate::bus::Error::Unmapped(index),
            ),
        decreases *old(self),
    {
        proof {
            lemma_banks_view(self.vec@);
            lemma_banks_wf(banks_view(self.vec@));
            broadcast use vstd::std_specs::vec::axiom_vec_index_decreases;

        }
        if self.sel < self.vec.len() {
            proof {
                assert(decreases_to!(*old(self) => old(self).vec@[old(self).sel as int]));
            }
            let ghost pre = banks_view(self.vec@);
            let s = self.sel;
            let r = self.vec[s].try_write(index, value);
            proof {
                lemma_banks_view(self.vec@);
                if r is Ok {
                    assert(banks_view(self.vec@) =~= pre.update(
                        s as int,
                        written(pre[s as int], index, value),
                    ));
                } else {
                    assert(banks_view(self.vec@) =~= pre);
                }
            }
            match r {
                Ok(_) => Ok(()),
                Err(_) => Err(crate::bus::Error::Unmapped(index)),
            }
        } else {
            Err(crate::bus::Error::Unmapped(index))
        }
    }

    /// Resets the bank: the selector returns to zero and every candidate is
    /// reset, modelling power-on reset of all banks even though only one is
    /// addressable.
    #[verifier::loop_isolation(false)]
    pub fn reset(&mut self)
        ensures
            final(self)@ == (Space::Bank {
                sel: 0usize,
                banks: crate::dev::banks_reset(banks_view(old(self).vec@)),
            }),
        decreases *old(self),
    {
        proof {
            lemma_banks_view(old(self).vec@);
            crate::dev::lemma_banks_reset(banks_view(old(self).vec@));
            broadcast use vstd::std_specs::vec::axiom_vec_index_decreases;

        }
        self.sel = 0;
        let n = self.vec.len();
        let mut p: usize = 0;
        while p < n
            invariant
                p <= n,
                self.sel == 0usize,
                self.vec@.len() == n,
                forall|k: int| p <= k < n ==> self.vec@[k] == old(self).vec@[k],
                forall|k: int|
                    0 <= k < p ==> dyn_view(#[trigger] self.vec@[k]) == crate::dev::reset_of(
                        banks_view(old(self).vec@)[k],
                    ),
            decreases n - p,
        {
            proof {
                assert(decreases_to!(*old(self) => old(self).vec@[p as int]));
            }
            self.vec[p].reset();
            p = p + 1;
        }
        proof {
            lemma_banks_view(self.vec@);
            assert(banks_view(self.vec@) =~= crate::dev::banks_reset(banks_view(old(self).vec@)));
        }
    }
}

/// Bank switching: with two candidates, selector zero reads the first and
/// selector one reads the second at the identical address, the candidates
/// themselves untouched by the switch; a reset returns the selector to zero
/// and resets both candidates.
pub proof fn lemma_bank_switching(x: Space, y: Space, i: usize)
    ensures
        value_at(Space::Bank { sel: 0usize, banks: seq![x, y] }, i) == value_at(x, i),
        value_at(Space::Bank { sel: 1usize, banks: seq![x, y] }, i) == value_at(y, i),
        crate::dev::reset_of(Space::Bank { sel: 1usize, banks: seq![x, y] }) == (Space::Bank {
            sel: 0usize,
            banks: seq![crate::dev::reset_of(x), crate::dev::reset_of(y)],
        }),
{
    reveal_with_fuel(crate::dev::banks_reset, 3);
    let banks = seq![x, y];
    assert(banks.drop_last() =~= seq![x]);
    assert(seq![x].drop_last() =~= Seq::<Space>::empty());
    assert(crate::dev::banks_reset(banks) =~= seq![
        crate::dev::reset_of(x),
        crate::dev::reset_of(y),
    ]);
}

impl crate::arch::Address<u8> for Bank {
    open spec fn can_read(&self, index: usize) -> bool {
        wf(self@) && readable(self@, index)
    }

    open spec fn value_at(&self, index: usize) -> u8 {
        value_at(self@, index)
    }

    open spec fn can_write(&self, index: usize) -> bool {
        wf(self@) && writable(self@, index)
    }

    open spec fn write_rel(&self, post: Self, index: usize, value: u8) -> bool {
        post@ == written(self@, index, value)
    }

    fn read(&self, index: usize) -> (r: u8) {
        Bank::read(self, index)
    }

    fn write(&mut self, index: usize, value: u8) {
        Bank::write(self, index, value)
    }
}

impl crate::blk::Block for Bank {
    open spec fn reset_rel(&self, post: Self) -> bool {
        post@ == crate::dev::reset_of(self@)
    }

    fn reset(&mut self) {
        Bank::reset(self)
    }
}

impl crate::dev::Device for Bank {
    open spec fn erased(&self) -> Space {
        self@
    }

    fn to_dynamic(self) -> (d: Dynamic) {
        Dynamic::Bank(Box::new(self))
    }
}

} // verus!
