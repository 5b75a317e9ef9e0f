//! Interval index used to resolve an address among overlapping mappings.

use vstd::prelude::*;

use crate::dev::{
    lemma_maps_view, lemma_maps_wf, map_view, maps_view, maps_wf, wf, Dynamic, Space,
};

verus! {

/// Association of an address range with a device.
///
/// The range covers the `size` addresses starting at `base`; a `size` of zero
/// covers no address at all.
#[derive(Debug)]
pub struct Mapping {
    pub base: usize,
    pub size: usize,
    pub entry: Dynamic,
}

/// Model of a [`Mapping`]: its range and the model of its device.
pub struct MapModel {
    pub base: usize,
    pub size: usize,
    pub entry: Space,
}

impl View for Mapping {
    type V = MapModel;

    open spec fn view(&self) -> MapModel {
        map_view(*self)
    }
}

/// Whether the mapping covers address `i`.
pub open spec fn contains_at(m: MapModel, i: usize) -> bool {
    m.base <= i && i - m.base < m.size
}

/// Strict storage order on mappings: base ascending, then size descending,
/// so that a scan from the back visits bases descending and, within one
/// base, sizes ascending (narrowest first).
pub open spec fn key_lt(a: MapModel, b: MapModel) -> bool {
    a.base < b.base || (a.base == b.base && a.size > b.size)
}

/// The index is sorted in storage order.
pub open spec fn ordered(ms: Seq<MapModel>) -> bool {
    forall|i: int, j: int|
        0 <= i < j < ms.len() ==> !key_lt(#[trigger] ms[j], #[trigger] ms[i])
}

/// Every mapping's range stays within the address space.
pub open spec fn bounded(ms: Seq<MapModel>) -> bool {
    forall|i: int| 0 <= i < ms.len() ==> (#[trigger] ms[i]).base + ms[i].size <= usize::MAX
}

/// Resolution: the position of the mapping that services address `i`, if any.
///
/// Mappings are scanned from the back of the index; with the storage order
/// this visits all mapping starts at most `i` in descending order, each
/// base's mappings narrowest first, and picks the first whose range covers
/// `i`, letting a higher-based or narrower mapping shadow part of a wider
/// one below it.
pub open spec fn resolve(ms: Seq<MapModel>, i: usize) -> Option<int>
    decreases ms.len(),
{
    if ms.len() == 0 {
        None
    } else if contains_at(ms[ms.len() - 1], i) {
        Some(ms.len() - 1)
    } else {
        resolve(ms.drop_last(), i)
    }
}

/// What resolution returns: the hindmost covering mapping.
pub proof fn lemma_resolve(ms: Seq<MapModel>, i: usize)
    ensures
        match resolve(ms, i) {
            Some(j) => 0 <= j < ms.len() && contains_at(ms[j], i) && (forall|k: int|
                j < k < ms.len() ==> !contains_at(#[trigger] ms[k], i)),
            None => forall|k: int| 0 <= k < ms.len() ==> !contains_at(#[trigger] ms[k], i),
        },
    decreases ms.len(),
{
    if ms.len() > 0 && !contains_at(ms[ms.len() - 1], i) {
        lemma_resolve(ms.drop_last(), i);
        assert(forall|k: int|
            0 <= k < ms.len() - 1 ==> ms.drop_last()[k] == #[trigger] ms[k]);
    }
}

/// The index after a new mapping is added: the new mapping stands before
/// the first mapping it does not come strictly after in storage order, so
/// mappings sharing its base and size keep their seniority.
pub open spec fn insert_at(ms: Seq<MapModel>, m: MapModel) -> Seq<MapModel>
    decreases ms.len(),
{
    if ms.len() == 0 {
        seq![m]
    } else if key_lt(ms[0], m) {
        seq![ms[0]] + insert_at(ms.drop_first(), m)
    } else {
        seq![m] + ms
    }
}

/// Where the new mapping lands: at the first position whose mapping is not
/// strictly before it.
pub proof fn lemma_insert_at(ms: Seq<MapModel>, m: MapModel, q: int)
    requires
        0 <= q <= ms.len(),
        forall|k: int| 0 <= k < q ==> key_lt(#[trigger] ms[k], m),
        q < ms.len() ==> !key_lt(ms[q], m),
    ensures
        insert_at(ms, m) == ms.insert(q, m),
    decreases ms.len(),
{
    if ms.len() == 0 {
        assert(insert_at(ms, m) =~= ms.insert(q, m));
    } else if q == 0 {
        assert(insert_at(ms, m) =~= ms.insert(0, m));
    } else {
        lemma_insert_at(ms.drop_first(), m, q - 1);
        assert(forall|k: int| 1 <= k < ms.len() ==> ms.drop_first()[k - 1] == #[trigger] ms[k]);
        assert(insert_at(ms, m) =~= ms.insert(q, m));
    }
}

/// Adding a mapping in storage order keeps the index sorted and in bounds,
/// and its devices well-formed.
pub proof fn lemma_insert_at_wf(ms: Seq<MapModel>, m: MapModel)
    requires
        ordered(ms),
        bounded(ms),
        maps_wf(ms),
        m.base + m.size <= usize::MAX,
        wf(m.entry),
    ensures
        ordered(insert_at(ms, m)),
        bounded(insert_at(ms, m)),
        maps_wf(insert_at(ms, m)),
        insert_at(ms, m).len() == ms.len() + 1,
{
    lemma_maps_wf(ms);
    let q = lemma_insert_spot(ms, m, 0);
    lemma_insert_at(ms, m, q);
    let r = ms.insert(q, m);
    assert(ordered(r)) by {
        assert(forall|k: int| 0 <= k < q ==> r[k] == #[trigger] ms[k]);
        assert(forall|k: int| q < k < r.len() ==> r[k] == #[trigger] ms[k - 1]);
        assert(r[q] == m);
        assert(forall|i: int, j: int|
            q < i < j < r.len() ==> !key_lt(#[trigger] r[j], #[trigger] r[i]));
    }
    assert(bounded(r)) by {
        assert(forall|k: int| 0 <= k < q ==> r[k] == #[trigger] ms[k]);
        assert(forall|k: int| q < k < r.len() ==> r[k] == #[trigger] ms[k - 1]);
    }
    assert(maps_wf(r)) by {
        lemma_maps_wf(r);
        assert(forall|k: int| 0 <= k < q ==> r[k] == #[trigger] ms[k]);
        assert(forall|k: int| q < k < r.len() ==> r[k] == #[trigger] ms[k - 1]);
    }
}

/// The spot that the insertion order picks, searching upward from `q`.
proof fn lemma_insert_spot(ms: Seq<MapModel>, m: MapModel, q: int) -> (p: int)
    requires
        0 <= q <= ms.len(),
        forall|k: int| 0 <= k < q ==> key_lt(#[trigger] ms[k], m),
    ensures
        0 <= p <= ms.len(),
        forall|k: int| 0 <= k < p ==> key_lt(#[trigger] ms[k], m),
        p < ms.len() ==> !key_lt(ms[p], m),
    decreases ms.len() - q,
{
    if q == ms.len() {
        q
    } else if !key_lt(ms[q], m) {
        q
    } else {
        lemma_insert_spot(ms, m, q + 1)
    }
}

/// The position of the first mapping whose device is `e`, if any.
pub open spec fn find_entry(ms: Seq<MapModel>, e: Space) -> Option<int>
    decreases ms.len(),
{
    if ms.len() == 0 {
        None
    } else if ms[0].entry == e {
        Some(0)
    } else {
        match find_entry(ms.drop_first(), e) {
            Some(j) => Some(j + 1),
            None => None,
        }
    }
}

/// What the search finds: the first mapping carrying the device.
pub proof fn lemma_find_entry(ms: Seq<MapModel>, e: Space)
    ensures
        match find_entry(ms, e) {
            Some(j) => 0 <= j < ms.len() && ms[j].entry == e && (forall|k: int|
                0 <= k < j ==> (#[trigger] ms[k]).entry != e),
            None => forall|k: int| 0 <= k < ms.len() ==> (#[trigger] ms[k]).entry != e,
        },
    decreases ms.len(),
{
    if ms.len() > 0 && ms[0].entry != e {
        lemma_find_entry(ms.drop_first(), e);
        assert(forall|k: int| 1 <= k < ms.len() ==> ms.drop_first()[k - 1] == #[trigger] ms[k]);
    }
}

/// A mapping carrying the device, before which none does, is what the
/// search finds.
pub proof fn lemma_find_entry_at(ms: Seq<MapModel>, e: Space, j: int)
    requires
        0 <= j < ms.len(),
        ms[j].entry == e,
        forall|k: int| 0 <= k < j ==> (#[trigger] ms[k]).entry != e,
    ensures
        find_entry(ms, e) == Some(j),
    decreases ms.len(),
{
    if j > 0 {
        lemma_find_entry_at(ms.drop_first(), e, j - 1);
        assert(forall|k: int| 1 <= k < ms.len() ==> ms.drop_first()[k - 1] == #[trigger] ms[k]);
        assert(ms.drop_first()[j - 1] == ms[j]);
    }
}

/// Resolution precedence: of two mappings where the second nests inside the
/// first, every address the nested one covers resolves to it, and every
/// other address of the wider one resolves to the wider one.
pub proof fn lemma_resolution_precedence(a: MapModel, b: MapModel, i: usize)
    requires
        a.base < b.base,
        b.base + b.size <= a.base + a.size,
    ensures
        b.base <= i < b.base + b.size ==> resolve(seq![a, b], i) == Some(1int),
        (a.base <= i < a.base + a.size && !(b.base <= i < b.base + b.size)) ==> resolve(
            seq![a, b],
            i,
        ) == Some(0int),
{
    reveal_with_fuel(resolve, 3);
    let ms = seq![a, b];
    assert(ms.drop_last() =~= seq![a]);
    assert(seq![a].drop_last() =~= Seq::<MapModel>::empty());
}

/// Same-base tie-break: of two mappings sharing a base, every address the
/// narrower one covers resolves to the narrower one, and every address only
/// the wider one covers resolves to the wider one.
pub proof fn lemma_same_base_tie_break(a: MapModel, b: MapModel, i: usize)
    requires
        a.base == b.base,
        b.size < a.size,
    ensures
        b.base <= i < b.base + b.size ==> resolve(seq![a, b], i) == Some(1int),
        (a.base <= i < a.base + a.size && !(b.base <= i < b.base + b.size)) ==> resolve(
            seq![a, b],
            i,
        ) == Some(0int),
{
    reveal_with_fuel(resolve, 3);
    let ms = seq![a, b];
    assert(ms.drop_last() =~= seq![a]);
    assert(seq![a].drop_last() =~= Seq::<MapModel>::empty());
}

/// Unmap idempotence: once the only mapping of a device is removed, a second
/// search finds nothing, and an address resolving at all now resolves to a
/// mapping that covers it and carries some other device.
pub proof fn lemma_unmap_idempotent(ms: Seq<MapModel>, e: Space, j: int, i: usize)
    requires
        find_entry(ms, e) == Some(j),
        forall|k: int| 0 <= k < ms.len() && k != j ==> (#[trigger] ms[k]).entry != e,
    ensures
        find_entry(ms.remove(j), e) is None,
        resolve(ms.remove(j), i) matches Some(k) ==> 0 <= k < ms.remove(j).len() && ms.remove(
            j,
        )[k].entry != e && contains_at(ms.remove(j)[k], i),
{
    lemma_find_entry(ms, e);
    assert(forall|k: int| 0 <= k < j ==> ms.remove(j)[k] == #[trigger] ms[k]);
    assert(forall|k: int| j <= k < ms.len() - 1 ==> ms.remove(j)[k] == #[trigger] ms[k + 1]);
    lemma_find_entry(ms.remove(j), e);
    lemma_resolve(ms.remove(j), i);
}

/// The greatest end (one past the last covered address) among the mappings.
pub open spec fn max_end(ms: Seq<MapModel>) -> int
    decreases ms.len(),
{
    if ms.len() == 0 {
        0
    } else {
        let rest = max_end(ms.drop_last());
        let last = ms[ms.len() - 1].base + ms[ms.len() - 1].size;
        if last > rest {
            last
        } else {
            rest
        }
    }
}

/// No mapping ends past the greatest end.
pub proof fn lemma_max_end(ms: Seq<MapModel>)
    ensures
        forall|k: int|
            0 <= k < ms.len() ==> (#[trigger] ms[k]).base + ms[k].size <= max_end(ms),
        ms.len() > 0 ==> max_end(ms) >= 0,
    decreases ms.len(),
{
    if ms.len() > 0 {
        lemma_max_end(ms.drop_last());
        assert(forall|k: int| 0 <= k < ms.len() - 1 ==> ms.drop_last()[k] == #[trigger] ms[k]);
    }
}

/// The span of the index: from the lowest mapped base to the greatest end.
pub open spec fn span(ms: Seq<MapModel>) -> int {
    if ms.len() == 0 {
        0
    } else {
        max_end(ms) - ms[0].base
    }
}

/// Ordered collection of mappings, held sorted in storage order.
#[derive(Debug)]
pub struct Maps {
    pub list: Vec<Mapping>,
}

impl View for Maps {
    type V = Seq<MapModel>;

    open spec fn view(&self) -> Seq<MapModel> {
        maps_view(self.list@)
    }
}

impl Mapping {
    /// Constructs a mapping of `dev` over the `size` addresses from `base`.
    pub fn new(base: usize, size: usize, entry: Dynamic) -> (r: Self)
        ensures
            r@ == (MapModel { base, size, entry: entry@ }),
    {
        Mapping { base, size, entry }
    }

    /// The first address the mapping covers.
    pub fn base(&self) -> (r: usize)
        ensures
            r == self@.base,
    {
        self.base
    }

    /// How many addresses the mapping covers.
    pub fn size(&self) -> (r: usize)
        ensures
            r == self@.size,
    {
        self.size
    }

    /// Whether the mapping covers address `index`.
    pub fn contains(&self, index: usize) -> (r: bool)
        ensures
            r == contains_at(self@, index),
    {
        self.base <= index && index - self.base < self.size
    }
}

impl Maps {
    /// Constructs a new, empty index.
    pub fn new() -> (r: Self)
        ensures
            r@ == Seq::<MapModel>::empty(),
    {
        Maps { list: Vec::new() }
    }

    /// Clears the index, dropping every mapping.
    pub fn clear(&mut self)
        ensures
            final(self)@ == Seq::<MapModel>::empty(),
    {
        self.list.clear();
    }

    /// The position of the mapping that resolution picks for `index`.
    #[verifier::loop_isolation(false)]
    pub fn position(&self, index: usize) -> (r: Option<usize>)
        ensures
            match r {
                Some(p) => p < self.list@.len() && resolve(self@, index) == Some(p as int),
                None => resolve(self@, index) is None,
            },
    {
        proof {
            lemma_maps_view(self.list@);
            assert(self@.take(self.list@.len() as int) =~= self@);
        }
        let mut k: usize = self.list.len();
        while k > 0
            invariant
                k <= self.list@.len(),
                resolve(self@, index) == resolve(self@.take(k as int), index),
            decreases k,
        {
            let m = &self.list[k - 1];
            if m.base <= index && index - m.base < m.size {
                proof {
                    assert(self@.take(k as int).last() == self@[k - 1]);
                }
                return Some(k - 1);
            }
            proof {
                assert(self@.take(k as int).last() == self@[k - 1]);
                assert(self@.take(k as int).drop_last() =~= self@.take(k as int - 1));
            }
            k = k - 1;
        }
        proof {
            assert(self@.take(0) =~= Seq::<MapModel>::empty());
        }
        None
    }

    /// Whether the mapping at `q` comes strictly before one keyed by `base`
    /// and `size` in storage order.
    fn before(&self, q: usize, base: usize, size: usize) -> (r: bool)
        requires
            q < self.list@.len(),
        ensures
            r == (self@[q as int].base < base
                || (self@[q as int].base == base && self@[q as int].size > size)),
    {
        proof {
            lemma_maps_view(self.list@);
        }
        let c = &self.list[q];
        c.base < base || (c.base == base && c.size > size)
    }

    /// Adds a mapping of `entry` over the `size` addresses from `base`.
    ///
    /// Mappings sharing a base are all retained; the index stays in storage
    /// order.
    #[verifier::loop_isolation(false)]
    pub fn map(&mut self, base: usize, size: usize, entry: Dynamic)
        requires
            base + size <= usize::MAX,
        ensures
            final(self)@ == insert_at(old(self)@, MapModel { base, size, entry: entry@ }),
    {
        proof {
            lemma_maps_view(self.list@);
        }
        let ghost mm = MapModel { base, size, entry: entry@ };
        let n = self.list.len();
        let mut q: usize = 0;
        while q < n && self.before(q, base, size)
            invariant
                q <= n,
                forall|k: int| 0 <= k < q ==> key_lt(#[trigger] self@[k], mm),
            decreases n - q,
        {
            q = q + 1;
        }
        proof {
            lemma_insert_at(self@, mm, q as int);
        }
        self.list.insert(q, Mapping { base, size, entry });
        proof {
            lemma_maps_view(self.list@);
            assert(self@ =~= old(self)@.insert(q as int, mm));
        }
    }

    /// Gets the mapping that resolution picks for `index`.
    pub fn get(&self, index: usize) -> (r: Option<&Mapping>)
        ensures
            match resolve(self@, index) {
                Some(j) => r is Some && (*r->0)@ == self@[j],
                None => r is None,
            },
    {
        match self.position(index) {
            Some(p) => {
                proof {
                    lemma_maps_view(self.list@);
                }
                Some(&self.list[p])
            },
            None => None,
        }
    }

    /// The mappings, in storage order.
    pub fn iter(&self) -> (r: &Vec<Mapping>)
        ensures
            r@ == self.list@,
            maps_view(r@) == self@,
    {
        &self.list
    }

    /// Finds the first mapping carrying a device equal to `entry`.
    #[verifier::loop_isolation(false)]
    pub fn find(&self, entry: &Dynamic) -> (r: Option<&Mapping>)
        ensures
            match find_entry(self@, entry@) {
                Some(j) => r is Some && (*r->0)@ == self@[j],
                None => r is None,
            },
    {
        proof {
            lemma_maps_view(self.list@);
        }
        let n = self.list.len();
        let mut i: usize = 0;
        while i < n
            invariant
                i <= n,
                forall|k: int| 0 <= k < i ==> (#[trigger] self@[k]).entry != entry@,
            decreases n - i,
        {
            let m = &self.list[i];
            if m.entry.deep_eq(entry) {
                proof {
                    lemma_find_entry_at(self@, entry@, i as int);
                }
                return Some(m);
            }
            i = i + 1;
        }
        proof {
            lemma_find_entry(self@, entry@);
        }
        None
    }

    /// Unmaps and returns the first mapping whose device equals `entry`.
    ///
    /// Returns `None`, changing nothing, if no mapping carries the device.
    #[verifier::loop_isolation(false)]
    pub fn unmap(&mut self, entry: &Dynamic) -> (r: Option<Dynamic>)
        ensures
            match find_entry(old(self)@, entry@) {
                Some(j) => r is Some && (r->0)@ == entry@ && final(self)@ == old(self)@.remove(j),
                None => r is None && final(self)@ == old(self)@,
            },
    {
        proof {
            lemma_maps_view(self.list@);
        }
        let n = self.list.len();
        let mut i: usize = 0;
        while i < n
            invariant
                i <= n,
                *self == *old(self),
                forall|k: int| 0 <= k < i ==> (#[trigger] self@[k]).entry != entry@,
            decreases n - i,
        {
            let hit = self.list[i].entry.deep_eq(entry);
            if hit {
                proof {
                    lemma_find_entry_at(self@, entry@, i as int);
                }
                let m = self.list.remove(i);
                proof {
                    lemma_maps_view(self.list@);
                    assert(self@ =~= old(self)@.remove(i as int));
                }
                return Some(m.entry);
            }
            i = i + 1;
        }
        proof {
            lemma_find_entry(self@, entry@);
        }
        None
    }

    /// The span of the index: zero when empty, else from the lowest mapped
    /// base to the greatest end among the mappings.
    #[verifier::loop_isolation(false)]
    pub fn span(&self) -> (r: usize)
        requires
            ordered(self@),
            bounded(self@),
        ensures
            r == span(self@),
    {
        proof {
            lemma_maps_view(self.list@);
            lemma_max_end(self@);
        }
        let n = self.list.len();
        if n == 0 {
            return 0;
        }
        let mut mx: usize = 0;
        let mut p: usize = 0;
        while p < n
            invariant
                p <= n,
                mx == max_end(self@.take(p as int)),
                mx <= usize::MAX,
            decreases n - p,
        {
            let c = &self.list[p];
            let e = c.base + c.size;
            if e > mx {
                mx = e;
            }
            proof {
                assert(self@.take(p as int + 1).drop_last() =~= self@.take(p as int));
                assert(self@.take(p as int + 1).last() == self@[p as int]);
            }
            p = p + 1;
        }
        proof {
            assert(self@.take(n as int) =~= self@);
        }
        mx - self.list[0].base
    }
}

} // verus!
