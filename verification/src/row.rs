use vstd::prelude::*;

use crate::level::{spec_item_at, spec_run_vacant};
use crate::messages::ErrorMessage;
use crate::product::{
    spec_max_level, spec_zones_required, ErrorMessage as ProductErrorMessage, ProductItem,
    ProductList,
};
use crate::shelf::{
    spec_levels_cap, spec_levels_items, spec_levels_occ, spec_levels_omap, spec_levels_vacant,
    Shelf,
};
use crate::zone::spec_anchor_item;

verus! {

/// A run of shelves. The counter aggregates the shelves' vacant zones and
/// the whole row's capacity stays within the machine word; `wf` states it.
#[derive(Clone, Debug)]
pub struct Row {
    pub number: usize,
    pub available_space: usize,
    pub shelves: Vec<Shelf>,
}

pub open spec fn spec_shelves_cap(ss: Seq<Shelf>) -> nat
    decreases ss.len(),
{
    if ss.len() == 0 {
        0
    } else {
        spec_shelves_cap(ss.drop_last()) + ss.last().cap()
    }
}

pub open spec fn spec_shelves_vacant(ss: Seq<Shelf>) -> nat
    decreases ss.len(),
{
    if ss.len() == 0 {
        0
    } else {
        spec_shelves_vacant(ss.drop_last()) + spec_levels_vacant(ss.last().levels@)
    }
}

/// The occupancy of the shelves, concatenated in order.
pub open spec fn spec_shelves_occ(ss: Seq<Shelf>) -> Seq<bool>
    decreases ss.len(),
{
    if ss.len() == 0 {
        Seq::empty()
    } else {
        spec_shelves_occ(ss.drop_last()) + spec_levels_occ(ss.last().levels@)
    }
}

pub open spec fn spec_shelves_omap(ss: Seq<Shelf>, zr: nat) -> Seq<u8>
    decreases ss.len(),
{
    if ss.len() == 0 {
        Seq::empty()
    } else {
        spec_shelves_omap(ss.drop_last(), zr) + spec_levels_omap(ss.last().levels@, zr)
    }
}

pub open spec fn spec_shelves_items(ss: Seq<Shelf>) -> Seq<ProductItem>
    decreases ss.len(),
{
    if ss.len() == 0 {
        Seq::empty()
    } else {
        spec_shelves_items(ss.drop_last()) + spec_levels_items(ss.last().levels@)
    }
}

/// One growth step for every aggregate over a prefix of shelves.
pub proof fn lemma_shelves_take_step(ss: Seq<Shelf>, i: int)
    requires
        0 <= i < ss.len(),
    ensures
        spec_shelves_cap(ss.take(i + 1)) == spec_shelves_cap(ss.take(i)) + ss[i].cap(),
        spec_shelves_vacant(ss.take(i + 1)) == spec_shelves_vacant(ss.take(i))
            + spec_levels_vacant(ss[i].levels@),
        spec_shelves_occ(ss.take(i + 1)) == spec_shelves_occ(ss.take(i)) + spec_levels_occ(
            ss[i].levels@,
        ),
        spec_shelves_items(ss.take(i + 1)) == spec_shelves_items(ss.take(i)) + spec_levels_items(
            ss[i].levels@,
        ),
{
    assert(ss.take(i + 1).drop_last() =~= ss.take(i));
    assert(ss.take(i + 1).last() == ss[i]);
}

pub proof fn lemma_shelves_omap_take_step(ss: Seq<Shelf>, i: int, zr: nat)
    requires
        0 <= i < ss.len(),
    ensures
        spec_shelves_omap(ss.take(i + 1), zr) == spec_shelves_omap(ss.take(i), zr)
            + spec_levels_omap(ss[i].levels@, zr),
{
    assert(ss.take(i + 1).drop_last() =~= ss.take(i));
    assert(ss.take(i + 1).last() == ss[i]);
}

/// Replacing one shelf changes the aggregates by that shelf's change alone.
pub proof fn lemma_shelves_update(ss: Seq<Shelf>, i: int, s: Shelf)
    requires
        0 <= i < ss.len(),
    ensures
        spec_shelves_cap(ss.update(i, s)) == spec_shelves_cap(ss) - ss[i].cap() + s.cap(),
        spec_shelves_vacant(ss.update(i, s)) == spec_shelves_vacant(ss) - spec_levels_vacant(
            ss[i].levels@,
        ) + spec_levels_vacant(s.levels@),
    decreases ss.len(),
{
    let updated = ss.update(i, s);
    if i == ss.len() - 1 {
        assert(updated.drop_last() =~= ss.drop_last());
    } else {
        lemma_shelves_update(ss.drop_last(), i, s);
        assert(updated.drop_last() =~= ss.drop_last().update(i, s));
    }
}

pub proof fn lemma_shelves_vacant_le_cap(ss: Seq<Shelf>)
    ensures
        spec_shelves_vacant(ss) <= spec_shelves_cap(ss),
    decreases ss.len(),
{
    if ss.len() > 0 {
        lemma_shelves_vacant_le_cap(ss.drop_last());
        crate::shelf::lemma_levels_vacant_le_cap(ss.last().levels@);
    }
}

pub proof fn lemma_shelves_cap_prefix_bound(ss: Seq<Shelf>, i: int)
    requires
        0 <= i < ss.len(),
    ensures
        spec_shelves_cap(ss.take(i + 1)) <= spec_shelves_cap(ss),
    decreases ss.len(),
{
    if i + 1 == ss.len() {
        assert(ss.take(i + 1) =~= ss);
    } else {
        lemma_shelves_cap_prefix_bound(ss.drop_last(), i);
        assert(ss.drop_last().take(i + 1) =~= ss.take(i + 1));
    }
}

/// The concatenated occupancy is as long as the capacity.
pub proof fn lemma_shelves_occ_len(ss: Seq<Shelf>)
    ensures
        spec_shelves_occ(ss).len() == spec_shelves_cap(ss),
    decreases ss.len(),
{
    if ss.len() > 0 {
        lemma_shelves_occ_len(ss.drop_last());
        crate::shelf::lemma_levels_occ_len(ss.last().levels@);
    }
}

/// The concatenated oversized maps are as long as the capacity.
pub proof fn lemma_shelves_omap_len(ss: Seq<Shelf>, zr: nat)
    requires
        zr >= 1,
    ensures
        spec_shelves_omap(ss, zr).len() == spec_shelves_cap(ss),
    decreases ss.len(),
{
    if ss.len() > 0 {
        lemma_shelves_omap_len(ss.drop_last(), zr);
        crate::shelf::lemma_levels_omap_len(ss.last().levels@, zr);
    }
}

/// How many oversized units of width `zr` the shelves can hold in all.
pub open spec fn spec_shelves_ocap(ss: Seq<Shelf>, zr: nat) -> nat
    decreases ss.len(),
{
    if ss.len() == 0 {
        0
    } else {
        spec_shelves_ocap(ss.drop_last(), zr) + crate::shelf::spec_levels_ocap(
            ss.last().levels@,
            zr,
        )
    }
}

impl Row {
    pub open spec fn cap(self) -> nat {
        spec_shelves_cap(self.shelves@)
    }

    pub open spec fn numbered(self) -> bool {
        forall|i: int|
            0 <= i < self.shelves@.len() ==> (#[trigger] self.shelves@[i].number) == i + 1
    }

    pub open spec fn wf(self) -> bool {
        &&& self.numbered()
        &&& forall|i: int| 0 <= i < self.shelves@.len() ==> (#[trigger] self.shelves@[i]).wf()
        &&& self.available_space == spec_shelves_vacant(self.shelves@)
        &&& spec_shelves_cap(self.shelves@) <= usize::MAX
    }

    pub fn new(number: usize) -> (r: Row)
        ensures
            r.number == number,
            r.available_space == 0,
            r.shelves@.len() == 0,
            r.wf(),
            r.cap() == 0,
    {
        Row { number, available_space: 0, shelves: Vec::new() }
    }

    /// Appends one shelf; its number must continue the 1-based order and the
    /// grown row must still fit the machine word.
    pub fn add_shelf(&mut self, shelf: Shelf)
        requires
            old(self).wf(),
            shelf.wf(),
            shelf.number == old(self).shelves@.len() + 1,
            old(self).cap() + shelf.cap() <= usize::MAX,
            old(self).shelves@.len() < usize::MAX,
        ensures
            final(self).wf(),
            final(self).shelves@ == old(self).shelves@.push(shelf),
            final(self).number == old(self).number,
            final(self).available_space == old(self).available_space + spec_levels_vacant(
                shelf.levels@,
            ),
            final(self).cap() == old(self).cap() + shelf.cap(),
    {
        proof {
            lemma_shelves_vacant_le_cap(self.shelves@);
            crate::shelf::lemma_levels_vacant_le_cap(shelf.levels@);
        }
        let added = shelf.available_space;
        self.available_space = self.available_space + added;
        self.shelves.push(shelf);
        proof {
            assert(self.shelves@.drop_last() =~= old(self).shelves@);
        }
    }

    pub fn initialize_shelves(
        &mut self,
        shelf_count: usize,
        level_per_shelf: usize,
        zone_per_level: usize,
    )
        requires
            old(self).wf(),
            old(self).shelves@.len() == 0,
            shelf_count < usize::MAX,
            level_per_shelf < usize::MAX,
            zone_per_level < usize::MAX,
            shelf_count * level_per_shelf * zone_per_level <= usize::MAX,
        ensures
            final(self).wf(),
            final(self).number == old(self).number,
            final(self).shelves@.len() == shelf_count,
            final(self).cap() == shelf_count * level_per_shelf * zone_per_level,
            final(self).available_space == shelf_count * level_per_shelf * zone_per_level,
            forall|s: int|
                0 <= s < shelf_count ==> (#[trigger] final(self).shelves@[s]).levels@.len()
                    == level_per_shelf,
            forall|s: int, l: int|
                0 <= s < shelf_count && 0 <= l < level_per_shelf ==> (#[trigger] final(self).shelves@[s].levels@[l]).zones@.len() == zone_per_level,
            forall|s: int, l: int, z: int|
                0 <= s < shelf_count && 0 <= l < level_per_shelf && 0 <= z < zone_per_level ==> (
                #[trigger] final(self).shelves@[s].levels@[l].zones@[z]).is_vacant(),
    {
        proof {
            assert(level_per_shelf * zone_per_level <= shelf_count * level_per_shelf
                * zone_per_level || shelf_count == 0) by (nonlinear_arith)
                requires
                    shelf_count >= 0 && level_per_shelf >= 0 && zone_per_level >= 0,
            ;
        }
        for i in 1..shelf_count + 1
            invariant
                self.wf(),
                self.number == old(self).number,
                self.shelves@.len() == i - 1,
                shelf_count < usize::MAX,
                level_per_shelf < usize::MAX,
                zone_per_level < usize::MAX,
                shelf_count * level_per_shelf * zone_per_level <= usize::MAX,
                self.cap() == (i - 1) * (level_per_shelf * zone_per_level),
                self.available_space == (i - 1) * (level_per_shelf * zone_per_level),
                forall|s: int|
                    0 <= s < i - 1 ==> (#[trigger] self.shelves@[s]).levels@.len()
                        == level_per_shelf,
                forall|s: int, l: int|
                    0 <= s < i - 1 && 0 <= l < level_per_shelf ==> (#[trigger] self.shelves@[
                    s].levels@[l]).zones@.len() == zone_per_level,
                forall|s: int, l: int, z: int|
                    0 <= s < i - 1 && 0 <= l < level_per_shelf && 0 <= z < zone_per_level ==> (
                    #[trigger] self.shelves@[s].levels@[l].zones@[z]).is_vacant(),
        {
            let mut shelf = Shelf::new(i);
            proof {
                assert(level_per_shelf * zone_per_level <= usize::MAX) by (nonlinear_arith)
                    requires
                        1 <= i <= shelf_count,
                        shelf_count * level_per_shelf * zone_per_level <= usize::MAX,
                        shelf_count >= 1 && level_per_shelf >= 0 && zone_per_level >= 0,
                ;
            }
            shelf.initialize_columns(level_per_shelf, zone_per_level);
            proof {
                assert((i - 1) * (level_per_shelf * zone_per_level) + level_per_shelf
                    * zone_per_level == i * (level_per_shelf * zone_per_level))
                    by (nonlinear_arith);
                assert(i * (level_per_shelf * zone_per_level) <= shelf_count * level_per_shelf
                    * zone_per_level) by (nonlinear_arith)
                    requires
                        1 <= i <= shelf_count,
                        level_per_shelf >= 0 && zone_per_level >= 0,
                ;
            }
            self.add_shelf(shelf);
        }
        proof {
            assert((shelf_count + 1 - 1) * (level_per_shelf * zone_per_level) == shelf_count
                * level_per_shelf * zone_per_level) by (nonlinear_arith);
        }
    }

    /// The shelf carrying the 1-based number, if it exists.
    pub fn shelf(&self, shelf_number: usize) -> (r: Option<&Shelf>)
        requires
            self.wf(),
        ensures
            match r {
                Some(s) => 1 <= shelf_number <= self.shelves@.len() && *s == self.shelves@[
                    shelf_number - 1
                ],
                None => !(1 <= shelf_number <= self.shelves@.len()),
            },
    {
        if 1 <= shelf_number && shelf_number <= self.shelves.len() {
            Some(&self.shelves[shelf_number - 1])
        } else {
            None
        }
    }

    /// The zone at (shelf, level, zone), all 1-based, if the path resolves.
    pub fn zone(&self, shelf_number: usize, level_number: usize, zone_number: usize) -> (r: Option<
        &crate::zone::Zone,
    >)
        requires
            self.wf(),
        ensures
            match r {
                Some(z) => 1 <= shelf_number <= self.shelves@.len() && 1 <= level_number
                    <= self.shelves@[shelf_number - 1].levels@.len() && 1 <= zone_number
                    <= self.shelves@[shelf_number - 1].levels@[level_number - 1].zones@.len() && *z
                    == self.shelves@[shelf_number - 1].levels@[level_number - 1].zones@[zone_number
                    - 1],
                None => !(1 <= shelf_number <= self.shelves@.len() && 1 <= level_number
                    <= self.shelves@[shelf_number - 1].levels@.len() && 1 <= zone_number
                    <= self.shelves@[shelf_number - 1].levels@[level_number - 1].zones@.len()),
            },
    {
        match self.shelf(shelf_number) {
            Some(shelf) => shelf.zone(level_number, zone_number),
            None => None,
        }
    }

    pub fn is_full(&self) -> (r: bool)
        ensures
            r == (self.available_space == 0),
    {
        self.available_space == 0
    }

    pub fn is_empty(&self) -> (r: bool)
        requires
            self.wf(),
        ensures
            r == (spec_shelves_vacant(self.shelves@) == spec_shelves_cap(self.shelves@)),
    {
        proof {
            lemma_shelves_vacant_le_cap(self.shelves@);
        }
        let mut vacant_total: usize = 0;
        let mut cap_total: usize = 0;
        let mut i: usize = 0;
        while i < self.shelves.len()
            invariant
                self.wf(),
                i <= self.shelves@.len(),
                vacant_total == spec_shelves_vacant(self.shelves@.take(i as int)),
                cap_total == spec_shelves_cap(self.shelves@.take(i as int)),
            decreases self.shelves@.len() - i,
        {
            proof {
                lemma_shelves_take_step(self.shelves@, i as int);
                lemma_shelves_cap_prefix_bound(self.shelves@, i as int);
                lemma_shelves_vacant_le_cap(self.shelves@.take(i + 1));
                crate::shelf::lemma_levels_vacant_le_cap(self.shelves@[i as int].levels@);
            }
            vacant_total = vacant_total + self.shelves[i].available_space;
            cap_total = cap_total + self.shelves[i].check_capacity();
            i = i + 1;
        }
        proof {
            assert(self.shelves@.take(self.shelves@.len() as int) =~= self.shelves@);
        }
        vacant_total == cap_total
    }

    #[verifier::loop_isolation(false)]
    pub fn check_capacity(&self) -> (r: usize)
        requires
            self.wf(),
        ensures
            r == self.cap(),
    {
        let mut total: usize = 0;
        let mut i: usize = 0;
        while i < self.shelves.len()
            invariant
                total == spec_shelves_cap(self.shelves@.take(i as int)),
                i <= self.shelves@.len(),
            decreases self.shelves@.len() - i,
        {
            proof {
                lemma_shelves_take_step(self.shelves@, i as int);
                lemma_shelves_cap_prefix_bound(self.shelves@, i as int);
            }
            total = total + self.shelves[i].check_capacity();
            i = i + 1;
        }
        proof {
            assert(self.shelves@.take(self.shelves@.len() as int) =~= self.shelves@);
        }
        total
    }

    #[verifier::loop_isolation(false)]
    pub fn check_oversized_capacity(&self, zones_required: usize) -> (r: usize)
        requires
            self.wf(),
            zones_required >= 1,
        ensures
            r == spec_shelves_ocap(self.shelves@, zones_required as nat),
    {
        let mut total: usize = 0;
        let mut i: usize = 0;
        while i < self.shelves.len()
            invariant
                total == spec_shelves_ocap(self.shelves@.take(i as int), zones_required as nat),
                total <= spec_shelves_cap(self.shelves@.take(i as int)),
                i <= self.shelves@.len(),
            decreases self.shelves@.len() - i,
        {
            proof {
                assert(self.shelves@.take(i + 1).drop_last() =~= self.shelves@.take(i as int));
                lemma_shelves_take_step(self.shelves@, i as int);
                lemma_shelves_cap_prefix_bound(self.shelves@, i as int);
                crate::shelf::lemma_levels_ocap_le_cap(
                    self.shelves@[i as int].levels@,
                    zones_required as nat,
                );
            }
            total = total + self.shelves[i].check_oversized_capacity(zones_required);
            i = i + 1;
        }
        proof {
            assert(self.shelves@.take(self.shelves@.len() as int) =~= self.shelves@);
        }
        total
    }

    /// The occupancy of the whole row, shelf after shelf.
    #[verifier::loop_isolation(false)]
    pub fn flat_map(&self) -> (r: Vec<bool>)
        requires
            self.wf(),
        ensures
            r@ == spec_shelves_occ(self.shelves@),
    {
        let mut out: Vec<bool> = Vec::new();
        let mut i: usize = 0;
        proof {
            assert(self.shelves@.take(0) =~= Seq::<Shelf>::empty());
        }
        while i < self.shelves.len()
            invariant
                out@ == spec_shelves_occ(self.shelves@.take(i as int)),
                i <= self.shelves@.len(),
            decreases self.shelves@.len() - i,
        {
            proof {
                lemma_shelves_take_step(self.shelves@, i as int);
            }
            let mut part = self.shelves[i].flat_map();
            out.append(&mut part);
            i = i + 1;
        }
        proof {
            assert(self.shelves@.take(self.shelves@.len() as int) =~= self.shelves@);
        }
        out
    }

    /// The oversized occupancy of the whole row, shelf after shelf.
    #[verifier::loop_isolation(false)]
    pub fn oversized_flat_map(&self, zones_required: usize) -> (r: Vec<u8>)
        requires
            self.wf(),
            zones_required >= 1,
        ensures
            r@ == spec_shelves_omap(self.shelves@, zones_required as nat),
    {
        let mut out: Vec<u8> = Vec::new();
        let mut i: usize = 0;
        proof {
            assert(self.shelves@.take(0) =~= Seq::<Shelf>::empty());
        }
        while i < self.shelves.len()
            invariant
                out@ == spec_shelves_omap(self.shelves@.take(i as int), zones_required as nat),
                i <= self.shelves@.len(),
            decreases self.shelves@.len() - i,
        {
            proof {
                lemma_shelves_omap_take_step(self.shelves@, i as int, zones_required as nat);
            }
            let mut part = self.shelves[i].oversized_flat_map(zones_required);
            out.append(&mut part);
            i = i + 1;
        }
        proof {
            assert(self.shelves@.take(self.shelves@.len() as int) =~= self.shelves@);
        }
        out
    }

    /// The anchor items of the whole row, shelf after shelf.
    #[verifier::loop_isolation(false)]
    pub fn items(&self) -> (r: Vec<ProductItem>)
        requires
            self.wf(),
        ensures
            r@ == spec_shelves_items(self.shelves@),
    {
        let mut out: Vec<ProductItem> = Vec::new();
        let mut i: usize = 0;
        proof {
            assert(self.shelves@.take(0) =~= Seq::<Shelf>::empty());
        }
        while i < self.shelves.len()
            invariant
                out@ == spec_shelves_items(self.shelves@.take(i as int)),
                i <= self.shelves@.len(),
            decreases self.shelves@.len() - i,
        {
            proof {
                lemma_shelves_take_step(self.shelves@, i as int);
            }
            let mut part = self.shelves[i].items();
            out.append(&mut part);
            i = i + 1;
        }
        proof {
            assert(self.shelves@.take(self.shelves@.len() as int) =~= self.shelves@);
        }
        out
    }

    /// Whether some anchor in this row carries the product id.
    pub fn contains_product(&self, product_id: u64) -> (r: bool)
        requires
            self.wf(),
        ensures
            r == exists|s: int, i: int, j: int|
                0 <= s < self.shelves@.len() && 0 <= i < (#[trigger] self.shelves@[s]).levels@.len()
                    && 0 <= j < (#[trigger] self.shelves@[s].levels@[i]).zones@.len() && (
                spec_anchor_item(#[trigger] self.shelves@[s].levels@[i].zones@[j]) matches Some(it)
                    && it.id == product_id),
    {
        let mut s: usize = 0;
        while s < self.shelves.len()
            invariant
                self.wf(),
                s <= self.shelves@.len(),
                forall|a: int, i: int, j: int|
                    0 <= a < s && 0 <= i < (#[trigger] self.shelves@[a]).levels@.len() && 0 <= j < (
                    #[trigger] self.shelves@[a].levels@[i]).zones@.len() ==> !(spec_anchor_item(
                        #[trigger] self.shelves@[a].levels@[i].zones@[j],
                    ) matches Some(it) && it.id == product_id),
            decreases self.shelves@.len() - s,
        {
            if self.shelves[s].contains_product(product_id) {
                return true;
            }
            s = s + 1;
        }
        false
    }

    /// Stores a single-zone unit at (shelf, level, zone), all 1-based.
    pub fn add_item(
        &mut self,
        shelf_number: usize,
        level_number: usize,
        zone_number: usize,
        item: ProductItem,
    ) -> (r: Result<(), ErrorMessage>)
        requires
            old(self).wf(),
            item.zones_required == 1,
        ensures
            final(self).wf(),
            final(self).number == old(self).number,
            final(self).cap() == old(self).cap(),
            final(self).shelves@.len() == old(self).shelves@.len(),
            r is Err ==> *final(self) == *old(self),
            !(1 <= shelf_number <= old(self).shelves@.len()) ==> r == Err::<(), ErrorMessage>(
                ErrorMessage::ShelfNotFound,
            ),
            1 <= shelf_number <= old(self).shelves@.len() ==> {
                let sh = old(self).shelves@[shelf_number - 1];
                if !(1 <= level_number <= sh.levels@.len()) {
                    r == Err::<(), ErrorMessage>(ErrorMessage::LevelNotFound)
                } else {
                    let lvl = sh.levels@[level_number - 1];
                    if !(1 <= zone_number <= lvl.zones@.len()) {
                        r == Err::<(), ErrorMessage>(ErrorMessage::ZoneNotFound)
                    } else if !lvl.zones@[zone_number - 1].is_vacant() {
                        r == Err::<(), ErrorMessage>(ErrorMessage::ZoneOccupied)
                    } else {
                        &&& r is Ok
                        &&& final(self).available_space == old(self).available_space - 1
                        &&& final(self).shelves@ == old(self).shelves@.update(
                            shelf_number - 1,
                            final(self).shelves@[shelf_number - 1],
                        )
                        &&& final(self).shelves@[shelf_number - 1].levels@ == sh.levels@.update(
                            level_number - 1,
                            final(self).shelves@[shelf_number - 1].levels@[level_number - 1],
                        )
                        &&& final(self).shelves@[shelf_number - 1].levels@[level_number
                            - 1].zones@ == lvl.zones@.update(
                            zone_number - 1,
                            (crate::zone::Zone {
                                number: zone_number,
                                item: Some(crate::zone::ItemPart::WholeProduct(item)),
                            }),
                        )
                        &&& final(self).shelves@[shelf_number - 1].available_space
                            == sh.available_space - 1
                        &&& final(self).shelves@[shelf_number - 1].levels@[level_number
                            - 1].available_space == lvl.available_space - 1
                    }
                }
            },
    {
        if shelf_number < 1 || shelf_number > self.shelves.len() {
            return Err(ErrorMessage::ShelfNotFound);
        }
        let idx = shelf_number - 1;
        if level_number < 1 || level_number > self.shelves[idx].levels.len() {
            return Err(ErrorMessage::LevelNotFound);
        }
        let lidx = level_number - 1;
        if zone_number < 1 || zone_number > self.shelves[idx].levels[lidx].zones.len() {
            return Err(ErrorMessage::ZoneNotFound);
        }
        if !self.shelves[idx].levels[lidx].zones[zone_number - 1].is_empty() {
            return Err(ErrorMessage::ZoneOccupied);
        }
        let shelf = &mut self.shelves[idx];
        let outcome = shelf.add_item(level_number, zone_number, item);
        match outcome {
            Ok(()) => {
                proof {
                    lemma_shelves_update(old(self).shelves@, idx as int, self.shelves@[idx as int]);
                    assert(self.shelves@ =~= old(self).shelves@.update(
                        idx as int,
                        self.shelves@[idx as int],
                    ));
                }
                self.available_space = self.available_space - 1;
                Ok(())
            },
            Err(e) => {
                proof {
                    assert(false);
                }
                Err(e)
            },
        }
    }

    /// Clears a single-zone unit at (shelf, level, zone), all 1-based.
    pub fn remove_item(
        &mut self,
        shelf_number: usize,
        level_number: usize,
        zone_number: usize,
    ) -> (r: Result<(), ErrorMessage>)
        requires
            old(self).wf(),
        ensures
            final(self).wf(),
            final(self).number == old(self).number,
            final(self).cap() == old(self).cap(),
            final(self).shelves@.len() == old(self).shelves@.len(),
            r is Err ==> *final(self) == *old(self),
            !(1 <= shelf_number <= old(self).shelves@.len()) ==> r == Err::<(), ErrorMessage>(
                ErrorMessage::ShelfNotFound,
            ),
            1 <= shelf_number <= old(self).shelves@.len() ==> {
                let sh = old(self).shelves@[shelf_number - 1];
                if !(1 <= level_number <= sh.levels@.len()) {
                    r == Err::<(), ErrorMessage>(ErrorMessage::LevelNotFound)
                } else {
                    let lvl = sh.levels@[level_number - 1];
                    if !(1 <= zone_number <= lvl.zones@.len()) {
                        r == Err::<(), ErrorMessage>(ErrorMessage::ZoneNotFound)
                    } else {
                        match lvl.zones@[zone_number - 1].item {
                            None => r == Err::<(), ErrorMessage>(ErrorMessage::ZoneEmpty),
                            Some(crate::zone::ItemPart::WholeProduct(_)) => {
                                &&& r is Ok
                                &&& final(self).available_space == old(self).available_space + 1
                                &&& final(self).shelves@ == old(self).shelves@.update(
                                    shelf_number - 1,
                                    final(self).shelves@[shelf_number - 1],
                                )
                                &&& final(self).shelves@[shelf_number - 1].levels@
                                    == sh.levels@.update(
                                    level_number - 1,
                                    final(self).shelves@[shelf_number - 1].levels@[level_number
                                        - 1],
                                )
                                &&& final(self).shelves@[shelf_number - 1].levels@[level_number
                                    - 1].zones@ == lvl.zones@.update(
                                    zone_number - 1,
                                    (crate::zone::Zone { number: zone_number, item: None }),
                                )
                                &&& final(self).shelves@[shelf_number - 1].available_space
                                    == sh.available_space + 1
                                &&& final(self).shelves@[shelf_number - 1].levels@[level_number
                                    - 1].available_space == lvl.available_space + 1
                            },
                            Some(_) => r == Err::<(), ErrorMessage>(ErrorMessage::CannotRemovePart),
                        }
                    }
                }
            },
    {
        if shelf_number < 1 || shelf_number > self.shelves.len() {
            return Err(ErrorMessage::ShelfNotFound);
        }
        let idx = shelf_number - 1;
        if level_number < 1 || level_number > self.shelves[idx].levels.len() {
            return Err(ErrorMessage::LevelNotFound);
        }
        let lidx = level_number - 1;
        if zone_number < 1 || zone_number > self.shelves[idx].levels[lidx].zones.len() {
            return Err(ErrorMessage::ZoneNotFound);
        }
        match self.shelves[idx].levels[lidx].zones[zone_number - 1].item {
            None => {
                return Err(ErrorMessage::ZoneEmpty);
            },
            Some(crate::zone::ItemPart::WholeProduct(_)) => {},
            Some(_) => {
                return Err(ErrorMessage::CannotRemovePart);
            },
        }
        let shelf = &mut self.shelves[idx];
        let outcome = shelf.remove_item(level_number, zone_number);
        match outcome {
            Ok(()) => {
                proof {
                    lemma_shelves_update(old(self).shelves@, idx as int, self.shelves@[idx as int]);
                    lemma_shelves_vacant_le_cap(self.shelves@);
                    assert(self.shelves@ =~= old(self).shelves@.update(
                        idx as int,
                        self.shelves@[idx as int],
                    ));
                }
                self.available_space = self.available_space + 1;
                Ok(())
            },
            Err(e) => {
                proof {
                    assert(false);
                }
                Err(e)
            },
        }
    }

    /// Lays an oversized unit down inside one level of one shelf.
    pub fn add_oversized_item(
        &mut self,
        shelf_number: usize,
        level_number: usize,
        zone_number: usize,
        item: ProductItem,
    ) -> (r: Result<(), ErrorMessage>)
        requires
            old(self).wf(),
            item.zones_required >= 2,
        ensures
            final(self).wf(),
            final(self).number == old(self).number,
            final(self).cap() == old(self).cap(),
            final(self).shelves@.len() == old(self).shelves@.len(),
            r is Err ==> *final(self) == *old(self),
            !(1 <= shelf_number <= old(self).shelves@.len()) ==> r == Err::<(), ErrorMessage>(
                ErrorMessage::ShelfNotFound,
            ),
            1 <= shelf_number <= old(self).shelves@.len() ==> {
                let sh = old(self).shelves@[shelf_number - 1];
                if !(1 <= level_number <= sh.levels@.len()) {
                    r == Err::<(), ErrorMessage>(ErrorMessage::LevelNotFound)
                } else {
                    let lvl = sh.levels@[level_number - 1];
                    if !(1 <= zone_number <= lvl.zones@.len()) {
                        r == Err::<(), ErrorMessage>(ErrorMessage::ZoneNotFound)
                    } else if zone_number - 1 + item.zones_required > lvl.zones@.len() {
                        r == Err::<(), ErrorMessage>(ErrorMessage::InsufficientSpace)
                    } else if !spec_run_vacant(
                        lvl.zones@,
                        zone_number - 1,
                        item.zones_required as int,
                    ) {
                        r == Err::<(), ErrorMessage>(ErrorMessage::ZoneOccupied)
                    } else {
                        &&& r is Ok
                        &&& final(self).available_space == old(self).available_space
                            - item.zones_required
                        &&& final(self).shelves@ == old(self).shelves@.update(
                            shelf_number - 1,
                            final(self).shelves@[shelf_number - 1],
                        )
                        &&& final(self).shelves@[shelf_number - 1].levels@ == sh.levels@.update(
                            level_number - 1,
                            final(self).shelves@[shelf_number - 1].levels@[level_number - 1],
                        )
                        &&& final(self).shelves@[shelf_number - 1].levels@[level_number
                            - 1].zones@.len() == lvl.zones@.len()
                        &&& final(self).shelves@[shelf_number - 1].levels@[level_number
                            - 1].zones@[zone_number - 1].item == Some(
                            crate::zone::ItemPart::ProductStart(
                                item,
                                (zone_number + item.zones_required - 1) as usize,
                            ),
                        )
                        &&& final(self).shelves@[shelf_number - 1].available_space
                            == sh.available_space - item.zones_required
                        &&& final(self).shelves@[shelf_number - 1].levels@[level_number
                            - 1].available_space == lvl.available_space - item.zones_required
                        &&& forall|j: int|
                            0 <= j < lvl.zones@.len() && !(zone_number - 1 <= j <= zone_number - 1
                                + item.zones_required - 1) ==> (#[trigger] final(self).shelves@[shelf_number - 1].levels@[level_number - 1].zones@[j])
                                == lvl.zones@[j]
                    }
                }
            },
    {
        if shelf_number < 1 || shelf_number > self.shelves.len() {
            return Err(ErrorMessage::ShelfNotFound);
        }
        let idx = shelf_number - 1;
        if level_number < 1 || level_number > self.shelves[idx].levels.len() {
            return Err(ErrorMessage::LevelNotFound);
        }
        let lidx = level_number - 1;
        let zones_required = item.zones_required;
        match self.shelves[idx].levels[lidx].check_if_fits(zone_number, zones_required) {
            Ok(()) => {},
            Err(e) => {
                return Err(e);
            },
        }
        let shelf = &mut self.shelves[idx];
        let outcome = shelf.add_oversized_item(level_number, zone_number, item);
        match outcome {
            Ok(()) => {
                proof {
                    lemma_shelves_update(old(self).shelves@, idx as int, self.shelves@[idx as int]);
                    assert(self.shelves@ =~= old(self).shelves@.update(
                        idx as int,
                        self.shelves@[idx as int],
                    ));
                }
                self.available_space = self.available_space - zones_required;
                Ok(())
            },
            Err(e) => {
                proof {
                    assert(false);
                }
                Err(e)
            },
        }
    }

    /// Clears the whole span anchored at (shelf, level, zone), all 1-based.
    pub fn remove_oversized_item(
        &mut self,
        shelf_number: usize,
        level_number: usize,
        zone_number: usize,
    ) -> (r: Result<(), ErrorMessage>)
        requires
            old(self).wf(),
        ensures
            final(self).wf(),
            final(self).number == old(self).number,
            final(self).cap() == old(self).cap(),
            final(self).shelves@.len() == old(self).shelves@.len(),
            r is Err ==> *final(self) == *old(self),
            !(1 <= shelf_number <= old(self).shelves@.len()) ==> r == Err::<(), ErrorMessage>(
                ErrorMessage::ShelfNotFound,
            ),
            1 <= shelf_number <= old(self).shelves@.len() ==> {
                let sh = old(self).shelves@[shelf_number - 1];
                if !(1 <= level_number <= sh.levels@.len()) {
                    r == Err::<(), ErrorMessage>(ErrorMessage::LevelNotFound)
                } else {
                    let lvl = sh.levels@[level_number - 1];
                    if !(1 <= zone_number <= lvl.zones@.len()) {
                        r == Err::<(), ErrorMessage>(ErrorMessage::ZoneNotFound)
                    } else if lvl.zones@[zone_number - 1].item is None {
                        r == Err::<(), ErrorMessage>(ErrorMessage::ZoneEmpty)
                    } else if !(lvl.zones@[zone_number - 1].item matches Some(
                        crate::zone::ItemPart::ProductStart(_, _),
                    )) {
                        r == Err::<(), ErrorMessage>(ErrorMessage::NotProductStart)
                    } else {
                        let end = crate::level::spec_span_end(lvl.zones@, zone_number as int);
                        &&& r is Ok
                        &&& final(self).available_space == old(self).available_space + (end
                            - zone_number + 1)
                        &&& final(self).shelves@ == old(self).shelves@.update(
                            shelf_number - 1,
                            final(self).shelves@[shelf_number - 1],
                        )
                        &&& final(self).shelves@[shelf_number - 1].levels@ == sh.levels@.update(
                            level_number - 1,
                            final(self).shelves@[shelf_number - 1].levels@[level_number - 1],
                        )
                        &&& final(self).shelves@[shelf_number - 1].levels@[level_number
                            - 1].zones@.len() == lvl.zones@.len()
                        &&& final(self).shelves@[shelf_number - 1].available_space
                            == sh.available_space + (end - zone_number + 1)
                        &&& final(self).shelves@[shelf_number - 1].levels@[level_number
                            - 1].available_space == lvl.available_space + (end - zone_number + 1)
                        &&& forall|j: int|
                            zone_number - 1 <= j <= end - 1 ==> (#[trigger] final(self).shelves@[shelf_number - 1].levels@[level_number - 1].zones@[j]).item
                                is None
                        &&& forall|j: int|
                            0 <= j < lvl.zones@.len() && !(zone_number - 1 <= j <= end - 1) ==> (
                            #[trigger] final(self).shelves@[shelf_number - 1].levels@[level_number
                                - 1].zones@[j]) == lvl.zones@[j]
                    }
                }
            },
    {
        if shelf_number < 1 || shelf_number > self.shelves.len() {
            return Err(ErrorMessage::ShelfNotFound);
        }
        let idx = shelf_number - 1;
        if level_number < 1 || level_number > self.shelves[idx].levels.len() {
            return Err(ErrorMessage::LevelNotFound);
        }
        let lidx = level_number - 1;
        if zone_number < 1 || zone_number > self.shelves[idx].levels[lidx].zones.len() {
            return Err(ErrorMessage::ZoneNotFound);
        }
        match self.shelves[idx].levels[lidx].zones[zone_number - 1].item {
            Some(crate::zone::ItemPart::ProductStart(_, _)) => {},
            None => {
                return Err(ErrorMessage::ZoneEmpty);
            },
            Some(_) => {
                return Err(ErrorMessage::NotProductStart);
            },
        }
        proof {
            assert(crate::level::spec_span_ok_at(
                self.shelves@[idx as int].levels@[lidx as int].zones@,
                zone_number - 1,
            ));
        }
        let shelf = &mut self.shelves[idx];
        let before_space = shelf.available_space;
        let outcome = shelf.remove_oversized_item(level_number, zone_number);
        match outcome {
            Ok(()) => {
                let after_space = self.shelves[idx].available_space;
                let freed = after_space - before_space;
                proof {
                    lemma_shelves_update(old(self).shelves@, idx as int, self.shelves@[idx as int]);
                    lemma_shelves_vacant_le_cap(self.shelves@);
                    assert(self.shelves@ =~= old(self).shelves@.update(
                        idx as int,
                        self.shelves@[idx as int],
                    ));
                }
                self.available_space = self.available_space + freed;
                Ok(())
            },
            Err(e) => {
                proof {
                    assert(false);
                }
                Err(e)
            },
        }
    }

    /// The item that (shelf, level, zone) resolves to.
    pub fn item(&self, shelf_number: usize, level_number: usize, zone_number: usize) -> (r: Option<
        &ProductItem,
    >)
        requires
            self.wf(),
        ensures
            match r {
                Some(it) => 1 <= shelf_number <= self.shelves@.len() && 1 <= level_number
                    <= self.shelves@[shelf_number - 1].levels@.len() && spec_item_at(
                    self.shelves@[shelf_number - 1].levels@[level_number - 1].zones@,
                    zone_number as int,
                ) == Some(*it),
                None => !(1 <= shelf_number <= self.shelves@.len()) || !(1 <= level_number
                    <= self.shelves@[shelf_number - 1].levels@.len()) || spec_item_at(
                    self.shelves@[shelf_number - 1].levels@[level_number - 1].zones@,
                    zone_number as int,
                ) is None,
            },
    {
        match self.shelf(shelf_number) {
            Some(shelf) => shelf.item(level_number, zone_number),
            None => None,
        }
    }
}

impl Row {
    /// Translates a 0-based position in this row's flat map back into
    /// 1-based (shelf, level, zone) by walking cumulative capacities.
    #[verifier::loop_isolation(false)]
    pub fn flat_map_position_to_zone(&self, position: usize) -> (r: Option<(usize, usize, usize)>)
        requires
            self.wf(),
        ensures
            match r {
                Some(found) => 1 <= found.0 <= self.shelves@.len() && 1 <= found.1 <= self.shelves@[
                    found.0 - 1
                ].levels@.len() && 1 <= found.2 <= self.shelves@[found.0 - 1].levels@[found.1
                    - 1].cap() && position == spec_shelves_cap(self.shelves@.take(found.0 - 1))
                    + spec_levels_cap(self.shelves@[found.0 - 1].levels@.take(found.1 - 1)) + (
                found.2 - 1),
                None => position >= self.cap(),
            },
    {
        let mut cumulative: usize = 0;
        let mut i: usize = 0;
        while i < self.shelves.len()
            invariant
                cumulative == spec_shelves_cap(self.shelves@.take(i as int)),
                i <= self.shelves@.len(),
                position >= cumulative,
            decreases self.shelves@.len() - i,
        {
            proof {
                lemma_shelves_take_step(self.shelves@, i as int);
                lemma_shelves_cap_prefix_bound(self.shelves@, i as int);
            }
            let shelf_capacity = self.shelves[i].check_capacity();
            if position - cumulative < shelf_capacity {
                match self.shelves[i].flat_map_position_to_zone(position - cumulative) {
                    Some(found) => {
                        return Some((i + 1, found.0, found.1));
                    },
                    None => {
                        proof {
                            assert(false);
                        }
                        return None;
                    },
                }
            }
            cumulative = cumulative + shelf_capacity;
            i = i + 1;
        }
        proof {
            assert(self.shelves@.take(self.shelves@.len() as int) =~= self.shelves@);
        }
        None
    }

    /// As `flat_map_position_to_zone`: the oversized map keeps lengths, so
    /// positions translate identically.
    pub fn oversized_flat_map_position_to_zone(
        &self,
        position: usize,
        zones_required: usize,
    ) -> (r: Option<(usize, usize, usize)>)
        requires
            self.wf(),
            zones_required >= 1,
        ensures
            match r {
                Some(found) => 1 <= found.0 <= self.shelves@.len() && 1 <= found.1 <= self.shelves@[
                    found.0 - 1
                ].levels@.len() && 1 <= found.2 <= self.shelves@[found.0 - 1].levels@[found.1
                    - 1].cap() && position == spec_shelves_cap(self.shelves@.take(found.0 - 1))
                    + spec_levels_cap(self.shelves@[found.0 - 1].levels@.take(found.1 - 1)) + (
                found.2 - 1),
                None => position >= self.cap(),
            },
    {
        self.flat_map_position_to_zone(position)
    }

    /// The first anchor carrying the id, as 1-based (shelf, level, zone).
    pub fn find_first_item_occurrence(&self, product_id: u64) -> (r: Option<(usize, usize, usize)>)
        requires
            self.wf(),
        ensures
            match r {
                Some(found) => {
                    &&& 1 <= found.0 <= self.shelves@.len()
                    &&& 1 <= found.1 <= self.shelves@[found.0 - 1].levels@.len()
                    &&& 1 <= found.2 <= self.shelves@[found.0 - 1].levels@[found.1 - 1].zones@.len()
                    &&& (spec_anchor_item(
                        self.shelves@[found.0 - 1].levels@[found.1 - 1].zones@[found.2 - 1],
                    ) matches Some(it) && it.id == product_id)
                },
                None => forall|s: int, a: int, b: int|
                    0 <= s < self.shelves@.len() && 0 <= a < (
                    #[trigger] self.shelves@[s]).levels@.len() && 0 <= b < (
                    #[trigger] self.shelves@[s].levels@[a]).zones@.len() ==> !(spec_anchor_item(
                        #[trigger] self.shelves@[s].levels@[a].zones@[b],
                    ) matches Some(it) && it.id == product_id),
            },
    {
        let mut s: usize = 0;
        while s < self.shelves.len()
            invariant
                self.wf(),
                s <= self.shelves@.len(),
                forall|x: int, a: int, b: int|
                    0 <= x < s && 0 <= a < (#[trigger] self.shelves@[x]).levels@.len() && 0 <= b < (
                    #[trigger] self.shelves@[x].levels@[a]).zones@.len() ==> !(spec_anchor_item(
                        #[trigger] self.shelves@[x].levels@[a].zones@[b],
                    ) matches Some(it) && it.id == product_id),
            decreases self.shelves@.len() - s,
        {
            match self.shelves[s].find_first_item_occurrence(product_id) {
                Some(found) => {
                    return Some((s + 1, found.0, found.1));
                },
                None => {},
            }
            s = s + 1;
        }
        None
    }

    /// The last anchor carrying the id, as 1-based (shelf, level, zone).
    pub fn find_last_item_occurrence(&self, product_id: u64) -> (r: Option<(usize, usize, usize)>)
        requires
            self.wf(),
        ensures
            match r {
                Some(found) => {
                    &&& 1 <= found.0 <= self.shelves@.len()
                    &&& 1 <= found.1 <= self.shelves@[found.0 - 1].levels@.len()
                    &&& 1 <= found.2 <= self.shelves@[found.0 - 1].levels@[found.1 - 1].zones@.len()
                    &&& (spec_anchor_item(
                        self.shelves@[found.0 - 1].levels@[found.1 - 1].zones@[found.2 - 1],
                    ) matches Some(it) && it.id == product_id)
                },
                None => forall|s: int, a: int, b: int|
                    0 <= s < self.shelves@.len() && 0 <= a < (
                    #[trigger] self.shelves@[s]).levels@.len() && 0 <= b < (
                    #[trigger] self.shelves@[s].levels@[a]).zones@.len() ==> !(spec_anchor_item(
                        #[trigger] self.shelves@[s].levels@[a].zones@[b],
                    ) matches Some(it) && it.id == product_id),
            },
    {
        let mut s: usize = self.shelves.len();
        while s > 0
            invariant
                self.wf(),
                s <= self.shelves@.len(),
                forall|x: int, a: int, b: int|
                    s <= x < self.shelves@.len() && 0 <= a < (
                    #[trigger] self.shelves@[x]).levels@.len() && 0 <= b < (
                    #[trigger] self.shelves@[x].levels@[a]).zones@.len() ==> !(spec_anchor_item(
                        #[trigger] self.shelves@[x].levels@[a].zones@[b],
                    ) matches Some(it) && it.id == product_id),
            decreases s,
        {
            s = s - 1;
            match self.shelves[s].find_last_item_occurrence(product_id) {
                Some(found) => {
                    return Some((s + 1, found.0, found.1));
                },
                None => {},
            }
        }
        None
    }

    /// Every anchor carrying the id, as 1-based (shelf, level, zone) triples.
    #[verifier::loop_isolation(false)]
    #[verifier::rlimit(30)]
    pub fn find_all_item_occurences(&self, product_id: u64) -> (r: Vec<(usize, usize, usize)>)
        requires
            self.wf(),
        ensures
            forall|k: int|
                0 <= k < r@.len() ==> 1 <= (#[trigger] r@[k]).0 <= self.shelves@.len() && 1
                    <= r@[k].1 <= self.shelves@[r@[k].0 - 1].levels@.len() && 1 <= r@[k].2
                    <= self.shelves@[r@[k].0 - 1].levels@[r@[k].1 - 1].zones@.len() && (
                spec_anchor_item(
                    self.shelves@[r@[k].0 - 1].levels@[r@[k].1 - 1].zones@[r@[k].2 - 1],
                ) matches Some(it) && it.id == product_id),
            forall|s: int, a: int, b: int|
                (0 <= s < self.shelves@.len() && 0 <= a < (
                #[trigger] self.shelves@[s]).levels@.len() && 0 <= b < (
                #[trigger] self.shelves@[s].levels@[a]).zones@.len() && (spec_anchor_item(
                    #[trigger] self.shelves@[s].levels@[a].zones@[b],
                ) matches Some(it) && it.id == product_id)) ==> r@.contains(
                    ((s + 1) as usize, (a + 1) as usize, (b + 1) as usize),
                ),
    {
        let mut out: Vec<(usize, usize, usize)> = Vec::new();
        let mut s: usize = 0;
        while s < self.shelves.len()
            invariant
                s <= self.shelves@.len(),
                forall|k: int|
                    0 <= k < out@.len() ==> 1 <= (#[trigger] out@[k]).0 <= self.shelves@.len() && 1
                        <= out@[k].1 <= self.shelves@[out@[k].0 - 1].levels@.len() && 1 <= out@[k].2
                        <= self.shelves@[out@[k].0 - 1].levels@[out@[k].1 - 1].zones@.len() && (
                    spec_anchor_item(
                        self.shelves@[out@[k].0 - 1].levels@[out@[k].1 - 1].zones@[out@[k].2 - 1],
                    ) matches Some(it) && it.id == product_id),
                forall|x: int, a: int, b: int|
                    (0 <= x < s && 0 <= a < (#[trigger] self.shelves@[x]).levels@.len() && 0 <= b < (
                    #[trigger] self.shelves@[x].levels@[a]).zones@.len() && (spec_anchor_item(
                        #[trigger] self.shelves@[x].levels@[a].zones@[b],
                    ) matches Some(it) && it.id == product_id)) ==> out@.contains(
                        ((x + 1) as usize, (a + 1) as usize, (b + 1) as usize),
                    ),
            decreases self.shelves@.len() - s,
        {
            let pairs = self.shelves[s].find_all_item_occurences(product_id);
            let mut k: usize = 0;
            while k < pairs.len()
                invariant
                    s < self.shelves@.len(),
                    k <= pairs@.len(),
                    forall|t: int|
                        0 <= t < pairs@.len() ==> 1 <= (#[trigger] pairs@[t]).0
                            <= self.shelves@[s as int].levels@.len() && 1 <= pairs@[t].1
                            <= self.shelves@[s as int].levels@[pairs@[t].0 - 1].zones@.len() && (
                        spec_anchor_item(
                            self.shelves@[s as int].levels@[pairs@[t].0 - 1].zones@[pairs@[t].1
                                - 1],
                        ) matches Some(it) && it.id == product_id),
                    forall|a: int, b: int|
                        (0 <= a < self.shelves@[s as int].levels@.len() && 0 <= b < (
                        #[trigger] self.shelves@[s as int].levels@[a]).zones@.len() && (
                        spec_anchor_item(
                            #[trigger] self.shelves@[s as int].levels@[a].zones@[b],
                        ) matches Some(it) && it.id == product_id)) ==> pairs@.contains(
                            (((a + 1) as usize, (b + 1) as usize)),
                        ),
                    forall|t: int|
                        0 <= t < k ==> out@.contains(
                            (
                                (s + 1) as usize,
                                (#[trigger] pairs@[t]).0 as usize,
                                pairs@[t].1 as usize,
                            ),
                        ),
                    forall|c: int|
                        0 <= c < out@.len() ==> 1 <= (#[trigger] out@[c]).0 <= self.shelves@.len()
                            && 1 <= out@[c].1 <= self.shelves@[out@[c].0 - 1].levels@.len() && 1
                            <= out@[c].2 <= self.shelves@[out@[c].0 - 1].levels@[out@[c].1
                            - 1].zones@.len() && (spec_anchor_item(
                            self.shelves@[out@[c].0 - 1].levels@[out@[c].1 - 1].zones@[out@[c].2
                                - 1],
                        ) matches Some(it) && it.id == product_id),
                    forall|x: int, a: int, b: int|
                        (0 <= x < s && 0 <= a < (#[trigger] self.shelves@[x]).levels@.len() && 0
                            <= b < (#[trigger] self.shelves@[x].levels@[a]).zones@.len() && (
                        spec_anchor_item(
                            #[trigger] self.shelves@[x].levels@[a].zones@[b],
                        ) matches Some(it) && it.id == product_id)) ==> out@.contains(
                            ((x + 1) as usize, (a + 1) as usize, (b + 1) as usize),
                        ),
                decreases pairs@.len() - k,
            {
                let ghost prev = out@;
                let pair = pairs[k];
                out.push((s + 1, pair.0, pair.1));
                proof {
                    lemma_push_keeps_triples(prev, ((s + 1) as usize, pair.0, pair.1));
                }
                k = k + 1;
            }
            proof {
                assert forall|x: int, a: int, b: int|
                    (0 <= x < s + 1 && 0 <= a < (#[trigger] self.shelves@[x]).levels@.len() && 0
                        <= b < (#[trigger] self.shelves@[x].levels@[a]).zones@.len() && (
                    spec_anchor_item(#[trigger] self.shelves@[x].levels@[a].zones@[b]) matches Some(
                        it,
                    ) && it.id == product_id)) implies out@.contains(
                    ((x + 1) as usize, (a + 1) as usize, (b + 1) as usize),
                ) by {
                    if x == s {
                        assert(pairs@.contains((((a + 1) as usize, (b + 1) as usize))));
                        let t = choose|t: int|
                            0 <= t < pairs@.len() && pairs@[t] == (((a + 1) as usize, (
                            b + 1) as usize));
                        assert(out@.contains(
                            ((s + 1) as usize, pairs@[t].0 as usize, pairs@[t].1 as usize),
                        ));
                    }
                }
            }
            s = s + 1;
        }
        out
    }

}

/// Strict order on walk slots: by shelf, then level, then zone.
pub open spec fn spec_slot_lt(a: (int, int, int), b: (int, int, int)) -> bool {
    a.0 < b.0 || (a.0 == b.0 && (a.1 < b.1 || (a.1 == b.1 && a.2 < b.2)))
}

/// Slot `a` lies at least a whole unit of width `stride` before slot `b`,
/// so the units anchored at them cannot overlap.
pub open spec fn spec_slot_span_behind(a: (int, int, int), b: (int, int, int), stride: int) -> bool {
    a.0 < b.0 || (a.0 == b.0 && (a.1 < b.1 || (a.1 == b.1 && a.2 + stride <= b.2)))
}

/// The slot (shelf, level, zone), all 1-based, resolves in this row.
pub open spec fn spec_slot_valid(row: Row, s: int, l: int, z: int) -> bool {
    &&& 1 <= s <= row.shelves@.len()
    &&& 1 <= l <= row.shelves@[s - 1].levels@.len()
    &&& 1 <= z <= row.shelves@[s - 1].levels@[l - 1].zones@.len()
}

/// The highest level the filling walk uses in shelf `s`: the fragile ceiling
/// when one is set, else the shelf's own top level.
pub open spec fn spec_walk_top(row: Row, ml: Option<usize>, s: int) -> int {
    match ml {
        Some(ceiling) => ceiling as int,
        None => row.shelves@[s - 1].levels@.len() as int,
    }
}

/// The caller's start opens above a fragile ceiling in the row's last shelf
/// or beyond, so the walk has nowhere to go and places nothing.
pub open spec fn spec_walk_overrun(row: Row, ml: Option<usize>, start: (usize, usize, usize)) -> bool {
    match ml {
        Some(ceiling) => start.1 > ceiling && start.0 >= row.shelves@.len(),
        None => false,
    }
}

/// Where the walk begins: the caller's start, moved to the next shelf's
/// origin when it opens above a fragile ceiling.
pub open spec fn spec_walk_start(row: Row, ml: Option<usize>, start: (usize, usize, usize)) -> (
    int,
    int,
    int,
) {
    match ml {
        Some(ceiling) => if start.1 > ceiling {
            (start.0 + 1 as int, 1int, 1int)
        } else {
            (start.0 as int, start.1 as int, start.2 as int)
        },
        None => (start.0 as int, start.1 as int, start.2 as int),
    }
}

/// The slot after `pos` for units `stride` zones wide: the next anchor in
/// the same level while another whole unit still fits there, else the next
/// level under the ceiling, else the next shelf's origin. A slot past the
/// last shelf is final.
pub open spec fn spec_walk_next(row: Row, ml: Option<usize>, stride: int, pos: (int, int, int)) -> (
    int,
    int,
    int,
) {
    if pos.0 > row.shelves@.len() {
        pos
    } else if pos.2 + 2 * stride - 1 <= row.shelves@[pos.0 - 1].levels@[pos.1 - 1].zones@.len() {
        (pos.0, pos.1, pos.2 + stride)
    } else if pos.1 < spec_walk_top(row, ml, pos.0) {
        (pos.0, pos.1 + 1, 1int)
    } else {
        (pos.0 + 1, 1int, 1int)
    }
}

/// The `k`-th slot the walk fills, counting from its adjusted start.
pub open spec fn spec_walk_pos(
    row: Row,
    ml: Option<usize>,
    stride: int,
    start: (usize, usize, usize),
    k: int,
) -> (int, int, int)
    decreases k,
{
    if k <= 0 {
        spec_walk_start(row, ml, start)
    } else {
        spec_walk_next(row, ml, stride, spec_walk_pos(row, ml, stride, start, k - 1))
    }
}

/// While the walk stays inside the row its slots strictly advance, so no
/// slot is visited twice.
pub proof fn lemma_walk_pos_increases(
    row: Row,
    ml: Option<usize>,
    stride: int,
    start: (usize, usize, usize),
    k1: int,
    k2: int,
)
    requires
        stride >= 1,
        0 <= k1 < k2,
        forall|j: int|
            k1 <= j < k2 ==> (#[trigger] spec_walk_pos(row, ml, stride, start, j)).0
                <= row.shelves@.len(),
    ensures
        spec_slot_lt(
            spec_walk_pos(row, ml, stride, start, k1),
            spec_walk_pos(row, ml, stride, start, k2),
        ),
    decreases k2 - k1,
{
    if k1 + 1 < k2 {
        lemma_walk_pos_increases(row, ml, stride, start, k1, k2 - 1);
    }
}

/// Two rows with the same shape: as many shelves, levels and zones each.
pub open spec fn spec_same_layout(a: Row, b: Row) -> bool {
    &&& a.shelves@.len() == b.shelves@.len()
    &&& forall|s: int|
        0 <= s < a.shelves@.len() ==> (#[trigger] b.shelves@[s]).levels@.len()
            == a.shelves@[s].levels@.len()
    &&& forall|s: int, l: int|
        0 <= s < a.shelves@.len() && 0 <= l < a.shelves@[s].levels@.len() ==> (
        #[trigger] b.shelves@[s].levels@[l]).zones@.len() == a.shelves@[s].levels@[l].zones@.len()
}

/// Walk slot `k` covers the zone (s, l, z): for spans, any zone of the unit
/// anchored at the slot.
pub open spec fn spec_walk_covers(
    row: Row,
    ml: Option<usize>,
    stride: int,
    start: (usize, usize, usize),
    k: int,
    s: int,
    l: int,
    z: int,
) -> bool {
    let slot = spec_walk_pos(row, ml, stride, start, k);
    slot.0 == s && slot.1 == l && slot.2 <= z < slot.2 + stride
}

/// Every zone the first `placed` walk slots do not cover is as it was.
pub open spec fn spec_walk_frame(
    pre: Row,
    post: Row,
    ml: Option<usize>,
    stride: int,
    start: (usize, usize, usize),
    placed: int,
) -> bool {
    forall|s: int, l: int, z: int|
        spec_slot_valid(pre, s, l, z) && !(exists|k: int|
            0 <= k < placed && #[trigger] spec_walk_covers(pre, ml, stride, start, k, s, l, z))
            ==> (#[trigger] post.shelves@[s - 1].levels@[l - 1].zones@[z - 1]) == pre.shelves@[s
            - 1].levels@[l - 1].zones@[z - 1]
}

/// Walk slot `k` was vacant and now holds one whole single-zone unit of the
/// product, stamped with its own coordinate.
pub open spec fn spec_walk_slot_filled(
    pre: Row,
    post: Row,
    ml: Option<usize>,
    start: (usize, usize, usize),
    id: u64,
    expiry_date: Option<crate::date::Date>,
    k: int,
) -> bool {
    let slot = spec_walk_pos(pre, ml, 1, start, k);
    let zone_before = pre.shelves@[slot.0 - 1].levels@[slot.1 - 1].zones@[slot.2 - 1];
    let zone_after = post.shelves@[slot.0 - 1].levels@[slot.1 - 1].zones@[slot.2 - 1];
    &&& spec_slot_valid(pre, slot.0, slot.1, slot.2)
    &&& zone_before.is_vacant()
    &&& zone_after.number == slot.2
    &&& zone_after.item matches Some(crate::zone::ItemPart::WholeProduct(it)) && it.id == id
        && it.expiry_date == expiry_date && it.zones_required == 1 && it.placement.0 == pre.number
        && it.placement.1 == slot.0 && it.placement.2 == slot.1 && it.placement.3 == slot.2
}

/// Everything the single-zone filling walk does, given the product is
/// listed: the units placed stand at the first walk slots, nothing else
/// changed, success comes exactly when the stock ran out or the walk left
/// the row, and each failure names the slot it stopped at.
pub open spec fn spec_fill_walk_post(
    pre: Row,
    post: Row,
    id: u64,
    list: ProductList,
    qty0: int,
    qty1: int,
    expiry_date: Option<crate::date::Date>,
    start: (usize, usize, usize),
    r: Result<(), ErrorMessage>,
) -> bool {
    let ml = spec_max_level(list.spec_product(id).quality);
    let placed = qty0 - qty1;
    let len = pre.shelves@.len() as int;
    let stop = spec_walk_pos(pre, ml, 1, start, placed);
    &&& 0 <= qty1 <= qty0
    &&& forall|k: int|
        0 <= k < placed ==> #[trigger] spec_walk_slot_filled(
            pre,
            post,
            ml,
            start,
            id,
            expiry_date,
            k,
        )
    &&& forall|k: int|
        0 <= k < placed ==> (#[trigger] spec_walk_pos(pre, ml, 1, start, k)).0 <= len
    &&& spec_walk_frame(pre, post, ml, 1, start, placed)
    &&& (r is Ok <==> qty1 == 0 || (placed == 0 && spec_walk_overrun(pre, ml, start)) || (placed
        > 0 && stop.0 == len + 1))
    &&& (qty0 > 0 ==> ((r == Err::<(), ErrorMessage>(ErrorMessage::FragileObjectWithoutExpiration))
        <==> (ml is Some && expiry_date is None && !spec_walk_overrun(pre, ml, start))))
    &&& (r == Err::<(), ErrorMessage>(ErrorMessage::FragileObjectWithoutExpiration) || r == Err::<
        (),
        ErrorMessage,
    >(ErrorMessage::LevelTooHigh) ==> qty1 == qty0)
    &&& ((r == Err::<(), ErrorMessage>(ErrorMessage::LevelTooHigh)) <==> (qty0 > 0 && ml == Some(
        0usize,
    ) && expiry_date is Some && start.1 >= 1 && !spec_walk_overrun(pre, ml, start)))
    &&& (r == Err::<(), ErrorMessage>(ErrorMessage::ZoneOccupied) ==> spec_slot_valid(
        pre,
        stop.0,
        stop.1,
        stop.2,
    ) && !pre.shelves@[stop.0 - 1].levels@[stop.1 - 1].zones@[stop.2 - 1].is_vacant())
    &&& (r == Err::<(), ErrorMessage>(ErrorMessage::ShelfNotFound) ==> !(1 <= stop.0 <= len))
    &&& (r == Err::<(), ErrorMessage>(ErrorMessage::LevelNotFound) ==> 1 <= stop.0 <= len && !(1
        <= stop.1 <= pre.shelves@[stop.0 - 1].levels@.len()))
    &&& (r == Err::<(), ErrorMessage>(ErrorMessage::ZoneNotFound) ==> 1 <= stop.0 <= len && 1
        <= stop.1 <= pre.shelves@[stop.0 - 1].levels@.len() && !(1 <= stop.2 <= pre.shelves@[stop.0
        - 1].levels@[stop.1 - 1].zones@.len()))
    &&& (r is Err ==> r == Err::<(), ErrorMessage>(ErrorMessage::FragileObjectWithoutExpiration)
        || r == Err::<(), ErrorMessage>(ErrorMessage::LevelTooHigh) || r == Err::<(
    ), ErrorMessage>(ErrorMessage::ZoneOccupied) || r == Err::<(), ErrorMessage>(
        ErrorMessage::ShelfNotFound,
    ) || r == Err::<(), ErrorMessage>(ErrorMessage::LevelNotFound) || r == Err::<(
    ), ErrorMessage>(ErrorMessage::ZoneNotFound))
}

/// Walk slot `k` opened a vacant run and now anchors one whole span of the
/// product, stamped with its own coordinate.
pub open spec fn spec_span_slot_filled(
    pre: Row,
    post: Row,
    ml: Option<usize>,
    stride: int,
    start: (usize, usize, usize),
    id: u64,
    expiry_date: Option<crate::date::Date>,
    k: int,
) -> bool {
    let slot = spec_walk_pos(pre, ml, stride, start, k);
    let zones_before = pre.shelves@[slot.0 - 1].levels@[slot.1 - 1].zones@;
    let level_after = post.shelves@[slot.0 - 1].levels@[slot.1 - 1];
    &&& spec_slot_valid(pre, slot.0, slot.1, slot.2)
    &&& slot.2 - 1 + stride <= zones_before.len()
    &&& spec_run_vacant(zones_before, slot.2 - 1, stride)
    &&& level_after.zones@[slot.2 - 1].item matches Some(crate::zone::ItemPart::ProductStart(
        it,
        e,
    )) && e == slot.2 + stride - 1 && it.id == id && it.expiry_date == expiry_date
        && it.zones_required == stride && it.placement.0 == pre.number && it.placement.1 == slot.0
        && it.placement.2 == slot.1 && it.placement.3 == slot.2
    &&& forall|zn: int|
        slot.2 <= zn <= slot.2 + stride - 1 ==> #[trigger] spec_item_at(level_after.zones@, zn)
            == spec_item_at(level_after.zones@, slot.2)
}

/// Everything the span-filling walk does, given the product is listed:
/// `placed` spans anchored at the first walk slots, every zone they cover
/// resolving to their anchor, nothing else changed, success exactly when the
/// stock ran out or the walk left the row, and each failure named by the
/// slot it stopped at.
pub open spec fn spec_fill_span_walk_post(
    pre: Row,
    post: Row,
    id: u64,
    list: ProductList,
    stride: int,
    qty0: int,
    qty1: int,
    expiry_date: Option<crate::date::Date>,
    start: (usize, usize, usize),
    r: Result<(), ErrorMessage>,
) -> bool {
    let ml = spec_max_level(list.spec_product(id).quality);
    let placed = qty0 - qty1;
    let len = pre.shelves@.len() as int;
    let stop = spec_walk_pos(pre, ml, stride, start, placed);
    &&& 0 <= qty1 <= qty0
    &&& forall|k: int|
        0 <= k < placed ==> #[trigger] spec_span_slot_filled(
            pre,
            post,
            ml,
            stride,
            start,
            id,
            expiry_date,
            k,
        )
    &&& forall|k: int|
        0 <= k < placed ==> (#[trigger] spec_walk_pos(pre, ml, stride, start, k)).0 <= len
    &&& spec_walk_frame(pre, post, ml, stride, start, placed)
    &&& (r is Ok <==> qty1 == 0 || (placed == 0 && spec_walk_overrun(pre, ml, start)) || (placed
        > 0 && stop.0 == len + 1))
    &&& (qty0 > 0 ==> ((r == Err::<(), ErrorMessage>(ErrorMessage::FragileObjectWithoutExpiration))
        <==> (ml is Some && expiry_date is None && !spec_walk_overrun(pre, ml, start))))
    &&& (r == Err::<(), ErrorMessage>(ErrorMessage::FragileObjectWithoutExpiration) || r == Err::<
        (),
        ErrorMessage,
    >(ErrorMessage::LevelTooHigh) ==> qty1 == qty0)
    &&& ((r == Err::<(), ErrorMessage>(ErrorMessage::LevelTooHigh)) <==> (qty0 > 0 && ml == Some(
        0usize,
    ) && expiry_date is Some && start.1 >= 1 && !spec_walk_overrun(pre, ml, start)))
    &&& (r == Err::<(), ErrorMessage>(ErrorMessage::ZoneOccupied) ==> spec_slot_valid(
        pre,
        stop.0,
        stop.1,
        stop.2,
    ) && stop.2 - 1 + stride <= pre.shelves@[stop.0 - 1].levels@[stop.1 - 1].zones@.len()
        && !spec_run_vacant(pre.shelves@[stop.0 - 1].levels@[stop.1 - 1].zones@, stop.2 - 1, stride))
    &&& (r == Err::<(), ErrorMessage>(ErrorMessage::InsufficientSpace) ==> spec_slot_valid(
        pre,
        stop.0,
        stop.1,
        stop.2,
    ) && stop.2 - 1 + stride > pre.shelves@[stop.0 - 1].levels@[stop.1 - 1].zones@.len())
    &&& (r == Err::<(), ErrorMessage>(ErrorMessage::ShelfNotFound) ==> !(1 <= stop.0 <= len))
    &&& (r == Err::<(), ErrorMessage>(ErrorMessage::LevelNotFound) ==> 1 <= stop.0 <= len && !(1
        <= stop.1 <= pre.shelves@[stop.0 - 1].levels@.len()))
    &&& (r == Err::<(), ErrorMessage>(ErrorMessage::ZoneNotFound) ==> 1 <= stop.0 <= len && 1
        <= stop.1 <= pre.shelves@[stop.0 - 1].levels@.len() && !(1 <= stop.2 <= pre.shelves@[stop.0
        - 1].levels@[stop.1 - 1].zones@.len()))
    &&& (r is Err ==> r == Err::<(), ErrorMessage>(ErrorMessage::FragileObjectWithoutExpiration)
        || r == Err::<(), ErrorMessage>(ErrorMessage::LevelTooHigh) || r == Err::<(
    ), ErrorMessage>(ErrorMessage::ZoneOccupied) || r == Err::<(), ErrorMessage>(
        ErrorMessage::InsufficientSpace,
    ) || r == Err::<(), ErrorMessage>(ErrorMessage::ShelfNotFound) || r == Err::<(
    ), ErrorMessage>(ErrorMessage::LevelNotFound) || r == Err::<(), ErrorMessage>(
        ErrorMessage::ZoneNotFound,
    ))
}

impl Row {
    /// Fills forward from `start` = (shelf, level, zone), one unit per zone,
    /// wrapping zone to level (bounded by a fragile ceiling) to shelf, until
    /// the quantity is placed or the row runs out; stops at the first error,
    /// leaving earlier placements in place. The walk's exact behaviour is
    /// `spec_fill_walk_post`.
    #[verifier::loop_isolation(false)]
    #[verifier::rlimit(60)]
    pub fn add_qty(
        &mut self,
        id: u64,
        list: &ProductList,
        qty: &mut usize,
        expiry_date: Option<crate::date::Date>,
        start: (usize, usize, usize),
    ) -> (r: Result<(), ErrorMessage>)
        requires
            old(self).wf(),
            list.wf(),
            list.spec_has_id(id) ==> spec_zones_required(list.spec_product(id).quality) == 1,
        ensures
            final(self).wf(),
            final(self).number == old(self).number,
            final(self).cap() == old(self).cap(),
            spec_same_layout(*old(self), *final(self)),
            final(self).shelves@.len() == old(self).shelves@.len(),
            *final(qty) <= *old(qty),
            final(self).available_space == old(self).available_space - (*old(qty) - *final(qty)),
            !list.spec_has_id(id) ==> r == Err::<(), ErrorMessage>(ErrorMessage::ProductNotListed)
                && *final(qty) == *old(qty) && *final(self) == *old(self),
            list.spec_has_id(id) ==> r != Err::<(), ErrorMessage>(ErrorMessage::ProductNotListed)
                && spec_fill_walk_post(
                *old(self),
                *final(self),
                id,
                *list,
                *old(qty) as int,
                *final(qty) as int,
                expiry_date,
                start,
                r,
            ),
    {
        let product = match list.product(id) {
            Some(product) => product,
            None => {
                return Err(ErrorMessage::ProductNotListed);
            },
        };
        let max_level = product.max_level();
        let ghost ml = spec_max_level(list.spec_product(id).quality);
        let row_number = self.number;
        let mut shelf = start.0;
        let mut level = start.1;
        let mut zone = start.2;
        match max_level {
            Some(ceiling) => {
                if level > ceiling {
                    if shelf >= self.shelves.len() {
                        return Ok(());
                    }
                    shelf = shelf + 1;
                    level = 1;
                    zone = 1;
                }
            },
            None => {},
        }
        while *qty > 0
            invariant
                self.wf(),
                self.number == old(self).number,
                self.cap() == old(self).cap(),
                spec_same_layout(*old(self), *self),
                *qty <= *old(qty),
                self.available_space == old(self).available_space - (*old(qty) - *qty),
                list.spec_has_id(id),
                spec_zones_required(list.spec_product(id).quality) == 1,
                max_level == ml,
                (shelf as int, level as int, zone as int) == spec_walk_pos(
                    *old(self),
                    ml,
                    1,
                    start,
                    *old(qty) - *qty,
                ),
                forall|k: int|
                    0 <= k < *old(qty) - *qty ==> (#[trigger] spec_walk_pos(
                        *old(self),
                        ml,
                        1,
                        start,
                        k,
                    )).0 <= old(self).shelves@.len(),
                forall|k: int|
                    0 <= k < *old(qty) - *qty ==> #[trigger] spec_walk_slot_filled(
                        *old(self),
                        *self,
                        ml,
                        start,
                        id,
                        expiry_date,
                        k,
                    ),
                spec_walk_frame(*old(self), *self, ml, 1, start, *old(qty) - *qty),
                *qty < *old(qty) ==> (ml is Some ==> expiry_date is Some) && ml != Some(0usize)
                    && shelf <= old(self).shelves@.len(),
                ml matches Some(c) ==> (c >= 1 ==> level <= c),
                !(spec_walk_overrun(*old(self), ml, start) && *old(qty) > 0),
            decreases *qty,
        {
            let ghost placed = *old(qty) - *qty;
            let placement = (row_number, shelf, level, zone);
            let item = match ProductItem::new(id, list, placement, expiry_date) {
                Ok(item) => item,
                Err(e) => {
                    proof {
                        assert(placed == 0);
                        assert(ml is Some);
                        if expiry_date is None {
                            assert(e == ProductErrorMessage::FragileObjectWithoutExpiration);
                        } else {
                            assert(e == ProductErrorMessage::LevelTooHigh);
                            assert(ml == Some(0usize) && level >= 1 && start.1 >= 1);
                        }
                    }
                    return Err(translate_item_error(e));
                },
            };
            proof {
                assert(ml is Some ==> expiry_date is Some);
            }
            let ghost before = *self;
            match self.add_item(shelf, level, zone, item) {
                Ok(()) => {
                    *qty = *qty - 1;
                    proof {
                        let pre = *old(self);
                        assert forall|k: int| 0 <= k < placed implies spec_walk_pos(
                            pre,
                            ml,
                            1,
                            start,
                            k,
                        ) != (shelf as int, level as int, zone as int) by {
                            lemma_walk_pos_increases(pre, ml, 1, start, k, placed as int);
                        }
                        assert forall|k: int| 0 <= k < placed + 1 implies
                            #[trigger] spec_walk_slot_filled(
                            pre,
                            *self,
                            ml,
                            start,
                            id,
                            expiry_date,
                            k,
                        ) by {
                            if k < placed {
                                let slot = spec_walk_pos(pre, ml, 1, start, k);
                                lemma_walk_pos_increases(pre, ml, 1, start, k, placed as int);
                                assert(spec_walk_slot_filled(
                                    pre,
                                    before,
                                    ml,
                                    start,
                                    id,
                                    expiry_date,
                                    k,
                                ));
                                assert(self.shelves@[slot.0 - 1].levels@[slot.1 - 1].zones@[slot.2
                                    - 1] == before.shelves@[slot.0 - 1].levels@[slot.1
                                    - 1].zones@[slot.2 - 1]);
                            } else {
                                assert(spec_walk_frame(pre, before, ml, 1, start, placed));
                                assert(!(exists|j: int|
                                    0 <= j < placed && #[trigger] spec_walk_covers(
                                        pre,
                                        ml,
                                        1,
                                        start,
                                        j,
                                        shelf as int,
                                        level as int,
                                        zone as int,
                                    )));
                                assert(before.shelves@[shelf - 1].levels@[level - 1].zones@[zone
                                    - 1] == pre.shelves@[shelf - 1].levels@[level - 1].zones@[zone
                                    - 1]);
                            }
                        }
                        assert forall|s: int, l: int, z: int|
                            spec_slot_valid(pre, s, l, z) && !(exists|k: int|
                                0 <= k < placed + 1 && #[trigger] spec_walk_covers(
                                    pre,
                                    ml,
                                    1,
                                    start,
                                    k,
                                    s,
                                    l,
                                    z,
                                )) implies (#[trigger] self.shelves@[s - 1].levels@[l
                            - 1].zones@[z - 1]) == pre.shelves@[s - 1].levels@[l - 1].zones@[z
                            - 1] by {
                            assert(!spec_walk_covers(pre, ml, 1, start, placed as int, s, l, z));
                            assert(!(exists|k: int|
                                0 <= k < placed && #[trigger] spec_walk_covers(
                                    pre,
                                    ml,
                                    1,
                                    start,
                                    k,
                                    s,
                                    l,
                                    z,
                                )));
                            assert((s, l, z) != (shelf as int, level as int, zone as int));
                        }
                    }
                    let zone_len = self.shelves[shelf - 1].levels[level - 1].zones.len();
                    let level_len = self.shelves[shelf - 1].levels.len();
                    if zone >= zone_len {
                        zone = 1;
                        let top = match max_level {
                            Some(ceiling) => ceiling,
                            None => level_len,
                        };
                        if level >= top {
                            level = 1;
                            if shelf >= self.shelves.len() {
                                proof {
                                    assert(spec_walk_pos(
                                        *old(self),
                                        ml,
                                        1,
                                        start,
                                        *old(qty) - *qty,
                                    ).0 == old(self).shelves@.len() + 1);
                                }
                                return Ok(());
                            }
                            shelf = shelf + 1;
                        } else {
                            level = level + 1;
                        }
                    } else {
                        zone = zone + 1;
                    }
                },
                Err(e) => {
                    proof {
                        let pre = *old(self);
                        if e == ErrorMessage::ZoneOccupied {
                            assert forall|k: int| 0 <= k < placed implies spec_walk_pos(
                                pre,
                                ml,
                                1,
                                start,
                                k,
                            ) != (shelf as int, level as int, zone as int) by {
                                lemma_walk_pos_increases(pre, ml, 1, start, k, placed as int);
                            }
                            assert(!(exists|j: int|
                                0 <= j < placed && #[trigger] spec_walk_covers(
                                    pre,
                                    ml,
                                    1,
                                    start,
                                    j,
                                    shelf as int,
                                    level as int,
                                    zone as int,
                                )));
                            assert(self.shelves@[shelf - 1].levels@[level - 1].zones@[zone - 1]
                                == pre.shelves@[shelf - 1].levels@[level - 1].zones@[zone - 1]);
                        }
                    }
                    return Err(e);
                },
            }
        }
        Ok(())
    }

    /// As `add_qty`, but each unit takes a whole span of `zones_required`
    /// zones inside one level; anchors advance by the span width while
    /// another whole span still fits. The walk's exact behaviour is
    /// `spec_fill_span_walk_post`.
    #[verifier::loop_isolation(false)]
    #[verifier::rlimit(100)]
    #[verifier::spinoff_prover]
    pub fn add_oversized_qty(
        &mut self,
        id: u64,
        list: &ProductList,
        qty: &mut usize,
        expiry_date: Option<crate::date::Date>,
        zones_required: usize,
        start: (usize, usize, usize),
    ) -> (r: Result<(), ErrorMessage>)
        requires
            old(self).wf(),
            list.wf(),
            list.spec_has_id(id) ==> spec_zones_required(list.spec_product(id).quality)
                == zones_required && zones_required >= 2,
        ensures
            final(self).wf(),
            final(self).number == old(self).number,
            final(self).cap() == old(self).cap(),
            spec_same_layout(*old(self), *final(self)),
            final(self).shelves@.len() == old(self).shelves@.len(),
            *final(qty) <= *old(qty),
            final(self).available_space == old(self).available_space - (*old(qty) - *final(qty))
                * zones_required,
            !list.spec_has_id(id) ==> r == Err::<(), ErrorMessage>(ErrorMessage::ProductNotListed)
                && *final(qty) == *old(qty) && *final(self) == *old(self),
            list.spec_has_id(id) ==> r != Err::<(), ErrorMessage>(ErrorMessage::ProductNotListed)
                && spec_fill_span_walk_post(
                *old(self),
                *final(self),
                id,
                *list,
                zones_required as int,
                *old(qty) as int,
                *final(qty) as int,
                expiry_date,
                start,
                r,
            ),
    {
        let product = match list.product(id) {
            Some(product) => product,
            None => {
                return Err(ErrorMessage::ProductNotListed);
            },
        };
        let max_level = product.max_level();
        let ghost ml = spec_max_level(list.spec_product(id).quality);
        let ghost stride = zones_required as int;
        let row_number = self.number;
        let mut shelf = start.0;
        let mut level = start.1;
        let mut zone = start.2;
        match max_level {
            Some(ceiling) => {
                if level > ceiling {
                    if shelf >= self.shelves.len() {
                        return Ok(());
                    }
                    shelf = shelf + 1;
                    level = 1;
                    zone = 1;
                }
            },
            None => {},
        }
        proof {
            assert(0int * stride == 0) by (nonlinear_arith);
        }
        while *qty > 0
            invariant
                self.wf(),
                self.number == old(self).number,
                self.cap() == old(self).cap(),
                spec_same_layout(*old(self), *self),
                *qty <= *old(qty),
                self.available_space == old(self).available_space - (*old(qty) - *qty)
                    * zones_required,
                0 <= (*old(qty) - *qty) * zones_required <= *old(qty) * zones_required,
                list.spec_has_id(id),
                spec_zones_required(list.spec_product(id).quality) == zones_required,
                zones_required >= 2,
                max_level == ml,
                stride == zones_required as int,
                (shelf as int, level as int, zone as int) == spec_walk_pos(
                    *old(self),
                    ml,
                    stride,
                    start,
                    *old(qty) - *qty,
                ),
                forall|k: int|
                    0 <= k < *old(qty) - *qty ==> (#[trigger] spec_walk_pos(
                        *old(self),
                        ml,
                        stride,
                        start,
                        k,
                    )).0 <= old(self).shelves@.len(),
                forall|k: int|
                    0 <= k < *old(qty) - *qty ==> spec_slot_span_behind(
                        #[trigger] spec_walk_pos(*old(self), ml, stride, start, k),
                        (shelf as int, level as int, zone as int),
                        stride,
                    ),
                forall|k: int|
                    0 <= k < *old(qty) - *qty ==> #[trigger] spec_span_slot_filled(
                        *old(self),
                        *self,
                        ml,
                        stride,
                        start,
                        id,
                        expiry_date,
                        k,
                    ),
                spec_walk_frame(*old(self), *self, ml, stride, start, *old(qty) - *qty),
                *qty < *old(qty) ==> (ml is Some ==> expiry_date is Some) && ml != Some(0usize)
                    && shelf <= old(self).shelves@.len(),
                ml matches Some(c) ==> (c >= 1 ==> level <= c),
                !(spec_walk_overrun(*old(self), ml, start) && *old(qty) > 0),
            decreases *qty,
        {
            let ghost placed = *old(qty) - *qty;
            let placement = (row_number, shelf, level, zone);
            let item = match ProductItem::new(id, list, placement, expiry_date) {
                Ok(item) => item,
                Err(e) => {
                    proof {
                        assert(placed == 0);
                        assert(ml is Some);
                        if expiry_date is None {
                            assert(e == ProductErrorMessage::FragileObjectWithoutExpiration);
                        } else {
                            assert(e == ProductErrorMessage::LevelTooHigh);
                            assert(ml == Some(0usize) && level >= 1 && start.1 >= 1);
                        }
                    }
                    return Err(translate_item_error(e));
                },
            };
            proof {
                assert(ml is Some ==> expiry_date is Some);
            }
            let ghost before = *self;
            match self.add_oversized_item(shelf, level, zone, item) {
                Ok(()) => {
                    *qty = *qty - 1;
                    proof {
                        let pre = *old(self);
                        assert((placed + 1) * stride == placed * stride + stride)
                            by (nonlinear_arith);
                        let ghost q0 = *old(qty) as int;
                        let ghost q1 = *qty as int;
                        assert((q0 - q1) * zones_required <= q0 * zones_required)
                            by (nonlinear_arith)
                            requires
                                0 <= q1 <= q0 && zones_required >= 0,
                        ;
                        assert forall|k: int| 0 <= k < placed + 1 implies
                            #[trigger] spec_span_slot_filled(
                            pre,
                            *self,
                            ml,
                            stride,
                            start,
                            id,
                            expiry_date,
                            k,
                        ) by {
                            if k < placed {
                                let slot = spec_walk_pos(pre, ml, stride, start, k);
                                assert(spec_slot_span_behind(
                                    slot,
                                    (shelf as int, level as int, zone as int),
                                    stride,
                                ));
                                assert(spec_span_slot_filled(
                                    pre,
                                    before,
                                    ml,
                                    stride,
                                    start,
                                    id,
                                    expiry_date,
                                    k,
                                ));
                                if slot.0 == shelf as int && slot.1 == level as int {
                                    assert(!(zone - 1 <= slot.2 - 1 <= zone - 1 + zones_required
                                        - 1));
                                    assert(self.shelves@[slot.0 - 1].levels@[slot.1
                                        - 1].zones@[slot.2 - 1] == before.shelves@[slot.0
                                        - 1].levels@[slot.1 - 1].zones@[slot.2 - 1]);
                                } else {
                                    assert(self.shelves@[slot.0 - 1].levels@[slot.1 - 1]
                                        == before.shelves@[slot.0 - 1].levels@[slot.1 - 1]);
                                }
                                crate::laws::lemma_span_integrity(
                                    self.shelves@[slot.0 - 1].levels@[slot.1 - 1],
                                    slot.2,
                                );
                            } else {
                                assert(spec_walk_frame(pre, before, ml, stride, start, placed));
                                assert forall|zn: int|
                                    zone <= zn < zone + stride implies (
                                    #[trigger] before.shelves@[shelf - 1].levels@[level
                                        - 1].zones@[zn - 1]) == pre.shelves@[shelf - 1].levels@[
                                    level - 1].zones@[zn - 1] by {
                                    assert(spec_slot_valid(pre, shelf as int, level as int, zn));
                                    assert forall|t: int| 0 <= t < placed implies !(
                                    #[trigger] spec_walk_covers(
                                        pre,
                                        ml,
                                        stride,
                                        start,
                                        t,
                                        shelf as int,
                                        level as int,
                                        zn,
                                    )) by {
                                        assert(spec_slot_span_behind(
                                            spec_walk_pos(pre, ml, stride, start, t),
                                            (shelf as int, level as int, zone as int),
                                            stride,
                                        ));
                                    }
                                }
                                assert forall|m: int|
                                    zone - 1 <= m < zone - 1 + stride implies (
                                    #[trigger] pre.shelves@[shelf - 1].levels@[level
                                        - 1].zones@[m]).is_vacant() by {
                                    assert(before.shelves@[shelf - 1].levels@[level - 1].zones@[(m
                                        + 1) - 1] == pre.shelves@[shelf - 1].levels@[level
                                        - 1].zones@[(m + 1) - 1]);
                                    assert(before.shelves@[shelf - 1].levels@[level
                                        - 1].zones@[m].is_vacant());
                                }
                                assert(spec_run_vacant(
                                    pre.shelves@[shelf - 1].levels@[level - 1].zones@,
                                    zone - 1,
                                    stride,
                                ));
                                crate::laws::lemma_span_integrity(
                                    self.shelves@[shelf - 1].levels@[level - 1],
                                    zone as int,
                                );
                            }
                        }
                        assert forall|s: int, l: int, z: int|
                            spec_slot_valid(pre, s, l, z) && !(exists|k: int|
                                0 <= k < placed + 1 && #[trigger] spec_walk_covers(
                                    pre,
                                    ml,
                                    stride,
                                    start,
                                    k,
                                    s,
                                    l,
                                    z,
                                )) implies (#[trigger] self.shelves@[s - 1].levels@[l
                            - 1].zones@[z - 1]) == pre.shelves@[s - 1].levels@[l - 1].zones@[z
                            - 1] by {
                            assert(!spec_walk_covers(pre, ml, stride, start, placed as int, s, l, z));
                            assert(!(exists|k: int|
                                0 <= k < placed && #[trigger] spec_walk_covers(
                                    pre,
                                    ml,
                                    stride,
                                    start,
                                    k,
                                    s,
                                    l,
                                    z,
                                )));
                            assert(!(s == shelf as int && l == level as int && zone <= z < zone
                                + stride));
                        }
                    }
                    let zone_len = self.shelves[shelf - 1].levels[level - 1].zones.len();
                    let level_len = self.shelves[shelf - 1].levels.len();
                    let last_fit = zone_len - zones_required + 1;
                    if zone > last_fit || last_fit - zone < zones_required {
                        zone = 1;
                        let top = match max_level {
                            Some(ceiling) => ceiling,
                            None => level_len,
                        };
                        if level >= top {
                            level = 1;
                            if shelf >= self.shelves.len() {
                                proof {
                                    assert(spec_walk_pos(
                                        *old(self),
                                        ml,
                                        stride,
                                        start,
                                        *old(qty) - *qty,
                                    ).0 == old(self).shelves@.len() + 1);
                                }
                                return Ok(());
                            }
                            shelf = shelf + 1;
                        } else {
                            level = level + 1;
                        }
                    } else {
                        zone = zone + zones_required;
                    }
                },
                Err(e) => {
                    proof {
                        let pre = *old(self);
                        if e == ErrorMessage::ZoneOccupied {
                            assert forall|zn: int|
                                zone <= zn < zone + stride implies (
                            #[trigger] self.shelves@[shelf - 1].levels@[level - 1].zones@[zn - 1])
                                == pre.shelves@[shelf - 1].levels@[level - 1].zones@[zn - 1] by {
                                assert(spec_slot_valid(pre, shelf as int, level as int, zn));
                                assert forall|t: int| 0 <= t < placed implies !(
                                #[trigger] spec_walk_covers(
                                    pre,
                                    ml,
                                    stride,
                                    start,
                                    t,
                                    shelf as int,
                                    level as int,
                                    zn,
                                )) by {
                                    assert(spec_slot_span_behind(
                                        spec_walk_pos(pre, ml, stride, start, t),
                                        (shelf as int, level as int, zone as int),
                                        stride,
                                    ));
                                }
                            }
                            assert forall|m: int|
                                zone - 1 <= m < zone - 1 + stride implies (
                            #[trigger] self.shelves@[shelf - 1].levels@[level - 1].zones@[m]) == (
                            pre.shelves@[shelf - 1].levels@[level - 1].zones@[m]) by {
                                assert(self.shelves@[shelf - 1].levels@[level - 1].zones@[(m + 1)
                                    - 1] == pre.shelves@[shelf - 1].levels@[level - 1].zones@[(m
                                    + 1) - 1]);
                            }
                        }
                    }
                    return Err(e);
                },
            }
        }
        Ok(())
    }
}

/// Pushing onto a sequence of triples keeps everything it contained.
pub proof fn lemma_push_keeps_triples(s: Seq<(usize, usize, usize)>, x: (usize, usize, usize))
    ensures
        forall|y: (usize, usize, usize)| s.contains(y) ==> #[trigger] s.push(x).contains(y),
        s.push(x).contains(x),
{
    assert forall|y: (usize, usize, usize)| s.contains(y) implies #[trigger] s.push(x).contains(
        y,
    ) by {
        let k = choose|k: int| 0 <= k < s.len() && s[k] == y;
        assert(s.push(x)[k] == y);
    }
    assert(s.push(x)[s.len() as int] == x);
}

/// Turns a catalog failure seen while building one placed unit into the
/// spatial error vocabulary.
pub fn translate_item_error(e: ProductErrorMessage) -> (r: ErrorMessage)
    ensures
        e == ProductErrorMessage::ProductNotFound ==> r == ErrorMessage::ProductNotListed,
        e == ProductErrorMessage::LevelTooHigh ==> r == ErrorMessage::LevelTooHigh,
        e == ProductErrorMessage::FragileObjectWithoutExpiration ==> r
            == ErrorMessage::FragileObjectWithoutExpiration,
        e == ProductErrorMessage::NotEnoughQuantity ==> r == ErrorMessage::InsufficientStock,
        e == ProductErrorMessage::NameExists || e == ProductErrorMessage::InvalidInput ==> r
            == ErrorMessage::ProductNotListed,
{
    match e {
        ProductErrorMessage::ProductNotFound => ErrorMessage::ProductNotListed,
        ProductErrorMessage::LevelTooHigh => ErrorMessage::LevelTooHigh,
        ProductErrorMessage::FragileObjectWithoutExpiration => {
            ErrorMessage::FragileObjectWithoutExpiration
        },
        ProductErrorMessage::NotEnoughQuantity => ErrorMessage::InsufficientStock,
        ProductErrorMessage::NameExists => ErrorMessage::ProductNotListed,
        ProductErrorMessage::InvalidInput => ErrorMessage::ProductNotListed,
    }
}

} // verus!