use vstd::prelude::*;
use vstd::multiset::Multiset;

use crate::date::{spec_date_le, Date};
use crate::level::{spec_item_at, spec_run_vacant};
use crate::messages::{ErrorMessage, PlacementStrategy};
use crate::product::{spec_max_level, spec_zones_required, ProductItem, ProductList, Quality};
use crate::row::{
    spec_shelves_cap, spec_shelves_items, spec_shelves_occ, spec_shelves_omap, spec_shelves_vacant,
    Row,
};
use crate::zone::{spec_anchor_item, ItemPart, Zone};

verus! {

/// The whole store: rows of shelves of levels of zones, a vacancy counter
/// that always equals the number of vacant zones underneath, and the
/// placement strategy in force.
#[derive(Clone, Debug)]
pub struct Warehouse {
    pub available_space: usize,
    pub rows: Vec<Row>,
    pub strategy: PlacementStrategy,
}

pub open spec fn spec_rows_cap(rs: Seq<Row>) -> nat
    decreases rs.len(),
{
    if rs.len() == 0 {
        0
    } else {
        spec_rows_cap(rs.drop_last()) + rs.last().cap()
    }
}

pub open spec fn spec_rows_vacant(rs: Seq<Row>) -> nat
    decreases rs.len(),
{
    if rs.len() == 0 {
        0
    } else {
        spec_rows_vacant(rs.drop_last()) + spec_shelves_vacant(rs.last().shelves@)
    }
}

/// The occupancy of the whole warehouse: rows concatenated in order.
pub open spec fn spec_rows_occ(rs: Seq<Row>) -> Seq<bool>
    decreases rs.len(),
{
    if rs.len() == 0 {
        Seq::empty()
    } else {
        spec_rows_occ(rs.drop_last()) + spec_shelves_occ(rs.last().shelves@)
    }
}

pub open spec fn spec_rows_omap(rs: Seq<Row>, zr: nat) -> Seq<u8>
    decreases rs.len(),
{
    if rs.len() == 0 {
        Seq::empty()
    } else {
        spec_rows_omap(rs.drop_last(), zr) + spec_shelves_omap(rs.last().shelves@, zr)
    }
}

pub open spec fn spec_rows_items(rs: Seq<Row>) -> Seq<ProductItem>
    decreases rs.len(),
{
    if rs.len() == 0 {
        Seq::empty()
    } else {
        spec_rows_items(rs.drop_last()) + spec_shelves_items(rs.last().shelves@)
    }
}

pub proof fn lemma_rows_take_step(rs: Seq<Row>, i: int)
    requires
        0 <= i < rs.len(),
    ensures
        spec_rows_cap(rs.take(i + 1)) == spec_rows_cap(rs.take(i)) + rs[i].cap(),
        spec_rows_vacant(rs.take(i + 1)) == spec_rows_vacant(rs.take(i)) + spec_shelves_vacant(
            rs[i].shelves@,
        ),
        spec_rows_occ(rs.take(i + 1)) == spec_rows_occ(rs.take(i)) + spec_shelves_occ(
            rs[i].shelves@,
        ),
        spec_rows_items(rs.take(i + 1)) == spec_rows_items(rs.take(i)) + spec_shelves_items(
            rs[i].shelves@,
        ),
{
    assert(rs.take(i + 1).drop_last() =~= rs.take(i));
    assert(rs.take(i + 1).last() == rs[i]);
}

pub proof fn lemma_rows_omap_take_step(rs: Seq<Row>, i: int, zr: nat)
    requires
        0 <= i < rs.len(),
    ensures
        spec_rows_omap(rs.take(i + 1), zr) == spec_rows_omap(rs.take(i), zr) + spec_shelves_omap(
            rs[i].shelves@,
            zr,
        ),
{
    assert(rs.take(i + 1).drop_last() =~= rs.take(i));
    assert(rs.take(i + 1).last() == rs[i]);
}

pub proof fn lemma_rows_update(rs: Seq<Row>, i: int, row: Row)
    requires
        0 <= i < rs.len(),
    ensures
        spec_rows_cap(rs.update(i, row)) == spec_rows_cap(rs) - rs[i].cap() + row.cap(),
        spec_rows_vacant(rs.update(i, row)) == spec_rows_vacant(rs) - spec_shelves_vacant(
            rs[i].shelves@,
        ) + spec_shelves_vacant(row.shelves@),
    decreases rs.len(),
{
    let updated = rs.update(i, row);
    if i == rs.len() - 1 {
        assert(updated.drop_last() =~= rs.drop_last());
    } else {
        lemma_rows_update(rs.drop_last(), i, row);
        assert(updated.drop_last() =~= rs.drop_last().update(i, row));
    }
}

pub proof fn lemma_rows_vacant_le_cap(rs: Seq<Row>)
    ensures
        spec_rows_vacant(rs) <= spec_rows_cap(rs),
    decreases rs.len(),
{
    if rs.len() > 0 {
        lemma_rows_vacant_le_cap(rs.drop_last());
        crate::row::lemma_shelves_vacant_le_cap(rs.last().shelves@);
    }
}

pub proof fn lemma_rows_cap_prefix_bound(rs: Seq<Row>, i: int)
    requires
        0 <= i < rs.len(),
    ensures
        spec_rows_cap(rs.take(i + 1)) <= spec_rows_cap(rs),
    decreases rs.len(),
{
    if i + 1 == rs.len() {
        assert(rs.take(i + 1) =~= rs);
    } else {
        lemma_rows_cap_prefix_bound(rs.drop_last(), i);
        assert(rs.drop_last().take(i + 1) =~= rs.take(i + 1));
    }
}

/// How many oversized units of width `zr` the rows can hold in all.
pub open spec fn spec_rows_ocap(rs: Seq<Row>, zr: nat) -> nat
    decreases rs.len(),
{
    if rs.len() == 0 {
        0
    } else {
        spec_rows_ocap(rs.drop_last(), zr) + crate::row::spec_shelves_ocap(rs.last().shelves@, zr)
    }
}

/// A row holds no more oversized units than zones.
pub proof fn lemma_shelves_ocap_le_cap(ss: Seq<crate::shelf::Shelf>, zr: nat)
    requires
        zr >= 1,
    ensures
        crate::row::spec_shelves_ocap(ss, zr) <= crate::row::spec_shelves_cap(ss),
    decreases ss.len(),
{
    if ss.len() > 0 {
        lemma_shelves_ocap_le_cap(ss.drop_last(), zr);
        crate::shelf::lemma_levels_ocap_le_cap(ss.last().levels@, zr);
    }
}

/// A freshly built uniform store: `rows` rows of `shelves` shelves of
/// `levels` levels of `zones` zones, every zone vacant.
pub open spec fn spec_fresh_grid(w: Warehouse, rows: int, shelves: int, levels: int, zones: int) -> bool {
    &&& w.rows@.len() == rows
    &&& forall|r: int| 0 <= r < rows ==> (#[trigger] w.rows@[r]).shelves@.len() == shelves
    &&& forall|r: int, s: int|
        0 <= r < rows && 0 <= s < shelves ==> (#[trigger] w.rows@[r].shelves@[s]).levels@.len()
            == levels
    &&& forall|r: int, s: int, l: int|
        0 <= r < rows && 0 <= s < shelves && 0 <= l < levels ==> (#[trigger] w.rows@[r].shelves@[
        s].levels@[l]).zones@.len() == zones
    &&& forall|r: int, s: int, l: int, z: int|
        0 <= r < rows && 0 <= s < shelves && 0 <= l < levels && 0 <= z < zones ==> (
        #[trigger] w.rows@[r].shelves@[s].levels@[l].zones@[z]).is_vacant()
}

impl Warehouse {
    pub open spec fn cap(self) -> nat {
        spec_rows_cap(self.rows@)
    }

    pub open spec fn numbered(self) -> bool {
        forall|i: int| 0 <= i < self.rows@.len() ==> (#[trigger] self.rows@[i].number) == i + 1
    }

    pub open spec fn wf(self) -> bool {
        &&& self.numbered()
        &&& forall|i: int| 0 <= i < self.rows@.len() ==> (#[trigger] self.rows@[i]).wf()
        &&& self.available_space == spec_rows_vacant(self.rows@)
        &&& spec_rows_cap(self.rows@) <= usize::MAX
    }

    /// The anchor items stored anywhere in the warehouse, in traversal order.
    pub open spec fn spec_items(self) -> Seq<ProductItem> {
        spec_rows_items(self.rows@)
    }

    pub fn new() -> (r: Warehouse)
        ensures
            r.available_space == 0,
            r.rows@.len() == 0,
            r.strategy == PlacementStrategy::Contiguous,
            r.wf(),
            r.cap() == 0,
    {
        Warehouse { available_space: 0, rows: Vec::new(), strategy: PlacementStrategy::Contiguous }
    }

    /// Appends one row; its number must continue the 1-based order and the
    /// grown warehouse must still fit the machine word.
    pub fn add_row(&mut self, row: Row)
        requires
            old(self).wf(),
            row.wf(),
            row.number == old(self).rows@.len() + 1,
            old(self).cap() + row.cap() <= usize::MAX,
            old(self).rows@.len() < usize::MAX,
        ensures
            final(self).wf(),
            final(self).rows@ == old(self).rows@.push(row),
            final(self).strategy == old(self).strategy,
            final(self).available_space == old(self).available_space + spec_shelves_vacant(
                row.shelves@,
            ),
            final(self).cap() == old(self).cap() + row.cap(),
    {
        proof {
            lemma_rows_vacant_le_cap(self.rows@);
            crate::row::lemma_shelves_vacant_le_cap(row.shelves@);
        }
        let added = row.available_space;
        self.available_space = self.available_space + added;
        self.rows.push(row);
        proof {
            assert(self.rows@.drop_last() =~= old(self).rows@);
        }
    }

    /// Builds the whole tree: rows of shelves of levels of zones, every zone
    /// vacant, everything numbered from 1.
    pub fn initialize_rows(
        &mut self,
        row_count: usize,
        shelves_per_row: usize,
        levels_per_shelf: usize,
        zone_per_level: usize,
    )
        requires
            old(self).wf(),
            old(self).rows@.len() == 0,
            row_count < usize::MAX,
            shelves_per_row < usize::MAX,
            levels_per_shelf < usize::MAX,
            zone_per_level < usize::MAX,
            row_count * shelves_per_row * levels_per_shelf * zone_per_level <= usize::MAX,
        ensures
            final(self).wf(),
            final(self).strategy == old(self).strategy,
            final(self).rows@.len() == row_count,
            final(self).cap() == row_count * shelves_per_row * levels_per_shelf * zone_per_level,
            final(self).available_space == row_count * shelves_per_row * levels_per_shelf
                * zone_per_level,
            spec_fresh_grid(
                *final(self),
                row_count as int,
                shelves_per_row as int,
                levels_per_shelf as int,
                zone_per_level as int,
            ),
    {
        for i in 1..row_count + 1
            invariant
                self.wf(),
                self.strategy == old(self).strategy,
                self.rows@.len() == i - 1,
                row_count < usize::MAX,
                shelves_per_row < usize::MAX,
                levels_per_shelf < usize::MAX,
                zone_per_level < usize::MAX,
                row_count * shelves_per_row * levels_per_shelf * zone_per_level <= usize::MAX,
                self.cap() == (i - 1) * (shelves_per_row * levels_per_shelf * zone_per_level),
                self.available_space == (i - 1) * (shelves_per_row * levels_per_shelf
                    * zone_per_level),
                spec_fresh_grid(
                    *self,
                    i - 1,
                    shelves_per_row as int,
                    levels_per_shelf as int,
                    zone_per_level as int,
                ),
        {
            let mut row = Row::new(i);
            proof {
                assert(shelves_per_row * levels_per_shelf * zone_per_level <= usize::MAX)
                    by (nonlinear_arith)
                    requires
                        1 <= i <= row_count,
                        row_count * shelves_per_row * levels_per_shelf * zone_per_level
                            <= usize::MAX,
                        row_count >= 1 && shelves_per_row >= 0 && levels_per_shelf >= 0
                            && zone_per_level >= 0,
                ;
            }
            row.initialize_shelves(shelves_per_row, levels_per_shelf, zone_per_level);
            proof {
                assert((i - 1) * (shelves_per_row * levels_per_shelf * zone_per_level)
                    + shelves_per_row * levels_per_shelf * zone_per_level == i * (shelves_per_row
                    * levels_per_shelf * zone_per_level)) by (nonlinear_arith);
                assert(i * (shelves_per_row * levels_per_shelf * zone_per_level) <= row_count
                    * shelves_per_row * levels_per_shelf * zone_per_level) by (nonlinear_arith)
                    requires
                        1 <= i <= row_count,
                        shelves_per_row >= 0 && levels_per_shelf >= 0 && zone_per_level >= 0,
                ;
            }
            self.add_row(row);
        }
        proof {
            assert((row_count + 1 - 1) * (shelves_per_row * levels_per_shelf * zone_per_level)
                == row_count * shelves_per_row * levels_per_shelf * zone_per_level)
                by (nonlinear_arith);
        }
    }

    /// The row carrying the 1-based number, if it exists.
    pub fn row(&self, row_number: usize) -> (r: Option<&Row>)
        requires
            self.wf(),
        ensures
            match r {
                Some(row) => 1 <= row_number <= self.rows@.len() && *row == self.rows@[row_number
                    - 1],
                None => !(1 <= row_number <= self.rows@.len()),
            },
    {
        if 1 <= row_number && row_number <= self.rows.len() {
            Some(&self.rows[row_number - 1])
        } else {
            None
        }
    }

    /// The zone at (row, shelf, level, zone), all 1-based, if the path
    /// resolves.
    pub fn zone(
        &self,
        row_number: usize,
        shelf_number: usize,
        level_number: usize,
        zone_number: usize,
    ) -> (r: Option<&Zone>)
        requires
            self.wf(),
        ensures
            match r {
                Some(z) => spec_coord_valid(
                    *self,
                    row_number as int,
                    shelf_number as int,
                    level_number as int,
                    zone_number as int,
                ) && *z == self.rows@[row_number - 1].shelves@[shelf_number - 1].levels@[level_number
                    - 1].zones@[zone_number - 1],
                None => !spec_coord_valid(
                    *self,
                    row_number as int,
                    shelf_number as int,
                    level_number as int,
                    zone_number as int,
                ),
            },
    {
        if row_number < 1 || row_number > self.rows.len() {
            return None;
        }
        let row = &self.rows[row_number - 1];
        if shelf_number < 1 || shelf_number > row.shelves.len() {
            return None;
        }
        let shelf = &row.shelves[shelf_number - 1];
        if level_number < 1 || level_number > shelf.levels.len() {
            return None;
        }
        let level = &shelf.levels[level_number - 1];
        if zone_number < 1 || zone_number > level.zones.len() {
            return None;
        }
        Some(&level.zones[zone_number - 1])
    }

    #[verifier::loop_isolation(false)]
    pub fn check_capacity(&self) -> (r: usize)
        requires
            self.wf(),
        ensures
            r == self.cap(),
    {
        let mut total: usize = 0;
        let mut i: usize = 0;
        while i < self.rows.len()
            invariant
                total == spec_rows_cap(self.rows@.take(i as int)),
                i <= self.rows@.len(),
            decreases self.rows@.len() - i,
        {
            proof {
                lemma_rows_take_step(self.rows@, i as int);
                lemma_rows_cap_prefix_bound(self.rows@, i as int);
            }
            total = total + self.rows[i].check_capacity();
            i = i + 1;
        }
        proof {
            assert(self.rows@.take(self.rows@.len() as int) =~= self.rows@);
        }
        total
    }

    #[verifier::loop_isolation(false)]
    pub fn check_oversized_capacity(&self, zones_required: usize) -> (r: usize)
        requires
            self.wf(),
            zones_required >= 1,
        ensures
            r == spec_rows_ocap(self.rows@, zones_required as nat),
    {
        let mut total: usize = 0;
        let mut i: usize = 0;
        while i < self.rows.len()
            invariant
                total == spec_rows_ocap(self.rows@.take(i as int), zones_required as nat),
                total <= spec_rows_cap(self.rows@.take(i as int)),
                i <= self.rows@.len(),
            decreases self.rows@.len() - i,
        {
            proof {
                assert(self.rows@.take(i + 1).drop_last() =~= self.rows@.take(i as int));
                lemma_rows_take_step(self.rows@, i as int);
                lemma_rows_cap_prefix_bound(self.rows@, i as int);
                lemma_shelves_ocap_le_cap(self.rows@[i as int].shelves@, zones_required as nat);
            }
            total = total + self.rows[i].check_oversized_capacity(zones_required);
            i = i + 1;
        }
        proof {
            assert(self.rows@.take(self.rows@.len() as int) =~= self.rows@);
        }
        total
    }

    pub fn is_full(&self) -> (r: bool)
        ensures
            r == (self.available_space == 0),
    {
        self.available_space == 0
    }

    pub fn is_empty(&self) -> (r: bool)
        requires
            self.wf(),
        ensures
            r == (spec_rows_vacant(self.rows@) == spec_rows_cap(self.rows@)),
    {
        proof {
            lemma_rows_vacant_le_cap(self.rows@);
        }
        let total = self.check_capacity();
        self.available_space == total
    }

    /// The occupancy of the whole warehouse, row after row.
    #[verifier::loop_isolation(false)]
    pub fn flat_map(&self) -> (r: Vec<bool>)
        requires
            self.wf(),
        ensures
            r@ == spec_rows_occ(self.rows@),
    {
        let mut out: Vec<bool> = Vec::new();
        let mut i: usize = 0;
        proof {
            assert(self.rows@.take(0) =~= Seq::<Row>::empty());
        }
        while i < self.rows.len()
            invariant
                out@ == spec_rows_occ(self.rows@.take(i as int)),
                i <= self.rows@.len(),
            decreases self.rows@.len() - i,
        {
            proof {
                lemma_rows_take_step(self.rows@, i as int);
            }
            let mut part = self.rows[i].flat_map();
            out.append(&mut part);
            i = i + 1;
        }
        proof {
            assert(self.rows@.take(self.rows@.len() as int) =~= self.rows@);
        }
        out
    }

    /// The oversized occupancy of the whole warehouse, row after row.
    #[verifier::loop_isolation(false)]
    pub fn oversized_flat_map(&self, zones_required: usize) -> (r: Vec<u8>)
        requires
            self.wf(),
            zones_required >= 1,
        ensures
            r@ == spec_rows_omap(self.rows@, zones_required as nat),
    {
        let mut out: Vec<u8> = Vec::new();
        let mut i: usize = 0;
        proof {
            assert(self.rows@.take(0) =~= Seq::<Row>::empty());
        }
        while i < self.rows.len()
            invariant
                out@ == spec_rows_omap(self.rows@.take(i as int), zones_required as nat),
                i <= self.rows@.len(),
            decreases self.rows@.len() - i,
        {
            proof {
                lemma_rows_omap_take_step(self.rows@, i as int, zones_required as nat);
            }
            let mut part = self.rows[i].oversized_flat_map(zones_required);
            out.append(&mut part);
            i = i + 1;
        }
        proof {
            assert(self.rows@.take(self.rows@.len() as int) =~= self.rows@);
        }
        out
    }

    /// Translates a 0-based position in the warehouse flat map back into the
    /// 1-based coordinate (row, shelf, level, zone).
    #[verifier::loop_isolation(false)]
    pub fn flat_map_position_to_zone(&self, position: usize) -> (r: Option<
        (usize, usize, usize, usize),
    >)
        requires
            self.wf(),
        ensures
            match r {
                Some(found) => spec_coord_valid(
                    *self,
                    found.0 as int,
                    found.1 as int,
                    found.2 as int,
                    found.3 as int,
                ) && position == spec_coord_index(
                    *self,
                    found.0 as int,
                    found.1 as int,
                    found.2 as int,
                    found.3 as int,
                ),
                None => position >= self.cap(),
            },
    {
        let mut cumulative: usize = 0;
        let mut i: usize = 0;
        while i < self.rows.len()
            invariant
                cumulative == spec_rows_cap(self.rows@.take(i as int)),
                i <= self.rows@.len(),
                position >= cumulative,
            decreases self.rows@.len() - i,
        {
            proof {
                lemma_rows_take_step(self.rows@, i as int);
                lemma_rows_cap_prefix_bound(self.rows@, i as int);
            }
            let row_capacity = self.rows[i].check_capacity();
            if position - cumulative < row_capacity {
                match self.rows[i].flat_map_position_to_zone(position - cumulative) {
                    Some(found) => {
                        return Some((i + 1, found.0, found.1, found.2));
                    },
                    None => {
                        proof {
                            assert(false);
                        }
                        return None;
                    },
                }
            }
            cumulative = cumulative + row_capacity;
            i = i + 1;
        }
        proof {
            assert(self.rows@.take(self.rows@.len() as int) =~= self.rows@);
        }
        None
    }

    /// As `flat_map_position_to_zone`: the oversized map keeps lengths, so a
    /// position found in it translates exactly as in the plain map.
    pub fn oversized_flat_map_position_to_zone(
        &self,
        position: usize,
        zones_required: usize,
    ) -> (r: Option<(usize, usize, usize, usize)>)
        requires
            self.wf(),
            zones_required >= 1,
        ensures
            match r {
                Some(found) => spec_coord_valid(
                    *self,
                    found.0 as int,
                    found.1 as int,
                    found.2 as int,
                    found.3 as int,
                ) && position == spec_coord_index(
                    *self,
                    found.0 as int,
                    found.1 as int,
                    found.2 as int,
                    found.3 as int,
                ),
                None => position >= self.cap(),
            },
    {
        self.flat_map_position_to_zone(position)
    }

    /// Whether some anchor in the warehouse carries the product id.
    pub fn contains_product(&self, product_id: u64) -> (r: bool)
        requires
            self.wf(),
        ensures
            r == exists|w: int, s: int, a: int, b: int|
                0 <= w < self.rows@.len() && 0 <= s < (#[trigger] self.rows@[w]).shelves@.len() && 0
                    <= a < (#[trigger] self.rows@[w].shelves@[s]).levels@.len() && 0 <= b < (
                #[trigger] self.rows@[w].shelves@[s].levels@[a]).zones@.len() && (spec_anchor_item(
                    #[trigger] self.rows@[w].shelves@[s].levels@[a].zones@[b],
                ) matches Some(it) && it.id == product_id),
    {
        let mut w: usize = 0;
        while w < self.rows.len()
            invariant
                self.wf(),
                w <= self.rows@.len(),
                forall|x: int, s: int, a: int, b: int|
                    0 <= x < w && 0 <= s < (#[trigger] self.rows@[x]).shelves@.len() && 0 <= a < (
                    #[trigger] self.rows@[x].shelves@[s]).levels@.len() && 0 <= b < (
                    #[trigger] self.rows@[x].shelves@[s].levels@[a]).zones@.len() ==> !(
                    spec_anchor_item(
                        #[trigger] self.rows@[x].shelves@[s].levels@[a].zones@[b],
                    ) matches Some(it) && it.id == product_id),
            decreases self.rows@.len() - w,
        {
            if self.rows[w].contains_product(product_id) {
                return true;
            }
            w = w + 1;
        }
        false
    }

    /// Stores a single-zone unit at (row, shelf, level, zone), all 1-based.
    /// An occupied target zone is never overwritten: it answers
    /// `ZoneOccupied` and the warehouse is unchanged.
    pub fn add_item(
        &mut self,
        row_number: usize,
        shelf_number: usize,
        level_number: usize,
        zone_number: usize,
        item: ProductItem,
    ) -> (r: Result<(), ErrorMessage>)
        requires
            old(self).wf(),
            item.zones_required == 1,
        ensures
            final(self).wf(),
            final(self).strategy == old(self).strategy,
            final(self).cap() == old(self).cap(),
            final(self).rows@.len() == old(self).rows@.len(),
            r is Err ==> *final(self) == *old(self),
            !(1 <= row_number <= old(self).rows@.len()) ==> r == Err::<(), ErrorMessage>(
                ErrorMessage::RowNotFound,
            ),
            1 <= row_number <= old(self).rows@.len() ==> {
                let row = old(self).rows@[row_number - 1];
                if !(1 <= shelf_number <= row.shelves@.len()) {
                    r == Err::<(), ErrorMessage>(ErrorMessage::ShelfNotFound)
                } else {
                    let sh = row.shelves@[shelf_number - 1];
                    if !(1 <= level_number <= sh.levels@.len()) {
                        r == Err::<(), ErrorMessage>(ErrorMessage::LevelNotFound)
                    } else {
                        let lvl = sh.levels@[level_number - 1];
                        if !(1 <= zone_number <= lvl.zones@.len()) {
                            r == Err::<(), ErrorMessage>(ErrorMessage::ZoneNotFound)
                        } else if !lvl.zones@[zone_number - 1].is_vacant() {
                            r == Err::<(), ErrorMessage>(ErrorMessage::ZoneOccupied)
                        } else {
                            &&& r is Ok
                            &&& final(self).available_space == old(self).available_space - 1
                            &&& final(self).rows@ == old(self).rows@.update(
                                row_number - 1,
                                final(self).rows@[row_number - 1],
                            )
                            &&& final(self).rows@[row_number - 1].shelves@.len()
                                == row.shelves@.len()
                            &&& final(self).rows@[row_number - 1].shelves@ == row.shelves@.update(
                                shelf_number - 1,
                                final(self).rows@[row_number - 1].shelves@[shelf_number - 1],
                            )
                            &&& final(self).rows@[row_number - 1].shelves@[shelf_number
                                - 1].levels@ == sh.levels@.update(
                                level_number - 1,
                                final(self).rows@[row_number - 1].shelves@[shelf_number
                                    - 1].levels@[level_number - 1],
                            )
                            &&& final(self).rows@[row_number - 1].available_space
                                == row.available_space - 1
                            &&& final(self).rows@[row_number - 1].shelves@[shelf_number
                                - 1].available_space == sh.available_space - 1
                            &&& final(self).rows@[row_number - 1].shelves@[shelf_number
                                - 1].levels@[level_number - 1].available_space
                                == lvl.available_space - 1
                            &&& final(self).rows@[row_number - 1].shelves@[shelf_number
                                - 1].levels@[level_number - 1].zones@ == lvl.zones@.update(
                                zone_number - 1,
                                (Zone {
                                    number: zone_number,
                                    item: Some(ItemPart::WholeProduct(item)),
                                }),
                            )
                        }
                    }
                }
            },
    {
        if row_number < 1 || row_number > self.rows.len() {
            return Err(ErrorMessage::RowNotFound);
        }
        let idx = row_number - 1;
        if shelf_number < 1 || shelf_number > self.rows[idx].shelves.len() {
            return Err(ErrorMessage::ShelfNotFound);
        }
        let sidx = shelf_number - 1;
        if level_number < 1 || level_number > self.rows[idx].shelves[sidx].levels.len() {
            return Err(ErrorMessage::LevelNotFound);
        }
        let lidx = level_number - 1;
        if zone_number < 1 || zone_number > self.rows[idx].shelves[sidx].levels[lidx].zones.len() {
            return Err(ErrorMessage::ZoneNotFound);
        }
        if !self.rows[idx].shelves[sidx].levels[lidx].zones[zone_number - 1].is_empty() {
            return Err(ErrorMessage::ZoneOccupied);
        }
        let row = &mut self.rows[idx];
        let outcome = row.add_item(shelf_number, level_number, zone_number, item);
        match outcome {
            Ok(()) => {
                proof {
                    lemma_rows_update(old(self).rows@, idx as int, self.rows@[idx as int]);
                    assert(self.rows@ =~= old(self).rows@.update(idx as int, self.rows@[idx as int]));
                }
                self.available_space = self.available_space - 1;
                Ok(())
            },
            Err(e) => {
                proof {
                    assert(false);
                }
                Err(e)
            },
        }
    }

    /// Lays an oversized unit down at (row, shelf, level, zone); the whole
    /// span stays inside that one level.
    pub fn add_oversized_item(
        &mut self,
        row_number: usize,
        shelf_number: usize,
        level_number: usize,
        zone_number: usize,
        item: ProductItem,
    ) -> (r: Result<(), ErrorMessage>)
        requires
            old(self).wf(),
            item.zones_required >= 2,
        ensures
            final(self).wf(),
            final(self).strategy == old(self).strategy,
            final(self).cap() == old(self).cap(),
            final(self).rows@.len() == old(self).rows@.len(),
            r is Err ==> *final(self) == *old(self),
            !(1 <= row_number <= old(self).rows@.len()) ==> r == Err::<(), ErrorMessage>(
                ErrorMessage::RowNotFound,
            ),
            1 <= row_number <= old(self).rows@.len() ==> {
                let row = old(self).rows@[row_number - 1];
                if !(1 <= shelf_number <= row.shelves@.len()) {
                    r == Err::<(), ErrorMessage>(ErrorMessage::ShelfNotFound)
                } else {
                    let sh = row.shelves@[shelf_number - 1];
                    if !(1 <= level_number <= sh.levels@.len()) {
                        r == Err::<(), ErrorMessage>(ErrorMessage::LevelNotFound)
                    } else {
                        let lvl = sh.levels@[level_number - 1];
                        if !(1 <= zone_number <= lvl.zones@.len()) {
                            r == Err::<(), ErrorMessage>(ErrorMessage::ZoneNotFound)
                        } else if zone_number - 1 + item.zones_required > lvl.zones@.len() {
                            r == Err::<(), ErrorMessage>(ErrorMessage::InsufficientSpace)
                        } else if !spec_run_vacant(
                            lvl.zones@,
                            zone_number - 1,
                            item.zones_required as int,
                        ) {
                            r == Err::<(), ErrorMessage>(ErrorMessage::ZoneOccupied)
                        } else {
                            &&& r is Ok
                            &&& final(self).available_space == old(self).available_space
                                - item.zones_required
                            &&& final(self).rows@ == old(self).rows@.update(
                                row_number - 1,
                                final(self).rows@[row_number - 1],
                            )
                            &&& final(self).rows@[row_number - 1].shelves@.len()
                                == row.shelves@.len()
                            &&& final(self).rows@[row_number - 1].shelves@ == row.shelves@.update(
                                shelf_number - 1,
                                final(self).rows@[row_number - 1].shelves@[shelf_number - 1],
                            )
                            &&& final(self).rows@[row_number - 1].shelves@[shelf_number
                                - 1].levels@ == sh.levels@.update(
                                level_number - 1,
                                final(self).rows@[row_number - 1].shelves@[shelf_number
                                    - 1].levels@[level_number - 1],
                            )
                            &&& final(self).rows@[row_number - 1].available_space
                                == row.available_space - item.zones_required
                            &&& final(self).rows@[row_number - 1].shelves@[shelf_number
                                - 1].available_space == sh.available_space - item.zones_required
                            &&& final(self).rows@[row_number - 1].shelves@[shelf_number
                                - 1].levels@[level_number - 1].available_space
                                == lvl.available_space - item.zones_required
                            &&& final(self).rows@[row_number - 1].shelves@[shelf_number
                                - 1].levels@[level_number - 1].zones@.len() == lvl.zones@.len()
                            &&& forall|j: int|
                                0 <= j < lvl.zones@.len() && !(zone_number - 1 <= j <= zone_number
                                    - 1 + item.zones_required - 1) ==> (#[trigger] final(self).rows@[row_number - 1].shelves@[shelf_number - 1].levels@[
                                level_number - 1].zones@[j]) == lvl.zones@[j]
                            &&& final(self).rows@[row_number - 1].shelves@[shelf_number
                                - 1].levels@[level_number - 1].zones@[zone_number - 1].item == Some(
                                ItemPart::ProductStart(
                                    item,
                                    (zone_number + item.zones_required - 1) as usize,
                                ),
                            )
                        }
                    }
                }
            },
    {
        if row_number < 1 || row_number > self.rows.len() {
            return Err(ErrorMessage::RowNotFound);
        }
        let idx = row_number - 1;
        if shelf_number < 1 || shelf_number > self.rows[idx].shelves.len() {
            return Err(ErrorMessage::ShelfNotFound);
        }
        let sidx = shelf_number - 1;
        if level_number < 1 || level_number > self.rows[idx].shelves[sidx].levels.len() {
            return Err(ErrorMessage::LevelNotFound);
        }
        let lidx = level_number - 1;
        let zones_required = item.zones_required;
        match self.rows[idx].shelves[sidx].levels[lidx].check_if_fits(zone_number, zones_required) {
            Ok(()) => {},
            Err(e) => {
                return Err(e);
            },
        }
        let row = &mut self.rows[idx];
        let outcome = row.add_oversized_item(shelf_number, level_number, zone_number, item);
        match outcome {
            Ok(()) => {
                proof {
                    lemma_rows_update(old(self).rows@, idx as int, self.rows@[idx as int]);
                    assert(self.rows@ =~= old(self).rows@.update(idx as int, self.rows@[idx as int]));
                }
                self.available_space = self.available_space - zones_required;
                Ok(())
            },
            Err(e) => {
                proof {
                    assert(false);
                }
                Err(e)
            },
        }
    }

    /// Clears whatever unit occupies (row, shelf, level, zone): a whole item
    /// directly, a span through its start. Fragments of a span may not be
    /// removed on their own.
    pub fn remove_item(
        &mut self,
        row_number: usize,
        shelf_number: usize,
        level_number: usize,
        zone_number: usize,
    ) -> (r: Result<(), ErrorMessage>)
        requires
            old(self).wf(),
        ensures
            final(self).wf(),
            final(self).strategy == old(self).strategy,
            final(self).cap() == old(self).cap(),
            final(self).rows@.len() == old(self).rows@.len(),
            r is Err ==> *final(self) == *old(self),
            r != Err::<(), ErrorMessage>(ErrorMessage::ProductNotListed),
            r is Ok ==> final(self).available_space >= old(self).available_space + 1,
            !(1 <= row_number <= old(self).rows@.len()) ==> r == Err::<(), ErrorMessage>(
                ErrorMessage::RowNotFound,
            ),
            1 <= row_number <= old(self).rows@.len() && !(1 <= shelf_number <= old(self).rows@[
                row_number - 1
            ].shelves@.len()) ==> r == Err::<(), ErrorMessage>(ErrorMessage::ShelfNotFound),
            1 <= row_number <= old(self).rows@.len() && 1 <= shelf_number <= old(self).rows@[
                row_number - 1
            ].shelves@.len() && !(1 <= level_number <= old(self).rows@[row_number - 1].shelves@[
                shelf_number - 1
            ].levels@.len()) ==> r == Err::<(), ErrorMessage>(ErrorMessage::LevelNotFound),
            1 <= row_number <= old(self).rows@.len() && 1 <= shelf_number <= old(self).rows@[
                row_number - 1
            ].shelves@.len() && 1 <= level_number <= old(self).rows@[row_number - 1].shelves@[
                shelf_number - 1
            ].levels@.len() && !(1 <= zone_number <= old(self).rows@[row_number - 1].shelves@[
                shelf_number - 1
            ].levels@[level_number - 1].zones@.len()) ==> r == Err::<(), ErrorMessage>(
                ErrorMessage::ZoneNotFound,
            ),
            r is Ok ==> final(self).rows@ == old(self).rows@.update(
                row_number - 1,
                final(self).rows@[row_number - 1],
            ),
            spec_coord_valid(
                *old(self),
                row_number as int,
                shelf_number as int,
                level_number as int,
                zone_number as int,
            ) ==> {
                let lvl = old(self).rows@[row_number - 1].shelves@[shelf_number - 1].levels@[
                    level_number - 1
                ];
                let row = old(self).rows@[row_number - 1];
                let sh = row.shelves@[shelf_number - 1];
                match lvl.zones@[zone_number - 1].item {
                    None => r == Err::<(), ErrorMessage>(ErrorMessage::ZoneEmpty),
                    Some(ItemPart::WholeProduct(_)) => r is Ok && final(self).available_space
                        == old(self).available_space + 1 && final(self).rows@[row_number
                        - 1].shelves@ == row.shelves@.update(
                        shelf_number - 1,
                        final(self).rows@[row_number - 1].shelves@[shelf_number - 1],
                    ) && final(self).rows@[row_number - 1].shelves@[shelf_number - 1].levels@
                        == sh.levels@.update(
                        level_number - 1,
                        final(self).rows@[row_number - 1].shelves@[shelf_number - 1].levels@[
                            level_number - 1
                        ],
                    ) && final(self).rows@[row_number - 1].available_space == row.available_space
                        + 1 && final(self).rows@[row_number - 1].shelves@[shelf_number
                        - 1].available_space == sh.available_space + 1 && final(self).rows@[
                    row_number - 1].shelves@[shelf_number - 1].levels@[level_number
                        - 1].available_space == lvl.available_space + 1 && final(self).rows@[
                    row_number - 1].shelves@[shelf_number - 1].levels@[level_number - 1].zones@
                        == lvl.zones@.update(
                        zone_number - 1,
                        (Zone { number: zone_number, item: None }),
                    ),
                    Some(ItemPart::ProductStart(_, _)) => {
                        let end = crate::level::spec_span_end(lvl.zones@, zone_number as int);
                        r is Ok && final(self).available_space == old(self).available_space + (end
                            - zone_number + 1) && final(self).rows@[row_number - 1].shelves@
                            == row.shelves@.update(
                            shelf_number - 1,
                            final(self).rows@[row_number - 1].shelves@[shelf_number - 1],
                        ) && final(self).rows@[row_number - 1].shelves@[shelf_number - 1].levels@
                            == sh.levels@.update(
                            level_number - 1,
                            final(self).rows@[row_number - 1].shelves@[shelf_number - 1].levels@[
                                level_number - 1
                            ],
                        ) && final(self).rows@[row_number - 1].available_space
                            == row.available_space + (end - zone_number + 1) && final(self).rows@[
                        row_number - 1].shelves@[shelf_number - 1].available_space
                            == sh.available_space + (end - zone_number + 1) && final(self).rows@[
                        row_number - 1].shelves@[shelf_number - 1].levels@[level_number
                            - 1].available_space == lvl.available_space + (end - zone_number + 1)
                            && final(self).rows@[row_number - 1].shelves@[shelf_number
                            - 1].levels@[level_number - 1].zones@.len() == lvl.zones@.len() && (
                        forall|j: int|
                            zone_number - 1 <= j <= end - 1 ==> (#[trigger] final(self).rows@[row_number - 1].shelves@[shelf_number - 1].levels@[level_number
                                - 1].zones@[j]).item is None) && (forall|j: int|
                            0 <= j < lvl.zones@.len() && !(zone_number - 1 <= j <= end - 1) ==> (
                            #[trigger] final(self).rows@[row_number - 1].shelves@[shelf_number
                                - 1].levels@[level_number - 1].zones@[j]) == lvl.zones@[j])
                    },
                    Some(_) => r == Err::<(), ErrorMessage>(ErrorMessage::CannotRemovePart),
                }
            },
    {
        if row_number < 1 || row_number > self.rows.len() {
            return Err(ErrorMessage::RowNotFound);
        }
        let idx = row_number - 1;
        if shelf_number < 1 || shelf_number > self.rows[idx].shelves.len() {
            return Err(ErrorMessage::ShelfNotFound);
        }
        let sidx = shelf_number - 1;
        if level_number < 1 || level_number > self.rows[idx].shelves[sidx].levels.len() {
            return Err(ErrorMessage::LevelNotFound);
        }
        let lidx = level_number - 1;
        if zone_number < 1 || zone_number > self.rows[idx].shelves[sidx].levels[lidx].zones.len() {
            return Err(ErrorMessage::ZoneNotFound);
        }
        let oversized = match self.rows[idx].shelves[sidx].levels[lidx].zones[zone_number
            - 1].item {
            None => {
                return Err(ErrorMessage::ZoneEmpty);
            },
            Some(ItemPart::WholeProduct(_)) => false,
            Some(ItemPart::ProductStart(_, _)) => true,
            Some(_) => {
                return Err(ErrorMessage::CannotRemovePart);
            },
        };
        let ghost before_vacant = spec_shelves_vacant(self.rows@[idx as int].shelves@);
        let row = &mut self.rows[idx];
        let before_space = row.available_space;
        let outcome = if oversized {
            row.remove_oversized_item(shelf_number, level_number, zone_number)
        } else {
            row.remove_item(shelf_number, level_number, zone_number)
        };
        match outcome {
            Ok(()) => {
                proof {
                    if oversized {
                        assert(crate::level::spec_span_ok_at(
                            old(self).rows@[idx as int].shelves@[sidx as int].levels@[
                                lidx as int
                            ].zones@,
                            zone_number - 1,
                        ));
                    }
                }
                let after_space = self.rows[idx].available_space;
                let freed = after_space - before_space;
                proof {
                    lemma_rows_update(old(self).rows@, idx as int, self.rows@[idx as int]);
                    lemma_rows_vacant_le_cap(self.rows@);
                    assert(self.rows@ =~= old(self).rows@.update(idx as int, self.rows@[idx as int]));
                }
                self.available_space = self.available_space + freed;
                Ok(())
            },
            Err(e) => {
                proof {
                    assert(false);
                }
                Err(e)
            },
        }
    }

    /// The item that (row, shelf, level, zone) resolves to.
    pub fn item(
        &self,
        row_number: usize,
        shelf_number: usize,
        level_number: usize,
        zone_number: usize,
    ) -> (r: Option<&ProductItem>)
        requires
            self.wf(),
        ensures
            match r {
                Some(it) => 1 <= row_number <= self.rows@.len() && 1 <= shelf_number
                    <= self.rows@[row_number - 1].shelves@.len() && 1 <= level_number
                    <= self.rows@[row_number - 1].shelves@[shelf_number - 1].levels@.len()
                    && spec_item_at(
                    self.rows@[row_number - 1].shelves@[shelf_number - 1].levels@[level_number
                        - 1].zones@,
                    zone_number as int,
                ) == Some(*it),
                None => !(1 <= row_number <= self.rows@.len()) || !(1 <= shelf_number
                    <= self.rows@[row_number - 1].shelves@.len()) || !(1 <= level_number
                    <= self.rows@[row_number - 1].shelves@[shelf_number - 1].levels@.len())
                    || spec_item_at(
                    self.rows@[row_number - 1].shelves@[shelf_number - 1].levels@[level_number
                        - 1].zones@,
                    zone_number as int,
                ) is None,
            },
    {
        match self.row(row_number) {
            Some(row) => row.item(shelf_number, level_number, zone_number),
            None => None,
        }
    }

    /// The anchor items of the whole warehouse, in traversal order.
    #[verifier::loop_isolation(false)]
    pub fn items(&self) -> (r: Vec<ProductItem>)
        requires
            self.wf(),
        ensures
            r@ == self.spec_items(),
    {
        let mut out: Vec<ProductItem> = Vec::new();
        let mut i: usize = 0;
        proof {
            assert(self.rows@.take(0) =~= Seq::<Row>::empty());
        }
        while i < self.rows.len()
            invariant
                out@ == spec_rows_items(self.rows@.take(i as int)),
                i <= self.rows@.len(),
            decreases self.rows@.len() - i,
        {
            proof {
                lemma_rows_take_step(self.rows@, i as int);
            }
            let mut part = self.rows[i].items();
            out.append(&mut part);
            i = i + 1;
        }
        proof {
            assert(self.rows@.take(self.rows@.len() as int) =~= self.rows@);
        }
        out
    }

    /// The anchor items that carry the given product id, in traversal order.
    #[verifier::loop_isolation(false)]
    pub fn items_with_id(&self, product_id: u64) -> (r: Vec<ProductItem>)
        requires
            self.wf(),
        ensures
            r@ == self.spec_items().filter(|it: ProductItem| it.id == product_id),
    {
        let all = self.items();
        let ghost pred = |it: ProductItem| it.id == product_id;
        let mut out: Vec<ProductItem> = Vec::new();
        for i in 0..all.len()
            invariant
                all@ == self.spec_items(),
                out@ == all@.take(i as int).filter(pred),
        {
            proof {
                lemma_item_filter_take_step(all@, pred, i as int);
            }
            if all[i].id == product_id {
                out.push(all[i]);
                proof {
                    assert(out@ =~= all@.take(i + 1).filter(pred));
                }
            }
        }
        proof {
            assert(all@.take(all@.len() as int) =~= all@);
        }
        out
    }
}

/// The whole-warehouse occupancy is as long as the capacity.
pub proof fn lemma_rows_occ_len(rs: Seq<Row>)
    ensures
        spec_rows_occ(rs).len() == spec_rows_cap(rs),
    decreases rs.len(),
{
    if rs.len() > 0 {
        lemma_rows_occ_len(rs.drop_last());
        crate::row::lemma_shelves_occ_len(rs.last().shelves@);
    }
}

/// The whole-warehouse oversized map is as long as the capacity.
pub proof fn lemma_rows_omap_len(rs: Seq<Row>, zr: nat)
    requires
        zr >= 1,
    ensures
        spec_rows_omap(rs, zr).len() == spec_rows_cap(rs),
    decreases rs.len(),
{
    if rs.len() > 0 {
        lemma_rows_omap_len(rs.drop_last(), zr);
        crate::row::lemma_shelves_omap_len(rs.last().shelves@, zr);
    }
}

/// A run of `n` vacant positions starts at `p` in the occupancy map.
pub open spec fn spec_occ_run_vacant(m: Seq<bool>, p: int, n: int) -> bool {
    forall|k: int| p <= k < p + n ==> !m[k]
}

/// No occupied zone stands in `[a, b)` of the oversized map.
pub open spec fn spec_no_occupied(m: Seq<u8>, a: int, b: int) -> bool {
    forall|k: int| a <= k < b ==> (#[trigger] m[k]) != crate::level::OCCUPIED
}

/// How many fits-here markers stand in `[a, b)` of the oversized map.
pub open spec fn spec_marker_count(m: Seq<u8>, a: int, b: int) -> int
    decreases b - a,
{
    if a >= b {
        0
    } else {
        (if m[a] == crate::level::FITS_HERE {
            1int
        } else {
            0int
        }) + spec_marker_count(m, a + 1, b)
    }
}

/// A fit for `qty` oversized units begins at `p`: a marker stands there, and
/// `qty` markers follow from `p` on with no occupied zone among them.
pub open spec fn spec_fit_run_at(m: Seq<u8>, p: int, qty: int) -> bool {
    &&& 0 <= p < m.len()
    &&& m[p] == crate::level::FITS_HERE
    &&& exists|q: int|
        p <= q <= m.len() && #[trigger] spec_marker_count(m, p, q) >= qty && spec_no_occupied(
            m,
            p,
            q,
        )
}

/// A marker count is never negative.
pub proof fn lemma_marker_count_nonneg(m: Seq<u8>, a: int, b: int)
    ensures
        spec_marker_count(m, a, b) >= 0,
    decreases b - a,
{
    if a < b {
        lemma_marker_count_nonneg(m, a + 1, b);
    }
}

/// Marker counts add over a split point.
pub proof fn lemma_marker_count_split(m: Seq<u8>, a: int, b: int, c: int)
    requires
        a <= b <= c,
    ensures
        spec_marker_count(m, a, c) == spec_marker_count(m, a, b) + spec_marker_count(m, b, c),
    decreases b - a,
{
    if a < b {
        lemma_marker_count_split(m, a + 1, b, c);
    }
}

/// Counting markers over a longer stretch never counts fewer.
pub proof fn lemma_marker_count_monotone(m: Seq<u8>, a: int, b: int, c: int)
    requires
        a <= b <= c,
    ensures
        spec_marker_count(m, a, b) <= spec_marker_count(m, a, c),
        spec_marker_count(m, a, b) >= 0,
{
    lemma_marker_count_split(m, a, b, c);
    lemma_marker_count_nonneg(m, a, b);
    lemma_marker_count_nonneg(m, b, c);
}

/// One step of counting markers from the left.
pub proof fn lemma_marker_count_step(m: Seq<u8>, a: int, b: int)
    requires
        a <= b,
    ensures
        spec_marker_count(m, a, b + 1) == spec_marker_count(m, a, b) + (if m[b]
            == crate::level::FITS_HERE {
            1int
        } else {
            0int
        }),
{
    lemma_marker_count_split(m, a, b, b + 1);
    assert(spec_marker_count(m, b + 1, b + 1) == 0);
    assert(spec_marker_count(m, b, b + 1) == (if m[b] == crate::level::FITS_HERE {
        1int
    } else {
        0int
    }));
}

impl Warehouse {
    /// The first (leftmost) start of `qty` consecutive vacant zones in the
    /// warehouse flat map, as a coordinate.
    #[verifier::loop_isolation(false)]
    pub fn find_first_contiguous_space(&self, qty: usize) -> (r: Option<
        (usize, usize, usize, usize),
    >)
        requires
            self.wf(),
            qty >= 1,
        ensures
            ({
                let m = spec_rows_occ(self.rows@);
                match r {
                    Some(found) => {
                        let p = spec_coord_index(
                            *self,
                            found.0 as int,
                            found.1 as int,
                            found.2 as int,
                            found.3 as int,
                        );
                        &&& spec_coord_valid(
                            *self,
                            found.0 as int,
                            found.1 as int,
                            found.2 as int,
                            found.3 as int,
                        )
                        &&& p + qty <= m.len()
                        &&& spec_occ_run_vacant(m, p, qty as int)
                        &&& forall|j: int|
                            0 <= j < p ==> !spec_occ_run_vacant(m, j, qty as int)
                    },
                    None => forall|j: int|
                        0 <= j <= m.len() - qty ==> !spec_occ_run_vacant(m, j, qty as int),
                }
            }),
    {
        let m = self.flat_map();
        proof {
            lemma_rows_occ_len(self.rows@);
        }
        if qty > m.len() {
            return None;
        }
        let last_start = m.len() - qty;
        let mut p: usize = 0;
        while p <= last_start
            invariant
                last_start == m@.len() - qty,
                forall|j: int| 0 <= j < p ==> !spec_occ_run_vacant(m@, j, qty as int),
            decreases last_start + 1 - p,
        {
            let mut all_vacant = true;
            let mut k: usize = 0;
            while k < qty
                invariant
                    p + qty <= m@.len(),
                    k <= qty,
                    all_vacant == (forall|t: int| 0 <= t < k ==> !(#[trigger] m@[p + t])),
                decreases qty - k,
            {
                if m[p + k] {
                    all_vacant = false;
                }
                k = k + 1;
            }
            if all_vacant {
                proof {
                    assert forall|k: int| p <= k < p + qty implies !m@[k] by {
                        assert(!m@[p + (k - p)]);
                    }
                }
                match self.flat_map_position_to_zone(p) {
                    Some(found) => {
                        return Some(found);
                    },
                    None => {
                        proof {
                            assert(false);
                        }
                        return None;
                    },
                }
            }
            p = p + 1;
        }
        None
    }

    /// The first fits-here marker from which `qty` whole oversized units can
    /// be laid down in a row: `qty` markers follow it with no occupied zone
    /// among them.
    #[verifier::loop_isolation(false)]
    pub fn find_first_contiguous_oversized_space(&self, qty: usize, zones_required: usize) -> (r:
        Option<(usize, usize, usize, usize)>)
        requires
            self.wf(),
            qty >= 1,
            zones_required >= 1,
        ensures
            ({
                let m = spec_rows_omap(self.rows@, zones_required as nat);
                match r {
                    Some(found) => {
                        let p = spec_coord_index(
                            *self,
                            found.0 as int,
                            found.1 as int,
                            found.2 as int,
                            found.3 as int,
                        );
                        &&& spec_coord_valid(
                            *self,
                            found.0 as int,
                            found.1 as int,
                            found.2 as int,
                            found.3 as int,
                        )
                        &&& spec_fit_run_at(m, p, qty as int)
                        &&& forall|j: int| 0 <= j < p ==> !spec_fit_run_at(m, j, qty as int)
                    },
                    None => forall|j: int| 0 <= j < m.len() ==> !spec_fit_run_at(m, j, qty as int),
                }
            }),
    {
        let m = self.oversized_flat_map(zones_required);
        proof {
            lemma_rows_omap_len(self.rows@, zones_required as nat);
        }
        let total = m.len();
        let mut p: usize = 0;
        while p < total
            invariant
                total == m@.len(),
                forall|j: int| 0 <= j < p ==> !spec_fit_run_at(m@, j, qty as int),
            decreases total - p,
        {
            if m[p] == crate::level::FITS_HERE {
                // Walk forward counting markers until enough are found or an
                // occupied zone cuts the run.
                let mut q: usize = p;
                let mut count: usize = 0;
                let mut cut = false;
                while q < total && count < qty && !cut
                    invariant
                        p <= q <= total,
                        total == m@.len(),
                        count == spec_marker_count(m@, p as int, q as int),
                        count <= qty,
                        spec_no_occupied(m@, p as int, q as int),
                        cut ==> q < total && m@[q as int] == crate::level::OCCUPIED,
                    decreases total - q, 1int - (if cut { 1int } else { 0int }),
                {
                    if m[q] == crate::level::OCCUPIED {
                        cut = true;
                    } else {
                        proof {
                            lemma_marker_count_step(m@, p as int, q as int);
                        }
                        if m[q] == crate::level::FITS_HERE {
                            count = count + 1;
                        }
                        q = q + 1;
                    }
                }
                if count >= qty {
                    proof {
                        assert(spec_fit_run_at(m@, p as int, qty as int));
                    }
                    match self.oversized_flat_map_position_to_zone(p, zones_required) {
                        Some(found) => {
                            return Some(found);
                        },
                        None => {
                            proof {
                                assert(false);
                            }
                            return None;
                        },
                    }
                }
                proof {
                    assert forall|q2: int|
                        p <= q2 <= m@.len() && spec_no_occupied(m@, p as int, q2) implies
                        #[trigger] spec_marker_count(m@, p as int, q2) < qty by {
                        if q2 <= q {
                            lemma_marker_count_monotone(m@, p as int, q2, q as int);
                        } else if cut {
                            assert(m@[q as int] == crate::level::OCCUPIED);
                            assert(!spec_no_occupied(m@, p as int, q2));
                        } else {
                            assert(q == total);
                            assert(q2 <= q);
                        }
                    }
                    assert(!spec_fit_run_at(m@, p as int, qty as int));
                }
            } else {
                proof {
                    assert(!spec_fit_run_at(m@, p as int, qty as int));
                }
            }
            p = p + 1;
        }
        None
    }
}

/// The first slot of the cross-row walk at or after row `r` with row-start
/// `s3`: rows whose ceiling-adjusted start overruns them are skipped whole;
/// a first component beyond the row count means the walk is over.
pub open spec fn spec_wh_walk_first(
    rows: Seq<Row>,
    ml: Option<usize>,
    r: int,
    s3: (usize, usize, usize),
) -> (int, int, int, int)
    decreases rows.len() + 1 - r,
    when r >= 1
{
    if r < 1 || r > rows.len() {
        (rows.len() + 1 as int, 1int, 1int, 1int)
    } else if crate::row::spec_walk_overrun(rows[r - 1], ml, s3) {
        spec_wh_walk_first(rows, ml, r + 1, (1usize, 1usize, 1usize))
    } else {
        let ws = crate::row::spec_walk_start(rows[r - 1], ml, s3);
        (r, ws.0, ws.1, ws.2)
    }
}

/// The `k`-th slot of the cross-row walk: within a row it follows the row
/// walk; leaving a row it continues at the next row's origin.
pub open spec fn spec_wh_walk_pos(
    rows: Seq<Row>,
    ml: Option<usize>,
    stride: int,
    start: (usize, usize, usize, usize),
    k: int,
) -> (int, int, int, int)
    decreases k,
{
    if k <= 0 {
        spec_wh_walk_first(rows, ml, start.0 as int, (start.1, start.2, start.3))
    } else {
        let p = spec_wh_walk_pos(rows, ml, stride, start, k - 1);
        if p.0 > rows.len() {
            p
        } else {
            let n = crate::row::spec_walk_next(rows[p.0 - 1], ml, stride, (p.1, p.2, p.3));
            if n.0 > rows[p.0 - 1].shelves@.len() {
                spec_wh_walk_first(rows, ml, p.0 + 1, (1usize, 1usize, 1usize))
            } else {
                (p.0, n.0, n.1, n.2)
            }
        }
    }
}

/// Cross-row walk slot `k` covers the coordinate, for units `stride` wide.
pub open spec fn spec_wh_walk_covers(
    rows: Seq<Row>,
    ml: Option<usize>,
    stride: int,
    start: (usize, usize, usize, usize),
    k: int,
    r: int,
    s: int,
    l: int,
    z: int,
) -> bool {
    let slot = spec_wh_walk_pos(rows, ml, stride, start, k);
    slot.0 == r && slot.1 == s && slot.2 == l && slot.3 <= z < slot.3 + stride
}

/// Every zone the first `placed` cross-row walk slots do not cover is as it
/// was.
pub open spec fn spec_wh_walk_frame(
    pre: Warehouse,
    post: Warehouse,
    ml: Option<usize>,
    stride: int,
    start: (usize, usize, usize, usize),
    placed: int,
) -> bool {
    forall|r: int, s: int, l: int, z: int|
        spec_coord_valid(pre, r, s, l, z) && !(exists|k: int|
            0 <= k < placed && #[trigger] spec_wh_walk_covers(
                pre.rows@,
                ml,
                stride,
                start,
                k,
                r,
                s,
                l,
                z,
            )) ==> (#[trigger] post.rows@[r - 1].shelves@[s - 1].levels@[l - 1].zones@[z - 1])
            == pre.rows@[r - 1].shelves@[s - 1].levels@[l - 1].zones@[z - 1]
}

/// Cross-row walk slot `k` was vacant and now holds one whole single-zone
/// unit of the product, stamped with its own coordinate.
pub open spec fn spec_wh_slot_filled(
    pre: Warehouse,
    post: Warehouse,
    ml: Option<usize>,
    start: (usize, usize, usize, usize),
    id: u64,
    expiry_date: Option<Date>,
    k: int,
) -> bool {
    let slot = spec_wh_walk_pos(pre.rows@, ml, 1, start, k);
    let zone_before = pre.rows@[slot.0 - 1].shelves@[slot.1 - 1].levels@[slot.2 - 1].zones@[slot.3
        - 1];
    let zone_after = post.rows@[slot.0 - 1].shelves@[slot.1 - 1].levels@[slot.2 - 1].zones@[slot.3
        - 1];
    &&& spec_coord_valid(pre, slot.0, slot.1, slot.2, slot.3)
    &&& zone_before.is_vacant()
    &&& zone_after.number == slot.3
    &&& zone_after.item matches Some(ItemPart::WholeProduct(it)) && it.id == id && it.expiry_date
        == expiry_date && it.zones_required == 1 && it.placement.0 == slot.0 && it.placement.1
        == slot.1 && it.placement.2 == slot.2 && it.placement.3 == slot.3
}

/// Cross-row walk slot `k` anchors one whole span of the product.
pub open spec fn spec_wh_span_slot_filled(
    pre: Warehouse,
    post: Warehouse,
    ml: Option<usize>,
    stride: int,
    start: (usize, usize, usize, usize),
    id: u64,
    expiry_date: Option<Date>,
    k: int,
) -> bool {
    let slot = spec_wh_walk_pos(pre.rows@, ml, stride, start, k);
    let zones_before = pre.rows@[slot.0 - 1].shelves@[slot.1 - 1].levels@[slot.2 - 1].zones@;
    let level_after = post.rows@[slot.0 - 1].shelves@[slot.1 - 1].levels@[slot.2 - 1];
    &&& spec_coord_valid(pre, slot.0, slot.1, slot.2, slot.3)
    &&& slot.3 - 1 + stride <= zones_before.len()
    &&& spec_run_vacant(zones_before, slot.3 - 1, stride)
    &&& level_after.zones@[slot.3 - 1].item matches Some(ItemPart::ProductStart(it, e)) && e
        == slot.3 + stride - 1 && it.id == id && it.expiry_date == expiry_date && it.zones_required
        == stride && it.placement.0 == slot.0 && it.placement.1 == slot.1 && it.placement.2
        == slot.2 && it.placement.3 == slot.3
    &&& forall|zn: int|
        slot.3 <= zn <= slot.3 + stride - 1 ==> #[trigger] spec_item_at(level_after.zones@, zn)
            == spec_item_at(level_after.zones@, slot.3)
}

/// Within one row, the cross-row walk follows the row walk slot for slot,
/// and leaves for the next row's origin exactly when the row walk does.
proof fn lemma_wh_walk_in_row(
    rows: Seq<Row>,
    ml: Option<usize>,
    stride: int,
    start: (usize, usize, usize, usize),
    placed0: int,
    r: int,
    s3: (usize, usize, usize),
    p: int,
)
    requires
        1 <= r <= rows.len(),
        0 <= placed0,
        0 <= p,
        !crate::row::spec_walk_overrun(rows[r - 1], ml, s3),
        spec_wh_walk_pos(rows, ml, stride, start, placed0) == spec_wh_walk_first(rows, ml, r, s3),
        forall|j: int|
            0 <= j < p ==> (#[trigger] crate::row::spec_walk_pos(rows[r - 1], ml, stride, s3, j)).0
                <= rows[r - 1].shelves@.len(),
    ensures
        forall|j: int|
            0 <= j < p ==> #[trigger] spec_wh_walk_pos(rows, ml, stride, start, placed0 + j) == ({
                let q = crate::row::spec_walk_pos(rows[r - 1], ml, stride, s3, j);
                (r, q.0, q.1, q.2)
            }),
        p == 0 ==> spec_wh_walk_pos(rows, ml, stride, start, placed0) == ({
            let q = crate::row::spec_walk_pos(rows[r - 1], ml, stride, s3, 0);
            (r, q.0, q.1, q.2)
        }),
        p > 0 && crate::row::spec_walk_pos(rows[r - 1], ml, stride, s3, p).0 <= rows[r
            - 1].shelves@.len() ==> spec_wh_walk_pos(rows, ml, stride, start, placed0 + p) == ({
            let q = crate::row::spec_walk_pos(rows[r - 1], ml, stride, s3, p);
            (r, q.0, q.1, q.2)
        }),
        p > 0 && crate::row::spec_walk_pos(rows[r - 1], ml, stride, s3, p).0 > rows[r
            - 1].shelves@.len() ==> spec_wh_walk_pos(rows, ml, stride, start, placed0 + p)
            == spec_wh_walk_first(rows, ml, r + 1, (1usize, 1usize, 1usize)),
    decreases p,
{
    if p == 0 {
    } else {
        lemma_wh_walk_in_row(rows, ml, stride, start, placed0, r, s3, p - 1);
        let prev = crate::row::spec_walk_pos(rows[r - 1], ml, stride, s3, p - 1);
        assert(spec_wh_walk_pos(rows, ml, stride, start, placed0 + p - 1) == (r, prev.0, prev.1, prev.2));
        assert(prev.0 <= rows[r - 1].shelves@.len());
    }
}

/// Everything the warehouse-wide single-zone filling walk does, given the
/// product is listed and the start names a row: the units placed stand at
/// the first cross-row walk slots, nothing else changed, success exactly
/// when everything was placed, `EndOfRows` exactly when stock remains past
/// the last row, and every other failure named by the slot it stopped at.
pub open spec fn spec_wh_fill_post(
    pre: Warehouse,
    post: Warehouse,
    id: u64,
    list: ProductList,
    qty: int,
    expiry_date: Option<Date>,
    start: (usize, usize, usize, usize),
    r: Result<(), ErrorMessage>,
) -> bool {
    let ml = spec_max_level(list.spec_product(id).quality);
    let placed = pre.available_space - post.available_space;
    let len = pre.rows@.len() as int;
    let stop = spec_wh_walk_pos(pre.rows@, ml, 1, start, placed);
    &&& 0 <= placed <= qty
    &&& forall|k: int|
        0 <= k < placed ==> #[trigger] spec_wh_slot_filled(pre, post, ml, start, id, expiry_date, k)
    &&& forall|k: int|
        0 <= k < placed ==> (#[trigger] spec_wh_walk_pos(pre.rows@, ml, 1, start, k)).0 <= len
    &&& spec_wh_walk_frame(pre, post, ml, 1, start, placed)
    &&& (r is Ok <==> placed == qty)
    &&& ((r == Err::<(), ErrorMessage>(ErrorMessage::EndOfRows)) <==> placed < qty && stop.0 > len)
    &&& (r == Err::<(), ErrorMessage>(ErrorMessage::FragileObjectWithoutExpiration) ==> ml is Some
        && expiry_date is None && placed == 0)
    &&& (ml is Some && expiry_date is None && qty > 0 && spec_wh_walk_first(
        pre.rows@,
        ml,
        start.0 as int,
        (start.1, start.2, start.3),
    ).0 <= len ==> r == Err::<(), ErrorMessage>(ErrorMessage::FragileObjectWithoutExpiration))
    &&& (r == Err::<(), ErrorMessage>(ErrorMessage::LevelTooHigh) ==> ml == Some(0usize)
        && expiry_date is Some)
    &&& (r == Err::<(), ErrorMessage>(ErrorMessage::ZoneOccupied) ==> spec_coord_valid(
        pre,
        stop.0,
        stop.1,
        stop.2,
        stop.3,
    ) && !pre.rows@[stop.0 - 1].shelves@[stop.1 - 1].levels@[stop.2 - 1].zones@[stop.3
        - 1].is_vacant())
    &&& (r == Err::<(), ErrorMessage>(ErrorMessage::ShelfNotFound) ==> 1 <= stop.0 <= len && !(1
        <= stop.1 <= pre.rows@[stop.0 - 1].shelves@.len()))
    &&& (r == Err::<(), ErrorMessage>(ErrorMessage::LevelNotFound) ==> 1 <= stop.0 <= len && 1
        <= stop.1 <= pre.rows@[stop.0 - 1].shelves@.len() && !(1 <= stop.2 <= pre.rows@[stop.0
        - 1].shelves@[stop.1 - 1].levels@.len()))
    &&& (r == Err::<(), ErrorMessage>(ErrorMessage::ZoneNotFound) ==> 1 <= stop.0 <= len && 1
        <= stop.1 <= pre.rows@[stop.0 - 1].shelves@.len() && 1 <= stop.2 <= pre.rows@[stop.0
        - 1].shelves@[stop.1 - 1].levels@.len() && !(1 <= stop.3 <= pre.rows@[stop.0
        - 1].shelves@[stop.1 - 1].levels@[stop.2 - 1].zones@.len()))
    &&& (r is Err ==> r == Err::<(), ErrorMessage>(ErrorMessage::EndOfRows) || r == Err::<(
    ), ErrorMessage>(ErrorMessage::FragileObjectWithoutExpiration) || r == Err::<(
    ), ErrorMessage>(ErrorMessage::LevelTooHigh) || r == Err::<(), ErrorMessage>(
        ErrorMessage::ZoneOccupied,
    ) || r == Err::<(), ErrorMessage>(ErrorMessage::ShelfNotFound) || r == Err::<(
    ), ErrorMessage>(ErrorMessage::LevelNotFound) || r == Err::<(), ErrorMessage>(
        ErrorMessage::ZoneNotFound,
    ))
}

/// Whole-span accounting: the counter moved by `placed` spans, so dividing
/// it back by the span width recovers the count.
proof fn lemma_span_placed_division(placed: int, stride: int)
    requires
        stride >= 1,
        placed >= 0,
    ensures
        (placed * stride) / stride == placed,
        placed * stride >= 0,
{
    assert((placed * stride) / stride == placed) by (nonlinear_arith)
        requires
            stride >= 1 && placed >= 0,
    ;
    assert(placed * stride >= 0) by (nonlinear_arith)
        requires
            stride >= 0 && placed >= 0,
    ;
}

/// As `spec_wh_fill_post`, for spans `stride` zones wide: the counter moves
/// in whole spans, each placed span anchored at a cross-row walk slot.
pub open spec fn spec_wh_span_fill_post(
    pre: Warehouse,
    post: Warehouse,
    id: u64,
    list: ProductList,
    stride: int,
    qty: int,
    expiry_date: Option<Date>,
    start: (usize, usize, usize, usize),
    r: Result<(), ErrorMessage>,
) -> bool {
    let ml = spec_max_level(list.spec_product(id).quality);
    let placed = (pre.available_space - post.available_space) / stride;
    let len = pre.rows@.len() as int;
    let stop = spec_wh_walk_pos(pre.rows@, ml, stride, start, placed);
    &&& 0 <= placed <= qty
    &&& pre.available_space - post.available_space == placed * stride
    &&& forall|k: int|
        0 <= k < placed ==> #[trigger] spec_wh_span_slot_filled(
            pre,
            post,
            ml,
            stride,
            start,
            id,
            expiry_date,
            k,
        )
    &&& forall|k: int|
        0 <= k < placed ==> (#[trigger] spec_wh_walk_pos(pre.rows@, ml, stride, start, k)).0 <= len
    &&& spec_wh_walk_frame(pre, post, ml, stride, start, placed)
    &&& (r is Ok <==> placed == qty)
    &&& ((r == Err::<(), ErrorMessage>(ErrorMessage::EndOfRows)) <==> placed < qty && stop.0 > len)
    &&& (r == Err::<(), ErrorMessage>(ErrorMessage::FragileObjectWithoutExpiration) ==> ml is Some
        && expiry_date is None && placed == 0)
    &&& (ml is Some && expiry_date is None && qty > 0 && spec_wh_walk_first(
        pre.rows@,
        ml,
        start.0 as int,
        (start.1, start.2, start.3),
    ).0 <= len ==> r == Err::<(), ErrorMessage>(ErrorMessage::FragileObjectWithoutExpiration))
    &&& (r == Err::<(), ErrorMessage>(ErrorMessage::LevelTooHigh) ==> ml == Some(0usize)
        && expiry_date is Some)
    &&& (r == Err::<(), ErrorMessage>(ErrorMessage::ZoneOccupied) ==> spec_coord_valid(
        pre,
        stop.0,
        stop.1,
        stop.2,
        stop.3,
    ) && stop.3 - 1 + stride <= pre.rows@[stop.0 - 1].shelves@[stop.1 - 1].levels@[stop.2
        - 1].zones@.len() && !spec_run_vacant(
        pre.rows@[stop.0 - 1].shelves@[stop.1 - 1].levels@[stop.2 - 1].zones@,
        stop.3 - 1,
        stride,
    ))
    &&& (r == Err::<(), ErrorMessage>(ErrorMessage::InsufficientSpace) ==> spec_coord_valid(
        pre,
        stop.0,
        stop.1,
        stop.2,
        stop.3,
    ) && stop.3 - 1 + stride > pre.rows@[stop.0 - 1].shelves@[stop.1 - 1].levels@[stop.2
        - 1].zones@.len())
    &&& (r == Err::<(), ErrorMessage>(ErrorMessage::ShelfNotFound) ==> 1 <= stop.0 <= len && !(1
        <= stop.1 <= pre.rows@[stop.0 - 1].shelves@.len()))
    &&& (r == Err::<(), ErrorMessage>(ErrorMessage::LevelNotFound) ==> 1 <= stop.0 <= len && 1
        <= stop.1 <= pre.rows@[stop.0 - 1].shelves@.len() && !(1 <= stop.2 <= pre.rows@[stop.0
        - 1].shelves@[stop.1 - 1].levels@.len()))
    &&& (r == Err::<(), ErrorMessage>(ErrorMessage::ZoneNotFound) ==> 1 <= stop.0 <= len && 1
        <= stop.1 <= pre.rows@[stop.0 - 1].shelves@.len() && 1 <= stop.2 <= pre.rows@[stop.0
        - 1].shelves@[stop.1 - 1].levels@.len() && !(1 <= stop.3 <= pre.rows@[stop.0
        - 1].shelves@[stop.1 - 1].levels@[stop.2 - 1].zones@.len()))
    &&& (r is Err ==> r == Err::<(), ErrorMessage>(ErrorMessage::EndOfRows) || r == Err::<(
    ), ErrorMessage>(ErrorMessage::FragileObjectWithoutExpiration) || r == Err::<(
    ), ErrorMessage>(ErrorMessage::LevelTooHigh) || r == Err::<(), ErrorMessage>(
        ErrorMessage::ZoneOccupied,
    ) || r == Err::<(), ErrorMessage>(ErrorMessage::InsufficientSpace) || r == Err::<(
    ), ErrorMessage>(ErrorMessage::ShelfNotFound) || r == Err::<(), ErrorMessage>(
        ErrorMessage::LevelNotFound,
    ) || r == Err::<(), ErrorMessage>(ErrorMessage::ZoneNotFound))
}

/// `c` is the coordinate of the leftmost run of `qty` vacant zones.
pub open spec fn spec_first_run_coord(w: Warehouse, qty: int, c: (usize, usize, usize, usize)) -> bool {
    let m = spec_rows_occ(w.rows@);
    let p = spec_coord_index(w, c.0 as int, c.1 as int, c.2 as int, c.3 as int);
    &&& spec_coord_valid(w, c.0 as int, c.1 as int, c.2 as int, c.3 as int)
    &&& p + qty <= m.len()
    &&& spec_occ_run_vacant(m, p, qty)
    &&& forall|j: int| 0 <= j < p ==> !spec_occ_run_vacant(m, j, qty)
}

/// No run of `qty` vacant zones exists anywhere.
pub open spec fn spec_no_run(w: Warehouse, qty: int) -> bool {
    let m = spec_rows_occ(w.rows@);
    forall|j: int| 0 <= j <= m.len() - qty ==> !spec_occ_run_vacant(m, j, qty)
}

/// `c` is the coordinate of the leftmost fit of `qty` oversized units.
pub open spec fn spec_first_fit_coord(
    w: Warehouse,
    qty: int,
    zr: int,
    c: (usize, usize, usize, usize),
) -> bool {
    let m = spec_rows_omap(w.rows@, zr as nat);
    let p = spec_coord_index(w, c.0 as int, c.1 as int, c.2 as int, c.3 as int);
    &&& spec_coord_valid(w, c.0 as int, c.1 as int, c.2 as int, c.3 as int)
    &&& spec_fit_run_at(m, p, qty)
    &&& forall|j: int| 0 <= j < p ==> !spec_fit_run_at(m, j, qty)
}

/// No fit for `qty` oversized units exists anywhere.
pub open spec fn spec_no_fit(w: Warehouse, qty: int, zr: int) -> bool {
    let m = spec_rows_omap(w.rows@, zr as nat);
    forall|j: int| 0 <= j < m.len() ==> !spec_fit_run_at(m, j, qty)
}

/// `c` is the round-robin continuation: the zone one past the last occupied
/// one, or the origin of an entirely vacant warehouse.
pub open spec fn spec_rr_coord(w: Warehouse, c: (usize, usize, usize, usize)) -> bool {
    let m = spec_rows_occ(w.rows@);
    let p = spec_coord_index(w, c.0 as int, c.1 as int, c.2 as int, c.3 as int);
    &&& spec_coord_valid(w, c.0 as int, c.1 as int, c.2 as int, c.3 as int)
    &&& (p == 0 || m[p - 1])
    &&& forall|j: int| p <= j < m.len() ==> !m[j]
}

/// The warehouse's final zone is occupied (or it has none), so round-robin
/// filling has nowhere to resume.
pub open spec fn spec_rr_exhausted(w: Warehouse) -> bool {
    let m = spec_rows_occ(w.rows@);
    m.len() == 0 || m[m.len() - 1]
}

/// What a contiguous restock settles to, by the product's quality.
pub open spec fn spec_contiguous_outcome(
    pre: Warehouse,
    post: Warehouse,
    id: u64,
    list: ProductList,
    qty: int,
    expiry_date: Option<Date>,
    r: Result<(), ErrorMessage>,
) -> bool {
    let q = list.spec_product(id).quality;
    &&& (q is Normal || q is Fragile) ==> {
        &&& ((r == Err::<(), ErrorMessage>(ErrorMessage::InsufficientSpace)) <==> spec_no_run(
            pre,
            qty,
        ))
        &&& spec_no_run(pre, qty) ==> post == pre
        &&& !spec_no_run(pre, qty) ==> exists|c: (usize, usize, usize, usize)|
            #[trigger] spec_first_run_coord(pre, qty, c) && spec_wh_fill_post(
                pre,
                post,
                id,
                list,
                qty,
                expiry_date,
                c,
                r,
            )
    }
    &&& (q matches Quality::Oversized(zr) ==> spec_contiguous_oversized_outcome(
        pre,
        post,
        id,
        list,
        zr,
        qty,
        expiry_date,
        r,
    ))
    &&& (q matches Quality::OversizedAndFragile(zr, _) ==> spec_contiguous_oversized_outcome(
        pre,
        post,
        id,
        list,
        zr,
        qty,
        expiry_date,
        r,
    ))
}

/// The oversized arm of a contiguous restock: widths below two are refused,
/// otherwise the first fit is filled.
pub open spec fn spec_contiguous_oversized_outcome(
    pre: Warehouse,
    post: Warehouse,
    id: u64,
    list: ProductList,
    zr: usize,
    qty: int,
    expiry_date: Option<Date>,
    r: Result<(), ErrorMessage>,
) -> bool {
    if zr < 2 {
        r == Err::<(), ErrorMessage>(ErrorMessage::NotEnoughZones) && post == pre
    } else {
        &&& spec_no_fit(pre, qty, zr as int) ==> r == Err::<(), ErrorMessage>(
            ErrorMessage::InsufficientSpace,
        ) && post == pre
        &&& !spec_no_fit(pre, qty, zr as int) ==> exists|c: (usize, usize, usize, usize)|
            #[trigger] spec_first_fit_coord(pre, qty, zr as int, c) && spec_wh_span_fill_post(
                pre,
                post,
                id,
                list,
                zr as int,
                qty,
                expiry_date,
                c,
                r,
            )
    }
}

/// What a round-robin restock settles to, by the product's quality.
pub open spec fn spec_round_robin_outcome(
    pre: Warehouse,
    post: Warehouse,
    id: u64,
    list: ProductList,
    qty: int,
    expiry_date: Option<Date>,
    r: Result<(), ErrorMessage>,
) -> bool {
    let q = list.spec_product(id).quality;
    &&& (q is Normal || q is Fragile) ==> {
        &&& ((r == Err::<(), ErrorMessage>(ErrorMessage::InsufficientSpace))
            <==> spec_rr_exhausted(pre))
        &&& spec_rr_exhausted(pre) ==> post == pre
        &&& !spec_rr_exhausted(pre) ==> exists|c: (usize, usize, usize, usize)|
            #[trigger] spec_rr_coord(pre, c) && spec_wh_fill_post(
                pre,
                post,
                id,
                list,
                qty,
                expiry_date,
                c,
                r,
            )
    }
    &&& (q matches Quality::Oversized(zr) ==> spec_rr_oversized_outcome(
        pre,
        post,
        id,
        list,
        zr,
        qty,
        expiry_date,
        r,
    ))
    &&& (q matches Quality::OversizedAndFragile(zr, _) ==> spec_rr_oversized_outcome(
        pre,
        post,
        id,
        list,
        zr,
        qty,
        expiry_date,
        r,
    ))
}

/// The oversized arm of a round-robin restock.
pub open spec fn spec_rr_oversized_outcome(
    pre: Warehouse,
    post: Warehouse,
    id: u64,
    list: ProductList,
    zr: usize,
    qty: int,
    expiry_date: Option<Date>,
    r: Result<(), ErrorMessage>,
) -> bool {
    if zr < 2 {
        r == Err::<(), ErrorMessage>(ErrorMessage::NotEnoughZones) && post == pre
    } else {
        &&& spec_rr_exhausted(pre) ==> r == Err::<(), ErrorMessage>(
            ErrorMessage::InsufficientSpace,
        ) && post == pre
        &&& !spec_rr_exhausted(pre) ==> exists|c: (usize, usize, usize, usize)|
            #[trigger] spec_rr_coord(pre, c) && spec_wh_span_fill_post(
                pre,
                post,
                id,
                list,
                zr as int,
                qty,
                expiry_date,
                c,
                r,
            )
    }
}

/// After a closest-to-start failure for want of space, nothing usable for
/// the product remains: no vacancy under its ceiling (for oversized
/// products, no vacant run of its width).
pub open spec fn spec_closest_exhausted(post: Warehouse, list: ProductList, id: u64) -> bool {
    let ml = spec_max_level(list.spec_product(id).quality);
    let q = list.spec_product(id).quality;
    if q is Normal || q is Fragile {
        forall|i: int, j: int|
            0 <= i < post.rows@.len() && 0 <= j < post.rows@[i].shelves@.len()
                ==> !spec_shelf_usable(#[trigger] post.rows@[i].shelves@[j], ml)
    } else {
        forall|i: int, j: int|
            0 <= i < post.rows@.len() && 0 <= j < post.rows@[i].shelves@.len()
                ==> !spec_shelf_usable_run(
                #[trigger] post.rows@[i].shelves@[j],
                ml,
                spec_zones_required(q) as int,
            )
    }
}

/// What the closest-to-start strategy leaves behind, by quality: single
/// units or spans at previously vacant zones, stamped and under the ceiling.
pub open spec fn spec_closest_outcome_placements(
    pre: Warehouse,
    post: Warehouse,
    id: u64,
    list: ProductList,
    expiry_date: Option<Date>,
) -> bool {
    let q = list.spec_product(id).quality;
    if q is Normal || q is Fragile {
        spec_closest_placements(pre, post, id, q, expiry_date)
    } else {
        spec_zones_required(q) >= 2 ==> spec_closest_span_placements(pre, post, id, q, expiry_date)
    }
}

/// The failures a closest-to-start restock can surface./// The failures a closest-to-start restock can surface.
pub open spec fn spec_closest_errors(
    list: ProductList,
    id: u64,
    expiry_date: Option<Date>,
    r: Result<(), ErrorMessage>,
) -> bool {
    let ml = spec_max_level(list.spec_product(id).quality);
    let zr = spec_zones_required(list.spec_product(id).quality);
    &&& (r is Err ==> r == Err::<(), ErrorMessage>(ErrorMessage::InsufficientSpace) || r == Err::<
        (),
        ErrorMessage,
    >(ErrorMessage::FragileObjectWithoutExpiration) || r == Err::<(), ErrorMessage>(
        ErrorMessage::LevelTooHigh,
    ) || (r == Err::<(), ErrorMessage>(ErrorMessage::NotEnoughZones) && (
    list.spec_product(id).quality is Oversized || list.spec_product(
        id,
    ).quality is OversizedAndFragile) && zr < 2))
    &&& (r == Err::<(), ErrorMessage>(ErrorMessage::FragileObjectWithoutExpiration) ==> ml is Some
        && expiry_date is None)
    &&& (r == Err::<(), ErrorMessage>(ErrorMessage::LevelTooHigh) ==> ml is Some
        && expiry_date is Some)
}

impl Warehouse {
    /// Fills forward from `start`, one single-zone unit at a time, moving to
    /// the next row when one row is exhausted; fails with `EndOfRows` when
    /// stock remains after the last row. Placements already made stay. The
    /// walk's exact behaviour is `spec_wh_fill_post`.
    #[verifier::loop_isolation(false)]
    #[verifier::rlimit(100)]
    pub fn add_qty(
        &mut self,
        id: u64,
        list: &ProductList,
        qty: usize,
        expiry_date: Option<Date>,
        start: (usize, usize, usize, usize),
    ) -> (r: Result<(), ErrorMessage>)
        requires
            old(self).wf(),
            list.wf(),
            list.spec_has_id(id) ==> spec_zones_required(list.spec_product(id).quality) == 1,
        ensures
            final(self).wf(),
            final(self).strategy == old(self).strategy,
            final(self).cap() == old(self).cap(),
            final(self).rows@.len() == old(self).rows@.len(),
            r is Ok ==> final(self).available_space == old(self).available_space - qty,
            old(self).available_space - qty <= final(self).available_space <= old(self).available_space,
            !list.spec_has_id(id) && qty > 0 ==> r == Err::<(), ErrorMessage>(
                ErrorMessage::ProductNotListed,
            ) && *final(self) == *old(self),
            list.spec_has_id(id) && qty > 0 && start.0 < 1 ==> r == Err::<(), ErrorMessage>(
                ErrorMessage::RowNotFound,
            ) && *final(self) == *old(self),
            list.spec_has_id(id) && start.0 >= 1 ==> r != Err::<(), ErrorMessage>(
                ErrorMessage::ProductNotListed,
            ) && r != Err::<(), ErrorMessage>(ErrorMessage::RowNotFound) && spec_wh_fill_post(
                *old(self),
                *final(self),
                id,
                *list,
                qty as int,
                expiry_date,
                start,
                r,
            ),
    {
        if qty == 0 {
            return Ok(());
        }
        if list.product(id).is_none() {
            return Err(ErrorMessage::ProductNotListed);
        }
        if start.0 < 1 {
            return Err(ErrorMessage::RowNotFound);
        }
        let max_level = match list.product(id) {
            Some(product) => product.max_level(),
            None => None,
        };
        let ghost ml = spec_max_level(list.spec_product(id).quality);
        let mut remaining = qty;
        let mut row = start.0;
        let mut shelf = start.1;
        let mut level = start.2;
        let mut zone = start.3;
        while remaining > 0
            invariant
                self.wf(),
                self.strategy == old(self).strategy,
                self.cap() == old(self).cap(),
                self.rows@.len() == old(self).rows@.len(),
                remaining <= qty,
                self.available_space == old(self).available_space - (qty - remaining),
                list.spec_has_id(id),
                spec_zones_required(list.spec_product(id).quality) == 1,
                ml == spec_max_level(list.spec_product(id).quality),
                row >= 1,
                forall|rr: int|
                    row <= rr <= old(self).rows@.len() ==> (#[trigger] self.rows@[rr - 1]) == old(self).rows@[rr - 1],
                spec_wh_walk_pos(old(self).rows@, ml, 1, start, qty - remaining)
                    == spec_wh_walk_first(old(self).rows@, ml, row as int, (shelf, level, zone)),
                forall|k: int|
                    0 <= k < qty - remaining ==> #[trigger] spec_wh_slot_filled(
                        *old(self),
                        *self,
                        ml,
                        start,
                        id,
                        expiry_date,
                        k,
                    ),
                forall|k: int|
                    0 <= k < qty - remaining ==> (#[trigger] spec_wh_walk_pos(
                        old(self).rows@,
                        ml,
                        1,
                        start,
                        k,
                    )).0 <= old(self).rows@.len(),
                spec_wh_walk_frame(*old(self), *self, ml, 1, start, qty - remaining),
                ml is Some && expiry_date is None ==> remaining == qty,
            decreases old(self).rows@.len() + 1 - row,
        {
            if row > self.rows.len() {
                return Err(ErrorMessage::EndOfRows);
            }
            let ghost placed0 = qty - remaining;
            let ghost pre = *old(self);
            let ghost row_pre = self.rows@[row - 1];
            let ghost s3 = (shelf, level, zone);
            let overrun = match max_level {
                Some(ceiling) => level > ceiling && shelf >= self.rows[row - 1].shelves.len(),
                None => false,
            };
            if overrun {
                // This row has no room under the ceiling: move on untouched.
                proof {
                    assert(crate::row::spec_walk_overrun(pre.rows@[row - 1], ml, s3));
                    assert(spec_wh_walk_first(pre.rows@, ml, row as int, s3)
                        == spec_wh_walk_first(
                        pre.rows@,
                        ml,
                        row as int + 1,
                        (1usize, 1usize, 1usize),
                    ));
                }
                if row >= self.rows.len() {
                    return Err(ErrorMessage::EndOfRows);
                }
                row = row + 1;
                shelf = 1;
                level = 1;
                zone = 1;
                continue;
            }
            let remaining_before = remaining;
            let before_row_space = self.rows[row - 1].available_space;
            let idx = row - 1;
            let ghost prev_rows = self.rows@;
            let ghost whole_before = *self;
            let row_ref = &mut self.rows[idx];
            let outcome = row_ref.add_qty(id, list, &mut remaining, expiry_date, (
                shelf,
                level,
                zone,
            ));
            let after_row_space = self.rows[idx].available_space;
            let placed_here = before_row_space - after_row_space;
            proof {
                lemma_rows_update(prev_rows, idx as int, self.rows@[idx as int]);
                lemma_rows_vacant_le_cap(self.rows@);
                assert(self.rows@ =~= prev_rows.update(idx as int, self.rows@[idx as int]));
                assert(row_pre == pre.rows@[row - 1]);
            }
            self.available_space = self.available_space - placed_here;
            let ghost p = remaining_before - remaining;
            proof {
                assert(whole_before.rows@[row - 1] == pre.rows@[row - 1]);
                assert(crate::row::spec_fill_walk_post(
                    pre.rows@[row - 1],
                    self.rows@[row - 1],
                    id,
                    *list,
                    remaining_before as int,
                    remaining as int,
                    expiry_date,
                    s3,
                    outcome,
                ));
                assert(!crate::row::spec_walk_overrun(pre.rows@[row - 1], ml, s3));
                let rowpos = |j: int| crate::row::spec_walk_pos(pre.rows@[row - 1], ml, 1, s3, j);
                if !crate::row::spec_walk_overrun(pre.rows@[row - 1], ml, s3) {
                    assert forall|j: int| 0 <= j < p implies (#[trigger] crate::row::spec_walk_pos(
                        pre.rows@[row - 1],
                        ml,
                        1,
                        s3,
                        j,
                    )).0 <= pre.rows@[row - 1].shelves@.len() by {
                        assert(crate::row::spec_walk_slot_filled(
                            pre.rows@[row - 1],
                            self.rows@[row - 1],
                            ml,
                            s3,
                            id,
                            expiry_date,
                            j,
                        ));
                    }
                    lemma_wh_walk_in_row(
                        pre.rows@,
                        ml,
                        1,
                        start,
                        placed0 as int,
                        row as int,
                        s3,
                        p as int,
                    );
                    assert forall|k: int| 0 <= k < placed0 + p implies
                        #[trigger] spec_wh_slot_filled(
                        pre,
                        *self,
                        ml,
                        start,
                        id,
                        expiry_date,
                        k,
                    ) by {
                        if k < placed0 {
                            let slot = spec_wh_walk_pos(pre.rows@, ml, 1, start, k);
                            assert(spec_wh_slot_filled(
                                pre,
                                whole_before,
                                ml,
                                start,
                                id,
                                expiry_date,
                                k,
                            ));
                            if slot.0 == row as int {
                                assert(whole_before.rows@[row - 1] == pre.rows@[row - 1]);
                                assert(whole_before.rows@[slot.0 - 1].shelves@[slot.1
                                    - 1].levels@[slot.2 - 1].zones@[slot.3 - 1].is_vacant());
                                assert(false);
                            } else {
                                assert(self.rows@[slot.0 - 1] == whole_before.rows@[slot.0 - 1]);
                            }
                        } else {
                            let j = k - placed0;
                            let q = rowpos(j);
                            assert(spec_wh_walk_pos(pre.rows@, ml, 1, start, placed0 + j) == (
                                row as int,
                                q.0,
                                q.1,
                                q.2,
                            ));
                            assert(spec_wh_walk_pos(pre.rows@, ml, 1, start, k) == (
                                row as int,
                                q.0,
                                q.1,
                                q.2,
                            ));
                            assert(crate::row::spec_walk_slot_filled(
                                pre.rows@[row - 1],
                                self.rows@[row - 1],
                                ml,
                                s3,
                                id,
                                expiry_date,
                                j,
                            ));
                        }
                    }
                    assert forall|k: int| 0 <= k < placed0 + p implies (
                    #[trigger] spec_wh_walk_pos(pre.rows@, ml, 1, start, k)).0
                        <= pre.rows@.len() by {
                        if k >= placed0 {
                            let j = k - placed0;
                            let q = rowpos(j);
                            assert(spec_wh_walk_pos(pre.rows@, ml, 1, start, placed0 + j) == (
                                row as int,
                                q.0,
                                q.1,
                                q.2,
                            ));
                            assert(spec_wh_walk_pos(pre.rows@, ml, 1, start, k) == (
                                row as int,
                                q.0,
                                q.1,
                                q.2,
                            ));
                        }
                    }
                    assert forall|r2: int, s2: int, l2: int, z2: int|
                        spec_coord_valid(pre, r2, s2, l2, z2) && !(exists|k: int|
                            0 <= k < placed0 + p && #[trigger] spec_wh_walk_covers(
                                pre.rows@,
                                ml,
                                1,
                                start,
                                k,
                                r2,
                                s2,
                                l2,
                                z2,
                            )) implies (#[trigger] self.rows@[r2 - 1].shelves@[s2 - 1].levels@[l2
                        - 1].zones@[z2 - 1]) == pre.rows@[r2 - 1].shelves@[s2 - 1].levels@[l2
                        - 1].zones@[z2 - 1] by {
                        assert(!(exists|k: int|
                            0 <= k < placed0 && #[trigger] spec_wh_walk_covers(
                                pre.rows@,
                                ml,
                                1,
                                start,
                                k,
                                r2,
                                s2,
                                l2,
                                z2,
                            )));
                        assert(whole_before.rows@[r2 - 1].shelves@[s2 - 1].levels@[l2
                            - 1].zones@[z2 - 1] == pre.rows@[r2 - 1].shelves@[s2 - 1].levels@[l2
                            - 1].zones@[z2 - 1]);
                        if r2 == row as int {
                            assert forall|j: int| 0 <= j < p implies !(
                            #[trigger] crate::row::spec_walk_covers(
                                pre.rows@[row - 1],
                                ml,
                                1,
                                s3,
                                j,
                                s2,
                                l2,
                                z2,
                            )) by {
                                let q = rowpos(j);
                                assert(spec_wh_walk_pos(pre.rows@, ml, 1, start, placed0 + j) == (
                                    row as int,
                                    q.0,
                                    q.1,
                                    q.2,
                                ));
                                assert(!spec_wh_walk_covers(
                                    pre.rows@,
                                    ml,
                                    1,
                                    start,
                                    placed0 + j,
                                    r2,
                                    s2,
                                    l2,
                                    z2,
                                ));
                            }
                            assert(crate::row::spec_walk_frame(
                                pre.rows@[row - 1],
                                self.rows@[row - 1],
                                ml,
                                1,
                                s3,
                                p as int,
                            ));
                            assert(crate::row::spec_slot_valid(pre.rows@[row - 1], s2, l2, z2));
                        } else {
                            assert(self.rows@[r2 - 1] == whole_before.rows@[r2 - 1]);
                        }
                    }
                }
            }
            match outcome {
                Ok(()) => {
                    if remaining == 0 {
                        return Ok(());
                    }
                    proof {
                        let q = crate::row::spec_walk_pos(pre.rows@[row - 1], ml, 1, s3, p as int);
                        assert(p > 0 && q.0 == pre.rows@[row - 1].shelves@.len() + 1);
                        assert(spec_wh_walk_pos(pre.rows@, ml, 1, start, placed0 + p)
                            == spec_wh_walk_first(
                            pre.rows@,
                            ml,
                            row as int + 1,
                            (1usize, 1usize, 1usize),
                        ));
                    }
                    if row >= self.rows.len() {
                        return Err(ErrorMessage::EndOfRows);
                    }
                    row = row + 1;
                    shelf = 1;
                    level = 1;
                    zone = 1;
                },
                Err(e) => {
                    proof {
                        assert(!crate::row::spec_walk_overrun(pre.rows@[row - 1], ml, s3));
                        let q = crate::row::spec_walk_pos(pre.rows@[row - 1], ml, 1, s3, p as int);
                        if p > 0 {
                            let q1 = crate::row::spec_walk_pos(
                                pre.rows@[row - 1],
                                ml,
                                1,
                                s3,
                                p as int - 1,
                            );
                            assert(q1.0 <= pre.rows@[row - 1].shelves@.len());
                            assert(q.0 <= q1.0 + 1);
                            assert(q.0 <= pre.rows@[row - 1].shelves@.len());
                            assert(spec_wh_walk_pos(pre.rows@, ml, 1, start, placed0 + p) == (
                                row as int,
                                q.0,
                                q.1,
                                q.2,
                            ));
                        } else {
                            assert(spec_wh_walk_pos(pre.rows@, ml, 1, start, placed0) == (
                                row as int,
                                q.0,
                                q.1,
                                q.2,
                            ));
                        }
                    }
                    return Err(e);
                },
            }
        }
        Ok(())
    }

    /// As `add_qty`, but each unit takes a whole span of `zones_required`
    /// zones inside one level. The walk's exact behaviour is
    /// `spec_wh_span_fill_post`.
    #[verifier::loop_isolation(false)]
    #[verifier::rlimit(100)]
    #[verifier::spinoff_prover]
    pub fn add_oversized_qty(
        &mut self,
        id: u64,
        list: &ProductList,
        qty: usize,
        expiry_date: Option<Date>,
        zones_required: usize,
        start: (usize, usize, usize, usize),
    ) -> (r: Result<(), ErrorMessage>)
        requires
            old(self).wf(),
            list.wf(),
            list.spec_has_id(id) ==> spec_zones_required(list.spec_product(id).quality)
                == zones_required && zones_required >= 2,
        ensures
            final(self).wf(),
            final(self).strategy == old(self).strategy,
            final(self).cap() == old(self).cap(),
            final(self).rows@.len() == old(self).rows@.len(),
            r is Ok ==> final(self).available_space == old(self).available_space - qty
                * zones_required,
            old(self).available_space - qty * zones_required <= final(self).available_space <= old(self).available_space,
            !list.spec_has_id(id) && qty > 0 ==> r == Err::<(), ErrorMessage>(
                ErrorMessage::ProductNotListed,
            ) && *final(self) == *old(self),
            list.spec_has_id(id) && qty > 0 && start.0 < 1 ==> r == Err::<(), ErrorMessage>(
                ErrorMessage::RowNotFound,
            ) && *final(self) == *old(self),
            list.spec_has_id(id) && start.0 >= 1 ==> r != Err::<(), ErrorMessage>(
                ErrorMessage::ProductNotListed,
            ) && r != Err::<(), ErrorMessage>(ErrorMessage::RowNotFound)
                && spec_wh_span_fill_post(
                *old(self),
                *final(self),
                id,
                *list,
                zones_required as int,
                qty as int,
                expiry_date,
                start,
                r,
            ),
    {
        if list.product(id).is_none() {
            return Err(ErrorMessage::ProductNotListed);
        }
        if start.0 < 1 {
            return Err(ErrorMessage::RowNotFound);
        }
        if qty == 0 {
            proof {
                assert(0int * (zones_required as int) == 0) by (nonlinear_arith);
                assert(0int / (zones_required as int) == 0) by (nonlinear_arith)
                    requires
                        zones_required >= 1,
                ;
            }
            return Ok(());
        }
        let max_level = match list.product(id) {
            Some(product) => product.max_level(),
            None => None,
        };
        let ghost ml = spec_max_level(list.spec_product(id).quality);
        let ghost stride = zones_required as int;
        let mut remaining = qty;
        let mut row = start.0;
        let mut shelf = start.1;
        let mut level = start.2;
        let mut zone = start.3;
        proof {
            assert(0int * stride == 0) by (nonlinear_arith);
        }
        while remaining > 0
            invariant
                self.wf(),
                self.strategy == old(self).strategy,
                self.cap() == old(self).cap(),
                self.rows@.len() == old(self).rows@.len(),
                remaining <= qty,
                zones_required >= 2,
                stride == zones_required as int,
                self.available_space == old(self).available_space - (qty - remaining) * stride,
                0 <= (qty - remaining) * stride <= qty * stride,
                list.spec_has_id(id),
                spec_zones_required(list.spec_product(id).quality) == zones_required,
                ml == spec_max_level(list.spec_product(id).quality),
                row >= 1,
                forall|rr: int|
                    row <= rr <= old(self).rows@.len() ==> (#[trigger] self.rows@[rr - 1]) == old(self).rows@[rr - 1],
                spec_wh_walk_pos(old(self).rows@, ml, stride, start, qty - remaining)
                    == spec_wh_walk_first(old(self).rows@, ml, row as int, (shelf, level, zone)),
                forall|k: int|
                    0 <= k < qty - remaining ==> #[trigger] spec_wh_span_slot_filled(
                        *old(self),
                        *self,
                        ml,
                        stride,
                        start,
                        id,
                        expiry_date,
                        k,
                    ),
                forall|k: int|
                    0 <= k < qty - remaining ==> (#[trigger] spec_wh_walk_pos(
                        old(self).rows@,
                        ml,
                        stride,
                        start,
                        k,
                    )).0 <= old(self).rows@.len(),
                spec_wh_walk_frame(*old(self), *self, ml, stride, start, qty - remaining),
                ml is Some && expiry_date is None ==> remaining == qty,
            decreases old(self).rows@.len() + 1 - row,
        {
            if row > self.rows.len() {
                proof {
                    lemma_span_placed_division(qty - remaining, stride);
                }
                return Err(ErrorMessage::EndOfRows);
            }
            let ghost placed0 = qty - remaining;
            let ghost pre = *old(self);
            let ghost s3 = (shelf, level, zone);
            let overrun = match max_level {
                Some(ceiling) => level > ceiling && shelf >= self.rows[row - 1].shelves.len(),
                None => false,
            };
            if overrun {
                // This row has no room under the ceiling: move on untouched.
                proof {
                    assert(crate::row::spec_walk_overrun(pre.rows@[row - 1], ml, s3));
                    assert(spec_wh_walk_first(pre.rows@, ml, row as int, s3)
                        == spec_wh_walk_first(
                        pre.rows@,
                        ml,
                        row as int + 1,
                        (1usize, 1usize, 1usize),
                    ));
                }
                if row >= self.rows.len() {
                    proof {
                        lemma_span_placed_division(qty - remaining, stride);
                    }
                    return Err(ErrorMessage::EndOfRows);
                }
                row = row + 1;
                shelf = 1;
                level = 1;
                zone = 1;
                continue;
            }
            let remaining_before = remaining;
            let before_row_space = self.rows[row - 1].available_space;
            let idx = row - 1;
            let ghost prev_rows = self.rows@;
            let ghost whole_before = *self;
            let row_ref = &mut self.rows[idx];
            let outcome = row_ref.add_oversized_qty(
                id,
                list,
                &mut remaining,
                expiry_date,
                zones_required,
                (shelf, level, zone),
            );
            let after_row_space = self.rows[idx].available_space;
            let placed_here = before_row_space - after_row_space;
            proof {
                lemma_rows_update(prev_rows, idx as int, self.rows@[idx as int]);
                lemma_rows_vacant_le_cap(self.rows@);
                assert(self.rows@ =~= prev_rows.update(idx as int, self.rows@[idx as int]));
            }
            self.available_space = self.available_space - placed_here;
            let ghost p = remaining_before - remaining;
            proof {
                assert(whole_before.rows@[row - 1] == pre.rows@[row - 1]);
                assert(crate::row::spec_fill_span_walk_post(
                    pre.rows@[row - 1],
                    self.rows@[row - 1],
                    id,
                    *list,
                    stride,
                    remaining_before as int,
                    remaining as int,
                    expiry_date,
                    s3,
                    outcome,
                ));
                assert((placed0 + p) * stride == placed0 * stride + p * stride)
                    by (nonlinear_arith);
                let ghost q0 = qty as int;
                let ghost rem = remaining as int;
                assert((q0 - rem) * stride <= q0 * stride) by (nonlinear_arith)
                    requires
                        0 <= rem <= q0 && stride >= 0,
                ;
                assert(!crate::row::spec_walk_overrun(pre.rows@[row - 1], ml, s3));
                let rowpos = |j: int|
                    crate::row::spec_walk_pos(pre.rows@[row - 1], ml, stride, s3, j);
                assert forall|j: int| 0 <= j < p implies (#[trigger] crate::row::spec_walk_pos(
                    pre.rows@[row - 1],
                    ml,
                    stride,
                    s3,
                    j,
                )).0 <= pre.rows@[row - 1].shelves@.len() by {
                    assert(crate::row::spec_span_slot_filled(
                        pre.rows@[row - 1],
                        self.rows@[row - 1],
                        ml,
                        stride,
                        s3,
                        id,
                        expiry_date,
                        j,
                    ));
                }
                lemma_wh_walk_in_row(
                    pre.rows@,
                    ml,
                    stride,
                    start,
                    placed0 as int,
                    row as int,
                    s3,
                    p as int,
                );
                assert forall|k: int| 0 <= k < placed0 + p implies
                    #[trigger] spec_wh_span_slot_filled(
                    pre,
                    *self,
                    ml,
                    stride,
                    start,
                    id,
                    expiry_date,
                    k,
                ) by {
                    if k < placed0 {
                        let slot = spec_wh_walk_pos(pre.rows@, ml, stride, start, k);
                        assert(spec_wh_span_slot_filled(
                            pre,
                            whole_before,
                            ml,
                            stride,
                            start,
                            id,
                            expiry_date,
                            k,
                        ));
                        if slot.0 == row as int {
                            assert(whole_before.rows@[slot.0 - 1].shelves@[slot.1
                                - 1].levels@[slot.2 - 1].zones@[slot.3 - 1].is_vacant());
                            assert(false);
                        } else {
                            assert(self.rows@[slot.0 - 1] == whole_before.rows@[slot.0 - 1]);
                        }
                    } else {
                        let j = k - placed0;
                        let q = rowpos(j);
                        assert(spec_wh_walk_pos(pre.rows@, ml, stride, start, placed0 + j) == (
                            row as int,
                            q.0,
                            q.1,
                            q.2,
                        ));
                        assert(spec_wh_walk_pos(pre.rows@, ml, stride, start, k) == (
                            row as int,
                            q.0,
                            q.1,
                            q.2,
                        ));
                        assert(crate::row::spec_span_slot_filled(
                            pre.rows@[row - 1],
                            self.rows@[row - 1],
                            ml,
                            stride,
                            s3,
                            id,
                            expiry_date,
                            j,
                        ));
                    }
                }
                assert forall|k: int| 0 <= k < placed0 + p implies (#[trigger] spec_wh_walk_pos(
                    pre.rows@,
                    ml,
                    stride,
                    start,
                    k,
                )).0 <= pre.rows@.len() by {
                    if k >= placed0 {
                        let j = k - placed0;
                        let q = rowpos(j);
                        assert(spec_wh_walk_pos(pre.rows@, ml, stride, start, placed0 + j) == (
                            row as int,
                            q.0,
                            q.1,
                            q.2,
                        ));
                        assert(spec_wh_walk_pos(pre.rows@, ml, stride, start, k) == (
                            row as int,
                            q.0,
                            q.1,
                            q.2,
                        ));
                    }
                }
                assert forall|r2: int, s2: int, l2: int, z2: int|
                    spec_coord_valid(pre, r2, s2, l2, z2) && !(exists|k: int|
                        0 <= k < placed0 + p && #[trigger] spec_wh_walk_covers(
                            pre.rows@,
                            ml,
                            stride,
                            start,
                            k,
                            r2,
                            s2,
                            l2,
                            z2,
                        )) implies (#[trigger] self.rows@[r2 - 1].shelves@[s2 - 1].levels@[l2
                    - 1].zones@[z2 - 1]) == pre.rows@[r2 - 1].shelves@[s2 - 1].levels@[l2
                    - 1].zones@[z2 - 1] by {
                    assert(!(exists|k: int|
                        0 <= k < placed0 && #[trigger] spec_wh_walk_covers(
                            pre.rows@,
                            ml,
                            stride,
                            start,
                            k,
                            r2,
                            s2,
                            l2,
                            z2,
                        )));
                    assert(whole_before.rows@[r2 - 1].shelves@[s2 - 1].levels@[l2 - 1].zones@[z2
                        - 1] == pre.rows@[r2 - 1].shelves@[s2 - 1].levels@[l2 - 1].zones@[z2 - 1]);
                    if r2 == row as int {
                        assert forall|j: int| 0 <= j < p implies !(
                        #[trigger] crate::row::spec_walk_covers(
                            pre.rows@[row - 1],
                            ml,
                            stride,
                            s3,
                            j,
                            s2,
                            l2,
                            z2,
                        )) by {
                            let q = rowpos(j);
                            assert(spec_wh_walk_pos(pre.rows@, ml, stride, start, placed0 + j) == (
                                row as int,
                                q.0,
                                q.1,
                                q.2,
                            ));
                            assert(!spec_wh_walk_covers(
                                pre.rows@,
                                ml,
                                stride,
                                start,
                                placed0 + j,
                                r2,
                                s2,
                                l2,
                                z2,
                            ));
                        }
                        assert(crate::row::spec_walk_frame(
                            pre.rows@[row - 1],
                            self.rows@[row - 1],
                            ml,
                            stride,
                            s3,
                            p as int,
                        ));
                        assert(crate::row::spec_slot_valid(pre.rows@[row - 1], s2, l2, z2));
                    } else {
                        assert(self.rows@[r2 - 1] == whole_before.rows@[r2 - 1]);
                    }
                }
            }
            match outcome {
                Ok(()) => {
                    if remaining == 0 {
                        proof {
                            lemma_span_placed_division(qty - remaining, stride);
                        }
                        return Ok(());
                    }
                    proof {
                        let q = crate::row::spec_walk_pos(
                            pre.rows@[row - 1],
                            ml,
                            stride,
                            s3,
                            p as int,
                        );
                        assert(p > 0 && q.0 == pre.rows@[row - 1].shelves@.len() + 1);
                        assert(spec_wh_walk_pos(pre.rows@, ml, stride, start, placed0 + p)
                            == spec_wh_walk_first(
                            pre.rows@,
                            ml,
                            row as int + 1,
                            (1usize, 1usize, 1usize),
                        ));
                    }
                    if row >= self.rows.len() {
                        proof {
                            lemma_span_placed_division(qty - remaining, stride);
                        }
                        return Err(ErrorMessage::EndOfRows);
                    }
                    row = row + 1;
                    shelf = 1;
                    level = 1;
                    zone = 1;
                },
                Err(e) => {
                    proof {
                        let q = crate::row::spec_walk_pos(
                            pre.rows@[row - 1],
                            ml,
                            stride,
                            s3,
                            p as int,
                        );
                        if p > 0 {
                            let q1 = crate::row::spec_walk_pos(
                                pre.rows@[row - 1],
                                ml,
                                stride,
                                s3,
                                p as int - 1,
                            );
                            assert(q1.0 <= pre.rows@[row - 1].shelves@.len());
                            assert(q.0 <= q1.0 + 1);
                            assert(q.0 <= pre.rows@[row - 1].shelves@.len());
                            assert(spec_wh_walk_pos(pre.rows@, ml, stride, start, placed0 + p) == (
                                row as int,
                                q.0,
                                q.1,
                                q.2,
                            ));
                        } else {
                            assert(spec_wh_walk_pos(pre.rows@, ml, stride, start, placed0) == (
                                row as int,
                                q.0,
                                q.1,
                                q.2,
                            ));
                        }
                        if e == ErrorMessage::FragileObjectWithoutExpiration {
                            assert(crate::row::spec_fill_span_walk_post(
                                pre.rows@[row - 1],
                                self.rows@[row - 1],
                                id,
                                *list,
                                stride,
                                remaining_before as int,
                                remaining as int,
                                expiry_date,
                                s3,
                                outcome,
                            ));
                            assert(outcome == Err::<(), ErrorMessage>(
                                ErrorMessage::FragileObjectWithoutExpiration,
                            ));
                            assert(remaining_before > 0);
                            assert(ml is Some && expiry_date is None);
                            assert(remaining == remaining_before);
                            assert(remaining_before == qty);
                            assert(placed0 == 0 && p == 0);
                        }
                        lemma_span_placed_division(qty - remaining, stride);
                    }
                    return Err(e);
                },
            }
        }
        proof {
            lemma_span_placed_division(qty - remaining, stride);
        }
        Ok(())
    }

    /// Contiguous strategy for single-zone units: find the first run of
    /// `qty` vacant zones and fill it from its start. With no such run the
    /// warehouse is unchanged and `InsufficientSpace` comes back.
    pub fn place_contiguous_stock(
        &mut self,
        id: u64,
        list: &ProductList,
        qty: usize,
        expiry_date: Option<Date>,
    ) -> (r: Result<(), ErrorMessage>)
        requires
            old(self).wf(),
            list.wf(),
            qty >= 1,
            list.spec_has_id(id) ==> spec_zones_required(list.spec_product(id).quality) == 1,
        ensures
            final(self).wf(),
            final(self).strategy == old(self).strategy,
            final(self).cap() == old(self).cap(),
            r is Ok ==> final(self).available_space == old(self).available_space - qty,
            old(self).available_space - qty <= final(self).available_space <= old(self).available_space,
            spec_no_run(*old(self), qty as int) ==> r == Err::<(), ErrorMessage>(
                ErrorMessage::InsufficientSpace,
            ) && *final(self) == *old(self),
            list.spec_has_id(id) ==> ((r == Err::<(), ErrorMessage>(
                ErrorMessage::InsufficientSpace,
            )) <==> spec_no_run(*old(self), qty as int)),
            list.spec_has_id(id) && !spec_no_run(*old(self), qty as int) ==> exists|
                c: (usize, usize, usize, usize),
            |
                #[trigger] spec_first_run_coord(*old(self), qty as int, c) && spec_wh_fill_post(
                    *old(self),
                    *final(self),
                    id,
                    *list,
                    qty as int,
                    expiry_date,
                    c,
                    r,
                ),
    {
        match self.find_first_contiguous_space(qty) {
            Some(found) => {
                proof {
                    lemma_rows_occ_len(self.rows@);
                }
                let outcome = self.add_qty(id, list, qty, expiry_date, found);
                proof {
                    if list.spec_has_id(id) {
                        assert(spec_first_run_coord(*old(self), qty as int, found));
                    }
                }
                outcome
            },
            None => Err(ErrorMessage::InsufficientSpace),
        }
    }

    /// Contiguous strategy for oversized units: find `qty` back-to-back
    /// fits-here blocks in the oversized map and fill from their start.
    pub fn place_contiguous_oversized_stock(
        &mut self,
        id: u64,
        list: &ProductList,
        qty: usize,
        expiry_date: Option<Date>,
        zones_required: usize,
    ) -> (r: Result<(), ErrorMessage>)
        requires
            old(self).wf(),
            list.wf(),
            qty >= 1,
            zones_required >= 2,
            list.spec_has_id(id) ==> spec_zones_required(list.spec_product(id).quality)
                == zones_required,
        ensures
            final(self).wf(),
            final(self).strategy == old(self).strategy,
            final(self).cap() == old(self).cap(),
            r is Ok ==> final(self).available_space == old(self).available_space - qty
                * zones_required,
            old(self).available_space - qty * zones_required <= final(self).available_space <= old(self).available_space,
            spec_no_fit(*old(self), qty as int, zones_required as int) ==> r == Err::<(
            ), ErrorMessage>(ErrorMessage::InsufficientSpace) && *final(self) == *old(self),
            list.spec_has_id(id) && !spec_no_fit(*old(self), qty as int, zones_required as int)
                ==> exists|c: (usize, usize, usize, usize)|
                #[trigger] spec_first_fit_coord(
                    *old(self),
                    qty as int,
                    zones_required as int,
                    c,
                ) && spec_wh_span_fill_post(
                    *old(self),
                    *final(self),
                    id,
                    *list,
                    zones_required as int,
                    qty as int,
                    expiry_date,
                    c,
                    r,
                ),
    {
        match self.find_first_contiguous_oversized_space(qty, zones_required) {
            Some(found) => {
                let outcome = self.add_oversized_qty(
                    id,
                    list,
                    qty,
                    expiry_date,
                    zones_required,
                    found,
                );
                proof {
                    if list.spec_has_id(id) {
                        assert(spec_first_fit_coord(
                            *old(self),
                            qty as int,
                            zones_required as int,
                            found,
                        ));
                    }
                }
                outcome
            },
            None => Err(ErrorMessage::InsufficientSpace),
        }
    }

    /// Dispatches a contiguous restock by the product's quality.
    pub fn contiguous_placement(
        &mut self,
        id: u64,
        list: &ProductList,
        qty: usize,
        expiry_date: Option<Date>,
    ) -> (r: Result<(), ErrorMessage>)
        requires
            old(self).wf(),
            list.wf(),
            qty >= 1,
        ensures
            final(self).wf(),
            final(self).strategy == old(self).strategy,
            final(self).cap() == old(self).cap(),
            !list.spec_has_id(id) ==> r == Err::<(), ErrorMessage>(ErrorMessage::ProductNotListed)
                && *final(self) == *old(self),
            list.spec_has_id(id) ==> r != Err::<(), ErrorMessage>(ErrorMessage::ProductNotListed)
                && spec_contiguous_outcome(
                *old(self),
                *final(self),
                id,
                *list,
                qty as int,
                expiry_date,
                r,
            ),
            r is Ok ==> final(self).available_space == old(self).available_space - qty
                * spec_zones_required(list.spec_product(id).quality),
            final(self).available_space <= old(self).available_space,
    {
        let product = match list.product(id) {
            Some(product) => product,
            None => {
                return Err(ErrorMessage::ProductNotListed);
            },
        };
        match product.quality {
            Quality::Oversized(zones_required) | Quality::OversizedAndFragile(
                zones_required,
                _,
            ) => {
                if zones_required < 2 {
                    return Err(ErrorMessage::NotEnoughZones);
                }
                self.place_contiguous_oversized_stock(id, list, qty, expiry_date, zones_required)
            },
            _ => {
                let outcome = self.place_contiguous_stock(id, list, qty, expiry_date);
                proof {
                    assert((qty as int) * 1int == qty as int) by (nonlinear_arith);
                }
                outcome
            },
        }
    }

    /// Where round-robin filling resumes: just past the last occupied zone;
    /// the origin when the map is entirely vacant; nowhere when the very last
    /// zone is occupied.
    #[verifier::loop_isolation(false)]
    pub fn find_round_robin_continuation(&self, flat_map: Vec<bool>) -> (r: Option<
        (usize, usize, usize, usize),
    >)
        requires
            self.wf(),
            flat_map@ == spec_rows_occ(self.rows@),
        ensures
            ({
                let m = spec_rows_occ(self.rows@);
                match r {
                    Some(found) => {
                        let p = spec_coord_index(
                            *self,
                            found.0 as int,
                            found.1 as int,
                            found.2 as int,
                            found.3 as int,
                        );
                        &&& spec_coord_valid(
                            *self,
                            found.0 as int,
                            found.1 as int,
                            found.2 as int,
                            found.3 as int,
                        )
                        &&& (p == 0 || m[p - 1])
                        &&& forall|j: int| p <= j < m.len() ==> !m[j]
                    },
                    None => m.len() == 0 || m[m.len() - 1],
                }
            }),
    {
        proof {
            lemma_rows_occ_len(self.rows@);
        }
        let mut i: usize = flat_map.len();
        while i > 0
            invariant
                flat_map@ == spec_rows_occ(self.rows@),
                i <= flat_map@.len(),
                forall|j: int| i <= j < flat_map@.len() ==> !flat_map@[j],
            decreases i,
        {
            i = i - 1;
            if flat_map[i] {
                // The zone after the last occupied one.
                if i + 1 >= flat_map.len() {
                    return None;
                }
                match self.flat_map_position_to_zone(i + 1) {
                    Some(found) => {
                        return Some(found);
                    },
                    None => {
                        proof {
                            assert(false);
                        }
                        return None;
                    },
                }
            }
        }
        // Entirely vacant: start at the origin if there is one.
        if flat_map.len() == 0 {
            return None;
        }
        match self.flat_map_position_to_zone(0) {
            Some(found) => Some(found),
            None => {
                proof {
                    assert(false);
                }
                None
            },
        }
    }

    /// The oversized continuation works on the same positions: the oversized
    /// map keeps lengths, so the resume point is past the last occupied zone
    /// of the plain map as well.
    pub fn find_oversized_round_robin_continuation(
        &self,
        flat_map: Vec<bool>,
        zones_required: usize,
    ) -> (r: Option<(usize, usize, usize, usize)>)
        requires
            self.wf(),
            flat_map@ == spec_rows_occ(self.rows@),
            zones_required >= 1,
        ensures
            ({
                let m = spec_rows_occ(self.rows@);
                match r {
                    Some(found) => {
                        let p = spec_coord_index(
                            *self,
                            found.0 as int,
                            found.1 as int,
                            found.2 as int,
                            found.3 as int,
                        );
                        &&& spec_coord_valid(
                            *self,
                            found.0 as int,
                            found.1 as int,
                            found.2 as int,
                            found.3 as int,
                        )
                        &&& (p == 0 || m[p - 1])
                        &&& forall|j: int| p <= j < m.len() ==> !m[j]
                    },
                    None => m.len() == 0 || m[m.len() - 1],
                }
            }),
    {
        self.find_round_robin_continuation(flat_map)
    }

    /// Round-robin strategy for single-zone units.
    pub fn place_stock_in_round_robin(
        &mut self,
        id: u64,
        list: &ProductList,
        qty: usize,
        expiry_date: Option<Date>,
    ) -> (r: Result<(), ErrorMessage>)
        requires
            old(self).wf(),
            list.wf(),
            list.spec_has_id(id) ==> spec_zones_required(list.spec_product(id).quality) == 1,
        ensures
            final(self).wf(),
            final(self).strategy == old(self).strategy,
            final(self).cap() == old(self).cap(),
            r is Ok ==> final(self).available_space == old(self).available_space - qty,
            old(self).available_space - qty <= final(self).available_space <= old(self).available_space,
            spec_rr_exhausted(*old(self)) ==> r == Err::<(), ErrorMessage>(
                ErrorMessage::InsufficientSpace,
            ) && *final(self) == *old(self),
            list.spec_has_id(id) ==> ((r == Err::<(), ErrorMessage>(
                ErrorMessage::InsufficientSpace,
            )) <==> spec_rr_exhausted(*old(self))),
            list.spec_has_id(id) && !spec_rr_exhausted(*old(self)) ==> exists|
                c: (usize, usize, usize, usize),
            |
                #[trigger] spec_rr_coord(*old(self), c) && spec_wh_fill_post(
                    *old(self),
                    *final(self),
                    id,
                    *list,
                    qty as int,
                    expiry_date,
                    c,
                    r,
                ),
    {
        let m = self.flat_map();
        match self.find_round_robin_continuation(m) {
            Some(found) => {
                proof {
                    let occ = spec_rows_occ(self.rows@);
                    if occ.len() == 0 || occ[occ.len() - 1] {
                        crate::laws::lemma_coord_index_bounds(
                            *self,
                            found.0 as int,
                            found.1 as int,
                            found.2 as int,
                            found.3 as int,
                        );
                        lemma_rows_cap_prefix_bound(self.rows@, found.0 - 1);
                        lemma_rows_occ_len(self.rows@);
                        assert(false);
                    }
                }
                let outcome = self.add_qty(id, list, qty, expiry_date, found);
                proof {
                    if list.spec_has_id(id) {
                        assert(spec_rr_coord(*old(self), found));
                    }
                }
                outcome
            },
            None => Err(ErrorMessage::InsufficientSpace),
        }
    }

    /// Round-robin strategy for oversized units.
    pub fn place_oversized_stock_in_round_robin(
        &mut self,
        id: u64,
        list: &ProductList,
        qty: usize,
        expiry_date: Option<Date>,
        zones_required: usize,
    ) -> (r: Result<(), ErrorMessage>)
        requires
            old(self).wf(),
            list.wf(),
            zones_required >= 2,
            list.spec_has_id(id) ==> spec_zones_required(list.spec_product(id).quality)
                == zones_required,
        ensures
            final(self).wf(),
            final(self).strategy == old(self).strategy,
            final(self).cap() == old(self).cap(),
            r is Ok ==> final(self).available_space == old(self).available_space - qty
                * zones_required,
            old(self).available_space - qty * zones_required <= final(self).available_space <= old(self).available_space,
            spec_rr_exhausted(*old(self)) ==> r == Err::<(), ErrorMessage>(
                ErrorMessage::InsufficientSpace,
            ) && *final(self) == *old(self),
            list.spec_has_id(id) && !spec_rr_exhausted(*old(self)) ==> exists|
                c: (usize, usize, usize, usize),
            |
                #[trigger] spec_rr_coord(*old(self), c) && spec_wh_span_fill_post(
                    *old(self),
                    *final(self),
                    id,
                    *list,
                    zones_required as int,
                    qty as int,
                    expiry_date,
                    c,
                    r,
                ),
    {
        let m = self.flat_map();
        match self.find_oversized_round_robin_continuation(m, zones_required) {
            Some(found) => {
                proof {
                    let occ = spec_rows_occ(self.rows@);
                    if occ.len() == 0 || occ[occ.len() - 1] {
                        crate::laws::lemma_coord_index_bounds(
                            *self,
                            found.0 as int,
                            found.1 as int,
                            found.2 as int,
                            found.3 as int,
                        );
                        lemma_rows_cap_prefix_bound(self.rows@, found.0 - 1);
                        lemma_rows_occ_len(self.rows@);
                        assert(false);
                    }
                }
                let outcome = self.add_oversized_qty(
                    id,
                    list,
                    qty,
                    expiry_date,
                    zones_required,
                    found,
                );
                proof {
                    if list.spec_has_id(id) {
                        assert(spec_rr_coord(*old(self), found));
                    }
                }
                outcome
            },
            None => Err(ErrorMessage::InsufficientSpace),
        }
    }

    /// Dispatches a round-robin restock by the product's quality.
    pub fn round_robin_placement(
        &mut self,
        id: u64,
        list: &ProductList,
        qty: usize,
        expiry_date: Option<Date>,
    ) -> (r: Result<(), ErrorMessage>)
        requires
            old(self).wf(),
            list.wf(),
        ensures
            final(self).wf(),
            final(self).strategy == old(self).strategy,
            final(self).cap() == old(self).cap(),
            !list.spec_has_id(id) ==> r == Err::<(), ErrorMessage>(ErrorMessage::ProductNotListed)
                && *final(self) == *old(self),
            list.spec_has_id(id) ==> r != Err::<(), ErrorMessage>(ErrorMessage::ProductNotListed)
                && spec_round_robin_outcome(
                *old(self),
                *final(self),
                id,
                *list,
                qty as int,
                expiry_date,
                r,
            ),
            r is Ok ==> final(self).available_space == old(self).available_space - qty
                * spec_zones_required(list.spec_product(id).quality),
            final(self).available_space <= old(self).available_space,
    {
        let product = match list.product(id) {
            Some(product) => product,
            None => {
                return Err(ErrorMessage::ProductNotListed);
            },
        };
        match product.quality {
            Quality::Oversized(zones_required) | Quality::OversizedAndFragile(
                zones_required,
                _,
            ) => {
                if zones_required < 2 {
                    return Err(ErrorMessage::NotEnoughZones);
                }
                self.place_oversized_stock_in_round_robin(
                    id,
                    list,
                    qty,
                    expiry_date,
                    zones_required,
                )
            },
            _ => {
                let outcome = self.place_stock_in_round_robin(id, list, qty, expiry_date);
                proof {
                    assert((qty as int) * 1int == qty as int) by (nonlinear_arith);
                }
                outcome
            },
        }
    }
}

/// How many entries of one vacancy row are set.
pub open spec fn spec_count_true_row(s: Seq<bool>) -> nat
    decreases s.len(),
{
    if s.len() == 0 {
        0
    } else {
        spec_count_true_row(s.drop_last()) + if s.last() {
            1nat
        } else {
            0nat
        }
    }
}

/// How many entries of the whole vacancy grid are set.
pub open spec fn spec_count_true_grid(g: Seq<Vec<bool>>) -> nat
    decreases g.len(),
{
    if g.len() == 0 {
        0
    } else {
        spec_count_true_grid(g.drop_last()) + spec_count_true_row(g.last()@)
    }
}

proof fn lemma_count_true_row_update(s: Seq<bool>, j: int)
    requires
        0 <= j < s.len(),
        s[j],
    ensures
        spec_count_true_row(s.update(j, false)) == spec_count_true_row(s) - 1,
    decreases s.len(),
{
    let updated = s.update(j, false);
    if j == s.len() - 1 {
        assert(updated.drop_last() =~= s.drop_last());
    } else {
        lemma_count_true_row_update(s.drop_last(), j);
        assert(updated.drop_last() =~= s.drop_last().update(j, false));
    }
}

proof fn lemma_count_true_grid_update(g: Seq<Vec<bool>>, i: int, inner: Vec<bool>)
    requires
        0 <= i < g.len(),
    ensures
        spec_count_true_grid(g.update(i, inner)) == spec_count_true_grid(g) - spec_count_true_row(
            g[i]@,
        ) + spec_count_true_row(inner@),
    decreases g.len(),
{
    let updated = g.update(i, inner);
    if i == g.len() - 1 {
        assert(updated.drop_last() =~= g.drop_last());
    } else {
        lemma_count_true_grid_update(g.drop_last(), i, inner);
        assert(updated.drop_last() =~= g.drop_last().update(i, inner));
    }
}

/// The shelf still has a vacant zone at or below the fragile ceiling.
pub open spec fn spec_shelf_usable(sh: crate::shelf::Shelf, ml: Option<usize>) -> bool {
    exists|l: int, z: int|
        0 <= l < sh.levels@.len() && (ml matches Some(c) ==> l + 1 <= c) && 0 <= z < sh.levels@[
            l
        ].zones@.len() && (#[trigger] sh.levels@[l].zones@[z]).is_vacant()
}

/// The shelf still has a run of `zr` vacant zones inside one level at or
/// below the fragile ceiling.
pub open spec fn spec_shelf_usable_run(sh: crate::shelf::Shelf, ml: Option<usize>, zr: int) -> bool {
    exists|l: int, z: int|
        0 <= l < sh.levels@.len() && (ml matches Some(c) ==> l + 1 <= c) && 0 <= z && z + zr
            <= sh.levels@[l].zones@.len() && #[trigger] spec_run_vacant(sh.levels@[l].zones@, z, zr)
}

/// Every cleared vacancy flag is truthful: the shelf it names has no usable
/// vacancy left.
pub open spec fn spec_vm_sound(vm: Seq<Vec<bool>>, w: Warehouse, ml: Option<usize>) -> bool {
    forall|i: int, j: int|
        0 <= i < vm.len() && 0 <= j < vm[i]@.len() && !(#[trigger] vm[i]@[j])
            ==> !spec_shelf_usable(w.rows@[i].shelves@[j], ml)
}

/// As `spec_vm_sound`, for runs of `zr` vacant zones.
pub open spec fn spec_vm_sound_run(
    vm: Seq<Vec<bool>>,
    w: Warehouse,
    ml: Option<usize>,
    zr: int,
) -> bool {
    forall|i: int, j: int|
        0 <= i < vm.len() && 0 <= j < vm[i]@.len() && !(#[trigger] vm[i]@[j])
            ==> !spec_shelf_usable_run(w.rows@[i].shelves@[j], ml, zr)
}

/// At or below the ceiling, the only vacancy of the shelf is the zone at
/// 1-based (level `l0`, zone `z0`).
pub open spec fn spec_only_vacancy(sh: crate::shelf::Shelf, ml: Option<usize>, l0: int, z0: int) -> bool {
    forall|l: int, z: int|
        0 <= l < sh.levels@.len() && (ml matches Some(c) ==> l + 1 <= c) && 0 <= z < sh.levels@[
            l
        ].zones@.len() && (#[trigger] sh.levels@[l].zones@[z]).is_vacant() ==> l == l0 - 1 && z
            == z0 - 1
}

/// Soundness of the vacancy flags, except that the shelf of the coordinate
/// just handed out may be flagged off while that one zone is still vacant.
pub open spec fn spec_vm_sound_except(
    vm: Seq<Vec<bool>>,
    w: Warehouse,
    ml: Option<usize>,
    c: (usize, usize, usize, usize),
) -> bool {
    forall|i: int, j: int|
        0 <= i < vm.len() && 0 <= j < vm[i]@.len() && !(#[trigger] vm[i]@[j])
            ==> !spec_shelf_usable(w.rows@[i].shelves@[j], ml) || (i == c.0 - 1 && j == c.1 - 1
            && spec_only_vacancy(w.rows@[i].shelves@[j], ml, c.2 as int, c.3 as int))
}

/// A run of zones with no vacancy counted has no vacant zone.
proof fn lemma_zones_all_occupied(zones: Seq<Zone>)
    requires
        crate::level::spec_vacant_count(zones) == 0,
    ensures
        forall|z: int| 0 <= z < zones.len() ==> !(#[trigger] zones[z]).is_vacant(),
    decreases zones.len(),
{
    if zones.len() > 0 {
        lemma_zones_all_occupied(zones.drop_last());
        assert forall|z: int| 0 <= z < zones.len() implies !(#[trigger] zones[z]).is_vacant() by {
            if z < zones.len() - 1 {
                assert(zones.drop_last()[z] == zones[z]);
            } else {
                assert(zones.last() == zones[z]);
            }
        }
    }
}

/// A shelf whose counter reads zero has no vacant zone anywhere.
proof fn lemma_full_shelf_unusable(sh: crate::shelf::Shelf, ml: Option<usize>)
    requires
        sh.wf(),
        sh.available_space == 0,
    ensures
        !spec_shelf_usable(sh, ml),
        forall|zr: int| !spec_shelf_usable_run(sh, ml, zr) || zr <= 0,
{
    lemma_levels_all_occupied(sh.levels@);
    assert forall|l: int, z: int|
        0 <= l < sh.levels@.len() && 0 <= z < sh.levels@[l].zones@.len() implies !(
    #[trigger] sh.levels@[l].zones@[z]).is_vacant() by {}
    assert forall|zr: int| zr > 0 implies !spec_shelf_usable_run(sh, ml, zr) by {
        if spec_shelf_usable_run(sh, ml, zr) {
            let (l, z) = choose|l: int, z: int|
                0 <= l < sh.levels@.len() && (ml matches Some(c) ==> l + 1 <= c) && 0 <= z && z
                    + zr <= sh.levels@[l].zones@.len() && #[trigger] spec_run_vacant(
                    sh.levels@[l].zones@,
                    z,
                    zr,
                );
            assert(sh.levels@[l].zones@[z].is_vacant());
            assert(false);
        }
    }
}

/// Levels whose vacancy sum is zero are all fully occupied.
proof fn lemma_levels_all_occupied(ls: Seq<crate::level::Level>)
    requires
        crate::shelf::spec_levels_vacant(ls) == 0,
    ensures
        forall|l: int, z: int|
            0 <= l < ls.len() && 0 <= z < ls[l].zones@.len() ==> !(#[trigger] ls[l].zones@[
            z]).is_vacant(),
    decreases ls.len(),
{
    if ls.len() > 0 {
        lemma_levels_all_occupied(ls.drop_last());
        lemma_zones_all_occupied(ls.last().zones@);
        assert forall|l: int, z: int|
            0 <= l < ls.len() && 0 <= z < ls[l].zones@.len() implies !(#[trigger] ls[l].zones@[
        z]).is_vacant() by {
            if l < ls.len() - 1 {
                assert(ls.drop_last()[l] == ls[l]);
            } else {
                assert(ls.last() == ls[l]);
            }
        }
    }
}

/// The vacancy grid mirrors the warehouse: one entry per shelf./// The vacancy grid mirrors the warehouse: one entry per shelf.
pub open spec fn spec_vm_matches(vm: Seq<Vec<bool>>, w: Warehouse) -> bool {
    &&& vm.len() == w.rows@.len()
    &&& forall|i: int|
        0 <= i < vm.len() ==> (#[trigger] vm[i])@.len() == w.rows@[i].shelves@.len()
}

impl Warehouse {
    /// One flag per shelf: set when the shelf still has a vacant zone.
    pub fn shelf_vacancy_map(&self) -> (r: Vec<Vec<bool>>)
        requires
            self.wf(),
        ensures
            spec_vm_matches(r@, *self),
            forall|i: int, j: int|
                0 <= i < r@.len() && 0 <= j < r@[i]@.len() ==> (#[trigger] r@[i]@[j]) == (
                self.rows@[i].shelves@[j].available_space != 0),
    {
        let mut out: Vec<Vec<bool>> = Vec::new();
        let mut i: usize = 0;
        while i < self.rows.len()
            invariant
                self.wf(),
                i <= self.rows@.len(),
                out@.len() == i,
                forall|x: int|
                    0 <= x < i ==> (#[trigger] out@[x])@.len() == self.rows@[x].shelves@.len(),
                forall|x: int, j: int|
                    0 <= x < i && 0 <= j < out@[x]@.len() ==> (#[trigger] out@[x]@[j]) == (
                    self.rows@[x].shelves@[j].available_space != 0),
            decreases self.rows@.len() - i,
        {
            let mut row_flags: Vec<bool> = Vec::new();
            let mut j: usize = 0;
            while j < self.rows[i].shelves.len()
                invariant
                    self.wf(),
                    i < self.rows@.len(),
                    j <= self.rows@[i as int].shelves@.len(),
                    row_flags@.len() == j,
                    forall|t: int|
                        0 <= t < j ==> row_flags@[t] == (self.rows@[i as int].shelves@[
                        t].available_space != 0),
                decreases self.rows@[i as int].shelves@.len() - j,
            {
                row_flags.push(!self.rows[i].shelves[j].is_full());
                j = j + 1;
            }
            out.push(row_flags);
            i = i + 1;
        }
        out
    }

    /// Scans the row-by-shelf grid in increasing order of row + shelf, ties
    /// by increasing row, for a set flag.
    pub fn diagonal_search(&self, vacancy_map: &Vec<Vec<bool>>) -> (r: Option<(usize, usize)>)
        requires
            self.wf(),
            spec_vm_matches(vacancy_map@, *self),
        ensures
            match r {
                Some(found) => 1 <= found.0 <= vacancy_map@.len() && 1 <= found.1 <= vacancy_map@[
                    found.0 - 1
                ]@.len() && vacancy_map@[found.0 - 1]@[found.1 - 1] && ((forall|i: int|
                    0 <= i < vacancy_map@.len() ==> (#[trigger] vacancy_map@[i])@.len()
                        < usize::MAX - vacancy_map@.len()) ==> (forall|i: int, j: int|
                    0 <= i < vacancy_map@.len() && 0 <= j < vacancy_map@[i]@.len() && (i + j + 2
                        < found.0 + found.1 || (i + j + 2 == found.0 + found.1 && i + 1 < found.0))
                        ==> !(#[trigger] vacancy_map@[i]@[j]))),
                None => forall|i: int, j: int|
                    0 <= i < vacancy_map@.len() && 0 <= j < vacancy_map@[i]@.len() ==> !(
                    #[trigger] vacancy_map@[i]@[j]),
            },
    {
        let row_count = vacancy_map.len();
        let mut widest: usize = 0;
        let mut i: usize = 0;
        while i < row_count
            invariant
                row_count == vacancy_map@.len(),
                i <= row_count,
                forall|x: int| 0 <= x < i ==> (#[trigger] vacancy_map@[x])@.len() <= widest,
                widest == 0 || exists|x: int|
                    0 <= x < i && (#[trigger] vacancy_map@[x])@.len() == widest,
            decreases row_count - i,
        {
            if vacancy_map[i].len() > widest {
                widest = vacancy_map[i].len();
            }
            i = i + 1;
        }
        if row_count == 0 || widest == 0 {
            return None;
        }
        let limit = match row_count.checked_add(widest) {
            Some(l) => {
                if l < usize::MAX {
                    l
                } else {
                    return first_set_flag(vacancy_map);
                }
            },
            None => {
                return first_set_flag(vacancy_map);
            },
        };
        let mut d: usize = 2;
        while d <= limit
            invariant
                row_count == vacancy_map@.len(),
                row_count >= 1,
                widest >= 1,
                limit == row_count + widest,
                limit < usize::MAX,
                2 <= d,
                forall|x: int| 0 <= x < row_count ==> (#[trigger] vacancy_map@[x])@.len() <= widest,
                forall|i2: int, j2: int|
                    0 <= i2 < vacancy_map@.len() && 0 <= j2 < vacancy_map@[i2]@.len() && i2 + j2 + 2
                        < d ==> !(#[trigger] vacancy_map@[i2]@[j2]),
            decreases limit + 1 - d,
        {
            let mut r: usize = 1;
            while r <= row_count && r < d
                invariant
                    row_count == vacancy_map@.len(),
                    1 <= r,
                    2 <= d <= limit,
                    limit == row_count + widest,
                    forall|x: int| 0 <= x < row_count ==> (#[trigger] vacancy_map@[x])@.len() <= widest,
                    forall|i2: int, j2: int|
                        0 <= i2 < vacancy_map@.len() && 0 <= j2 < vacancy_map@[i2]@.len() && i2 + j2
                            + 2 < d ==> !(#[trigger] vacancy_map@[i2]@[j2]),
                    forall|i2: int, j2: int|
                        0 <= i2 < vacancy_map@.len() && 0 <= j2 < vacancy_map@[i2]@.len() && i2 + j2
                            + 2 == d && i2 + 1 < r ==> !(#[trigger] vacancy_map@[i2]@[j2]),
                decreases d - r,
            {
                let s = d - r;
                if s >= 1 && s <= vacancy_map[r - 1].len() {
                    if vacancy_map[r - 1][s - 1] {
                        return Some((r, s));
                    }
                }
                r = r + 1;
            }
            d = d + 1;
        }
        None
    }

    /// The structurally closest shelf with a usable vacant zone, respecting a
    /// fragile ceiling; shelves whose only vacancies are unusable are flagged
    /// off in the vacancy map as the scan goes.
    pub fn find_closest_to_start(
        &self,
        vacancy_map: &mut Vec<Vec<bool>>,
        max_level: Option<usize>,
    ) -> (r: Option<(usize, usize, usize, usize)>)
        requires
            self.wf(),
            spec_vm_matches(old(vacancy_map)@, *self),
            spec_vm_sound(old(vacancy_map)@, *self, max_level),
        ensures
            spec_vm_matches(final(vacancy_map)@, *self),
            match r {
                Some(found) => spec_coord_valid(
                    *self,
                    found.0 as int,
                    found.1 as int,
                    found.2 as int,
                    found.3 as int,
                ) && self.rows@[found.0 - 1].shelves@[found.1 - 1].levels@[found.2 - 1].zones@[
                    found.3 - 1
                ].is_vacant() && (max_level matches Some(ceiling) ==> found.2 <= ceiling)
                    && spec_vm_sound_except(final(vacancy_map)@, *self, max_level, found),
                None => forall|i: int, j: int|
                    0 <= i < self.rows@.len() && 0 <= j < self.rows@[i].shelves@.len()
                        ==> !spec_shelf_usable(#[trigger] self.rows@[i].shelves@[j], max_level),
            },
    {
        loop
            invariant
                self.wf(),
                spec_vm_matches(vacancy_map@, *self),
                spec_vm_sound(vacancy_map@, *self, max_level),
            decreases spec_count_true_grid(vacancy_map@),
        {
            let found = match self.diagonal_search(vacancy_map) {
                Some(found) => found,
                None => {
                    proof {
                        assert forall|i: int, j: int|
                            0 <= i < self.rows@.len() && 0 <= j < self.rows@[i].shelves@.len()
                                implies !spec_shelf_usable(
                            #[trigger] self.rows@[i].shelves@[j],
                            max_level,
                        ) by {
                            assert(!vacancy_map@[i]@[j]);
                        }
                    }
                    return None;
                },
            };
            let row = found.0;
            let shelf = found.1;
            let ghost grid_before = vacancy_map@;
            match self.rows[row - 1].shelves[shelf - 1].find_vacant_zone() {
                Some(level_zone) => {
                    let level = level_zone.0;
                    let zone = level_zone.1;
                    let levels = self.rows[row - 1].shelves[shelf - 1].levels.len();
                    let zones = self.rows[row - 1].shelves[shelf - 1].levels[level - 1].zones.len();
                    let top = match max_level {
                        Some(ceiling) => ceiling,
                        None => levels,
                    };
                    if zone >= zones && level == top {
                        // The shelf's last usable zone: hand it out and flag
                        // the shelf off.
                        proof {
                            lemma_count_true_row_update(vacancy_map@[row - 1]@, shelf - 1);
                            lemma_count_true_grid_update(
                                vacancy_map@,
                                row - 1,
                                final(vacancy_map)@[row - 1],
                            );
                        }
                        let flags = &mut vacancy_map[row - 1];
                        flags.set(shelf - 1, false);
                        proof {
                            let sh = self.rows@[row - 1].shelves@[shelf - 1];
                            assert forall|l: int, z: int|
                                0 <= l < sh.levels@.len() && (max_level matches Some(c) ==> l + 1
                                    <= c) && 0 <= z < sh.levels@[l].zones@.len() && (
                            #[trigger] sh.levels@[l].zones@[z]).is_vacant() implies l == level - 1
                                && z == zone - 1 by {
                                if l < level - 1 {
                                    assert(!sh.levels@[l].zones@[z].is_vacant());
                                } else if l == level - 1 {
                                    if z < zone - 1 {
                                        assert(!sh.levels@[l].zones@[z].is_vacant());
                                    }
                                }
                            }
                            assert(spec_only_vacancy(sh, max_level, level as int, zone as int));
                        }
                        return Some((row, shelf, level, zone));
                    }
                    if level > top {
                        let ghost old_row_flags = vacancy_map@[row - 1]@;
                        let flags = &mut vacancy_map[row - 1];
                        flags.set(shelf - 1, false);
                        proof {
                            lemma_count_true_row_update(old_row_flags, shelf - 1);
                            lemma_count_true_grid_update(
                                grid_before,
                                row - 1,
                                vacancy_map@[row - 1],
                            );
                            assert(vacancy_map@ =~= grid_before.update(
                                row - 1,
                                vacancy_map@[row - 1],
                            ));
                            assert(max_level is Some);
                            let sh = self.rows@[row - 1].shelves@[shelf - 1];
                            if spec_shelf_usable(sh, max_level) {
                                let (l, z) = choose|l: int, z: int|
                                    0 <= l < sh.levels@.len() && (max_level matches Some(c) ==> l
                                        + 1 <= c) && 0 <= z < sh.levels@[l].zones@.len() && (
                                    #[trigger] sh.levels@[l].zones@[z]).is_vacant();
                                assert(l < level - 1);
                                assert(!sh.levels@[l].zones@[z].is_vacant());
                                assert(false);
                            }
                        }
                    } else {
                        return Some((row, shelf, level, zone));
                    }
                },
                None => {
                    // The map was stale: the shelf is full; flag it off.
                    let ghost old_row_flags = vacancy_map@[row - 1]@;
                    let flags = &mut vacancy_map[row - 1];
                    flags.set(shelf - 1, false);
                    proof {
                        lemma_count_true_row_update(old_row_flags, shelf - 1);
                        lemma_count_true_grid_update(grid_before, row - 1, vacancy_map@[row - 1]);
                        assert(vacancy_map@ =~= grid_before.update(row - 1, vacancy_map@[row - 1]));
                        let sh = self.rows@[row - 1].shelves@[shelf - 1];
                        if spec_shelf_usable(sh, max_level) {
                            let (l, z) = choose|l: int, z: int|
                                0 <= l < sh.levels@.len() && (max_level matches Some(c) ==> l + 1
                                    <= c) && 0 <= z < sh.levels@[l].zones@.len() && (
                                #[trigger] sh.levels@[l].zones@[z]).is_vacant();
                            assert(!sh.levels@[l].zones@[z].is_vacant());
                            assert(false);
                        }
                    }
                },
            }
        }
    }

    /// As `find_closest_to_start`, but looks for a run of `zones_required`
    /// vacant zones inside one level.
    pub fn find_oversized_closest_to_start(
        &self,
        vacancy_map: &mut Vec<Vec<bool>>,
        max_level: Option<usize>,
        zones_required: usize,
    ) -> (r: Option<(usize, usize, usize, usize)>)
        requires
            self.wf(),
            spec_vm_matches(old(vacancy_map)@, *self),
            spec_vm_sound_run(old(vacancy_map)@, *self, max_level, zones_required as int),
            zones_required >= 1,
        ensures
            spec_vm_matches(final(vacancy_map)@, *self),
            match r {
                Some(found) => spec_coord_valid(
                    *self,
                    found.0 as int,
                    found.1 as int,
                    found.2 as int,
                    found.3 as int,
                ) && found.3 - 1 + zones_required <= self.rows@[found.0 - 1].shelves@[found.1
                    - 1].levels@[found.2 - 1].zones@.len() && spec_run_vacant(
                    self.rows@[found.0 - 1].shelves@[found.1 - 1].levels@[found.2 - 1].zones@,
                    found.3 - 1,
                    zones_required as int,
                ) && (max_level matches Some(ceiling) ==> found.2 <= ceiling)
                    && spec_vm_sound_run(
                    final(vacancy_map)@,
                    *self,
                    max_level,
                    zones_required as int,
                ),
                None => forall|i: int, j: int|
                    0 <= i < self.rows@.len() && 0 <= j < self.rows@[i].shelves@.len()
                        ==> !spec_shelf_usable_run(
                        #[trigger] self.rows@[i].shelves@[j],
                        max_level,
                        zones_required as int,
                    ),
            },
    {
        loop
            invariant
                self.wf(),
                spec_vm_matches(vacancy_map@, *self),
                spec_vm_sound_run(vacancy_map@, *self, max_level, zones_required as int),
                zones_required >= 1,
            decreases spec_count_true_grid(vacancy_map@),
        {
            let found = match self.diagonal_search(vacancy_map) {
                Some(found) => found,
                None => {
                    proof {
                        assert forall|i: int, j: int|
                            0 <= i < self.rows@.len() && 0 <= j < self.rows@[i].shelves@.len()
                                implies !spec_shelf_usable_run(
                            #[trigger] self.rows@[i].shelves@[j],
                            max_level,
                            zones_required as int,
                        ) by {
                            assert(!vacancy_map@[i]@[j]);
                        }
                    }
                    return None;
                },
            };
            let row = found.0;
            let shelf = found.1;
            let ghost grid_before = vacancy_map@;
            match self.rows[row - 1].shelves[shelf - 1].find_oversized_vacant_zone(
                zones_required,
            ) {
                Some(level_zone) => {
                    let level = level_zone.0;
                    let zone = level_zone.1;
                    let levels = self.rows[row - 1].shelves[shelf - 1].levels.len();
                    let top = match max_level {
                        Some(ceiling) => ceiling,
                        None => levels,
                    };
                    if level > top {
                        let ghost old_row_flags = vacancy_map@[row - 1]@;
                        let flags = &mut vacancy_map[row - 1];
                        flags.set(shelf - 1, false);
                        proof {
                            lemma_count_true_row_update(old_row_flags, shelf - 1);
                            lemma_count_true_grid_update(
                                grid_before,
                                row - 1,
                                vacancy_map@[row - 1],
                            );
                            assert(vacancy_map@ =~= grid_before.update(
                                row - 1,
                                vacancy_map@[row - 1],
                            ));
                            assert(max_level is Some);
                            let sh = self.rows@[row - 1].shelves@[shelf - 1];
                            if spec_shelf_usable_run(sh, max_level, zones_required as int) {
                                let (l, z) = choose|l: int, z: int|
                                    0 <= l < sh.levels@.len() && (max_level matches Some(cl) ==> l
                                        + 1 <= cl) && 0 <= z && z + zones_required <= sh.levels@[
                                    l].zones@.len() && #[trigger] spec_run_vacant(
                                        sh.levels@[l].zones@,
                                        z,
                                        zones_required as int,
                                    );
                                assert(l < level - 1);
                                assert(!spec_run_vacant(
                                    sh.levels@[l].zones@,
                                    z,
                                    zones_required as int,
                                ));
                                assert(false);
                            }
                        }
                    } else {
                        return Some((row, shelf, level, zone));
                    }
                },
                None => {
                    // No run of the needed width in this shelf: flag it off.
                    let ghost old_row_flags = vacancy_map@[row - 1]@;
                    let flags = &mut vacancy_map[row - 1];
                    flags.set(shelf - 1, false);
                    proof {
                        lemma_count_true_row_update(old_row_flags, shelf - 1);
                        lemma_count_true_grid_update(grid_before, row - 1, vacancy_map@[row - 1]);
                        assert(vacancy_map@ =~= grid_before.update(row - 1, vacancy_map@[row - 1]));
                        let sh = self.rows@[row - 1].shelves@[shelf - 1];
                        if spec_shelf_usable_run(sh, max_level, zones_required as int) {
                            let (l, z) = choose|l: int, z: int|
                                0 <= l < sh.levels@.len() && (max_level matches Some(cl) ==> l + 1
                                    <= cl) && 0 <= z && z + zones_required <= sh.levels@[
                                l].zones@.len() && #[trigger] spec_run_vacant(
                                    sh.levels@[l].zones@,
                                    z,
                                    zones_required as int,
                                );
                            assert(!spec_run_vacant(sh.levels@[l].zones@, z, zones_required as int));
                            assert(false);
                        }
                    }
                },
            }
        }
    }
}

/// The first set flag of the grid in row-major order; the fallback scan for
/// grids too large for a diagonal bound to fit the machine word.
#[verifier::loop_isolation(false)]
fn first_set_flag(vacancy_map: &Vec<Vec<bool>>) -> (r: Option<(usize, usize)>)
    ensures
        match r {
            Some(found) => 1 <= found.0 <= vacancy_map@.len() && 1 <= found.1 <= vacancy_map@[
                found.0 - 1
            ]@.len() && vacancy_map@[found.0 - 1]@[found.1 - 1],
            None => forall|i: int, j: int|
                0 <= i < vacancy_map@.len() && 0 <= j < vacancy_map@[i]@.len() ==> !(
                #[trigger] vacancy_map@[i]@[j]),
        },
{
    let mut i: usize = 0;
    while i < vacancy_map.len()
        invariant
            i <= vacancy_map@.len(),
            forall|x: int, j: int|
                0 <= x < i && 0 <= j < vacancy_map@[x]@.len() ==> !(
                #[trigger] vacancy_map@[x]@[j]),
        decreases vacancy_map@.len() - i,
    {
        let mut j: usize = 0;
        while j < vacancy_map[i].len()
            invariant
                i < vacancy_map@.len(),
                j <= vacancy_map@[i as int]@.len(),
                forall|t: int| 0 <= t < j ==> !(#[trigger] vacancy_map@[i as int]@[t]),
            decreases vacancy_map@[i as int]@.len() - j,
        {
            if vacancy_map[i][j] {
                return Some((i + 1, j + 1));
            }
            j = j + 1;
        }
        i = i + 1;
    }
    None
}

/// Two warehouses with the same shape: as many rows, shelves, levels and
/// zones each.
pub open spec fn spec_wh_same_layout(a: Warehouse, b: Warehouse) -> bool {
    &&& a.rows@.len() == b.rows@.len()
    &&& forall|r: int|
        0 <= r < a.rows@.len() ==> (#[trigger] b.rows@[r]).shelves@.len()
            == a.rows@[r].shelves@.len()
    &&& forall|r: int, s: int|
        0 <= r < a.rows@.len() && 0 <= s < a.rows@[r].shelves@.len() ==> (
        #[trigger] b.rows@[r].shelves@[s]).levels@.len() == a.rows@[r].shelves@[s].levels@.len()
    &&& forall|r: int, s: int, l: int|
        0 <= r < a.rows@.len() && 0 <= s < a.rows@[r].shelves@.len() && 0 <= l < a.rows@[
            r
        ].shelves@[s].levels@.len() ==> (#[trigger] b.rows@[r].shelves@[s].levels@[
        l]).zones@.len() == a.rows@[r].shelves@[s].levels@[l].zones@.len()
}

/// Every change the closest-to-start strategy makes: a previously vacant
/// zone now holding one whole unit of the product, stamped with its own
/// coordinate and placed under the ceiling; everything else is as it was.
pub open spec fn spec_closest_placements(
    pre: Warehouse,
    post: Warehouse,
    id: u64,
    quality: Quality,
    expiry_date: Option<Date>,
) -> bool {
    forall|r: int, s: int, l: int, z: int|
        spec_coord_valid(pre, r, s, l, z) ==> (#[trigger] post.rows@[r - 1].shelves@[s
            - 1].levels@[l - 1].zones@[z - 1]) == pre.rows@[r - 1].shelves@[s - 1].levels@[l
            - 1].zones@[z - 1] || (pre.rows@[r - 1].shelves@[s - 1].levels@[l - 1].zones@[z
            - 1].is_vacant() && post.rows@[r - 1].shelves@[s - 1].levels@[l - 1].zones@[z
            - 1].number == z && (post.rows@[r - 1].shelves@[s - 1].levels@[l - 1].zones@[z
            - 1].item matches Some(ItemPart::WholeProduct(it)) && it.id == id && it.expiry_date
            == expiry_date && it.zones_required == 1 && it.placement.0 == r && it.placement.1 == s
            && it.placement.2 == l && it.placement.3 == z) && (spec_max_level(quality) matches Some(
            c,
        ) ==> l <= c))
}

/// A removal pass consumed an earliest-expiring prefix: `ss` holds exactly
/// the product's units, ascending by expiry when any unit is dated, and the
/// anchor zones of its first `qty` entries stand vacated.
pub open spec fn spec_fefo_removed(
    pre: Warehouse,
    post: Warehouse,
    id: u64,
    qty: int,
    ss: Seq<ProductItem>,
) -> bool {
    &&& ss.to_multiset() == pre.spec_items().filter(|it: ProductItem| it.id == id).to_multiset()
    &&& ((exists|j: int| 0 <= j < ss.len() && (#[trigger] ss[j]).expiry_date is Some)
        ==> forall|i: int, j: int| 0 <= i < j < ss.len() ==> spec_expiry_le(ss[i], ss[j]))
    &&& qty <= ss.len()
    &&& forall|k: int|
        0 <= k < qty ==> spec_taken_vacated(pre, post, (#[trigger] ss[k]).placement)
}

/// The coordinate was valid and its zone stands vacated now: the anchor of/// The coordinate was valid and its zone stands vacated now: the anchor of
/// a removed unit after the removal pass.
pub open spec fn spec_taken_vacated(
    pre: Warehouse,
    post: Warehouse,
    p: (usize, usize, usize, usize),
) -> bool {
    &&& spec_coord_valid(pre, p.0 as int, p.1 as int, p.2 as int, p.3 as int)
    &&& post.rows@[p.0 - 1].shelves@[p.1 - 1].levels@[p.2 - 1].zones@[p.3 - 1].item is None
}

/// A removal never fills a zone: every zone vacated before one more removal
/// stays vacated after it, and the removal's own target is vacated.
proof fn lemma_removal_keeps_vacated(
    mid: Warehouse,
    post: Warehouse,
    c: (usize, usize, usize, usize),
)
    requires
        mid.wf(),
        spec_coord_valid(mid, c.0 as int, c.1 as int, c.2 as int, c.3 as int),
        post.rows@.len() == mid.rows@.len(),
        post.rows@ == mid.rows@.update(c.0 - 1, post.rows@[c.0 - 1]),
        post.rows@[c.0 - 1].shelves@ == mid.rows@[c.0 - 1].shelves@.update(
            c.1 - 1,
            post.rows@[c.0 - 1].shelves@[c.1 - 1],
        ),
        post.rows@[c.0 - 1].shelves@[c.1 - 1].levels@ == mid.rows@[c.0 - 1].shelves@[c.1
            - 1].levels@.update(
            c.2 - 1,
            post.rows@[c.0 - 1].shelves@[c.1 - 1].levels@[c.2 - 1],
        ),
        post.rows@[c.0 - 1].shelves@[c.1 - 1].levels@[c.2 - 1].zones@.len() == mid.rows@[c.0
            - 1].shelves@[c.1 - 1].levels@[c.2 - 1].zones@.len(),
        forall|z: int|
            0 <= z < mid.rows@[c.0 - 1].shelves@[c.1 - 1].levels@[c.2 - 1].zones@.len() ==> (
            #[trigger] post.rows@[c.0 - 1].shelves@[c.1 - 1].levels@[c.2 - 1].zones@[z]) == mid.rows@[
            c.0 - 1].shelves@[c.1 - 1].levels@[c.2 - 1].zones@[z] || post.rows@[c.0 - 1].shelves@[
            c.1 - 1].levels@[c.2 - 1].zones@[z].item is None,
        spec_wh_same_layout(mid, post),
    ensures
        forall|p: (usize, usize, usize, usize)|
            #[trigger] spec_taken_vacated(mid, mid, p) ==> spec_taken_vacated(mid, post, p),
{
    assert forall|p: (usize, usize, usize, usize)|
        #[trigger] spec_taken_vacated(mid, mid, p) implies spec_taken_vacated(mid, post, p) by {
        let (r2, s2, l2, z2) = (p.0 as int, p.1 as int, p.2 as int, p.3 as int);
        if r2 != c.0 as int {
            assert(post.rows@[r2 - 1] == mid.rows@[r2 - 1]);
        } else if s2 != c.1 as int {
            assert(post.rows@[r2 - 1].shelves@[s2 - 1] == mid.rows@[r2 - 1].shelves@[s2 - 1]);
        } else if l2 != c.2 as int {
            assert(post.rows@[r2 - 1].shelves@[s2 - 1].levels@[l2 - 1] == mid.rows@[r2
                - 1].shelves@[s2 - 1].levels@[l2 - 1]);
        } else {
            assert(post.rows@[r2 - 1].shelves@[s2 - 1].levels@[l2 - 1].zones@[z2 - 1] == mid.rows@[
                r2 - 1].shelves@[s2 - 1].levels@[l2 - 1].zones@[z2 - 1] || post.rows@[r2
                - 1].shelves@[s2 - 1].levels@[l2 - 1].zones@[z2 - 1].item is None);
        }
    }
}

/// Every change the oversized closest-to-start strategy makes: previously/// Every change the oversized closest-to-start strategy makes: previously
/// vacant zones now occupied, whose anchors are whole spans of the product,
/// stamped with their own coordinate and placed under the ceiling.
pub open spec fn spec_closest_span_placements(
    pre: Warehouse,
    post: Warehouse,
    id: u64,
    quality: Quality,
    expiry_date: Option<Date>,
) -> bool {
    let zr = spec_zones_required(quality);
    forall|r: int, s: int, l: int, z: int|
        spec_coord_valid(pre, r, s, l, z) ==> (#[trigger] post.rows@[r - 1].shelves@[s
            - 1].levels@[l - 1].zones@[z - 1]) == pre.rows@[r - 1].shelves@[s - 1].levels@[l
            - 1].zones@[z - 1] || (pre.rows@[r - 1].shelves@[s - 1].levels@[l - 1].zones@[z
            - 1].is_vacant() && !post.rows@[r - 1].shelves@[s - 1].levels@[l - 1].zones@[z
            - 1].is_vacant() && post.rows@[r - 1].shelves@[s - 1].levels@[l - 1].zones@[z
            - 1].number == z && !(post.rows@[r - 1].shelves@[s - 1].levels@[l - 1].zones@[z
            - 1].item matches Some(ItemPart::WholeProduct(_))) && (post.rows@[r - 1].shelves@[s
            - 1].levels@[l - 1].zones@[z - 1].item matches Some(ItemPart::ProductStart(it, e))
            ==> it.id == id && it.expiry_date == expiry_date && it.zones_required == zr
            && it.placement.0 == r && it.placement.1 == s && it.placement.2 == l && it.placement.3
            == z && e == z + zr - 1 && (spec_max_level(quality) matches Some(c) ==> l <= c)))
}

/// Filling zones never makes a flagged-off shelf's runs usable again: any
/// vacancy afterwards was a vacancy before.
proof fn lemma_usable_run_monotone(
    pre: Warehouse,
    post: Warehouse,
    ml: Option<usize>,
    zr: int,
    i: int,
    j: int,
    c: (usize, usize, usize, usize),
)
    requires
        0 <= i < pre.rows@.len(),
        0 <= j < pre.rows@[i].shelves@.len(),
        post.rows@.len() == pre.rows@.len(),
        spec_coord_valid(pre, c.0 as int, c.1 as int, c.2 as int, c.3 as int),
        post.rows@ == pre.rows@.update(c.0 - 1, post.rows@[c.0 - 1]),
        post.rows@[c.0 - 1].shelves@ == pre.rows@[c.0 - 1].shelves@.update(
            c.1 - 1,
            post.rows@[c.0 - 1].shelves@[c.1 - 1],
        ),
        post.rows@[c.0 - 1].shelves@[c.1 - 1].levels@ == pre.rows@[c.0 - 1].shelves@[c.1
            - 1].levels@.update(
            c.2 - 1,
            post.rows@[c.0 - 1].shelves@[c.1 - 1].levels@[c.2 - 1],
        ),
        forall|z: int|
            0 <= z < pre.rows@[c.0 - 1].shelves@[c.1 - 1].levels@[c.2 - 1].zones@.len() && (
            #[trigger] post.rows@[c.0 - 1].shelves@[c.1 - 1].levels@[c.2 - 1].zones@[
            z]).is_vacant() ==> pre.rows@[c.0 - 1].shelves@[c.1 - 1].levels@[c.2 - 1].zones@[
            z].is_vacant(),
        post.rows@[c.0 - 1].shelves@[c.1 - 1].levels@[c.2 - 1].zones@.len() == pre.rows@[c.0
            - 1].shelves@[c.1 - 1].levels@[c.2 - 1].zones@.len(),
        !spec_shelf_usable_run(pre.rows@[i].shelves@[j], ml, zr),
    ensures
        !spec_shelf_usable_run(post.rows@[i].shelves@[j], ml, zr),
{
    if spec_shelf_usable_run(post.rows@[i].shelves@[j], ml, zr) {
        let sh = post.rows@[i].shelves@[j];
        let (l, z) = choose|l: int, z: int|
            0 <= l < sh.levels@.len() && (ml matches Some(cl) ==> l + 1 <= cl) && 0 <= z && z + zr
                <= sh.levels@[l].zones@.len() && #[trigger] spec_run_vacant(
                sh.levels@[l].zones@,
                z,
                zr,
            );
        if i == c.0 - 1 && j == c.1 - 1 && l == c.2 - 1 {
            assert forall|m: int| z <= m < z + zr implies (#[trigger] pre.rows@[i].shelves@[
            j].levels@[l].zones@[m]).is_vacant() by {
                assert(sh.levels@[l].zones@[m].is_vacant());
            }
            assert(spec_run_vacant(pre.rows@[i].shelves@[j].levels@[l].zones@, z, zr));
            assert(spec_shelf_usable_run(pre.rows@[i].shelves@[j], ml, zr));
            assert(false);
        } else {
            if i == c.0 - 1 && j == c.1 - 1 {
                assert(sh.levels@[l] == pre.rows@[i].shelves@[j].levels@[l]);
            } else {
                assert(post.rows@[i].shelves@[j] == pre.rows@[i].shelves@[j]);
            }
            assert(spec_shelf_usable_run(pre.rows@[i].shelves@[j], ml, zr));
            assert(false);
        }
    }
}

/// Filling one zone never makes a flagged-off shelf usable again: any/// Filling one zone never makes a flagged-off shelf usable again: any
/// vacancy afterwards was a vacancy before.
proof fn lemma_usable_monotone(
    pre: Warehouse,
    post: Warehouse,
    ml: Option<usize>,
    i: int,
    j: int,
    c: (usize, usize, usize, usize),
)
    requires
        0 <= i < pre.rows@.len(),
        0 <= j < pre.rows@[i].shelves@.len(),
        post.rows@.len() == pre.rows@.len(),
        spec_coord_valid(pre, c.0 as int, c.1 as int, c.2 as int, c.3 as int),
        post.rows@ == pre.rows@.update(c.0 - 1, post.rows@[c.0 - 1]),
        post.rows@[c.0 - 1].shelves@ == pre.rows@[c.0 - 1].shelves@.update(
            c.1 - 1,
            post.rows@[c.0 - 1].shelves@[c.1 - 1],
        ),
        post.rows@[c.0 - 1].shelves@[c.1 - 1].levels@ == pre.rows@[c.0 - 1].shelves@[c.1
            - 1].levels@.update(
            c.2 - 1,
            post.rows@[c.0 - 1].shelves@[c.1 - 1].levels@[c.2 - 1],
        ),
        post.rows@[c.0 - 1].shelves@[c.1 - 1].levels@[c.2 - 1].zones@ == pre.rows@[c.0
            - 1].shelves@[c.1 - 1].levels@[c.2 - 1].zones@.update(
            c.3 - 1,
            post.rows@[c.0 - 1].shelves@[c.1 - 1].levels@[c.2 - 1].zones@[c.3 - 1],
        ),
        !post.rows@[c.0 - 1].shelves@[c.1 - 1].levels@[c.2 - 1].zones@[c.3 - 1].is_vacant(),
        !spec_shelf_usable(pre.rows@[i].shelves@[j], ml) || (i == c.0 - 1 && j == c.1 - 1
            && spec_only_vacancy(pre.rows@[i].shelves@[j], ml, c.2 as int, c.3 as int)),
    ensures
        !spec_shelf_usable(post.rows@[i].shelves@[j], ml),
{
    if spec_shelf_usable(post.rows@[i].shelves@[j], ml) {
        let sh = post.rows@[i].shelves@[j];
        let (l, z) = choose|l: int, z: int|
            0 <= l < sh.levels@.len() && (ml matches Some(cl) ==> l + 1 <= cl) && 0 <= z
                < sh.levels@[l].zones@.len() && (#[trigger] sh.levels@[l].zones@[z]).is_vacant();
        if i == c.0 - 1 && j == c.1 - 1 {
            if l == c.2 - 1 && z == c.3 - 1 {
                assert(false);
            } else {
                assert(sh.levels@[l].zones@[z] == pre.rows@[i].shelves@[j].levels@[l].zones@[z]);
                assert(spec_only_vacancy(pre.rows@[i].shelves@[j], ml, c.2 as int, c.3 as int)
                    ==> false);
                assert(spec_shelf_usable(pre.rows@[i].shelves@[j], ml));
                assert(false);
            }
        } else {
            assert(post.rows@[i].shelves@[j] == pre.rows@[i].shelves@[j]);
            assert(spec_shelf_usable(pre.rows@[i].shelves@[j], ml));
            assert(false);
        }
    }
}

/// Ascending expiry order: a dated item comes before a later-dated one, and/// Ascending expiry order: a dated item comes before a later-dated one, and
/// every dated item comes before the undated, which sort as latest.
pub open spec fn spec_expiry_le(a: ProductItem, b: ProductItem) -> bool {
    match a.expiry_date {
        None => b.expiry_date is None,
        Some(da) => match b.expiry_date {
            None => true,
            Some(db) => spec_date_le(da, db),
        },
    }
}

/// The expiry order is total.
pub proof fn lemma_expiry_le_total(a: ProductItem, b: ProductItem)
    ensures
        spec_expiry_le(a, b) || spec_expiry_le(b, a),
{
}

/// The expiry order is transitive.
pub proof fn lemma_expiry_le_transitive(a: ProductItem, b: ProductItem, c: ProductItem)
    requires
        spec_expiry_le(a, b),
        spec_expiry_le(b, c),
    ensures
        spec_expiry_le(a, c),
{
}

impl Warehouse {
    /// Closest-to-start strategy for single-zone units: each unit goes to
    /// the structurally closest usable vacancy; `InsufficientSpace` comes
    /// only once no vacancy at or below the ceiling remains, with earlier
    /// placements kept.
    #[verifier::loop_isolation(false)]
    #[verifier::rlimit(100)]
    pub fn place_stock_closest_to_start(
        &mut self,
        id: u64,
        list: &ProductList,
        qty: usize,
        expiry_date: Option<Date>,
    ) -> (r: Result<(), ErrorMessage>)
        requires
            old(self).wf(),
            list.wf(),
            list.spec_has_id(id) ==> spec_zones_required(list.spec_product(id).quality) == 1,
        ensures
            final(self).wf(),
            final(self).strategy == old(self).strategy,
            final(self).cap() == old(self).cap(),
            final(self).rows@.len() == old(self).rows@.len(),
            r is Ok ==> final(self).available_space == old(self).available_space - qty,
            old(self).available_space - qty <= final(self).available_space <= old(self).available_space,
            !list.spec_has_id(id) ==> r == Err::<(), ErrorMessage>(ErrorMessage::ProductNotListed)
                && *final(self) == *old(self),
            list.spec_has_id(id) ==> r != Err::<(), ErrorMessage>(ErrorMessage::ProductNotListed)
                && (r is Err ==> r == Err::<(), ErrorMessage>(ErrorMessage::InsufficientSpace) || r
                == Err::<(), ErrorMessage>(ErrorMessage::FragileObjectWithoutExpiration) || r
                == Err::<(), ErrorMessage>(ErrorMessage::LevelTooHigh)) && (r == Err::<(
            ), ErrorMessage>(ErrorMessage::FragileObjectWithoutExpiration)
                ==> spec_max_level(list.spec_product(id).quality) is Some && expiry_date is None
                && final(self).available_space == old(self).available_space) && (r == Err::<(
            ), ErrorMessage>(ErrorMessage::LevelTooHigh) ==> spec_max_level(
                list.spec_product(id).quality,
            ) is Some && expiry_date is Some),
            list.spec_has_id(id) && r == Err::<(), ErrorMessage>(ErrorMessage::InsufficientSpace)
                ==> forall|i: int, j: int|
                0 <= i < final(self).rows@.len() && 0 <= j < final(self).rows@[i].shelves@.len()
                    ==> !spec_shelf_usable(
                    #[trigger] final(self).rows@[i].shelves@[j],
                    spec_max_level(list.spec_product(id).quality),
                ),
            list.spec_has_id(id) ==> spec_closest_placements(
                *old(self),
                *final(self),
                id,
                list.spec_product(id).quality,
                expiry_date,
            ),
    {
        let max_level = match list.product(id) {
            Some(product) => product.max_level(),
            None => {
                return Err(ErrorMessage::ProductNotListed);
            },
        };
        let ghost ml = spec_max_level(list.spec_product(id).quality);
        let mut vacancy_map = self.shelf_vacancy_map();
        proof {
            assert forall|i: int, j: int|
                0 <= i < vacancy_map@.len() && 0 <= j < vacancy_map@[i]@.len() && !(
                #[trigger] vacancy_map@[i]@[j]) implies !spec_shelf_usable(
                self.rows@[i].shelves@[j],
                ml,
            ) by {
                lemma_full_shelf_unusable(self.rows@[i].shelves@[j], ml);
            }
        }
        let mut remaining = qty;
        while remaining > 0
            invariant
                self.wf(),
                self.strategy == old(self).strategy,
                self.cap() == old(self).cap(),
                self.rows@.len() == old(self).rows@.len(),
                spec_vm_matches(vacancy_map@, *self),
                spec_vm_sound(vacancy_map@, *self, ml),
                remaining <= qty,
                self.available_space == old(self).available_space - (qty - remaining),
                max_level == ml,
                list.spec_has_id(id),
                spec_zones_required(list.spec_product(id).quality) == 1,
                remaining < qty ==> (ml is Some ==> expiry_date is Some),
                spec_wh_same_layout(*old(self), *self),
                spec_closest_placements(
                    *old(self),
                    *self,
                    id,
                    list.spec_product(id).quality,
                    expiry_date,
                ),
            decreases remaining,
        {
            let place = self.find_closest_to_start(&mut vacancy_map, max_level);
            match place {
                Some(found) => {
                    let item = match ProductItem::new(id, list, found, expiry_date) {
                        Ok(item) => item,
                        Err(e) => {
                            proof {
                                assert(ml is Some);
                                if expiry_date is None {
                                    assert(e
                                        == crate::product::ErrorMessage::FragileObjectWithoutExpiration);
                                    assert(remaining == qty);
                                } else {
                                    assert(e == crate::product::ErrorMessage::LevelTooHigh);
                                }
                            }
                            return Err(crate::row::translate_item_error(e));
                        },
                    };
                    let ghost mid = *self;
                    let ghost grid = vacancy_map@;
                    match self.add_item(found.0, found.1, found.2, found.3, item) {
                        Ok(()) => {
                            remaining = remaining - 1;
                            proof {
                                assert forall|i: int, j: int|
                                    0 <= i < grid.len() && 0 <= j < grid[i]@.len() && !(
                                    #[trigger] grid[i]@[j]) implies !spec_shelf_usable(
                                    self.rows@[i].shelves@[j],
                                    ml,
                                ) by {
                                    lemma_usable_monotone(
                                        mid,
                                        *self,
                                        ml,
                                        i,
                                        j,
                                        found,
                                    );
                                }
                                let pre = *old(self);
                                assert forall|r2: int|
                                    0 <= r2 < pre.rows@.len() && r2 != found.0 - 1 implies (
                                #[trigger] self.rows@[r2]) == mid.rows@[r2] by {}
                                assert(spec_wh_same_layout(pre, *self));
                                assert forall|r2: int, s2: int, l2: int, z2: int|
                                    spec_coord_valid(pre, r2, s2, l2, z2) implies (
                                #[trigger] self.rows@[r2 - 1].shelves@[s2 - 1].levels@[l2
                                    - 1].zones@[z2 - 1]) == pre.rows@[r2 - 1].shelves@[s2
                                    - 1].levels@[l2 - 1].zones@[z2 - 1] || (pre.rows@[r2
                                    - 1].shelves@[s2 - 1].levels@[l2 - 1].zones@[z2
                                    - 1].is_vacant() && self.rows@[r2 - 1].shelves@[s2
                                    - 1].levels@[l2 - 1].zones@[z2 - 1].number == z2 && (
                                self.rows@[r2 - 1].shelves@[s2 - 1].levels@[l2 - 1].zones@[z2
                                    - 1].item matches Some(ItemPart::WholeProduct(it)) && it.id
                                    == id && it.expiry_date == expiry_date && it.zones_required
                                    == 1 && it.placement.0 == r2 && it.placement.1 == s2
                                    && it.placement.2 == l2 && it.placement.3 == z2) && (
                                spec_max_level(list.spec_product(id).quality) matches Some(c) ==> l2
                                    <= c)) by {
                                    if r2 == found.0 as int && s2 == found.1 as int && l2
                                        == found.2 as int && z2 == found.3 as int {
                                        assert(mid.rows@[r2 - 1].shelves@[s2 - 1].levels@[l2
                                            - 1].zones@[z2 - 1].is_vacant());
                                        assert(pre.rows@[r2 - 1].shelves@[s2 - 1].levels@[l2
                                            - 1].zones@[z2 - 1] == mid.rows@[r2 - 1].shelves@[s2
                                            - 1].levels@[l2 - 1].zones@[z2 - 1]);
                                    } else {
                                        if r2 != found.0 as int {
                                            assert(self.rows@[r2 - 1] == mid.rows@[r2 - 1]);
                                        } else if s2 != found.1 as int {
                                            assert(self.rows@[r2 - 1].shelves@[s2 - 1]
                                                == mid.rows@[r2 - 1].shelves@[s2 - 1]);
                                        } else if l2 != found.2 as int {
                                            assert(self.rows@[r2 - 1].shelves@[s2 - 1].levels@[l2
                                                - 1] == mid.rows@[r2 - 1].shelves@[s2
                                                - 1].levels@[l2 - 1]);
                                        } else {
                                            assert(z2 != found.3 as int);
                                        }
                                        assert(self.rows@[r2 - 1].shelves@[s2 - 1].levels@[l2
                                            - 1].zones@[z2 - 1] == mid.rows@[r2 - 1].shelves@[s2
                                            - 1].levels@[l2 - 1].zones@[z2 - 1]);
                                    }
                                }
                            }
                        },
                        Err(e) => {
                            proof {
                                assert(false);
                            }
                            return Err(e);
                        },
                    }
                },
                None => {
                    return Err(ErrorMessage::InsufficientSpace);
                },
            }
        }
        Ok(())
    }

    /// Closest-to-start strategy for oversized units: each span goes to the
    /// structurally closest usable run; `InsufficientSpace` comes only once
    /// no vacant run of the span's width at or below the ceiling remains,
    /// with earlier placements kept.
    #[verifier::loop_isolation(false)]
    #[verifier::rlimit(100)]
    pub fn place_oversized_stock_closest_to_start(
        &mut self,
        id: u64,
        list: &ProductList,
        qty: usize,
        expiry_date: Option<Date>,
        zones_required: usize,
    ) -> (r: Result<(), ErrorMessage>)
        requires
            old(self).wf(),
            list.wf(),
            zones_required >= 2,
            list.spec_has_id(id) ==> spec_zones_required(list.spec_product(id).quality)
                == zones_required,
        ensures
            final(self).wf(),
            final(self).strategy == old(self).strategy,
            final(self).cap() == old(self).cap(),
            final(self).rows@.len() == old(self).rows@.len(),
            r is Ok ==> final(self).available_space == old(self).available_space - qty
                * zones_required,
            old(self).available_space - qty * zones_required <= final(self).available_space <= old(
                self,
            ).available_space,
            !list.spec_has_id(id) ==> r == Err::<(), ErrorMessage>(ErrorMessage::ProductNotListed)
                && *final(self) == *old(self),
            list.spec_has_id(id) ==> r != Err::<(), ErrorMessage>(ErrorMessage::ProductNotListed)
                && (r is Err ==> r == Err::<(), ErrorMessage>(ErrorMessage::InsufficientSpace) || r
                == Err::<(), ErrorMessage>(ErrorMessage::FragileObjectWithoutExpiration) || r
                == Err::<(), ErrorMessage>(ErrorMessage::LevelTooHigh)) && (r == Err::<(
            ), ErrorMessage>(ErrorMessage::FragileObjectWithoutExpiration)
                ==> spec_max_level(list.spec_product(id).quality) is Some && expiry_date is None
                && final(self).available_space == old(self).available_space) && (r == Err::<(
            ), ErrorMessage>(ErrorMessage::LevelTooHigh) ==> spec_max_level(
                list.spec_product(id).quality,
            ) is Some && expiry_date is Some),
            list.spec_has_id(id) && r == Err::<(), ErrorMessage>(ErrorMessage::InsufficientSpace)
                ==> forall|i: int, j: int|
                0 <= i < final(self).rows@.len() && 0 <= j < final(self).rows@[i].shelves@.len()
                    ==> !spec_shelf_usable_run(
                    #[trigger] final(self).rows@[i].shelves@[j],
                    spec_max_level(list.spec_product(id).quality),
                    zones_required as int,
                ),
            list.spec_has_id(id) ==> spec_closest_span_placements(
                *old(self),
                *final(self),
                id,
                list.spec_product(id).quality,
                expiry_date,
            ),
    {
        let max_level = match list.product(id) {
            Some(product) => product.max_level(),
            None => {
                return Err(ErrorMessage::ProductNotListed);
            },
        };
        let ghost ml = spec_max_level(list.spec_product(id).quality);
        let mut vacancy_map = self.shelf_vacancy_map();
        proof {
            assert forall|i: int, j: int|
                0 <= i < vacancy_map@.len() && 0 <= j < vacancy_map@[i]@.len() && !(
                #[trigger] vacancy_map@[i]@[j]) implies !spec_shelf_usable_run(
                self.rows@[i].shelves@[j],
                ml,
                zones_required as int,
            ) by {
                lemma_full_shelf_unusable(self.rows@[i].shelves@[j], ml);
            }
            assert(0int * zones_required == 0) by (nonlinear_arith);
        }
        let mut remaining = qty;
        while remaining > 0
            invariant
                self.wf(),
                self.strategy == old(self).strategy,
                self.cap() == old(self).cap(),
                self.rows@.len() == old(self).rows@.len(),
                spec_vm_matches(vacancy_map@, *self),
                spec_vm_sound_run(vacancy_map@, *self, ml, zones_required as int),
                remaining <= qty,
                self.available_space == old(self).available_space - (qty - remaining)
                    * zones_required,
                0 <= (qty - remaining) * zones_required <= qty * zones_required,
                max_level == ml,
                list.spec_has_id(id),
                spec_zones_required(list.spec_product(id).quality) == zones_required,
                zones_required >= 2,
                remaining < qty ==> (ml is Some ==> expiry_date is Some),
                spec_wh_same_layout(*old(self), *self),
                spec_closest_span_placements(
                    *old(self),
                    *self,
                    id,
                    list.spec_product(id).quality,
                    expiry_date,
                ),
            decreases remaining,
        {
            let place = self.find_oversized_closest_to_start(
                &mut vacancy_map,
                max_level,
                zones_required,
            );
            match place {
                Some(found) => {
                    let item = match ProductItem::new(id, list, found, expiry_date) {
                        Ok(item) => item,
                        Err(e) => {
                            proof {
                                assert(ml is Some);
                                if expiry_date is None {
                                    assert(e
                                        == crate::product::ErrorMessage::FragileObjectWithoutExpiration);
                                    assert(remaining == qty);
                                    assert((qty - remaining) * (zones_required as int) == 0)
                                        by (nonlinear_arith)
                                        requires
                                            qty == remaining,
                                    ;
                                } else {
                                    assert(e == crate::product::ErrorMessage::LevelTooHigh);
                                }
                            }
                            return Err(crate::row::translate_item_error(e));
                        },
                    };
                    let ghost mid = *self;
                    let ghost grid = vacancy_map@;
                    let ghost placed_before = qty - remaining;
                    match self.add_oversized_item(found.0, found.1, found.2, found.3, item) {
                        Ok(()) => {
                            remaining = remaining - 1;
                            proof {
                                assert((placed_before + 1) * zones_required == placed_before
                                    * zones_required + zones_required) by (nonlinear_arith);
                                let ghost q0 = qty as int;
                                let ghost rem = remaining as int;
                                assert((q0 - rem) * zones_required <= q0 * zones_required)
                                    by (nonlinear_arith)
                                    requires
                                        0 <= rem <= q0 && zones_required >= 0,
                                ;
                                let flvl = self.rows@[found.0 - 1].shelves@[found.1
                                    - 1].levels@[found.2 - 1];
                                assert(crate::level::spec_span_ok_at(
                                    flvl.zones@,
                                    found.3 - 1,
                                ));
                                assert forall|z: int|
                                    0 <= z < mid.rows@[found.0 - 1].shelves@[found.1
                                        - 1].levels@[found.2 - 1].zones@.len() && (
                                #[trigger] flvl.zones@[z]).is_vacant() implies mid.rows@[found.0
                                    - 1].shelves@[found.1 - 1].levels@[found.2 - 1].zones@[
                                z].is_vacant() by {
                                    if found.3 - 1 <= z <= found.3 - 1 + zones_required - 1 {
                                        assert(!flvl.zones@[z].is_vacant());
                                    }
                                }
                                assert forall|i: int, j: int|
                                    0 <= i < grid.len() && 0 <= j < grid[i]@.len() && !(
                                    #[trigger] grid[i]@[j]) implies !spec_shelf_usable_run(
                                    self.rows@[i].shelves@[j],
                                    ml,
                                    zones_required as int,
                                ) by {
                                    lemma_usable_run_monotone(
                                        mid,
                                        *self,
                                        ml,
                                        zones_required as int,
                                        i,
                                        j,
                                        found,
                                    );
                                }
                                let pre = *old(self);
                                assert forall|r2: int|
                                    0 <= r2 < pre.rows@.len() && r2 != found.0 - 1 implies (
                                #[trigger] self.rows@[r2]) == mid.rows@[r2] by {}
                                assert(spec_wh_same_layout(pre, *self));
                                let zr = spec_zones_required(list.spec_product(id).quality);
                                assert forall|r2: int, s2: int, l2: int, z2: int|
                                    spec_coord_valid(pre, r2, s2, l2, z2) implies (
                                #[trigger] self.rows@[r2 - 1].shelves@[s2 - 1].levels@[l2
                                    - 1].zones@[z2 - 1]) == pre.rows@[r2 - 1].shelves@[s2
                                    - 1].levels@[l2 - 1].zones@[z2 - 1] || (pre.rows@[r2
                                    - 1].shelves@[s2 - 1].levels@[l2 - 1].zones@[z2
                                    - 1].is_vacant() && !self.rows@[r2 - 1].shelves@[s2
                                    - 1].levels@[l2 - 1].zones@[z2 - 1].is_vacant()
                                    && self.rows@[r2 - 1].shelves@[s2 - 1].levels@[l2
                                    - 1].zones@[z2 - 1].number == z2 && !(self.rows@[r2
                                    - 1].shelves@[s2 - 1].levels@[l2 - 1].zones@[z2
                                    - 1].item matches Some(ItemPart::WholeProduct(_))) && (
                                self.rows@[r2 - 1].shelves@[s2 - 1].levels@[l2 - 1].zones@[z2
                                    - 1].item matches Some(ItemPart::ProductStart(it, e)) ==> it.id
                                    == id && it.expiry_date == expiry_date && it.zones_required
                                    == zr && it.placement.0 == r2 && it.placement.1 == s2
                                    && it.placement.2 == l2 && it.placement.3 == z2 && e == z2 + zr
                                    - 1 && (spec_max_level(
                                    list.spec_product(id).quality,
                                ) matches Some(c) ==> l2 <= c))) by {
                                    if r2 == found.0 as int && s2 == found.1 as int && l2
                                        == found.2 as int && found.3 as int <= z2 < found.3
                                        + zones_required {
                                        assert(mid.rows@[r2 - 1].shelves@[s2 - 1].levels@[l2
                                            - 1].zones@[z2 - 1].is_vacant());
                                        assert(pre.rows@[r2 - 1].shelves@[s2 - 1].levels@[l2
                                            - 1].zones@[z2 - 1] == mid.rows@[r2 - 1].shelves@[s2
                                            - 1].levels@[l2 - 1].zones@[z2 - 1]);
                                        assert(crate::level::spec_span_ok_at(
                                            self.rows@[r2 - 1].shelves@[s2 - 1].levels@[l2
                                                - 1].zones@,
                                            found.3 - 1,
                                        ));
                                    } else {
                                        if r2 != found.0 as int {
                                            assert(self.rows@[r2 - 1] == mid.rows@[r2 - 1]);
                                        } else if s2 != found.1 as int {
                                            assert(self.rows@[r2 - 1].shelves@[s2 - 1]
                                                == mid.rows@[r2 - 1].shelves@[s2 - 1]);
                                        } else if l2 != found.2 as int {
                                            assert(self.rows@[r2 - 1].shelves@[s2 - 1].levels@[l2
                                                - 1] == mid.rows@[r2 - 1].shelves@[s2
                                                - 1].levels@[l2 - 1]);
                                        } else {
                                            assert(!(found.3 as int <= z2 < found.3
                                                + zones_required));
                                        }
                                        assert(self.rows@[r2 - 1].shelves@[s2 - 1].levels@[l2
                                            - 1].zones@[z2 - 1] == mid.rows@[r2 - 1].shelves@[s2
                                            - 1].levels@[l2 - 1].zones@[z2 - 1]);
                                    }
                                }
                            }
                        },
                        Err(e) => {
                            proof {
                                assert(false);
                            }
                            return Err(e);
                        },
                    }
                },
                None => {
                    return Err(ErrorMessage::InsufficientSpace);
                },
            }
        }
        Ok(())
    }

    /// Dispatches a closest-to-start restock by the product's quality.
    pub fn closest_to_start_placement(
        &mut self,
        id: u64,
        list: &ProductList,
        qty: usize,
        expiry_date: Option<Date>,
    ) -> (r: Result<(), ErrorMessage>)
        requires
            old(self).wf(),
            list.wf(),
        ensures
            final(self).wf(),
            final(self).strategy == old(self).strategy,
            final(self).cap() == old(self).cap(),
            !list.spec_has_id(id) ==> r == Err::<(), ErrorMessage>(ErrorMessage::ProductNotListed)
                && *final(self) == *old(self),
            list.spec_has_id(id) ==> r != Err::<(), ErrorMessage>(ErrorMessage::ProductNotListed)
                && spec_closest_errors(*list, id, expiry_date, r),
            list.spec_has_id(id) && r == Err::<(), ErrorMessage>(ErrorMessage::InsufficientSpace)
                ==> spec_closest_exhausted(*final(self), *list, id),
            list.spec_has_id(id) ==> spec_closest_outcome_placements(
                *old(self),
                *final(self),
                id,
                *list,
                expiry_date,
            ),
            r is Ok ==> final(self).available_space == old(self).available_space - qty
                * spec_zones_required(list.spec_product(id).quality),
            final(self).available_space <= old(self).available_space,
    {
        let product = match list.product(id) {
            Some(product) => product,
            None => {
                return Err(ErrorMessage::ProductNotListed);
            },
        };
        match product.quality {
            Quality::Oversized(zones_required) | Quality::OversizedAndFragile(
                zones_required,
                _,
            ) => {
                if zones_required < 2 {
                    return Err(ErrorMessage::NotEnoughZones);
                }
                self.place_oversized_stock_closest_to_start(
                    id,
                    list,
                    qty,
                    expiry_date,
                    zones_required,
                )
            },
            _ => {
                let outcome = self.place_stock_closest_to_start(id, list, qty, expiry_date);
                proof {
                    assert((qty as int) * 1int == qty as int) by (nonlinear_arith);
                }
                outcome
            },
        }
    }

    /// Restocks `qty` units of the product under the strategy in force. The
    /// catalog is only read; the caller settles quantities afterwards.
    pub fn independent_restock(
        &mut self,
        id: u64,
        qty: usize,
        list: &ProductList,
        expiry_date: Option<Date>,
    ) -> (r: Result<(), ErrorMessage>)
        requires
            old(self).wf(),
            list.wf(),
        ensures
            final(self).wf(),
            final(self).strategy == old(self).strategy,
            final(self).cap() == old(self).cap(),
            !list.spec_has_id(id) ==> r == Err::<(), ErrorMessage>(ErrorMessage::ProductNotListed)
                && *final(self) == *old(self),
            list.spec_has_id(id) ==> r != Err::<(), ErrorMessage>(ErrorMessage::ProductNotListed),
            list.spec_has_id(id) && qty > 0 && old(self).strategy
                == PlacementStrategy::Contiguous ==> spec_contiguous_outcome(
                *old(self),
                *final(self),
                id,
                *list,
                qty as int,
                expiry_date,
                r,
            ),
            list.spec_has_id(id) && qty > 0 && old(self).strategy
                == PlacementStrategy::RoundRobin ==> spec_round_robin_outcome(
                *old(self),
                *final(self),
                id,
                *list,
                qty as int,
                expiry_date,
                r,
            ),
            list.spec_has_id(id) && qty > 0 && old(self).strategy
                == PlacementStrategy::ClosestToStart ==> spec_closest_errors(
                *list,
                id,
                expiry_date,
                r,
            ) && (r == Err::<(), ErrorMessage>(ErrorMessage::InsufficientSpace)
                ==> spec_closest_exhausted(*final(self), *list, id))
                && spec_closest_outcome_placements(
                *old(self),
                *final(self),
                id,
                *list,
                expiry_date,
            ),
            r is Ok ==> final(self).available_space == old(self).available_space - qty
                * spec_zones_required(list.spec_product(id).quality),
            final(self).available_space <= old(self).available_space,
    {
        if list.product(id).is_none() {
            return Err(ErrorMessage::ProductNotListed);
        }
        if qty == 0 {
            proof {
                assert(0int * spec_zones_required(list.spec_product(id).quality) == 0)
                    by (nonlinear_arith);
            }
            return Ok(());
        }
        match self.strategy {
            PlacementStrategy::Contiguous => self.contiguous_placement(id, list, qty, expiry_date),
            PlacementStrategy::RoundRobin => self.round_robin_placement(id, list, qty, expiry_date),
            PlacementStrategy::ClosestToStart => self.closest_to_start_placement(
                id,
                list,
                qty,
                expiry_date,
            ),
        }
    }

    /// Sorts items by expiry date ascending; items without a date come last.
    /// The result holds exactly the given items.
    #[verifier::loop_isolation(false)]
    pub fn sort_by_expiry_date(item_list: Vec<ProductItem>) -> (r: Vec<ProductItem>)
        ensures
            r@.len() == item_list@.len(),
            r@.to_multiset() == item_list@.to_multiset(),
            forall|i: int, j: int| 0 <= i < j < r@.len() ==> spec_expiry_le(r@[i], r@[j]),
    {
        broadcast use vstd::seq_lib::group_to_multiset_ensures;

        let mut work = item_list;
        let mut out: Vec<ProductItem> = Vec::new();
        while work.len() > 0
            invariant
                out@.len() + work@.len() == item_list@.len(),
                out@.to_multiset().add(work@.to_multiset()) == item_list@.to_multiset(),
                forall|i: int, j: int| 0 <= i < j < out@.len() ==> spec_expiry_le(out@[i], out@[j]),
                forall|i: int, j: int|
                    0 <= i < out@.len() && 0 <= j < work@.len() ==> #[trigger] spec_expiry_le(
                        out@[i],
                        work@[j],
                    ),
            decreases work@.len(),
        {
            // Find the earliest-expiring remaining item.
            let mut m: usize = 0;
            let mut k: usize = 1;
            while k < work.len()
                invariant
                    m < k <= work@.len(),
                    work@.len() > 0,
                    forall|t: int| 0 <= t < k ==> spec_expiry_le(work@[m as int], #[trigger] work@[t]),
                decreases work@.len() - k,
            {
                let earlier = match (work[k].expiry_date, work[m].expiry_date) {
                    (None, _) => false,
                    (Some(_), None) => true,
                    (Some(dk), Some(dm)) => dk.lt(&dm),
                };
                if earlier {
                    proof {
                        assert forall|t: int| 0 <= t < k + 1 implies spec_expiry_le(
                            work@[k as int],
                            #[trigger] work@[t],
                        ) by {
                            if t < k {
                                lemma_expiry_le_transitive(
                                    work@[k as int],
                                    work@[m as int],
                                    work@[t],
                                );
                            }
                        }
                    }
                    m = k;
                }
                k = k + 1;
            }
            let ghost prev_out = out@;
            let ghost prev_work = work@;
            let picked = work.remove(m);
            out.push(picked);
            proof {
                assert(prev_work.to_multiset().count(picked) > 0);
                assert(out@.to_multiset() =~= prev_out.to_multiset().insert(picked));
                assert(work@.to_multiset() =~= prev_work.to_multiset().remove(picked));
                assert(out@.to_multiset().add(work@.to_multiset()) =~= prev_out.to_multiset().add(
                    prev_work.to_multiset(),
                ));
                assert forall|i: int, j: int|
                    0 <= i < out@.len() && 0 <= j < work@.len() implies #[trigger] spec_expiry_le(
                    out@[i],
                    work@[j],
                ) by {
                    if i < prev_out.len() {
                        assert(spec_expiry_le(prev_out[i], prev_work[if j < m {
                            j
                        } else {
                            j + 1
                        }]));
                    } else {
                        assert(work@[j] == prev_work[if j < m {
                            j
                        } else {
                            j + 1
                        }]);
                        assert(spec_expiry_le(picked, work@[j]));
                    }
                }
            }
        }
        proof {
            assert(work@.to_multiset() =~= Multiset::<ProductItem>::empty());
            assert(out@.to_multiset().add(Multiset::<ProductItem>::empty()) =~= out@.to_multiset());
        }
        out
    }

    /// The items whose expiry date lies strictly after the given date;
    /// undated items never qualify.
    #[verifier::loop_isolation(false)]
    pub fn filter_by_expiry_date(item_list: Vec<ProductItem>, expiry_date: Date) -> (r: Vec<
        ProductItem,
    >)
        ensures
            r@ == item_list@.filter(
                |it: ProductItem|
                    it.expiry_date matches Some(d) && crate::date::spec_date_lt(expiry_date, d),
            ),
    {
        let ghost pred = |it: ProductItem|
            it.expiry_date matches Some(d) && crate::date::spec_date_lt(expiry_date, d);
        let mut out: Vec<ProductItem> = Vec::new();
        for i in 0..item_list.len()
            invariant
                out@ == item_list@.take(i as int).filter(pred),
        {
            proof {
                lemma_item_filter_take_step(item_list@, pred, i as int);
            }
            let keep = match item_list[i].expiry_date {
                Some(d) => expiry_date.lt(&d),
                None => false,
            };
            if keep {
                out.push(item_list[i]);
            }
        }
        proof {
            assert(item_list@.take(item_list@.len() as int) =~= item_list@);
        }
        out
    }

    /// The stored items whose expiry sorts strictly before the given date;
    /// an undated item sorts before every date, as the catalog's option
    /// ordering has it.
    #[verifier::loop_isolation(false)]
    pub fn filter_expired_items(&self, expiry_date: Date) -> (r: Vec<ProductItem>)
        requires
            self.wf(),
        ensures
            r@ == self.spec_items().filter(
                |it: ProductItem|
                    match it.expiry_date {
                        None => true,
                        Some(d) => crate::date::spec_date_lt(d, expiry_date),
                    },
            ),
    {
        let all = self.items();
        let ghost pred = |it: ProductItem|
            match it.expiry_date {
                None => true,
                Some(d) => crate::date::spec_date_lt(d, expiry_date),
            };
        let mut out: Vec<ProductItem> = Vec::new();
        for i in 0..all.len()
            invariant
                all@ == self.spec_items(),
                out@ == all@.take(i as int).filter(pred),
        {
            proof {
                lemma_item_filter_take_step(all@, pred, i as int);
            }
            let keep = match all[i].expiry_date {
                Some(d) => d.lt(&expiry_date),
                None => true,
            };
            if keep {
                out.push(all[i]);
            }
        }
        proof {
            assert(all@.take(all@.len() as int) =~= all@);
        }
        out
    }

    /// The stored items of the product with the given catalog name.
    #[verifier::loop_isolation(false)]
    pub fn items_with_name(&self, product_name: &str, product_list: &ProductList) -> (r: Vec<
        ProductItem,
    >)
        requires
            self.wf(),
            product_list.wf(),
        ensures
            r@ == self.spec_items().filter(
                |it: ProductItem|
                    product_list.spec_has_id(it.id) && product_list.spec_product(it.id).name@
                        == product_name@,
            ),
    {
        let all = self.items();
        let ghost pred = |it: ProductItem|
            product_list.spec_has_id(it.id) && product_list.spec_product(it.id).name@
                == product_name@;
        let mut out: Vec<ProductItem> = Vec::new();
        for i in 0..all.len()
            invariant
                all@ == self.spec_items(),
                out@ == all@.take(i as int).filter(pred),
        {
            proof {
                lemma_item_filter_take_step(all@, pred, i as int);
            }
            let keep = match product_list.product(all[i].id) {
                Some(product) => crate::product::str_eq(product.name.as_str(), product_name),
                None => false,
            };
            if keep {
                out.push(all[i]);
            }
        }
        proof {
            assert(all@.take(all@.len() as int) =~= all@);
        }
        out
    }

    /// Removes the given items from the back of the list forward until `qty`
    /// are taken, vacating each one's zones; stops at the first failure,
    /// leaving earlier removals in place.
    #[verifier::loop_isolation(false)]
    pub fn take_stock(&mut self, qty: usize, list: Vec<ProductItem>) -> (r: Result<
        Vec<ProductItem>,
        ErrorMessage,
    >)
        requires
            old(self).wf(),
        ensures
            final(self).wf(),
            final(self).strategy == old(self).strategy,
            final(self).cap() == old(self).cap(),
            spec_wh_same_layout(*old(self), *final(self)),
            final(self).available_space >= old(self).available_space,
            r == Err::<Vec<ProductItem>, ErrorMessage>(ErrorMessage::InsufficientStock) ==> list@.len()
                < qty,
            list@.len() < qty ==> r is Err,
            list@.len() == 0 && qty > 0 ==> r == Err::<Vec<ProductItem>, ErrorMessage>(
                ErrorMessage::InsufficientStock,
            ) && *final(self) == *old(self),
            r != Err::<Vec<ProductItem>, ErrorMessage>(ErrorMessage::ProductNotListed),
            r matches Ok(taken) ==> taken@.len() == qty && final(self).available_space >= old(self).available_space + qty && (forall|k: int|
                0 <= k < qty ==> taken@[k] == list@[list@.len() - 1 - k]) && (forall|k: int|
                0 <= k < qty ==> spec_taken_vacated(
                    *old(self),
                    *final(self),
                    (#[trigger] list@[list@.len() - 1 - k]).placement,
                )),
    {
        let ghost given = list@;
        let mut remaining = qty;
        let mut work = list;
        let mut taken: Vec<ProductItem> = Vec::new();
        proof {
            assert(given.take(given.len() as int) =~= given);
        }
        while remaining > 0
            invariant
                self.wf(),
                self.strategy == old(self).strategy,
                self.cap() == old(self).cap(),
                spec_wh_same_layout(*old(self), *self),
                remaining <= qty,
                qty - remaining <= given.len(),
                taken@.len() == qty - remaining,
                work@ == given.take(given.len() - (qty - remaining)),
                forall|k: int| 0 <= k < qty - remaining ==> taken@[k] == given[given.len() - 1 - k],
                forall|k: int|
                    0 <= k < qty - remaining ==> spec_taken_vacated(
                        *old(self),
                        *self,
                        (#[trigger] given[given.len() - 1 - k]).placement,
                    ),
                self.available_space >= old(self).available_space + (qty - remaining),
                qty - remaining == 0 ==> *self == *old(self),
            decreases remaining,
        {
            let ghost remaining_before = remaining;
            let ghost work_before = work@;
            let item = match work.pop() {
                Some(item) => item,
                None => {
                    return Err(ErrorMessage::InsufficientStock);
                },
            };
            let placement = item.placement;
            let ghost mid = *self;
            match self.remove_item(placement.0, placement.1, placement.2, placement.3) {
                Ok(()) => {
                    taken.push(item);
                    remaining = remaining - 1;
                    proof {
                        assert(work_before.len() == given.len() - (qty - remaining_before));
                        assert(item == work_before[work_before.len() - 1]);
                        assert(item == given[given.len() - 1 - (qty - remaining_before)]);
                        assert(work@ =~= given.take(given.len() - (qty - remaining)));
                        lemma_removal_keeps_vacated(mid, *self, placement);
                        assert forall|k: int|
                            0 <= k < qty - remaining implies spec_taken_vacated(
                            *old(self),
                            *self,
                            (#[trigger] given[given.len() - 1 - k]).placement,
                        ) by {
                            if k < qty - remaining_before {
                                assert(spec_taken_vacated(
                                    *old(self),
                                    mid,
                                    given[given.len() - 1 - k].placement,
                                ));
                            } else {
                                assert(given[given.len() - 1 - k] == item);
                            }
                        }
                    }
                },
                Err(e) => {
                    return Err(e);
                },
            }
        }
        Ok(taken)
    }

    /// Removes `qty` units of the product, earliest expiry first when any
    /// unit carries an expiry date.
    pub fn remove_stock(&mut self, id: u64, qty: usize) -> (r: Result<(), ErrorMessage>)
        requires
            old(self).wf(),
        ensures
            final(self).wf(),
            final(self).strategy == old(self).strategy,
            final(self).cap() == old(self).cap(),
            final(self).available_space >= old(self).available_space,
            r == Err::<(), ErrorMessage>(ErrorMessage::InsufficientStock) ==> old(self).spec_items().filter(|it: ProductItem| it.id == id).len() < qty,
            old(self).spec_items().filter(|it: ProductItem| it.id == id).len() < qty ==> !(r
                is Ok),
            old(self).spec_items().filter(|it: ProductItem| it.id == id).len() == 0 && qty > 0
                ==> r == Err::<(), ErrorMessage>(ErrorMessage::InsufficientStock) && *final(self)
                == *old(self),
            r != Err::<(), ErrorMessage>(ErrorMessage::ProductNotListed),
            r is Ok ==> final(self).available_space >= old(self).available_space + qty,
            r is Ok ==> exists|ss: Seq<ProductItem>|
                #[trigger] spec_fefo_removed(*old(self), *final(self), id, qty as int, ss),
    {
        let mut list = self.items_with_id(id);
        let ghost initial = list@;
        let mut any_expiry = false;
        for i in 0..list.len()
            invariant
                list@ == initial,
                any_expiry == (exists|j: int| 0 <= j < i && (#[trigger] list@[j]).expiry_date is Some),
        {
            if list[i].expiry_date.is_some() {
                any_expiry = true;
            }
        }
        let ghost mut order: Seq<ProductItem> = Seq::empty();
        if any_expiry {
            let sorted = Warehouse::sort_by_expiry_date(list);
            // Reverse so that the earliest expiry sits at the back, where
            // consumption starts.
            let mut reversed: Vec<ProductItem> = Vec::new();
            let mut i: usize = sorted.len();
            while i > 0
                invariant
                    i <= sorted@.len(),
                    reversed@.len() == sorted@.len() - i,
                    forall|k: int|
                        0 <= k < reversed@.len() ==> reversed@[k] == sorted@[sorted@.len() - 1 - k],
                decreases i,
            {
                i = i - 1;
                reversed.push(sorted[i]);
            }
            list = reversed;
            proof {
                order = list@.reverse();
                assert(order =~= sorted@);
            }
        } else {
            proof {
                order = list@.reverse();
                list@.lemma_reverse_to_multiset();
                assert forall|j: int| 0 <= j < order.len() implies !((#[trigger] order[
                j]).expiry_date is Some) by {
                    assert(order[j] == list@[list@.len() - 1 - j]);
                }
            }
        }
        let ghost count = old(self).spec_items().filter(|it: ProductItem| it.id == id).len();
        proof {
            assert(list@.len() == count);
            assert(order.to_multiset() == initial.to_multiset());
        }
        let outcome = self.take_stock(qty, list);
        proof {
            if outcome is Ok {
                assert forall|k: int| 0 <= k < qty implies spec_taken_vacated(
                    *old(self),
                    *self,
                    (#[trigger] order[k]).placement,
                ) by {
                    assert(order[k] == list@[list@.len() - 1 - k]);
                }
                assert(spec_fefo_removed(*old(self), *self, id, qty as int, order));
            }
        }
        match outcome {
            Ok(_) => Ok(()),
            Err(e) => Err(e),
        }
    }

    /// Removes every unit of the product.
    pub fn remove_all_stock(&mut self, id: u64) -> (r: Result<(), ErrorMessage>)
        requires
            old(self).wf(),
        ensures
            final(self).wf(),
            final(self).strategy == old(self).strategy,
            final(self).cap() == old(self).cap(),
            final(self).available_space >= old(self).available_space,
            r != Err::<(), ErrorMessage>(ErrorMessage::ProductNotListed),
            r is Ok ==> ({
                let n = old(self).spec_items().filter(|it: ProductItem| it.id == id).len() as int;
                exists|ss: Seq<ProductItem>|
                    #[trigger] spec_fefo_removed(*old(self), *final(self), id, n, ss)
            }),
    {
        let list = self.items_with_id(id);
        self.remove_stock(id, list.len())
    }

    /// Removes every unit stored anywhere.
    pub fn empty_warehouse(&mut self) -> (r: Result<(), ErrorMessage>)
        requires
            old(self).wf(),
        ensures
            final(self).wf(),
            final(self).strategy == old(self).strategy,
            final(self).cap() == old(self).cap(),
            final(self).available_space >= old(self).available_space,
            r is Ok ==> forall|j: int|
                0 <= j < old(self).spec_items().len() ==> spec_taken_vacated(
                    *old(self),
                    *final(self),
                    (#[trigger] old(self).spec_items()[j]).placement,
                ),
    {
        let list = self.items();
        let count = list.len();
        let ghost given = list@;
        let outcome = self.take_stock(count, list);
        proof {
            if outcome is Ok {
                assert forall|j: int| 0 <= j < old(self).spec_items().len() implies
                    spec_taken_vacated(
                    *old(self),
                    *self,
                    (#[trigger] old(self).spec_items()[j]).placement,
                ) by {
                    let k = given.len() - 1 - j;
                    assert(spec_taken_vacated(
                        *old(self),
                        *self,
                        given[given.len() - 1 - k].placement,
                    ));
                }
            }
        }
        match outcome {
            Ok(_) => Ok(()),
            Err(e) => Err(e),
        }
    }

    /// The first anchor carrying the id, as a full coordinate.
    pub fn find_first_item_occurrence(&self, product_id: u64) -> (r: Option<
        (usize, usize, usize, usize),
    >)
        requires
            self.wf(),
        ensures
            match r {
                Some(found) => spec_coord_valid(
                    *self,
                    found.0 as int,
                    found.1 as int,
                    found.2 as int,
                    found.3 as int,
                ) && (spec_anchor_item(
                    self.rows@[found.0 - 1].shelves@[found.1 - 1].levels@[found.2 - 1].zones@[
                        found.3 - 1
                    ],
                ) matches Some(it) && it.id == product_id),
                None => forall|w: int, s: int, a: int, b: int|
                    0 <= w < self.rows@.len() && 0 <= s < (#[trigger] self.rows@[w]).shelves@.len()
                        && 0 <= a < (#[trigger] self.rows@[w].shelves@[s]).levels@.len() && 0 <= b
                        < (#[trigger] self.rows@[w].shelves@[s].levels@[a]).zones@.len() ==> !(
                    spec_anchor_item(
                        #[trigger] self.rows@[w].shelves@[s].levels@[a].zones@[b],
                    ) matches Some(it) && it.id == product_id),
            },
    {
        let mut w: usize = 0;
        while w < self.rows.len()
            invariant
                self.wf(),
                w <= self.rows@.len(),
                forall|x: int, s: int, a: int, b: int|
                    0 <= x < w && 0 <= s < (#[trigger] self.rows@[x]).shelves@.len() && 0 <= a < (
                    #[trigger] self.rows@[x].shelves@[s]).levels@.len() && 0 <= b < (
                    #[trigger] self.rows@[x].shelves@[s].levels@[a]).zones@.len() ==> !(
                    spec_anchor_item(
                        #[trigger] self.rows@[x].shelves@[s].levels@[a].zones@[b],
                    ) matches Some(it) && it.id == product_id),
            decreases self.rows@.len() - w,
        {
            match self.rows[w].find_first_item_occurrence(product_id) {
                Some(found) => {
                    return Some((w + 1, found.0, found.1, found.2));
                },
                None => {},
            }
            w = w + 1;
        }
        None
    }

    /// The last anchor carrying the id, as a full coordinate.
    pub fn find_last_item_occurrence(&self, product_id: u64) -> (r: Option<
        (usize, usize, usize, usize),
    >)
        requires
            self.wf(),
        ensures
            match r {
                Some(found) => spec_coord_valid(
                    *self,
                    found.0 as int,
                    found.1 as int,
                    found.2 as int,
                    found.3 as int,
                ) && (spec_anchor_item(
                    self.rows@[found.0 - 1].shelves@[found.1 - 1].levels@[found.2 - 1].zones@[
                        found.3 - 1
                    ],
                ) matches Some(it) && it.id == product_id),
                None => forall|w: int, s: int, a: int, b: int|
                    0 <= w < self.rows@.len() && 0 <= s < (#[trigger] self.rows@[w]).shelves@.len()
                        && 0 <= a < (#[trigger] self.rows@[w].shelves@[s]).levels@.len() && 0 <= b
                        < (#[trigger] self.rows@[w].shelves@[s].levels@[a]).zones@.len() ==> !(
                    spec_anchor_item(
                        #[trigger] self.rows@[w].shelves@[s].levels@[a].zones@[b],
                    ) matches Some(it) && it.id == product_id),
            },
    {
        let mut w: usize = self.rows.len();
        while w > 0
            invariant
                self.wf(),
                w <= self.rows@.len(),
                forall|x: int, s: int, a: int, b: int|
                    w <= x < self.rows@.len() && 0 <= s < (#[trigger] self.rows@[x]).shelves@.len()
                        && 0 <= a < (#[trigger] self.rows@[x].shelves@[s]).levels@.len() && 0 <= b
                        < (#[trigger] self.rows@[x].shelves@[s].levels@[a]).zones@.len() ==> !(
                    spec_anchor_item(
                        #[trigger] self.rows@[x].shelves@[s].levels@[a].zones@[b],
                    ) matches Some(it) && it.id == product_id),
            decreases w,
        {
            w = w - 1;
            match self.rows[w].find_last_item_occurrence(product_id) {
                Some(found) => {
                    return Some((w + 1, found.0, found.1, found.2));
                },
                None => {},
            }
        }
        None
    }

    /// Every anchor carrying the id, as full coordinates in traversal order.
    #[verifier::loop_isolation(false)]
    #[verifier::rlimit(30)]
    pub fn find_all_item_occurences(&self, product_id: u64) -> (r: Vec<
        (usize, usize, usize, usize),
    >)
        requires
            self.wf(),
        ensures
            forall|k: int|
                0 <= k < r@.len() ==> spec_coord_valid(
                    *self,
                    (#[trigger] r@[k]).0 as int,
                    r@[k].1 as int,
                    r@[k].2 as int,
                    r@[k].3 as int,
                ) && (spec_anchor_item(
                    self.rows@[r@[k].0 - 1].shelves@[r@[k].1 - 1].levels@[r@[k].2 - 1].zones@[
                        r@[k].3 - 1
                    ],
                ) matches Some(it) && it.id == product_id),
            forall|w: int, s: int, a: int, b: int|
                (0 <= w < self.rows@.len() && 0 <= s < (#[trigger] self.rows@[w]).shelves@.len()
                    && 0 <= a < (#[trigger] self.rows@[w].shelves@[s]).levels@.len() && 0 <= b < (
                #[trigger] self.rows@[w].shelves@[s].levels@[a]).zones@.len() && (spec_anchor_item(
                    #[trigger] self.rows@[w].shelves@[s].levels@[a].zones@[b],
                ) matches Some(it) && it.id == product_id)) ==> r@.contains(
                    ((w + 1) as usize, (s + 1) as usize, (a + 1) as usize, (b + 1) as usize),
                ),
    {
        let mut out: Vec<(usize, usize, usize, usize)> = Vec::new();
        let mut w: usize = 0;
        while w < self.rows.len()
            invariant
                w <= self.rows@.len(),
                forall|k: int|
                    0 <= k < out@.len() ==> spec_coord_valid(
                        *self,
                        (#[trigger] out@[k]).0 as int,
                        out@[k].1 as int,
                        out@[k].2 as int,
                        out@[k].3 as int,
                    ) && (spec_anchor_item(
                        self.rows@[out@[k].0 - 1].shelves@[out@[k].1 - 1].levels@[out@[k].2
                            - 1].zones@[out@[k].3 - 1],
                    ) matches Some(it) && it.id == product_id),
                forall|x: int, s: int, a: int, b: int|
                    (0 <= x < w && 0 <= s < (#[trigger] self.rows@[x]).shelves@.len() && 0 <= a < (
                    #[trigger] self.rows@[x].shelves@[s]).levels@.len() && 0 <= b < (
                    #[trigger] self.rows@[x].shelves@[s].levels@[a]).zones@.len() && (
                    spec_anchor_item(
                        #[trigger] self.rows@[x].shelves@[s].levels@[a].zones@[b],
                    ) matches Some(it) && it.id == product_id)) ==> out@.contains(
                        ((x + 1) as usize, (s + 1) as usize, (a + 1) as usize, (b + 1) as usize),
                    ),
            decreases self.rows@.len() - w,
        {
            let triples = self.rows[w].find_all_item_occurences(product_id);
            let mut k: usize = 0;
            while k < triples.len()
                invariant
                    w < self.rows@.len(),
                    k <= triples@.len(),
                    forall|t: int|
                        0 <= t < triples@.len() ==> 1 <= (#[trigger] triples@[t]).0 <= self.rows@[
                        w as int].shelves@.len() && 1 <= triples@[t].1 <= self.rows@[
                        w as int].shelves@[triples@[t].0 - 1].levels@.len() && 1 <= triples@[t].2
                            <= self.rows@[w as int].shelves@[triples@[t].0 - 1].levels@[
                        triples@[t].1 - 1].zones@.len() && (spec_anchor_item(
                            self.rows@[w as int].shelves@[triples@[t].0 - 1].levels@[triples@[t].1
                                - 1].zones@[triples@[t].2 - 1],
                        ) matches Some(it) && it.id == product_id),
                    forall|s: int, a: int, b: int|
                        (0 <= s < self.rows@[w as int].shelves@.len() && 0 <= a < (
                        #[trigger] self.rows@[w as int].shelves@[s]).levels@.len() && 0 <= b < (
                        #[trigger] self.rows@[w as int].shelves@[s].levels@[a]).zones@.len() && (
                        spec_anchor_item(
                            #[trigger] self.rows@[w as int].shelves@[s].levels@[a].zones@[b],
                        ) matches Some(it) && it.id == product_id)) ==> triples@.contains(
                            (((s + 1) as usize, (a + 1) as usize, (b + 1) as usize)),
                        ),
                    forall|t: int|
                        0 <= t < k ==> out@.contains(
                            (
                                (w + 1) as usize,
                                (#[trigger] triples@[t]).0 as usize,
                                triples@[t].1 as usize,
                                triples@[t].2 as usize,
                            ),
                        ),
                    forall|c: int|
                        0 <= c < out@.len() ==> spec_coord_valid(
                            *self,
                            (#[trigger] out@[c]).0 as int,
                            out@[c].1 as int,
                            out@[c].2 as int,
                            out@[c].3 as int,
                        ) && (spec_anchor_item(
                            self.rows@[out@[c].0 - 1].shelves@[out@[c].1 - 1].levels@[out@[c].2
                                - 1].zones@[out@[c].3 - 1],
                        ) matches Some(it) && it.id == product_id),
                    forall|x: int, s: int, a: int, b: int|
                        (0 <= x < w && 0 <= s < (#[trigger] self.rows@[x]).shelves@.len() && 0 <= a
                            < (#[trigger] self.rows@[x].shelves@[s]).levels@.len() && 0 <= b < (
                        #[trigger] self.rows@[x].shelves@[s].levels@[a]).zones@.len() && (
                        spec_anchor_item(
                            #[trigger] self.rows@[x].shelves@[s].levels@[a].zones@[b],
                        ) matches Some(it) && it.id == product_id)) ==> out@.contains(
                            (
                                (x + 1) as usize,
                                (s + 1) as usize,
                                (a + 1) as usize,
                                (b + 1) as usize,
                            ),
                        ),
                decreases triples@.len() - k,
            {
                let ghost prev = out@;
                let triple = triples[k];
                out.push((w + 1, triple.0, triple.1, triple.2));
                proof {
                    lemma_push_keeps_quads(prev, ((w + 1) as usize, triple.0, triple.1, triple.2));
                }
                k = k + 1;
            }
            proof {
                assert forall|x: int, s: int, a: int, b: int|
                    (0 <= x < w + 1 && 0 <= s < (#[trigger] self.rows@[x]).shelves@.len() && 0 <= a
                        < (#[trigger] self.rows@[x].shelves@[s]).levels@.len() && 0 <= b < (
                    #[trigger] self.rows@[x].shelves@[s].levels@[a]).zones@.len() && (
                    spec_anchor_item(
                        #[trigger] self.rows@[x].shelves@[s].levels@[a].zones@[b],
                    ) matches Some(it) && it.id == product_id)) implies out@.contains(
                    ((x + 1) as usize, (s + 1) as usize, (a + 1) as usize, (b + 1) as usize),
                ) by {
                    if x == w {
                        assert(triples@.contains(
                            (((s + 1) as usize, (a + 1) as usize, (b + 1) as usize)),
                        ));
                        let t = choose|t: int|
                            0 <= t < triples@.len() && triples@[t] == (((s + 1) as usize, (
                            a + 1) as usize, (b + 1) as usize));
                        assert(out@.contains(
                            (
                                (w + 1) as usize,
                                triples@[t].0 as usize,
                                triples@[t].1 as usize,
                                triples@[t].2 as usize,
                            ),
                        ));
                    }
                }
            }
            w = w + 1;
        }
        out
    }
}

/// Pushing onto a sequence of coordinates keeps everything it contained.
proof fn lemma_push_keeps_quads(
    s: Seq<(usize, usize, usize, usize)>,
    x: (usize, usize, usize, usize),
)
    ensures
        forall|y: (usize, usize, usize, usize)| s.contains(y) ==> #[trigger] s.push(x).contains(y),
        s.push(x).contains(x),
{
    assert forall|y: (usize, usize, usize, usize)| s.contains(y) implies #[trigger] s.push(
        x,
    ).contains(y) by {
        let k = choose|k: int| 0 <= k < s.len() && s[k] == y;
        assert(s.push(x)[k] == y);
    }
    assert(s.push(x)[s.len() as int] == x);
}

/// The coordinate (row, shelf, level, zone), all 1-based, resolves in the
/// tree.
pub open spec fn spec_coord_valid(w: Warehouse, r: int, s: int, l: int, z: int) -> bool {
    &&& 1 <= r <= w.rows@.len()
    &&& 1 <= s <= w.rows@[r - 1].shelves@.len()
    &&& 1 <= l <= w.rows@[r - 1].shelves@[s - 1].levels@.len()
    &&& 1 <= z <= w.rows@[r - 1].shelves@[s - 1].levels@[l - 1].zones@.len()
}

/// The 0-based position of the coordinate in the warehouse flat map: zones
/// of earlier rows, then earlier shelves, then earlier levels, then earlier
/// zones of the same level.
pub open spec fn spec_coord_index(w: Warehouse, r: int, s: int, l: int, z: int) -> int {
    spec_rows_cap(w.rows@.take(r - 1)) + spec_shelves_cap(w.rows@[r - 1].shelves@.take(s - 1))
        + crate::shelf::spec_levels_cap(w.rows@[r - 1].shelves@[s - 1].levels@.take(l - 1)) + (z
        - 1)
}

/// One step of filtering items over a growing prefix.
proof fn lemma_item_filter_take_step(s: Seq<ProductItem>, pred: spec_fn(ProductItem) -> bool, i: int)
    requires
        0 <= i < s.len(),
    ensures
        pred(s[i]) ==> s.take(i + 1).filter(pred) == s.take(i).filter(pred).push(s[i]),
        !pred(s[i]) ==> s.take(i + 1).filter(pred) == s.take(i).filter(pred),
{
    reveal(Seq::filter);
    assert(s.take(i + 1).drop_last() =~= s.take(i));
    assert(s.take(i + 1).last() == s[i]);
}

impl Default for Warehouse {
    /// The stock warehouse: 2 rows of 6 shelves of 4 levels of 10 zones.
    fn default() -> (r: Warehouse)
        ensures
            r.wf(),
            r.rows@.len() == 2,
            r.cap() == 480,
            r.available_space == 480,
            r.strategy == PlacementStrategy::Contiguous,
            spec_fresh_grid(r, 2, 6, 4, 10),
    {
        let mut warehouse = Warehouse::new();
        warehouse.initialize_rows(2, 6, 4, 10);
        warehouse
    }
}

} // verus!
