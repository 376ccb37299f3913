use vstd::prelude::*;

use crate::level::{
    spec_occ, spec_oversized_map, spec_items_of, spec_item_at, spec_run_vacant,
    spec_vacant_count, Level,
};
use crate::messages::ErrorMessage;
use crate::product::ProductItem;
use crate::zone::{spec_anchor_item, Zone};

verus! {

/// A stack of levels. The counter aggregates the levels' vacant zones and
/// the whole shelf's capacity stays within the machine word; `wf` states it.
#[derive(Clone, Debug)]
pub struct Shelf {
    pub number: usize,
    pub available_space: usize,
    pub levels: Vec<Level>,
}

pub open spec fn spec_levels_cap(ls: Seq<Level>) -> nat
    decreases ls.len(),
{
    if ls.len() == 0 {
        0
    } else {
        spec_levels_cap(ls.drop_last()) + ls.last().cap()
    }
}

pub open spec fn spec_levels_vacant(ls: Seq<Level>) -> nat
    decreases ls.len(),
{
    if ls.len() == 0 {
        0
    } else {
        spec_levels_vacant(ls.drop_last()) + spec_vacant_count(ls.last().zones@)
    }
}

/// The occupancy of the levels, concatenated in order.
pub open spec fn spec_levels_occ(ls: Seq<Level>) -> Seq<bool>
    decreases ls.len(),
{
    if ls.len() == 0 {
        Seq::empty()
    } else {
        spec_levels_occ(ls.drop_last()) + spec_occ(ls.last().zones@)
    }
}

/// The per-level oversized maps, concatenated in order; blocks never cross a
/// level boundary, just as spans never do.
pub open spec fn spec_levels_omap(ls: Seq<Level>, zr: nat) -> Seq<u8>
    decreases ls.len(),
{
    if ls.len() == 0 {
        Seq::empty()
    } else {
        spec_levels_omap(ls.drop_last(), zr) + spec_oversized_map(spec_occ(ls.last().zones@), zr)
    }
}

/// The anchor items of the levels, concatenated in order.
pub open spec fn spec_levels_items(ls: Seq<Level>) -> Seq<ProductItem>
    decreases ls.len(),
{
    if ls.len() == 0 {
        Seq::empty()
    } else {
        spec_levels_items(ls.drop_last()) + spec_items_of(ls.last().zones@)
    }
}

/// One growth step for every aggregate over a prefix of levels.
pub proof fn lemma_levels_take_step(ls: Seq<Level>, i: int)
    requires
        0 <= i < ls.len(),
    ensures
        spec_levels_cap(ls.take(i + 1)) == spec_levels_cap(ls.take(i)) + ls[i].cap(),
        spec_levels_vacant(ls.take(i + 1)) == spec_levels_vacant(ls.take(i)) + spec_vacant_count(
            ls[i].zones@,
        ),
        spec_levels_occ(ls.take(i + 1)) == spec_levels_occ(ls.take(i)) + spec_occ(ls[i].zones@),
        spec_levels_items(ls.take(i + 1)) == spec_levels_items(ls.take(i)) + spec_items_of(
            ls[i].zones@,
        ),
{
    assert(ls.take(i + 1).drop_last() =~= ls.take(i));
    assert(ls.take(i + 1).last() == ls[i]);
}

pub proof fn lemma_levels_omap_take_step(ls: Seq<Level>, i: int, zr: nat)
    requires
        0 <= i < ls.len(),
    ensures
        spec_levels_omap(ls.take(i + 1), zr) == spec_levels_omap(ls.take(i), zr)
            + spec_oversized_map(spec_occ(ls[i].zones@), zr),
{
    assert(ls.take(i + 1).drop_last() =~= ls.take(i));
    assert(ls.take(i + 1).last() == ls[i]);
}

/// Replacing one level changes the aggregates by that level's change alone.
pub proof fn lemma_levels_update(ls: Seq<Level>, i: int, l: Level)
    requires
        0 <= i < ls.len(),
    ensures
        spec_levels_cap(ls.update(i, l)) == spec_levels_cap(ls) - ls[i].cap() + l.cap(),
        spec_levels_vacant(ls.update(i, l)) == spec_levels_vacant(ls) - spec_vacant_count(
            ls[i].zones@,
        ) + spec_vacant_count(l.zones@),
    decreases ls.len(),
{
    let updated = ls.update(i, l);
    if i == ls.len() - 1 {
        assert(updated.drop_last() =~= ls.drop_last());
    } else {
        lemma_levels_update(ls.drop_last(), i, l);
        assert(updated.drop_last() =~= ls.drop_last().update(i, l));
    }
}

pub proof fn lemma_levels_vacant_le_cap(ls: Seq<Level>)
    ensures
        spec_levels_vacant(ls) <= spec_levels_cap(ls),
    decreases ls.len(),
{
    if ls.len() > 0 {
        lemma_levels_vacant_le_cap(ls.drop_last());
        crate::level::lemma_vacant_count_bound(ls.last().zones@);
    }
}

/// The length of the concatenated occupancy equals the capacity.
pub proof fn lemma_levels_occ_len(ls: Seq<Level>)
    ensures
        spec_levels_occ(ls).len() == spec_levels_cap(ls),
    decreases ls.len(),
{
    if ls.len() > 0 {
        lemma_levels_occ_len(ls.drop_last());
    }
}

/// The concatenated oversized maps are as long as the capacity.
pub proof fn lemma_levels_omap_len(ls: Seq<Level>, zr: nat)
    requires
        zr >= 1,
    ensures
        spec_levels_omap(ls, zr).len() == spec_levels_cap(ls),
    decreases ls.len(),
{
    if ls.len() > 0 {
        lemma_levels_omap_len(ls.drop_last(), zr);
        crate::level::lemma_oversized_map_len(spec_occ(ls.last().zones@), zr);
    }
}

impl Shelf {
    pub open spec fn cap(self) -> nat {
        spec_levels_cap(self.levels@)
    }

    pub open spec fn numbered(self) -> bool {
        forall|i: int| 0 <= i < self.levels@.len() ==> (#[trigger] self.levels@[i].number) == i + 1
    }

    pub open spec fn wf(self) -> bool {
        &&& self.numbered()
        &&& forall|i: int| 0 <= i < self.levels@.len() ==> (#[trigger] self.levels@[i]).wf()
        &&& self.available_space == spec_levels_vacant(self.levels@)
        &&& spec_levels_cap(self.levels@) <= usize::MAX
    }

    pub fn new(number: usize) -> (r: Shelf)
        ensures
            r.number == number,
            r.available_space == 0,
            r.levels@.len() == 0,
            r.wf(),
            r.cap() == 0,
    {
        Shelf { number, available_space: 0, levels: Vec::new() }
    }

    /// Appends one level; its number must continue the 1-based order and the
    /// grown shelf must still fit the machine word.
    pub fn add_level(&mut self, level: Level)
        requires
            old(self).wf(),
            level.wf(),
            level.number == old(self).levels@.len() + 1,
            old(self).cap() + level.cap() <= usize::MAX,
            old(self).levels@.len() < usize::MAX,
        ensures
            final(self).wf(),
            final(self).levels@ == old(self).levels@.push(level),
            final(self).number == old(self).number,
            final(self).available_space == old(self).available_space + spec_vacant_count(
                level.zones@,
            ),
            final(self).cap() == old(self).cap() + level.cap(),
    {
        proof {
            lemma_levels_vacant_le_cap(self.levels@);
            crate::level::lemma_vacant_count_bound(level.zones@);
        }
        let added = level.available_space;
        self.available_space = self.available_space + added;
        self.levels.push(level);
        proof {
            assert(self.levels@.drop_last() =~= old(self).levels@);
        }
    }

    pub fn initialize_columns(&mut self, level_count: usize, zone_per_level: usize)
        requires
            old(self).wf(),
            old(self).levels@.len() == 0,
            level_count < usize::MAX,
            zone_per_level < usize::MAX,
            level_count * zone_per_level <= usize::MAX,
        ensures
            final(self).wf(),
            final(self).number == old(self).number,
            final(self).levels@.len() == level_count,
            final(self).cap() == level_count * zone_per_level,
            final(self).available_space == level_count * zone_per_level,
            forall|i: int|
                0 <= i < level_count ==> (#[trigger] final(self).levels@[i]).cap() == zone_per_level
                    && spec_vacant_count(final(self).levels@[i].zones@) == zone_per_level,
            forall|i: int, z: int|
                0 <= i < level_count && 0 <= z < zone_per_level ==> (#[trigger] final(self).levels@[i].zones@[z]).is_vacant(),
    {
        for i in 1..level_count + 1
            invariant
                self.wf(),
                self.number == old(self).number,
                self.levels@.len() == i - 1,
                level_count < usize::MAX,
                zone_per_level < usize::MAX,
                level_count * zone_per_level <= usize::MAX,
                self.cap() == (i - 1) * zone_per_level,
                self.available_space == (i - 1) * zone_per_level,
                forall|j: int|
                    0 <= j < i - 1 ==> (#[trigger] self.levels@[j]).cap() == zone_per_level
                        && spec_vacant_count(self.levels@[j].zones@) == zone_per_level,
                forall|j: int, z: int|
                    0 <= j < i - 1 && 0 <= z < zone_per_level ==> (#[trigger] self.levels@[
                    j].zones@[z]).is_vacant(),
        {
            let mut column = Level::new(i);
            column.initialize_zones(zone_per_level);
            proof {
                crate::level::lemma_vacant_count_bound(column.zones@);
                assert((i - 1) * zone_per_level + zone_per_level == i * zone_per_level)
                    by (nonlinear_arith);
                assert(i * zone_per_level <= level_count * zone_per_level) by (nonlinear_arith)
                    requires
                        1 <= i <= level_count,
                        zone_per_level >= 0,
                ;
                assert(spec_vacant_count(column.zones@) == zone_per_level) by {
                    lemma_all_vacant_count(column.zones@);
                }
            }
            self.add_level(column);
        }
        proof {
            assert((level_count + 1 - 1) * zone_per_level == level_count * zone_per_level);
        }
    }

    /// The level carrying the 1-based number, if it exists.
    pub fn level(&self, level_number: usize) -> (r: Option<&Level>)
        requires
            self.wf(),
        ensures
            match r {
                Some(l) => 1 <= level_number <= self.levels@.len() && *l == self.levels@[
                    level_number - 1
                ],
                None => !(1 <= level_number <= self.levels@.len()),
            },
    {
        if 1 <= level_number && level_number <= self.levels.len() {
            Some(&self.levels[level_number - 1])
        } else {
            None
        }
    }

    /// The zone at (level number, zone number), if the path resolves.
    pub fn zone(&self, level_number: usize, zone_number: usize) -> (r: Option<&Zone>)
        requires
            self.wf(),
        ensures
            match r {
                Some(z) => 1 <= level_number <= self.levels@.len() && 1 <= zone_number
                    <= self.levels@[level_number - 1].zones@.len() && *z == self.levels@[
                    level_number - 1
                ].zones@[zone_number - 1],
                None => !(1 <= level_number <= self.levels@.len() && 1 <= zone_number
                    <= self.levels@[level_number - 1].zones@.len()),
            },
    {
        match self.level(level_number) {
            Some(level) => level.zone(zone_number),
            None => None,
        }
    }

    pub fn is_full(&self) -> (r: bool)
        ensures
            r == (self.available_space == 0),
    {
        self.available_space == 0
    }

    pub fn is_empty(&self) -> (r: bool)
        requires
            self.wf(),
        ensures
            r == (forall|i: int|
                0 <= i < self.levels@.len() ==> spec_run_vacant(
                    (#[trigger] self.levels@[i]).zones@,
                    0,
                    self.levels@[i].zones@.len() as int,
                )),
    {
        let mut i: usize = 0;
        while i < self.levels.len()
            invariant
                self.wf(),
                i <= self.levels@.len(),
                forall|j: int|
                    0 <= j < i ==> spec_run_vacant(
                        (#[trigger] self.levels@[j]).zones@,
                        0,
                        self.levels@[j].zones@.len() as int,
                    ),
            decreases self.levels@.len() - i,
        {
            if !self.levels[i].is_empty() {
                return false;
            }
            i = i + 1;
        }
        true
    }

    #[verifier::loop_isolation(false)]
    pub fn check_capacity(&self) -> (r: usize)
        requires
            self.wf(),
        ensures
            r == self.cap(),
    {
        let mut total: usize = 0;
        let mut i: usize = 0;
        while i < self.levels.len()
            invariant
                total == spec_levels_cap(self.levels@.take(i as int)),
                i <= self.levels@.len(),
            decreases self.levels@.len() - i,
        {
            proof {
                lemma_levels_take_step(self.levels@, i as int);
                lemma_levels_cap_prefix_bound(self.levels@, i as int);
            }
            total = total + self.levels[i].check_capacity();
            i = i + 1;
        }
        proof {
            assert(self.levels@.take(self.levels@.len() as int) =~= self.levels@);
        }
        total
    }

    #[verifier::loop_isolation(false)]
    pub fn check_oversized_capacity(&self, zones_required: usize) -> (r: usize)
        requires
            self.wf(),
            zones_required >= 1,
        ensures
            r == spec_levels_ocap(self.levels@, zones_required as nat),
    {
        let mut total: usize = 0;
        let mut i: usize = 0;
        while i < self.levels.len()
            invariant
                total == spec_levels_ocap(self.levels@.take(i as int), zones_required as nat),
                total <= spec_levels_cap(self.levels@.take(i as int)),
                i <= self.levels@.len(),
            decreases self.levels@.len() - i,
        {
            proof {
                assert(self.levels@.take(i + 1).drop_last() =~= self.levels@.take(i as int));
                lemma_levels_take_step(self.levels@, i as int);
                lemma_levels_cap_prefix_bound(self.levels@, i as int);
            }
            total = total + self.levels[i].check_oversized_capacity(zones_required);
            i = i + 1;
        }
        proof {
            assert(self.levels@.take(self.levels@.len() as int) =~= self.levels@);
        }
        total
    }

    /// The occupancy of the whole shelf, level after level.
    #[verifier::loop_isolation(false)]
    pub fn flat_map(&self) -> (r: Vec<bool>)
        requires
            self.wf(),
        ensures
            r@ == spec_levels_occ(self.levels@),
    {
        let mut out: Vec<bool> = Vec::new();
        let mut i: usize = 0;
        proof {
            assert(self.levels@.take(0) =~= Seq::<Level>::empty());
        }
        while i < self.levels.len()
            invariant
                out@ == spec_levels_occ(self.levels@.take(i as int)),
                i <= self.levels@.len(),
            decreases self.levels@.len() - i,
        {
            proof {
                lemma_levels_take_step(self.levels@, i as int);
            }
            let mut part = self.levels[i].flat_map();
            out.append(&mut part);
            i = i + 1;
        }
        proof {
            assert(self.levels@.take(self.levels@.len() as int) =~= self.levels@);
        }
        out
    }

    /// The oversized occupancy of the whole shelf, level after level.
    #[verifier::loop_isolation(false)]
    pub fn oversized_flat_map(&self, zones_required: usize) -> (r: Vec<u8>)
        requires
            self.wf(),
            zones_required >= 1,
        ensures
            r@ == spec_levels_omap(self.levels@, zones_required as nat),
    {
        let mut out: Vec<u8> = Vec::new();
        let mut i: usize = 0;
        proof {
            assert(self.levels@.take(0) =~= Seq::<Level>::empty());
        }
        while i < self.levels.len()
            invariant
                out@ == spec_levels_omap(self.levels@.take(i as int), zones_required as nat),
                i <= self.levels@.len(),
            decreases self.levels@.len() - i,
        {
            proof {
                lemma_levels_omap_take_step(self.levels@, i as int, zones_required as nat);
            }
            let mut part = self.levels[i].oversized_flat_map(zones_required);
            out.append(&mut part);
            i = i + 1;
        }
        proof {
            assert(self.levels@.take(self.levels@.len() as int) =~= self.levels@);
        }
        out
    }
}

impl Shelf {
    /// Stores a single-zone unit at (level number, zone number).
    pub fn add_item(&mut self, level_number: usize, zone_number: usize, item: ProductItem) -> (r:
        Result<(), ErrorMessage>)
        requires
            old(self).wf(),
            item.zones_required == 1,
        ensures
            final(self).wf(),
            final(self).number == old(self).number,
            final(self).cap() == old(self).cap(),
            final(self).levels@.len() == old(self).levels@.len(),
            r is Err ==> final(self).levels@ == old(self).levels@ && final(self).available_space
                == old(self).available_space,
            !(1 <= level_number <= old(self).levels@.len()) ==> r == Err::<(), ErrorMessage>(
                ErrorMessage::LevelNotFound,
            ),
            1 <= level_number <= old(self).levels@.len() ==> {
                let lvl = old(self).levels@[level_number - 1];
                if !(1 <= zone_number <= lvl.zones@.len()) {
                    r == Err::<(), ErrorMessage>(ErrorMessage::ZoneNotFound)
                } else if !lvl.zones@[zone_number - 1].is_vacant() {
                    r == Err::<(), ErrorMessage>(ErrorMessage::ZoneOccupied)
                } else {
                    &&& r is Ok
                    &&& final(self).available_space == old(self).available_space - 1
                    &&& final(self).levels@ == old(self).levels@.update(
                        level_number - 1,
                        final(self).levels@[level_number - 1],
                    )
                    &&& final(self).levels@[level_number - 1].zones@ == lvl.zones@.update(
                        zone_number - 1,
                        (Zone {
                            number: zone_number,
                            item: Some(crate::zone::ItemPart::WholeProduct(item)),
                        }),
                    )
                    &&& final(self).levels@[level_number - 1].available_space
                        == lvl.available_space - 1
                }
            },
    {
        if level_number < 1 || level_number > self.levels.len() {
            return Err(ErrorMessage::LevelNotFound);
        }
        let idx = level_number - 1;
        let ghost before = self.levels@[idx as int];
        let level = &mut self.levels[idx];
        let outcome = level.add_item(zone_number, item);
        match outcome {
            Ok(()) => {
                proof {
                    lemma_levels_update(old(self).levels@, idx as int, self.levels@[idx as int]);
                    crate::level::lemma_vacant_count_at(before.zones@, zone_number - 1);
                    assert(self.levels@ =~= old(self).levels@.update(
                        idx as int,
                        self.levels@[idx as int],
                    ));
                }
                self.available_space = self.available_space - 1;
                Ok(())
            },
            Err(e) => {
                proof {
                    assert(self.levels@ =~= old(self).levels@);
                }
                Err(e)
            },
        }
    }

    /// Clears a single-zone unit at (level number, zone number).
    pub fn remove_item(&mut self, level_number: usize, zone_number: usize) -> (r: Result<
        (),
        ErrorMessage,
    >)
        requires
            old(self).wf(),
        ensures
            final(self).wf(),
            final(self).number == old(self).number,
            final(self).cap() == old(self).cap(),
            final(self).levels@.len() == old(self).levels@.len(),
            r is Err ==> final(self).levels@ == old(self).levels@ && final(self).available_space
                == old(self).available_space,
            !(1 <= level_number <= old(self).levels@.len()) ==> r == Err::<(), ErrorMessage>(
                ErrorMessage::LevelNotFound,
            ),
            1 <= level_number <= old(self).levels@.len() ==> {
                let lvl = old(self).levels@[level_number - 1];
                if !(1 <= zone_number <= lvl.zones@.len()) {
                    r == Err::<(), ErrorMessage>(ErrorMessage::ZoneNotFound)
                } else {
                    match lvl.zones@[zone_number - 1].item {
                        None => r == Err::<(), ErrorMessage>(ErrorMessage::ZoneEmpty),
                        Some(crate::zone::ItemPart::WholeProduct(_)) => r is Ok && final(self).available_space == old(self).available_space + 1 && final(self).levels@
                            == old(self).levels@.update(
                            level_number - 1,
                            final(self).levels@[level_number - 1],
                        ) && final(self).levels@[level_number - 1].zones@ == lvl.zones@.update(
                            zone_number - 1,
                            (Zone { number: zone_number, item: None }),
                        ) && final(self).levels@[level_number - 1].available_space
                            == lvl.available_space + 1,
                        Some(_) => r == Err::<(), ErrorMessage>(ErrorMessage::CannotRemovePart),
                    }
                }
            },
    {
        if level_number < 1 || level_number > self.levels.len() {
            return Err(ErrorMessage::LevelNotFound);
        }
        let idx = level_number - 1;
        let ghost before = self.levels@[idx as int];
        let level = &mut self.levels[idx];
        let outcome = level.remove_item(zone_number);
        match outcome {
            Ok(()) => {
                proof {
                    lemma_levels_update(old(self).levels@, idx as int, self.levels@[idx as int]);
                    lemma_levels_vacant_le_cap(self.levels@);
                    assert(self.levels@ =~= old(self).levels@.update(
                        idx as int,
                        self.levels@[idx as int],
                    ));
                }
                self.available_space = self.available_space + 1;
                Ok(())
            },
            Err(e) => {
                proof {
                    assert(self.levels@ =~= old(self).levels@);
                }
                Err(e)
            },
        }
    }

    /// Lays an oversized unit down inside one level.
    pub fn add_oversized_item(
        &mut self,
        level_number: usize,
        zone_number: usize,
        item: ProductItem,
    ) -> (r: Result<(), ErrorMessage>)
        requires
            old(self).wf(),
            item.zones_required >= 2,
        ensures
            final(self).wf(),
            final(self).number == old(self).number,
            final(self).cap() == old(self).cap(),
            final(self).levels@.len() == old(self).levels@.len(),
            r is Err ==> final(self).levels@ == old(self).levels@ && final(self).available_space
                == old(self).available_space,
            !(1 <= level_number <= old(self).levels@.len()) ==> r == Err::<(), ErrorMessage>(
                ErrorMessage::LevelNotFound,
            ),
            1 <= level_number <= old(self).levels@.len() ==> {
                let lvl = old(self).levels@[level_number - 1];
                if !(1 <= zone_number <= lvl.zones@.len()) {
                    r == Err::<(), ErrorMessage>(ErrorMessage::ZoneNotFound)
                } else if zone_number - 1 + item.zones_required > lvl.zones@.len() {
                    r == Err::<(), ErrorMessage>(ErrorMessage::InsufficientSpace)
                } else if !spec_run_vacant(lvl.zones@, zone_number - 1, item.zones_required as int) {
                    r == Err::<(), ErrorMessage>(ErrorMessage::ZoneOccupied)
                } else {
                    &&& r is Ok
                    &&& final(self).available_space == old(self).available_space
                        - item.zones_required
                    &&& final(self).levels@ == old(self).levels@.update(
                        level_number - 1,
                        final(self).levels@[level_number - 1],
                    )
                    &&& final(self).levels@[level_number - 1].available_space
                        == lvl.available_space - item.zones_required
                    &&& final(self).levels@[level_number - 1].zones@.len() == lvl.zones@.len()
                    &&& final(self).levels@[level_number - 1].zones@[zone_number - 1].item == Some(
                        crate::zone::ItemPart::ProductStart(
                            item,
                            (zone_number + item.zones_required - 1) as usize,
                        ),
                    )
                    &&& forall|j: int|
                        0 <= j < lvl.zones@.len() && !(zone_number - 1 <= j <= zone_number - 1
                            + item.zones_required - 1) ==> (#[trigger] final(self).levels@[level_number - 1].zones@[j]) == lvl.zones@[j]
                }
            },
    {
        if level_number < 1 || level_number > self.levels.len() {
            return Err(ErrorMessage::LevelNotFound);
        }
        let idx = level_number - 1;
        let ghost before = self.levels@[idx as int];
        let zones_required = item.zones_required;
        let level = &mut self.levels[idx];
        let outcome = level.add_oversized_item(zone_number, item);
        match outcome {
            Ok(()) => {
                proof {
                    lemma_levels_update(old(self).levels@, idx as int, self.levels@[idx as int]);
                    assert(self.levels@ =~= old(self).levels@.update(
                        idx as int,
                        self.levels@[idx as int],
                    ));
                    crate::level::lemma_vacant_count_bound(before.zones@);
                }
                self.available_space = self.available_space - zones_required;
                Ok(())
            },
            Err(e) => {
                proof {
                    assert(self.levels@ =~= old(self).levels@);
                }
                Err(e)
            },
        }
    }

    /// Clears the whole span anchored at (level number, zone number).
    pub fn remove_oversized_item(&mut self, level_number: usize, zone_number: usize) -> (r: Result<
        (),
        ErrorMessage,
    >)
        requires
            old(self).wf(),
        ensures
            final(self).wf(),
            final(self).number == old(self).number,
            final(self).cap() == old(self).cap(),
            final(self).levels@.len() == old(self).levels@.len(),
            r is Err ==> final(self).levels@ == old(self).levels@ && final(self).available_space
                == old(self).available_space,
            !(1 <= level_number <= old(self).levels@.len()) ==> r == Err::<(), ErrorMessage>(
                ErrorMessage::LevelNotFound,
            ),
            1 <= level_number <= old(self).levels@.len() ==> {
                let lvl = old(self).levels@[level_number - 1];
                if !(1 <= zone_number <= lvl.zones@.len()) {
                    r == Err::<(), ErrorMessage>(ErrorMessage::ZoneNotFound)
                } else if lvl.zones@[zone_number - 1].item is None {
                    r == Err::<(), ErrorMessage>(ErrorMessage::ZoneEmpty)
                } else if !(lvl.zones@[zone_number - 1].item matches Some(
                    crate::zone::ItemPart::ProductStart(_, _),
                )) {
                    r == Err::<(), ErrorMessage>(ErrorMessage::NotProductStart)
                } else {
                    let end = crate::level::spec_span_end(lvl.zones@, zone_number as int);
                    &&& r is Ok
                    &&& final(self).available_space == old(self).available_space + (end
                        - zone_number + 1)
                    &&& final(self).levels@ == old(self).levels@.update(
                        level_number - 1,
                        final(self).levels@[level_number - 1],
                    )
                    &&& final(self).levels@[level_number - 1].available_space
                        == lvl.available_space + (end - zone_number + 1)
                    &&& final(self).levels@[level_number - 1].zones@.len() == lvl.zones@.len()
                    &&& forall|j: int|
                        zone_number - 1 <= j <= end - 1 ==> (#[trigger] final(self).levels@[level_number - 1].zones@[j]).item is None
                    &&& forall|j: int|
                        0 <= j < lvl.zones@.len() && !(zone_number - 1 <= j <= end - 1) ==> (
                        #[trigger] final(self).levels@[level_number - 1].zones@[j])
                            == lvl.zones@[j]
                }
            },
    {
        if level_number < 1 || level_number > self.levels.len() {
            return Err(ErrorMessage::LevelNotFound);
        }
        let idx = level_number - 1;
        let ghost before = self.levels@[idx as int];
        let level = &mut self.levels[idx];
        let before_space = level.available_space;
        let outcome = level.remove_oversized_item(zone_number);
        match outcome {
            Ok(()) => {
                proof {
                    assert(crate::level::spec_span_ok_at(before.zones@, zone_number - 1));
                }
                let after_space = self.levels[idx].available_space;
                let freed = after_space - before_space;
                proof {
                    lemma_levels_update(old(self).levels@, idx as int, self.levels@[idx as int]);
                    assert(self.levels@ =~= old(self).levels@.update(
                        idx as int,
                        self.levels@[idx as int],
                    ));
                    lemma_levels_vacant_le_cap(self.levels@);
                }
                self.available_space = self.available_space + freed;
                Ok(())
            },
            Err(e) => {
                proof {
                    assert(self.levels@ =~= old(self).levels@);
                }
                Err(e)
            },
        }
    }

    /// The item that (level number, zone number) resolves to.
    pub fn item(&self, level_number: usize, zone_number: usize) -> (r: Option<&ProductItem>)
        requires
            self.wf(),
        ensures
            match r {
                Some(it) => 1 <= level_number <= self.levels@.len() && spec_item_at(
                    self.levels@[level_number - 1].zones@,
                    zone_number as int,
                ) == Some(*it),
                None => !(1 <= level_number <= self.levels@.len()) || spec_item_at(
                    self.levels@[level_number - 1].zones@,
                    zone_number as int,
                ) is None,
            },
    {
        match self.level(level_number) {
            Some(level) => level.item(zone_number),
            None => None,
        }
    }

    /// Whether some anchor in this shelf carries the product id.
    pub fn contains_product(&self, product_id: u64) -> (r: bool)
        requires
            self.wf(),
        ensures
            r == exists|i: int, j: int|
                0 <= i < self.levels@.len() && 0 <= j < (#[trigger] self.levels@[i]).zones@.len()
                    && (spec_anchor_item(#[trigger] self.levels@[i].zones@[j]) matches Some(it)
                    && it.id == product_id),
    {
        let mut i: usize = 0;
        while i < self.levels.len()
            invariant
                self.wf(),
                i <= self.levels@.len(),
                forall|a: int, b: int|
                    0 <= a < i && 0 <= b < (#[trigger] self.levels@[a]).zones@.len() ==> !(
                    spec_anchor_item(#[trigger] self.levels@[a].zones@[b]) matches Some(it) && it.id
                        == product_id),
            decreases self.levels@.len() - i,
        {
            if self.levels[i].contains_product(product_id) {
                return true;
            }
            i = i + 1;
        }
        false
    }

    /// The first vacant zone as 1-based (level number, zone number).
    pub fn find_vacant_zone(&self) -> (r: Option<(usize, usize)>)
        requires
            self.wf(),
        ensures
            match r {
                Some(found) => 1 <= found.0 <= self.levels@.len() && 1 <= found.1 <= self.levels@[
                    found.0 - 1
                ].zones@.len() && self.levels@[found.0 - 1].zones@[found.1 - 1].is_vacant() && (
                forall|a: int, b: int|
                    0 <= a < found.0 - 1 && 0 <= b < (#[trigger] self.levels@[a]).zones@.len()
                        ==> !(#[trigger] self.levels@[a].zones@[b]).is_vacant()) && (forall|b: int|
                    0 <= b < found.1 - 1 ==> !(#[trigger] self.levels@[found.0 - 1].zones@[
                    b]).is_vacant()),
                None => forall|a: int, b: int|
                    0 <= a < self.levels@.len() && 0 <= b < (#[trigger] self.levels@[a]).zones@.len()
                        ==> !(#[trigger] self.levels@[a].zones@[b]).is_vacant(),
            },
    {
        let mut i: usize = 0;
        while i < self.levels.len()
            invariant
                self.wf(),
                i <= self.levels@.len(),
                forall|a: int, b: int|
                    0 <= a < i && 0 <= b < (#[trigger] self.levels@[a]).zones@.len() ==> !(
                    #[trigger] self.levels@[a].zones@[b]).is_vacant(),
            decreases self.levels@.len() - i,
        {
            match self.levels[i].find_vacant_zone() {
                Some(zone_index) => {
                    proof {
                        lemma_levels_cap_at(self.levels@, i as int);
                    }
                    return Some((i + 1, zone_index + 1));
                },
                None => {},
            }
            i = i + 1;
        }
        None
    }

    /// The first run of `zones_required` vacant zones inside one level, as
    /// 1-based (level number, zone number of the run start).
    pub fn find_oversized_vacant_zone(&self, zones_required: usize) -> (r: Option<(usize, usize)>)
        requires
            self.wf(),
            zones_required >= 1,
        ensures
            match r {
                Some(found) => 1 <= found.0 <= self.levels@.len() && 1 <= found.1 && found.1 - 1
                    + zones_required <= self.levels@[found.0 - 1].zones@.len() && spec_run_vacant(
                    self.levels@[found.0 - 1].zones@,
                    found.1 - 1,
                    zones_required as int,
                ) && (forall|a: int, b: int|
                    0 <= a < found.0 - 1 && 0 <= b <= self.levels@[a].zones@.len() - zones_required
                        ==> !(#[trigger] spec_run_vacant(
                        self.levels@[a].zones@,
                        b,
                        zones_required as int,
                    ))) && (forall|b: int|
                    0 <= b < found.1 - 1 ==> !(#[trigger] spec_run_vacant(
                        self.levels@[found.0 - 1].zones@,
                        b,
                        zones_required as int,
                    ))),
                None => forall|a: int, b: int|
                    0 <= a < self.levels@.len() && 0 <= b <= self.levels@[a].zones@.len()
                        - zones_required ==> !(#[trigger] spec_run_vacant(
                        self.levels@[a].zones@,
                        b,
                        zones_required as int,
                    )),
            },
    {
        let mut i: usize = 0;
        while i < self.levels.len()
            invariant
                self.wf(),
                zones_required >= 1,
                i <= self.levels@.len(),
                forall|a: int, b: int|
                    0 <= a < i && 0 <= b <= self.levels@[a].zones@.len()
                        - zones_required ==> !(#[trigger] spec_run_vacant(
                        self.levels@[a].zones@,
                        b,
                        zones_required as int,
                    )),
            decreases self.levels@.len() - i,
        {
            match self.levels[i].find_oversized_vacant_zone(zones_required) {
                Some(zone_index) => {
                    proof {
                        lemma_levels_cap_at(self.levels@, i as int);
                    }
                    return Some((i + 1, zone_index + 1));
                },
                None => {},
            }
            i = i + 1;
        }
        None
    }

    /// The anchor items of the whole shelf, level after level.
    #[verifier::loop_isolation(false)]
    pub fn items(&self) -> (r: Vec<ProductItem>)
        requires
            self.wf(),
        ensures
            r@ == spec_levels_items(self.levels@),
    {
        let mut out: Vec<ProductItem> = Vec::new();
        let mut i: usize = 0;
        proof {
            assert(self.levels@.take(0) =~= Seq::<Level>::empty());
        }
        while i < self.levels.len()
            invariant
                out@ == spec_levels_items(self.levels@.take(i as int)),
                i <= self.levels@.len(),
            decreases self.levels@.len() - i,
        {
            proof {
                lemma_levels_take_step(self.levels@, i as int);
            }
            let mut part = self.levels[i].items();
            out.append(&mut part);
            i = i + 1;
        }
        proof {
            assert(self.levels@.take(self.levels@.len() as int) =~= self.levels@);
        }
        out
    }
}

impl Shelf {
    /// Translates a 0-based position in this shelf's flat map back into
    /// 1-based (level number, zone number) by walking cumulative capacities.
    #[verifier::loop_isolation(false)]
    pub fn flat_map_position_to_zone(&self, position: usize) -> (r: Option<(usize, usize)>)
        requires
            self.wf(),
        ensures
            match r {
                Some(found) => 1 <= found.0 <= self.levels@.len() && 1 <= found.1 <= self.levels@[
                    found.0 - 1
                ].cap() && position == spec_levels_cap(self.levels@.take(found.0 - 1)) + (found.1
                    - 1),
                None => position >= self.cap(),
            },
    {
        let mut cumulative: usize = 0;
        let mut i: usize = 0;
        while i < self.levels.len()
            invariant
                cumulative == spec_levels_cap(self.levels@.take(i as int)),
                i <= self.levels@.len(),
                position >= cumulative,
            decreases self.levels@.len() - i,
        {
            proof {
                lemma_levels_take_step(self.levels@, i as int);
                lemma_levels_cap_prefix_bound(self.levels@, i as int);
            }
            let level_capacity = self.levels[i].check_capacity();
            if position - cumulative < level_capacity {
                return Some((i + 1, position - cumulative + 1));
            }
            cumulative = cumulative + level_capacity;
            i = i + 1;
        }
        proof {
            assert(self.levels@.take(self.levels@.len() as int) =~= self.levels@);
        }
        None
    }

    /// The oversized flat map of a level is as long as the level itself, so
    /// positions translate exactly as in the plain map; the width parameter
    /// only names the encoding the position was found in.
    pub fn oversized_flat_map_position_to_zone(
        &self,
        position: usize,
        zones_required: usize,
    ) -> (r: Option<(usize, usize)>)
        requires
            self.wf(),
            zones_required >= 1,
        ensures
            match r {
                Some(found) => 1 <= found.0 <= self.levels@.len() && 1 <= found.1 <= self.levels@[
                    found.0 - 1
                ].cap() && position == spec_levels_cap(self.levels@.take(found.0 - 1)) + (found.1
                    - 1),
                None => position >= self.cap(),
            },
    {
        self.flat_map_position_to_zone(position)
    }

    /// The first (lowest level, then lowest zone) anchor carrying the id,
    /// as 1-based (level number, zone number).
    pub fn find_first_item_occurrence(&self, product_id: u64) -> (r: Option<(usize, usize)>)
        requires
            self.wf(),
        ensures
            match r {
                Some(found) => {
                    &&& 1 <= found.0 <= self.levels@.len()
                    &&& 1 <= found.1 <= self.levels@[found.0 - 1].zones@.len()
                    &&& (spec_anchor_item(self.levels@[found.0 - 1].zones@[found.1 - 1]) matches Some(it)
                        && it.id == product_id)
                },
                None => forall|a: int, b: int|
                    0 <= a < self.levels@.len() && 0 <= b < (#[trigger] self.levels@[a]).zones@.len()
                        ==> !(spec_anchor_item(#[trigger] self.levels@[a].zones@[b]) matches Some(
                        it,
                    ) && it.id == product_id),
            },
    {
        let mut i: usize = 0;
        while i < self.levels.len()
            invariant
                self.wf(),
                i <= self.levels@.len(),
                forall|a: int, b: int|
                    0 <= a < i && 0 <= b < (#[trigger] self.levels@[a]).zones@.len() ==> !(
                    spec_anchor_item(#[trigger] self.levels@[a].zones@[b]) matches Some(it) && it.id
                        == product_id),
            decreases self.levels@.len() - i,
        {
            match self.levels[i].find_first_item_occurrence(product_id) {
                Some(zone_index) => {
                    proof {
                        lemma_levels_cap_at(self.levels@, i as int);
                    }
                    return Some((i + 1, zone_index + 1));
                },
                None => {},
            }
            i = i + 1;
        }
        None
    }

    /// The last (highest level, then highest zone) anchor carrying the id,
    /// as 1-based (level number, zone number).
    pub fn find_last_item_occurrence(&self, product_id: u64) -> (r: Option<(usize, usize)>)
        requires
            self.wf(),
        ensures
            match r {
                Some(found) => {
                    &&& 1 <= found.0 <= self.levels@.len()
                    &&& 1 <= found.1 <= self.levels@[found.0 - 1].zones@.len()
                    &&& (spec_anchor_item(self.levels@[found.0 - 1].zones@[found.1 - 1]) matches Some(it)
                        && it.id == product_id)
                },
                None => forall|a: int, b: int|
                    0 <= a < self.levels@.len() && 0 <= b < (#[trigger] self.levels@[a]).zones@.len()
                        ==> !(spec_anchor_item(#[trigger] self.levels@[a].zones@[b]) matches Some(
                        it,
                    ) && it.id == product_id),
            },
    {
        let mut i: usize = self.levels.len();
        while i > 0
            invariant
                self.wf(),
                i <= self.levels@.len(),
                forall|a: int, b: int|
                    i <= a < self.levels@.len() && 0 <= b < (#[trigger] self.levels@[a]).zones@.len()
                        ==> !(spec_anchor_item(#[trigger] self.levels@[a].zones@[b]) matches Some(
                        it,
                    ) && it.id == product_id),
            decreases i,
        {
            i = i - 1;
            match self.levels[i].find_last_item_occurrence(product_id) {
                Some(zone_index) => {
                    proof {
                        lemma_levels_cap_at(self.levels@, i as int);
                    }
                    return Some((i + 1, zone_index + 1));
                },
                None => {},
            }
        }
        None
    }

    /// Every anchor carrying the id, as 1-based (level, zone) pairs in
    /// traversal order.
    #[verifier::loop_isolation(false)]
    pub fn find_all_item_occurences(&self, product_id: u64) -> (r: Vec<(usize, usize)>)
        requires
            self.wf(),
        ensures
            forall|k: int|
                0 <= k < r@.len() ==> 1 <= (#[trigger] r@[k]).0 <= self.levels@.len() && 1
                    <= r@[k].1 <= self.levels@[r@[k].0 - 1].zones@.len() && (spec_anchor_item(
                    self.levels@[r@[k].0 - 1].zones@[r@[k].1 - 1],
                ) matches Some(it) && it.id == product_id),
            forall|a: int, b: int|
                (0 <= a < self.levels@.len() && 0 <= b < (#[trigger] self.levels@[a]).zones@.len()
                    && (spec_anchor_item(#[trigger] self.levels@[a].zones@[b]) matches Some(it)
                    && it.id == product_id)) ==> r@.contains(((a + 1) as usize, (b + 1) as usize)),
    {
        let mut out: Vec<(usize, usize)> = Vec::new();
        let mut a: usize = 0;
        while a < self.levels.len()
            invariant
                a <= self.levels@.len(),
                forall|k: int|
                    0 <= k < out@.len() ==> 1 <= (#[trigger] out@[k]).0 <= self.levels@.len() && 1
                        <= out@[k].1 <= self.levels@[out@[k].0 - 1].zones@.len() && (
                    spec_anchor_item(
                        self.levels@[out@[k].0 - 1].zones@[out@[k].1 - 1],
                    ) matches Some(it) && it.id == product_id),
                forall|x: int, y: int|
                    (0 <= x < a && 0 <= y < (#[trigger] self.levels@[x]).zones@.len() && (
                    spec_anchor_item(#[trigger] self.levels@[x].zones@[y]) matches Some(it) && it.id
                        == product_id)) ==> out@.contains(((x + 1) as usize, (y + 1) as usize)),
            decreases self.levels@.len() - a,
        {
            let mut b: usize = 0;
            while b < self.levels[a].zones.len()
                invariant
                    a < self.levels@.len(),
                    b <= self.levels@[a as int].zones@.len(),
                    forall|k: int|
                        0 <= k < out@.len() ==> 1 <= (#[trigger] out@[k]).0 <= self.levels@.len()
                            && 1 <= out@[k].1 <= self.levels@[out@[k].0 - 1].zones@.len() && (
                        spec_anchor_item(
                            self.levels@[out@[k].0 - 1].zones@[out@[k].1 - 1],
                        ) matches Some(it) && it.id == product_id),
                    forall|x: int, y: int|
                        (0 <= x < a && 0 <= y < (#[trigger] self.levels@[x]).zones@.len() && (
                        spec_anchor_item(#[trigger] self.levels@[x].zones@[y]) matches Some(it)
                            && it.id == product_id)) ==> out@.contains(
                            ((x + 1) as usize, (y + 1) as usize),
                        ),
                    forall|y: int|
                        (0 <= y < b && (spec_anchor_item(
                            #[trigger] self.levels@[a as int].zones@[y],
                        ) matches Some(it) && it.id == product_id)) ==> out@.contains(
                            ((a + 1) as usize, (y + 1) as usize),
                        ),
                decreases self.levels@[a as int].zones@.len() - b,
            {
                let hit = match &self.levels[a].zones[b].item {
                    Some(crate::zone::ItemPart::WholeProduct(it)) => it.id == product_id,
                    Some(crate::zone::ItemPart::ProductStart(it, _)) => it.id == product_id,
                    _ => false,
                };
                if hit {
                    let ghost prev = out@;
                    out.push((a + 1, b + 1));
                    proof {
                        lemma_push_keeps_contents(prev, ((a + 1) as usize, (b + 1) as usize));
                    }
                }
                b = b + 1;
            }
            a = a + 1;
        }
        out
    }
}

/// Pushing onto a sequence keeps everything it contained, and it then
/// contains the pushed value.
pub proof fn lemma_push_keeps_contents<T>(s: Seq<T>, x: T)
    ensures
        forall|y: T| s.contains(y) ==> #[trigger] s.push(x).contains(y),
        s.push(x).contains(x),
{
    assert forall|y: T| s.contains(y) implies #[trigger] s.push(x).contains(y) by {
        let k = choose|k: int| 0 <= k < s.len() && s[k] == y;
        assert(s.push(x)[k] == y);
    }
    assert(s.push(x)[s.len() as int] == x);
}


/// How many oversized units of width `zr` the levels can hold in all.
pub open spec fn spec_levels_ocap(ls: Seq<Level>, zr: nat) -> nat
    decreases ls.len(),
{
    if ls.len() == 0 {
        0
    } else {
        spec_levels_ocap(ls.drop_last(), zr) + if zr >= 1 {
            ls.last().cap() / zr
        } else {
            0
        }
    }
}

/// A shelf holds no more oversized units than zones.
pub proof fn lemma_levels_ocap_le_cap(ls: Seq<Level>, zr: nat)
    requires
        zr >= 1,
    ensures
        spec_levels_ocap(ls, zr) <= spec_levels_cap(ls),
    decreases ls.len(),
{
    if ls.len() > 0 {
        lemma_levels_ocap_le_cap(ls.drop_last(), zr);
    }
}

/// A prefix of the levels never holds more zones than the whole.
pub proof fn lemma_levels_cap_prefix_bound(ls: Seq<Level>, i: int)
    requires
        0 <= i < ls.len(),
    ensures
        spec_levels_cap(ls.take(i + 1)) <= spec_levels_cap(ls),
    decreases ls.len(),
{
    if i + 1 == ls.len() {
        assert(ls.take(i + 1) =~= ls);
    } else {
        lemma_levels_cap_prefix_bound(ls.drop_last(), i);
        assert(ls.drop_last().take(i + 1) =~= ls.take(i + 1));
    }
}

/// One level never holds more zones than its whole shelf.
pub proof fn lemma_levels_cap_at(ls: Seq<Level>, i: int)
    requires
        0 <= i < ls.len(),
    ensures
        ls[i].cap() <= spec_levels_cap(ls),
    decreases ls.len(),
{
    if i < ls.len() - 1 {
        lemma_levels_cap_at(ls.drop_last(), i);
    }
}

/// A run of all-vacant zones has as many vacancies as zones.
pub proof fn lemma_all_vacant_count(zones: Seq<Zone>)
    requires
        forall|i: int| 0 <= i < zones.len() ==> (#[trigger] zones[i]).is_vacant(),
    ensures
        spec_vacant_count(zones) == zones.len(),
    decreases zones.len(),
{
    if zones.len() > 0 {
        lemma_all_vacant_count(zones.drop_last());
    }
}

} // verus!
