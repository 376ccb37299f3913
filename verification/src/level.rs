use vstd::prelude::*;

use crate::messages::ErrorMessage;
use crate::product::ProductItem;
use crate::zone::{spec_anchor_item, ItemPart, Zone};

verus! {

/// One row of zones at a fixed height. The `available_space` counter always
/// equals the number of vacant zones, and multi-zone spans are laid down
/// consistently; `wf` states both.
#[derive(Clone, Debug)]
pub struct Level {
    pub number: usize,
    pub available_space: usize,
    pub zones: Vec<Zone>,
}

/// The occupancy of a run of zones, one bit per zone, `true` for occupied.
pub open spec fn spec_occ(zones: Seq<Zone>) -> Seq<bool> {
    Seq::new(zones.len(), |i: int| !zones[i].is_vacant())
}

/// How many zones of the run are vacant.
pub open spec fn spec_vacant_count(zones: Seq<Zone>) -> nat
    decreases zones.len(),
{
    if zones.len() == 0 {
        0
    } else {
        spec_vacant_count(zones.drop_last()) + if zones.last().is_vacant() {
            1nat
        } else {
            0nat
        }
    }
}

/// The span bookkeeping is sound at position `i` (0-based): a start records
/// its width and is matched by its parts and end, and every fragment points
/// back at a genuine start.
pub open spec fn spec_span_ok_at(zones: Seq<Zone>, i: int) -> bool {
    match zones[i].item {
        None => true,
        Some(ItemPart::WholeProduct(it)) => it.zones_required == 1,
        Some(ItemPart::ProductStart(it, end)) => {
            &&& i + 2 <= end <= zones.len()
            &&& it.zones_required == end - i
            &&& zones[end - 1].item == Some(ItemPart::ProductEnd((i + 1) as usize))
            &&& forall|m: int|
                i + 1 <= m < end - 1 ==> zones[m].item == Some(
                    ItemPart::ProductPart((i + 1) as usize, end),
                )
        },
        Some(ItemPart::ProductPart(st, en)) => {
            &&& 1 <= st && st <= i && i + 2 <= en <= zones.len()
            &&& zones[st - 1].item matches Some(ItemPart::ProductStart(_, e)) && e == en
            &&& st - 1 < i < en - 1
        },
        Some(ItemPart::ProductEnd(st)) => {
            &&& 1 <= st && st - 1 < i < zones.len()
            &&& zones[st - 1].item matches Some(ItemPart::ProductStart(_, e)) && e == i + 1
        },
    }
}

pub open spec fn spec_spans_ok(zones: Seq<Zone>) -> bool {
    forall|i: int| 0 <= i < zones.len() ==> spec_span_ok_at(zones, i)
}

/// The item that zone number `zn` (1-based) resolves to: its own anchor, or
/// the start its fragment points at.
pub open spec fn spec_item_at(zones: Seq<Zone>, zn: int) -> Option<ProductItem> {
    if 1 <= zn <= zones.len() {
        match zones[zn - 1].item {
            None => None,
            Some(ItemPart::WholeProduct(it)) => Some(it),
            Some(ItemPart::ProductStart(it, _)) => Some(it),
            Some(ItemPart::ProductPart(st, _)) => spec_start_item(zones, st as int),
            Some(ItemPart::ProductEnd(st)) => spec_start_item(zones, st as int),
        }
    } else {
        None
    }
}

pub open spec fn spec_start_item(zones: Seq<Zone>, st: int) -> Option<ProductItem> {
    if 1 <= st <= zones.len() {
        match zones[st - 1].item {
            Some(ItemPart::ProductStart(it, _)) => Some(it),
            _ => None,
        }
    } else {
        None
    }
}

/// The anchor items of the run, in zone order.
pub open spec fn spec_items_of(zones: Seq<Zone>) -> Seq<ProductItem>
    decreases zones.len(),
{
    if zones.len() == 0 {
        Seq::empty()
    } else {
        spec_items_of(zones.drop_last()) + match spec_anchor_item(zones.last()) {
            Some(it) => seq![it],
            None => Seq::empty(),
        }
    }
}

/// Zones `i <= m < i + n` (0-based) are all vacant.
pub open spec fn spec_run_vacant(zones: Seq<Zone>, i: int, n: int) -> bool {
    forall|m: int| i <= m < i + n ==> zones[m].is_vacant()
}

pub proof fn lemma_vacant_count_bound(zones: Seq<Zone>)
    ensures
        spec_vacant_count(zones) <= zones.len(),
    decreases zones.len(),
{
    if zones.len() > 0 {
        lemma_vacant_count_bound(zones.drop_last());
    }
}

pub proof fn lemma_vacant_count_update(zones: Seq<Zone>, i: int, z: Zone)
    requires
        0 <= i < zones.len(),
    ensures
        spec_vacant_count(zones.update(i, z)) == spec_vacant_count(zones) - (
        if zones[i].is_vacant() {
            1int
        } else {
            0int
        }) + (if z.is_vacant() {
            1int
        } else {
            0int
        }),
    decreases zones.len(),
{
    let updated = zones.update(i, z);
    if i == zones.len() - 1 {
        assert(updated.drop_last() =~= zones.drop_last());
    } else {
        lemma_vacant_count_update(zones.drop_last(), i, z);
        assert(updated.drop_last() =~= zones.drop_last().update(i, z));
    }
}

pub proof fn lemma_vacant_count_at(zones: Seq<Zone>, i: int)
    requires
        0 <= i < zones.len(),
    ensures
        zones[i].is_vacant() ==> spec_vacant_count(zones) >= 1,
        !zones[i].is_vacant() ==> spec_vacant_count(zones) <= zones.len() - 1,
    decreases zones.len(),
{
    lemma_vacant_count_bound(zones.drop_last());
    if i < zones.len() - 1 {
        lemma_vacant_count_at(zones.drop_last(), i);
    }
}

/// One step of collecting anchor items over a growing prefix.
pub proof fn lemma_items_take_step(zones: Seq<Zone>, i: int)
    requires
        0 <= i < zones.len(),
    ensures
        spec_items_of(zones.take(i + 1)) == spec_items_of(zones.take(i)) + match spec_anchor_item(
            zones[i],
        ) {
            Some(it) => seq![it],
            None => Seq::empty(),
        },
{
    assert(zones.take(i + 1).drop_last() =~= zones.take(i));
    assert(zones.take(i + 1).last() == zones[i]);
}

impl Level {
    pub open spec fn cap(self) -> nat {
        self.zones@.len()
    }

    /// Zone numbers are the 1-based positions.
    pub open spec fn numbered(self) -> bool {
        forall|i: int| 0 <= i < self.zones@.len() ==> (#[trigger] self.zones@[i].number) == i + 1
    }

    pub open spec fn wf(self) -> bool {
        &&& self.numbered()
        &&& self.available_space == spec_vacant_count(self.zones@)
        &&& spec_spans_ok(self.zones@)
    }

    pub fn new(number: usize) -> (r: Level)
        ensures
            r.number == number,
            r.available_space == 0,
            r.wf(),
            r.cap() == 0,
    {
        Level { number, zones: Vec::new(), available_space: 0 }
    }

    /// Appends one vacant zone; its number must continue the 1-based order.
    pub fn add_zone(&mut self, zone: Zone)
        requires
            old(self).wf(),
            zone.number == old(self).zones@.len() + 1,
            zone.is_vacant(),
            old(self).zones@.len() < usize::MAX,
        ensures
            final(self).wf(),
            final(self).zones@ == old(self).zones@.push(zone),
            final(self).number == old(self).number,
            final(self).available_space == old(self).available_space + 1,
    {
        proof {
            lemma_vacant_count_bound(self.zones@);
        }
        self.zones.push(zone);
        self.available_space = self.available_space + 1;
        proof {
            assert(self.zones@.drop_last() =~= old(self).zones@);
            assert forall|i: int| 0 <= i < self.zones@.len() implies spec_span_ok_at(
                self.zones@,
                i,
            ) by {
                if i < old(self).zones@.len() {
                    assert(spec_span_ok_at(old(self).zones@, i));
                }
            }
        }
    }

    pub fn initialize_zones(&mut self, zone_count: usize)
        requires
            old(self).wf(),
            old(self).zones@.len() == 0,
            zone_count < usize::MAX,
        ensures
            final(self).wf(),
            final(self).number == old(self).number,
            final(self).zones@.len() == zone_count,
            final(self).available_space == zone_count,
            forall|i: int| 0 <= i < zone_count ==> final(self).zones@[i].is_vacant(),
    {
        for i in 1..zone_count + 1
            invariant
                self.wf(),
                self.number == old(self).number,
                self.zones@.len() == i - 1,
                self.available_space == i - 1,
                zone_count < usize::MAX,
                forall|j: int| 0 <= j < i - 1 ==> self.zones@[j].is_vacant(),
        {
            let zone = Zone::new(i, None);
            self.add_zone(zone);
        }
    }

    /// The zone carrying the 1-based number, if it exists.
    pub fn zone(&self, zone_number: usize) -> (r: Option<&Zone>)
        requires
            self.wf(),
        ensures
            match r {
                Some(z) => 1 <= zone_number <= self.zones@.len() && *z == self.zones@[
                    zone_number - 1
                ],
                None => !(1 <= zone_number <= self.zones@.len()),
            },
    {
        if 1 <= zone_number && zone_number <= self.zones.len() {
            Some(&self.zones[zone_number - 1])
        } else {
            None
        }
    }

    pub fn is_full(&self) -> (r: bool)
        ensures
            r == (self.available_space == 0),
    {
        self.available_space == 0
    }

    pub fn is_empty(&self) -> (r: bool)
        requires
            self.wf(),
        ensures
            r == spec_run_vacant(self.zones@, 0, self.zones@.len() as int),
    {
        let mut i: usize = 0;
        while i < self.zones.len()
            invariant
                i <= self.zones@.len(),
                forall|j: int| 0 <= j < i ==> self.zones@[j].is_vacant(),
            decreases self.zones@.len() - i,
        {
            if !self.zones[i].is_empty() {
                return false;
            }
            i = i + 1;
        }
        true
    }

    pub fn check_capacity(&self) -> (r: usize)
        ensures
            r == self.cap(),
    {
        self.zones.len()
    }

    pub fn check_oversized_capacity(&self, zones_required: usize) -> (r: usize)
        requires
            zones_required >= 1,
        ensures
            r == self.cap() / zones_required as nat,
    {
        self.zones.len() / zones_required
    }

    /// The occupancy of this level, one bit per zone in order.
    pub fn flat_map(&self) -> (r: Vec<bool>)
        ensures
            r@ == spec_occ(self.zones@),
    {
        let mut out: Vec<bool> = Vec::new();
        let mut i: usize = 0;
        while i < self.zones.len()
            invariant
                i <= self.zones@.len(),
                out@.len() == i,
                forall|j: int| 0 <= j < i ==> out@[j] == !self.zones@[j].is_vacant(),
            decreases self.zones@.len() - i,
        {
            out.push(!self.zones[i].is_empty());
            i = i + 1;
        }
        proof {
            assert(out@ =~= spec_occ(self.zones@));
        }
        out
    }

    /// Stores a single-zone unit at the zone with the given number.
    pub fn add_item(&mut self, zone_number: usize, item: ProductItem) -> (r: Result<
        (),
        ErrorMessage,
    >)
        requires
            old(self).wf(),
            item.zones_required == 1,
        ensures
            final(self).wf(),
            final(self).number == old(self).number,
            final(self).cap() == old(self).cap(),
            !(1 <= zone_number <= old(self).zones@.len()) ==> r == Err::<(), ErrorMessage>(
                ErrorMessage::ZoneNotFound,
            ) && *final(self) == *old(self),
            1 <= zone_number <= old(self).zones@.len() && !old(self).zones@[zone_number - 1].is_vacant()
                ==> r == Err::<(), ErrorMessage>(ErrorMessage::ZoneOccupied) && *final(self)
                == *old(self),
            1 <= zone_number <= old(self).zones@.len() && old(self).zones@[zone_number - 1].is_vacant()
                ==> r is Ok && final(self).zones@ == old(self).zones@.update(
                zone_number - 1,
                (Zone { number: zone_number, item: Some(ItemPart::WholeProduct(item)) }),
            ) && final(self).available_space == old(self).available_space - 1,
    {
        if zone_number < 1 || zone_number > self.zones.len() {
            return Err(ErrorMessage::ZoneNotFound);
        }
        let idx = zone_number - 1;
        if !self.zones[idx].is_empty() {
            return Err(ErrorMessage::ZoneOccupied);
        }
        let filled = Zone { number: zone_number, item: Some(ItemPart::WholeProduct(item)) };
        proof {
            lemma_vacant_count_at(self.zones@, idx as int);
            lemma_vacant_count_update(self.zones@, idx as int, filled);
        }
        self.zones.set(idx, filled);
        self.available_space = self.available_space - 1;
        proof {
            assert forall|i: int| 0 <= i < self.zones@.len() implies spec_span_ok_at(
                self.zones@,
                i,
            ) by {
                assert(spec_span_ok_at(old(self).zones@, i));
            }
        }
        Ok(())
    }

    /// Clears a single-zone unit at the zone with the given number.
    pub fn remove_item(&mut self, zone_number: usize) -> (r: Result<(), ErrorMessage>)
        requires
            old(self).wf(),
        ensures
            final(self).wf(),
            final(self).number == old(self).number,
            final(self).cap() == old(self).cap(),
            r is Err ==> *final(self) == *old(self),
            !(1 <= zone_number <= old(self).zones@.len()) ==> r == Err::<(), ErrorMessage>(
                ErrorMessage::ZoneNotFound,
            ),
            1 <= zone_number <= old(self).zones@.len() ==> match old(self).zones@[zone_number - 1].item {
                None => r == Err::<(), ErrorMessage>(ErrorMessage::ZoneEmpty),
                Some(ItemPart::WholeProduct(_)) => r is Ok && final(self).zones@ == old(
                    self,
                ).zones@.update(
                    zone_number - 1,
                    (Zone { number: zone_number, item: None }),
                ) && final(self).available_space == old(self).available_space + 1,
                Some(_) => r == Err::<(), ErrorMessage>(ErrorMessage::CannotRemovePart),
            },
    {
        if zone_number < 1 || zone_number > self.zones.len() {
            return Err(ErrorMessage::ZoneNotFound);
        }
        let idx = zone_number - 1;
        match self.zones[idx].item {
            None => Err(ErrorMessage::ZoneEmpty),
            Some(ItemPart::WholeProduct(_)) => {
                let cleared = Zone { number: zone_number, item: None };
                proof {
                    lemma_vacant_count_at(self.zones@, idx as int);
                    lemma_vacant_count_update(self.zones@, idx as int, cleared);
                }
                self.zones.set(idx, cleared);
                self.available_space = self.available_space + 1;
                proof {
                    assert forall|i: int| 0 <= i < self.zones@.len() implies spec_span_ok_at(
                        self.zones@,
                        i,
                    ) by {
                        assert(spec_span_ok_at(old(self).zones@, i));
                    }
                }
                Ok(())
            },
            Some(_) => Err(ErrorMessage::CannotRemovePart),
        }
    }

    /// Checks that a span of `zones_required` zones starting at zone number
    /// `zone_number` lies inside the level and is entirely vacant.
    pub(crate) fn check_if_fits(&self, zone_number: usize, zones_required: usize) -> (r: Result<
        (),
        ErrorMessage,
    >)
        requires
            self.wf(),
            zones_required >= 1,
        ensures
            !(1 <= zone_number <= self.zones@.len()) ==> r == Err::<(), ErrorMessage>(
                ErrorMessage::ZoneNotFound,
            ),
            1 <= zone_number <= self.zones@.len() && zone_number - 1 + zones_required
                > self.zones@.len() ==> r == Err::<(), ErrorMessage>(
                ErrorMessage::InsufficientSpace,
            ),
            1 <= zone_number && zone_number - 1 + zones_required <= self.zones@.len() ==> {
                if spec_run_vacant(self.zones@, zone_number - 1, zones_required as int) {
                    r is Ok
                } else {
                    r == Err::<(), ErrorMessage>(ErrorMessage::ZoneOccupied)
                }
            },
    {
        if zone_number < 1 || zone_number > self.zones.len() {
            return Err(ErrorMessage::ZoneNotFound);
        }
        if zones_required > self.zones.len() - (zone_number - 1) {
            return Err(ErrorMessage::InsufficientSpace);
        }
        let start = zone_number - 1;
        let limit = start + zones_required;
        for idx in start..limit
            invariant
                self.wf(),
                start == zone_number - 1,
                limit == start + zones_required,
                limit <= self.zones@.len(),
                forall|m: int| start <= m < idx ==> self.zones@[m].is_vacant(),
        {
            if !self.zones[idx].is_empty() {
                return Err(ErrorMessage::ZoneOccupied);
            }
        }
        Ok(())
    }

    /// Lays one oversized unit down as a span: the start carries the item,
    /// interior fragments and the end point back at it.
    pub fn add_oversized_item(&mut self, zone_number: usize, item: ProductItem) -> (r: Result<
        (),
        ErrorMessage,
    >)
        requires
            old(self).wf(),
            item.zones_required >= 2,
        ensures
            final(self).wf(),
            final(self).number == old(self).number,
            final(self).cap() == old(self).cap(),
            r is Err ==> *final(self) == *old(self),
            !(1 <= zone_number <= old(self).zones@.len()) ==> r == Err::<(), ErrorMessage>(
                ErrorMessage::ZoneNotFound,
            ),
            1 <= zone_number <= old(self).zones@.len() && zone_number - 1 + item.zones_required
                > old(self).zones@.len() ==> r == Err::<(), ErrorMessage>(
                ErrorMessage::InsufficientSpace,
            ),
            1 <= zone_number && zone_number - 1 + item.zones_required <= old(self).zones@.len()
                ==> {
                if spec_run_vacant(old(self).zones@, zone_number - 1, item.zones_required as int) {
                    r is Ok
                } else {
                    r == Err::<(), ErrorMessage>(ErrorMessage::ZoneOccupied)
                }
            },
            r is Ok ==> {
                let zr = item.zones_required as int;
                let last = zone_number + zr - 1;
                &&& final(self).available_space == old(self).available_space - zr
                &&& final(self).zones@[zone_number - 1].item == Some(
                    ItemPart::ProductStart(item, (zone_number + item.zones_required - 1) as usize),
                )
                &&& forall|j: int|
                    zone_number - 1 < j < last - 1 ==> final(self).zones@[j].item == Some(
                        ItemPart::ProductPart(
                            zone_number,
                            (zone_number + item.zones_required - 1) as usize,
                        ),
                    )
                &&& final(self).zones@[last - 1].item == Some(ItemPart::ProductEnd(zone_number))
                &&& forall|j: int|
                    0 <= j < old(self).zones@.len() && !(zone_number - 1 <= j <= last - 1)
                        ==> final(self).zones@[j] == old(self).zones@[j]
            },
    {
        let zones_required = item.zones_required;
        match self.check_if_fits(zone_number, zones_required) {
            Ok(()) => {},
            Err(e) => {
                return Err(e);
            },
        }
        let total = self.zones.len();
        proof {
            assert(1 <= zone_number && zone_number - 1 + zones_required <= total
                && spec_run_vacant(self.zones@, zone_number - 1, zones_required as int));
        }
        let last = zone_number - 1 + zones_required;  // the last zone number of the span
        let start_zone = Zone {
            number: zone_number,
            item: Some(ItemPart::ProductStart(item, last)),
        };
        proof {
            lemma_vacant_count_at(self.zones@, zone_number - 1);
            lemma_vacant_count_update(self.zones@, zone_number - 1, start_zone);
        }
        self.zones.set(zone_number - 1, start_zone);
        for idx in zone_number..(last - 1)
            invariant
                old(self).wf(),
                zone_number >= 1,
                zones_required == item.zones_required,
                last == zone_number - 1 + zones_required,
                zones_required >= 2,
                last <= old(self).zones@.len(),
                spec_run_vacant(old(self).zones@, zone_number - 1, zones_required as int),
                self.zones@.len() == old(self).zones@.len(),
                self.number == old(self).number,
                self.available_space == old(self).available_space,
                self.zones@[zone_number - 1] == start_zone,
                forall|j: int|
                    zone_number - 1 < j < idx ==> self.zones@[j] == (Zone {
                        number: (j + 1) as usize,
                        item: Some(ItemPart::ProductPart(zone_number, last)),
                    }),
                forall|j: int|
                    0 <= j < self.zones@.len() && !(zone_number - 1 <= j < idx)
                        ==> self.zones@[j] == old(self).zones@[j],
                spec_vacant_count(self.zones@) == spec_vacant_count(old(self).zones@) - (idx
                    - zone_number) - 1,
        {
            let part_zone = Zone {
                number: idx + 1,
                item: Some(ItemPart::ProductPart(zone_number, last)),
            };
            proof {
                lemma_vacant_count_update(self.zones@, idx as int, part_zone);
            }
            self.zones.set(idx, part_zone);
        }
        let end_zone = Zone { number: last, item: Some(ItemPart::ProductEnd(zone_number)) };
        proof {
            lemma_vacant_count_update(self.zones@, last - 1, end_zone);
        }
        self.zones.set(last - 1, end_zone);
        proof {
            lemma_vacant_count_bound(old(self).zones@);
        }
        self.available_space = self.available_space - zones_required;
        proof {
            assert forall|j: int| 0 <= j < self.zones@.len() implies spec_span_ok_at(
                self.zones@,
                j,
            ) by {
                if j < zone_number - 1 || j > last - 1 {
                    assert(spec_span_ok_at(old(self).zones@, j));
                    assert(old(self).zones@[j].item is Some ==> self.zones@[j] == old(
                        self,
                    ).zones@[j]);
                }
            }
        }
        Ok(())
    }

    /// Clears the whole span anchored at the given zone number. A zone that
    /// is not a span's start answers `NotProductStart`; an empty one,
    /// `ZoneEmpty`.
    pub fn remove_oversized_item(&mut self, zone_number: usize) -> (r: Result<(), ErrorMessage>)
        requires
            old(self).wf(),
        ensures
            final(self).wf(),
            final(self).number == old(self).number,
            final(self).cap() == old(self).cap(),
            r is Err ==> *final(self) == *old(self),
            !(1 <= zone_number <= old(self).zones@.len()) ==> r == Err::<(), ErrorMessage>(
                ErrorMessage::ZoneNotFound,
            ),
            1 <= zone_number <= old(self).zones@.len() ==> match old(self).zones@[zone_number
                - 1].item {
                None => r == Err::<(), ErrorMessage>(ErrorMessage::ZoneEmpty),
                Some(ItemPart::ProductStart(_, _)) => r is Ok,
                Some(_) => r == Err::<(), ErrorMessage>(ErrorMessage::NotProductStart),
            },
            r is Ok <==> 1 <= zone_number <= old(self).zones@.len() && old(self).zones@[zone_number
                - 1].item matches Some(ItemPart::ProductStart(_, _)),
            r is Ok ==> {
                let end = spec_span_end(old(self).zones@, zone_number as int);
                &&& final(self).available_space == old(self).available_space + (end - zone_number
                    + 1)
                &&& forall|j: int|
                    zone_number - 1 <= j <= end - 1 ==> (#[trigger] final(self).zones@[j]).item
                        is None
                &&& forall|j: int|
                    0 <= j < old(self).zones@.len() && !(zone_number - 1 <= j <= end - 1)
                        ==> final(self).zones@[j] == old(self).zones@[j]
            },
    {
        let total = self.zones.len();
        if zone_number < 1 || zone_number > total {
            return Err(ErrorMessage::ZoneNotFound);
        }
        let end = match self.zones[zone_number - 1].item {
            None => {
                return Err(ErrorMessage::ZoneEmpty);
            },
            Some(ItemPart::ProductStart(_, last_zone)) => last_zone,
            Some(_) => {
                return Err(ErrorMessage::NotProductStart);
            },
        };
        let start = zone_number;
        {
            {
                proof {
                    assert(spec_span_ok_at(self.zones@, zone_number - 1));
                    assert(end <= total);
                }
                for idx in (start - 1)..end
                    invariant
                        old(self).wf(),
                        start == zone_number,
                        1 <= start,
                        start + 1 <= end <= old(self).zones@.len(),
                        old(self).zones@[start - 1].item matches Some(
                            ItemPart::ProductStart(_, e),
                        ) && e == end,
                        spec_span_ok_at(old(self).zones@, start - 1),
                        self.zones@.len() == old(self).zones@.len(),
                        self.number == old(self).number,
                        self.available_space == old(self).available_space,
                        forall|j: int|
                            start - 1 <= j < idx ==> (#[trigger] self.zones@[j]) == (Zone {
                                number: (j + 1) as usize,
                                item: None,
                            }),
                        forall|j: int|
                            0 <= j < self.zones@.len() && !(start - 1 <= j < idx)
                                ==> self.zones@[j] == old(self).zones@[j],
                        spec_vacant_count(self.zones@) == spec_vacant_count(old(self).zones@) + (
                        idx - (start - 1)),
                {
                    let cleared = Zone { number: idx + 1, item: None };
                    proof {
                        assert(self.zones@[idx as int] == old(self).zones@[idx as int]);
                        assert(spec_span_ok_at(old(self).zones@, start - 1));
                        assert(!old(self).zones@[idx as int].is_vacant());
                        assert(old(self).zones@[idx as int].number == idx + 1);
                        lemma_vacant_count_update(self.zones@, idx as int, cleared);
                    }
                    self.zones.set(idx, cleared);
                }
                proof {
                    lemma_vacant_count_bound(self.zones@);
                }
                self.available_space = self.available_space + (end - start + 1);
                proof {
                    assert forall|j: int| 0 <= j < self.zones@.len() implies spec_span_ok_at(
                        self.zones@,
                        j,
                    ) by {
                        if j < start - 1 || j > end - 1 {
                            lemma_span_ok_after_clear(
                                old(self).zones@,
                                self.zones@,
                                j,
                                start as int,
                                end as int,
                            );
                        }
                    }
                }
                Ok(())
            }
        }
    }
}

impl Level {
    /// A 0-based position in this level's flat map is the 0-based zone
    /// position itself.
    pub fn flat_map_position_to_zone(&self, position: usize) -> (r: Option<usize>)
        ensures
            match r {
                Some(p) => p == position && position < self.zones@.len(),
                None => position >= self.zones@.len(),
            },
    {
        if position < self.zones.len() {
            Some(position)
        } else {
            None
        }
    }

    /// As the plain mapping: the oversized map keeps the level's length.
    pub fn oversized_flat_map_position_to_zone(
        &self,
        position: usize,
        zones_required: usize,
    ) -> (r: Option<usize>)
        requires
            zones_required >= 1,
        ensures
            match r {
                Some(p) => p == position && position < self.zones@.len(),
                None => position >= self.zones@.len(),
            },
    {
        if position < self.zones.len() {
            Some(position)
        } else {
            None
        }
    }

    /// The first vacant zone, as a 0-based position.
    pub fn find_vacant_zone(&self) -> (r: Option<usize>)
        ensures
            match r {
                Some(i) => i < self.zones@.len() && self.zones@[i as int].is_vacant() && forall|
                    j: int,
                |
                    0 <= j < i ==> !self.zones@[j].is_vacant(),
                None => forall|j: int| 0 <= j < self.zones@.len() ==> !self.zones@[j].is_vacant(),
            },
    {
        let mut i: usize = 0;
        while i < self.zones.len()
            invariant
                i <= self.zones@.len(),
                forall|j: int| 0 <= j < i ==> !self.zones@[j].is_vacant(),
            decreases self.zones@.len() - i,
        {
            if self.zones[i].is_empty() {
                return Some(i);
            }
            i = i + 1;
        }
        None
    }

    /// The first 0-based position where `zones_required` consecutive zones
    /// are all vacant.
    #[verifier::loop_isolation(false)]
    pub fn find_oversized_vacant_zone(&self, zones_required: usize) -> (r: Option<usize>)
        requires
            zones_required >= 1,
        ensures
            match r {
                Some(i) => i + zones_required <= self.zones@.len() && spec_run_vacant(
                    self.zones@,
                    i as int,
                    zones_required as int,
                ) && forall|j: int|
                    0 <= j < i ==> !spec_run_vacant(self.zones@, j, zones_required as int),
                None => forall|j: int|
                    0 <= j <= self.zones@.len() - zones_required ==> !spec_run_vacant(
                        self.zones@,
                        j,
                        zones_required as int,
                    ),
            },
    {
        if zones_required > self.zones.len() {
            return None;
        }
        let last_start = self.zones.len() - zones_required;
        let mut i: usize = 0;
        while i <= last_start
            invariant
                last_start == self.zones@.len() - zones_required,
                zones_required >= 1,
                i <= last_start + 1,
                forall|j: int| 0 <= j < i ==> !spec_run_vacant(self.zones@, j, zones_required as int),
            decreases last_start + 1 - i,
        {
            let mut all_vacant = true;
            let mut k: usize = 0;
            while k < zones_required
                invariant
                    i + zones_required <= self.zones@.len(),
                    k <= zones_required,
                    all_vacant == (forall|m: int| i <= m < i + k ==> self.zones@[m].is_vacant()),
                decreases zones_required - k,
            {
                if !self.zones[i + k].is_empty() {
                    all_vacant = false;
                }
                k = k + 1;
            }
            if all_vacant {
                return Some(i);
            }
            i = i + 1;
        }
        None
    }

    /// The item that the zone with the given number resolves to.
    pub fn item(&self, zone_number: usize) -> (r: Option<&ProductItem>)
        requires
            self.wf(),
        ensures
            match r {
                Some(it) => spec_item_at(self.zones@, zone_number as int) == Some(*it),
                None => spec_item_at(self.zones@, zone_number as int) is None,
            },
    {
        if zone_number < 1 || zone_number > self.zones.len() {
            return None;
        }
        match &self.zones[zone_number - 1].item {
            None => None,
            Some(ItemPart::WholeProduct(it)) => Some(it),
            Some(ItemPart::ProductStart(it, _)) => Some(it),
            Some(ItemPart::ProductPart(st, _)) | Some(ItemPart::ProductEnd(st)) => {
                let anchor = *st;
                if anchor < 1 || anchor > self.zones.len() {
                    return None;
                }
                match &self.zones[anchor - 1].item {
                    Some(ItemPart::ProductStart(it, _)) => Some(it),
                    _ => None,
                }
            },
        }
    }

    /// Whether some anchor in this level carries the product id.
    pub fn contains_product(&self, product_id: u64) -> (r: bool)
        ensures
            r == exists|i: int|
                0 <= i < self.zones@.len() && (spec_anchor_item(#[trigger] self.zones@[i]) matches Some(it)
                    && it.id == product_id),
    {
        let mut i: usize = 0;
        while i < self.zones.len()
            invariant
                i <= self.zones@.len(),
                forall|j: int|
                    0 <= j < i ==> !(spec_anchor_item(#[trigger] self.zones@[j]) matches Some(it)
                        && it.id == product_id),
            decreases self.zones@.len() - i,
        {
            match &self.zones[i].item {
                Some(ItemPart::WholeProduct(it)) => {
                    if it.id == product_id {
                        return true;
                    }
                },
                Some(ItemPart::ProductStart(it, _)) => {
                    if it.id == product_id {
                        return true;
                    }
                },
                _ => {},
            }
            i = i + 1;
        }
        false
    }

    /// The first 0-based position whose anchor carries the product id.
    pub fn find_first_item_occurrence(&self, product_id: u64) -> (r: Option<usize>)
        ensures
            match r {
                Some(i) => i < self.zones@.len() && (spec_anchor_item(self.zones@[i as int]) matches Some(it)
                    && it.id == product_id) && forall|j: int|
                    0 <= j < i ==> !(spec_anchor_item(#[trigger] self.zones@[j]) matches Some(it)
                        && it.id == product_id),
                None => forall|j: int|
                    0 <= j < self.zones@.len() ==> !(spec_anchor_item(#[trigger] self.zones@[j]) matches Some(it)
                        && it.id == product_id),
            },
    {
        let mut i: usize = 0;
        while i < self.zones.len()
            invariant
                i <= self.zones@.len(),
                forall|j: int|
                    0 <= j < i ==> !(spec_anchor_item(#[trigger] self.zones@[j]) matches Some(it)
                        && it.id == product_id),
            decreases self.zones@.len() - i,
        {
            match &self.zones[i].item {
                Some(ItemPart::WholeProduct(it)) => {
                    if it.id == product_id {
                        return Some(i);
                    }
                },
                Some(ItemPart::ProductStart(it, _)) => {
                    if it.id == product_id {
                        return Some(i);
                    }
                },
                _ => {},
            }
            i = i + 1;
        }
        None
    }

    /// The last 0-based position whose anchor carries the product id.
    pub fn find_last_item_occurrence(&self, product_id: u64) -> (r: Option<usize>)
        ensures
            match r {
                Some(i) => i < self.zones@.len() && (spec_anchor_item(self.zones@[i as int]) matches Some(it)
                    && it.id == product_id) && forall|j: int|
                    i < j < self.zones@.len() ==> !(spec_anchor_item(#[trigger] self.zones@[j]) matches Some(it)
                        && it.id == product_id),
                None => forall|j: int|
                    0 <= j < self.zones@.len() ==> !(spec_anchor_item(#[trigger] self.zones@[j]) matches Some(it)
                        && it.id == product_id),
            },
    {
        let mut i: usize = self.zones.len();
        while i > 0
            invariant
                i <= self.zones@.len(),
                forall|j: int|
                    i <= j < self.zones@.len() ==> !(spec_anchor_item(#[trigger] self.zones@[j]) matches Some(it)
                        && it.id == product_id),
            decreases i,
        {
            i = i - 1;
            match &self.zones[i].item {
                Some(ItemPart::WholeProduct(it)) => {
                    if it.id == product_id {
                        return Some(i);
                    }
                },
                Some(ItemPart::ProductStart(it, _)) => {
                    if it.id == product_id {
                        return Some(i);
                    }
                },
                _ => {},
            }
        }
        None
    }

    /// Every 0-based position whose anchor carries the product id, ascending.
    #[verifier::loop_isolation(false)]
    pub fn find_all_item_occurences(&self, product_id: u64) -> (r: Vec<usize>)
        ensures
            forall|k: int|
                0 <= k < r@.len() ==> r@[k] < self.zones@.len() && (spec_anchor_item(
                    self.zones@[#[trigger] r@[k] as int],
                ) matches Some(it) && it.id == product_id),
            forall|j: int|
                (0 <= j < self.zones@.len() && (spec_anchor_item(#[trigger] self.zones@[j]) matches Some(it)
                    && it.id == product_id)) ==> r@.contains(j as usize),
            forall|k1: int, k2: int| 0 <= k1 < k2 < r@.len() ==> r@[k1] < r@[k2],
    {
        let mut out: Vec<usize> = Vec::new();
        let mut i: usize = 0;
        while i < self.zones.len()
            invariant
                i <= self.zones@.len(),
                forall|k: int|
                    0 <= k < out@.len() ==> out@[k] < i && (spec_anchor_item(
                        self.zones@[#[trigger] out@[k] as int],
                    ) matches Some(it) && it.id == product_id),
                forall|j: int|
                    (0 <= j < i && (spec_anchor_item(#[trigger] self.zones@[j]) matches Some(it)
                        && it.id == product_id)) ==> out@.contains(j as usize),
                forall|k1: int, k2: int| 0 <= k1 < k2 < out@.len() ==> out@[k1] < out@[k2],
            decreases self.zones@.len() - i,
        {
            let hit = match &self.zones[i].item {
                Some(ItemPart::WholeProduct(it)) => it.id == product_id,
                Some(ItemPart::ProductStart(it, _)) => it.id == product_id,
                _ => false,
            };
            if hit {
                let ghost prev = out@;
                out.push(i);
                proof {
                    assert forall|j: int|
                        0 <= j < i + 1 && (spec_anchor_item(#[trigger] self.zones@[j]) matches Some(
                            it,
                        ) && it.id == product_id) implies out@.contains(j as usize) by {
                        if j < i {
                            assert(prev.contains(j as usize));
                            let k = choose|k: int| 0 <= k < prev.len() && prev[k] == j as usize;
                            assert(out@[k] == j as usize);
                        } else {
                            assert(out@[out@.len() - 1] == j as usize);
                        }
                    }
                }
            }
            i = i + 1;
        }
        out
    }

    /// The anchor items of this level, in zone order.
    pub fn items(&self) -> (r: Vec<ProductItem>)
        ensures
            r@ == spec_items_of(self.zones@),
    {
        let mut out: Vec<ProductItem> = Vec::new();
        let mut i: usize = 0;
        while i < self.zones.len()
            invariant
                i <= self.zones@.len(),
                out@ == spec_items_of(self.zones@.take(i as int)),
            decreases self.zones@.len() - i,
        {
            proof {
                lemma_items_take_step(self.zones@, i as int);
            }
            match &self.zones[i].item {
                Some(ItemPart::WholeProduct(it)) => {
                    out.push(*it);
                },
                Some(ItemPart::ProductStart(it, _)) => {
                    out.push(*it);
                },
                _ => {},
            }
            i = i + 1;
        }
        proof {
            assert(self.zones@.take(self.zones@.len() as int) =~= self.zones@);
        }
        out
    }

    /// This level's occupancy with every greedy block of `zones_required`
    /// vacant zones turned into a fits-here marker.
    pub fn oversized_flat_map(&self, zones_required: usize) -> (r: Vec<u8>)
        requires
            zones_required >= 1,
        ensures
            r@ == spec_oversized_map(spec_occ(self.zones@), zones_required as nat),
    {
        let plain = self.flat_map();
        oversized_map_of(&plain, zones_required)
    }
}

/// The occupancy map re-read for spans of width `zr`, one mark per zone:
/// `OCCUPIED` for an occupied zone, `FITS_HERE` where a greedy block of `zr`
/// vacant zones begins, and `VACANT` for the covered or leftover vacant
/// zones. The length never changes.
pub open spec fn spec_oversized_map(m: Seq<bool>, zr: nat) -> Seq<u8>
    decreases m.len(),
    when zr >= 1
{
    if m.len() == 0 {
        Seq::empty()
    } else if m.len() >= zr && (forall|j: int| 0 <= j < zr ==> !m[j]) {
        seq![FITS_HERE] + Seq::new((zr - 1) as nat, |j: int| VACANT) + spec_oversized_map(
            m.skip(zr as int),
            zr,
        )
    } else {
        seq![if m[0] {
            OCCUPIED
        } else {
            VACANT
        }] + spec_oversized_map(m.skip(1), zr)
    }
}

/// A vacant zone of the oversized map that no block claims.
pub const VACANT: u8 = 0;

/// An occupied zone, carried through into the oversized map.
pub const OCCUPIED: u8 = 1;

/// The opening zone of a block that a whole span fits into.
pub const FITS_HERE: u8 = 2;

/// The oversized map is exactly as long as the plain map.
pub proof fn lemma_oversized_map_len(m: Seq<bool>, zr: nat)
    requires
        zr >= 1,
    ensures
        spec_oversized_map(m, zr).len() == m.len(),
    decreases m.len(),
{
    if m.len() == 0 {
    } else if m.len() >= zr && (forall|j: int| 0 <= j < zr ==> !m[j]) {
        lemma_oversized_map_len(m.skip(zr as int), zr);
    } else {
        lemma_oversized_map_len(m.skip(1), zr);
    }
}

/// Builds the oversized map of a plain occupancy map.
#[verifier::loop_isolation(false)]
pub fn oversized_map_of(m: &Vec<bool>, zones_required: usize) -> (r: Vec<u8>)
    requires
        zones_required >= 1,
    ensures
        r@ == spec_oversized_map(m@, zones_required as nat),
{
    let mut out: Vec<u8> = Vec::new();
    let mut i: usize = 0;
    proof {
        assert(m@.skip(0) =~= m@);
        assert(out@ + spec_oversized_map(m@, zones_required as nat) =~= spec_oversized_map(
            m@,
            zones_required as nat,
        ));
    }
    while i < m.len()
        invariant
            zones_required >= 1,
            i <= m@.len(),
            spec_oversized_map(m@, zones_required as nat) == out@ + spec_oversized_map(
                m@.skip(i as int),
                zones_required as nat,
            ),
        decreases m@.len() - i,
    {
        let remaining = m.len() - i;
        let mut window_vacant = zones_required <= remaining;
        if window_vacant {
            let mut k: usize = 0;
            while k < zones_required
                invariant
                    i + zones_required <= m@.len(),
                    k <= zones_required,
                    window_vacant == (forall|t: int| 0 <= t < k ==> !(#[trigger] m@[i + t])),
                decreases zones_required - k,
            {
                if m[i + k] {
                    window_vacant = false;
                }
                k = k + 1;
            }
        }
        let ghost tail = m@.skip(i as int);
        if window_vacant {
            proof {
                assert(tail.len() >= zones_required);
                assert forall|j: int| 0 <= j < zones_required implies !tail[j] by {
                    assert(!(m@[i + j]));
                }
                assert(tail.skip(zones_required as int) =~= m@.skip(i + zones_required));
            }
            let ghost before = out@;
            out.push(FITS_HERE);
            let mut k: usize = 1;
            while k < zones_required
                invariant
                    1 <= k <= zones_required,
                    out@ == before + seq![FITS_HERE] + Seq::new((k - 1) as nat, |j: int| VACANT),
                decreases zones_required - k,
            {
                out.push(VACANT);
                proof {
                    assert(out@ =~= before + seq![FITS_HERE] + Seq::new(
                        ((k + 1) - 1) as nat,
                        |j: int| VACANT,
                    ));
                }
                k = k + 1;
            }
            proof {
                assert(spec_oversized_map(tail, zones_required as nat) == seq![FITS_HERE]
                    + Seq::new(
                    (zones_required - 1) as nat,
                    |j: int| VACANT,
                ) + spec_oversized_map(m@.skip(i + zones_required), zones_required as nat));
                assert(out@ + spec_oversized_map(m@.skip(i + zones_required), zones_required as nat)
                    =~= (before + spec_oversized_map(tail, zones_required as nat)));
            }
            i = i + zones_required;
        } else {
            proof {
                assert(tail.len() > 0);
                if tail.len() >= zones_required {
                    let w = choose|t: int| 0 <= t < zones_required && #[trigger] m@[i + t];
                    assert(tail[w]);
                }
                assert(tail[0] == m@[i as int]);
                assert(tail.skip(1) =~= m@.skip(i + 1));
            }
            let ghost before = out@;
            out.push(if m[i] {
                OCCUPIED
            } else {
                VACANT
            });
            proof {
                assert(spec_oversized_map(tail, zones_required as nat) == seq![if tail[0] {
                    OCCUPIED
                } else {
                    VACANT
                }] + spec_oversized_map(m@.skip(i + 1), zones_required as nat));
                assert(out@ + spec_oversized_map(m@.skip(i + 1), zones_required as nat) =~= (before
                    + spec_oversized_map(tail, zones_required as nat)));
            }
            i = i + 1;
        }
    }
    proof {
        assert(m@.skip(m@.len() as int) =~= Seq::<bool>::empty());
    }
    out
}

/// The end zone number of the span anchored at `zn`; meaningful when the
/// zone holds a `ProductStart`.
pub open spec fn spec_span_end(zones: Seq<Zone>, zn: int) -> int {
    match zones[zn - 1].item {
        Some(ItemPart::ProductStart(_, e)) => e as int,
        _ => 0,
    }
}

/// Clearing the whole span `[start, end]` leaves every span anchored
/// outside it sound: a sound span never points into another span's range.
proof fn lemma_span_ok_after_clear(zones: Seq<Zone>, cleared: Seq<Zone>, j: int, start: int, end: int)
    requires
        spec_spans_ok(zones),
        cleared.len() == zones.len(),
        0 <= j < zones.len(),
        1 <= start,
        start + 1 <= end <= zones.len(),
        zones[start - 1].item matches Some(ItemPart::ProductStart(_, e)) && e == end,
        forall|m: int| start - 1 <= m <= end - 1 ==> (#[trigger] cleared[m]).item is None,
        forall|m: int| 0 <= m < zones.len() && !(start - 1 <= m <= end - 1) ==> cleared[m] == zones[m],
        j < start - 1 || j > end - 1,
    ensures
        spec_span_ok_at(cleared, j),
{
    assert(spec_span_ok_at(zones, j));
    assert(spec_span_ok_at(zones, start - 1));
    assert(cleared[j] == zones[j]);
    match zones[j].item {
        Some(ItemPart::ProductStart(_, e2)) => {
            // Two sound spans with distinct starts have disjoint ranges: every
            // zone of a span holds a fragment that names its own start.
            assert(j != start - 1);
            assert(zones[e2 - 1].item == Some(ItemPart::ProductEnd((j + 1) as usize)));
            assert(zones[end - 1].item == Some(ItemPart::ProductEnd(start as usize)));
            if start - 1 <= e2 - 1 <= end - 1 {
                if e2 == end {
                    assert(false);
                } else if start - 1 < e2 - 1 {
                    assert(spec_span_ok_at(zones, start - 1));
                    assert(zones[e2 - 1].item == Some(
                        ItemPart::ProductPart(start as usize, end as usize),
                    ));
                    assert(false);
                } else {
                    // e2 - 1 == start - 1: a start cannot also be an end.
                    assert(false);
                }
            }
            assert(cleared[e2 - 1] == zones[e2 - 1]);
            assert forall|m: int| j + 1 <= m < e2 - 1 implies (#[trigger] cleared[m]).item == Some(
                ItemPart::ProductPart((j + 1) as usize, e2 as usize),
            ) by {
                assert(zones[m].item == Some(ItemPart::ProductPart((j + 1) as usize, e2 as usize)));
                if start - 1 <= m <= end - 1 {
                    if m == start - 1 {
                        assert(false);
                    } else if m < end - 1 {
                        assert(zones[m].item == Some(
                            ItemPart::ProductPart(start as usize, end as usize),
                        ));
                        assert(j + 1 == start);
                        assert(false);
                    } else {
                        assert(zones[m].item == Some(ItemPart::ProductEnd(start as usize)));
                        assert(false);
                    }
                }
                assert(cleared[m] == zones[m]);
            }
        },
        Some(ItemPart::ProductPart(st, en)) => {
            assert(zones[st - 1].item matches Some(ItemPart::ProductStart(_, _)));
            if start - 1 <= st - 1 <= end - 1 {
                if st == start {
                    // Then this fragment lies inside the cleared span itself.
                    assert(zones[st - 1].item matches Some(ItemPart::ProductStart(_, e3)) && e3
                        == en);
                    assert(en == end);
                    assert(st - 1 < j < en - 1);
                    assert(false);
                } else if st - 1 < end - 1 {
                    assert(zones[st - 1].item == Some(
                        ItemPart::ProductPart(start as usize, end as usize),
                    ));
                    assert(false);
                } else {
                    assert(zones[st - 1].item == Some(ItemPart::ProductEnd(start as usize)));
                    assert(false);
                }
            }
            assert(cleared[st - 1] == zones[st - 1]);
        },
        Some(ItemPart::ProductEnd(st)) => {
            assert(zones[st - 1].item matches Some(ItemPart::ProductStart(_, _)));
            if start - 1 <= st - 1 <= end - 1 {
                if st == start {
                    assert(zones[st - 1].item matches Some(ItemPart::ProductStart(_, e3)) && e3
                        == j + 1);
                    assert(j == end - 1);
                    assert(false);
                } else if st - 1 < end - 1 {
                    assert(zones[st - 1].item == Some(
                        ItemPart::ProductPart(start as usize, end as usize),
                    ));
                    assert(false);
                } else {
                    assert(zones[st - 1].item == Some(ItemPart::ProductEnd(start as usize)));
                    assert(false);
                }
            }
            assert(cleared[st - 1] == zones[st - 1]);
        },
        _ => {},
    }
}

} // verus!
