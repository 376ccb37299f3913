use vstd::prelude::*;

use crate::level::{
    spec_item_at, spec_occ, spec_span_ok_at, spec_vacant_count, Level,
};
use crate::row::{spec_shelves_cap, spec_shelves_vacant, Row};
use crate::shelf::{spec_levels_cap, spec_levels_vacant, Shelf};
use crate::warehouse::{
    spec_coord_index, spec_coord_valid, spec_count_true_row, spec_rows_cap, spec_rows_occ,
    spec_rows_vacant, Warehouse,
};
use crate::zone::{ItemPart, Zone};

verus! {

/// In one run of zones, vacant and occupied zones together account for every
/// zone.
proof fn lemma_occ_partition(zones: Seq<Zone>)
    ensures
        spec_vacant_count(zones) + spec_count_true_row(spec_occ(zones)) == zones.len(),
    decreases zones.len(),
{
    if zones.len() > 0 {
        lemma_occ_partition(zones.drop_last());
        assert(spec_occ(zones).drop_last() =~= spec_occ(zones.drop_last()));
        assert(spec_occ(zones).last() == !zones.last().is_vacant());
    }
}

/// Splitting a concatenated occupancy splits its occupied count.
proof fn lemma_count_true_concat(a: Seq<bool>, b: Seq<bool>)
    ensures
        spec_count_true_row(a + b) == spec_count_true_row(a) + spec_count_true_row(b),
    decreases b.len(),
{
    if b.len() == 0 {
        assert(a + b =~= a);
    } else {
        lemma_count_true_concat(a, b.drop_last());
        assert((a + b).drop_last() =~= a + b.drop_last());
        assert((a + b).last() == b.last());
    }
}

proof fn lemma_levels_partition(ls: Seq<Level>)
    ensures
        spec_levels_vacant(ls) + spec_count_true_row(crate::shelf::spec_levels_occ(ls))
            == spec_levels_cap(ls),
    decreases ls.len(),
{
    if ls.len() > 0 {
        lemma_levels_partition(ls.drop_last());
        lemma_occ_partition(ls.last().zones@);
        lemma_count_true_concat(
            crate::shelf::spec_levels_occ(ls.drop_last()),
            spec_occ(ls.last().zones@),
        );
    }
}

proof fn lemma_shelves_partition(ss: Seq<Shelf>)
    ensures
        spec_shelves_vacant(ss) + spec_count_true_row(crate::row::spec_shelves_occ(ss))
            == spec_shelves_cap(ss),
    decreases ss.len(),
{
    if ss.len() > 0 {
        lemma_shelves_partition(ss.drop_last());
        lemma_levels_partition(ss.last().levels@);
        lemma_count_true_concat(
            crate::row::spec_shelves_occ(ss.drop_last()),
            crate::shelf::spec_levels_occ(ss.last().levels@),
        );
    }
}

proof fn lemma_rows_partition(rs: Seq<Row>)
    ensures
        spec_rows_vacant(rs) + spec_count_true_row(spec_rows_occ(rs)) == spec_rows_cap(rs),
    decreases rs.len(),
{
    if rs.len() > 0 {
        lemma_rows_partition(rs.drop_last());
        lemma_shelves_partition(rs.last().shelves@);
        lemma_count_true_concat(
            spec_rows_occ(rs.drop_last()),
            crate::row::spec_shelves_occ(rs.last().shelves@),
        );
    }
}

/// Capacity conservation: in a well-formed warehouse the available-space
/// counter always equals the total zone count minus the occupied zone count.
pub proof fn lemma_capacity_conservation(w: Warehouse)
    requires
        w.wf(),
    ensures
        w.available_space == w.cap() - spec_count_true_row(spec_rows_occ(w.rows@)),
{
    lemma_rows_partition(w.rows@);
}

/// Span integrity: a span anchored at zone number `zn` of a well-formed
/// level is exactly as wide as its item requires, and every zone of the span
/// resolves to that item.
pub proof fn lemma_span_integrity(l: Level, zn: int)
    requires
        l.wf(),
        1 <= zn <= l.zones@.len(),
        l.zones@[zn - 1].item matches Some(ItemPart::ProductStart(_, _)),
    ensures
        ({
            let zones = l.zones@;
            match zones[zn - 1].item {
                Some(ItemPart::ProductStart(item, end)) => {
                    &&& end - zn + 1 == item.zones_required
                    &&& forall|z: int|
                        zn <= z <= end ==> spec_item_at(zones, z) == Some(item)
                },
                _ => false,
            }
        }),
{
    let zones = l.zones@;
    assert(spec_span_ok_at(zones, zn - 1));
    match zones[zn - 1].item {
        Some(ItemPart::ProductStart(item, end)) => {
            assert forall|z: int| zn <= z <= end implies spec_item_at(zones, z) == Some(item) by {
                if z == zn {
                } else if z == end {
                    assert(zones[end - 1].item == Some(ItemPart::ProductEnd(zn as usize)));
                } else {
                    assert(zones[z - 1].item == Some(
                        ItemPart::ProductPart(zn as usize, end),
                    ));
                }
            }
        },
        _ => {},
    }
}

proof fn lemma_rows_cap_prefix_monotone(rs: Seq<Row>, a: int, b: int)
    requires
        0 <= a <= b <= rs.len(),
    ensures
        spec_rows_cap(rs.take(a)) <= spec_rows_cap(rs.take(b)),
    decreases b - a,
{
    if a < b {
        lemma_rows_cap_prefix_monotone(rs, a, b - 1);
        crate::warehouse::lemma_rows_take_step(rs, b - 1);
    }
}

proof fn lemma_shelves_cap_prefix_monotone(ss: Seq<Shelf>, a: int, b: int)
    requires
        0 <= a <= b <= ss.len(),
    ensures
        spec_shelves_cap(ss.take(a)) <= spec_shelves_cap(ss.take(b)),
    decreases b - a,
{
    if a < b {
        lemma_shelves_cap_prefix_monotone(ss, a, b - 1);
        crate::row::lemma_shelves_take_step(ss, b - 1);
    }
}

proof fn lemma_levels_cap_prefix_monotone(ls: Seq<Level>, a: int, b: int)
    requires
        0 <= a <= b <= ls.len(),
    ensures
        spec_levels_cap(ls.take(a)) <= spec_levels_cap(ls.take(b)),
    decreases b - a,
{
    if a < b {
        lemma_levels_cap_prefix_monotone(ls, a, b - 1);
        crate::shelf::lemma_levels_take_step(ls, b - 1);
    }
}

/// A valid coordinate's position stays inside the slice of the flat map
/// belonging to its own row, shelf and level.
pub proof fn lemma_coord_index_bounds(w: Warehouse, r: int, s: int, l: int, z: int)
    requires
        spec_coord_valid(w, r, s, l, z),
    ensures
        ({
            let rows = w.rows@;
            let shelves = rows[r - 1].shelves@;
            let levels = shelves[s - 1].levels@;
            &&& spec_rows_cap(rows.take(r - 1)) <= spec_coord_index(w, r, s, l, z)
                < spec_rows_cap(rows.take(r))
            &&& spec_coord_index(w, r, s, l, z) - spec_rows_cap(rows.take(r - 1))
                >= spec_shelves_cap(shelves.take(s - 1))
            &&& spec_coord_index(w, r, s, l, z) - spec_rows_cap(rows.take(r - 1))
                < spec_shelves_cap(shelves.take(s))
            &&& spec_coord_index(w, r, s, l, z) - spec_rows_cap(rows.take(r - 1))
                - spec_shelves_cap(shelves.take(s - 1)) >= spec_levels_cap(levels.take(l - 1))
            &&& spec_coord_index(w, r, s, l, z) - spec_rows_cap(rows.take(r - 1))
                - spec_shelves_cap(shelves.take(s - 1)) < spec_levels_cap(levels.take(l))
        }),
{
    let rows = w.rows@;
    let shelves = rows[r - 1].shelves@;
    let levels = shelves[s - 1].levels@;
    crate::warehouse::lemma_rows_take_step(rows, r - 1);
    crate::row::lemma_shelves_take_step(shelves, s - 1);
    crate::shelf::lemma_levels_take_step(levels, l - 1);
    lemma_shelves_cap_prefix_monotone(shelves, s, shelves.len() as int);
    lemma_levels_cap_prefix_monotone(levels, l, levels.len() as int);
    assert(shelves.take(shelves.len() as int) =~= shelves);
    assert(levels.take(levels.len() as int) =~= levels);
}

/// Round-trip mapping: two valid coordinates with the same flat-map position
/// are the same coordinate, so decoding the position of a coordinate gives
/// that coordinate back.
pub proof fn lemma_coord_index_injective(
    w: Warehouse,
    r1: int,
    s1: int,
    l1: int,
    z1: int,
    r2: int,
    s2: int,
    l2: int,
    z2: int,
)
    requires
        spec_coord_valid(w, r1, s1, l1, z1),
        spec_coord_valid(w, r2, s2, l2, z2),
        spec_coord_index(w, r1, s1, l1, z1) == spec_coord_index(w, r2, s2, l2, z2),
    ensures
        r1 == r2 && s1 == s2 && l1 == l2 && z1 == z2,
{
    let rows = w.rows@;
    lemma_coord_index_bounds(w, r1, s1, l1, z1);
    lemma_coord_index_bounds(w, r2, s2, l2, z2);
    if r1 < r2 {
        lemma_rows_cap_prefix_monotone(rows, r1, r2 - 1);
        assert(false);
    }
    if r2 < r1 {
        lemma_rows_cap_prefix_monotone(rows, r2, r1 - 1);
        assert(false);
    }
    let shelves = rows[r1 - 1].shelves@;
    if s1 < s2 {
        lemma_shelves_cap_prefix_monotone(shelves, s1, s2 - 1);
        assert(false);
    }
    if s2 < s1 {
        lemma_shelves_cap_prefix_monotone(shelves, s2, s1 - 1);
        assert(false);
    }
    let levels = shelves[s1 - 1].levels@;
    if l1 < l2 {
        lemma_levels_cap_prefix_monotone(levels, l1, l2 - 1);
        assert(false);
    }
    if l2 < l1 {
        lemma_levels_cap_prefix_monotone(levels, l2, l1 - 1);
        assert(false);
    }
}

} // verus!
