use warehouse::date::Date;
use warehouse::messages::{ErrorMessage as StockError, InfoMessage, PlacementStrategy};
use warehouse::product::{ErrorMessage as CatalogError, Product, ProductItem, ProductList, Quality};
use warehouse::warehouse::Warehouse;

fn default_warehouse() -> Warehouse {
    let mut w = Warehouse::new();
    w.initialize_rows(2, 6, 4, 10);
    w
}

fn list_with(quality: Quality) -> (ProductList, u64) {
    let mut products = ProductList::new();
    products.add(Product::new("Crate", 100, 0, quality)).unwrap();
    let id = products.id_from_name("Crate").unwrap();
    (products, id)
}

#[test]
fn generated_ids_are_six_digits() {
    for _ in 0..32 {
        let p = Product::new("Thing", 1, 0, Quality::Normal);
        assert!((100000..999999).contains(&p.id));
    }
}

#[test]
fn coordinate_errors_name_the_missing_tier() {
    let mut w = default_warehouse();
    let (products, id) = list_with(Quality::Normal);
    let item = ProductItem::new(id, &products, (9, 1, 1, 1), None).unwrap();
    assert_eq!(w.add_item(9, 1, 1, 1, item).unwrap_err(), StockError::RowNotFound);
    let item = ProductItem::new(id, &products, (1, 9, 1, 1), None).unwrap();
    assert_eq!(w.add_item(1, 9, 1, 1, item).unwrap_err(), StockError::ShelfNotFound);
    let item = ProductItem::new(id, &products, (1, 1, 9, 1), None).unwrap();
    assert_eq!(w.add_item(1, 1, 9, 1, item).unwrap_err(), StockError::LevelNotFound);
    let item = ProductItem::new(id, &products, (1, 1, 1, 99), None).unwrap();
    assert_eq!(w.add_item(1, 1, 1, 99, item).unwrap_err(), StockError::ZoneNotFound);
    assert_eq!(w.remove_item(1, 1, 1, 1).unwrap_err(), StockError::ZoneEmpty);
    assert_eq!(w.available_space, 480);
}

#[test]
fn oversized_needs_room_inside_the_level() {
    let mut w = default_warehouse();
    let (products, id) = list_with(Quality::Oversized(4));
    // Zone 9 leaves only two zones to the level's end.
    let item = ProductItem::new(id, &products, (1, 1, 1, 9), None).unwrap();
    assert_eq!(
        w.add_oversized_item(1, 1, 1, 9, item).unwrap_err(),
        StockError::InsufficientSpace
    );
    // A span never fits across an occupied zone.
    let single = ProductItem { zones_required: 1, ..item };
    w.add_item(1, 1, 1, 3, single).unwrap();
    let item = ProductItem::new(id, &products, (1, 1, 1, 1), None).unwrap();
    assert_eq!(w.add_oversized_item(1, 1, 1, 1, item).unwrap_err(), StockError::ZoneOccupied);
}

#[test]
fn oversized_width_below_two_is_refused() {
    let mut w = default_warehouse();
    let (products, id) = list_with(Quality::Oversized(1));
    let outcome = w.independent_restock(id, 1, &products, None);
    assert_eq!(outcome.unwrap_err(), StockError::NotEnoughZones);
}

#[test]
fn oversized_removal_names_the_failure() {
    let mut w = default_warehouse();
    // The oversized path on an empty zone reports the emptiness.
    {
        let row = &mut w.rows[0];
        assert_eq!(row.remove_oversized_item(1, 1, 1).unwrap_err(), StockError::ZoneEmpty);
    }
    // On a fragment or a whole item it reports a non-start.
    let (products, id) = list_with(Quality::Oversized(3));
    let item = ProductItem::new(id, &products, (1, 1, 1, 4), None).unwrap();
    w.add_oversized_item(1, 1, 1, 4, item).unwrap();
    {
        let row = &mut w.rows[0];
        assert_eq!(
            row.remove_oversized_item(1, 1, 5).unwrap_err(),
            StockError::NotProductStart
        );
        assert_eq!(
            row.remove_oversized_item(1, 1, 99).unwrap_err(),
            StockError::ZoneNotFound
        );
        // Through the start the whole span leaves.
        row.remove_oversized_item(1, 1, 4).unwrap();
    }
    assert_eq!(w.rows[0].available_space, 240);
}

#[test]
fn oversized_map_marks_greedy_blocks() {
    let w = default_warehouse();
    let map = w.oversized_flat_map(3);
    assert_eq!(map.len(), 480);
    // Each empty ten-zone level yields three fits-here blocks and one
    // leftover vacant zone.
    for level_start in (0..480).step_by(10) {
        let level = &map[level_start..level_start + 10];
        assert_eq!(level, &[2, 0, 0, 2, 0, 0, 2, 0, 0, 0]);
    }
}

#[test]
fn round_robin_continues_after_the_last_unit() {
    let mut w = default_warehouse();
    w.strategy = PlacementStrategy::RoundRobin;
    let (products, id) = list_with(Quality::Normal);
    w.independent_restock(id, 5, &products, None).unwrap();
    w.independent_restock(id, 3, &products, None).unwrap();
    let items = w.items_with_id(id);
    assert_eq!(items.len(), 8);
    // The second batch picked up right after the first.
    for (k, item) in items.iter().enumerate() {
        assert_eq!(item.placement, (1, 1, 1, k + 1));
    }
}

#[test]
fn capacity_counters() {
    let w = default_warehouse();
    assert_eq!(w.check_capacity(), 480);
    assert_eq!(w.check_oversized_capacity(3), 144);
    assert_eq!(w.check_oversized_capacity(10), 48);
    assert_eq!(w.check_oversized_capacity(11), 0);
    assert!(w.is_empty());
    assert!(!w.is_full());
}

#[test]
fn quantity_bookkeeping() {
    let mut p = Product::new("Pallet", 100, 5, Quality::Normal);
    p.add_quantity(3);
    assert_eq!(p.quantity, 8);
    assert_eq!(p.remove_quantity(10).unwrap_err(), CatalogError::NotEnoughQuantity);
    assert_eq!(p.quantity, 8);
    p.remove_quantity(8).unwrap();
    assert_eq!(p.quantity, 0);
    p.set_price(250);
    assert_eq!(p.price, 250);
    p.set_quality(Quality::Fragile(2));
    assert_eq!(p.max_level(), Some(2));
}

#[test]
fn catalog_step_and_empty() {
    let mut products = ProductList::new();
    products.add(Product::new("Apple", 100, 0, Quality::Normal)).unwrap();
    let id = products.id_from_name("Apple").unwrap();
    products.step_qty(id, 7).unwrap();
    assert_eq!(products.product(id).unwrap().quantity, 7);
    assert_eq!(products.step_qty(id, -9).unwrap_err(), CatalogError::NotEnoughQuantity);
    products.step_qty(id, -2).unwrap();
    assert_eq!(products.product(id).unwrap().quantity, 5);
    products.empty_qty(id).unwrap();
    assert_eq!(products.product(id).unwrap().quantity, 0);
    assert_eq!(products.step_qty(999, 1).unwrap_err(), CatalogError::ProductNotFound);
    products.remove_by_name("Apple").unwrap();
    assert!(products.product(id).is_none());
    assert_eq!(products.remove_by_id(id).unwrap_err(), CatalogError::ProductNotFound);
}

#[test]
fn message_texts() {
    assert_eq!(StockError::InsufficientSpace.as_str(), "Insufficient space");
    assert_eq!(StockError::ZoneOccupied.as_str(), "Zone is already occupied");
    assert_eq!(CatalogError::LevelTooHigh.as_str(), "Level too high");
    let note = InfoMessage::Restocked("300 units".to_string());
    assert_eq!(note.as_str(), "Restocked");
    assert_eq!(note.full_message(), "Restocked 300 units");
}

#[test]
fn expiry_filters() {
    let mk = |expiry: Option<Date>| ProductItem {
        id: 7,
        placement: (1, 1, 1, 1),
        zones_required: 1,
        expiry_date: expiry,
        timestamp: 0,
    };
    let d = |y, m, day| Date::new(y, m, day).unwrap();
    let items = vec![mk(None), mk(Some(d(2021, 1, 1))), mk(Some(d(2023, 1, 1)))];
    // Strictly after the cutoff; undated items never qualify.
    let later = Warehouse::filter_by_expiry_date(items, d(2022, 6, 1));
    assert_eq!(later.len(), 1);
    assert_eq!(later[0].expiry_date, Some(d(2023, 1, 1)));
}
