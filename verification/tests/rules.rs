use warehouse::date::Date;
use warehouse::inventory::Storage;
use warehouse::messages::ErrorMessage as StockError;
use warehouse::product::{ErrorMessage as CatalogError, Product, ProductItem, ProductList, Quality};
use warehouse::warehouse::Warehouse;

fn default_warehouse() -> Warehouse {
    let mut w = Warehouse::new();
    w.initialize_rows(2, 6, 4, 10);
    w
}

fn list_with(quality: Quality) -> (ProductList, u64) {
    let mut products = ProductList::new();
    products.add(Product::new("Crate", 100, 0, quality)).unwrap();
    let id = products.id_from_name("Crate").unwrap();
    (products, id)
}

#[test]
fn fragile_needs_expiry_and_stays_below_ceiling() {
    let (products, id) = list_with(Quality::Fragile(3));
    // No expiry date: rejected outright.
    let outcome = ProductItem::new(id, &products, (1, 1, 1, 1), None);
    assert_eq!(outcome.unwrap_err(), CatalogError::FragileObjectWithoutExpiration);
    // Level 4 is above the ceiling of 3.
    let date = Date::new(2024, 1, 1);
    let outcome = ProductItem::new(id, &products, (1, 1, 4, 1), date);
    assert_eq!(outcome.unwrap_err(), CatalogError::LevelTooHigh);
    // Level 3 with a date passes.
    let item = ProductItem::new(id, &products, (1, 1, 3, 1), date).unwrap();
    assert_eq!(item.zones_required, 1);
}

#[test]
fn fragile_restock_keeps_ceiling() {
    let mut warehouse = default_warehouse();
    let (products, id) = list_with(Quality::Fragile(3));
    let date = Date::new(2024, 6, 30);
    // 2 rows x 6 shelves x 3 usable levels x 10 zones = 360 usable zones.
    warehouse.independent_restock(id, 360, &products, date).unwrap();
    for item in warehouse.items_with_id(id) {
        assert!(item.placement.2 <= 3);
    }
    // Everything at or below the ceiling is taken now.
    let outcome = warehouse.independent_restock(id, 1, &products, date);
    assert!(outcome.is_err());
}

#[test]
fn fragile_restock_without_expiry_fails() {
    let mut warehouse = default_warehouse();
    let (products, id) = list_with(Quality::Fragile(3));
    let outcome = warehouse.independent_restock(id, 5, &products, None);
    assert_eq!(outcome.unwrap_err(), StockError::FragileObjectWithoutExpiration);
}

#[test]
fn exhaustion_keeps_partial_placements() {
    let mut warehouse = default_warehouse();
    let (products, id) = list_with(Quality::Normal);
    // More than the 480 zones that exist.
    let outcome = warehouse.independent_restock(id, 500, &products, None);
    assert_eq!(outcome.unwrap_err(), StockError::InsufficientSpace);
    assert_eq!(warehouse.items_with_id(id).len(), 0);
    // Fill everything, then one more unit cannot go anywhere; the batch
    // stops after the existing space is used up.
    warehouse.independent_restock(id, 480, &products, None).unwrap();
    assert_eq!(warehouse.available_space, 0);
    let outcome = warehouse.independent_restock(id, 1, &products, None);
    assert!(outcome.is_err());
    assert_eq!(warehouse.items_with_id(id).len(), 480);
}

#[test]
fn occupied_zone_is_never_overwritten() {
    let mut warehouse = default_warehouse();
    let (products, id) = list_with(Quality::Normal);
    let item = ProductItem::new(id, &products, (1, 1, 1, 1), None).unwrap();
    warehouse.add_item(1, 1, 1, 1, item).unwrap();
    let again = ProductItem::new(id, &products, (1, 1, 1, 1), None).unwrap();
    let outcome = warehouse.add_item(1, 1, 1, 1, again);
    assert_eq!(outcome.unwrap_err(), StockError::ZoneOccupied);
    // Still exactly one unit there.
    assert_eq!(warehouse.items_with_id(id).len(), 1);
    assert_eq!(warehouse.available_space, 479);
}

#[test]
fn span_resolves_from_every_zone() {
    let mut warehouse = default_warehouse();
    let (products, id) = list_with(Quality::Oversized(4));
    let item = ProductItem::new(id, &products, (1, 2, 3, 5), None).unwrap();
    assert_eq!(item.zones_required, 4);
    warehouse.add_oversized_item(1, 2, 3, 5, item).unwrap();
    // Zones 5 through 8 all resolve to the same unit.
    for zone in 5..9 {
        let found = warehouse.item(1, 2, 3, zone).expect("span zone resolves");
        assert_eq!(found.id, id);
        assert_eq!(found.placement, (1, 2, 3, 5));
    }
    assert!(warehouse.item(1, 2, 3, 4).is_none());
    assert!(warehouse.item(1, 2, 3, 9).is_none());
    // A fragment may not leave on its own.
    assert_eq!(warehouse.remove_item(1, 2, 3, 6).unwrap_err(), StockError::CannotRemovePart);
    // Removing through the start vacates the whole span.
    warehouse.remove_item(1, 2, 3, 5).unwrap();
    assert_eq!(warehouse.available_space, 480);
}

#[test]
fn flat_map_round_trip() {
    let mut warehouse = default_warehouse();
    let (products, id) = list_with(Quality::Normal);
    let item = ProductItem::new(id, &products, (2, 3, 2, 7), None).unwrap();
    warehouse.add_item(2, 3, 2, 7, item).unwrap();
    let map = warehouse.flat_map();
    assert_eq!(map.len(), 480);
    // The occupied flat-map position decodes back to the coordinate.
    let position = 240 + 2 * 40 + 10 + 6;
    assert!(map[position]);
    assert_eq!(warehouse.flat_map_position_to_zone(position), Some((2, 3, 2, 7)));
    for (p, occupied) in map.iter().enumerate() {
        assert_eq!(*occupied, p == position);
    }
}

#[test]
fn sort_by_expiry_puts_undated_last() {
    let d1 = Date::new(2021, 12, 31).unwrap();
    let d2 = Date::new(2021, 5, 1).unwrap();
    let mk = |expiry: Option<Date>, zone: usize| ProductItem {
        id: 7,
        placement: (1, 1, 1, zone),
        zones_required: 1,
        expiry_date: expiry,
        timestamp: 0,
    };
    let items = vec![mk(None, 1), mk(Some(d1), 2), mk(Some(d2), 3)];
    let sorted = Warehouse::sort_by_expiry_date(items);
    assert_eq!(sorted.len(), 3);
    assert_eq!(sorted[0].placement.3, 3);
    assert_eq!(sorted[1].placement.3, 2);
    assert_eq!(sorted[2].placement.3, 1);
}

#[test]
fn storage_round_trip_of_stock() {
    let mut storage = Storage::default();
    storage.warehouse.initialize_rows(2, 6, 4, 10);
    storage.new_product("Apple".to_string(), 100, Quality::Normal).unwrap();
    let id = storage.find_product_id("Apple").unwrap();
    assert_eq!(storage.check_capacity(), 480);
    assert_eq!(storage.check_available_space(), 480);
    storage.restock_product(id, 30, None).unwrap();
    assert_eq!(storage.check_available_space(), 450);
    assert_eq!(storage.list.product(id).unwrap().quantity, 30);
    storage.remove_stock(id, 10).unwrap();
    assert_eq!(storage.check_available_space(), 460);
    assert_eq!(storage.list.product(id).unwrap().quantity, 20);
    storage.empty_stock(id).unwrap();
    assert_eq!(storage.check_available_space(), 480);
    assert_eq!(storage.list.product(id).unwrap().quantity, 0);
    // With nothing stored the entry can leave.
    storage.delete_product_by_id(id).unwrap();
    assert!(storage.find_product_id("Apple").is_none());
}

#[test]
fn catalog_rules() {
    let mut products = ProductList::new();
    products.add(Product::new("Apple", 100, 0, Quality::Normal)).unwrap();
    // A second entry with the same name is refused.
    let outcome = products.add(Product::new("Apple", 10, 0, Quality::Normal));
    assert_eq!(outcome.unwrap_err(), CatalogError::NameExists);
    // Search folds case and matches every word.
    products.add(Product::new("Green APPLE juice", 120, 0, Quality::Normal)).unwrap();
    let hits = products.search_by_name("apple green");
    assert_eq!(hits.len(), 1);
    assert_eq!(hits[0].name, "Green APPLE juice");
    let hits = products.search_by_name("apple");
    assert_eq!(hits.len(), 2);
    // Price filters.
    assert_eq!(products.filter_by_max_price(110).len(), 1);
    assert_eq!(products.filter_by_min_price(110).len(), 1);
    assert_eq!(products.filter_by_quality("normal".to_string()).len(), 2);
    assert_eq!(products.filter_by_quality("fragile".to_string()).len(), 0);
}

#[test]
fn date_order() {
    let early = Date::new(2021, 12, 31).unwrap();
    let late = Date::new(2022, 1, 1).unwrap();
    assert!(early.lt(&late));
    assert!(!late.lt(&early));
    assert!(early.le(&early));
    // The calendar refuses impossible days.
    assert!(Date::new(2021, 2, 29).is_none());
    assert!(Date::new(2020, 2, 29).is_some());
    assert!(Date::new(2021, 13, 1).is_none());
    assert!(Date::new(2021, 4, 31).is_none());
}

#[test]
fn insufficient_stock_is_reported() {
    let mut warehouse = default_warehouse();
    let (products, id) = list_with(Quality::Normal);
    warehouse.independent_restock(id, 3, &products, None).unwrap();
    let outcome = warehouse.remove_stock(id, 5);
    assert_eq!(outcome.unwrap_err(), StockError::InsufficientStock);
}
