use warehouse::messages::PlacementStrategy;
use warehouse::product::{Product, ProductList, Quality};
use warehouse::warehouse::Warehouse;

fn default_warehouse() -> Warehouse {
    let mut w = Warehouse::new();
    w.initialize_rows(2, 6, 4, 10);
    w
}

fn default_products() -> ProductList {
    let mut products = ProductList::new();
    products.add(Product::new("Apple", 100, 0, Quality::Normal)).unwrap();
    products.add(Product::new("Banana", 50, 0, Quality::Fragile(3))).unwrap();
    products.add(Product::new("Watermelon", 75, 0, Quality::Oversized(3))).unwrap();
    products
}

#[test]
fn contiguous_restock() {
    let mut warehouse = default_warehouse();
    let product_list = default_products();
    let product_id = product_list.id_from_name("Apple").unwrap();
    match warehouse.independent_restock(product_id, 300, &product_list, None) {
        Ok(_) => {}
        Err(e) => panic!("{}", e.as_str()),
    }
    assert_eq!(warehouse.available_space, 480 - 300);
    let items = warehouse.items_with_id(product_id);
    assert_eq!(items.len(), 300);
    // Filled from the origin onward, zone-major, without gaps.
    assert_eq!(items[0].placement, (1, 1, 1, 1));
    assert_eq!(items[1].placement, (1, 1, 1, 2));
    assert_eq!(items[10].placement, (1, 1, 2, 1));
    assert_eq!(items[40].placement, (1, 2, 1, 1));
    assert_eq!(items[240].placement, (2, 1, 1, 1));
    for k in 0..300usize {
        let row = k / 240;
        let shelf = (k % 240) / 40;
        let level = (k % 40) / 10;
        let zone = k % 10;
        assert_eq!(items[k].placement, (row + 1, shelf + 1, level + 1, zone + 1));
    }
}

#[test]
fn round_robin_restock() {
    let mut warehouse = default_warehouse();
    warehouse.strategy = PlacementStrategy::RoundRobin;
    let product_list = default_products();
    let product_id = product_list.id_from_name("Apple").unwrap();
    match warehouse.independent_restock(product_id, 100, &product_list, None) {
        Ok(_) => {}
        Err(e) => panic!("{}", e.as_str()),
    }
    assert_eq!(warehouse.available_space, 480 - 100);
    assert_eq!(warehouse.items_with_id(product_id).len(), 100);
}

#[test]
fn closest_to_start_restock() {
    let mut warehouse = default_warehouse();
    warehouse.strategy = PlacementStrategy::ClosestToStart;
    let product_list = default_products();
    let product_id = product_list.id_from_name("Apple").unwrap();
    match warehouse.independent_restock(product_id, 100, &product_list, None) {
        Ok(_) => {}
        Err(e) => panic!("{}", e.as_str()),
    }
    assert_eq!(warehouse.available_space, 480 - 100);
    assert_eq!(warehouse.items_with_id(product_id).len(), 100);
}

#[test]
fn contiguous_oversized_restock() {
    let mut warehouse = default_warehouse();
    let product_list = default_products();
    let product_id = product_list.id_from_name("Watermelon").unwrap();
    match warehouse.independent_restock(product_id, 100, &product_list, None) {
        Ok(_) => {}
        Err(e) => panic!("{}", e.as_str()),
    }
    // Each unit takes three zones inside one level.
    assert_eq!(warehouse.available_space, 480 - 300);
    let items = warehouse.items_with_id(product_id);
    assert_eq!(items.len(), 100);
    for item in &items {
        assert_eq!(item.zones_required, 3);
        let (_, _, _, zone) = item.placement;
        // A span of three fits within the ten zones of its level.
        assert!(zone + 2 <= 10);
    }
    // No overlap: anchors are three zones apart within a level.
    for a in 0..items.len() {
        for b in (a + 1)..items.len() {
            let pa = items[a].placement;
            let pb = items[b].placement;
            if (pa.0, pa.1, pa.2) == (pb.0, pb.1, pb.2) {
                let (lo, hi) = if pa.3 < pb.3 { (pa.3, pb.3) } else { (pb.3, pa.3) };
                assert!(lo + 3 <= hi);
            }
        }
    }
}

#[test]
fn round_robin_oversized_restock() {
    let mut warehouse = default_warehouse();
    warehouse.strategy = PlacementStrategy::RoundRobin;
    let product_list = default_products();
    let product_id = product_list.id_from_name("Watermelon").unwrap();
    match warehouse.independent_restock(product_id, 100, &product_list, None) {
        Ok(_) => {}
        Err(e) => panic!("{}", e.as_str()),
    }
    assert_eq!(warehouse.items_with_id(product_id).len(), 100);
}

#[test]
fn closest_to_start_oversized_restock() {
    let mut warehouse = default_warehouse();
    warehouse.strategy = PlacementStrategy::ClosestToStart;
    let product_list = default_products();
    let product_id = product_list.id_from_name("Watermelon").unwrap();
    match warehouse.independent_restock(product_id, 100, &product_list, None) {
        Ok(_) => {}
        Err(e) => panic!("{}", e.as_str()),
    }
    assert_eq!(warehouse.items_with_id(product_id).len(), 100);
}

#[test]
fn removal() {
    let mut warehouse = default_warehouse();
    let product_list = default_products();
    let product_id = product_list.id_from_name("Watermelon").unwrap();
    let expiry_date = warehouse::date::Date::new(2021, 12, 31);
    assert!(expiry_date.is_some());
    match warehouse.independent_restock(product_id, 50, &product_list, expiry_date) {
        Ok(_) => {}
        Err(e) => panic!("{}", e.as_str()),
    }
    let expiry_date = warehouse::date::Date::new(2022, 12, 31);
    assert!(expiry_date.is_some());
    match warehouse.independent_restock(product_id, 50, &product_list, expiry_date) {
        Ok(_) => {}
        Err(e) => panic!("{}", e.as_str()),
    }
    match warehouse.remove_stock(product_id, 50) {
        Ok(_) => {}
        Err(e) => panic!("{}", e.as_str()),
    }
    // First expired, first out: only the later batch remains.
    let remaining = warehouse.items_with_id(product_id);
    assert_eq!(remaining.len(), 50);
    for item in &remaining {
        let d = item.expiry_date.expect("every unit was stocked with a date");
        assert_eq!((d.year, d.month, d.day), (2022, 12, 31));
    }
}
