use vstd::prelude::*;

use crate::date::Date;
use crate::messages::ErrorMessage as StockError;
use crate::messages::PlacementStrategy;
use crate::product::{
    spec_zones_required, ErrorMessage as CatalogError, Product, ProductItem, ProductList, Quality,
};
use crate::warehouse::{
    spec_closest_errors, spec_closest_exhausted, spec_closest_outcome_placements,
    spec_contiguous_outcome, spec_fefo_removed, spec_round_robin_outcome, Warehouse,
};

verus! {

/// A named store: the catalog and the warehouse together, with the path its
/// surroundings persist it under.
#[derive(Debug)]
pub struct Storage {
    pub name: String,
    pub list: ProductList,
    pub file_path: String,
    pub warehouse: Warehouse,
}

#[derive(Clone, Copy, Debug, PartialEq, Eq, Structural)]
pub enum ErrorMessage {
    ProductNotFound,
    HasStock,
}

pub open spec fn spec_storage_error_text(e: ErrorMessage) -> Seq<char> {
    match e {
        ErrorMessage::ProductNotFound => "Product Not Found"@,
        ErrorMessage::HasStock => "Product has stock"@,
    }
}

impl ErrorMessage {
    pub fn as_str(&self) -> (r: &'static str)
        ensures
            r@ == spec_storage_error_text(*self),
    {
        match self {
            ErrorMessage::ProductNotFound => "Product Not Found",
            ErrorMessage::HasStock => "Product has stock",
        }
    }
}

impl Storage {
    pub open spec fn wf(self) -> bool {
        self.list.wf() && self.warehouse.wf()
    }

    /// A fresh, empty store; without a path of its own it is persisted under
    /// a file named after it.
    pub fn new(name: String, file_path: Option<String>) -> (r: Storage)
        ensures
            r.wf(),
            r.name@ == name@,
            r.list.products@.len() == 0,
            r.warehouse.rows@.len() == 0,
            match file_path {
                Some(path) => r.file_path@ == path@,
                None => r.file_path@ == "./storage_"@ + name@ + ".json"@,
            },
    {
        let path = match file_path {
            Some(path) => path,
            None => {
                let mut built: String = "./storage_".to_owned();
                built.append(name.as_str());
                built.append(".json");
                built
            },
        };
        Storage {
            name,
            list: ProductList::new(),
            warehouse: Warehouse::new(),
            file_path: path,
        }
    }

    pub fn check_capacity(&self) -> (r: usize)
        requires
            self.wf(),
        ensures
            r == self.warehouse.cap(),
    {
        self.warehouse.check_capacity()
    }

    pub fn check_available_space(&self) -> (r: usize)
        ensures
            r == self.warehouse.available_space,
    {
        self.warehouse.available_space
    }

    /// Looks the name up in the catalog, as the interactive front end does
    /// before acting on the result.
    pub fn search_product_name(&self, name: &str) -> (r: Vec<&Product>)
        ensures
            r@.map_values(|p: &Product| *p) == self.list.products@.filter(
                |p: Product| crate::product::spec_matches_query(p, name@),
            ),
    {
        self.list.search_by_name(name)
    }

    /// Registers a new product with no stock yet.
    pub fn new_product(&mut self, name: String, price: u64, quality: Quality) -> (r: Result<
        (),
        CatalogError,
    >)
        requires
            old(self).wf(),
            old(self).list.products@.len() < usize::MAX,
        ensures
            final(self).wf(),
            final(self).warehouse == old(self).warehouse,
            r == Err::<(), CatalogError>(CatalogError::NameExists) <==> old(self).list.spec_has_name(
                name@,
            ),
            r is Ok ==> final(self).list.products@.len() == old(self).list.products@.len() + 1
                && final(self).list.products@.last().name@ == name@ && final(self).list.products@.last().price == price && final(self).list.products@.last().quality
                == quality && final(self).list.products@.last().quantity == 0,
    {
        let product = Product::new(name.as_str(), price, 0, quality);
        self.list.add(product)
    }

    pub fn find_product_id(&self, name: &str) -> (r: Option<u64>)
        requires
            self.wf(),
        ensures
            match r {
                Some(id) => self.list.spec_has_id(id) && self.list.spec_product(id).name@ == name@,
                None => !self.list.spec_has_name(name@),
            },
    {
        self.list.id_from_name(name)
    }

    pub fn find_product_name(&self, id: u64) -> (r: Option<&str>)
        requires
            self.wf(),
        ensures
            match r {
                Some(name) => self.list.spec_has_id(id) && self.list.spec_product(id).name@
                    == name@,
                None => !self.list.spec_has_id(id),
            },
    {
        match self.list.product(id) {
            Some(product) => Some(product.name.as_str()),
            None => None,
        }
    }

    /// Deletes a catalog entry; one that still has stock stays.
    pub fn delete_product_by_id(&mut self, id: u64) -> (r: Result<(), ErrorMessage>)
        requires
            old(self).wf(),
        ensures
            final(self).wf(),
            final(self).warehouse == old(self).warehouse,
            !old(self).list.spec_has_id(id) ==> r == Err::<(), ErrorMessage>(
                ErrorMessage::ProductNotFound,
            ) && final(self).list == old(self).list,
            old(self).list.spec_has_id(id) && old(self).list.spec_product(id).quantity > 0 ==> r
                == Err::<(), ErrorMessage>(ErrorMessage::HasStock) && final(self).list == old(self).list,
            old(self).list.spec_has_id(id) && old(self).list.spec_product(id).quantity == 0 ==> r
                is Ok && final(self).list.products@ == old(self).list.products@.remove(
                old(self).list.spec_index_of(id),
            ),
    {
        let quantity = match self.list.product(id) {
            Some(product) => product.quantity,
            None => {
                return Err(ErrorMessage::ProductNotFound);
            },
        };
        if quantity > 0 {
            return Err(ErrorMessage::HasStock);
        }
        match self.list.remove_by_id(id) {
            Ok(()) => Ok(()),
            Err(_) => {
                proof {
                    assert(false);
                }
                Err(ErrorMessage::ProductNotFound)
            },
        }
    }

    pub fn delete_product_by_name(&mut self, name: &str) -> (r: Result<(), ErrorMessage>)
        requires
            old(self).wf(),
        ensures
            final(self).wf(),
            final(self).warehouse == old(self).warehouse,
            !old(self).list.spec_has_name(name@) ==> r == Err::<(), ErrorMessage>(
                ErrorMessage::ProductNotFound,
            ) && final(self).list == old(self).list,
    {
        let id = match self.find_product_id(name) {
            Some(id) => id,
            None => {
                return Err(ErrorMessage::ProductNotFound);
            },
        };
        self.delete_product_by_id(id)
    }

    /// Restocks the product and settles its catalog quantity in one step:
    /// the warehouse places the units reading the catalog only, and on
    /// success the quantity rises by what was placed.
    pub fn restock_product(&mut self, id: u64, quantity: usize, expiry_date: Option<Date>) -> (r:
        Result<(), StockError>)
        requires
            old(self).wf(),
            quantity <= isize::MAX,
            old(self).list.spec_has_id(id) ==> old(self).list.spec_product(id).quantity + quantity
                <= usize::MAX,
        ensures
            final(self).wf(),
            !old(self).list.spec_has_id(id) ==> r == Err::<(), StockError>(
                StockError::ProductNotListed,
            ) && *final(self) == *old(self),
            old(self).list.spec_has_id(id) ==> r != Err::<(), StockError>(
                StockError::ProductNotListed,
            ),
            r is Ok ==> final(self).warehouse.available_space == old(self).warehouse.available_space - quantity * spec_zones_required(
                old(self).list.spec_product(id).quality,
            ) && final(self).list.products@ == old(self).list.products@.update(
                old(self).list.spec_index_of(id),
                (Product {
                    quantity: (old(self).list.spec_product(id).quantity + quantity) as usize,
                    ..old(self).list.spec_product(id)
                }),
            ),
            old(self).list.spec_has_id(id) && quantity > 0 && old(self).warehouse.strategy
                == PlacementStrategy::Contiguous ==> spec_contiguous_outcome(
                old(self).warehouse,
                final(self).warehouse,
                id,
                old(self).list,
                quantity as int,
                expiry_date,
                r,
            ),
            old(self).list.spec_has_id(id) && quantity > 0 && old(self).warehouse.strategy
                == PlacementStrategy::RoundRobin ==> spec_round_robin_outcome(
                old(self).warehouse,
                final(self).warehouse,
                id,
                old(self).list,
                quantity as int,
                expiry_date,
                r,
            ),
            old(self).list.spec_has_id(id) && quantity > 0 && old(self).warehouse.strategy
                == PlacementStrategy::ClosestToStart ==> spec_closest_errors(
                old(self).list,
                id,
                expiry_date,
                r,
            ) && (r == Err::<(), StockError>(StockError::InsufficientSpace)
                ==> spec_closest_exhausted(final(self).warehouse, old(self).list, id))
                && spec_closest_outcome_placements(
                old(self).warehouse,
                final(self).warehouse,
                id,
                old(self).list,
                expiry_date,
            ),
    {
        match self.warehouse.independent_restock(id, quantity, &self.list, expiry_date) {
            Ok(()) => {
                match self.list.step_qty(id, quantity as isize) {
                    Ok(()) => Ok(()),
                    Err(_) => {
                        proof {
                            assert(false);
                        }
                        Err(StockError::ProductNotListed)
                    },
                }
            },
            Err(e) => Err(e),
        }
    }

    pub fn restock_by_name(&mut self, name: &str, quantity: usize, expiry_date: Option<Date>) -> (r:
        Result<(), StockError>)
        requires
            old(self).wf(),
            quantity <= isize::MAX,
            old(self).list.spec_has_name(name@) ==> forall|i: int|
                0 <= i < old(self).list.products@.len() && (#[trigger] old(self).list.products@[i]).name@
                    == name@ ==> old(self).list.products@[i].quantity + quantity <= usize::MAX,
        ensures
            final(self).wf(),
            !old(self).list.spec_has_name(name@) ==> r == Err::<(), StockError>(
                StockError::ProductNotListed,
            ) && *final(self) == *old(self),
            old(self).list.spec_has_name(name@) ==> r != Err::<(), StockError>(
                StockError::ProductNotListed,
            ),
            r is Ok ==> exists|pid: u64|
                (#[trigger] old(self).list.spec_has_id(pid)) && old(self).list.spec_product(
                    pid,
                ).name@ == name@ && final(self).warehouse.available_space == old(self).warehouse.available_space
                    - quantity * spec_zones_required(old(self).list.spec_product(pid).quality)
                    && final(self).list.products@ == old(self).list.products@.update(
                    old(self).list.spec_index_of(pid),
                    (Product {
                        quantity: (old(self).list.spec_product(pid).quantity + quantity) as usize,
                        ..old(self).list.spec_product(pid)
                    }),
                ),
    {
        let id = match self.find_product_id(name) {
            Some(id) => id,
            None => {
                return Err(StockError::ProductNotListed);
            },
        };
        proof {
            let j = self.list.spec_index_of(id);
            assert(0 <= j < self.list.products@.len() && self.list.products@[j].id == id);
            assert(self.list.products@[j].name@ == name@);
            assert(self.list.spec_has_name(name@));
        }
        let outcome = self.restock_product(id, quantity, expiry_date);
        proof {
            if outcome is Ok {
                assert(old(self).list.spec_has_id(id));
            }
        }
        outcome
    }

    /// Changes a product's price.
    pub fn change_price(&mut self, id: u64, price: u64) -> (r: Result<(), ErrorMessage>)
        requires
            old(self).wf(),
        ensures
            final(self).wf(),
            final(self).warehouse == old(self).warehouse,
            !old(self).list.spec_has_id(id) ==> r == Err::<(), ErrorMessage>(
                ErrorMessage::ProductNotFound,
            ) && final(self).list == old(self).list,
            old(self).list.spec_has_id(id) ==> r is Ok && final(self).list.products@ == old(self).list.products@.update(
                old(self).list.spec_index_of(id),
                (Product { price, ..old(self).list.spec_product(id) }),
            ),
    {
        match self.list.product_mut(id) {
            Some(product) => {
                product.set_price(price);
                proof {
                    assert forall|i: int, j: int|
                        0 <= i < self.list.products@.len() && 0 <= j < self.list.products@.len()
                            && i != j implies (#[trigger] self.list.products@[i].id) != (
                        #[trigger] self.list.products@[j].id) by {
                        assert(old(self).list.products@[i].id != old(self).list.products@[j].id);
                    }
                    assert forall|i: int, j: int|
                        0 <= i < self.list.products@.len() && 0 <= j < self.list.products@.len()
                            && i != j implies (#[trigger] self.list.products@[i].name)@ != (
                        #[trigger] self.list.products@[j].name)@ by {
                        assert(old(self).list.products@[i].name@ != old(self).list.products@[j].name@);
                    }
                }
                Ok(())
            },
            None => Err(ErrorMessage::ProductNotFound),
        }
    }

    pub fn change_price_by_name(&mut self, name: &str, price: u64) -> (r: Result<(), ErrorMessage>)
        requires
            old(self).wf(),
        ensures
            final(self).wf(),
            final(self).warehouse == old(self).warehouse,
            !old(self).list.spec_has_name(name@) ==> r == Err::<(), ErrorMessage>(
                ErrorMessage::ProductNotFound,
            ) && final(self).list == old(self).list,
    {
        let id = match self.find_product_id(name) {
            Some(id) => id,
            None => {
                return Err(ErrorMessage::ProductNotFound);
            },
        };
        self.change_price(id, price)
    }

    /// Takes `quantity` units of the product out of the warehouse, earliest
    /// expiry first, and lowers the catalog quantity by the same amount.
    pub fn remove_stock(&mut self, id: u64, quantity: usize) -> (r: Result<(), StockError>)
        requires
            old(self).wf(),
            quantity <= isize::MAX,
        ensures
            final(self).wf(),
            !old(self).list.spec_has_id(id) ==> r == Err::<(), StockError>(
                StockError::ProductNotListed,
            ) && *final(self) == *old(self),
            old(self).list.spec_has_id(id) ==> r != Err::<(), StockError>(
                StockError::ProductNotListed,
            ),
            final(self).warehouse.available_space >= old(self).warehouse.available_space,
            old(self).warehouse.spec_items().filter(|it: ProductItem| it.id == id).len()
                < quantity ==> !(r is Ok),
            old(self).list.spec_has_id(id) && old(self).warehouse.spec_items().filter(
                |it: ProductItem| it.id == id,
            ).len() == 0 && quantity > 0 ==> r == Err::<(), StockError>(
                StockError::InsufficientStock,
            ) && *final(self) == *old(self),
            r is Ok ==> final(self).warehouse.available_space >= old(self).warehouse.available_space
                + quantity,
            r is Ok ==> exists|ss: Seq<ProductItem>|
                #[trigger] spec_fefo_removed(
                    old(self).warehouse,
                    final(self).warehouse,
                    id,
                    quantity as int,
                    ss,
                ),
            r is Ok ==> final(self).list.products@ == old(self).list.products@.update(
                old(self).list.spec_index_of(id),
                (Product {
                    quantity: (old(self).list.spec_product(id).quantity - quantity) as usize,
                    ..old(self).list.spec_product(id)
                }),
            ),
    {
        if self.list.product(id).is_none() {
            return Err(StockError::ProductNotListed);
        }
        match self.warehouse.remove_stock(id, quantity) {
            Ok(()) => {
                match self.list.step_qty(id, -(quantity as isize)) {
                    Ok(()) => Ok(()),
                    Err(e) => Err(crate::row::translate_item_error(e)),
                }
            },
            Err(e) => Err(e),
        }
    }

    pub fn remove_stock_by_name(&mut self, name: &str, quantity: usize) -> (r: Result<
        (),
        StockError,
    >)
        requires
            old(self).wf(),
            quantity <= isize::MAX,
        ensures
            final(self).wf(),
            !old(self).list.spec_has_name(name@) ==> r == Err::<(), StockError>(
                StockError::ProductNotListed,
            ) && *final(self) == *old(self),
            old(self).list.spec_has_name(name@) ==> r != Err::<(), StockError>(
                StockError::ProductNotListed,
            ),
            r is Ok ==> exists|pid: u64|
                (#[trigger] old(self).list.spec_has_id(pid)) && old(self).list.spec_product(
                    pid,
                ).name@ == name@ && exists|ss: Seq<ProductItem>|
                    #[trigger] spec_fefo_removed(
                        old(self).warehouse,
                        final(self).warehouse,
                        pid,
                        quantity as int,
                        ss,
                    ),
    {
        let id = match self.find_product_id(name) {
            Some(id) => id,
            None => {
                return Err(StockError::ProductNotListed);
            },
        };
        let outcome = self.remove_stock(id, quantity);
        proof {
            if outcome is Ok {
                assert(old(self).list.spec_has_id(id));
            }
        }
        outcome
    }

    /// Clears every stored unit of the product and zeroes its quantity.
    pub fn empty_stock(&mut self, id: u64) -> (r: Result<(), StockError>)
        requires
            old(self).wf(),
        ensures
            final(self).wf(),
            !old(self).list.spec_has_id(id) ==> r == Err::<(), StockError>(
                StockError::ProductNotListed,
            ) && *final(self) == *old(self),
            old(self).list.spec_has_id(id) ==> r != Err::<(), StockError>(
                StockError::ProductNotListed,
            ),
            r is Ok ==> ({
                let n = old(self).warehouse.spec_items().filter(
                    |it: ProductItem| it.id == id,
                ).len() as int;
                exists|ss: Seq<ProductItem>|
                    #[trigger] spec_fefo_removed(
                        old(self).warehouse,
                        final(self).warehouse,
                        id,
                        n,
                        ss,
                    )
            }),
            r is Ok ==> final(self).list.products@ == old(self).list.products@.update(
                old(self).list.spec_index_of(id),
                (Product { quantity: 0, ..old(self).list.spec_product(id) }),
            ),
    {
        if self.list.product(id).is_none() {
            return Err(StockError::ProductNotListed);
        }
        match self.warehouse.remove_all_stock(id) {
            Ok(()) => {
                match self.list.empty_qty(id) {
                    Ok(()) => Ok(()),
                    Err(e) => Err(crate::row::translate_item_error(e)),
                }
            },
            Err(e) => Err(e),
        }
    }

    pub fn empty_stock_by_name(&mut self, name: &str) -> (r: Result<(), StockError>)
        requires
            old(self).wf(),
        ensures
            final(self).wf(),
            !old(self).list.spec_has_name(name@) ==> r == Err::<(), StockError>(
                StockError::ProductNotListed,
            ) && *final(self) == *old(self),
            old(self).list.spec_has_name(name@) ==> r != Err::<(), StockError>(
                StockError::ProductNotListed,
            ),
            r is Ok ==> exists|pid: u64|
                (#[trigger] old(self).list.spec_has_id(pid)) && old(self).list.spec_product(
                    pid,
                ).name@ == name@ && ({
                    let n = old(self).warehouse.spec_items().filter(
                        |it: ProductItem| it.id == pid,
                    ).len() as int;
                    exists|ss: Seq<ProductItem>|
                        #[trigger] spec_fefo_removed(
                            old(self).warehouse,
                            final(self).warehouse,
                            pid,
                            n,
                            ss,
                        )
                }),
    {
        let id = match self.find_product_id(name) {
            Some(id) => id,
            None => {
                return Err(StockError::ProductNotListed);
            },
        };
        let outcome = self.empty_stock(id);
        proof {
            if outcome is Ok {
                assert(old(self).list.spec_has_id(id));
            }
        }
        outcome
    }
}

impl Default for Storage {
    /// A fresh store named "default".
    fn default() -> (r: Storage)
        ensures
            r.wf(),
            r.name@ == "default"@,
            r.list.products@.len() == 0,
            r.warehouse.rows@.len() == 0,
    {
        Storage::new("default".to_owned(), None)
    }
}

} // verus!
