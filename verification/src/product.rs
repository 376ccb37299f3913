use vstd::prelude::*;

use crate::date::Date;
use rand::Rng;

verus! {

/// Handling class of a product: it decides how many zones one unit takes
/// and how high it may be shelved.
#[derive(Clone, Copy, Debug, PartialEq, Eq, Structural)]
pub enum Quality {
    Normal,
    Fragile(usize),
    Oversized(usize),
    OversizedAndFragile(usize, usize),
}

/// The ceiling that a fragile product must stay at or below, if any.
pub open spec fn spec_max_level(q: Quality) -> Option<usize> {
    match q {
        Quality::Fragile(maxlevel) => Some(maxlevel),
        Quality::OversizedAndFragile(_, maxlevel) => Some(maxlevel),
        _ => None,
    }
}

/// How many contiguous zones one unit of this quality occupies.
pub open spec fn spec_zones_required(q: Quality) -> usize {
    match q {
        Quality::Oversized(zones) => zones,
        Quality::OversizedAndFragile(zones, _) => zones,
        _ => 1,
    }
}

/// The display name of a quality tag.
pub open spec fn spec_quality_name(q: Quality) -> Seq<char> {
    match q {
        Quality::Normal => "normal"@,
        Quality::Fragile(_) => "fragile"@,
        Quality::Oversized(_) => "oversized"@,
        Quality::OversizedAndFragile(_, _) => "oversized and fragile"@,
    }
}

impl Quality {
    pub fn to_string(&self) -> (r: String)
        ensures
            r@ == spec_quality_name(*self),
    {
        match self {
            Quality::Normal => "normal".to_owned(),
            Quality::Fragile(_) => "fragile".to_owned(),
            Quality::Oversized(_) => "oversized".to_owned(),
            Quality::OversizedAndFragile(_, _) => "oversized and fragile".to_owned(),
        }
    }
}

#[derive(Clone, Debug)]
pub struct Product {
    pub id: u64,
    pub name: String,
    pub price: u64,
    pub quantity: usize,
    pub quality: Quality,
}

/// One placed unit of a product. The placement is the anchor coordinate
/// (row, shelf, level, zone), all 1-based.
#[derive(Clone, Copy, Debug)]
pub struct ProductItem {
    pub id: u64,
    pub placement: (usize, usize, usize, usize),
    pub zones_required: usize,
    pub expiry_date: Option<Date>,
    pub timestamp: i64,
}

/// The product catalog. Entries carry pairwise distinct ids and names.
#[derive(Clone, Debug)]
pub struct ProductList {
    pub products: Vec<Product>,
}

#[derive(Clone, Copy, Debug, PartialEq, Eq, Structural)]
pub enum ErrorMessage {
    NotEnoughQuantity,
    ProductNotFound,
    NameExists,
    InvalidInput,
    LevelTooHigh,
    FragileObjectWithoutExpiration,
}

impl ErrorMessage {
    pub fn as_str(&self) -> (r: &'static str)
        ensures
            r@ == spec_error_text(*self),
    {
        match self {
            ErrorMessage::NotEnoughQuantity => "Not enough quantity",
            ErrorMessage::ProductNotFound => "Product not listed",
            ErrorMessage::NameExists => "Product with this name already exists",
            ErrorMessage::InvalidInput => "Invalid input",
            ErrorMessage::LevelTooHigh => "Level too high",
            ErrorMessage::FragileObjectWithoutExpiration => "Fragile object without expiration",
        }
    }
}

pub open spec fn spec_error_text(e: ErrorMessage) -> Seq<char> {
    match e {
        ErrorMessage::NotEnoughQuantity => "Not enough quantity"@,
        ErrorMessage::ProductNotFound => "Product not listed"@,
        ErrorMessage::NameExists => "Product with this name already exists"@,
        ErrorMessage::InvalidInput => "Invalid input"@,
        ErrorMessage::LevelTooHigh => "Level too high"@,
        ErrorMessage::FragileObjectWithoutExpiration => "Fragile object without expiration"@,
    }
}

/// Relies on rand's `thread_rng` and `Rng::gen_range`: a number drawn from
/// the half-open six-digit range; only the bounds are promised.
#[verifier::external_body]
fn generate_id() -> (id: u64)
    ensures
        100000 <= id < 999999,
{
    let mut random = rand::thread_rng();
    random.gen_range(100000..999999)
}

/// Relies on chrono's `Utc::now` and `DateTime::timestamp`: the current time
/// in seconds. Nothing is promised of the value; `Utc::now` itself aborts on
/// a system clock that reads before the Unix epoch, a condition no argument
/// can exclude.
#[verifier::external_body]
fn now_timestamp() -> i64 {
    chrono::Utc::now().timestamp()
}

/// Equality of string slices by their characters.
pub(crate) fn str_eq(a: &str, b: &str) -> (r: bool)
    ensures
        r == (a@ == b@),
{
    let x: String = a.to_owned();
    let y: String = b.to_owned();
    x == y
}

impl Product {
    pub fn new(name: &str, price: u64, quantity: usize, quality: Quality) -> (r: Product)
        ensures
            r.name@ == name@,
            r.price == price,
            r.quantity == quantity,
            r.quality == quality,
            100000 <= r.id < 999999,
    {
        Product { id: generate_id(), name: name.to_owned(), price, quantity, quality }
    }

    pub fn add_quantity(&mut self, quantity: usize)
        requires
            old(self).quantity + quantity <= usize::MAX,
        ensures
            *final(self) == (Product { quantity: (old(self).quantity + quantity) as usize, ..*old(self) }),
    {
        self.quantity = self.quantity + quantity;
    }

    pub fn remove_quantity(&mut self, quantity: usize) -> (r: Result<(), ErrorMessage>)
        ensures
            old(self).quantity >= quantity ==> r == Ok::<(), ErrorMessage>(()) && *final(self)
                == (Product { quantity: (old(self).quantity - quantity) as usize, ..*old(self) }),
            old(self).quantity < quantity ==> r == Err::<(), ErrorMessage>(
                ErrorMessage::NotEnoughQuantity,
            ) && *final(self) == *old(self),
    {
        if self.quantity >= quantity {
            self.quantity = self.quantity - quantity;
            Ok(())
        } else {
            Err(ErrorMessage::NotEnoughQuantity)
        }
    }

    pub fn set_price(&mut self, price: u64)
        ensures
            *final(self) == (Product { price, ..*old(self) }),
    {
        self.price = price;
    }

    pub fn set_quality(&mut self, quality: Quality)
        ensures
            *final(self) == (Product { quality, ..*old(self) }),
    {
        self.quality = quality;
    }

    pub fn max_level(&self) -> (r: Option<usize>)
        ensures
            r == spec_max_level(self.quality),
    {
        match self.quality {
            Quality::Fragile(maxlevel) => Some(maxlevel),
            Quality::OversizedAndFragile(_, maxlevel) => Some(maxlevel),
            _ => None,
        }
    }
}

impl ProductItem {
    /// Builds one placed unit of the product `id` at the given anchor
    /// coordinate. Fragile products demand an expiry date and a level at or
    /// below their ceiling; the catalog is read, never changed.
    pub fn new(
        id: u64,
        list: &ProductList,
        placement: (usize, usize, usize, usize),
        expiry_date: Option<Date>,
    ) -> (r: Result<ProductItem, ErrorMessage>)
        requires
            list.wf(),
        ensures
            !list.spec_has_id(id) ==> r == Err::<ProductItem, ErrorMessage>(
                ErrorMessage::ProductNotFound,
            ),
            list.spec_has_id(id) ==> {
                let q = list.spec_product(id).quality;
                match spec_max_level(q) {
                    Some(maxlevel) => {
                        if expiry_date is None {
                            r == Err::<ProductItem, ErrorMessage>(
                                ErrorMessage::FragileObjectWithoutExpiration,
                            )
                        } else if placement.2 > maxlevel {
                            r == Err::<ProductItem, ErrorMessage>(ErrorMessage::LevelTooHigh)
                        } else {
                            spec_item_ok(r, id, placement, expiry_date, q)
                        }
                    },
                    None => spec_item_ok(r, id, placement, expiry_date, q),
                }
            },
    {
        let product = match list.product(id) {
            Some(product) => product,
            None => {
                return Err(ErrorMessage::ProductNotFound);
            },
        };
        match product.max_level() {
            Some(maxlevel) => {
                if expiry_date.is_none() {
                    return Err(ErrorMessage::FragileObjectWithoutExpiration);
                }
                if placement.2 > maxlevel {
                    return Err(ErrorMessage::LevelTooHigh);
                }
            },
            None => {},
        }
        let zones_required = match product.quality {
            Quality::Oversized(zones) => zones,
            Quality::OversizedAndFragile(zones, _) => zones,
            _ => 1,
        };
        Ok(ProductItem { id, placement, zones_required, expiry_date, timestamp: now_timestamp() })
    }

    pub fn place(&mut self, row: usize, shelf: usize, level: usize, zone: usize)
        ensures
            *final(self) == (ProductItem { placement: (row, shelf, level, zone), ..*old(self) }),
    {
        self.placement = (row, shelf, level, zone);
    }

    pub fn set_expiration(&mut self, expiry_date: Option<Date>)
        ensures
            *final(self) == (ProductItem { expiry_date, ..*old(self) }),
    {
        self.expiry_date = expiry_date;
    }
}

impl ProductList {
    /// The catalog is well formed: no two entries share an id or a name.
    pub open spec fn wf(self) -> bool {
        (forall|i: int, j: int|
            #![trigger self.products@[i].id, self.products@[j].id]
            0 <= i < self.products@.len() && 0 <= j < self.products@.len() && i != j
                ==> self.products@[i].id != self.products@[j].id) && (forall|i: int, j: int|
            #![trigger self.products@[i].name, self.products@[j].name]
            0 <= i < self.products@.len() && 0 <= j < self.products@.len() && i != j
                ==> self.products@[i].name@ != self.products@[j].name@)
    }

    pub open spec fn spec_has_id(self, id: u64) -> bool {
        exists|i: int| 0 <= i < self.products@.len() && self.products@[i].id == id
    }

    pub open spec fn spec_has_name(self, name: Seq<char>) -> bool {
        exists|i: int| 0 <= i < self.products@.len() && self.products@[i].name@ == name
    }

    pub open spec fn spec_index_of(self, id: u64) -> int {
        choose|i: int| 0 <= i < self.products@.len() && self.products@[i].id == id
    }

    /// The entry that carries `id`; meaningful when `spec_has_id(id)` holds.
    pub open spec fn spec_product(self, id: u64) -> Product {
        self.products@[self.spec_index_of(id)]
    }

    pub fn new() -> (r: ProductList)
        ensures
            r.products@.len() == 0,
            r.wf(),
    {
        ProductList { products: Vec::new() }
    }

    pub fn with(products: Vec<Product>) -> (r: ProductList)
        ensures
            r.products == products,
    {
        ProductList { products }
    }

    #[verifier::loop_isolation(false)]
    fn index_of_id(&self, id: u64) -> (r: Option<usize>)
        requires
            self.wf(),
        ensures
            match r {
                Some(i) => i < self.products@.len() && self.products@[i as int].id == id && i
                    == self.spec_index_of(id),
                None => !self.spec_has_id(id),
            },
    {
        for i in 0..self.products.len()
            invariant
                self.wf(),
                forall|j: int| 0 <= j < i ==> self.products@[j].id != id,
        {
            if self.products[i].id == id {
                proof {
                    assert(self.spec_has_id(id));
                    let k = self.spec_index_of(id);
                    assert(self.products@[k].id == id);
                    assert(k == i);
                }
                return Some(i);
            }
        }
        None
    }

    pub fn product(&self, id: u64) -> (r: Option<&Product>)
        requires
            self.wf(),
        ensures
            match r {
                Some(p) => self.spec_has_id(id) && *p == self.spec_product(id),
                None => !self.spec_has_id(id),
            },
    {
        match self.index_of_id(id) {
            Some(i) => Some(&self.products[i]),
            None => None,
        }
    }

    pub fn product_mut(&mut self, id: u64) -> (r: Option<&mut Product>)
        requires
            old(self).wf(),
        ensures
            match r {
                Some(p) => old(self).spec_has_id(id) && *p == old(self).spec_product(id) && final(self).products@ == old(self).products@.update(
                    old(self).spec_index_of(id),
                    *final(p),
                ),
                None => !old(self).spec_has_id(id) && *final(self) == *old(self),
            },
    {
        match self.index_of_id(id) {
            Some(i) => Some(&mut self.products[i]),
            None => None,
        }
    }

    /// Registers a product. A clashing name is rejected; a clashing id is
    /// replaced by a fresh one, so the catalog keeps its ids distinct.
    #[verifier::loop_isolation(false)]
    pub fn add(&mut self, product: Product) -> (r: Result<(), ErrorMessage>)
        requires
            old(self).wf(),
            old(self).products@.len() < usize::MAX,
        ensures
            final(self).wf(),
            r == Err::<(), ErrorMessage>(ErrorMessage::NameExists) <==> old(self).spec_has_name(
                product.name@,
            ),
            r is Err ==> *final(self) == *old(self),
            r is Ok ==> final(self).products@.len() == old(self).products@.len() + 1 && final(self).products@.drop_last() == old(self).products@ && final(self).products@.last().name@
                == product.name@ && final(self).products@.last().price == product.price && final(self).products@.last().quantity == product.quantity && final(self).products@.last().quality
                == product.quality && !old(self).spec_has_id(final(self).products@.last().id),
            !old(self).spec_has_name(product.name@) && !old(self).spec_has_id(u64::MAX) ==> r is Ok,
    {
        let mut entry = product;
        let has_name = self.contains_name(entry.name.as_str());
        if has_name {
            return Err(ErrorMessage::NameExists);
        }
        if self.index_of_id(entry.id).is_some() {
            entry.id = generate_id();
        }
        if self.index_of_id(entry.id).is_some() {
            // A second collision: fall back to one past the largest id.
            let mut max_id: u64 = 0;
            for i in 0..self.products.len()
                invariant
                    forall|j: int| 0 <= j < i ==> self.products@[j].id <= max_id,
                    max_id == 0 || exists|j: int|
                        0 <= j < i && self.products@[j].id == max_id,
            {
                if self.products[i].id > max_id {
                    max_id = self.products[i].id;
                }
            }
            if max_id == u64::MAX {
                proof {
                    assert(self.spec_has_id(u64::MAX));
                }
                return Err(ErrorMessage::InvalidInput);
            }
            entry.id = max_id + 1;
        }
        self.products.push(entry);
        proof {
            assert(self.products@.drop_last() =~= old(self).products@);
        }
        Ok(())
    }

    #[verifier::loop_isolation(false)]
    fn contains_name(&self, name: &str) -> (r: bool)
        ensures
            r == self.spec_has_name(name@),
    {
        for i in 0..self.products.len()
            invariant
                forall|j: int| 0 <= j < i ==> self.products@[j].name@ != name@,
        {
            if str_eq(self.products[i].name.as_str(), name) {
                return true;
            }
        }
        false
    }

    pub fn remove_by_id(&mut self, id: u64) -> (r: Result<(), ErrorMessage>)
        requires
            old(self).wf(),
        ensures
            final(self).wf(),
            r is Ok <==> old(self).spec_has_id(id),
            r is Err ==> r == Err::<(), ErrorMessage>(ErrorMessage::ProductNotFound) && *final(self)
                == *old(self),
            r is Ok ==> final(self).products@ == old(self).products@.remove(
                old(self).spec_index_of(id),
            ),
    {
        match self.index_of_id(id) {
            Some(i) => {
                self.products.remove(i);
                Ok(())
            },
            None => Err(ErrorMessage::ProductNotFound),
        }
    }

    pub fn remove_by_name(&mut self, name: &str) -> (r: Result<(), ErrorMessage>)
        requires
            old(self).wf(),
        ensures
            final(self).wf(),
            r is Ok <==> old(self).spec_has_name(name@),
            r is Err ==> r == Err::<(), ErrorMessage>(ErrorMessage::ProductNotFound) && *final(self)
                == *old(self),
            r is Ok ==> exists|i: int|
                0 <= i < old(self).products@.len() && (#[trigger] old(self).products@[i]).name@
                    == name@ && final(self).products@ == old(self).products@.remove(i),
    {
        match self.id_from_name(name) {
            Some(found_id) => self.remove_by_id(found_id),
            None => Err(ErrorMessage::ProductNotFound),
        }
    }

    /// Moves the quantity of the product `id` by `quantity`, which may be
    /// negative. A move below zero is refused.
    pub fn step_qty(&mut self, id: u64, quantity: isize) -> (r: Result<(), ErrorMessage>)
        requires
            old(self).wf(),
            old(self).spec_has_id(id) && quantity >= 0 ==> old(self).spec_product(id).quantity
                + quantity <= usize::MAX,
        ensures
            final(self).wf(),
            !old(self).spec_has_id(id) ==> r == Err::<(), ErrorMessage>(
                ErrorMessage::ProductNotFound,
            ) && *final(self) == *old(self),
            old(self).spec_has_id(id) && old(self).spec_product(id).quantity + quantity < 0 ==> r
                == Err::<(), ErrorMessage>(ErrorMessage::NotEnoughQuantity) && *final(self) == *old(self),
            old(self).spec_has_id(id) && old(self).spec_product(id).quantity + quantity >= 0 ==> r
                is Ok && final(self).products@ == old(self).products@.update(
                old(self).spec_index_of(id),
                (Product {
                    quantity: (old(self).spec_product(id).quantity + quantity) as usize,
                    ..old(self).spec_product(id)
                }),
            ),
    {
        let i = match self.index_of_id(id) {
            Some(i) => i,
            None => {
                return Err(ErrorMessage::ProductNotFound);
            },
        };
        let current = self.products[i].quantity;
        let updated: usize = match current.checked_add_signed(quantity) {
            Some(v) => v,
            None => {
                proof {
                    assert(quantity < 0);
                }
                return Err(ErrorMessage::NotEnoughQuantity);
            },
        };
        let mut entry = self.products.remove(i);
        entry.quantity = updated;
        self.products.insert(i, entry);
        proof {
            assert(self.products@ =~= old(self).products@.update(i as int, self.products@[i as int]));
        }
        Ok(())
    }

    pub fn empty_qty(&mut self, id: u64) -> (r: Result<(), ErrorMessage>)
        requires
            old(self).wf(),
        ensures
            final(self).wf(),
            !old(self).spec_has_id(id) ==> r == Err::<(), ErrorMessage>(
                ErrorMessage::ProductNotFound,
            ) && *final(self) == *old(self),
            old(self).spec_has_id(id) ==> r is Ok && final(self).products@ == old(self).products@.update(
                old(self).spec_index_of(id),
                (Product { quantity: 0, ..old(self).spec_product(id) }),
            ),
    {
        let i = match self.index_of_id(id) {
            Some(i) => i,
            None => {
                return Err(ErrorMessage::ProductNotFound);
            },
        };
        let mut entry = self.products.remove(i);
        entry.quantity = 0;
        self.products.insert(i, entry);
        proof {
            assert(self.products@ =~= old(self).products@.update(i as int, self.products@[i as int]));
        }
        Ok(())
    }

    #[verifier::loop_isolation(false)]
    pub fn id_from_name(&self, name: &str) -> (r: Option<u64>)
        requires
            self.wf(),
        ensures
            match r {
                Some(id) => self.spec_has_id(id) && self.spec_product(id).name@ == name@,
                None => !self.spec_has_name(name@),
            },
    {
        for i in 0..self.products.len()
            invariant
                self.wf(),
                forall|j: int| 0 <= j < i ==> self.products@[j].name@ != name@,
        {
            if str_eq(self.products[i].name.as_str(), name) {
                let id = self.products[i].id;
                proof {
                    assert(self.spec_has_id(id));
                    let k = self.spec_index_of(id);
                    assert(self.products@[k].id == id);
                    assert(k == i);
                }
                return Some(id);
            }
        }
        None
    }

    #[verifier::loop_isolation(false)]
    pub fn filter_by_quality(&self, quality: String) -> (r: Vec<&Product>)
        ensures
            r@.map_values(|p: &Product| *p) == self.products@.filter(
                |p: Product| spec_quality_name(p.quality) == quality@,
            ),
    {
        let mut out: Vec<&Product> = Vec::new();
        let ghost pred = |p: Product| spec_quality_name(p.quality) == quality@;
        for i in 0..self.products.len()
            invariant
                out@.map_values(|p: &Product| *p) == self.products@.take(i as int).filter(pred),
        {
            proof {
                lemma_filter_take_step(self.products@, pred, i as int);
            }
            if self.products[i].quality.to_string() == quality {
                out.push(&self.products[i]);
                proof {
                    assert(out@.map_values(|p: &Product| *p) =~= self.products@.take(
                        i + 1,
                    ).filter(pred));
                }
            }
        }
        proof {
            assert(self.products@.take(self.products@.len() as int) =~= self.products@);
        }
        out
    }

    #[verifier::loop_isolation(false)]
    pub fn filter_by_max_price(&self, price: u64) -> (r: Vec<&Product>)
        ensures
            r@.map_values(|p: &Product| *p) == self.products@.filter(|p: Product| p.price <= price),
    {
        let mut out: Vec<&Product> = Vec::new();
        let ghost pred = |p: Product| p.price <= price;
        for i in 0..self.products.len()
            invariant
                out@.map_values(|p: &Product| *p) == self.products@.take(i as int).filter(pred),
        {
            proof {
                lemma_filter_take_step(self.products@, pred, i as int);
            }
            if self.products[i].price <= price {
                out.push(&self.products[i]);
                proof {
                    assert(out@.map_values(|p: &Product| *p) =~= self.products@.take(
                        i + 1,
                    ).filter(pred));
                }
            }
        }
        proof {
            assert(self.products@.take(self.products@.len() as int) =~= self.products@);
        }
        out
    }

    #[verifier::loop_isolation(false)]
    pub fn filter_by_min_price(&self, price: u64) -> (r: Vec<&Product>)
        ensures
            r@.map_values(|p: &Product| *p) == self.products@.filter(|p: Product| p.price >= price),
    {
        let mut out: Vec<&Product> = Vec::new();
        let ghost pred = |p: Product| p.price >= price;
        for i in 0..self.products.len()
            invariant
                out@.map_values(|p: &Product| *p) == self.products@.take(i as int).filter(pred),
        {
            proof {
                lemma_filter_take_step(self.products@, pred, i as int);
            }
            if self.products[i].price >= price {
                out.push(&self.products[i]);
                proof {
                    assert(out@.map_values(|p: &Product| *p) =~= self.products@.take(
                        i + 1,
                    ).filter(pred));
                }
            }
        }
        proof {
            assert(self.products@.take(self.products@.len() as int) =~= self.products@);
        }
        out
    }

    /// Keeps the products whose lowered name contains every whitespace-split
    /// word of the lowered query.
    #[verifier::loop_isolation(false)]
    pub fn search_by_name(&self, string: &str) -> (r: Vec<&Product>)
        ensures
            r@.map_values(|p: &Product| *p) == self.products@.filter(
                |p: Product| spec_matches_query(p, string@),
            ),
    {
        let lowered = lowercase(string);
        let words = split_words(lowered.as_str());
        let mut out: Vec<&Product> = Vec::new();
        let ghost pred = |p: Product| spec_matches_query(p, string@);
        for i in 0..self.products.len()
            invariant
                words@.map_values(|w: &str| w@) == words_of(lowercase_of(string@)),
                out@.map_values(|p: &Product| *p) == self.products@.take(i as int).filter(pred),
        {
            proof {
                lemma_filter_take_step(self.products@, pred, i as int);
            }
            let matched = product_matches_words(&self.products[i], &words);
            proof {
                assert(matched == pred(self.products@[i as int]));
            }
            if matched {
                out.push(&self.products[i]);
                proof {
                    assert(out@.map_values(|p: &Product| *p) =~= self.products@.take(
                        i + 1,
                    ).filter(pred));
                }
            }
        }
        proof {
            assert(self.products@.take(self.products@.len() as int) =~= self.products@);
        }
        out
    }
}

/// A product matches a query when every word of the lowered query occurs in
/// the lowered product name.
pub open spec fn spec_matches_query(p: Product, query: Seq<char>) -> bool {
    spec_matches_words(p, words_of(lowercase_of(query)))
}

/// Every one of the given words occurs in the lowered product name.
pub open spec fn spec_matches_words(p: Product, ws: Seq<Seq<char>>) -> bool {
    forall|k: int| 0 <= k < ws.len() ==> spec_contains_sub(lowercase_of(p.name@), #[trigger] ws[k])
}

#[verifier::loop_isolation(false)]
fn product_matches_words(p: &Product, words: &Vec<&str>) -> (r: bool)
    ensures
        r == spec_matches_words(*p, words@.map_values(|w: &str| w@)),
{
    let ghost ws = words@.map_values(|w: &str| w@);
    let lowered_name = lowercase(p.name.as_str());
    for k in 0..words.len()
        invariant
            lowered_name@ == lowercase_of(p.name@),
            forall|j: int| 0 <= j < k ==> spec_contains_sub(lowercase_of(p.name@), #[trigger] ws[j]),
    {
        if !contains_sub(lowered_name.as_str(), words[k]) {
            proof {
                assert(ws[k as int] == words@[k as int]@);
                assert(!spec_contains_sub(lowercase_of(p.name@), ws[k as int]));
            }
            return false;
        }
        proof {
            assert(ws[k as int] == words@[k as int]@);
        }
    }
    true
}

/// `pat` occurs as a contiguous run of characters inside `s`.
pub open spec fn spec_contains_sub(s: Seq<char>, pat: Seq<char>) -> bool {
    exists|i: int| 0 <= i && i + pat.len() <= s.len() && #[trigger] s.subrange(i, i + pat.len()) == pat
}

/// What `str::to_lowercase` returns: a function of the characters alone.
pub uninterp spec fn lowercase_of(s: Seq<char>) -> Seq<char>;

/// What `str::split_whitespace` yields: a function of the characters alone.
pub uninterp spec fn words_of(s: Seq<char>) -> Seq<Seq<char>>;

/// Relies on `str::to_lowercase`: the Unicode lowering of the characters,
/// depending on the characters alone.
#[verifier::external_body]
fn lowercase(s: &str) -> (r: String)
    ensures
        r@ == lowercase_of(s@),
{
    s.to_lowercase()
}

/// Relies on `str::split_whitespace`: the whitespace-separated words, in
/// order, depending on the characters alone.
#[verifier::external_body]
fn split_words(s: &str) -> (r: Vec<&str>)
    ensures
        r@.map_values(|w: &str| w@) == words_of(s@),
{
    s.split_whitespace().collect()
}

/// Relies on `str::contains`: whether the pattern occurs as a substring.
#[verifier::external_body]
fn contains_sub(s: &str, pat: &str) -> (r: bool)
    ensures
        r == spec_contains_sub(s@, pat@),
{
    s.contains(pat)
}

/// One step of filtering over a growing prefix.
proof fn lemma_filter_take_step(s: Seq<Product>, pred: spec_fn(Product) -> bool, i: int)
    requires
        0 <= i < s.len(),
    ensures
        pred(s[i]) ==> s.take(i + 1).filter(pred) == s.take(i).filter(pred).push(s[i]),
        !pred(s[i]) ==> s.take(i + 1).filter(pred) == s.take(i).filter(pred),
{
    reveal(Seq::filter);
    assert(s.take(i + 1).drop_last() =~= s.take(i));
    assert(s.take(i + 1).last() == s[i]);
}

/// What a successful `ProductItem::new` hands back.
pub open spec fn spec_item_ok(
    r: Result<ProductItem, ErrorMessage>,
    id: u64,
    placement: (usize, usize, usize, usize),
    expiry_date: Option<Date>,
    q: Quality,
) -> bool {
    match r {
        Ok(item) => item.id == id && item.placement == placement && item.expiry_date == expiry_date
            && item.zones_required == spec_zones_required(q),
        Err(_) => false,
    }
}

} // verus!
