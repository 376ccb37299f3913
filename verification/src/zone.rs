use vstd::prelude::*;

use crate::messages::ErrorMessage;
use crate::product::ProductItem;

verus! {

/// What one zone holds. A unit that needs a single zone is a `WholeProduct`;
/// a unit that spans several zones is laid down as one `ProductStart`
/// carrying the payload and the last zone number, interior `ProductPart`s
/// pointing at both ends, and one `ProductEnd` pointing back at the start.
#[derive(Clone, Copy, Debug)]
pub enum ItemPart {
    WholeProduct(ProductItem),
    ProductStart(ProductItem, usize),
    ProductPart(usize, usize),
    ProductEnd(usize),
}

/// The smallest addressable storage slot: a 1-based position in its level
/// and at most one occupant.
#[derive(Clone, Copy, Debug)]
pub struct Zone {
    pub number: usize,
    pub item: Option<ItemPart>,
}

/// The item whose anchor (whole unit or span start) sits in this zone.
pub open spec fn spec_anchor_item(z: Zone) -> Option<ProductItem> {
    match z.item {
        Some(ItemPart::WholeProduct(it)) => Some(it),
        Some(ItemPart::ProductStart(it, _)) => Some(it),
        _ => None,
    }
}

impl Zone {
    pub open spec fn is_vacant(self) -> bool {
        self.item is None
    }

    pub fn new(number: usize, item: Option<ItemPart>) -> (r: Zone)
        ensures
            r == (Zone { number, item }),
    {
        Zone { number, item }
    }

    /// Stores a single-zone unit; an occupied zone rejects it.
    pub fn add(&mut self, item: ProductItem) -> (r: Result<(), ErrorMessage>)
        ensures
            old(self).is_vacant() ==> r is Ok && *final(self) == (Zone {
                number: old(self).number,
                item: Some(ItemPart::WholeProduct(item)),
            }),
            !old(self).is_vacant() ==> r == Err::<(), ErrorMessage>(ErrorMessage::ZoneOccupied)
                && *final(self) == *old(self),
    {
        if self.item.is_some() {
            return Err(ErrorMessage::ZoneOccupied);
        }
        self.item = Some(ItemPart::WholeProduct(item));
        Ok(())
    }

    /// Stores one fragment of a multi-zone span; an occupied zone rejects it.
    pub fn add_part(&mut self, part: ItemPart) -> (r: Result<(), ErrorMessage>)
        ensures
            old(self).is_vacant() ==> r is Ok && *final(self) == (Zone {
                number: old(self).number,
                item: Some(part),
            }),
            !old(self).is_vacant() ==> r == Err::<(), ErrorMessage>(ErrorMessage::ZoneOccupied)
                && *final(self) == *old(self),
    {
        if self.item.is_some() {
            return Err(ErrorMessage::ZoneOccupied);
        }
        self.item = Some(part);
        Ok(())
    }

    /// Clears a whole single-zone unit. A fragment of a span may only leave
    /// through the oversized-removal path.
    pub fn remove(&mut self) -> (r: Result<(), ErrorMessage>)
        ensures
            old(self).is_vacant() ==> r == Err::<(), ErrorMessage>(ErrorMessage::ZoneEmpty)
                && *final(self) == *old(self),
            old(self).item matches Some(ItemPart::WholeProduct(_)) ==> r is Ok && *final(self)
                == (Zone { number: old(self).number, item: None }),
            !old(self).is_vacant() && !(old(self).item matches Some(ItemPart::WholeProduct(_)))
                ==> r == Err::<(), ErrorMessage>(ErrorMessage::CannotRemovePart) && *final(self)
                == *old(self),
    {
        match self.item {
            None => Err(ErrorMessage::ZoneEmpty),
            Some(ItemPart::WholeProduct(_)) => {
                self.item = None;
                Ok(())
            },
            Some(_) => Err(ErrorMessage::CannotRemovePart),
        }
    }

    /// Clears whatever occupies the zone, fragment or not.
    pub fn remove_part(&mut self) -> (r: Result<(), ErrorMessage>)
        ensures
            old(self).is_vacant() ==> r == Err::<(), ErrorMessage>(ErrorMessage::ZoneEmpty)
                && *final(self) == *old(self),
            !old(self).is_vacant() ==> r is Ok && *final(self) == (Zone {
                number: old(self).number,
                item: None,
            }),
    {
        if self.item.is_none() {
            return Err(ErrorMessage::ZoneEmpty);
        }
        self.item = None;
        Ok(())
    }

    pub fn is_empty(&self) -> (r: bool)
        ensures
            r == self.is_vacant(),
    {
        self.item.is_none()
    }
}

} // verus!
