use vstd::prelude::*;

verus! {

/// The policy that decides where newly restocked units go.
#[derive(Clone, Copy, Debug, PartialEq, Eq, Structural)]
pub enum PlacementStrategy {
    Contiguous,
    RoundRobin,
    ClosestToStart,
}

/// The failures that spatial operations surface, as typed values; rendering
/// them as text is left to the caller.
#[derive(Clone, Copy, Debug, PartialEq, Eq, Structural)]
pub enum ErrorMessage {
    InsufficientSpace,
    InsufficientStock,
    NoContiguousSpace,
    NoProductFound,
    NotEnoughZones,
    ZoneOccupied,
    ZoneEmpty,
    ZoneNotFound,
    LevelNotFound,
    ShelfNotFound,
    CannotRemovePart,
    RowNotFound,
    NotProductStart,
    ProductNotListed,
    EndOfRows,
    EndOfWarehouse,
    LevelTooHigh,
    FragileObjectWithoutExpiration,
}

pub open spec fn spec_error_text(e: ErrorMessage) -> Seq<char> {
    match e {
        ErrorMessage::InsufficientSpace => "Insufficient space"@,
        ErrorMessage::InsufficientStock => "Insufficient stock"@,
        ErrorMessage::NoContiguousSpace => "No contiguous space available to add in bulk. Please organize items first, or add them individually."@,
        ErrorMessage::ZoneOccupied => "Zone is already occupied"@,
        ErrorMessage::ZoneEmpty => "Zone is empty"@,
        ErrorMessage::ZoneNotFound => "Zone not found"@,
        ErrorMessage::LevelNotFound => "Level not found"@,
        ErrorMessage::ShelfNotFound => "Shelf not found"@,
        ErrorMessage::RowNotFound => "Row not found"@,
        ErrorMessage::NoProductFound => "No product found"@,
        ErrorMessage::CannotRemovePart => "Cannot remove part without removing whole product"@,
        ErrorMessage::NotEnoughZones => "Not enough zones available to fit oversized item"@,
        ErrorMessage::NotProductStart => "Zone is not the start of a product"@,
        ErrorMessage::ProductNotListed => "Product not listed"@,
        ErrorMessage::EndOfRows => "End of last row reached"@,
        ErrorMessage::EndOfWarehouse => "End of warehouse reached"@,
        ErrorMessage::LevelTooHigh => "Level too high"@,
        ErrorMessage::FragileObjectWithoutExpiration => "Fragile object without expiration"@,
    }
}

impl ErrorMessage {
    pub fn as_str(&self) -> (r: &'static str)
        ensures
            r@ == spec_error_text(*self),
    {
        match *self {
            ErrorMessage::InsufficientSpace => "Insufficient space",
            ErrorMessage::InsufficientStock => "Insufficient stock",
            ErrorMessage::NoContiguousSpace => "No contiguous space available to add in bulk. Please organize items first, or add them individually.",
            ErrorMessage::ZoneOccupied => "Zone is already occupied",
            ErrorMessage::ZoneEmpty => "Zone is empty",
            ErrorMessage::ZoneNotFound => "Zone not found",
            ErrorMessage::LevelNotFound => "Level not found",
            ErrorMessage::ShelfNotFound => "Shelf not found",
            ErrorMessage::RowNotFound => "Row not found",
            ErrorMessage::NoProductFound => "No product found",
            ErrorMessage::CannotRemovePart => "Cannot remove part without removing whole product",
            ErrorMessage::NotEnoughZones => "Not enough zones available to fit oversized item",
            ErrorMessage::NotProductStart => "Zone is not the start of a product",
            ErrorMessage::ProductNotListed => "Product not listed",
            ErrorMessage::EndOfRows => "End of last row reached",
            ErrorMessage::EndOfWarehouse => "End of warehouse reached",
            ErrorMessage::LevelTooHigh => "Level too high",
            ErrorMessage::FragileObjectWithoutExpiration => "Fragile object without expiration",
        }
    }
}

/// Events worth telling the caller about, with their payload text.
#[derive(Debug)]
pub enum InfoMessage {
    Added(String),
    Removed(String),
    Restocked(String),
    Taken(String),
    Moved(String),
    Initialized(String),
}

pub open spec fn spec_info_name(m: InfoMessage) -> Seq<char> {
    match m {
        InfoMessage::Added(_) => "Added"@,
        InfoMessage::Removed(_) => "Removed"@,
        InfoMessage::Restocked(_) => "Restocked"@,
        InfoMessage::Initialized(_) => "Initialized"@,
        InfoMessage::Taken(_) => "Taken"@,
        InfoMessage::Moved(_) => "Moved"@,
    }
}

pub open spec fn spec_info_payload(m: InfoMessage) -> Seq<char> {
    match m {
        InfoMessage::Added(s) => s@,
        InfoMessage::Removed(s) => s@,
        InfoMessage::Restocked(s) => s@,
        InfoMessage::Initialized(s) => s@,
        InfoMessage::Taken(s) => s@,
        InfoMessage::Moved(s) => s@,
    }
}

impl InfoMessage {
    pub fn as_str(&self) -> (r: &'static str)
        ensures
            r@ == spec_info_name(*self),
    {
        match self {
            InfoMessage::Added(_) => "Added",
            InfoMessage::Removed(_) => "Removed",
            InfoMessage::Restocked(_) => "Restocked",
            InfoMessage::Initialized(_) => "Initialized",
            InfoMessage::Taken(_) => "Taken",
            InfoMessage::Moved(_) => "Moved",
        }
    }

    /// The event name followed by its payload.
    pub fn full_message(&self) -> (r: String)
        ensures
            r@ == spec_info_name(*self) + " "@ + spec_info_payload(*self),
    {
        let mut text: String = self.as_str().to_owned();
        text.append(" ");
        match self {
            InfoMessage::Added(s) => text.append(s.as_str()),
            InfoMessage::Removed(s) => text.append(s.as_str()),
            InfoMessage::Restocked(s) => text.append(s.as_str()),
            InfoMessage::Initialized(s) => text.append(s.as_str()),
            InfoMessage::Taken(s) => text.append(s.as_str()),
            InfoMessage::Moved(s) => text.append(s.as_str()),
        }
        text
    }
}

} // verus!
