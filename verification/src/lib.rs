//! A verified warehouse: products are stored in a tree of rows, shelves,
//! levels and zones, placed by one of three strategies over a flat occupancy
//! map, and removed earliest-expiry-first. Every counter, span and search is
//! specified and proved; `laws` states the crate-wide theorems.

pub mod date;
pub mod inventory;
pub mod laws;
pub mod level;
pub mod messages;
pub mod product;
pub mod row;
pub mod shelf;
pub mod warehouse;
pub mod zone;
