//! Plain data types describing a resolved citation item.

use vstd::prelude::*;

verus! {

/// The kind of a resolved item.
pub enum ItemType {
    WebPage,
}

/// One creator of an item, either structured or as a literal name.
pub struct Author {
    pub family: Option<String>,
    pub given: Option<String>,
    pub literal: Option<String>,
}

/// Where one field of an item was extracted from.
pub struct Provenance {
    pub field: String,
    pub source: String,
}

} // verus!
