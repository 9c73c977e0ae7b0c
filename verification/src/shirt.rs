//! Shirt-construction choices offered by the drafting layer.
//!
//! A shirt is assembled from a body, a collar and a pair of sleeves; each of
//! these comes in named variants that the drafting layer selects by one of
//! the enums below.

use vstd::prelude::*;

verus! {

/// The body construction of a shirt.
pub enum BodyType {
    Polo,
}

/// The collar construction of a shirt.
pub enum CollarType {
    Stand,
}

/// The sleeve construction of a shirt.
pub enum SleeveType {
    Short,
}

} // verus!
