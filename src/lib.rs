//! Production recipes for a factory game: exact rational rates, abbreviated
//! names resolved against a catalog, a parser for the recipe data file, and
//! the net per-product flow of crafters combined into a factory.

use vstd::prelude::*;

pub mod abbreviations;
pub mod error;
pub mod facilities;
pub mod factories;
pub mod products;
pub mod rates;
pub mod recipe_readers;
pub mod rational;
pub mod rational_literals;
pub mod recipes;
pub mod text;

verus! {

/// Sum of two sizes.
pub fn add(left: usize, right: usize) -> (r: usize)
    requires
        left + right <= usize::MAX,
    ensures
        r == left + right,
{
    left + right
}

} // verus!
