//! The ways in which the library's operations fail.

use vstd::prelude::*;

verus! {

/// Every failure of the library, with the text that caused it where there is one.
#[derive(Debug, Clone, PartialEq, Eq)]
pub enum Error {
    /// A name was empty or all whitespace.
    EmptyName,
    /// A recipe was given no outputs or no inputs.
    EmptyIngredientList,
    /// A recipe without a name does not have exactly one output to be named after.
    AmbiguousAutoName,
    /// A token that is not a non-empty run of letters was used as an abbreviation.
    InvalidAbbreviation(String),
    /// No candidate is abbreviated by the token.
    NoMatch(String),
    /// Several candidates are abbreviated by the token: the token, then all of them.
    AmbiguousMatch(String, Vec<String>),
    /// A line of a recipe block stands where the grammar allows no such line.
    MalformedBlock(String),
    /// A nametag line is not the last line of its block.
    MisplacedNametag(String),
    /// Numeric text could not be read.
    MalformedQuantity(String),
    /// A time or rate was divided by zero.
    DivisionByZero,
    /// An exact result does not fit in 64-bit numerator and denominator.
    Overflow,
    /// A crafter was given a multiplier that is not positive.
    InvalidMultiplier,
    /// A crafter equal to the one given is already connected.
    DuplicateCrafter,
    /// The product does not appear among the factory's rates.
    UnknownProduct(String),
    /// The crafter is not connected to the factory.
    NotConnected,
    /// The crafter has no positive rate for the product.
    NotAProducer,
    /// The upgraded rate would not be positive.
    InfeasibleUpgrade,
    /// The recipe has no positive rate for the goal's product.
    DoesNotProduceGoal,
}

} // verus!
