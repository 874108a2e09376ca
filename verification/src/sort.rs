//! The sorter: the choice of order, as a sorting menu holds it.

use crate::error::FinderError;
use crate::ord::{verdict_of, WordOrder};
use std::cmp::Ordering;
use vstd::prelude::*;

verus! {

/// A way to sort words.
#[derive(Debug, Clone, Copy, PartialEq, Eq, Structural)]
pub enum Sorter {
    /// Dictionary order.
    Alphabetical,
    /// Dictionary order, backwards.
    RevAlphabetical,
    /// Shorter words first.
    Length,
    /// Longer words first.
    RevLength,
    /// No fixed order; comparing by it is reported as unsupported.
    Random,
}

impl Default for Sorter {
    fn default() -> (sorter: Self)
        ensures
            sorter == Sorter::Alphabetical,
    {
        Sorter::Alphabetical
    }
}

impl Sorter {
    /// The order that the sorter sorts by.
    pub open spec fn order(self) -> WordOrder {
        match self {
            Sorter::Alphabetical => WordOrder::Alphabetical,
            Sorter::RevAlphabetical => WordOrder::RevAlphabetical,
            Sorter::Length => WordOrder::Length,
            Sorter::RevLength => WordOrder::RevLength,
            Sorter::Random => WordOrder::Random,
        }
    }

    /// The order that the sorter sorts by.
    pub fn to_order(&self) -> (order: WordOrder)
        ensures
            order == self.order(),
    {
        match self {
            Sorter::Alphabetical => WordOrder::Alphabetical,
            Sorter::RevAlphabetical => WordOrder::RevAlphabetical,
            Sorter::Length => WordOrder::Length,
            Sorter::RevLength => WordOrder::RevLength,
            Sorter::Random => WordOrder::Random,
        }
    }

    /// Compares two words as the sorter's order does. `Random` compares
    /// nothing: for it the answer is the error `UnsupportedOrder`.
    pub fn cmp(&self, left: &str, right: &str) -> (verdict: Result<Ordering, FinderError>)
        ensures
            verdict == verdict_of(self.order(), left@, right@),
    {
        self.to_order().cmp(left, right)
    }
}

} // verus!
