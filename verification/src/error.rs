//! The failures that the library reports.

use vstd::prelude::*;

verus! {

/// Why a request to a word finder was not carried out.
#[derive(Debug, Clone, Copy, PartialEq, Eq, Structural)]
pub enum FinderError {
    /// A position named no predicate of the chain.
    IndexOutOfRange,
    /// The chosen order cannot be used to compare or sort words.
    UnsupportedOrder,
}

impl FinderError {
    /// The failure in words, for a status line.
    pub fn message(&self) -> (text: &'static str)
        ensures
            text@ == match self {
                FinderError::IndexOutOfRange => "no predicate at that position"@,
                FinderError::UnsupportedOrder => "this order is not supported"@,
            },
    {
        match self {
            FinderError::IndexOutOfRange => "no predicate at that position",
            FinderError::UnsupportedOrder => "this order is not supported",
        }
    }
}

} // verus!
