//! The orders in which a word list can be shown.

use crate::error::FinderError;
use crate::lexical::{
    gap_of, lemma_lex_antisymmetric, lemma_lex_reflexive, lemma_lex_total, lemma_lex_transitive,
    lemma_order_at_gap, lex_le,
};
use crate::text::chars_of;
use std::cmp::Ordering;
use vstd::prelude::*;

verus! {

/// An order on words.
#[derive(Debug, Clone, Copy, PartialEq, Eq, Structural)]
pub enum WordOrder {
    /// Dictionary order.
    Alphabetical,
    /// Dictionary order, backwards.
    RevAlphabetical,
    /// Shorter words first.
    Length,
    /// Longer words first.
    RevLength,
    /// No fixed order. It can be chosen, but nothing can be compared or sorted
    /// by it: every attempt is reported as unsupported.
    Random,
}

/// The names of the orders, in catalogue order.
pub const ORDER_NAMES: [&'static str; 5] = [
    "Alphabetical",
    "Reverse alphabetical",
    "Length",
    "Reverse length",
    "Random",
];

/// How one word stands to another under an order.
#[derive(Debug, Clone, Copy, PartialEq, Eq, Structural)]
pub enum Rank {
    /// The first word comes before the second.
    Before,
    /// Neither word comes before the other.
    Same,
    /// The first word comes after the second.
    After,
}

/// The name of the order at position `index` of the catalogue.
pub open spec fn order_name(index: nat) -> Seq<char> {
    if index == 0 {
        "Alphabetical"@
    } else if index == 1 {
        "Reverse alphabetical"@
    } else if index == 2 {
        "Length"@
    } else if index == 3 {
        "Reverse length"@
    } else {
        "Random"@
    }
}

/// The order at position `index` of the catalogue, if there is one.
pub open spec fn order_at(index: nat) -> Option<WordOrder> {
    if index == 0 {
        Some(WordOrder::Alphabetical)
    } else if index == 1 {
        Some(WordOrder::RevAlphabetical)
    } else if index == 2 {
        Some(WordOrder::Length)
    } else if index == 3 {
        Some(WordOrder::RevLength)
    } else if index == 4 {
        Some(WordOrder::Random)
    } else {
        None
    }
}

impl Default for WordOrder {
    fn default() -> (order: Self)
        ensures
            order == WordOrder::Alphabetical,
    {
        WordOrder::Alphabetical
    }
}

impl WordOrder {
    /// Whether words can be compared by this order.
    pub open spec fn supported(self) -> bool {
        self != WordOrder::Random
    }

    /// `a` comes no later than `b`. Lengths count characters. Under
    /// `Random`, which orders nothing, this holds of every pair.
    pub open spec fn no_later(self, a: Seq<char>, b: Seq<char>) -> bool {
        match self {
            WordOrder::Alphabetical => lex_le(a, b),
            WordOrder::RevAlphabetical => lex_le(b, a),
            WordOrder::Length => a.len() <= b.len(),
            WordOrder::RevLength => b.len() <= a.len(),
            WordOrder::Random => true,
        }
    }

    /// How `a` stands to `b`.
    pub open spec fn rank(self, a: Seq<char>, b: Seq<char>) -> Rank {
        if !self.no_later(b, a) {
            Rank::Before
        } else if !self.no_later(a, b) {
            Rank::After
        } else {
            Rank::Same
        }
    }

    /// The order at position `index` of the catalogue; none past its end.
    pub fn from_index(index: usize) -> (made: Option<Self>)
        ensures
            made == order_at(index as nat),
    {
        match index {
            0 => Some(WordOrder::Alphabetical),
            1 => Some(WordOrder::RevAlphabetical),
            2 => Some(WordOrder::Length),
            3 => Some(WordOrder::RevLength),
            4 => Some(WordOrder::Random),
            _ => None,
        }
    }

    /// Every supported order is reflexive and total, and carries over a word
    /// in the middle: it ranks all words in one line, ties allowed.
    pub proof fn lemma_total_preorder(self, a: Seq<char>, b: Seq<char>, c: Seq<char>)
        ensures
            self.no_later(a, a),
            self.no_later(a, b) || self.no_later(b, a),
            self.no_later(a, b) && self.no_later(b, c) ==> self.no_later(a, c),
    {
        lemma_lex_reflexive(a);
        lemma_lex_total(a, b);
        if lex_le(a, b) && lex_le(b, c) {
            lemma_lex_transitive(a, b, c);
        }
        if lex_le(c, b) && lex_le(b, a) {
            lemma_lex_transitive(c, b, a);
        }
    }

    /// In dictionary order, forwards or backwards, only a word itself ranks
    /// the same as it.
    pub proof fn lemma_alphabetical_ties(self, a: Seq<char>, b: Seq<char>)
        requires
            self == WordOrder::Alphabetical || self == WordOrder::RevAlphabetical,
            self.rank(a, b) == Rank::Same,
        ensures
            a == b,
    {
        lemma_lex_antisymmetric(a, b);
    }

    /// How `a` stands to `b` under this order; nothing under `Random`.
    pub fn rank_of(&self, a: &[char], b: &[char]) -> (found: Option<Rank>)
        ensures
            found == if self.supported() {
                Some(self.rank(a@, b@))
            } else {
                None
            },
    {
        match self {
            WordOrder::Alphabetical => Some(dictionary_rank(a, b)),
            WordOrder::RevAlphabetical => Some(dictionary_rank(b, a)),
            WordOrder::Length => Some(length_rank(a.len(), b.len())),
            WordOrder::RevLength => Some(length_rank(b.len(), a.len())),
            WordOrder::Random => None,
        }
    }

    /// Compares two words by this order. `Random` compares nothing: for it
    /// the answer is the error `UnsupportedOrder`.
    pub fn cmp(&self, left: &str, right: &str) -> (verdict: Result<Ordering, FinderError>)
        ensures
            verdict == verdict_of(*self, left@, right@),
    {
        let a = chars_of(left);
        let b = chars_of(right);
        match self.rank_of(a.as_slice(), b.as_slice()) {
            Some(Rank::Before) => Ok(Ordering::Less),
            Some(Rank::Same) => Ok(Ordering::Equal),
            Some(Rank::After) => Ok(Ordering::Greater),
            None => Err(FinderError::UnsupportedOrder),
        }
    }
}

/// What comparing `left` with `right` by `order` answers.
pub open spec fn verdict_of(order: WordOrder, left: Seq<char>, right: Seq<char>) -> Result<
    Ordering,
    FinderError,
> {
    if order.supported() {
        Ok(
            match order.rank(left, right) {
                Rank::Before => Ordering::Less,
                Rank::Same => Ordering::Equal,
                Rank::After => Ordering::Greater,
            },
        )
    } else {
        Err(FinderError::UnsupportedOrder)
    }
}

/// How `a` stands to `b` in the dictionary.
fn dictionary_rank(a: &[char], b: &[char]) -> (rank: Rank)
    ensures
        rank == WordOrder::Alphabetical.rank(a@, b@),
        rank == WordOrder::RevAlphabetical.rank(b@, a@),
{
    let k = gap_of(a, b);
    proof {
        lemma_order_at_gap(a@, b@, k as int);
        lemma_order_at_gap(b@, a@, k as int);
    }
    if k == a.len() {
        if k == b.len() {
            Rank::Same
        } else {
            Rank::Before
        }
    } else if k == b.len() {
        Rank::After
    } else if a[k] < b[k] {
        Rank::Before
    } else {
        Rank::After
    }
}

/// How a word of `a` characters stands to one of `b` when shorter comes first.
fn length_rank(a: usize, b: usize) -> (rank: Rank)
    ensures
        rank == if a < b {
            Rank::Before
        } else if a > b {
            Rank::After
        } else {
            Rank::Same
        },
{
    if a < b {
        Rank::Before
    } else if a > b {
        Rank::After
    } else {
        Rank::Same
    }
}

} // verus!
