//! What a predicate is, apart from how it is stored: its kind, its parameter,
//! and the words it accepts.

use crate::decimal::{digits_of, lemma_digits_round_trip, parsed_usize};
use crate::matching::{
    lemma_empty_text_matches, lemma_missing_tile, lemma_no_letters, lemma_own_letters_spell,
    occurs_in, spellable, uses_only,
};
use vstd::prelude::*;

verus! {

/// The number of predicate kinds.
pub const KIND_COUNT: usize = 6;

/// A predicate on words: one of six kinds, each with one parameter.
pub enum Rule {
    /// The word has exactly this many characters.
    Length(nat),
    /// The word begins with this text.
    StartsWith(Seq<char>),
    /// The word ends with this text.
    EndsWith(Seq<char>),
    /// The word holds this text as a contiguous run.
    Contains(Seq<char>),
    /// Every character of the word is one of these letters.
    UsingLetters(Seq<char>),
    /// The word can be spelled from these tiles, `?` standing for any letter.
    ScrabblePlayable(Seq<char>),
}

impl Rule {
    /// Whether the predicate holds of `word`.
    pub open spec fn accepts(self, word: Seq<char>) -> bool {
        match self {
            Rule::Length(n) => word.len() == n,
            Rule::StartsWith(prefix) => prefix.is_prefix_of(word),
            Rule::EndsWith(suffix) => suffix.is_suffix_of(word),
            Rule::Contains(run) => occurs_in(word, run),
            Rule::UsingLetters(letters) => uses_only(word, letters),
            Rule::ScrabblePlayable(tiles) => spellable(word, tiles),
        }
    }

    /// The position of the predicate's kind in the catalogue of kinds.
    pub open spec fn kind(self) -> nat {
        match self {
            Rule::Length(_) => 0,
            Rule::StartsWith(_) => 1,
            Rule::EndsWith(_) => 2,
            Rule::Contains(_) => 3,
            Rule::UsingLetters(_) => 4,
            Rule::ScrabblePlayable(_) => 5,
        }
    }

    /// The parameter as the text that an editor shows: a length in decimal
    /// digits, any other parameter as it is.
    pub open spec fn text(self) -> Seq<char> {
        match self {
            Rule::Length(n) => digits_of(n),
            Rule::StartsWith(s) => s,
            Rule::EndsWith(s) => s,
            Rule::Contains(s) => s,
            Rule::UsingLetters(s) => s,
            Rule::ScrabblePlayable(s) => s,
        }
    }

    /// The predicate of the same kind whose parameter is read from `raw`: a
    /// length is the number that `raw` writes, or 0 where it writes none that
    /// fits; any other parameter is `raw` itself.
    pub open spec fn with_text(self, raw: Seq<char>) -> Rule {
        match self {
            Rule::Length(_) => Rule::Length(
                match parsed_usize(raw) {
                    Some(n) => n as nat,
                    None => 0,
                },
            ),
            Rule::StartsWith(_) => Rule::StartsWith(raw),
            Rule::EndsWith(_) => Rule::EndsWith(raw),
            Rule::Contains(_) => Rule::Contains(raw),
            Rule::UsingLetters(_) => Rule::UsingLetters(raw),
            Rule::ScrabblePlayable(_) => Rule::ScrabblePlayable(raw),
        }
    }

    /// The line that a list of predicates shows: the kind's name, a colon and
    /// a space, and the parameter's text.
    pub open spec fn label(self) -> Seq<char> {
        kind_name(self.kind()) + ": "@ + self.text()
    }
}

/// The name of the kind at position `kind` of the catalogue.
pub open spec fn kind_name(kind: nat) -> Seq<char> {
    if kind == 0 {
        "Length"@
    } else if kind == 1 {
        "Starts with"@
    } else if kind == 2 {
        "Ends with"@
    } else if kind == 3 {
        "Contains"@
    } else if kind == 4 {
        "Using letters"@
    } else {
        "Scrabble playable"@
    }
}

/// The predicate that a new entry of kind `kind` starts as: length 0, or an
/// empty text; none where `kind` is no position of the catalogue.
pub open spec fn initial_rule(kind: nat) -> Option<Rule> {
    if kind == 0 {
        Some(Rule::Length(0))
    } else if kind == 1 {
        Some(Rule::StartsWith(Seq::empty()))
    } else if kind == 2 {
        Some(Rule::EndsWith(Seq::empty()))
    } else if kind == 3 {
        Some(Rule::Contains(Seq::empty()))
    } else if kind == 4 {
        Some(Rule::UsingLetters(Seq::empty()))
    } else if kind == 5 {
        Some(Rule::ScrabblePlayable(Seq::empty()))
    } else {
        None
    }
}

/// A predicate on prefixes, suffixes or runs whose text is empty accepts
/// every word.
pub proof fn lemma_empty_text_accepts(word: Seq<char>)
    ensures
        Rule::StartsWith(Seq::empty()).accepts(word),
        Rule::EndsWith(Seq::empty()).accepts(word),
        Rule::Contains(Seq::empty()).accepts(word),
{
    lemma_empty_text_matches(word);
}

/// With no letters to use, the empty word is accepted and no other.
pub proof fn lemma_using_no_letters(word: Seq<char>)
    ensures
        Rule::UsingLetters(Seq::empty()).accepts(word) <==> word.len() == 0,
{
    lemma_no_letters(word);
}

/// A word is playable from tiles that are its own letters in any order, and
/// no longer once any one of those tiles is taken away.
pub proof fn lemma_playable_from_own_letters(word: Seq<char>, tiles: Seq<char>)
    requires
        tiles.to_multiset() == word.to_multiset(),
    ensures
        Rule::ScrabblePlayable(tiles).accepts(word),
        forall|at: int|
            0 <= at < tiles.len() ==> !Rule::ScrabblePlayable(#[trigger] tiles.remove(at)).accepts(
                word,
            ),
{
    lemma_own_letters_spell(word, tiles);
    assert forall|at: int| 0 <= at < tiles.len() implies !Rule::ScrabblePlayable(
        #[trigger] tiles.remove(at),
    ).accepts(word) by {
        lemma_missing_tile(word, tiles, at);
    }
}

/// Editing round trip: a predicate that is given its own text as parameter
/// is the predicate it was. A length must be one that fits the machine.
pub proof fn lemma_text_round_trip(rule: Rule)
    requires
        rule matches Rule::Length(n) ==> n <= usize::MAX,
    ensures
        rule.with_text(rule.text()) == rule,
{
    if let Rule::Length(n) = rule {
        lemma_digits_round_trip(n);
        let text = digits_of(n);
        assert(crate::decimal::numeral_digits(text) == text);
    }
}

} // verus!
