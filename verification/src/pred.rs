//! Word predicates as a filter chain stores and edits them.

use crate::decimal::{format_usize, parse_usize};
use crate::matching::{contains_run, ends_with, playable, spelled_with, starts_with};
use crate::rule::{initial_rule, kind_name, Rule};
use crate::text::{chars_of, string_of};
use vstd::prelude::*;
use vstd::string::StringExecFns;

verus! {

/// A predicate on words, with its parameter.
#[derive(Debug)]
pub enum WordPredicate {
    /// Words of exactly this many characters.
    Length(usize),
    /// Words that begin with this text.
    StartsWith(String),
    /// Words that end with this text.
    EndsWith(String),
    /// Words that hold this text as a contiguous run.
    Contains(String),
    /// Words spelled using only the given letters, a letter as often as needed.
    UsingLetters(String),
    /// Words that could be played from the given tiles in a game of Scrabble:
    /// each tile is used once at most, and `?` is a blank tile that stands for
    /// any one letter.
    ScrabblePlayable(String),
}

/// The names of the predicate kinds, in catalogue order.
pub const PREDICATE_NAMES: [&'static str; 6] = [
    "Length",
    "Starts with",
    "Ends with",
    "Contains",
    "Using letters",
    "Scrabble playable",
];

impl View for WordPredicate {
    type V = Rule;

    open spec fn view(&self) -> Rule {
        match self {
            WordPredicate::Length(n) => Rule::Length(*n as nat),
            WordPredicate::StartsWith(s) => Rule::StartsWith(s@),
            WordPredicate::EndsWith(s) => Rule::EndsWith(s@),
            WordPredicate::Contains(s) => Rule::Contains(s@),
            WordPredicate::UsingLetters(s) => Rule::UsingLetters(s@),
            WordPredicate::ScrabblePlayable(s) => Rule::ScrabblePlayable(s@),
        }
    }
}

impl WordPredicate {
    /// The predicate that a new entry of the kind at `index` starts as; none
    /// where `index` is past the catalogue.
    pub fn from_index(index: usize) -> (made: Option<Self>)
        ensures
            match made {
                Some(p) => initial_rule(index as nat) == Some(p@),
                None => initial_rule(index as nat).is_none(),
            },
    {
        match index {
            0 => Some(WordPredicate::Length(0)),
            1 => Some(WordPredicate::StartsWith(String::new())),
            2 => Some(WordPredicate::EndsWith(String::new())),
            3 => Some(WordPredicate::Contains(String::new())),
            4 => Some(WordPredicate::UsingLetters(String::new())),
            5 => Some(WordPredicate::ScrabblePlayable(String::new())),
            _ => None,
        }
    }

    /// Whether the predicate holds of `word`.
    pub fn matches(&self, word: &str) -> (ok: bool)
        ensures
            ok == self@.accepts(word@),
    {
        let letters = chars_of(word);
        match self {
            WordPredicate::Length(len) => letters.len() == *len,
            WordPredicate::StartsWith(prefix) => {
                let prefix = chars_of(prefix.as_str());
                starts_with(letters.as_slice(), prefix.as_slice())
            },
            WordPredicate::EndsWith(suffix) => {
                let suffix = chars_of(suffix.as_str());
                ends_with(letters.as_slice(), suffix.as_slice())
            },
            WordPredicate::Contains(substring) => {
                let substring = chars_of(substring.as_str());
                contains_run(letters.as_slice(), substring.as_slice())
            },
            WordPredicate::UsingLetters(allowed) => {
                let allowed = chars_of(allowed.as_str());
                spelled_with(letters.as_slice(), allowed.as_slice())
            },
            WordPredicate::ScrabblePlayable(tiles) => {
                let tiles = chars_of(tiles.as_str());
                playable(letters.as_slice(), tiles.as_slice())
            },
        }
    }

    /// The parameter as text, for an editor to start from.
    pub fn get_string(&self) -> (text: String)
        ensures
            text@ == self@.text(),
    {
        match self {
            WordPredicate::Length(len) => {
                let digits = format_usize(*len);
                string_of(digits.as_slice())
            },
            WordPredicate::StartsWith(prefix) => prefix.clone(),
            WordPredicate::EndsWith(suffix) => suffix.clone(),
            WordPredicate::Contains(substring) => substring.clone(),
            WordPredicate::UsingLetters(letters) => letters.clone(),
            WordPredicate::ScrabblePlayable(tiles) => tiles.clone(),
        }
    }

    /// Replaces the parameter by what `s` says, keeping the kind. A length
    /// that `s` does not write becomes 0.
    pub fn update(&mut self, s: &str)
        ensures
            final(self)@ == old(self)@.with_text(s@),
    {
        match self {
            WordPredicate::Length(len) => {
                let raw = chars_of(s);
                *len = match parse_usize(raw.as_slice()) {
                    Some(n) => n,
                    None => 0,
                };
            },
            WordPredicate::StartsWith(prefix) => {
                *prefix = s.to_owned();
            },
            WordPredicate::EndsWith(suffix) => {
                *suffix = s.to_owned();
            },
            WordPredicate::Contains(substring) => {
                *substring = s.to_owned();
            },
            WordPredicate::UsingLetters(letters) => {
                *letters = s.to_owned();
            },
            WordPredicate::ScrabblePlayable(tiles) => {
                *tiles = s.to_owned();
            },
        }
    }

    /// The name of the predicate's kind.
    pub fn kind_name(&self) -> (name: &'static str)
        ensures
            name@ == kind_name(self@.kind()),
    {
        match self {
            WordPredicate::Length(_) => "Length",
            WordPredicate::StartsWith(_) => "Starts with",
            WordPredicate::EndsWith(_) => "Ends with",
            WordPredicate::Contains(_) => "Contains",
            WordPredicate::UsingLetters(_) => "Using letters",
            WordPredicate::ScrabblePlayable(_) => "Scrabble playable",
        }
    }

    /// The line that shows the predicate in a list: kind, colon, parameter.
    pub fn display_label(&self) -> (line: String)
        ensures
            line@ == self@.label(),
    {
        let mut line = String::from_str(self.kind_name());
        line.append(": ");
        let text = self.get_string();
        line.append(text.as_str());
        line
    }
}

} // verus!
