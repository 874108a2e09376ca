//! Word filters: the predicate kinds with the catalogue of their names, as a
//! menu of filters offers them.

use crate::decimal::{format_usize, parse_usize};
use crate::matching::{contains_run, ends_with, playable, spelled_with, starts_with};
use crate::rule::{initial_rule, kind_name, Rule};
use crate::text::{chars_of, string_of};
use vstd::prelude::*;
use vstd::string::StringExecFns;

verus! {

/// A filter on words, with its parameter.
#[derive(Debug)]
pub enum WordFilter {
    /// Words of exactly this many characters.
    Length(usize),
    /// Words that begin with this text.
    StartsWith(String),
    /// Words that end with this text.
    EndsWith(String),
    /// Words that hold this text as a contiguous run.
    Contains(String),
    /// Words spelled using only the given letters, a letter as often as needed.
    UsingLetters(String),
    /// Words that could be played from the given tiles in a game of Scrabble:
    /// each tile is used once at most, and `?` is a blank tile that stands for
    /// any one letter.
    ScrabblePlayable(String),
}

impl View for WordFilter {
    type V = Rule;

    open spec fn view(&self) -> Rule {
        match self {
            WordFilter::Length(n) => Rule::Length(*n as nat),
            WordFilter::StartsWith(s) => Rule::StartsWith(s@),
            WordFilter::EndsWith(s) => Rule::EndsWith(s@),
            WordFilter::Contains(s) => Rule::Contains(s@),
            WordFilter::UsingLetters(s) => Rule::UsingLetters(s@),
            WordFilter::ScrabblePlayable(s) => Rule::ScrabblePlayable(s@),
        }
    }
}

impl WordFilter {
    /// The names of the filter kinds, in catalogue order: the name at
    /// position `i` is that of the kind that `from_index(i)` makes.
    pub fn list_names() -> (names: Vec<String>)
        ensures
            names@.len() == 6,
            forall|i: int| 0 <= i < 6 ==> (#[trigger] names@[i])@ == kind_name(i as nat),
    {
        let mut names: Vec<String> = Vec::new();
        names.push(String::from_str("Length"));
        names.push(String::from_str("Starts with"));
        names.push(String::from_str("Ends with"));
        names.push(String::from_str("Contains"));
        names.push(String::from_str("Using letters"));
        names.push(String::from_str("Scrabble playable"));
        names
    }

    /// The filter that a new entry of the kind at `index` starts as; none
    /// where `index` is past the catalogue.
    pub fn from_index(index: usize) -> (made: Option<Self>)
        ensures
            match made {
                Some(p) => initial_rule(index as nat) == Some(p@),
                None => initial_rule(index as nat).is_none(),
            },
    {
        match index {
            0 => Some(WordFilter::Length(0)),
            1 => Some(WordFilter::StartsWith(String::new())),
            2 => Some(WordFilter::EndsWith(String::new())),
            3 => Some(WordFilter::Contains(String::new())),
            4 => Some(WordFilter::UsingLetters(String::new())),
            5 => Some(WordFilter::ScrabblePlayable(String::new())),
            _ => None,
        }
    }

    /// Whether the filter lets `word` pass.
    pub fn matches(&self, word: &str) -> (ok: bool)
        ensures
            ok == self@.accepts(word@),
    {
        let letters = chars_of(word);
        match self {
            WordFilter::Length(len) => letters.len() == *len,
            WordFilter::StartsWith(prefix) => {
                let prefix = chars_of(prefix.as_str());
                starts_with(letters.as_slice(), prefix.as_slice())
            },
            WordFilter::EndsWith(suffix) => {
                let suffix = chars_of(suffix.as_str());
                ends_with(letters.as_slice(), suffix.as_slice())
            },
            WordFilter::Contains(substring) => {
                let substring = chars_of(substring.as_str());
                contains_run(letters.as_slice(), substring.as_slice())
            },
            WordFilter::UsingLetters(allowed) => {
                let allowed = chars_of(allowed.as_str());
                spelled_with(letters.as_slice(), allowed.as_slice())
            },
            WordFilter::ScrabblePlayable(tiles) => {
                let tiles = chars_of(tiles.as_str());
                playable(letters.as_slice(), tiles.as_slice())
            },
        }
    }

    /// The parameter as text, for an editor to start from.
    pub fn get_string(&self) -> (text: String)
        ensures
            text@ == self@.text(),
    {
        match self {
            WordFilter::Length(len) => {
                let digits = format_usize(*len);
                string_of(digits.as_slice())
            },
            WordFilter::StartsWith(prefix) => prefix.clone(),
            WordFilter::EndsWith(suffix) => suffix.clone(),
            WordFilter::Contains(substring) => substring.clone(),
            WordFilter::UsingLetters(letters) => letters.clone(),
            WordFilter::ScrabblePlayable(tiles) => tiles.clone(),
        }
    }

    /// Replaces the parameter by what `s` says, keeping the kind. A length
    /// that `s` does not write becomes 0.
    pub fn update(&mut self, s: &str)
        ensures
            final(self)@ == old(self)@.with_text(s@),
    {
        match self {
            WordFilter::Length(len) => {
                let raw = chars_of(s);
                *len = match parse_usize(raw.as_slice()) {
                    Some(n) => n,
                    None => 0,
                };
            },
            WordFilter::StartsWith(prefix) => {
                *prefix = s.to_owned();
            },
            WordFilter::EndsWith(suffix) => {
                *suffix = s.to_owned();
            },
            WordFilter::Contains(substring) => {
                *substring = s.to_owned();
            },
            WordFilter::UsingLetters(letters) => {
                *letters = s.to_owned();
            },
            WordFilter::ScrabblePlayable(tiles) => {
                *tiles = s.to_owned();
            },
        }
    }

    /// The name of the filter's kind.
    pub fn kind_name(&self) -> (name: &'static str)
        ensures
            name@ == kind_name(self@.kind()),
    {
        match self {
            WordFilter::Length(_) => "Length",
            WordFilter::StartsWith(_) => "Starts with",
            WordFilter::EndsWith(_) => "Ends with",
            WordFilter::Contains(_) => "Contains",
            WordFilter::UsingLetters(_) => "Using letters",
            WordFilter::ScrabblePlayable(_) => "Scrabble playable",
        }
    }

    /// The line that shows the filter in a list: kind, colon, parameter.
    pub fn display_label(&self) -> (line: String)
        ensures
            line@ == self@.label(),
    {
        let mut line = String::from_str(self.kind_name());
        line.append(": ");
        let text = self.get_string();
        line.append(text.as_str());
        line
    }
}

} // verus!
