//! The word finder: a word list, a chain of predicates that filters it, and
//! the order in which what is left is shown.

use crate::arrange::{
    is_sorting_of, lemma_filter_of_sorting, lemma_kept_places, lemma_sorting_unique, sort_refs,
};
use crate::error::FinderError;
use crate::load::{parse_words, words_of};
use crate::ord::{order_at, order_name, WordOrder, ORDER_NAMES};
use crate::pred::{WordPredicate, PREDICATE_NAMES};
use crate::rule::{initial_rule, kind_name, Rule};
use vstd::prelude::*;

verus! {

/// A word list with the predicates and the order that shape its view.
#[derive(Debug)]
pub struct WordFinder {
    /// Where the word list was loaded from; empty while none is loaded.
    pub file_path: String,
    /// The words, in file order until they are sorted.
    pub word_list: Vec<String>,
    /// The filter chain: a word is shown when every predicate holds of it.
    pub predicates: Vec<WordPredicate>,
    /// The order in which words are shown.
    pub word_order: WordOrder,
}

/// What a vector of predicates stands for, one by one.
pub open spec fn rules_of(predicates: Seq<WordPredicate>) -> Seq<Rule> {
    Seq::new(predicates.len(), |i: int| predicates[i]@)
}

/// Every predicate of the chain holds of `word`. The empty chain holds of
/// every word.
pub open spec fn chain_accepts(rules: Seq<Rule>, word: Seq<char>) -> bool {
    forall|i: int| 0 <= i < rules.len() ==> (#[trigger] rules[i]).accepts(word)
}

/// The chain as a test on words.
pub open spec fn chain_filter(rules: Seq<Rule>) -> spec_fn(Seq<char>) -> bool {
    |word: Seq<char>| chain_accepts(rules, word)
}

/// The words of `words` that the chain accepts, each as often as it stands in
/// `words`, in the order of `words`.
pub open spec fn filtered(words: Seq<Seq<char>>, rules: Seq<Rule>) -> Seq<Seq<char>> {
    words.filter(chain_filter(rules))
}

/// `view` is what a finder shows: the accepted words, sorted stably.
pub open spec fn is_current_view(
    words: Seq<Seq<char>>,
    rules: Seq<Rule>,
    order: WordOrder,
    view: Seq<Seq<char>>,
) -> bool {
    is_sorting_of(order, filtered(words, rules), view)
}

/// The filtered list holds the accepted words and no others, one for each
/// place of the list where an accepted word stands, in the order of those
/// places. The places come back as the witness.
pub proof fn lemma_filtered_places(words: Seq<Seq<char>>, rules: Seq<Rule>) -> (kept: Seq<int>)
    ensures
        kept.len() == filtered(words, rules).len(),
        forall|k: int|
            0 <= k < kept.len() ==> 0 <= #[trigger] kept[k] < words.len() && chain_accepts(
                rules,
                words[kept[k]],
            ) && filtered(words, rules)[k] == words[kept[k]],
        forall|k: int, l: int| 0 <= k < l < kept.len() ==> kept[k] < kept[l],
        forall|i: int| 0 <= i < words.len() && chain_accepts(rules, words[i]) ==> kept.contains(i),
{
    lemma_kept_places(words, chain_filter(rules))
}

/// Sorting the word list and then filtering it shows the current view: the
/// accepted words of the sorted list are the sorting of the accepted words.
pub proof fn lemma_sorted_list_shows_view(
    words: Seq<Seq<char>>,
    rules: Seq<Rule>,
    order: WordOrder,
    sorted: Seq<Seq<char>>,
)
    requires
        is_sorting_of(order, words, sorted),
    ensures
        is_current_view(words, rules, order, filtered(sorted, rules)),
{
    lemma_filter_of_sorting(order, words, sorted, chain_filter(rules));
}

/// What a finder shows is fixed by its words, its chain and its order:
/// asking again without a change between gives the same list.
pub proof fn lemma_view_is_determined(
    words: Seq<Seq<char>>,
    rules: Seq<Rule>,
    order: WordOrder,
    one: Seq<Seq<char>>,
    other: Seq<Seq<char>>,
)
    requires
        is_current_view(words, rules, order, one),
        is_current_view(words, rules, order, other),
    ensures
        one == other,
{
    lemma_sorting_unique(order, filtered(words, rules), one, other);
}

impl Default for WordFinder {
    fn default() -> (finder: Self)
        ensures
            finder.file_path@.len() == 0,
            finder.words().len() == 0,
            finder.rules().len() == 0,
            finder.word_order == WordOrder::Alphabetical,
    {
        WordFinder::new()
    }
}

impl WordFinder {
    /// The words of the list.
    pub open spec fn words(&self) -> Seq<Seq<char>> {
        self.word_list.deep_view()
    }

    /// The filter chain.
    pub open spec fn rules(&self) -> Seq<Rule> {
        rules_of(self.predicates@)
    }

    /// A finder without words or predicates, in alphabetical order.
    pub fn new() -> (finder: Self)
        ensures
            finder.file_path@.len() == 0,
            finder.words().len() == 0,
            finder.rules().len() == 0,
            finder.word_order == WordOrder::Alphabetical,
    {
        WordFinder {
            file_path: String::new(),
            word_list: Vec::new(),
            predicates: Vec::new(),
            word_order: WordOrder::Alphabetical,
        }
    }

    /// Replaces the word list by the words of a source. `source` is the text
    /// that was read at `file_path`, or nothing where it could not be read:
    /// the finder then holds no words and no path. Predicates and order stay.
    pub fn load(&mut self, file_path: &str, source: Option<&str>)
        ensures
            match source {
                Some(text) => final(self).file_path@ == file_path@ && final(self).words()
                    == words_of(text@),
                None => final(self).file_path@.len() == 0 && final(self).words().len() == 0,
            },
            final(self).predicates == old(self).predicates,
            final(self).word_order == old(self).word_order,
    {
        match source {
            Some(text) => {
                self.file_path = file_path.to_owned();
                self.word_list = parse_words(text);
            },
            None => {
                self.file_path = String::new();
                self.word_list = Vec::new();
            },
        }
    }

    /// The names of the predicate kinds, for a menu: the name at position `i`
    /// is that of the kind that `add_predicate(i)` appends.
    pub fn iter_predicate_names(&self) -> (names: Vec<&'static str>)
        ensures
            names@.len() == 6,
            forall|i: int| 0 <= i < 6 ==> (#[trigger] names@[i])@ == kind_name(i as nat),
    {
        let mut names: Vec<&'static str> = Vec::new();
        let mut i: usize = 0;
        while i < 6
            invariant
                i <= 6,
                names@.len() == i,
                forall|k: int| 0 <= k < i ==> (#[trigger] names@[k])@ == kind_name(k as nat),
            decreases 6 - i,
        {
            names.push(PREDICATE_NAMES[i]);
            i += 1;
        }
        names
    }

    /// Appends a new predicate of the kind at `index` to the chain. An
    /// `index` past the catalogue of kinds changes nothing.
    pub fn add_predicate(&mut self, index: usize)
        ensures
            final(self).rules() == match initial_rule(index as nat) {
                Some(rule) => old(self).rules().push(rule),
                None => old(self).rules(),
            },
            final(self).file_path == old(self).file_path,
            final(self).word_list == old(self).word_list,
            final(self).word_order == old(self).word_order,
    {
        if let Some(p) = WordPredicate::from_index(index) {
            self.predicates.push(p);
            assert(self.rules() =~= old(self).rules().push(p@));
        }
    }

    /// The parameter of the predicate at `index` as text; the error
    /// `IndexOutOfRange` where the chain has no such position.
    pub fn get_predicate_string(&self, index: usize) -> (text: Result<String, FinderError>)
        ensures
            match text {
                Ok(s) => index < self.rules().len() && s@ == self.rules()[index as int].text(),
                Err(e) => index >= self.rules().len() && e == FinderError::IndexOutOfRange,
            },
    {
        if index < self.predicates.len() {
            Ok(self.predicates[index].get_string())
        } else {
            Err(FinderError::IndexOutOfRange)
        }
    }

    /// Gives the predicate at `index` the parameter that `s` says, keeping
    /// its kind. Where the chain has no such position nothing changes and the
    /// error `IndexOutOfRange` comes back.
    pub fn update_predicate(&mut self, index: usize, s: &str) -> (done: Result<(), FinderError>)
        ensures
            match done {
                Ok(_) => index < old(self).rules().len() && final(self).rules() == old(
                    self,
                ).rules().update(index as int, old(self).rules()[index as int].with_text(s@)),
                Err(e) => index >= old(self).rules().len() && e == FinderError::IndexOutOfRange
                    && final(self).predicates == old(self).predicates,
            },
            final(self).file_path == old(self).file_path,
            final(self).word_list == old(self).word_list,
            final(self).word_order == old(self).word_order,
    {
        if index < self.predicates.len() {
            self.predicates[index].update(s);
            assert(self.rules() =~= old(self).rules().update(
                index as int,
                old(self).rules()[index as int].with_text(s@),
            ));
            Ok(())
        } else {
            Err(FinderError::IndexOutOfRange)
        }
    }

    /// Takes the predicate at `index` out of the chain. Where the chain has
    /// no such position nothing changes and the error `IndexOutOfRange` comes
    /// back.
    pub fn remove_predicate(&mut self, index: usize) -> (done: Result<(), FinderError>)
        ensures
            match done {
                Ok(_) => index < old(self).rules().len() && final(self).rules() == old(
                    self,
                ).rules().remove(index as int),
                Err(e) => index >= old(self).rules().len() && e == FinderError::IndexOutOfRange
                    && final(self).predicates == old(self).predicates,
            },
            final(self).file_path == old(self).file_path,
            final(self).word_list == old(self).word_list,
            final(self).word_order == old(self).word_order,
    {
        if index < self.predicates.len() {
            self.predicates.remove(index);
            assert(self.rules() =~= old(self).rules().remove(index as int));
            Ok(())
        } else {
            Err(FinderError::IndexOutOfRange)
        }
    }

    /// The names of the orders, for a menu: the name at position `i` is that
    /// of the order that `set_order(i)` chooses.
    pub fn iter_order_names(&self) -> (names: Vec<&'static str>)
        ensures
            names@.len() == 5,
            forall|i: int| 0 <= i < 5 ==> (#[trigger] names@[i])@ == order_name(i as nat),
    {
        let mut names: Vec<&'static str> = Vec::new();
        let mut i: usize = 0;
        while i < 5
            invariant
                i <= 5,
                names@.len() == i,
                forall|k: int| 0 <= k < i ==> (#[trigger] names@[k])@ == order_name(k as nat),
            decreases 5 - i,
        {
            names.push(ORDER_NAMES[i]);
            i += 1;
        }
        names
    }

    /// Chooses the order at `index` of the catalogue of orders. An `index`
    /// past the catalogue changes nothing.
    pub fn set_order(&mut self, index: usize)
        ensures
            final(self).word_order == match order_at(index as nat) {
                Some(order) => order,
                None => old(self).word_order,
            },
            final(self).file_path == old(self).file_path,
            final(self).word_list == old(self).word_list,
            final(self).predicates == old(self).predicates,
    {
        if let Some(o) = WordOrder::from_index(index) {
            self.word_order = o;
        }
    }

    /// Whether every predicate of the chain holds of `word`. Predicates are
    /// tried from the first on, and none after one that fails.
    pub fn evaluate(&self, word: &str) -> (ok: bool)
        ensures
            ok == chain_accepts(self.rules(), word@),
    {
        let mut i: usize = 0;
        while i < self.predicates.len()
            invariant
                i <= self.predicates@.len(),
                forall|k: int| 0 <= k < i ==> (#[trigger] self.rules()[k]).accepts(word@),
            decreases self.predicates@.len() - i,
        {
            if !self.predicates[i].matches(word) {
                assert(!self.rules()[i as int].accepts(word@));
                return false;
            }
            i += 1;
        }
        true
    }

    /// The words of the list that the chain accepts, in list order. The
    /// answer is computed anew at every call.
    pub fn iter_filtered(&self) -> (kept: Vec<&String>)
        ensures
            kept.deep_view() == filtered(self.words(), self.rules()),
    {
        let ghost test = chain_filter(self.rules());
        let ghost words = self.words();
        let mut kept: Vec<&String> = Vec::new();
        let mut i: usize = 0;
        assert(words.take(0) =~= Seq::<Seq<char>>::empty());
        assert(kept.deep_view() =~= Seq::<Seq<char>>::empty());
        assert(Seq::<Seq<char>>::empty().filter(test) =~= Seq::<Seq<char>>::empty()) by {
            reveal(Seq::filter);
        }
        while i < self.word_list.len()
            invariant
                i <= self.word_list@.len(),
                words == self.words(),
                test == chain_filter(self.rules()),
                kept.deep_view() == words.take(i as int).filter(test),
            decreases self.word_list@.len() - i,
        {
            let word = &self.word_list[i];
            let ghost before = kept.deep_view();
            proof {
                assert(words.take(i + 1) =~= words.take(i as int).push(words[i as int]));
                words.take(i as int).lemma_filter_push(words[i as int], test);
                assert(words[i as int] == word@);
            }
            if self.evaluate(word.as_str()) {
                kept.push(word);
                assert(kept.deep_view() =~= before.push(word@));
            }
            i += 1;
        }
        assert(words.take(i as int) =~= words);
        kept
    }

    /// What the finder shows: the words that the chain accepts, sorted stably
    /// by the chosen order, as a list of their own. Neither the word list nor
    /// anything else of the finder changes. Under `Random` the answer is the
    /// error `UnsupportedOrder`.
    pub fn current(&self) -> (view: Result<Vec<String>, FinderError>)
        ensures
            match view {
                Ok(list) => self.word_order.supported() && is_current_view(
                    self.words(),
                    self.rules(),
                    self.word_order,
                    list.deep_view(),
                ),
                Err(e) => !self.word_order.supported() && e == FinderError::UnsupportedOrder,
            },
    {
        let kept = self.iter_filtered();
        sort_refs(self.word_order, &kept)
    }

    /// Sorts the word list in place, stably, by the chosen order. Under
    /// `Random` nothing changes and the error `UnsupportedOrder` comes back.
    pub fn sort(&mut self) -> (done: Result<(), FinderError>)
        ensures
            match done {
                Ok(_) => old(self).word_order.supported() && is_sorting_of(
                    old(self).word_order,
                    old(self).words(),
                    final(self).words(),
                ),
                Err(e) => !old(self).word_order.supported() && e == FinderError::UnsupportedOrder
                    && final(self).word_list == old(self).word_list,
            },
            final(self).file_path == old(self).file_path,
            final(self).predicates == old(self).predicates,
            final(self).word_order == old(self).word_order,
    {
        match self.word_order.sort(&self.word_list) {
            Ok(list) => {
                self.word_list = list;
                Ok(())
            },
            Err(e) => Err(e),
        }
    }

    /// The chain as the lines that a list of predicates shows.
    pub fn predicate_labels(&self) -> (lines: Vec<String>)
        ensures
            lines@.len() == self.rules().len(),
            forall|i: int|
                0 <= i < lines@.len() ==> (#[trigger] lines@[i])@ == self.rules()[i].label(),
    {
        let mut lines: Vec<String> = Vec::new();
        let mut i: usize = 0;
        while i < self.predicates.len()
            invariant
                i <= self.predicates@.len(),
                lines@.len() == i,
                forall|k: int| 0 <= k < i ==> (#[trigger] lines@[k])@ == self.rules()[k].label(),
            decreases self.predicates@.len() - i,
        {
            lines.push(self.predicates[i].display_label());
            i += 1;
        }
        lines
    }
}

} // verus!
