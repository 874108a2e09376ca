use word_finder::error::FinderError;
use word_finder::ord::WordOrder;
use word_finder::pred::WordPredicate;
use word_finder::words::WordFinder;

fn finder_with(words: &[&str]) -> WordFinder {
    let mut finder = WordFinder::new();
    finder.word_list = words.iter().map(|w| w.to_string()).collect();
    finder
}

fn labels(finder: &WordFinder) -> Vec<String> {
    finder.predicate_labels()
}

#[test]
fn new_finder_is_empty() {
    let finder = WordFinder::new();
    assert_eq!(finder.file_path, "");
    assert!(finder.word_list.is_empty());
    assert!(finder.predicates.is_empty());
    assert_eq!(finder.word_order, WordOrder::Alphabetical);
    let finder = WordFinder::default();
    assert_eq!(finder.file_path, "");
    assert!(finder.word_list.is_empty());
    assert!(finder.predicates.is_empty());
    assert_eq!(finder.word_order, WordOrder::Alphabetical);
}

#[test]
fn scenario_starts_with_ca_alphabetical() {
    let mut finder = finder_with(&["cat", "car", "cart", "dog"]);
    finder.add_predicate(1);
    assert_eq!(finder.update_predicate(0, "ca"), Ok(()));
    finder.set_order(0);
    assert_eq!(finder.current(), Ok(vec!["car".to_string(), "cart".to_string(), "cat".to_string()]));
    // The same view by sorting the list and filtering it.
    assert_eq!(finder.sort(), Ok(()));
    assert_eq!(finder.iter_filtered(), vec!["car", "cart", "cat"]);
}

#[test]
fn scenario_remove_at_chain_length_is_out_of_range() {
    let mut finder = finder_with(&["cat"]);
    finder.add_predicate(1);
    finder.add_predicate(0);
    finder.update_predicate(0, "ca").unwrap();
    finder.update_predicate(1, "3").unwrap();
    let before = labels(&finder);
    assert_eq!(finder.remove_predicate(2), Err(FinderError::IndexOutOfRange));
    assert_eq!(labels(&finder), before);
    assert_eq!(finder.remove_predicate(usize::MAX), Err(FinderError::IndexOutOfRange));
    assert_eq!(labels(&finder), before);
    let mut empty = WordFinder::new();
    assert_eq!(empty.remove_predicate(0), Err(FinderError::IndexOutOfRange));
    assert!(empty.predicates.is_empty());
}

#[test]
fn remove_predicate_takes_out_the_one_at_the_position() {
    let mut finder = WordFinder::new();
    for kind in [0, 1, 2, 3] {
        finder.add_predicate(kind);
    }
    finder.update_predicate(1, "a").unwrap();
    assert_eq!(finder.remove_predicate(1), Ok(()));
    assert_eq!(labels(&finder), vec!["Length: 0", "Ends with: ", "Contains: "]);
    assert_eq!(finder.remove_predicate(2), Ok(()));
    assert_eq!(labels(&finder), vec!["Length: 0", "Ends with: "]);
    assert_eq!(finder.remove_predicate(0), Ok(()));
    assert_eq!(labels(&finder), vec!["Ends with: "]);
}

#[test]
fn add_predicate_appends_defaults_in_order() {
    let mut finder = WordFinder::new();
    for kind in 0..6 {
        finder.add_predicate(kind);
    }
    assert_eq!(
        labels(&finder),
        vec![
            "Length: 0",
            "Starts with: ",
            "Ends with: ",
            "Contains: ",
            "Using letters: ",
            "Scrabble playable: ",
        ]
    );
}

#[test]
fn add_predicate_with_unknown_kind_changes_nothing() {
    let mut finder = finder_with(&["cat"]);
    finder.add_predicate(2);
    finder.add_predicate(6);
    finder.add_predicate(100);
    assert_eq!(labels(&finder), vec!["Ends with: "]);
    assert_eq!(finder.word_list, vec!["cat"]);
}

#[test]
fn update_predicate_out_of_range_is_reported() {
    let mut finder = WordFinder::new();
    assert_eq!(finder.update_predicate(0, "x"), Err(FinderError::IndexOutOfRange));
    finder.add_predicate(3);
    assert_eq!(finder.update_predicate(1, "x"), Err(FinderError::IndexOutOfRange));
    assert_eq!(labels(&finder), vec!["Contains: "]);
    assert_eq!(finder.update_predicate(0, "x"), Ok(()));
    assert_eq!(labels(&finder), vec!["Contains: x"]);
}

#[test]
fn update_predicate_changes_only_the_one_addressed() {
    let mut finder = WordFinder::new();
    finder.add_predicate(1);
    finder.add_predicate(2);
    finder.add_predicate(0);
    finder.update_predicate(1, "ing").unwrap();
    finder.update_predicate(2, "7").unwrap();
    assert_eq!(labels(&finder), vec!["Starts with: ", "Ends with: ing", "Length: 7"]);
    finder.update_predicate(2, "seven").unwrap();
    assert_eq!(labels(&finder), vec!["Starts with: ", "Ends with: ing", "Length: 0"]);
}

#[test]
fn get_predicate_string_by_position() {
    let mut finder = WordFinder::new();
    finder.add_predicate(0);
    finder.add_predicate(5);
    finder.update_predicate(0, "4").unwrap();
    finder.update_predicate(1, "bat?").unwrap();
    assert_eq!(finder.get_predicate_string(0), Ok("4".to_string()));
    assert_eq!(finder.get_predicate_string(1), Ok("bat?".to_string()));
    assert_eq!(finder.get_predicate_string(2), Err(FinderError::IndexOutOfRange));
    assert_eq!(WordFinder::new().get_predicate_string(0), Err(FinderError::IndexOutOfRange));
}

#[test]
fn catalogues_for_menus() {
    let finder = WordFinder::new();
    assert_eq!(
        finder.iter_predicate_names(),
        vec!["Length", "Starts with", "Ends with", "Contains", "Using letters", "Scrabble playable"]
    );
    assert_eq!(
        finder.iter_order_names(),
        vec!["Alphabetical", "Reverse alphabetical", "Length", "Reverse length", "Random"]
    );
    // Each name stands at the index that makes its kind.
    for (index, name) in finder.iter_predicate_names().iter().enumerate() {
        let mut other = WordFinder::new();
        other.add_predicate(index);
        assert_eq!(other.predicates[0].kind_name(), *name);
    }
}

#[test]
fn set_order_by_index() {
    let mut finder = WordFinder::new();
    finder.set_order(2);
    assert_eq!(finder.word_order, WordOrder::Length);
    finder.set_order(3);
    assert_eq!(finder.word_order, WordOrder::RevLength);
    finder.set_order(1);
    assert_eq!(finder.word_order, WordOrder::RevAlphabetical);
    finder.set_order(4);
    assert_eq!(finder.word_order, WordOrder::Random);
    finder.set_order(0);
    assert_eq!(finder.word_order, WordOrder::Alphabetical);
}

#[test]
fn set_order_past_the_catalogue_changes_nothing() {
    let mut finder = WordFinder::new();
    finder.set_order(3);
    finder.set_order(5);
    assert_eq!(finder.word_order, WordOrder::RevLength);
    finder.set_order(usize::MAX);
    assert_eq!(finder.word_order, WordOrder::RevLength);
}

#[test]
fn empty_chain_accepts_every_word() {
    let finder = finder_with(&["cat", "", "dog", "cat"]);
    assert!(finder.evaluate("anything"));
    assert!(finder.evaluate(""));
    assert_eq!(finder.iter_filtered(), vec!["cat", "", "dog", "cat"]);
}

#[test]
fn chain_is_the_conjunction_of_its_predicates() {
    let mut finder = WordFinder::new();
    finder.predicates.push(WordPredicate::StartsWith("c".to_string()));
    finder.predicates.push(WordPredicate::EndsWith("t".to_string()));
    finder.predicates.push(WordPredicate::Length(3));
    assert!(finder.evaluate("cat"));
    assert!(finder.evaluate("cot"));
    assert!(!finder.evaluate("cart"));
    assert!(!finder.evaluate("bat"));
    assert!(!finder.evaluate("cab"));
    // The order of the predicates does not change the answer.
    finder.predicates.reverse();
    assert!(finder.evaluate("cat"));
    assert!(!finder.evaluate("cart"));
    assert!(!finder.evaluate("bat"));
    assert!(!finder.evaluate("cab"));
}

#[test]
fn filtered_view_keeps_order_and_duplicates() {
    let mut finder = finder_with(&["cat", "dog", "car", "cat", "cow", "emu", "car"]);
    finder.predicates.push(WordPredicate::StartsWith("ca".to_string()));
    assert_eq!(finder.iter_filtered(), vec!["cat", "car", "cat", "car"]);
    // Only accepted words, each as often as it stands in the list.
    for word in finder.iter_filtered() {
        assert!(finder.evaluate(word));
    }
    let accepted = finder.word_list.iter().filter(|w| finder.evaluate(w)).count();
    assert_eq!(finder.iter_filtered().len(), accepted);
}

#[test]
fn filtered_view_can_be_asked_again() {
    let mut finder = finder_with(&["sing", "song", "ring", "rang"]);
    finder.add_predicate(2);
    finder.update_predicate(0, "ing").unwrap();
    assert_eq!(finder.iter_filtered(), vec!["sing", "ring"]);
    assert_eq!(finder.iter_filtered(), vec!["sing", "ring"]);
    finder.update_predicate(0, "ng").unwrap();
    assert_eq!(finder.iter_filtered(), vec!["sing", "song", "ring", "rang"]);
    finder.remove_predicate(0).unwrap();
    assert_eq!(finder.iter_filtered(), vec!["sing", "song", "ring", "rang"]);
}

#[test]
fn scrabble_scenario_through_the_finder() {
    let mut finder = finder_with(&["bat", "tab", "at"]);
    finder.add_predicate(5);
    finder.update_predicate(0, "bat?").unwrap();
    assert_eq!(finder.iter_filtered(), vec!["bat", "tab", "at"]);
}

#[test]
fn current_view_is_the_same_when_asked_twice() {
    let mut finder = finder_with(&["pear", "fig", "apple", "kiwi", "date", "fig", "plum"]);
    finder.add_predicate(4);
    finder.update_predicate(0, "pearfigklmudt").unwrap();
    for order in 0..4 {
        finder.set_order(order);
        let first = finder.current();
        let second = finder.current();
        assert!(first.is_ok());
        assert_eq!(first, second);
    }
    // Nothing of the finder changed by asking.
    assert_eq!(finder.word_list, vec!["pear", "fig", "apple", "kiwi", "date", "fig", "plum"]);
}

#[test]
fn current_view_sorts_stably_by_length() {
    let mut finder = finder_with(&["ccc", "bb", "a", "dd", "eee", "f", "xx"]);
    finder.predicates.push(WordPredicate::UsingLetters("abcdef".to_string()));
    finder.set_order(2);
    assert_eq!(finder.current().unwrap(), vec!["a", "f", "bb", "dd", "ccc", "eee"]);
    finder.set_order(3);
    assert_eq!(finder.current().unwrap(), vec!["ccc", "eee", "bb", "dd", "a", "f"]);
}

#[test]
fn current_view_under_random_is_unsupported() {
    let mut finder = finder_with(&["b", "a"]);
    finder.set_order(4);
    assert_eq!(finder.current(), Err(FinderError::UnsupportedOrder));
    assert_eq!(finder.sort(), Err(FinderError::UnsupportedOrder));
    assert_eq!(finder.word_list, vec!["b", "a"]);
    // The filtered view itself needs no order.
    assert_eq!(finder.iter_filtered(), vec!["b", "a"]);
}

#[test]
fn sort_reorders_the_list_in_place() {
    let mut finder = finder_with(&["cat", "car", "cart", "dog", "at"]);
    finder.set_order(0);
    assert_eq!(finder.sort(), Ok(()));
    assert_eq!(finder.word_list, vec!["at", "car", "cart", "cat", "dog"]);
    finder.set_order(3);
    assert_eq!(finder.sort(), Ok(()));
    assert_eq!(finder.word_list, vec!["cart", "car", "cat", "dog", "at"]);
    assert_eq!(finder.sort(), Ok(()));
    assert_eq!(finder.word_list, vec!["cart", "car", "cat", "dog", "at"]);
}

#[test]
fn sorting_then_filtering_shows_the_current_view() {
    let mut finder = finder_with(&["pear", "fig", "apple", "kiwi", "date", "fig", "plum", "pea"]);
    finder.predicates.push(WordPredicate::Contains("e".to_string()));
    for order in 0..4 {
        finder.set_order(order);
        let view = finder.current().unwrap();
        let mut sorted = finder_with(&["pear", "fig", "apple", "kiwi", "date", "fig", "plum", "pea"]);
        sorted.predicates.push(WordPredicate::Contains("e".to_string()));
        sorted.set_order(order);
        sorted.sort().unwrap();
        let shown: Vec<String> = sorted.iter_filtered().into_iter().cloned().collect();
        assert_eq!(shown, view);
    }
}

#[test]
fn predicate_labels_show_the_chain() {
    let mut finder = WordFinder::new();
    assert!(finder.predicate_labels().is_empty());
    finder.add_predicate(0);
    finder.add_predicate(5);
    finder.update_predicate(0, "5").unwrap();
    finder.update_predicate(1, "bat?").unwrap();
    assert_eq!(finder.predicate_labels(), vec!["Length: 5", "Scrabble playable: bat?"]);
}
