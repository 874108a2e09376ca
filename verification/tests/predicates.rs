use word_finder::filter::WordFilter;
use word_finder::pred::{WordPredicate, PREDICATE_NAMES};

fn made(index: usize, raw: &str) -> WordPredicate {
    let mut p = WordPredicate::from_index(index).expect("a kind of the catalogue");
    p.update(raw);
    p
}

#[test]
fn from_index_gives_each_kind_with_its_default() {
    assert!(matches!(WordPredicate::from_index(0), Some(WordPredicate::Length(0))));
    assert!(matches!(WordPredicate::from_index(1), Some(WordPredicate::StartsWith(s)) if s.is_empty()));
    assert!(matches!(WordPredicate::from_index(2), Some(WordPredicate::EndsWith(s)) if s.is_empty()));
    assert!(matches!(WordPredicate::from_index(3), Some(WordPredicate::Contains(s)) if s.is_empty()));
    assert!(matches!(WordPredicate::from_index(4), Some(WordPredicate::UsingLetters(s)) if s.is_empty()));
    assert!(matches!(WordPredicate::from_index(5), Some(WordPredicate::ScrabblePlayable(s)) if s.is_empty()));
}

#[test]
fn from_index_past_the_catalogue_gives_nothing() {
    assert!(WordPredicate::from_index(6).is_none());
    assert!(WordPredicate::from_index(7).is_none());
    assert!(WordPredicate::from_index(usize::MAX).is_none());
}

#[test]
fn predicate_names_are_the_catalogue() {
    assert_eq!(
        PREDICATE_NAMES,
        ["Length", "Starts with", "Ends with", "Contains", "Using letters", "Scrabble playable"]
    );
    for (index, name) in PREDICATE_NAMES.iter().enumerate() {
        let p = WordPredicate::from_index(index).unwrap();
        assert_eq!(p.kind_name(), *name);
    }
}

#[test]
fn length_matches_exact_character_count() {
    let p = WordPredicate::Length(3);
    assert!(p.matches("cat"));
    assert!(!p.matches("ca"));
    assert!(!p.matches("cats"));
    assert!(!p.matches(""));
    assert!(WordPredicate::Length(0).matches(""));
    assert!(!WordPredicate::Length(0).matches("a"));
}

#[test]
fn length_counts_characters_not_bytes() {
    // Five characters in seven bytes.
    assert_eq!("élève".len(), 7);
    assert!(WordPredicate::Length(5).matches("élève"));
    assert!(!WordPredicate::Length(7).matches("élève"));
}

#[test]
fn starts_with_matches_prefixes() {
    let p = WordPredicate::StartsWith("ca".to_string());
    assert!(p.matches("cat"));
    assert!(p.matches("ca"));
    assert!(!p.matches("c"));
    assert!(!p.matches("dog"));
    assert!(!p.matches("aca"));
    assert!(!p.matches(""));
}

#[test]
fn ends_with_matches_suffixes() {
    let p = WordPredicate::EndsWith("ing".to_string());
    assert!(p.matches("sing"));
    assert!(p.matches("ing"));
    assert!(!p.matches("ng"));
    assert!(!p.matches("singe"));
    assert!(!p.matches(""));
}

#[test]
fn contains_matches_runs_anywhere() {
    let p = WordPredicate::Contains("ar".to_string());
    assert!(p.matches("cart"));
    assert!(p.matches("art"));
    assert!(p.matches("car"));
    assert!(p.matches("ar"));
    assert!(!p.matches("a"));
    assert!(!p.matches("cat"));
    assert!(!p.matches("arc".chars().rev().collect::<String>().as_str()));
    // The letters must stand together.
    assert!(!p.matches("abr"));
    // A run that begins like the text and fails is no end of the search.
    assert!(WordPredicate::Contains("aab".to_string()).matches("aaab"));
}

#[test]
fn empty_text_parameter_matches_everything() {
    for index in 1..=3 {
        let p = WordPredicate::from_index(index).unwrap();
        assert!(p.matches(""));
        assert!(p.matches("a"));
        assert!(p.matches("anything"));
    }
}

#[test]
fn using_letters_allows_repeats_of_the_given_letters() {
    let p = WordPredicate::UsingLetters("abn".to_string());
    assert!(p.matches("banana"));
    assert!(p.matches("nab"));
    assert!(p.matches("a"));
    assert!(p.matches(""));
    assert!(!p.matches("band"));
    assert!(!p.matches("x"));
}

#[test]
fn using_no_letters_matches_only_the_empty_word() {
    let p = WordPredicate::UsingLetters(String::new());
    assert!(p.matches(""));
    assert!(!p.matches("a"));
    assert!(!p.matches("word"));
    assert!(!p.matches("?"));
}

#[test]
fn scrabble_scenario_all_three_words_match() {
    let p = WordPredicate::ScrabblePlayable("bat?".to_string());
    for word in ["bat", "tab", "at"] {
        assert!(p.matches(word), "{word} should be playable from bat?");
    }
}

#[test]
fn scrabble_uses_each_tile_once() {
    let p = WordPredicate::ScrabblePlayable("abc".to_string());
    assert!(p.matches("cab"));
    assert!(p.matches("ab"));
    assert!(p.matches(""));
    assert!(!p.matches("abca"));
    assert!(!p.matches("aa"));
    assert!(!p.matches("d"));
    assert!(!WordPredicate::ScrabblePlayable(String::new()).matches("a"));
    assert!(WordPredicate::ScrabblePlayable(String::new()).matches(""));
}

#[test]
fn scrabble_round_trip_on_own_letters() {
    let word = "banana";
    for tiles in ["banana", "aaabnn", "nnbaaa", "ananab"] {
        assert!(WordPredicate::ScrabblePlayable(tiles.to_string()).matches(word));
    }
    let tiles: Vec<char> = "aaabnn".chars().collect();
    for missing in 0..tiles.len() {
        let mut fewer = tiles.clone();
        fewer.remove(missing);
        let fewer: String = fewer.into_iter().collect();
        assert!(!WordPredicate::ScrabblePlayable(fewer.clone()).matches(word), "tiles {fewer}");
        // A blank makes up for the missing tile.
        let with_blank = format!("{fewer}?");
        assert!(WordPredicate::ScrabblePlayable(with_blank).matches(word));
    }
}

#[test]
fn scrabble_prefers_the_exact_tile_to_the_blank() {
    // One exact tile and one blank, and a word that needs the letter twice.
    let p = WordPredicate::ScrabblePlayable("a?".to_string());
    assert!(p.matches("aa"));
    // The exact tile pays for the `a`, so the blank is left for the `b`.
    assert!(p.matches("ab"));
    assert!(p.matches("ba"));
    assert!(p.matches("zz") == false);
    assert!(p.matches("za"));
    assert!(!p.matches("aab"));
    // Blanks are placed the same wherever they lie among the tiles.
    let q = WordPredicate::ScrabblePlayable("?a".to_string());
    assert!(q.matches("ab"));
    assert!(q.matches("aa"));
    assert!(!q.matches("bc"));
}

#[test]
fn scrabble_blanks_alone_play_any_word_of_their_number() {
    let p = WordPredicate::ScrabblePlayable("???".to_string());
    assert!(p.matches("cat"));
    assert!(p.matches("at"));
    assert!(!p.matches("cats"));
}

#[test]
fn get_string_gives_the_parameter() {
    assert_eq!(WordPredicate::Length(5).get_string(), "5");
    assert_eq!(WordPredicate::Length(0).get_string(), "0");
    assert_eq!(WordPredicate::Length(1200).get_string(), "1200");
    assert_eq!(WordPredicate::Length(usize::MAX).get_string(), usize::MAX.to_string());
    assert_eq!(WordPredicate::StartsWith("ca".to_string()).get_string(), "ca");
    assert_eq!(WordPredicate::EndsWith("ing".to_string()).get_string(), "ing");
    assert_eq!(WordPredicate::Contains(String::new()).get_string(), "");
    assert_eq!(WordPredicate::UsingLetters("xyz".to_string()).get_string(), "xyz");
    assert_eq!(WordPredicate::ScrabblePlayable("bat?".to_string()).get_string(), "bat?");
}

#[test]
fn update_keeps_the_kind_and_replaces_the_parameter() {
    assert!(matches!(made(0, "5"), WordPredicate::Length(5)));
    assert!(matches!(made(1, "ca"), WordPredicate::StartsWith(s) if s == "ca"));
    assert!(matches!(made(2, "ing"), WordPredicate::EndsWith(s) if s == "ing"));
    assert!(matches!(made(3, "ar"), WordPredicate::Contains(s) if s == "ar"));
    assert!(matches!(made(4, "abc"), WordPredicate::UsingLetters(s) if s == "abc"));
    assert!(matches!(made(5, "bat?"), WordPredicate::ScrabblePlayable(s) if s == "bat?"));
    let mut p = made(1, "ca");
    p.update("");
    assert!(matches!(p, WordPredicate::StartsWith(s) if s.is_empty()));
}

#[test]
fn update_length_reads_numerals_as_std_does() {
    let cases = [
        "0", "5", "42", "007", "+7", "+0", "+", "-", "-1", "", " ", " 5", "5 ", "5a", "a5", "abc",
        "1_000", "١٢", "18446744073709551615", "18446744073709551616", "4294967295",
        "99999999999999999999999999", "0000000000000000000000000000000000001", "++1", "+-1", "1+",
    ];
    for raw in cases {
        let expected: usize = raw.parse().unwrap_or(0);
        match made(0, raw) {
            WordPredicate::Length(n) => assert_eq!(n, expected, "raw {raw:?}"),
            other => panic!("kind changed: {other:?}"),
        }
    }
}

#[test]
fn update_length_defaults_to_zero_on_bad_input() {
    let mut p = WordPredicate::Length(9);
    p.update("nine");
    assert!(matches!(p, WordPredicate::Length(0)));
    let mut p = WordPredicate::Length(9);
    p.update("");
    assert!(matches!(p, WordPredicate::Length(0)));
}

#[test]
fn get_string_then_update_gives_the_same_predicate() {
    for n in [0usize, 1, 9, 10, 11, 99, 100, 12345, usize::MAX] {
        let text = WordPredicate::Length(n).get_string();
        match made(0, &text) {
            WordPredicate::Length(m) => assert_eq!(m, n),
            other => panic!("kind changed: {other:?}"),
        }
    }
    for index in 1..=5 {
        let p = made(index, "some?text");
        let q = made(index, &p.get_string());
        assert_eq!(q.get_string(), "some?text");
    }
}

#[test]
fn display_label_is_kind_colon_parameter() {
    assert_eq!(WordPredicate::Length(5).display_label(), "Length: 5");
    assert_eq!(WordPredicate::StartsWith("ca".to_string()).display_label(), "Starts with: ca");
    assert_eq!(WordPredicate::EndsWith("ing".to_string()).display_label(), "Ends with: ing");
    assert_eq!(WordPredicate::Contains("ar".to_string()).display_label(), "Contains: ar");
    assert_eq!(WordPredicate::UsingLetters("abc".to_string()).display_label(), "Using letters: abc");
    assert_eq!(
        WordPredicate::ScrabblePlayable("bat?".to_string()).display_label(),
        "Scrabble playable: bat?"
    );
    assert_eq!(WordPredicate::Contains(String::new()).display_label(), "Contains: ");
}

#[test]
fn filter_list_names_is_the_catalogue() {
    assert_eq!(
        WordFilter::list_names(),
        vec!["Length", "Starts with", "Ends with", "Contains", "Using letters", "Scrabble playable"]
    );
}

#[test]
fn filter_from_index_follows_the_names() {
    let names = WordFilter::list_names();
    for (index, name) in names.iter().enumerate() {
        let f = WordFilter::from_index(index).expect("one filter for each name");
        assert_eq!(f.kind_name(), name);
    }
    assert!(WordFilter::from_index(names.len()).is_none());
    assert!(matches!(WordFilter::from_index(0), Some(WordFilter::Length(0))));
    assert!(matches!(WordFilter::from_index(5), Some(WordFilter::ScrabblePlayable(s)) if s.is_empty()));
}

#[test]
fn filter_matches_like_the_predicate() {
    let words = ["", "a", "at", "bat", "tab", "cart", "banana", "sing", "élève"];
    let params = ["", "a", "at", "ba", "bat?", "ing", "abn", "3", "5"];
    for index in 0..6 {
        for raw in params {
            let mut f = WordFilter::from_index(index).unwrap();
            f.update(raw);
            let p = made(index, raw);
            assert_eq!(f.get_string(), p.get_string());
            assert_eq!(f.display_label(), p.display_label());
            for word in words {
                assert_eq!(f.matches(word), p.matches(word), "kind {index}, {raw:?} on {word:?}");
            }
        }
    }
}

#[test]
fn filter_update_and_get_string() {
    let mut f = WordFilter::Length(1);
    f.update("12");
    assert!(matches!(f, WordFilter::Length(12)));
    assert_eq!(f.get_string(), "12");
    f.update("x");
    assert!(matches!(f, WordFilter::Length(0)));
    let mut f = WordFilter::EndsWith(String::new());
    f.update("ing");
    assert_eq!(f.get_string(), "ing");
    assert!(f.matches("sing"));
    assert!(!f.matches("sang"));
    assert_eq!(f.display_label(), "Ends with: ing");
}
