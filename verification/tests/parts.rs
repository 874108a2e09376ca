use word_finder::decimal::{char_of_digit, digit_of_char, format_usize, parse_usize};
use word_finder::lexical::gap_of;
use word_finder::matching::{
    contains_run, ends_with, first_position, has_letter, matches_at, playable, spelled_with,
    starts_with, take_tile, BLANK,
};
use word_finder::text::chars_of;

fn chars(s: &str) -> Vec<char> {
    s.chars().collect()
}

#[test]
fn chars_of_decodes_in_order() {
    assert_eq!(chars_of("cat"), vec!['c', 'a', 't']);
    assert_eq!(chars_of(""), Vec::<char>::new());
    assert_eq!(chars_of("élève"), vec!['é', 'l', 'è', 'v', 'e']);
    assert_eq!(chars_of("日本"), vec!['日', '本']);
}

#[test]
fn digits_convert_both_ways() {
    for (value, digit) in ('0'..='9').enumerate() {
        assert_eq!(digit_of_char(digit), Some(value));
        assert_eq!(char_of_digit(value), digit);
    }
    for other in ['a', ' ', '+', '-', '/', ':', '٣', '０'] {
        assert_eq!(digit_of_char(other), None);
    }
}

#[test]
fn format_usize_writes_decimal_digits() {
    assert_eq!(format_usize(0), vec!['0']);
    assert_eq!(format_usize(7), vec!['7']);
    assert_eq!(format_usize(10), vec!['1', '0']);
    assert_eq!(format_usize(905), vec!['9', '0', '5']);
    let all: String = format_usize(usize::MAX).into_iter().collect();
    assert_eq!(all, usize::MAX.to_string());
}

#[test]
fn parse_usize_reads_numerals() {
    assert_eq!(parse_usize(&chars("0")), Some(0));
    assert_eq!(parse_usize(&chars("905")), Some(905));
    assert_eq!(parse_usize(&chars("+905")), Some(905));
    assert_eq!(parse_usize(&chars("0905")), Some(905));
    assert_eq!(parse_usize(&chars(&usize::MAX.to_string())), Some(usize::MAX));
}

#[test]
fn parse_usize_refuses_everything_else() {
    for raw in ["", "+", "-", "-5", "5-", "++5", "5.0", "5 ", " 5", "five", "0x10", "1e3"] {
        assert_eq!(parse_usize(&chars(raw)), None, "raw {raw:?}");
    }
    // One more than fits, and far more than fits.
    assert_eq!(parse_usize(&chars("18446744073709551616")), "18446744073709551616".parse().ok());
    assert_eq!(parse_usize(&chars("340282366920938463463374607431768211456")), None);
}

#[test]
fn matches_at_tests_one_position() {
    let hay = chars("banana");
    assert!(matches_at(&hay, &chars("ban"), 0));
    assert!(matches_at(&hay, &chars("ana"), 1));
    assert!(matches_at(&hay, &chars("ana"), 3));
    assert!(!matches_at(&hay, &chars("ana"), 2));
    assert!(!matches_at(&hay, &chars("ana"), 4));
    assert!(matches_at(&hay, &chars(""), 6));
    assert!(!matches_at(&hay, &chars(""), 7));
    assert!(!matches_at(&hay, &chars("a"), usize::MAX));
}

#[test]
fn affix_tests_on_characters() {
    let word = chars("banana");
    assert!(starts_with(&word, &chars("ban")));
    assert!(!starts_with(&word, &chars("ana")));
    assert!(!starts_with(&word, &chars("bananas")));
    assert!(ends_with(&word, &chars("ana")));
    assert!(!ends_with(&word, &chars("ban")));
    assert!(!ends_with(&word, &chars("xbanana")));
    assert!(contains_run(&word, &chars("nan")));
    assert!(!contains_run(&word, &chars("nab")));
    assert!(contains_run(&word, &chars("")));
    assert!(contains_run(&chars(""), &chars("")));
    assert!(!contains_run(&chars(""), &chars("a")));
}

#[test]
fn letter_tests_on_characters() {
    assert!(has_letter(&chars("abc"), 'c'));
    assert!(!has_letter(&chars("abc"), 'd'));
    assert!(!has_letter(&chars(""), 'a'));
    assert!(spelled_with(&chars("cabbage"), &chars("abceg")));
    assert!(!spelled_with(&chars("cabbage"), &chars("abcg")));
}

#[test]
fn first_position_finds_the_first_of_several() {
    assert_eq!(first_position(&chars("banana"), 'a'), Some(1));
    assert_eq!(first_position(&chars("banana"), 'n'), Some(2));
    assert_eq!(first_position(&chars("banana"), 'b'), Some(0));
    assert_eq!(first_position(&chars("banana"), 'x'), None);
    assert_eq!(first_position(&chars(""), 'a'), None);
}

#[test]
fn take_tile_takes_the_exact_tile_first() {
    assert_eq!(BLANK, '?');
    let mut rack = chars("?ab?a");
    assert!(take_tile(&mut rack, 'a'));
    assert_eq!(rack, chars("?b?a"));
    assert!(take_tile(&mut rack, 'a'));
    assert_eq!(rack, chars("?b?"));
    // No `a` is left: the first blank goes.
    assert!(take_tile(&mut rack, 'a'));
    assert_eq!(rack, chars("b?"));
    assert!(take_tile(&mut rack, 'z'));
    assert_eq!(rack, chars("b"));
    // Neither the letter nor a blank: nothing is taken.
    assert!(!take_tile(&mut rack, 'z'));
    assert_eq!(rack, chars("b"));
    assert!(take_tile(&mut rack, 'b'));
    assert!(rack.is_empty());
    assert!(!take_tile(&mut rack, 'b'));
    assert!(rack.is_empty());
}

#[test]
fn take_tile_for_a_blank_takes_a_blank() {
    let mut rack = chars("a?");
    assert!(take_tile(&mut rack, '?'));
    assert_eq!(rack, chars("a"));
    assert!(!take_tile(&mut rack, '?'));
    assert_eq!(rack, chars("a"));
}

#[test]
fn playable_on_characters() {
    assert!(playable(&chars("tab"), &chars("bat?")));
    assert!(playable(&chars("tabs"), &chars("bat?")));
    assert!(!playable(&chars("stabs"), &chars("bat?")));
    assert!(playable(&chars(""), &chars("")));
    assert!(!playable(&chars("a"), &chars("")));
}

#[test]
fn gap_of_finds_where_two_texts_part() {
    assert_eq!(gap_of(&chars("cart"), &chars("cat")), 2);
    assert_eq!(gap_of(&chars("car"), &chars("cart")), 3);
    assert_eq!(gap_of(&chars("cart"), &chars("car")), 3);
    assert_eq!(gap_of(&chars("dog"), &chars("cat")), 0);
    assert_eq!(gap_of(&chars("same"), &chars("same")), 4);
    assert_eq!(gap_of(&chars(""), &chars("a")), 0);
}
