use word_finder::prime::{checked_prime_encoding, letter_to_index, prime_encoding, PRIMES};

#[test]
fn letter_to_index_counts_from_a() {
    assert_eq!(letter_to_index('a'), 0);
    assert_eq!(letter_to_index('b'), 1);
    assert_eq!(letter_to_index('z'), 25);
    for (index, letter) in ('a'..='z').enumerate() {
        assert_eq!(letter_to_index(letter), index);
    }
}

#[test]
fn primes_are_the_first_twenty_six() {
    assert_eq!(PRIMES.len(), 26);
    assert_eq!(PRIMES[0], 2);
    assert_eq!(PRIMES[25], 101);
    let mut expected = Vec::new();
    let mut n: u64 = 2;
    while expected.len() < 26 {
        if (2..n).all(|d| n % d != 0) {
            expected.push(n);
        }
        n += 1;
    }
    assert_eq!(PRIMES.to_vec(), expected);
}

#[test]
fn prime_encoding_multiplies_the_primes_of_the_letters() {
    assert_eq!(prime_encoding(""), 1);
    assert_eq!(prime_encoding("a"), 2);
    assert_eq!(prime_encoding("z"), 101);
    assert_eq!(prime_encoding("cab"), 5 * 2 * 3);
    assert_eq!(prime_encoding("aaa"), 8);
    assert_eq!(prime_encoding("cat"), 5 * 2 * 71);
}

#[test]
fn anagrams_share_a_code() {
    assert_eq!(prime_encoding("listen"), prime_encoding("silent"));
    assert_eq!(prime_encoding("bat"), prime_encoding("tab"));
    assert_ne!(prime_encoding("bat"), prime_encoding("bot"));
    assert_ne!(prime_encoding("aab"), prime_encoding("abb"));
}

#[test]
fn checked_prime_encoding_refuses_other_characters_and_overflow() {
    assert_eq!(checked_prime_encoding("cab"), Some(30));
    assert_eq!(checked_prime_encoding(""), Some(1));
    assert_eq!(checked_prime_encoding("Cab"), None);
    assert_eq!(checked_prime_encoding("ca b"), None);
    assert_eq!(checked_prime_encoding("a?"), None);
    assert_eq!(checked_prime_encoding("{"), None);
    assert_eq!(checked_prime_encoding("`"), None);
    assert_eq!(checked_prime_encoding("é"), None);
    // Sixty-three twos fit, sixty-four do not.
    assert_eq!(checked_prime_encoding(&"a".repeat(63)), Some(1 << 63));
    assert_eq!(checked_prime_encoding(&"a".repeat(64)), None);
    assert_eq!(checked_prime_encoding("zzzzzzzzzz"), None);
    assert_eq!(checked_prime_encoding("zzzzzzzzz"), Some(101u64.pow(9)));
}
