//! Prime codes of words: each letter stands for a prime, and a word for the
//! product of the primes of its letters. The code forgets the order of the
//! letters and nothing else about them, so anagrams share a code.

use crate::text::chars_of;
use vstd::prelude::*;

verus! {

/// The first 26 primes: the prime of `a` first, that of `z` last.
pub const PRIMES: [u64; 26] = [
    2, 3, 5, 7, 11, 13, 17, 19, 23, 29, 31, 37, 41, 43, 47, 53, 59, 61, 67, 71, 73, 79, 83, 89, 97,
    101,
];

/// `c` is one of the letters `a` to `z`.
pub open spec fn is_lower_letter(c: char) -> bool {
    'a' <= c <= 'z'
}

/// Every character of `word` is one of the letters `a` to `z`.
pub open spec fn all_lower_letters(word: Seq<char>) -> bool {
    forall|i: int| 0 <= i < word.len() ==> is_lower_letter(#[trigger] word[i])
}

/// The prime that stands for the letter `c`; 1 for any other character.
pub open spec fn prime_of(c: char) -> nat {
    if is_lower_letter(c) {
        PRIMES[c as int - 'a' as int] as nat
    } else {
        1
    }
}

/// The code of a word: the product of the primes of its letters.
pub open spec fn code_of(word: Seq<char>) -> nat
    decreases word.len(),
{
    if word.len() == 0 {
        1
    } else {
        code_of(word.drop_last()) * prime_of(word.last())
    }
}

/// How far `letter` stands after `a` in the alphabet.
pub fn letter_to_index(letter: char) -> (index: usize)
    requires
        'a' <= letter,
    ensures
        index == letter as int - 'a' as int,
{
    letter as usize - 'a' as usize
}

/// The prime of a letter is at least 2.
proof fn lemma_prime_size(c: char)
    ensures
        1 <= prime_of(c) <= 101,
        is_lower_letter(c) ==> 2 <= prime_of(c),
{
    if is_lower_letter(c) {
        let i = c as int - 'a' as int;
        assert(0 <= i < 26);
        assert(2 <= PRIMES[i] <= 101);
    }
}

/// A word's code is at least that of any of its beginnings, and at least 1.
proof fn lemma_code_grows(word: Seq<char>, upto: int)
    requires
        0 <= upto <= word.len(),
    ensures
        1 <= code_of(word.take(upto)) <= code_of(word),
    decreases word.len() - upto,
{
    if upto == word.len() {
        assert(word.take(upto) =~= word);
        lemma_code_positive(word);
    } else {
        lemma_code_grows(word, upto + 1);
        let longer = word.take(upto + 1);
        assert(longer.drop_last() =~= word.take(upto));
        lemma_prime_size(longer.last());
        lemma_code_positive(word.take(upto));
        assert(code_of(word.take(upto)) <= code_of(word.take(upto)) * prime_of(longer.last()))
            by (nonlinear_arith)
            requires
                1 <= prime_of(longer.last()),
                0 <= code_of(word.take(upto)),
        ;
    }
}

/// No code is 0.
proof fn lemma_code_positive(word: Seq<char>)
    ensures
        1 <= code_of(word),
    decreases word.len(),
{
    if word.len() > 0 {
        lemma_code_positive(word.drop_last());
        lemma_prime_size(word.last());
        assert(1 <= code_of(word.drop_last()) * prime_of(word.last())) by (nonlinear_arith)
            requires
                1 <= code_of(word.drop_last()),
                1 <= prime_of(word.last()),
        ;
    }
}

/// The code of `word`, where every character is a letter from `a` to `z` and
/// the code fits in 64 bits; nothing otherwise.
pub fn checked_prime_encoding(word: &str) -> (code: Option<u64>)
    ensures
        code == if all_lower_letters(word@) && code_of(word@) <= u64::MAX {
            Some(code_of(word@) as u64)
        } else {
            None
        },
{
    let letters = chars_of(word);
    let mut code: u64 = 1;
    let mut i: usize = 0;
    assert(letters@.take(0) =~= Seq::<char>::empty());
    while i < letters.len()
        invariant
            i <= letters@.len(),
            letters@ == word@,
            all_lower_letters(letters@.take(i as int)),
            code == code_of(letters@.take(i as int)),
        decreases letters@.len() - i,
    {
        let letter = letters[i];
        let ghost seen = letters@.take(i as int);
        let ghost next = letters@.take(i + 1);
        proof {
            assert(next.drop_last() =~= seen);
            assert(next.last() == letter);
            lemma_code_grows(letters@, i + 1);
        }
        if letter < 'a' || letter > 'z' {
            assert(!is_lower_letter(letters@[i as int]));
            return None;
        }
        let prime = PRIMES[letter_to_index(letter)];
        code = match code.checked_mul(prime) {
            Some(product) => product,
            None => {
                return None;
            },
        };
        proof {
            assert forall|j: int| 0 <= j < next.len() implies is_lower_letter(#[trigger] next[j]) by {
                if j < seen.len() {
                    assert(next[j] == seen[j]);
                }
            }
        }
        i += 1;
    }
    assert(letters@.take(i as int) =~= letters@);
    Some(code)
}

/// The code of `word`: the product of the primes of its letters.
pub fn prime_encoding(word: &str) -> (code: u64)
    requires
        all_lower_letters(word@),
        code_of(word@) <= u64::MAX,
    ensures
        code == code_of(word@),
{
    checked_prime_encoding(word).unwrap()
}

/// The code of a word is the code of the word without one of its letters,
/// times the prime of that letter.
proof fn lemma_code_without(word: Seq<char>, at: int)
    requires
        0 <= at < word.len(),
    ensures
        code_of(word) == code_of(word.remove(at)) * prime_of(word[at]),
    decreases word.len(),
{
    let last = word.len() - 1;
    if at == last {
        assert(word.remove(at) =~= word.drop_last());
    } else {
        let shorter = word.drop_last();
        lemma_code_without(shorter, at);
        let both = shorter.remove(at);
        assert(word.remove(at) =~= both.push(word.last()));
        assert(word.remove(at).drop_last() =~= both);
        assert(shorter[at] == word[at]);
        let a = code_of(both);
        let p = prime_of(word[at]);
        let q = prime_of(word.last());
        assert((a * p) * q == (a * q) * p) by (nonlinear_arith);
    }
}

/// Anagrams share a code: words with the same letters, each as often, have
/// the same code.
pub proof fn lemma_anagrams_share_code(word: Seq<char>, other: Seq<char>)
    requires
        word.to_multiset() == other.to_multiset(),
    ensures
        code_of(word) == code_of(other),
    decreases word.len(),
{
    broadcast use vstd::seq_lib::group_to_multiset_ensures;
    broadcast use vstd::multiset::group_multiset_axioms;

    if word.len() == 0 {
        assert(word.to_multiset().len() == word.len());
        assert(other.to_multiset().len() == other.len());
    } else {
        let letter = word.last();
        assert(word =~= word.drop_last().push(letter));
        assert(word.to_multiset().count(letter) > 0);
        assert(other.contains(letter));
        let at = choose|at: int| 0 <= at < other.len() && other[at] == letter;
        assert(other.remove(at).to_multiset() =~= word.drop_last().to_multiset());
        lemma_anagrams_share_code(word.drop_last(), other.remove(at));
        lemma_code_without(other, at);
    }
}

} // verus!
