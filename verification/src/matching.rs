//! The matching rules on sequences of characters that every predicate kind is
//! built from.

use vstd::multiset::Multiset;
use vstd::prelude::*;

verus! {

/// `needle` occurs in `hay` as a contiguous run starting at position `at`.
pub open spec fn occurs_at(hay: Seq<char>, needle: Seq<char>, at: int) -> bool {
    &&& 0 <= at
    &&& at + needle.len() <= hay.len()
    &&& hay.subrange(at, at + needle.len()) == needle
}

/// `needle` occurs somewhere in `hay` as a contiguous run.
pub open spec fn occurs_in(hay: Seq<char>, needle: Seq<char>) -> bool {
    exists|at: int| occurs_at(hay, needle, at)
}

/// Every character of `word` is one of `letters`.
pub open spec fn uses_only(word: Seq<char>, letters: Seq<char>) -> bool {
    forall|i: int| 0 <= i < word.len() ==> letters.contains(#[trigger] word[i])
}

/// Whether `hay` holds `needle` at position `at`.
pub fn matches_at(hay: &[char], needle: &[char], at: usize) -> (found: bool)
    ensures
        found == occurs_at(hay@, needle@, at as int),
{
    let hay_len: usize = hay.len();
    if at > hay_len || needle.len() > hay_len - at {
        return false;
    }
    let mut k: usize = 0;
    while k < needle.len()
        invariant
            k <= needle@.len(),
            at + needle@.len() <= hay@.len() == hay_len,
            forall|j: int| 0 <= j < k ==> hay@[at + j] == needle@[j],
        decreases needle@.len() - k,
    {
        if hay[at + k] != needle[k] {
            proof {
                let run = hay@.subrange(at as int, at + needle@.len());
                assert(run[k as int] == hay@[at + k]);
            }
            return false;
        }
        k += 1;
    }
    assert(hay@.subrange(at as int, at + needle@.len()) =~= needle@);
    true
}

/// Whether `word` begins with `prefix`.
pub fn starts_with(word: &[char], prefix: &[char]) -> (found: bool)
    ensures
        found == prefix@.is_prefix_of(word@),
{
    matches_at(word, prefix, 0)
}

/// Whether `word` ends with `suffix`.
pub fn ends_with(word: &[char], suffix: &[char]) -> (found: bool)
    ensures
        found == suffix@.is_suffix_of(word@),
{
    if suffix.len() > word.len() {
        return false;
    }
    matches_at(word, suffix, word.len() - suffix.len())
}

/// Whether `sub` occurs in `word` as a contiguous run.
pub fn contains_run(word: &[char], sub: &[char]) -> (found: bool)
    ensures
        found == occurs_in(word@, sub@),
{
    if sub.len() > word.len() {
        return false;
    }
    let last: usize = word.len() - sub.len();
    let mut at: usize = 0;
    loop
        invariant
            at <= last,
            last == word@.len() - sub@.len(),
            forall|j: int| 0 <= j < at ==> !occurs_at(word@, sub@, j),
        decreases last - at,
    {
        if matches_at(word, sub, at) {
            return true;
        }
        if at == last {
            return false;
        }
        at += 1;
    }
}

/// Whether `letters` holds the character `c`.
pub fn has_letter(letters: &[char], c: char) -> (found: bool)
    ensures
        found == letters@.contains(c),
{
    let mut i: usize = 0;
    while i < letters.len()
        invariant
            i <= letters@.len(),
            forall|j: int| 0 <= j < i ==> letters@[j] != c,
        decreases letters@.len() - i,
    {
        if letters[i] == c {
            return true;
        }
        i += 1;
    }
    false
}

/// Whether every character of `word` is one of `letters`.
pub fn spelled_with(word: &[char], letters: &[char]) -> (all: bool)
    ensures
        all == uses_only(word@, letters@),
{
    let mut i: usize = 0;
    while i < word.len()
        invariant
            i <= word@.len(),
            forall|j: int| 0 <= j < i ==> letters@.contains(#[trigger] word@[j]),
        decreases word@.len() - i,
    {
        if !has_letter(letters, word[i]) {
            return false;
        }
        i += 1;
    }
    true
}

/// The blank tile, which stands for any one letter.
pub const BLANK: char = '?';

/// What is left of `rack` once a tile has been taken for `letter`: the letter's
/// own tile where the rack holds one, a blank where it holds none, and nothing
/// where it holds neither.
pub open spec fn rack_after(rack: Multiset<char>, letter: char) -> Option<Multiset<char>> {
    if rack.count(letter) > 0 {
        Some(rack.remove(letter))
    } else if rack.count(BLANK) > 0 {
        Some(rack.remove(BLANK))
    } else {
        None
    }
}

/// Laying `word` letter by letter from `rack` succeeds: each letter in turn
/// finds a tile by `rack_after`.
pub open spec fn lays_out(word: Seq<char>, rack: Multiset<char>) -> bool
    decreases word.len(),
{
    if word.len() == 0 {
        true
    } else {
        match rack_after(rack, word.first()) {
            Some(rest) => lays_out(word.drop_first(), rest),
            None => false,
        }
    }
}

/// The letters `exact` are all of `word` that tiles of their own pay for, and
/// the rack has a blank for each letter of `word` beyond them.
pub open spec fn pays_for(word: Multiset<char>, rack: Multiset<char>, exact: Multiset<char>) -> bool {
    &&& exact.subset_of(word)
    &&& exact.subset_of(rack)
    &&& word.sub(exact).len() <= rack.sub(exact).count(BLANK)
}

/// `word` can be spelled from `tiles`: each tile is used at most once, a letter
/// is paid for by a tile of its own or by a blank.
pub open spec fn spellable(word: Seq<char>, tiles: Seq<char>) -> bool {
    exists|exact: Multiset<char>| pays_for(word.to_multiset(), tiles.to_multiset(), exact)
}

/// `at` is the position of the first `c` in `rack`.
pub open spec fn is_first(rack: Seq<char>, c: char, at: int) -> bool {
    &&& 0 <= at < rack.len()
    &&& rack[at] == c
    &&& forall|j: int| 0 <= j < at ==> rack[j] != c
}

/// The position of the first `c` in `rack`, if it holds one.
pub fn first_position(rack: &[char], c: char) -> (at: Option<usize>)
    ensures
        match at {
            Some(p) => is_first(rack@, c, p as int),
            None => !rack@.contains(c),
        },
{
    let mut i: usize = 0;
    while i < rack.len()
        invariant
            i <= rack@.len(),
            forall|j: int| 0 <= j < i ==> rack@[j] != c,
        decreases rack@.len() - i,
    {
        if rack[i] == c {
            return Some(i);
        }
        i += 1;
    }
    None
}

/// Takes a tile for `letter` out of `rack`: the first tile of that letter, or
/// where there is none the first blank. Returns whether a tile was found; the
/// rack is unchanged where none was.
pub fn take_tile(rack: &mut Vec<char>, letter: char) -> (taken: bool)
    ensures
        taken == (old(rack)@.contains(letter) || old(rack)@.contains(BLANK)),
        old(rack)@.contains(letter) ==> exists|at: int|
            is_first(old(rack)@, letter, at) && final(rack)@ == old(rack)@.remove(at),
        !old(rack)@.contains(letter) && old(rack)@.contains(BLANK) ==> exists|at: int|
            is_first(old(rack)@, BLANK, at) && final(rack)@ == old(rack)@.remove(at),
        !taken ==> final(rack)@ == old(rack)@,
        rack_after(old(rack)@.to_multiset(), letter) == if taken {
            Some(final(rack)@.to_multiset())
        } else {
            None
        },
{
    broadcast use vstd::seq_lib::group_to_multiset_ensures;

    let own = first_position(rack.as_slice(), letter);
    match own {
        Some(p) => {
            assert(is_first(rack@, letter, p as int));
            rack.remove(p);
            true
        },
        None => {
            let blank = first_position(rack.as_slice(), BLANK);
            match blank {
                Some(p) => {
                    assert(is_first(rack@, BLANK, p as int));
                    rack.remove(p);
                    true
                },
                None => false,
            }
        },
    }
}

/// Whether `word` can be spelled from `tiles`, found by laying the word out
/// letter by letter from a copy of the tiles.
pub fn playable(word: &[char], tiles: &[char]) -> (ok: bool)
    ensures
        ok == spellable(word@, tiles@),
{
    let mut rack: Vec<char> = vstd::slice::slice_to_vec(tiles);
    let mut i: usize = 0;
    assert(word@.skip(0) =~= word@);
    while i < word.len()
        invariant
            i <= word@.len(),
            lays_out(word@, tiles@.to_multiset()) == lays_out(
                word@.skip(i as int),
                rack@.to_multiset(),
            ),
        decreases word@.len() - i,
    {
        proof {
            assert(word@.skip(i as int).first() == word@[i as int]);
            assert(word@.skip(i as int).drop_first() =~= word@.skip(i + 1));
        }
        if !take_tile(&mut rack, word[i]) {
            proof {
                lemma_lays_out_iff_spellable(word@, tiles@);
            }
            return false;
        }
        i += 1;
    }
    proof {
        lemma_lays_out_iff_spellable(word@, tiles@);
    }
    true
}

/// The word's multiset is that of its tail with the first letter added.
proof fn lemma_first_letter(word: Seq<char>)
    requires
        word.len() > 0,
    ensures
        word.to_multiset() == word.drop_first().to_multiset().insert(word.first()),
{
    broadcast use vstd::seq_lib::group_to_multiset_ensures;
    broadcast use vstd::multiset::group_multiset_axioms;

    assert(word.remove(0) =~= word.drop_first());
    assert(word.contains(word[0]));
    assert(word.to_multiset() =~= word.drop_first().to_multiset().insert(word.first()));
}

/// Laying a word out tile by tile, own tiles first, succeeds exactly when some
/// split of the word into letters paid by their own tiles and letters paid by
/// blanks exists.
pub proof fn lemma_lays_out_iff_pays(word: Seq<char>, rack: Multiset<char>)
    ensures
        lays_out(word, rack) <==> exists|exact: Multiset<char>|
            pays_for(word.to_multiset(), rack, exact),
    decreases word.len(),
{
    broadcast use vstd::seq_lib::group_to_multiset_ensures;
    broadcast use vstd::multiset::group_multiset_axioms;

    let letters = word.to_multiset();
    if word.len() == 0 {
        let none = Multiset::<char>::empty();
        assert(letters.sub(none) =~= none);
        assert(pays_for(letters, rack, none));
    } else {
        let c = word.first();
        let tail = word.drop_first();
        let tail_letters = tail.to_multiset();
        lemma_first_letter(word);
        if lays_out(word, rack) {
            let rest = rack_after(rack, c).unwrap();
            lemma_lays_out_iff_pays(tail, rest);
            let e = choose|e: Multiset<char>| pays_for(tail_letters, rest, e);
            if rack.count(c) > 0 {
                let exact = e.insert(c);
                assert(letters.sub(exact) =~= tail_letters.sub(e));
                assert(rack.sub(exact) =~= rest.sub(e));
                assert(pays_for(letters, rack, exact));
            } else {
                assert(letters.sub(e) =~= tail_letters.sub(e).insert(c));
                assert(pays_for(letters, rack, e));
            }
        }
        if exists|exact: Multiset<char>| pays_for(letters, rack, exact) {
            let exact = choose|exact: Multiset<char>| pays_for(letters, rack, exact);
            if rack.count(c) > 0 {
                let rest = rack.remove(c);
                if exact.count(c) > 0 {
                    let e = exact.remove(c);
                    assert(tail_letters.sub(e) =~= letters.sub(exact));
                    assert(rest.sub(e) =~= rack.sub(exact));
                    assert(pays_for(tail_letters, rest, e));
                } else {
                    assert(letters.sub(exact) =~= tail_letters.sub(exact).insert(c));
                    assert(pays_for(tail_letters, rest, exact));
                }
                lemma_lays_out_iff_pays(tail, rest);
            } else {
                assert(exact.count(c) == 0);
                assert(letters.sub(exact) =~= tail_letters.sub(exact).insert(c));
                assert(rack.sub(exact).count(BLANK) > 0);
                let rest = rack.remove(BLANK);
                assert(pays_for(tail_letters, rest, exact));
                lemma_lays_out_iff_pays(tail, rest);
            }
        }
    }
}

/// Laying `word` out from `tiles` succeeds exactly when it is spellable.
pub proof fn lemma_lays_out_iff_spellable(word: Seq<char>, tiles: Seq<char>)
    ensures
        lays_out(word, tiles.to_multiset()) <==> spellable(word, tiles),
{
    lemma_lays_out_iff_pays(word, tiles.to_multiset());
}

/// A word needs a tile for each of its letters: nothing is spelled from
/// fewer tiles than the word has letters.
pub proof fn lemma_spelling_needs_tiles(word: Seq<char>, tiles: Seq<char>)
    requires
        spellable(word, tiles),
    ensures
        word.len() <= tiles.len(),
{
    broadcast use vstd::seq_lib::group_to_multiset_ensures;
    broadcast use vstd::multiset::group_multiset_axioms;

    let letters = word.to_multiset();
    let rack = tiles.to_multiset();
    let exact = choose|exact: Multiset<char>| pays_for(letters, rack, exact);
    assert(letters.sub(exact).len() == letters.len() - exact.len());
    assert(rack.sub(exact).len() == rack.len() - exact.len());
    assert(rack.sub(exact).count(BLANK) <= rack.sub(exact).len());
}

/// A word can be spelled from its own letters, in whatever order they lie as
/// tiles.
pub proof fn lemma_own_letters_spell(word: Seq<char>, tiles: Seq<char>)
    requires
        tiles.to_multiset() == word.to_multiset(),
    ensures
        spellable(word, tiles),
{
    broadcast use vstd::multiset::group_multiset_axioms;

    let letters = word.to_multiset();
    assert(letters.sub(letters) =~= Multiset::<char>::empty());
    assert(pays_for(letters, letters, letters));
}

/// With any one of its own letters missing from the tiles, a word can no
/// longer be spelled from them.
pub proof fn lemma_missing_tile(word: Seq<char>, tiles: Seq<char>, at: int)
    requires
        tiles.to_multiset() == word.to_multiset(),
        0 <= at < tiles.len(),
    ensures
        !spellable(word, tiles.remove(at)),
{
    broadcast use vstd::seq_lib::group_to_multiset_ensures;

    if spellable(word, tiles.remove(at)) {
        lemma_spelling_needs_tiles(word, tiles.remove(at));
    }
}

/// A letter takes its own tile where the rack holds one: the blanks are then
/// all left for the letters that follow.
pub proof fn lemma_own_tile_first(rack: Multiset<char>, letter: char)
    requires
        rack.count(letter) > 0,
    ensures
        rack_after(rack, letter) == Some(rack.remove(letter)),
        rack.remove(letter).count(letter) == rack.count(letter) - 1,
        letter != BLANK ==> rack.remove(letter).count(BLANK) == rack.count(BLANK),
{
    broadcast use vstd::multiset::group_multiset_axioms;

}

/// A blank is taken only for a letter that has no tile of its own left.
pub proof fn lemma_blank_last(rack: Multiset<char>, letter: char)
    requires
        rack.count(letter) == 0,
    ensures
        rack_after(rack, letter) == if rack.count(BLANK) > 0 {
            Some(rack.remove(BLANK))
        } else {
            None
        },
{
}

/// Without letters to use, only the empty word is spelled.
pub proof fn lemma_no_letters(word: Seq<char>)
    ensures
        uses_only(word, Seq::<char>::empty()) <==> word.len() == 0,
{
    if word.len() > 0 {
        assert(!Seq::<char>::empty().contains(word[0]));
    }
}

/// The empty text begins and ends every word and occurs in every word.
pub proof fn lemma_empty_text_matches(word: Seq<char>)
    ensures
        Seq::<char>::empty().is_prefix_of(word),
        Seq::<char>::empty().is_suffix_of(word),
        occurs_in(word, Seq::<char>::empty()),
{
    let none = Seq::<char>::empty();
    assert(word.subrange(0, 0) =~= none);
    assert(word.subrange(word.len() as int, word.len() as int) =~= none);
    assert(occurs_at(word, none, 0));
}

} // verus!
