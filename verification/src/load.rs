//! Reading a word list out of a text: the text is cut at white space, each
//! piece is put in lower case, and the pieces made of letters only are kept.

use crate::text::{chars_of, string_of};
use vstd::prelude::*;

verus! {

/// Whether `c` is white space as std's `char::is_whitespace` answers it (the
/// Unicode property `White_Space`).
pub uninterp spec fn is_white_space(c: char) -> bool;

/// Whether `c` is a letter as std's `char::is_alphabetic` answers it (the
/// Unicode property `Alphabetic`).
pub uninterp spec fn is_letter(c: char) -> bool;

/// The text `s` in lower case as std's `str::to_lowercase` gives it (the
/// Unicode lower-case mapping of the whole text).
pub uninterp spec fn lower_case(s: Seq<char>) -> Seq<char>;

/// Trusted: std's `char::is_whitespace`, whose answer depends on the
/// character alone. The contract gives that answer its name and claims no
/// more.
#[verifier::external_body]
fn char_is_white_space(c: char) -> (answer: bool)
    ensures
        answer == is_white_space(c),
{
    c.is_whitespace()
}

/// Trusted: std's `char::is_alphabetic`, whose answer depends on the
/// character alone. The contract gives that answer its name and claims no
/// more.
#[verifier::external_body]
fn char_is_letter(c: char) -> (answer: bool)
    ensures
        answer == is_letter(c),
{
    c.is_alphabetic()
}

/// Trusted: std's `str::to_lowercase`, whose result depends on the text
/// alone. The contract gives that result its name and claims no more.
#[verifier::external_body]
fn str_to_lower_case(s: &str) -> (lower: String)
    ensures
        lower@ == lower_case(s@),
{
    s.to_lowercase()
}

/// Where the stretch without gaps that ends a text begins: the position
/// after the last gap, or 0 where there is no gap.
pub open spec fn run_start(gaps: Seq<bool>) -> int
    decreases gaps.len(),
{
    if gaps.len() == 0 || gaps.last() {
        gaps.len() as int
    } else {
        run_start(gaps.drop_last())
    }
}

/// The pieces of `chars` between gaps, in order, where `gaps` says of each
/// position whether it is a gap. A text that ends in a gap has the pieces of
/// the text before that gap. Any other has as its last piece the stretch
/// without gaps that ends it, after the pieces of what stands before that
/// stretch. No piece is empty.
pub open spec fn pieces(chars: Seq<char>, gaps: Seq<bool>) -> Seq<Seq<char>>
    recommends
        gaps.len() == chars.len(),
    decreases chars.len(),
    when gaps.len() == chars.len()
{
    if chars.len() == 0 {
        Seq::empty()
    } else if gaps.last() {
        pieces(chars.drop_last(), gaps.drop_last())
    } else {
        let start = run_start(gaps);
        if 0 <= start < chars.len() {
            pieces(chars.take(start), gaps.take(start)).push(chars.skip(start))
        } else {
            Seq::empty()
        }
    }
}

/// Every character of `s` is a letter.
pub open spec fn all_letters(s: Seq<char>) -> bool {
    forall|i: int| 0 <= i < s.len() ==> is_letter(#[trigger] s[i])
}

/// Of each character of `text`, whether it is white space.
pub open spec fn white_space_of(text: Seq<char>) -> Seq<bool> {
    Seq::new(text.len(), |i: int| is_white_space(text[i]))
}

/// The pieces of `text` between white space, each in lower case.
pub open spec fn candidates(text: Seq<char>) -> Seq<Seq<char>> {
    let cut = pieces(text, white_space_of(text));
    Seq::new(cut.len(), |i: int| lower_case(cut[i]))
}

/// The test that keeps a piece: all of it is letters.
pub open spec fn letters_only() -> spec_fn(Seq<char>) -> bool {
    |s: Seq<char>| all_letters(s)
}

/// The words that a text holds: its pieces between white space, in lower
/// case, without those that hold anything but letters; in text order, and a
/// word as often as the text has it.
pub open spec fn words_of(text: Seq<char>) -> Seq<Seq<char>> {
    candidates(text).filter(letters_only())
}

/// The start of the stretch without gaps is a position of the text, nothing
/// from it on is a gap, and a gap stands before it unless it is the start of
/// the text.
pub proof fn lemma_run_start(gaps: Seq<bool>)
    ensures
        0 <= run_start(gaps) <= gaps.len(),
        forall|i: int| run_start(gaps) <= i < gaps.len() ==> !gaps[i],
        run_start(gaps) > 0 ==> gaps[run_start(gaps) - 1],
    decreases gaps.len(),
{
    if gaps.len() == 0 || gaps.last() {
    } else {
        let before = gaps.drop_last();
        lemma_run_start(before);
        assert forall|i: int| run_start(gaps) <= i < gaps.len() implies !gaps[i] by {
            if i < before.len() {
                assert(before[i] == gaps[i]);
            }
        }
        if run_start(gaps) > 0 {
            assert(before[run_start(gaps) - 1] == gaps[run_start(gaps) - 1]);
        }
    }
}

/// One more character without a gap leaves the stretch where it began.
proof fn lemma_run_grows(gaps: Seq<bool>, start: int, end: int)
    requires
        0 <= start <= end <= gaps.len(),
        forall|i: int| start <= i < end ==> !gaps[i],
        start > 0 ==> gaps[start - 1],
    ensures
        run_start(gaps.take(end)) == start,
    decreases end - start,
{
    let seen = gaps.take(end);
    if start == end {
        if start > 0 {
            assert(seen.last() == gaps[start - 1]);
        }
    } else {
        assert(seen.last() == gaps[end - 1]);
        assert(seen.drop_last() =~= gaps.take(end - 1));
        lemma_run_grows(gaps, start, end - 1);
    }
}

/// Cuts `chars` into its pieces between gaps; `gaps` says of each position
/// whether it is a gap.
pub fn split_runs(chars: &[char], gaps: &[bool]) -> (runs: Vec<Vec<char>>)
    requires
        gaps@.len() == chars@.len(),
    ensures
        runs.deep_view() == pieces(chars@, gaps@),
{
    let mut runs: Vec<Vec<char>> = Vec::new();
    let mut run: Vec<char> = Vec::new();
    let mut i: usize = 0;
    let ghost mut start: int = 0;
    assert(chars@.take(0) =~= Seq::<char>::empty());
    assert(runs.deep_view() =~= Seq::<Seq<char>>::empty());
    while i < chars.len()
        invariant
            gaps@.len() == chars@.len(),
            0 <= start <= i <= chars@.len(),
            forall|k: int| start <= k < i ==> !gaps@[k],
            start > 0 ==> gaps@[start - 1],
            run@ == chars@.subrange(start, i as int),
            runs.deep_view() == pieces(chars@.take(start), gaps@.take(start)),
        decreases chars@.len() - i,
    {
        let ghost closed = runs.deep_view();
        if gaps[i] {
            proof {
                let upto = gaps@.take(i + 1);
                assert(upto.last());
                assert(upto.drop_last() =~= gaps@.take(i as int));
                assert(chars@.take(i + 1).drop_last() =~= chars@.take(i as int));
                lemma_run_grows(gaps@, start, i as int);
                lemma_pieces_at_run(chars@.take(i as int), gaps@.take(i as int), start);
                assert(chars@.take(i as int).take(start) =~= chars@.take(start));
                assert(gaps@.take(i as int).take(start) =~= gaps@.take(start));
                assert(chars@.take(i as int).skip(start) =~= chars@.subrange(start, i as int));
            }
            if run.len() > 0 {
                runs.push(run);
                run = Vec::new();
                assert(runs.deep_view() =~= closed.push(chars@.subrange(start, i as int))) by {
                    assert(runs@.last().deep_view() =~= chars@.subrange(start, i as int));
                }
            }
            proof {
                start = i + 1;
            }
            assert(run@ =~= chars@.subrange(start, i + 1));
        } else {
            run.push(chars[i]);
            assert(run@ =~= chars@.subrange(start, i + 1));
        }
        i += 1;
    }
    proof {
        assert(chars@.take(i as int) =~= chars@);
        assert(gaps@.take(i as int) =~= gaps@);
        lemma_run_grows(gaps@, start, i as int);
        lemma_pieces_at_run(chars@, gaps@, start);
        assert(chars@.skip(start) =~= chars@.subrange(start, i as int));
    }
    let ghost closed = runs.deep_view();
    if run.len() > 0 {
        runs.push(run);
        assert(runs.deep_view() =~= closed.push(chars@.subrange(start, i as int))) by {
            assert(runs@.last().deep_view() =~= chars@.subrange(start, i as int));
        }
    }
    runs
}

/// The pieces of a text, read off where its last stretch without gaps begins.
proof fn lemma_pieces_at_run(chars: Seq<char>, gaps: Seq<bool>, start: int)
    requires
        gaps.len() == chars.len(),
        start == run_start(gaps),
    ensures
        0 <= start <= chars.len(),
        pieces(chars, gaps) == if start == chars.len() {
            pieces(chars.take(start), gaps.take(start))
        } else {
            pieces(chars.take(start), gaps.take(start)).push(chars.skip(start))
        },
    decreases chars.len(),
{
    lemma_run_start(gaps);
    if chars.len() == 0 {
        assert(chars.take(start) =~= chars);
        assert(gaps.take(start) =~= gaps);
    } else if gaps.last() {
        assert(chars.take(start) =~= chars);
        assert(gaps.take(start) =~= gaps);
    } else {
    }
}

/// Whether every mark is set.
pub fn all_set(marks: &[bool]) -> (all: bool)
    ensures
        all == forall|i: int| 0 <= i < marks@.len() ==> marks@[i],
{
    let mut i: usize = 0;
    while i < marks.len()
        invariant
            i <= marks@.len(),
            forall|k: int| 0 <= k < i ==> marks@[k],
        decreases marks@.len() - i,
    {
        if !marks[i] {
            return false;
        }
        i += 1;
    }
    true
}

/// Of each character of `chars`, whether it is white space.
fn white_space_marks(chars: &[char]) -> (marks: Vec<bool>)
    ensures
        marks@ == white_space_of(chars@),
{
    let mut marks: Vec<bool> = Vec::new();
    let mut i: usize = 0;
    while i < chars.len()
        invariant
            i <= chars@.len(),
            marks@.len() == i,
            forall|k: int| 0 <= k < i ==> marks@[k] == is_white_space(chars@[k]),
        decreases chars@.len() - i,
    {
        marks.push(char_is_white_space(chars[i]));
        i += 1;
    }
    assert(marks@ =~= white_space_of(chars@));
    marks
}

/// Of each character of `chars`, whether it is a letter.
fn letter_marks(chars: &[char]) -> (marks: Vec<bool>)
    ensures
        marks@.len() == chars@.len(),
        forall|k: int| 0 <= k < chars@.len() ==> marks@[k] == is_letter(chars@[k]),
{
    let mut marks: Vec<bool> = Vec::new();
    let mut i: usize = 0;
    while i < chars.len()
        invariant
            i <= chars@.len(),
            marks@.len() == i,
            forall|k: int| 0 <= k < i ==> marks@[k] == is_letter(chars@[k]),
        decreases chars@.len() - i,
    {
        marks.push(char_is_letter(chars[i]));
        i += 1;
    }
    marks
}

/// Reads the words out of `text`: cuts it at white space, puts each piece in
/// lower case, and keeps the pieces that are letters throughout. Words come
/// in text order; none is dropped for occurring twice.
pub fn parse_words(text: &str) -> (words: Vec<String>)
    ensures
        words.deep_view() == words_of(text@),
{
    let chars = chars_of(text);
    let gaps = white_space_marks(chars.as_slice());
    let runs = split_runs(chars.as_slice(), gaps.as_slice());
    let ghost lowered = candidates(text@);
    let ghost keep = letters_only();
    let mut words: Vec<String> = Vec::new();
    let mut k: usize = 0;
    assert(lowered.take(0) =~= Seq::<Seq<char>>::empty());
    assert(words.deep_view() =~= Seq::<Seq<char>>::empty());
    assert(Seq::<Seq<char>>::empty().filter(keep) =~= Seq::<Seq<char>>::empty()) by {
        reveal(Seq::filter);
    }
    while k < runs.len()
        invariant
            k <= runs@.len(),
            runs.deep_view() == pieces(text@, white_space_of(text@)),
            lowered == candidates(text@),
            keep == letters_only(),
            words.deep_view() == lowered.take(k as int).filter(keep),
        decreases runs@.len() - k,
    {
        let ghost before = words.deep_view();
        let piece = string_of(runs[k].as_slice());
        let lower = str_to_lower_case(piece.as_str());
        let letters = chars_of(lower.as_str());
        let marks = letter_marks(letters.as_slice());
        proof {
            assert(runs.deep_view()[k as int] =~= runs@[k as int]@);
            assert(lowered[k as int] == lower@);
            assert(lowered.take(k + 1) =~= lowered.take(k as int).push(lower@));
            lowered.take(k as int).lemma_filter_push(lower@, keep);
        }
        if all_set(marks.as_slice()) {
            assert forall|i: int| 0 <= i < lower@.len() implies is_letter(#[trigger] lower@[i]) by {
                assert(marks@[i]);
            }
            words.push(lower);
            assert(words.deep_view() =~= before.push(lower@));
        } else {
            let ghost bad = choose|i: int| 0 <= i < marks@.len() && !marks@[i];
            assert(!is_letter(lower@[bad]));
        }
        k += 1;
    }
    assert(lowered.take(k as int) =~= lowered);
    words
}

} // verus!
