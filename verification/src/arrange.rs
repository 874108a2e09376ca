//! Stable sorting: the one arrangement of a word list in which words stand
//! in rank order and words of the same rank keep the order they came in.

use crate::error::FinderError;
use crate::ord::{Rank, WordOrder};
use crate::text::chars_of;
use vstd::prelude::*;

verus! {

/// The word at place `i` of `words` is shown before the word at place `j`:
/// it ranks before it, or ranks the same and stands earlier in the list.
pub open spec fn shown_before(order: WordOrder, words: Seq<Seq<char>>, i: int, j: int) -> bool {
    &&& order.no_later(words[i], words[j])
    &&& (order.no_later(words[j], words[i]) ==> i < j)
}

/// `places` lists places of `words`, each at most once, so that every listed
/// place is shown before all that follow it.
pub open spec fn is_lineup(order: WordOrder, words: Seq<Seq<char>>, places: Seq<int>) -> bool {
    &&& forall|k: int| 0 <= k < places.len() ==> 0 <= #[trigger] places[k] < words.len()
    &&& forall|k: int, l: int|
        0 <= k < l < places.len() ==> shown_before(
            order,
            words,
            #[trigger] places[k],
            #[trigger] places[l],
        )
}

/// `places` is the stable arrangement of `words`: a lineup that lists as many
/// places as there are words, and so each place once.
pub open spec fn is_arrangement(order: WordOrder, words: Seq<Seq<char>>, places: Seq<int>) -> bool {
    places.len() == words.len() && is_lineup(order, words, places)
}

/// The words of `words` in the order that `places` lists their places.
pub open spec fn arranged(words: Seq<Seq<char>>, places: Seq<int>) -> Seq<Seq<char>> {
    Seq::new(places.len(), |k: int| words[places[k]])
}

/// `output` is `input` sorted stably by `order`.
pub open spec fn is_sorting_of(
    order: WordOrder,
    input: Seq<Seq<char>>,
    output: Seq<Seq<char>>,
) -> bool {
    exists|places: Seq<int>|
        is_arrangement(order, input, places) && output == #[trigger] arranged(input, places)
}

/// The identity: every place of a list of `len` words, in list order.
pub open spec fn in_place(len: nat) -> Seq<int> {
    Seq::new(len, |k: int| k)
}

/// `words` stands in rank order: no word ranks before one that stands
/// earlier.
pub open spec fn is_ranked(order: WordOrder, words: Seq<Seq<char>>) -> bool {
    forall|k: int, l: int|
        0 <= k < l < words.len() ==> order.no_later(#[trigger] words[k], #[trigger] words[l])
}

/// Of two different places one is shown before the other, never both.
pub proof fn lemma_shown_before_decides(order: WordOrder, words: Seq<Seq<char>>, i: int, j: int)
    ensures
        !shown_before(order, words, i, i),
        i != j ==> (shown_before(order, words, i, j) <==> !shown_before(order, words, j, i)),
{
    order.lemma_total_preorder(words[i], words[j], words[i]);
}

/// An arrangement lists every place of the word list, and none twice.
pub proof fn lemma_arrangement_is_permutation(
    order: WordOrder,
    words: Seq<Seq<char>>,
    places: Seq<int>,
)
    requires
        is_arrangement(order, words, places),
    ensures
        places.no_duplicates(),
        forall|p: int| 0 <= p < words.len() ==> places.contains(p),
{
    assert forall|k: int, l: int| 0 <= k < places.len() && 0 <= l < places.len() && k != l implies places[k]
        != places[l] by {
        lemma_shown_before_decides(order, words, places[k], places[l]);
        if k < l {
            assert(shown_before(order, words, places[k], places[l]));
        } else {
            assert(shown_before(order, words, places[l], places[k]));
        }
    }
    let listed = places.to_set();
    let all = vstd::set_lib::set_int_range(0, words.len() as int);
    places.unique_seq_to_set();
    vstd::seq_lib::seq_to_set_is_finite(places);
    vstd::set_lib::lemma_int_range(0, words.len() as int);
    assert(listed.subset_of(all)) by {
        assert forall|p: int| listed.contains(p) implies all.contains(p) by {
            let k = choose|k: int| 0 <= k < places.len() && places[k] == p;
            assert(0 <= places[k] < words.len());
        }
    }
    vstd::set_lib::lemma_subset_equality(listed, all);
    assert forall|p: int| 0 <= p < words.len() implies places.contains(p) by {
        assert(all.contains(p));
        assert(listed.contains(p));
    }
}

/// Two arrangements of one list agree on their first `upto` places.
proof fn lemma_arrangements_agree(
    order: WordOrder,
    words: Seq<Seq<char>>,
    first: Seq<int>,
    second: Seq<int>,
    upto: int,
)
    requires
        is_arrangement(order, words, first),
        is_arrangement(order, words, second),
        0 <= upto <= words.len(),
    ensures
        forall|k: int| 0 <= k < upto ==> first[k] == second[k],
    decreases upto,
{
    if upto > 0 {
        let here = upto - 1;
        lemma_arrangements_agree(order, words, first, second, here);
        let x = first[here];
        let y = second[here];
        if x != y {
            lemma_arrangement_is_permutation(order, words, first);
            lemma_arrangement_is_permutation(order, words, second);
            lemma_shown_before_decides(order, words, x, y);
            // Each of the two places stands later in the other arrangement,
            // so each would be shown before the other.
            let m = choose|m: int| 0 <= m < second.len() && second[m] == x;
            let n = choose|n: int| 0 <= n < first.len() && first[n] == y;
            assert(second.contains(x));
            assert(first.contains(y));
            if m < here {
                assert(first[m] == second[m]);
            }
            if n < here {
                assert(first[n] == second[n]);
            }
            assert(shown_before(order, words, second[here], second[m]));
            assert(shown_before(order, words, first[here], first[n]));
        }
    }
}

/// A word list has one stable arrangement only.
pub proof fn lemma_arrangement_unique(
    order: WordOrder,
    words: Seq<Seq<char>>,
    first: Seq<int>,
    second: Seq<int>,
)
    requires
        is_arrangement(order, words, first),
        is_arrangement(order, words, second),
    ensures
        first == second,
{
    lemma_arrangements_agree(order, words, first, second, words.len() as int);
    assert(first =~= second);
}

/// Sorting is a function of the list and the order: whatever is a stable
/// sorting of a list is the same sequence of words.
pub proof fn lemma_sorting_unique(
    order: WordOrder,
    input: Seq<Seq<char>>,
    one: Seq<Seq<char>>,
    other: Seq<Seq<char>>,
)
    requires
        is_sorting_of(order, input, one),
        is_sorting_of(order, input, other),
    ensures
        one == other,
{
    let first = choose|places: Seq<int>|
        is_arrangement(order, input, places) && one == #[trigger] arranged(input, places);
    let second = choose|places: Seq<int>|
        is_arrangement(order, input, places) && other == #[trigger] arranged(input, places);
    lemma_arrangement_unique(order, input, first, second);
}

/// An arrangement holds the words of the list, each as often as the list does.
pub proof fn lemma_arranged_multiset(order: WordOrder, input: Seq<Seq<char>>, places: Seq<int>)
    requires
        is_arrangement(order, input, places),
    ensures
        arranged(input, places).to_multiset() == input.to_multiset(),
    decreases input.len(),
{
    broadcast use vstd::seq_lib::group_to_multiset_ensures;
    broadcast use vstd::multiset::group_multiset_axioms;

    let output = arranged(input, places);
    if input.len() == 0 {
        assert(output =~= input);
    } else {
        let last = input.len() - 1;
        lemma_arrangement_is_permutation(order, input, places);
        assert(places.contains(last));
        let k = choose|k: int| 0 <= k < places.len() && places[k] == last;
        let fewer = input.drop_last();
        let rest = places.remove(k);
        assert forall|a: int| 0 <= a < rest.len() implies 0 <= #[trigger] rest[a] < fewer.len() by {
            let from = if a < k {
                a
            } else {
                a + 1
            };
            assert(rest[a] == places[from]);
            assert(0 <= places[from] < input.len());
            assert(places[from] != places[k]);
        }
        assert forall|a: int, b: int| 0 <= a < b < rest.len() implies shown_before(
            order,
            fewer,
            #[trigger] rest[a],
            #[trigger] rest[b],
        ) by {
            let from_a = if a < k {
                a
            } else {
                a + 1
            };
            let from_b = if b < k {
                b
            } else {
                b + 1
            };
            assert(rest[a] == places[from_a]);
            assert(rest[b] == places[from_b]);
            assert(0 <= rest[a] < fewer.len());
            assert(0 <= rest[b] < fewer.len());
            assert(shown_before(order, input, places[from_a], places[from_b]));
        }
        lemma_arranged_multiset(order, fewer, rest);
        assert(arranged(fewer, rest) =~= output.remove(k)) by {
            assert forall|a: int| 0 <= a < rest.len() implies arranged(fewer, rest)[a]
                == output.remove(k)[a] by {
                assert(0 <= rest[a] < fewer.len());
            }
        }
        assert(output[k] == input.last());
        assert(input =~= fewer.push(input.last()));
        assert(output.to_multiset() =~= output.remove(k).to_multiset().insert(output[k])) by {
            assert(output.contains(output[k]));
        }
    }
}

/// Sorting is stable: the sorted list stands in rank order, and of two words
/// of the same rank the one shown first is the one that came first.
pub proof fn lemma_sorting_is_stable(order: WordOrder, input: Seq<Seq<char>>, places: Seq<int>)
    requires
        is_arrangement(order, input, places),
    ensures
        is_ranked(order, arranged(input, places)),
        forall|k: int, l: int|
            0 <= k < l < input.len() && order.rank(
                #[trigger] arranged(input, places)[k],
                #[trigger] arranged(input, places)[l],
            ) == Rank::Same ==> places[k] < places[l],
        arranged(input, places).to_multiset() == input.to_multiset(),
{
    let output = arranged(input, places);
    assert forall|k: int, l: int| 0 <= k < l < output.len() implies order.no_later(
        #[trigger] output[k],
        #[trigger] output[l],
    ) by {
        assert(shown_before(order, input, places[k], places[l]));
    }
    assert forall|k: int, l: int|
        0 <= k < l < input.len() && order.rank(#[trigger] output[k], #[trigger] output[l])
            == Rank::Same implies places[k] < places[l] by {
        assert(shown_before(order, input, places[k], places[l]));
    }
    lemma_arranged_multiset(order, input, places);
}

/// A list that stands in rank order is its own stable sorting.
pub proof fn lemma_ranked_is_sorted(order: WordOrder, words: Seq<Seq<char>>)
    requires
        is_ranked(order, words),
    ensures
        is_arrangement(order, words, in_place(words.len())),
        is_sorting_of(order, words, words),
{
    let places = in_place(words.len());
    assert(arranged(words, places) =~= words);
}

/// Sorting a sorted list changes nothing: sorting twice gives what sorting
/// once gives.
pub proof fn lemma_sorting_twice(
    order: WordOrder,
    input: Seq<Seq<char>>,
    once: Seq<Seq<char>>,
    twice: Seq<Seq<char>>,
)
    requires
        is_sorting_of(order, input, once),
        is_sorting_of(order, once, twice),
    ensures
        twice == once,
{
    let places = choose|places: Seq<int>|
        is_arrangement(order, input, places) && once == #[trigger] arranged(input, places);
    lemma_sorting_is_stable(order, input, places);
    lemma_ranked_is_sorted(order, once);
    lemma_sorting_unique(order, once, once, twice);
}

/// The places of the items that pass a test: the filtered list holds the
/// items at those places, in the order of the places, and every place whose
/// item passes is among them.
pub proof fn lemma_kept_places<T>(items: Seq<T>, test: spec_fn(T) -> bool) -> (kept: Seq<int>)
    ensures
        kept.len() == items.filter(test).len(),
        forall|k: int|
            0 <= k < kept.len() ==> 0 <= #[trigger] kept[k] < items.len() && test(items[kept[k]])
                && items.filter(test)[k] == items[kept[k]],
        forall|k: int, l: int| 0 <= k < l < kept.len() ==> kept[k] < kept[l],
        forall|i: int| 0 <= i < items.len() && test(items[i]) ==> kept.contains(i),
    decreases items.len(),
{
    if items.len() == 0 {
        assert(items.filter(test) =~= Seq::<T>::empty()) by {
            reveal(Seq::filter);
        }
        Seq::empty()
    } else {
        let last = items.len() - 1;
        let fewer = items.drop_last();
        let rest = lemma_kept_places(fewer, test);
        fewer.lemma_filter_push(items.last(), test);
        assert(items =~= fewer.push(items.last()));
        let kept = if test(items[last]) {
            rest.push(last)
        } else {
            rest
        };
        assert forall|i: int| 0 <= i < items.len() && test(items[i]) implies kept.contains(i) by {
            if i < last {
                assert(fewer[i] == items[i]);
                assert(rest.contains(i));
                let k = choose|k: int| 0 <= k < rest.len() && rest[k] == i;
                assert(kept[k] == i);
            } else {
                assert(kept[kept.len() - 1] == i);
            }
        }
        assert forall|k: int| 0 <= k < kept.len() implies 0 <= #[trigger] kept[k] < items.len()
            && test(items[kept[k]]) && items.filter(test)[k] == items[kept[k]] by {
            if k < rest.len() {
                assert(kept[k] == rest[k]);
                assert(fewer[rest[k]] == items[rest[k]]);
            }
        }
        assert forall|k: int, l: int| 0 <= k < l < kept.len() implies kept[k] < kept[l] by {
            assert(kept[k] == rest[k]);
            if l < rest.len() {
                assert(kept[l] == rest[l]);
            }
        }
        kept
    }
}

/// A list of different numbers below a bound is no longer than the bound.
proof fn lemma_distinct_below(list: Seq<int>, bound: int)
    requires
        0 <= bound,
        list.no_duplicates(),
        forall|k: int| 0 <= k < list.len() ==> 0 <= #[trigger] list[k] < bound,
    ensures
        list.len() <= bound,
{
    let listed = list.to_set();
    let all = vstd::set_lib::set_int_range(0, bound);
    list.unique_seq_to_set();
    vstd::seq_lib::seq_to_set_is_finite(list);
    vstd::set_lib::lemma_int_range(0, bound);
    assert(listed.subset_of(all)) by {
        assert forall|p: int| listed.contains(p) implies all.contains(p) by {
            let k = choose|k: int| 0 <= k < list.len() && list[k] == p;
            assert(0 <= list[k] < bound);
        }
    }
    vstd::set_lib::lemma_len_subset(listed, all);
}

/// Filtering and sorting can be done in either order: the accepted words of
/// a sorted list are the sorting of the accepted words.
pub proof fn lemma_filter_of_sorting(
    order: WordOrder,
    words: Seq<Seq<char>>,
    sorted: Seq<Seq<char>>,
    test: spec_fn(Seq<char>) -> bool,
)
    requires
        is_sorting_of(order, words, sorted),
    ensures
        is_sorting_of(order, words.filter(test), sorted.filter(test)),
{
    let places = choose|places: Seq<int>|
        is_arrangement(order, words, places) && sorted == #[trigger] arranged(words, places);
    lemma_arrangement_is_permutation(order, words, places);
    let few = words.filter(test);
    let shown = sorted.filter(test);
    let from = lemma_kept_places(words, test);
    let at = lemma_kept_places(sorted, test);
    // Where the word shown at each place of the filtered sorting stands
    // among the accepted words.
    let line = Seq::new(at.len(), |m: int| from.index_of(places[at[m]]));
    assert forall|m: int| 0 <= m < at.len() implies 0 <= #[trigger] line[m] < from.len()
        && from[line[m]] == places[at[m]] by {
        assert(0 <= at[m] < sorted.len());
        assert(sorted[at[m]] == words[places[at[m]]]);
        assert(0 <= places[at[m]] < words.len());
        assert(from.contains(places[at[m]]));
    }
    assert forall|m: int, n: int| 0 <= m < n < line.len() implies shown_before(
        order,
        few,
        #[trigger] line[m],
        #[trigger] line[n],
    ) by {
        assert(from[line[m]] == places[at[m]]);
        assert(from[line[n]] == places[at[n]]);
        assert(at[m] < at[n]);
        assert(shown_before(order, words, places[at[m]], places[at[n]]));
        lemma_shown_before_decides(order, words, places[at[m]], places[at[n]]);
        if line[n] < line[m] {
            assert(from[line[n]] < from[line[m]]);
        }
        if line[n] == line[m] {
        }
    }
    assert(line.no_duplicates()) by {
        assert forall|m: int, n: int| 0 <= m < line.len() && 0 <= n < line.len() && m != n implies line[m]
            != line[n] by {
            lemma_shown_before_decides(order, few, line[m], line[n]);
            if m < n {
                assert(shown_before(order, few, line[m], line[n]));
            } else {
                assert(shown_before(order, few, line[n], line[m]));
            }
        }
    }
    lemma_distinct_below(line, from.len() as int);
    // The other way round: where each accepted word is shown.
    let back = Seq::new(from.len(), |k: int| at.index_of(places.index_of(from[k])));
    assert forall|k: int| 0 <= k < from.len() implies 0 <= #[trigger] back[k] < at.len()
        && places[at[back[k]]] == from[k] by {
        assert(0 <= from[k] < words.len());
        assert(places.contains(from[k]));
        let seat = places.index_of(from[k]);
        assert(0 <= seat < places.len() && places[seat] == from[k]);
        assert(sorted[seat] == words[from[k]]);
        assert(at.contains(seat));
    }
    assert(back.no_duplicates()) by {
        assert forall|k: int, l: int| 0 <= k < back.len() && 0 <= l < back.len() && k != l implies back[k]
            != back[l] by {
            assert(places[at[back[k]]] == from[k]);
            assert(places[at[back[l]]] == from[l]);
            if k < l {
                assert(from[k] < from[l]);
            } else {
                assert(from[l] < from[k]);
            }
        }
    }
    lemma_distinct_below(back, at.len() as int);
    assert(is_arrangement(order, few, line));
    assert(shown =~= arranged(few, line)) by {
        assert forall|m: int| 0 <= m < shown.len() implies shown[m] == arranged(few, line)[m] by {
            assert(0 <= line[m] < from.len() && from[line[m]] == places[at[m]]);
            assert(0 <= at[m] < sorted.len());
            assert(sorted[at[m]] == words[places[at[m]]]);
        }
    }
}

/// The places that a vector of positions holds.
pub open spec fn places_of(run: Seq<usize>) -> Seq<int> {
    Seq::new(run.len(), |k: int| run[k] as int)
}

/// `run` is a lineup of exactly the places from `lo` up to `hi`.
pub open spec fn is_run(
    order: WordOrder,
    words: Seq<Seq<char>>,
    run: Seq<usize>,
    lo: int,
    hi: int,
) -> bool {
    &&& run.len() == hi - lo
    &&& forall|k: int| 0 <= k < run.len() ==> lo <= #[trigger] run[k] < hi
    &&& is_lineup(order, words, places_of(run))
}

/// Merges two runs over neighbouring ranges of places into one run. Where
/// the next words of both rank the same, the left one goes first.
fn merge_runs(
    order: WordOrder,
    texts: &Vec<Vec<char>>,
    left: &Vec<usize>,
    right: &Vec<usize>,
    Ghost(lo): Ghost<int>,
    Ghost(mid): Ghost<int>,
    Ghost(hi): Ghost<int>,
) -> (merged: Vec<usize>)
    requires
        order.supported(),
        0 <= lo <= mid <= hi <= texts@.len(),
        is_run(order, texts.deep_view(), left@, lo, mid),
        is_run(order, texts.deep_view(), right@, mid, hi),
    ensures
        is_run(order, texts.deep_view(), merged@, lo, hi),
{
    let ghost words = texts.deep_view();
    let mut merged: Vec<usize> = Vec::new();
    let mut i: usize = 0;
    let mut j: usize = 0;
    while i < left.len() || j < right.len()
        invariant
            order.supported(),
            words == texts.deep_view(),
            0 <= lo <= mid <= hi <= texts@.len(),
            is_run(order, words, left@, lo, mid),
            is_run(order, words, right@, mid, hi),
            i <= left@.len(),
            j <= right@.len(),
            merged@.len() == i + j,
            forall|k: int| 0 <= k < merged@.len() ==> lo <= #[trigger] merged@[k] < hi,
            is_lineup(order, words, places_of(merged@)),
            forall|k: int, a: int|
                0 <= k < merged@.len() && i <= a < left@.len() ==> shown_before(
                    order,
                    words,
                    #[trigger] merged@[k] as int,
                    #[trigger] left@[a] as int,
                ),
            forall|k: int, b: int|
                0 <= k < merged@.len() && j <= b < right@.len() ==> shown_before(
                    order,
                    words,
                    #[trigger] merged@[k] as int,
                    #[trigger] right@[b] as int,
                ),
        decreases left@.len() - i + right@.len() - j,
    {
        let ghost before = merged@;
        let take_left = if j == right.len() {
            true
        } else if i == left.len() {
            false
        } else {
            let l = left[i];
            let r = right[j];
            assert(places_of(left@)[i as int] == l);
            assert(places_of(right@)[j as int] == r);
            assert(words[l as int] == texts@[l as int]@);
            assert(words[r as int] == texts@[r as int]@);
            match order.rank_of(texts[l].as_slice(), texts[r].as_slice()) {
                Some(Rank::After) => false,
                _ => true,
            }
        };
        if take_left {
            let x = left[i];
            proof {
                assert forall|b: int| j <= b < right@.len() implies shown_before(
                    order,
                    words,
                    x as int,
                    #[trigger] right@[b] as int,
                ) by {
                    let first = right@[j as int];
                    let other = right@[b];
                    assert(places_of(left@)[i as int] == x);
                    assert(places_of(right@)[j as int] == first);
                    assert(places_of(right@)[b] == other);
                    order.lemma_total_preorder(
                        words[x as int],
                        words[first as int],
                        words[other as int],
                    );
                    order.lemma_total_preorder(
                        words[first as int],
                        words[first as int],
                        words[other as int],
                    );
                }
                assert forall|a: int| i + 1 <= a < left@.len() implies shown_before(
                    order,
                    words,
                    x as int,
                    #[trigger] left@[a] as int,
                ) by {
                    assert(places_of(left@)[i as int] == x);
                    assert(places_of(left@)[a] == left@[a]);
                }
            }
            merged.push(x);
            i += 1;
        } else {
            let y = right[j];
            proof {
                assert forall|a: int| i <= a < left@.len() implies shown_before(
                    order,
                    words,
                    y as int,
                    #[trigger] left@[a] as int,
                ) by {
                    let first = left@[i as int];
                    let other = left@[a];
                    assert(places_of(right@)[j as int] == y);
                    assert(places_of(left@)[i as int] == first);
                    assert(places_of(left@)[a] == other);
                    order.lemma_total_preorder(
                        words[first as int],
                        words[other as int],
                        words[y as int],
                    );
                    order.lemma_total_preorder(
                        words[first as int],
                        words[first as int],
                        words[other as int],
                    );
                    order.lemma_total_preorder(
                        words[y as int],
                        words[other as int],
                        words[other as int],
                    );
                }
                assert forall|b: int| j + 1 <= b < right@.len() implies shown_before(
                    order,
                    words,
                    y as int,
                    #[trigger] right@[b] as int,
                ) by {
                    assert(places_of(right@)[j as int] == y);
                    assert(places_of(right@)[b] == right@[b]);
                }
            }
            merged.push(y);
            j += 1;
        }
        proof {
            let now = places_of(merged@);
            assert forall|k: int, l: int| 0 <= k < l < now.len() implies shown_before(
                order,
                words,
                #[trigger] now[k],
                #[trigger] now[l],
            ) by {
                if l < before.len() {
                    assert(places_of(before)[k] == now[k]);
                    assert(places_of(before)[l] == now[l]);
                } else {
                    assert(before[k] == merged@[k]);
                }
            }
        }
    }
    merged
}

/// The run over the places from `lo` up to `hi`, by merge sort.
fn sort_span(order: WordOrder, texts: &Vec<Vec<char>>, lo: usize, hi: usize) -> (run: Vec<usize>)
    requires
        order.supported(),
        lo <= hi <= texts@.len(),
    ensures
        is_run(order, texts.deep_view(), run@, lo as int, hi as int),
    decreases hi - lo,
{
    if hi - lo <= 1 {
        let mut run: Vec<usize> = Vec::new();
        if hi - lo == 1 {
            run.push(lo);
        }
        run
    } else {
        let mid = lo + (hi - lo) / 2;
        let left = sort_span(order, texts, lo, mid);
        let right = sort_span(order, texts, mid, hi);
        merge_runs(order, texts, &left, &right, Ghost(lo as int), Ghost(mid as int), Ghost(hi as int))
    }
}

/// The stable arrangement of `texts` under `order`: the place of the word to
/// show first, then of the one to show second, and so on.
pub fn arrange(order: WordOrder, texts: &Vec<Vec<char>>) -> (places: Vec<usize>)
    requires
        order.supported(),
    ensures
        is_arrangement(order, texts.deep_view(), places_of(places@)),
{
    sort_span(order, texts, 0, texts.len())
}

/// Sorts the words that `words` refers to, stably, into a list of their own.
/// Under `Random` nothing is sorted and the error `UnsupportedOrder` comes back.
pub fn sort_refs(order: WordOrder, words: &Vec<&String>) -> (sorted: Result<
    Vec<String>,
    FinderError,
>)
    ensures
        match sorted {
            Ok(list) => order.supported() && is_sorting_of(
                order,
                words.deep_view(),
                list.deep_view(),
            ),
            Err(e) => !order.supported() && e == FinderError::UnsupportedOrder,
        },
{
    if order == WordOrder::Random {
        return Err(FinderError::UnsupportedOrder);
    }
    let mut texts: Vec<Vec<char>> = Vec::new();
    let mut i: usize = 0;
    while i < words.len()
        invariant
            i <= words@.len(),
            texts@.len() == i,
            forall|k: int| 0 <= k < i ==> (#[trigger] texts@[k])@ == words@[k]@,
        decreases words@.len() - i,
    {
        texts.push(chars_of(words[i].as_str()));
        i += 1;
    }
    assert(texts.deep_view() =~= words.deep_view()) by {
        assert forall|k: int| 0 <= k < texts@.len() implies texts.deep_view()[k]
            == words.deep_view()[k] by {
            assert(texts@[k].deep_view() =~= texts@[k]@);
        }
    }
    let places = arrange(order, &texts);
    let ghost input = words.deep_view();
    let ghost line = places_of(places@);
    let mut list: Vec<String> = Vec::new();
    let mut k: usize = 0;
    while k < places.len()
        invariant
            k <= places@.len(),
            places@.len() == words@.len(),
            input == words.deep_view(),
            line == places_of(places@),
            is_arrangement(order, input, line),
            list@.len() == k,
            forall|a: int| 0 <= a < k ==> (#[trigger] list@[a])@ == input[line[a]],
        decreases places@.len() - k,
    {
        let at = places[k];
        assert(line[k as int] == at);
        assert(0 <= line[k as int] < input.len());
        list.push(words[at].clone());
        k += 1;
    }
    assert(list.deep_view() =~= arranged(input, line));
    Ok(list)
}

impl WordOrder {
    /// Sorts `words` by this order into a new list, stably: words of the same
    /// rank keep the order in which they came. Under `Random` nothing is
    /// sorted and the error `UnsupportedOrder` comes back.
    pub fn sort(&self, words: &Vec<String>) -> (sorted: Result<Vec<String>, FinderError>)
        ensures
            match sorted {
                Ok(list) => self.supported() && is_sorting_of(
                    *self,
                    words.deep_view(),
                    list.deep_view(),
                ),
                Err(e) => !self.supported() && e == FinderError::UnsupportedOrder,
            },
    {
        let mut refs: Vec<&String> = Vec::new();
        let mut i: usize = 0;
        while i < words.len()
            invariant
                i <= words@.len(),
                refs@.len() == i,
                forall|k: int| 0 <= k < i ==> *(#[trigger] refs@[k]) == words@[k],
            decreases words@.len() - i,
        {
            refs.push(&words[i]);
            i += 1;
        }
        assert(refs.deep_view() =~= words.deep_view());
        sort_refs(*self, &refs)
    }
}

} // verus!
