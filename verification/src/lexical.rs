//! Dictionary order on sequences of characters.

use vstd::prelude::*;

verus! {

/// `a` and `b` agree before position `k` and differ at it.
pub open spec fn first_difference(a: Seq<char>, b: Seq<char>, k: int) -> bool {
    &&& 0 <= k < a.len()
    &&& k < b.len()
    &&& a[k] != b[k]
    &&& forall|i: int| 0 <= i < k ==> a[i] == b[i]
}

/// `a` comes no later than `b` in the dictionary: `a` begins `b`, or at the
/// first position where they differ `a` has the smaller character.
pub open spec fn lex_le(a: Seq<char>, b: Seq<char>) -> bool {
    a.is_prefix_of(b) || exists|k: int| first_difference(a, b, k) && a[k] < b[k]
}

/// How far `a` and `b` agree: the position of their first difference, or the
/// length of the shorter where one begins the other.
pub open spec fn is_gap(a: Seq<char>, b: Seq<char>, k: int) -> bool {
    &&& 0 <= k <= a.len()
    &&& k <= b.len()
    &&& forall|i: int| 0 <= i < k ==> a[i] == b[i]
    &&& (k == a.len() || k == b.len() || a[k] != b[k])
}

/// Reading the order off the place where two texts stop agreeing.
pub proof fn lemma_order_at_gap(a: Seq<char>, b: Seq<char>, k: int)
    requires
        is_gap(a, b, k),
    ensures
        k == a.len() ==> lex_le(a, b),
        k == a.len() && k == b.len() ==> a == b,
        k < a.len() && k == b.len() ==> !lex_le(a, b),
        k < a.len() && k < b.len() ==> (lex_le(a, b) <==> a[k] < b[k]),
        k < a.len() ==> a != b,
{
    if k == a.len() {
        assert(a =~= b.subrange(0, a.len() as int));
        if k == b.len() {
            assert(a =~= b);
        }
    } else if k == b.len() {
        assert forall|j: int| first_difference(a, b, j) implies false by {}
        assert(!a.is_prefix_of(b));
    } else {
        assert(first_difference(a, b, k));
        assert(a.subrange(0, a.len() as int).len() == a.len());
        if a.is_prefix_of(b) {
            assert(b.subrange(0, a.len() as int)[k] == b[k]);
        }
        assert forall|j: int| first_difference(a, b, j) implies j == k by {
            if j < k {
                assert(a[j] == b[j]);
            } else if k < j {
                assert(a[k] == b[k]);
            }
        }
    }
}

/// Any two texts stop agreeing somewhere.
pub proof fn lemma_gap_exists(a: Seq<char>, b: Seq<char>, from: int) -> (k: int)
    requires
        0 <= from <= a.len(),
        from <= b.len(),
        forall|i: int| 0 <= i < from ==> a[i] == b[i],
    ensures
        is_gap(a, b, k),
    decreases a.len() - from,
{
    if from == a.len() || from == b.len() || a[from] != b[from] {
        from
    } else {
        lemma_gap_exists(a, b, from + 1)
    }
}

/// Every text comes no later than itself.
pub proof fn lemma_lex_reflexive(a: Seq<char>)
    ensures
        lex_le(a, a),
{
    assert(a =~= a.subrange(0, a.len() as int));
}

/// Of two texts one comes no later than the other.
pub proof fn lemma_lex_total(a: Seq<char>, b: Seq<char>)
    ensures
        lex_le(a, b) || lex_le(b, a),
{
    let k = lemma_gap_exists(a, b, 0);
    lemma_order_at_gap(a, b, k);
    assert(is_gap(b, a, k));
    lemma_order_at_gap(b, a, k);
}

/// Two texts that each come no later than the other are the same text.
pub proof fn lemma_lex_antisymmetric(a: Seq<char>, b: Seq<char>)
    requires
        lex_le(a, b),
        lex_le(b, a),
    ensures
        a == b,
{
    let k = lemma_gap_exists(a, b, 0);
    lemma_order_at_gap(a, b, k);
    assert(is_gap(b, a, k));
    lemma_order_at_gap(b, a, k);
}

/// Dictionary order carries over a text in the middle.
pub proof fn lemma_lex_transitive(a: Seq<char>, b: Seq<char>, c: Seq<char>)
    requires
        lex_le(a, b),
        lex_le(b, c),
    ensures
        lex_le(a, c),
{
    let k = lemma_gap_exists(a, b, 0);
    let m = lemma_gap_exists(b, c, 0);
    lemma_order_at_gap(a, b, k);
    lemma_order_at_gap(b, c, m);
    let n = if k <= m {
        k
    } else {
        m
    };
    assert(is_gap(a, c, n)) by {
        assert forall|i: int| 0 <= i < n implies a[i] == c[i] by {
            assert(a[i] == b[i]);
            assert(b[i] == c[i]);
        }
    }
    lemma_order_at_gap(a, c, n);
}

/// The place where `a` and `b` stop agreeing.
pub fn gap_of(a: &[char], b: &[char]) -> (k: usize)
    ensures
        is_gap(a@, b@, k as int),
{
    let mut k: usize = 0;
    while k < a.len() && k < b.len() && a[k] == b[k]
        invariant
            k <= a@.len(),
            k <= b@.len(),
            forall|i: int| 0 <= i < k ==> a@[i] == b@[i],
        decreases a@.len() - k,
    {
        k += 1;
    }
    k
}

} // verus!
