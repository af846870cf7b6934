//! Counting `true` entries of boolean sequences.
//!
//! The board stores its dino, revealed and flag sets as boolean grids;
//! the win condition and the flag budget compare the sizes of those
//! sets, so the cached size fields are tied to the grids through
//! [`count_true`] and the lemmas below.

use vstd::prelude::*;

verus! {

/// The number of `true` entries of `s`.
pub open spec fn count_true(s: Seq<bool>) -> int
    decreases s.len(),
{
    if s.len() == 0 {
        0
    } else {
        count_true(s.drop_last()) + if s.last() {
            1int
        } else {
            0int
        }
    }
}

/// A count of `true` entries is never negative and never exceeds the length.
pub proof fn lemma_count_true_bounds(s: Seq<bool>)
    ensures
        0 <= count_true(s) <= s.len(),
    decreases s.len(),
{
    if s.len() > 0 {
        lemma_count_true_bounds(s.drop_last());
    }
}

/// Writing one entry moves the count by one or leaves it unchanged,
/// depending on the old and the new value.
pub proof fn lemma_count_true_update(s: Seq<bool>, i: int, v: bool)
    requires
        0 <= i < s.len(),
    ensures
        count_true(s.update(i, v)) == count_true(s) + (if v && !s[i] {
            1int
        } else if !v && s[i] {
            -1int
        } else {
            0int
        }),
    decreases s.len(),
{
    let t = s.update(i, v);
    if i == s.len() - 1 {
        assert(t.drop_last() =~= s.drop_last());
    } else {
        assert(t.drop_last() =~= s.drop_last().update(i, v));
        lemma_count_true_update(s.drop_last(), i, v);
    }
}

/// A sequence whose entries are all `true` counts to its length.
pub proof fn lemma_count_true_all(s: Seq<bool>)
    requires
        forall|i: int| 0 <= i < s.len() ==> s[i],
    ensures
        count_true(s) == s.len(),
    decreases s.len(),
{
    if s.len() > 0 {
        lemma_count_true_all(s.drop_last());
    }
}

/// A sequence without `true` entries counts to zero.
pub proof fn lemma_count_true_none(s: Seq<bool>)
    requires
        forall|i: int| 0 <= i < s.len() ==> !s[i],
    ensures
        count_true(s) == 0,
    decreases s.len(),
{
    if s.len() > 0 {
        lemma_count_true_none(s.drop_last());
    }
}

/// Two disjoint subsets of the same index range together hold at most
/// as many entries as the range.
pub proof fn lemma_count_disjoint_le(s: Seq<bool>, t: Seq<bool>)
    requires
        s.len() == t.len(),
        forall|i: int| 0 <= i < s.len() ==> !(#[trigger] s[i] && t[i]),
    ensures
        count_true(s) + count_true(t) <= s.len(),
    decreases s.len(),
{
    if s.len() > 0 {
        lemma_count_disjoint_le(s.drop_last(), t.drop_last());
    }
}

/// Two disjoint subsets that both miss the index `j` together hold
/// strictly fewer entries than the range.
pub proof fn lemma_count_disjoint_lt(s: Seq<bool>, t: Seq<bool>, j: int)
    requires
        s.len() == t.len(),
        forall|i: int| 0 <= i < s.len() ==> !(#[trigger] s[i] && t[i]),
        0 <= j < s.len(),
        !s[j],
        !t[j],
    ensures
        count_true(s) + count_true(t) <= s.len() - 1,
    decreases s.len(),
{
    if j == s.len() - 1 {
        lemma_count_disjoint_le(s.drop_last(), t.drop_last());
    } else {
        lemma_count_disjoint_lt(s.drop_last(), t.drop_last(), j);
    }
}

/// Two disjoint subsets whose sizes add up to the whole range cover
/// every index between them.
pub proof fn lemma_count_disjoint_full(s: Seq<bool>, t: Seq<bool>)
    requires
        s.len() == t.len(),
        forall|i: int| 0 <= i < s.len() ==> !(#[trigger] s[i] && t[i]),
        count_true(s) + count_true(t) == s.len(),
    ensures
        forall|i: int| 0 <= i < s.len() ==> s[i] || t[i],
    decreases s.len(),
{
    if s.len() > 0 {
        lemma_count_disjoint_le(s.drop_last(), t.drop_last());
        lemma_count_disjoint_full(s.drop_last(), t.drop_last());
        assert(forall|i: int| #![trigger s[i]]
            0 <= i < s.len() - 1 ==> s[i] == s.drop_last()[i] && t[i] == t.drop_last()[i]);
    }
}

} // verus!
