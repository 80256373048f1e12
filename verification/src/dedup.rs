//! The mathematical model of corner deduplication: the sequence of
//! distinct corners in first-seen order, and the slot (output vertex
//! index) each corner of the stream maps to.

use crate::model::CornerIndex;
use vstd::prelude::*;

verus! {

/// The distinct corners of `s` in order of first appearance.
pub open spec fn dedup(s: Seq<CornerIndex>) -> Seq<CornerIndex>
    decreases s.len(),
{
    if s.len() == 0 {
        Seq::empty()
    } else {
        let d = dedup(s.drop_last());
        if d.contains(s.last()) {
            d
        } else {
            d.push(s.last())
        }
    }
}

/// Index of the first occurrence of `c` in `d`, or `-1` when absent.
pub open spec fn first_index(d: Seq<CornerIndex>, c: CornerIndex) -> int
    decreases d.len(),
{
    if d.len() == 0 {
        -1
    } else if d.drop_last().contains(c) {
        first_index(d.drop_last(), c)
    } else if d.last() == c {
        d.len() - 1
    } else {
        -1
    }
}

/// The output slot of the `i`-th corner of the stream `s`: its position
/// among the distinct corners in first-seen order.
pub open spec fn slot_of(s: Seq<CornerIndex>, i: int) -> int {
    first_index(dedup(s), s[i])
}

/// `first_index` finds exactly the members of `d`, and returns a valid
/// index of an equal element.
pub proof fn lemma_first_index_spec(d: Seq<CornerIndex>, c: CornerIndex)
    ensures
        d.contains(c) <==> 0 <= first_index(d, c) < d.len(),
        d.contains(c) ==> d[first_index(d, c)] == c,
    decreases d.len(),
{
    if d.len() > 0 {
        lemma_first_index_spec(d.drop_last(), c);
        if d.contains(c) && !d.drop_last().contains(c) {
            let i = choose|i: int| 0 <= i < d.len() && d[i] == c;
            if i < d.len() - 1 {
                assert(d.drop_last()[i] == c);
                assert(d.drop_last().contains(c));
            }
            assert(d.last() == c);
        }
        if d.drop_last().contains(c) {
            assert(d[first_index(d, c)] == d.drop_last()[first_index(d, c)]);
            assert(d.contains(c)) by {
                assert(d[first_index(d, c)] == c);
            }
        }
    }
}

/// Appending an element moves no earlier first occurrence, and places a
/// fresh element at the end.
pub proof fn lemma_first_index_push(d: Seq<CornerIndex>, x: CornerIndex, c: CornerIndex)
    ensures
        first_index(d.push(x), c) == if d.contains(c) {
            first_index(d, c)
        } else if c == x {
            d.len() as int
        } else {
            -1
        },
{
    assert(d.push(x).drop_last() =~= d);
    assert(d.push(x).last() == x);
}

/// Membership in the deduplicated sequence is membership in the stream.
pub proof fn lemma_dedup_contains(s: Seq<CornerIndex>, c: CornerIndex)
    ensures
        dedup(s).contains(c) == s.contains(c),
    decreases s.len(),
{
    if s.len() > 0 {
        lemma_dedup_contains(s.drop_last(), c);
        let d = dedup(s.drop_last());
        if s.contains(c) {
            let i = choose|i: int| 0 <= i < s.len() && s[i] == c;
            if i < s.len() - 1 {
                assert(s.drop_last()[i] == c);
                assert(s.drop_last().contains(c));
            }
            if s.drop_last().contains(c) {
                if !d.contains(s.last()) {
                    assert(dedup(s) == d.push(s.last()));
                    assert(d.contains(c));
                    let j = choose|j: int| 0 <= j < d.len() && d[j] == c;
                    assert(dedup(s)[j] == c);
                }
            } else {
                assert(s.last() == c);
                if d.contains(s.last()) {
                } else {
                    assert(dedup(s).last() == c);
                }
            }
        }
        if dedup(s).contains(c) {
            let j = choose|j: int| 0 <= j < dedup(s).len() && dedup(s)[j] == c;
            if d.contains(s.last()) {
                assert(d.contains(c));
            } else {
                if j < d.len() {
                    assert(d[j] == c);
                    assert(d.contains(c));
                } else {
                    assert(c == s.last());
                }
            }
            if s.drop_last().contains(c) {
                let i = choose|i: int| 0 <= i < s.drop_last().len() && s.drop_last()[i] == c;
                assert(s[i] == c);
            }
            if c == s.last() {
                assert(s[s.len() - 1] == c);
            }
        }
    }
}

/// The deduplicated sequence repeats nothing.
pub proof fn lemma_dedup_distinct(s: Seq<CornerIndex>)
    ensures
        forall|i: int, j: int| 0 <= i < j < dedup(s).len() ==> dedup(s)[i] != dedup(s)[j],
    decreases s.len(),
{
    if s.len() > 0 {
        lemma_dedup_distinct(s.drop_last());
        let d = dedup(s.drop_last());
        if !d.contains(s.last()) {
            assert forall|i: int, j: int| 0 <= i < j < dedup(s).len() implies dedup(s)[i]
                != dedup(s)[j] by {
                if j < d.len() {
                } else {
                    assert(dedup(s)[j] == s.last());
                    assert(dedup(s)[i] == d[i]);
                    if d[i] == s.last() {
                        assert(d.contains(s.last()));
                    }
                }
            }
        }
    }
}

/// There are never more distinct corners than corners.
pub proof fn lemma_dedup_len(s: Seq<CornerIndex>)
    ensures
        dedup(s).len() <= s.len(),
    decreases s.len(),
{
    if s.len() > 0 {
        lemma_dedup_len(s.drop_last());
    }
}

/// A stream without repeats deduplicates to itself: every corner gets its
/// own output vertex.
pub proof fn lemma_dedup_all_distinct(s: Seq<CornerIndex>)
    requires
        forall|i: int, j: int| 0 <= i < j < s.len() ==> s[i] != s[j],
    ensures
        dedup(s) =~= s,
    decreases s.len(),
{
    if s.len() > 0 {
        lemma_dedup_all_distinct(s.drop_last());
        let d = dedup(s.drop_last());
        if d.contains(s.last()) {
            let i = choose|i: int| 0 <= i < d.len() && d[i] == s.last();
            assert(s[i] == s.last());
            assert(false);
        }
    }
}

/// A repeated corner anywhere in the stream makes the distinct count
/// strictly smaller than the corner count: deduplication is effective.
pub proof fn lemma_dedup_repeat(s: Seq<CornerIndex>, i: int, j: int)
    requires
        0 <= i < j < s.len(),
        s[i] == s[j],
    ensures
        dedup(s).len() < s.len(),
    decreases s.len(),
{
    lemma_dedup_len(s.drop_last());
    if j == s.len() - 1 {
        assert(s.drop_last()[i] == s[i]);
        assert(s.drop_last().contains(s.last()));
        lemma_dedup_contains(s.drop_last(), s.last());
    } else {
        assert(s.drop_last()[i] == s[i] && s.drop_last()[j] == s[j]);
        lemma_dedup_repeat(s.drop_last(), i, j);
    }
}

} // verus!
