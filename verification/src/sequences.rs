//! Facts about filtered sequences.

use vstd::prelude::*;

verus! {

/// What a filter keeps comes from the sequence.
pub(crate) proof fn lemma_filter_source<A>(s: Seq<A>, keep: spec_fn(A) -> bool, i: int) -> (source:
    int)
    requires
        0 <= i < s.filter(keep).len(),
    ensures
        0 <= source < s.len(),
        s[source] == s.filter(keep)[i],
        keep(s[source]),
    decreases s.len(),
{
    reveal(Seq::filter);
    if s.len() == 0 {
        0
    } else if keep(s.last()) && i == s.drop_last().filter(keep).len() {
        s.len() - 1
    } else {
        lemma_filter_source(s.drop_last(), keep, i)
    }
}

/// A filter keeps the order.
pub(crate) proof fn lemma_filter_order<A>(
    s: Seq<A>,
    keep: spec_fn(A) -> bool,
    i: int,
    j: int,
) -> (sources: (int, int))
    requires
        0 <= i < j < s.filter(keep).len(),
    ensures
        0 <= sources.0 < sources.1 < s.len(),
        s[sources.0] == s.filter(keep)[i],
        s[sources.1] == s.filter(keep)[j],
    decreases s.len(),
{
    reveal(Seq::filter);
    if s.len() == 0 {
        (0, 0)
    } else if keep(s.last()) && j == s.drop_last().filter(keep).len() {
        (lemma_filter_source(s.drop_last(), keep, i), s.len() - 1)
    } else {
        lemma_filter_order(s.drop_last(), keep, i, j)
    }
}

/// A filter keeps everything that it should, once for each time it occurs.
pub(crate) proof fn lemma_filter_keeps<A>(s: Seq<A>, keep: spec_fn(A) -> bool, i: int) -> (target:
    int)
    requires
        0 <= i < s.len(),
        keep(s[i]),
    ensures
        0 <= target < s.filter(keep).len(),
        s.filter(keep)[target] == s[i],
    decreases s.len(),
{
    reveal(Seq::filter);
    if i == s.len() - 1 {
        s.filter(keep).len() - 1
    } else {
        lemma_filter_keeps(s.drop_last(), keep, i)
    }
}

} // verus!
