//! Spans of parse pairs: where the pairs of a parse lie in its input.
use vstd::prelude::*;

use crate::grammar::Pair;

verus! {

/// Every pair lies within `lo..hi`.
pub open spec fn all_in(t: Seq<Pair>, lo: int, hi: int) -> bool {
    forall|k: int| 0 <= k < t.len() ==> lo <= (#[trigger] t[k]).start <= t[k].end <= hi
}

pub broadcast proof fn lemma_all_in_add(t: Seq<Pair>, u: Seq<Pair>, lo: int, hi: int)
    requires
        all_in(t, lo, hi),
        all_in(u, lo, hi),
    ensures
        #[trigger] all_in(t + u, lo, hi),
{
    assert forall|k: int| 0 <= k < (t + u).len() implies lo <= (#[trigger] (t + u)[k]).start <= (t + u)[k].end <= hi by {
        if k < t.len() {
            assert((t + u)[k] == t[k]);
        } else {
            assert((t + u)[k] == u[k - t.len()]);
        }
    }
}

pub broadcast proof fn lemma_all_in_widen(t: Seq<Pair>, lo: int, hi: int, lo2: int, hi2: int)
    requires
        all_in(t, lo, hi),
        lo2 <= lo,
        hi <= hi2,
    ensures
        #![trigger all_in(t, lo, hi), all_in(t, lo2, hi2)]
        all_in(t, lo2, hi2),
{
}

pub broadcast group group_spans {
    lemma_all_in_add,
    lemma_all_in_widen,
}

} // verus!
