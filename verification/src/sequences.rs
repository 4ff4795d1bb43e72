//! Facts about sequences.

use vstd::prelude::*;

verus! {

/// Filtering one item more adds that item where it passes.
pub proof fn lemma_filter_take_succ<A>(s: Seq<A>, passes: spec_fn(A) -> bool, i: int)
    requires
        0 <= i < s.len(),
    ensures
        s.take(i + 1).filter(passes) == (if passes(s[i]) {
            s.take(i).filter(passes).push(s[i])
        } else {
            s.take(i).filter(passes)
        }),
{
    reveal(Seq::filter);
    assert(s.take(i + 1).drop_last() =~= s.take(i));
    assert(s.take(i + 1).last() == s[i]);
}

} // verus!
