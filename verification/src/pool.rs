//! The hypothesis pool: ordering by support.
//!
//! A hypothesis is a model paired with its inlier count over the prefix of
//! the data evaluated so far. Between blocks the pool is reordered so that
//! the best-supported hypotheses come first and the tail can be truncated.

use vstd::multiset::group_multiset_axioms;
use vstd::prelude::*;
use vstd::seq_lib::group_to_multiset_ensures;

verus! {

/// The pool is ordered by weakly decreasing support count.
pub open spec fn sorted_desc<M>(s: Seq<(M, usize)>) -> bool {
    forall|i: int, j: int|
        #![trigger s[i], s[j]]
        0 <= i <= j < s.len() ==> s[i].1 >= s[j].1
}

/// Reorders the pool so that hypotheses with more support come first.
///
/// The result is a permutation of the input: the same hypotheses with the
/// same counts, only reordered.
pub fn sort_by_support<M>(hyps: &mut Vec<(M, usize)>)
    ensures
        sorted_desc(final(hyps)@),
        final(hyps)@.to_multiset() == old(hyps)@.to_multiset(),
        final(hyps)@.len() == old(hyps)@.len(),
        forall|x: (M, usize)| final(hyps)@.contains(x) ==> old(hyps)@.contains(x),
{
    broadcast use group_to_multiset_ensures, group_multiset_axioms;

    let ghost orig = hyps@;
    let mut out: Vec<(M, usize)> = Vec::new();
    while hyps.len() > 0
        invariant
            sorted_desc(out@),
            forall|i: int, j: int|
                #![trigger out@[i], hyps@[j]]
                0 <= i < out@.len() && 0 <= j < hyps@.len() ==> out@[i].1 >= hyps@[j].1,
            out@.to_multiset().add(hyps@.to_multiset()) == orig.to_multiset(),
        decreases hyps@.len(),
    {
        let mut best: usize = 0;
        let mut j: usize = 1;
        while j < hyps.len()
            invariant
                best < j || (j == 1 && best == 0),
                j <= hyps@.len(),
                best < hyps@.len(),
                forall|k: int| 0 <= k < j ==> hyps@[best as int].1 >= #[trigger] hyps@[k].1,
            decreases hyps@.len() - j,
        {
            if hyps[j].1 > hyps[best].1 {
                best = j;
            }
            j = j + 1;
        }
        let ghost before = hyps@;
        let ghost out_before = out@;
        let item = hyps.remove(best);
        out.push(item);
        proof {
            before.to_multiset_ensures();
            out_before.to_multiset_ensures();
            assert(before.contains(before[best as int]));
            assert(before.to_multiset().count(item) > 0);
            assert(hyps@ == before.remove(best as int));
            assert(before.remove(best as int).to_multiset() =~= before.to_multiset().remove(
                item,
            ));
            assert(out@ == out_before.push(item));
            assert(out_before.push(item).to_multiset() =~= out_before.to_multiset().insert(
                item,
            ));
            assert forall|y: (M, usize)|
                out@.to_multiset().add(hyps@.to_multiset()).count(y) == orig.to_multiset().count(
                    y,
                ) by {
                assert(out@.to_multiset().count(y) == out_before.to_multiset().count(y) + if y
                    == item {
                    1int
                } else {
                    0int
                });
                assert(hyps@.to_multiset().count(y) == before.to_multiset().count(y) - if y
                    == item {
                    1int
                } else {
                    0int
                });
            }
            assert(out@.to_multiset().add(hyps@.to_multiset()) =~= orig.to_multiset());
        }
    }
    proof {
        hyps@.to_multiset_ensures();
        out@.to_multiset_ensures();
        orig.to_multiset_ensures();
        assert forall|y: (M, usize)|
            out@.to_multiset().count(y) == orig.to_multiset().count(y) by {
            assert(hyps@.to_multiset().len() == 0);
            assert(hyps@.to_multiset().count(y) <= hyps@.to_multiset().len());
            assert(out@.to_multiset().add(hyps@.to_multiset()).count(y) == orig.to_multiset()
                .count(y));
        }
        assert(out@.to_multiset() =~= orig.to_multiset());
    }
    *hyps = out;
    proof {
        hyps@.to_multiset_ensures();
        orig.to_multiset_ensures();
        assert forall|x: (M, usize)| hyps@.contains(x) implies orig.contains(x) by {
            assert(hyps@.to_multiset().count(x) > 0);
            assert(orig.to_multiset().count(x) > 0);
        }
    }
}

} // verus!
