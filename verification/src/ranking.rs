//! Ranking order and a verified sort for `(validator, trust_score)` pairs.
//!
//! The ranking is by descending trust score; equal scores are broken by
//! ascending validator identity, a deterministic total order chosen so that
//! every replay of the same state yields the same ranking.

use vstd::prelude::*;

verus! {

use vstd::multiset::group_multiset_axioms;
use vstd::seq_lib::group_to_multiset_ensures;

broadcast use group_to_multiset_ensures, group_multiset_axioms;

/// `a` is ranked at or before `b`: strictly higher score, or an equal score
/// and an identity that is not larger.
pub open spec fn ranked_leq(a: (u64, u64), b: (u64, u64)) -> bool {
    a.1 > b.1 || (a.1 == b.1 && a.0 <= b.0)
}

/// Executable test of the ranking order.
pub fn ranks_leq(a: (u64, u64), b: (u64, u64)) -> (r: bool)
    ensures
        r == ranked_leq(a, b),
{
    a.1 > b.1 || (a.1 == b.1 && a.0 <= b.0)
}

/// Sorts the pairs into ranking order (selection sort), keeping exactly the
/// same multiset of pairs.
pub fn sort_ranked(input: Vec<(u64, u64)>) -> (out: Vec<(u64, u64)>)
    ensures
        out@.len() == input@.len(),
        out@.to_multiset() == input@.to_multiset(),
        forall|i: int, j: int|
            0 <= i < j < out@.len() ==> ranked_leq(#[trigger] out@[i], #[trigger] out@[j]),
{
    let ghost orig = input@;
    let mut rem = input;
    let mut out: Vec<(u64, u64)> = Vec::new();
    while rem.len() > 0
        invariant
            out@.len() + rem@.len() == orig.len(),
            out@.to_multiset().add(rem@.to_multiset()) == orig.to_multiset(),
            forall|i: int, j: int|
                0 <= i < j < out@.len() ==> ranked_leq(#[trigger] out@[i], #[trigger] out@[j]),
            forall|i: int, j: int|
                0 <= i < out@.len() && 0 <= j < rem@.len() ==> ranked_leq(
                    #[trigger] out@[i],
                    #[trigger] rem@[j],
                ),
        decreases rem@.len(),
    {
        let mut m: usize = 0;
        let mut t: usize = 1;
        while t < rem.len()
            invariant
                m < t <= rem@.len(),
                rem@.len() > 0,
                forall|j: int| 0 <= j < t ==> ranked_leq(rem@[m as int], #[trigger] rem@[j]),
            decreases rem@.len() - t,
        {
            if ranks_leq(rem[t], rem[m]) {
                proof {
                    assert forall|j: int| 0 <= j < t + 1 implies ranked_leq(
                        rem@[t as int],
                        #[trigger] rem@[j],
                    ) by {
                        if j < t {
                            assert(ranked_leq(rem@[m as int], rem@[j]));
                        }
                    }
                }
                m = t;
            }
            t = t + 1;
        }
        let x = rem[m];
        let ghost pre_out = out@;
        let ghost pre_rem = rem@;
        out.push(x);
        rem.remove(m);
        proof {
            assert(pre_rem.contains(x));
            assert(pre_rem.to_multiset().count(x) > 0);
            assert(out@.to_multiset().add(rem@.to_multiset()) =~= pre_out.to_multiset().add(
                pre_rem.to_multiset(),
            ));
            assert forall|i: int, j: int|
                0 <= i < out@.len() && 0 <= j < rem@.len() implies ranked_leq(
                #[trigger] out@[i],
                #[trigger] rem@[j],
            ) by {
                let pj = if j < m { j } else { j + 1 };
                assert(rem@[j] == pre_rem[pj]);
                if i < pre_out.len() {
                    assert(ranked_leq(pre_out[i], pre_rem[pj]));
                } else {
                    assert(out@[i] == x);
                    assert(ranked_leq(pre_rem[m as int], pre_rem[pj]));
                }
            }
        }
    }
    out
}

} // verus!
