//! Counting and enumerating the inliers of a model.
//!
//! `inlier_count` and `inlier_positions` are the mathematical meaning of a
//! model's support over a sequence of observations; the executable
//! functions below compute them exactly, and the lemmas state the facts the
//! engine leans on: a count never exceeds the length counted over, growing
//! the prefix can only grow the count, and the enumerated positions are
//! strictly increasing, in range, and complete.

use vstd::prelude::*;

use crate::traits::Model;

verus! {

/// How many observations of `s` lie within the threshold of `m`.
pub open spec fn inlier_count<Data, M: Model<Data>>(m: M, s: Seq<Data>) -> nat
    decreases s.len(),
{
    if s.len() == 0 {
        0
    } else {
        inlier_count(m, s.drop_last()) + if m.inlier_spec(&s.last()) {
            1nat
        } else {
            0nat
        }
    }
}

/// The positions, in increasing order, of the observations of `s` that lie
/// within the threshold of `m`.
pub open spec fn inlier_positions<Data, M: Model<Data>>(m: M, s: Seq<Data>) -> Seq<usize>
    decreases s.len(),
{
    if s.len() == 0 {
        Seq::empty()
    } else {
        let rest = inlier_positions(m, s.drop_last());
        if m.inlier_spec(&s.last()) {
            rest.push((s.len() - 1) as usize)
        } else {
            rest
        }
    }
}

/// A count of inliers never exceeds the number of observations counted.
pub proof fn lemma_inlier_count_le_len<Data, M: Model<Data>>(m: M, s: Seq<Data>)
    ensures
        inlier_count(m, s) <= s.len(),
    decreases s.len(),
{
    if s.len() > 0 {
        lemma_inlier_count_le_len(m, s.drop_last());
    }
}

/// Extending a prefix by one observation raises its inlier count by one
/// exactly when that observation is an inlier.
pub proof fn lemma_inlier_count_step<Data, M: Model<Data>>(m: M, s: Seq<Data>, i: int)
    requires
        0 <= i < s.len(),
    ensures
        inlier_count(m, s.take(i + 1)) == inlier_count(m, s.take(i)) + if m.inlier_spec(
            &s[i],
        ) {
            1nat
        } else {
            0nat
        },
{
    assert(s.take(i + 1).drop_last() =~= s.take(i));
    assert(s.take(i + 1).last() == s[i]);
}

/// Extending the prefix counted over can only grow the count: the whole
/// sequence supports a model at least as well as any prefix of it.
pub proof fn lemma_inlier_count_prefix<Data, M: Model<Data>>(m: M, s: Seq<Data>, k: int)
    requires
        0 <= k <= s.len(),
    ensures
        inlier_count(m, s.take(k)) <= inlier_count(m, s),
    decreases s.len() - k,
{
    if k == s.len() {
        assert(s.take(k) =~= s);
    } else {
        lemma_inlier_count_step(m, s, k);
        lemma_inlier_count_prefix(m, s, k + 1);
    }
}

/// Extending a prefix by one observation appends that observation's
/// position to the enumeration exactly when it is an inlier.
pub proof fn lemma_inlier_positions_step<Data, M: Model<Data>>(m: M, s: Seq<Data>, i: int)
    requires
        0 <= i < s.len(),
    ensures
        inlier_positions(m, s.take(i + 1)) == if m.inlier_spec(&s[i]) {
            inlier_positions(m, s.take(i)).push(i as usize)
        } else {
            inlier_positions(m, s.take(i))
        },
{
    assert(s.take(i + 1).drop_last() =~= s.take(i));
    assert(s.take(i + 1).last() == s[i]);
}

/// The enumerated positions are sound and complete: there are as many as
/// the count says, each is in range and names an inlier, they are strictly
/// increasing, and every inlier's position is among them.
pub proof fn lemma_inlier_positions_sound<Data, M: Model<Data>>(m: M, s: Seq<Data>)
    requires
        s.len() <= usize::MAX,
    ensures
        inlier_positions(m, s).len() == inlier_count(m, s),
        forall|i: int| #![trigger inlier_positions(m, s)[i]]
            0 <= i < inlier_positions(m, s).len() ==> inlier_positions(m, s)[i] < s.len()
                && m.inlier_spec(&s[inlier_positions(m, s)[i] as int]),
        forall|i: int, j: int|
            #![trigger inlier_positions(m, s)[i], inlier_positions(m, s)[j]]
            0 <= i < j < inlier_positions(m, s).len() ==> inlier_positions(m, s)[i]
                < inlier_positions(m, s)[j],
        forall|k: int| #![trigger s[k]]
            0 <= k < s.len() && m.inlier_spec(&s[k]) ==> inlier_positions(m, s).contains(
                k as usize,
            ),
    decreases s.len(),
{
    if s.len() > 0 {
        let pre = s.drop_last();
        lemma_inlier_positions_sound(m, pre);
        let rest = inlier_positions(m, pre);
        let pos = inlier_positions(m, s);
        assert(forall|k: int| 0 <= k < pre.len() ==> #[trigger] pre[k] == s[k]);
        assert(rest.len() == inlier_count(m, pre));
        if m.inlier_spec(&s.last()) {
            assert(pos == rest.push((s.len() - 1) as usize));
            assert(pos.len() == rest.len() + 1);
            assert(pos[pos.len() - 1] == (s.len() - 1) as usize);
        } else {
            assert(pos == rest);
        }
        assert(forall|i: int| 0 <= i < rest.len() ==> #[trigger] pos[i] == rest[i]);
        assert forall|i: int| 0 <= i < pos.len() implies #[trigger] pos[i] < s.len()
            && m.inlier_spec(&s[pos[i] as int]) by {
            if i < rest.len() {
                assert(rest[i] < pre.len());
                assert(m.inlier_spec(&pre[rest[i] as int]));
                assert(pre[rest[i] as int] == s[rest[i] as int]);
            } else {
                assert(pos[i] == (s.len() - 1) as usize);
                assert(s.last() == s[s.len() - 1]);
            }
        }
        assert forall|i: int, j: int| 0 <= i < j < pos.len() implies #[trigger] pos[i]
            < #[trigger] pos[j] by {
            if j < rest.len() {
                assert(rest[i] < rest[j]);
            } else {
                assert(pos[i] == rest[i]);
                assert(rest[i] < pre.len());
                assert(pos[j] == (s.len() - 1) as usize);
            }
        }
        assert forall|k: int| 0 <= k < s.len() && m.inlier_spec(&#[trigger] s[k]) implies pos
            .contains(k as usize) by {
            if k < s.len() - 1 {
                assert(pre[k] == s[k]);
                assert(m.inlier_spec(&pre[k]));
                assert(rest.contains(k as usize));
                let i = choose|i: int| 0 <= i < rest.len() && rest[i] == (k as usize);
                assert(pos[i] == (k as usize));
                assert(pos.contains(k as usize));
            } else {
                assert(s.last() == s[s.len() - 1]);
                assert(pos[pos.len() - 1] == (k as usize));
                assert(pos.contains(k as usize));
            }
        }
    }
}

/// Counts the observations among the first `prefix` of `data` whose
/// residual the model accepts.
pub fn count_inliers<Data, M: Model<Data>>(model: &M, data: &[Data], prefix: usize) -> (r: usize)
    requires
        prefix <= data@.len(),
    ensures
        r == inlier_count(*model, data@.take(prefix as int)),
{
    let mut count: usize = 0;
    let mut i: usize = 0;
    proof {
        assert(data@.take(0) =~= Seq::<Data>::empty());
    }
    while i < prefix
        invariant
            i <= prefix,
            prefix <= data@.len(),
            count == inlier_count(*model, data@.take(i as int)),
            count <= i,
        decreases prefix - i,
    {
        let inl = model.is_inlier(&data[i]);
        proof {
            lemma_inlier_count_step(*model, data@, i as int);
        }
        if inl {
            count = count + 1;
        }
        i = i + 1;
    }
    count
}

/// Enumerates, in increasing order, the positions of the observations of
/// `data` whose residual the model accepts.
pub fn inliers<Data, M: Model<Data>>(model: &M, data: &[Data]) -> (r: Vec<usize>)
    ensures
        r@ == inlier_positions(*model, data@),
        r@.len() == inlier_count(*model, data@),
{
    let mut out: Vec<usize> = Vec::new();
    let mut i: usize = 0;
    proof {
        assert(data@.take(0) =~= Seq::<Data>::empty());
    }
    while i < data.len()
        invariant
            i <= data@.len(),
            out@ == inlier_positions(*model, data@.take(i as int)),
        decreases data@.len() - i,
    {
        let inl = model.is_inlier(&data[i]);
        proof {
            lemma_inlier_positions_step(*model, data@, i as int);
        }
        if inl {
            out.push(i);
        }
        i = i + 1;
    }
    proof {
        assert(data@.take(data@.len() as int) =~= data@);
        lemma_inlier_positions_sound(*model, data@);
    }
    out
}

} // verus!
