//! Turning the same keypoint seen from several cameras into one 3D point.
//!
//! With three or more observations, subsets are tried and the observations that
//! disagree are dropped: a joint hidden from one camera produces a confident
//! keypoint in the wrong place, and one such ray is enough to pull a point
//! metres away.

use vstd::prelude::*;

use crate::geometry::resection::{
    agreeing, score, what_agrees_is_within_the_threshold, Consensus,
};
use crate::list::increasing;
use crate::order::places;
use crate::scalar::{
    numbers_compare_by_their_bits, the_smaller_and_the_larger_lie_either_side, Scalar,
};

verus! {

/// Two observations that make one hypothesis.
#[derive(Debug, Clone, Copy, PartialEq, Eq, Structural)]
pub struct Pair {
    pub first: usize,
    pub second: usize,
}

/// The pairs that start with observation `i`, from `j` on.
pub open spec fn pairs_from(n: int, i: int, j: int) -> Seq<(int, int)>
    decreases n - j,
{
    if j >= n {
        Seq::empty()
    } else {
        seq![(i, j)] + pairs_from(n, i, j + 1)
    }
}

/// Every pair of observations from `i` on, in order.
pub open spec fn pairs_after(n: int, i: int) -> Seq<(int, int)>
    decreases n - i,
{
    if i >= n {
        Seq::empty()
    } else {
        pairs_from(n, i, i + 1) + pairs_after(n, i + 1)
    }
}

/// Pairs as pairs of integers.
pub open spec fn ends(pairs: Seq<Pair>) -> Seq<(int, int)> {
    pairs.map_values(|pair: Pair| (pair.first as int, pair.second as int))
}

/// Every pair is a hypothesis. With at most four cameras this is six solves,
/// which is cheaper than any sampling scheme and never unlucky. With two
/// observations there is only the one, and fewer are not enough.
pub fn hypotheses(observations: usize) -> (pairs: Vec<Pair>)
    ensures
        ends(pairs@) == pairs_after(observations as int, 0),
{
    let mut pairs: Vec<Pair> = Vec::new();
    let ghost whole = pairs_after(observations as int, 0);
    let mut i: usize = 0;
    proof {
        assert(ends(pairs@) + whole =~= whole);
    }
    while i < observations
        invariant
            i <= observations,
            ends(pairs@) + pairs_after(observations as int, i as int) == whole,
        decreases observations - i,
    {
        let ghost rest = pairs_after(observations as int, i + 1);
        let mut j: usize = i + 1;
        proof {
            assert(ends(pairs@) + pairs_from(observations as int, i as int, j as int) + rest
                =~= whole);
        }
        while j < observations
            invariant
                i < j <= observations,
                ends(pairs@) + pairs_from(observations as int, i as int, j as int) + rest == whole,
            decreases observations - j,
        {
            let ghost before = pairs@;
            let ghost more = pairs_from(observations as int, i as int, j + 1);
            pairs.push(Pair { first: i, second: j });
            proof {
                assert(ends(pairs@) =~= ends(before).push((i as int, j as int)));
                assert(ends(pairs@) + more + rest =~= ends(before) + (seq![(i as int, j as int)]
                    + more) + rest);
            }
            j = j + 1;
        }
        proof {
            assert(ends(pairs@) + Seq::<(int, int)>::empty() + rest =~= ends(pairs@) + rest);
        }
        i = i + 1;
    }
    proof {
        assert(ends(pairs@) + Seq::<(int, int)>::empty() =~= ends(pairs@));
    }
    pairs
}

/// Every pair of distinct observations is among the hypotheses.
pub proof fn every_pair_is_tried(n: int, from: int, i: int, j: int)
    requires
        0 <= from <= i < j < n,
    ensures
        pairs_after(n, from).contains((i, j)),
    decreases n - from,
{
    let head = pairs_from(n, from, from + 1);
    let rest = pairs_after(n, from + 1);
    let all = pairs_after(n, from);
    if i == from {
        lemma_pair_from(n, i, i + 1, j);
        let k = choose|k: int| 0 <= k < head.len() && head[k] == (i, j);
        assert(all[k] == (i, j));
    } else {
        every_pair_is_tried(n, from + 1, i, j);
        let k = choose|k: int| 0 <= k < rest.len() && rest[k] == (i, j);
        assert(all[head.len() + k] == (i, j));
    }
}

proof fn lemma_pair_from(n: int, i: int, from: int, j: int)
    requires
        from <= j < n,
    ensures
        pairs_from(n, i, from).contains((i, j)),
    decreases n - from,
{
    let all = pairs_from(n, i, from);
    if j == from {
        assert(all[0] == (i, j));
    } else {
        lemma_pair_from(n, i, from + 1, j);
        let rest = pairs_from(n, i, from + 1);
        let k = choose|k: int| 0 <= k < rest.len() && rest[k] == (i, j);
        assert(all[k + 1] == (i, j));
    }
}

/// The cameras behind a list of observations.
pub fn cameras_of(inliers: &Vec<usize>, observers: &Vec<usize>) -> (cameras: Vec<usize>)
    requires
        forall|i: int| 0 <= i < inliers@.len() ==> #[trigger] inliers@[i] < observers@.len(),
    ensures
        cameras@ == inliers@.map_values(|inlier: usize| observers@[inlier as int]),
{
    let mut cameras: Vec<usize> = Vec::new();
    let ghost image = |inlier: usize| observers@[inlier as int];
    let mut i: usize = 0;
    while i < inliers.len()
        invariant
            i <= inliers.len(),
            image == (|inlier: usize| observers@[inlier as int]),
            forall|k: int| 0 <= k < inliers@.len() ==> #[trigger] inliers@[k] < observers@.len(),
            cameras@ == inliers@.take(i as int).map_values(image),
        decreases inliers.len() - i,
    {
        cameras.push(observers[inliers[i]]);
        proof {
            crate::list::lemma_map_step(inliers@, image, i as int);
        }
        i = i + 1;
    }
    proof {
        assert(inliers@.take(i as int) =~= inliers@);
    }
    cameras
}

/// The largest of the first `n` residuals, and zero where there is none.
pub open spec fn largest(residuals: Seq<Scalar>, n: nat) -> Scalar
    decreases n,
{
    if n == 0 {
        Scalar { bits: 0 }
    } else {
        largest(residuals, (n - 1) as nat).larger(residuals[n - 1])
    }
}

/// Largest angular residual among the inliers, in radians.
pub fn worst_residual(residuals: &Vec<Scalar>) -> (worst: Scalar)
    ensures
        worst == largest(residuals@, residuals@.len()),
{
    let mut worst: Scalar = Scalar::from_bits(0);
    let mut i: usize = 0;
    while i < residuals.len()
        invariant
            i <= residuals.len(),
            worst == largest(residuals@, i as nat),
        decreases residuals.len() - i,
    {
        worst = worst.max(residuals[i]);
        i = i + 1;
    }
    worst
}

/// A pair of rays and how the point where they meet fares with all of them.
#[derive(Debug, Clone)]
pub struct Hypothesis {
    /// How far each ray passes from the point, where that can be said.
    pub residuals: Vec<Option<Scalar>>,
    /// Total error over the rays that agree.
    pub error: Scalar,
}

/// The rays that agree with the best hypothesis among the first `n`, their total
/// error, and which hypothesis that is.
pub open spec fn agreed(
    hypotheses: Seq<Option<Hypothesis>>,
    threshold: Scalar,
    n: nat,
) -> Option<(Seq<int>, Scalar, int)>
    decreases n,
{
    if n == 0 {
        None
    } else {
        let before = agreed(hypotheses, threshold, (n - 1) as nat);
        match hypotheses[n - 1] {
            Some(hypothesis) => {
                let inliers = agreeing(
                    hypothesis.residuals@,
                    threshold,
                    hypothesis.residuals@.len(),
                );
                let better = match before {
                    Some(best) => inliers.len() > best.0.len() || (inliers.len() == best.0.len()
                        && hypothesis.error.less(best.1)),
                    None => true,
                };
                if inliers.len() >= 2 && better {
                    Some((inliers, hypothesis.error, n - 1))
                } else {
                    before
                }
            },
            None => before,
        }
    }
}

/// Which rays a point is solved from, and the hypothesis they agree with. Two have nobody to outvote either of them,
/// so both are used wherever they meet; of more, those that agree with the best
/// pair.
pub open spec fn chosen(
    observations: int,
    hypotheses: Seq<Option<Hypothesis>>,
    threshold: Scalar,
) -> Option<(Seq<int>, int)> {
    if observations < 2 {
        None
    } else if observations == 2 {
        if hypotheses[0] is Some {
            Some((seq![0, 1], 0))
        } else {
            None
        }
    } else {
        match agreed(hypotheses, threshold, hypotheses.len()) {
            Some(best) => Some((best.0, best.2)),
            None => None,
        }
    }
}

/// What a point is solved from.
#[derive(Debug, Clone)]
pub struct Chosen {
    /// The rays, by their place among the observations.
    pub inliers: Vec<usize>,
    /// The hypothesis they agree with, whose point stands if the rays together
    /// cannot be solved.
    pub hypothesis: usize,
}

/// Which rays to solve from, given a hypothesis for every pair of them. A pair
/// that could not be solved has no hypothesis.
pub fn triangulate(
    observations: usize,
    hypotheses: &Vec<Option<Hypothesis>>,
    threshold: Scalar,
) -> (choice: Option<Chosen>)
    requires
        hypotheses@.len() == pairs_after(observations as int, 0).len(),
    ensures
        match (choice, chosen(observations as int, hypotheses@, threshold)) {
            (Some(choice), Some(best)) => {
                &&& places(choice.inliers@) == best.0
                &&& choice.inliers@.len() >= 2
                &&& choice.hypothesis == best.1
                &&& hypotheses@[best.1] is Some
            },
            (None, None) => true,
            _ => false,
        },
{
    if observations < 2 {
        return None;
    }
    if observations == 2 {
        proof {
            reveal_with_fuel(pairs_after, 3);
            reveal_with_fuel(pairs_from, 3);
        }
        if hypotheses[0].is_none() {
            return None;
        }
        let both: Vec<usize> = vec![0, 1];
        assert(places(both@) =~= seq![0, 1]);
        return Some(Chosen { inliers: both, hypothesis: 0 });
    }
    let mut consensus = Consensus::new();
    let mut best: usize = 0;
    let mut i: usize = 0;
    while i < hypotheses.len()
        invariant
            i <= hypotheses.len(),
            match (consensus.best, agreed(hypotheses@, threshold, i as nat)) {
                (Some(found), Some(leading)) => {
                    &&& places(found.inliers@) == leading.0
                    &&& found.error == leading.1
                    &&& found.inliers@.len() >= 2
                    &&& best == leading.2
                    &&& best < i
                    &&& hypotheses@[best as int] is Some
                },
                (None, None) => true,
                _ => false,
            },
        decreases hypotheses.len() - i,
    {
        if let Some(hypothesis) = &hypotheses[i] {
            let inliers = score(&hypothesis.residuals, threshold);
            proof {
                assert(places(inliers@).len() == inliers@.len());
                if consensus.best is Some {
                    let leading = consensus.best->0.inliers@;
                    assert(places(leading).len() == leading.len());
                }
            }
            if consensus.offer(inliers, hypothesis.error, 2) {
                best = i;
            }
        }
        i = i + 1;
    }
    match consensus.best {
        Some(agreement) => Some(Chosen { inliers: agreement.inliers, hypothesis: best }),
        None => None,
    }
}

/// Of three rays and more, those solved from are at least two, and no pair is
/// agreed with by more.
pub proof fn no_pair_is_agreed_with_by_more(
    hypotheses: Seq<Option<Hypothesis>>,
    threshold: Scalar,
    n: nat,
    i: int,
)
    requires
        0 <= i < n <= hypotheses.len(),
        hypotheses[i] is Some,
        agreeing(
            hypotheses[i]->0.residuals@,
            threshold,
            hypotheses[i]->0.residuals@.len(),
        ).len() >= 2,
    ensures
        agreed(hypotheses, threshold, n) is Some,
        (agreed(hypotheses, threshold, n)->0).0.len() >= agreeing(
            hypotheses[i]->0.residuals@,
            threshold,
            hypotheses[i]->0.residuals@.len(),
        ).len(),
    decreases n,
{
    if i < n - 1 {
        no_pair_is_agreed_with_by_more(hypotheses, threshold, (n - 1) as nat, i);
    }
}

/// Every pair that is tried is of two different rays, the earlier first, and no pair
/// is tried twice: the pairs come in order.
pub proof fn the_pairs_are_in_order(n: int, i: int)
    requires
        0 <= i,
    ensures
        forall|k: int|
            0 <= k < pairs_after(n, i).len() ==> i <= (#[trigger] pairs_after(n, i)[k]).0
                < pairs_after(n, i)[k].1 < n,
        forall|k: int, l: int|
            0 <= k < l < pairs_after(n, i).len() ==> ({
                let (a, b) = (#[trigger] pairs_after(n, i)[k], #[trigger] pairs_after(n, i)[l]);
                a.0 < b.0 || (a.0 == b.0 && a.1 < b.1)
            }),
    decreases n - i,
{
    if i < n {
        the_pairs_are_in_order(n, i + 1);
        lemma_pairs_from_in_order(n, i, i + 1);
        let (own, rest) = (pairs_from(n, i, i + 1), pairs_after(n, i + 1));
        let all = pairs_after(n, i);
        assert(all == own + rest);
        assert forall|k: int| 0 <= k < all.len() implies #[trigger] all[k] == if k < own.len() {
            own[k]
        } else {
            rest[k - own.len()]
        } by {}
        assert forall|k: int| 0 <= k < all.len() implies i <= (#[trigger] all[k]).0 < all[k].1
            < n by {
            if k >= own.len() {
                assert(rest[k - own.len()].0 >= i + 1);
            }
        }
        assert forall|k: int, l: int| 0 <= k < l < all.len() implies ({
            let (a, b) = (#[trigger] all[k], #[trigger] all[l]);
            a.0 < b.0 || (a.0 == b.0 && a.1 < b.1)
        }) by {
            if l < own.len() {
                assert(own[k].1 < own[l].1);
            } else if k < own.len() {
                assert(rest[l - own.len()].0 >= i + 1);
            } else {
                let (a, b) = (rest[k - own.len()], rest[l - own.len()]);
                assert(a.0 < b.0 || (a.0 == b.0 && a.1 < b.1));
            }
        }
    }
}

proof fn lemma_pairs_from_in_order(n: int, i: int, j: int)
    requires
        i < j,
    ensures
        forall|k: int|
            0 <= k < pairs_from(n, i, j).len() ==> (#[trigger] pairs_from(n, i, j)[k]).0 == i && j
                <= pairs_from(n, i, j)[k].1 < n,
        forall|k: int, l: int|
            0 <= k < l < pairs_from(n, i, j).len() ==> (#[trigger] pairs_from(n, i, j)[k]).1 < (
            #[trigger] pairs_from(n, i, j)[l]).1,
    decreases n - j,
{
    if j < n {
        lemma_pairs_from_in_order(n, i, j + 1);
        let (rest, all) = (pairs_from(n, i, j + 1), pairs_from(n, i, j));
        assert(all == seq![(i, j)] + rest);
        assert forall|k: int| 0 <= k < all.len() implies #[trigger] all[k] == if k == 0 {
            (i, j)
        } else {
            rest[k - 1]
        } by {}
        assert forall|k: int, l: int| 0 <= k < l < all.len() implies (#[trigger] all[k]).1 < (
        #[trigger] all[l]).1 by {
            assert(rest[l - 1].1 >= j + 1);
            if k > 0 {
                assert(rest[k - 1].1 < rest[l - 1].1);
            }
        }
    }
}

/// The worst residual is no residual at all, or one of them, and none that is a
/// number is worse.
pub proof fn no_residual_is_worse(residuals: Seq<Scalar>, n: nat)
    requires
        n <= residuals.len(),
    ensures
        !largest(residuals, n).nan(),
        forall|i: int|
            0 <= i < n && !(#[trigger] residuals[i]).nan() ==> residuals[i].at_most(
                largest(residuals, n),
            ),
        largest(residuals, n) == Scalar::of(0) || residuals.contains(largest(residuals, n)),
    decreases n,
{
    if n > 0 {
        no_residual_is_worse(residuals, (n - 1) as nat);
        let before = largest(residuals, (n - 1) as nat);
        the_smaller_and_the_larger_lie_either_side(before, residuals[n - 1]);
        assert(residuals.contains(residuals[n - 1]));
    } else {
        numbers_compare_by_their_bits(Scalar::of(0), Scalar::of(0));
    }
}

/// How many rays agree with a hypothesis.
pub open spec fn agreement(hypothesis: Hypothesis, threshold: Scalar) -> nat {
    agreeing(hypothesis.residuals@, threshold, hypothesis.residuals@.len()).len()
}

/// The hypothesis that is taken is one that was solved and that two rays or more agree
/// with; the rays it is taken with are exactly those within the threshold of it; no
/// other is agreed with by more, and none by as many with a smaller error.
pub proof fn the_hypothesis_most_rays_agree_with_is_taken(
    hypotheses: Seq<Option<Hypothesis>>,
    threshold: Scalar,
    n: nat,
)
    requires
        n <= hypotheses.len(),
    ensures
        match agreed(hypotheses, threshold, n) {
            Some((inliers, error, at)) => {
                &&& 0 <= at < n
                &&& hypotheses[at] is Some
                &&& error == hypotheses[at]->0.error
                &&& inliers.len() >= 2
                &&& inliers.len() == agreement(hypotheses[at]->0, threshold)
                &&& increasing(inliers)
                &&& forall|i: int| #[trigger]
                    inliers.contains(i) <==> 0 <= i < hypotheses[at]->0.residuals@.len()
                        && hypotheses[at]->0.residuals@[i] is Some
                        && hypotheses[at]->0.residuals@[i]->0.at_most(threshold)
                &&& forall|k: int|
                    0 <= k < n && (#[trigger] hypotheses[k]) is Some ==> agreement(
                        hypotheses[k]->0,
                        threshold,
                    ) <= inliers.len() && (agreement(hypotheses[k]->0, threshold) == inliers.len()
                        ==> !hypotheses[k]->0.error.less(error))
            },
            None => forall|k: int|
                0 <= k < n && (#[trigger] hypotheses[k]) is Some ==> agreement(
                    hypotheses[k]->0,
                    threshold,
                ) < 2,
        },
    decreases n,
{
    if n > 0 {
        the_hypothesis_most_rays_agree_with_is_taken(hypotheses, threshold, (n - 1) as nat);
        if let Some(hypothesis) = hypotheses[n - 1] {
            what_agrees_is_within_the_threshold(
                hypothesis.residuals@,
                threshold,
                hypothesis.residuals@.len(),
            );
        }
        if let Some((inliers, error, at)) = agreed(hypotheses, threshold, n) {
            what_agrees_is_within_the_threshold(
                hypotheses[at]->0.residuals@,
                threshold,
                hypotheses[at]->0.residuals@.len(),
            );
        }
    }
}

/// Two rays are taken together if they solve at all; with fewer nothing is; and with
/// more it is the hypothesis most of them agree with.
pub proof fn two_rays_are_taken_together(
    hypotheses: Seq<Option<Hypothesis>>,
    threshold: Scalar,
    observations: int,
)
    ensures
        observations < 2 ==> chosen(observations, hypotheses, threshold) is None,
        observations == 2 ==> (chosen(2, hypotheses, threshold) is Some <==> hypotheses[0] is Some),
        observations == 2 && hypotheses[0] is Some ==> ({
            let (inliers, at) = chosen(2, hypotheses, threshold)->0;
            at == 0 && inliers.len() == 2 && inliers[0] == 0 && inliers[1] == 1
        }),
        observations > 2 ==> ({
            let best = agreed(hypotheses, threshold, hypotheses.len());
            &&& chosen(observations, hypotheses, threshold) is Some <==> best is Some
            &&& best is Some ==> (chosen(observations, hypotheses, threshold)->0).0 == (
            best->0).0 && (chosen(observations, hypotheses, threshold)->0).1 == (best->0).2
        }),
{
}

} // verus!
