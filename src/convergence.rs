use crate::point::Cluster;
use vstd::prelude::*;

verus! {

/// Most assign/update rounds that one `fit` runs.
pub const MAX_ITERATIONS: usize = 10;

/// Fixed-point unit of the convergence feature: a weight ratio of one.
pub const FEATURE_ONE: u128 = 4294967296;

/// How much a cluster's weight changed, as `FEATURE_ONE * size / previous size`.
/// A cluster that held no point before counts as if it had held one.
pub open spec fn weight_ratio(size: nat, previous: nat) -> nat {
    if previous == 0 {
        size * (FEATURE_ONE as nat)
    } else {
        size * (FEATURE_ONE as nat) / previous
    }
}

/// The convergence feature: the sum of the weight ratios of all clusters.
pub open spec fn feature_of<T>(clusters: Seq<Cluster<T>>, previous: Seq<usize>) -> nat
    decreases clusters.len(),
{
    if clusters.len() == 0 {
        0
    } else {
        feature_of(clusters.drop_last(), previous) + weight_ratio(
            clusters.last().size as nat,
            previous[clusters.len() - 1] as nat,
        )
    }
}

proof fn lemma_weight_ratio_bound(size: nat, previous: nat)
    requires
        size <= u64::MAX,
    ensures
        weight_ratio(size, previous) <= 0x1_0000_0000_0000_0000_0000_0000,
{
    let one = FEATURE_ONE as nat;
    assert(size * one <= 0x1_0000_0000_0000_0000_0000_0000) by (nonlinear_arith)
        requires size <= u64::MAX, one == 4294967296;
    if previous > 0 {
        assert(size * one / previous <= size * one) by (nonlinear_arith)
            requires previous > 0;
    }
}

/// Computes the convergence feature of `clusters` against the sizes of the previous round.
pub fn convergence_feature<T>(clusters: &Vec<Cluster<T>>, previous: &Vec<usize>) -> (r: u128)
    requires
        clusters.len() == previous.len(),
        clusters.len() <= 255,
    ensures
        r as nat == feature_of(clusters@, previous@),
        r <= 255 * 0x1_0000_0000_0000_0000_0000_0000,
{
    let mut acc: u128 = 0;
    let mut i: usize = 0;
    while i < clusters.len()
        invariant
            i <= clusters.len(),
            clusters.len() == previous.len(),
            clusters.len() <= 255,
            acc as nat == feature_of(clusters@.take(i as int), previous@),
            acc <= i * 0x1_0000_0000_0000_0000_0000_0000,
        decreases clusters.len() - i,
    {
        proof {
            assert(clusters@.take(i as int + 1).drop_last() =~= clusters@.take(i as int));
            lemma_weight_ratio_bound(clusters[i as int].size as nat, previous[i as int] as nat);
        }
        let size = clusters[i].size as u128;
        let ratio: u128 = if previous[i] == 0 {
            size * FEATURE_ONE
        } else {
            size * FEATURE_ONE / (previous[i] as u128)
        };
        acc = acc + ratio;
        i = i + 1;
    }
    proof {
        assert(clusters@.take(i as int) =~= clusters@);
    }
    acc
}

/// The stopping rule: the feature fell below a tenth of its previous value.
pub fn feature_dropped(feature: u128, previous_feature: u128) -> (r: bool)
    requires
        feature <= 255 * 0x1_0000_0000_0000_0000_0000_0000,
    ensures
        r == (10 * feature < previous_feature),
{
    10 * feature < previous_feature
}

} // verus!
