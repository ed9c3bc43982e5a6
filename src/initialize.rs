use crate::kmeans::{nearest_distances, Kmeans};
use crate::point::{nearest_distance, Cluster, DistanceMetric, KmeansPoint};
use rand::rngs::StdRng;
use rand::seq::SliceRandom;
use rand::{Rng, SeedableRng};
use rayon::prelude::{IntoParallelRefIterator, ParallelIterator};
use vstd::prelude::*;

verus! {

#[verifier::external_type_specification]
#[verifier::external_body]
pub struct ExStdRng(StdRng);

/// Relies on `SeedableRng::seed_from_u64` for rand's `StdRng`: a generator fixed by `seed`.
#[verifier::external_body]
fn seeded_rng(seed: u64) -> StdRng {
    StdRng::seed_from_u64(seed)
}

/// Relies on `SliceRandom::choose`: `None` only on an empty slice, else one of its elements.
#[verifier::external_body]
fn choose_point<'a, T>(rng: &mut StdRng, points: &'a Vec<T>) -> (r: Option<&'a T>)
    ensures
        points.len() > 0 ==> r is Some,
        r is Some ==> points@.contains(*r->Some_0),
{
    points.choose(rng)
}

/// Relies on `Rng::gen_range` over `0..bound`, which panics on an empty range: a value
/// below `bound`.
#[verifier::external_body]
fn draw_below(rng: &mut StdRng, bound: u128) -> (r: u128)
    requires
        bound > 0,
    ensures
        r < bound,
{
    rng.gen_range(0..bound)
}

/// Sum of the first `n` weights.
pub open spec fn prefix_sum(weights: Seq<u64>, n: int) -> nat
    decreases n,
{
    if n <= 0 {
        0
    } else {
        prefix_sum(weights, n - 1) + weights[n - 1] as nat
    }
}

/// Relies on rayon's `ParallelIterator::sum` over the weights widened to `u128`, which
/// cannot overflow there: their exact sum.
#[verifier::external_body]
fn par_total(weights: &Vec<u64>) -> (r: u128)
    ensures
        r as nat == prefix_sum(weights@, weights.len() as int),
{
    weights.par_iter().map(|w| *w as u128).sum()
}

proof fn lemma_prefix_sum_bound(weights: Seq<u64>, n: int)
    requires
        0 <= n <= weights.len(),
    ensures
        prefix_sum(weights, n) <= n * u64::MAX,
        forall|k: int| 0 <= k < n ==> weights[k] <= prefix_sum(weights, n),
    decreases n,
{
    if n > 0 {
        lemma_prefix_sum_bound(weights, n - 1);
    }
}

/// The position that the walk over running sums picks for `draw`, looking from `from` on:
/// the first whose running sum exceeds `draw`, else the last one.
pub open spec fn weighted_position(weights: Seq<u64>, draw: nat, from: int) -> int
    decreases weights.len() - from,
{
    if from >= weights.len() - 1 {
        weights.len() - 1
    } else if prefix_sum(weights, from + 1) > draw {
        from
    } else {
        weighted_position(weights, draw, from + 1)
    }
}

/// Walks `weights` in order, summing, and returns the first position where the running sum
/// exceeds `draw`; the last position when it never does.
pub fn select_weighted(weights: &Vec<u64>, draw: u128) -> (r: usize)
    requires
        weights.len() > 0,
    ensures
        r as int == weighted_position(weights@, draw as nat, 0),
        r < weights.len(),
        draw < prefix_sum(weights@, weights.len() as int) ==> weights@[r as int] > 0,
{
    let mut sum: u128 = 0;
    let mut i: usize = 0;
    while i + 1 < weights.len()
        invariant
            i < weights.len(),
            sum as nat == prefix_sum(weights@, i as int),
            sum <= draw,
            weighted_position(weights@, draw as nat, 0) == weighted_position(
                weights@,
                draw as nat,
                i as int,
            ),
        decreases weights.len() - i,
    {
        proof {
            lemma_prefix_sum_bound(weights@, i as int + 1);
            assert((i as int + 1) * u64::MAX <= u128::MAX) by (nonlinear_arith)
                requires i < usize::MAX;
        }
        sum = sum + weights[i] as u128;
        if sum > draw {
            return i;
        }
        i = i + 1;
    }
    i
}

/// Fills `kmeans` with `n_clusters` prototypes drawn uniformly, with replacement, from its
/// dataset; identities count up from 0 and every size starts at 0.
pub fn init_simple<T: KmeansPoint>(kmeans: &mut Kmeans<T>, n_clusters: u8, seed: u64)
    requires
        old(kmeans).dataset.len() > 0,
    ensures
        final(kmeans).dataset == old(kmeans).dataset,
        final(kmeans).labels == old(kmeans).labels,
        final(kmeans).distance_metric == old(kmeans).distance_metric,
        final(kmeans).clusters.len() == n_clusters,
        forall|i: int|
            0 <= i < n_clusters ==> {
                &&& (#[trigger] final(kmeans).clusters@[i]).index == i
                &&& final(kmeans).clusters@[i].size == 0
                &&& final(kmeans).dataset@.contains(final(kmeans).clusters@[i].point)
            },
{
    let mut rng = seeded_rng(seed);
    let mut clusters: Vec<Cluster<T>> = Vec::new();
    let mut i: u8 = 0;
    while i < n_clusters
        invariant
            i <= n_clusters,
            kmeans.dataset.len() > 0,
            clusters.len() == i,
            forall|k: int|
                0 <= k < i ==> {
                    &&& (#[trigger] clusters@[k]).index == k
                    &&& clusters@[k].size == 0
                    &&& kmeans.dataset@.contains(clusters@[k].point)
                },
        decreases n_clusters - i,
    {
        let chosen = choose_point(&mut rng, &kmeans.dataset);
        let p = match chosen {
            Some(p) => p,
            None => { return; },
        };
        clusters.push(Cluster { point: p.copy_point(), index: i, size: 0 });
        i = i + 1;
    }
    kmeans.clusters = clusters;
}

/// The k-means++ rule held by the prototype at position `i`: it lies at a positive distance
/// from every earlier prototype, or, when every dataset point coincides with an earlier
/// prototype, it is the dataset's last point.
pub open spec fn well_seeded<T: KmeansPoint>(
    dataset: Seq<T>,
    clusters: Seq<Cluster<T>>,
    metric: DistanceMetric,
    i: int,
) -> bool {
    ||| nearest_distance(clusters[i].point, clusters.take(i), metric) > 0
    ||| {
        &&& clusters[i].point == dataset.last()
        &&& forall|x: int|
            0 <= x < dataset.len() ==> nearest_distance(#[trigger] dataset[x], clusters.take(i), metric)
                == 0
    }
}

/// Fills `kmeans` with `n_clusters` prototypes by k-means++: the first drawn uniformly, each
/// next one drawn with probability proportional to its distance from the nearest prototype
/// chosen so far. Identities count up from 0 and every size starts at 0.
pub fn init_plus_plus<T: KmeansPoint>(kmeans: &mut Kmeans<T>, n_clusters: u8, seed: u64)
    requires
        old(kmeans).dataset.len() > 0,
        n_clusters >= 1,
    ensures
        final(kmeans).dataset == old(kmeans).dataset,
        final(kmeans).labels == old(kmeans).labels,
        final(kmeans).distance_metric == old(kmeans).distance_metric,
        final(kmeans).clusters.len() == n_clusters,
        forall|i: int|
            0 <= i < n_clusters ==> {
                &&& (#[trigger] final(kmeans).clusters@[i]).index == i
                &&& final(kmeans).clusters@[i].size == 0
                &&& final(kmeans).dataset@.contains(final(kmeans).clusters@[i].point)
            },
        forall|i: int|
            1 <= i < n_clusters ==> #[trigger] well_seeded(
                final(kmeans).dataset@,
                final(kmeans).clusters@,
                final(kmeans).distance_metric,
                i,
            ),
{
    let mut rng = seeded_rng(seed);
    let first = match choose_point(&mut rng, &kmeans.dataset) {
        Some(p) => p.copy_point(),
        None => { return; },
    };
    let mut clusters: Vec<Cluster<T>> = Vec::new();
    clusters.push(Cluster { point: first, index: 0, size: 0 });
    let mut i: u8 = 1;
    while i < n_clusters
        invariant
            1 <= i <= n_clusters,
            kmeans.dataset.len() > 0,
            clusters.len() == i,
            forall|k: int|
                0 <= k < i ==> {
                    &&& (#[trigger] clusters@[k]).index == k
                    &&& clusters@[k].size == 0
                    &&& kmeans.dataset@.contains(clusters@[k].point)
                },
            forall|k: int|
                1 <= k < i ==> #[trigger] well_seeded(
                    kmeans.dataset@,
                    clusters@,
                    kmeans.distance_metric,
                    k,
                ),
        decreases n_clusters - i,
    {
        let distances = nearest_distances(&kmeans.dataset, &clusters, &kmeans.distance_metric);
        let total = par_total(&distances);
        let pos = if total == 0 {
            distances.len() - 1
        } else {
            let draw = draw_below(&mut rng, total);
            select_weighted(&distances, draw)
        };
        let ghost old_clusters = clusters@;
        let ghost data = kmeans.dataset@;
        let ghost metric = kmeans.distance_metric;
        clusters.push(Cluster { point: kmeans.dataset[pos].copy_point(), index: i, size: 0 });
        proof {
            assert(clusters@.take(i as int) =~= old_clusters);
            if total == 0 {
                lemma_prefix_sum_bound(distances@, distances.len() as int);
                assert forall|x: int| 0 <= x < data.len() implies nearest_distance(
                    #[trigger] data[x],
                    clusters@.take(i as int),
                    metric,
                ) == 0 by {
                    assert(distances@[x] <= prefix_sum(distances@, distances.len() as int));
                }
                assert(well_seeded(data, clusters@, metric, i as int));
            } else {
                assert(distances@[pos as int] > 0);
                assert(well_seeded(data, clusters@, metric, i as int));
            }
            assert forall|k: int| 1 <= k < i implies #[trigger] well_seeded(
                data,
                clusters@,
                metric,
                k,
            ) by {
                assert(clusters@.take(k) =~= old_clusters.take(k));
                assert(clusters@[k] == old_clusters[k]);
                assert(well_seeded(data, old_clusters, metric, k));
            }
        }
        i = i + 1;
    }
    kmeans.clusters = clusters;
}

} // verus!
