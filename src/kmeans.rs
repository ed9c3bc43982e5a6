use crate::convergence::{convergence_feature, feature_dropped, feature_of, FEATURE_ONE, MAX_ITERATIONS};
use crate::initialize::{init_plus_plus, init_simple, well_seeded};
use crate::order::{heaviest_first, sort_by_size, sorted_by_size};
use crate::point::{
    lemma_nearest_position, nearest_distance, nearest_index, nearest_position, Cluster,
    DistanceMetric, DistanceMetrics, KmeansPoint,
};
use rayon::prelude::{IntoParallelRefIterator, ParallelIterator};
use vstd::prelude::*;

verus! {

/// The only way constructing an engine can fail.
#[derive(Clone, Copy, Debug, PartialEq, Eq, Structural)]
pub enum KmeansError {
    /// The dataset holds fewer than two points.
    InputTooSmall,
}

/// How the first prototypes are picked.
#[derive(Clone, Copy, Debug, PartialEq, Eq, Structural)]
pub enum Initializer {
    /// Uniformly at random, with replacement.
    Simple,
    /// k-means++: with probability proportional to the distance from the nearest earlier pick.
    PlusPlus,
}

/// The seed used when a caller has no reason to pick another.
pub const DEFAULT_SEED: u64 = 123;

/// The clustering engine: the dataset, its clusters and the label of each point.
#[derive(Debug)]
pub struct Kmeans<T> {
    pub dataset: Vec<T>,
    pub clusters: Vec<Cluster<T>>,
    pub labels: Vec<u8>,
    pub distance_metric: DistanceMetric,
}

/// Some cluster of `clusters` has identity `index`.
pub open spec fn has_index<T>(clusters: Seq<Cluster<T>>, index: u8) -> bool {
    exists|j: int| 0 <= j < clusters.len() && #[trigger] clusters[j].index == index
}

/// Every label names a cluster that is present.
pub open spec fn labels_valid<T>(labels: Seq<u8>, clusters: Seq<Cluster<T>>) -> bool {
    forall|i: int| 0 <= i < labels.len() ==> has_index(clusters, #[trigger] labels[i])
}

/// No two clusters share an identity.
pub open spec fn indices_unique<T>(clusters: Seq<Cluster<T>>) -> bool {
    forall|i: int, j: int|
        0 <= i < clusters.len() && 0 <= j < clusters.len() && i != j ==> #[trigger] clusters[i].index
            != #[trigger] clusters[j].index
}

/// The labels that a fresh assignment gives: each point's nearest cluster.
pub open spec fn assigned_labels<T: DistanceMetrics>(
    dataset: Seq<T>,
    clusters: Seq<Cluster<T>>,
    metric: DistanceMetric,
) -> Seq<u8> {
    Seq::new(dataset.len(), |i: int| nearest_index(dataset[i], clusters, metric))
}

/// The points of `dataset` whose label is `index`, in dataset order.
pub open spec fn members<T>(dataset: Seq<T>, labels: Seq<u8>, index: u8) -> Seq<T>
    decreases dataset.len(),
{
    if dataset.len() == 0 || labels.len() == 0 {
        Seq::empty()
    } else {
        let rest = members(dataset.drop_last(), labels.drop_last(), index);
        if labels.last() == index {
            rest.push(dataset.last())
        } else {
            rest
        }
    }
}

/// A cluster after an update: the mean of its members (kept when it has none) and their count.
pub open spec fn updated_cluster<T: KmeansPoint>(
    dataset: Seq<T>,
    labels: Seq<u8>,
    c: Cluster<T>,
) -> Cluster<T> {
    let m = members(dataset, labels, c.index);
    Cluster {
        point: if m.len() == 0 {
            c.point
        } else {
            T::mean_of(m)
        },
        index: c.index,
        size: m.len() as usize,
    }
}

/// Sum of the sizes of `clusters`.
pub open spec fn total_size<T>(clusters: Seq<Cluster<T>>) -> nat
    decreases clusters.len(),
{
    if clusters.len() == 0 {
        0
    } else {
        total_size(clusters.drop_last()) + clusters.last().size as nat
    }
}

proof fn lemma_members_len<T>(dataset: Seq<T>, labels: Seq<u8>, index: u8)
    ensures
        members(dataset, labels, index).len() <= dataset.len(),
    decreases dataset.len(),
{
    if dataset.len() > 0 && labels.len() > 0 {
        lemma_members_len(dataset.drop_last(), labels.drop_last(), index);
    }
}

/// Sum, over `clusters`, of how many points carry each one's identity.
pub open spec fn member_total<T>(dataset: Seq<T>, labels: Seq<u8>, clusters: Seq<Cluster<T>>) -> nat
    decreases clusters.len(),
{
    if clusters.len() == 0 {
        0
    } else {
        member_total(dataset, labels, clusters.drop_last()) + members(
            dataset,
            labels,
            clusters.last().index,
        ).len()
    }
}

/// How many clusters of `clusters` have identity `index`.
pub open spec fn occurrences<T>(clusters: Seq<Cluster<T>>, index: u8) -> nat
    decreases clusters.len(),
{
    if clusters.len() == 0 {
        0
    } else {
        occurrences(clusters.drop_last(), index) + if clusters.last().index == index {
            1nat
        } else {
            0nat
        }
    }
}

proof fn lemma_occurrences_once<T>(clusters: Seq<Cluster<T>>, index: u8)
    requires
        indices_unique(clusters),
    ensures
        occurrences(clusters, index) == (if has_index(clusters, index) {
            1nat
        } else {
            0nat
        }),
    decreases clusters.len(),
{
    if clusters.len() > 0 {
        let rest = clusters.drop_last();
        assert forall|a: int, b: int|
            0 <= a < rest.len() && 0 <= b < rest.len() && a != b implies #[trigger] rest[a].index
            != #[trigger] rest[b].index by {
            assert(clusters[a].index != clusters[b].index);
        }
        lemma_occurrences_once(rest, index);
        if has_index(clusters, index) {
            let j = choose|j: int| 0 <= j < clusters.len() && #[trigger] clusters[j].index == index;
            if j < clusters.len() - 1 {
                assert(rest[j].index == index);
                assert(clusters.last().index != index) by {
                    assert(clusters[clusters.len() - 1].index != clusters[j].index);
                }
            } else {
                assert(!has_index(rest, index)) by {
                    if has_index(rest, index) {
                        let k = choose|k: int| 0 <= k < rest.len() && #[trigger] rest[k].index == index;
                        assert(clusters[k].index != clusters[j].index);
                    }
                }
            }
        } else {
            assert(clusters.last().index != index) by {
                assert(clusters[clusters.len() - 1].index == clusters.last().index);
            }
            assert(!has_index(rest, index)) by {
                if has_index(rest, index) {
                    let k = choose|k: int| 0 <= k < rest.len() && #[trigger] rest[k].index == index;
                    assert(clusters[k].index == index);
                }
            }
        }
    }
}

proof fn lemma_member_total_step<T>(dataset: Seq<T>, labels: Seq<u8>, clusters: Seq<Cluster<T>>)
    requires
        dataset.len() == labels.len(),
        dataset.len() > 0,
    ensures
        member_total(dataset, labels, clusters) == member_total(
            dataset.drop_last(),
            labels.drop_last(),
            clusters,
        ) + occurrences(clusters, labels.last()),
    decreases clusters.len(),
{
    if clusters.len() > 0 {
        lemma_member_total_step(dataset, labels, clusters.drop_last());
    }
}

/// Each point carries exactly one present identity, so the member counts add up to the dataset.
proof fn lemma_member_total<T>(dataset: Seq<T>, labels: Seq<u8>, clusters: Seq<Cluster<T>>)
    requires
        dataset.len() == labels.len(),
        labels_valid(labels, clusters),
        indices_unique(clusters),
    ensures
        member_total(dataset, labels, clusters) == dataset.len(),
    decreases dataset.len(),
{
    if dataset.len() == 0 {
        lemma_member_total_empty(dataset, labels, clusters);
    } else {
        let l = labels.drop_last();
        assert forall|i: int| 0 <= i < l.len() implies has_index(clusters, #[trigger] l[i]) by {
            assert(has_index(clusters, labels[i]));
        }
        lemma_member_total(dataset.drop_last(), l, clusters);
        lemma_member_total_step(dataset, labels, clusters);
        assert(has_index(clusters, labels[labels.len() - 1]));
        lemma_occurrences_once(clusters, labels.last());
    }
}

proof fn lemma_member_total_empty<T>(dataset: Seq<T>, labels: Seq<u8>, clusters: Seq<Cluster<T>>)
    requires
        dataset.len() == 0,
    ensures
        member_total(dataset, labels, clusters) == 0,
    decreases clusters.len(),
{
    if clusters.len() > 0 {
        lemma_member_total_empty(dataset, labels, clusters.drop_last());
    }
}

/// The sizes after an update are the member counts.
proof fn lemma_total_size_updated<T: KmeansPoint>(
    dataset: Seq<T>,
    labels: Seq<u8>,
    before: Seq<Cluster<T>>,
    after: Seq<Cluster<T>>,
)
    requires
        before.len() == after.len(),
        dataset.len() <= usize::MAX,
        forall|j: int|
            0 <= j < before.len() ==> #[trigger] after[j] == updated_cluster(
                dataset,
                labels,
                before[j],
            ),
    ensures
        total_size(after) == member_total(dataset, labels, before),
    decreases before.len(),
{
    if before.len() > 0 {
        let (b, a) = (before.drop_last(), after.drop_last());
        assert forall|j: int| 0 <= j < b.len() implies #[trigger] a[j] == updated_cluster(
            dataset,
            labels,
            b[j],
        ) by {
            assert(after[j] == updated_cluster(dataset, labels, before[j]));
        }
        lemma_total_size_updated(dataset, labels, b, a);
        assert(after[after.len() - 1] == updated_cluster(dataset, labels, before[before.len() - 1]));
        lemma_members_len(dataset, labels, before.last().index);
    }
}

/// After an update every point is counted in exactly one cluster: the sizes add up to the
/// dataset's length, so the weights sum to one.
pub proof fn lemma_weights_sum_to_one<T: KmeansPoint>(
    dataset: Seq<T>,
    labels: Seq<u8>,
    clusters: Seq<Cluster<T>>,
)
    requires
        dataset.len() == labels.len(),
        dataset.len() <= usize::MAX,
        labels_valid(labels, clusters),
        indices_unique(clusters),
    ensures
        total_size(Seq::new(clusters.len(), |j: int| updated_cluster(dataset, labels, clusters[j])))
            == dataset.len(),
{
    let after = Seq::new(clusters.len(), |j: int| updated_cluster(dataset, labels, clusters[j]));
    lemma_total_size_updated(dataset, labels, clusters, after);
    lemma_member_total(dataset, labels, clusters);
}

proof fn lemma_no_members<T>(dataset: Seq<T>, labels: Seq<u8>, index: u8)
    requires
        forall|i: int| 0 <= i < labels.len() ==> #[trigger] labels[i] != index,
    ensures
        members(dataset, labels, index).len() == 0,
    decreases dataset.len(),
{
    if dataset.len() > 0 && labels.len() > 0 {
        let l = labels.drop_last();
        assert(labels[labels.len() - 1] != index);
        assert forall|i: int| 0 <= i < l.len() implies #[trigger] l[i] != index by {
            assert(labels[i] != index);
        }
        lemma_no_members(dataset.drop_last(), l, index);
    }
}

/// A cluster that no point is labelled with keeps its prototype and gets weight zero.
pub proof fn lemma_empty_cluster_kept<T: KmeansPoint>(
    dataset: Seq<T>,
    labels: Seq<u8>,
    c: Cluster<T>,
)
    requires
        forall|i: int| 0 <= i < labels.len() ==> #[trigger] labels[i] != c.index,
    ensures
        updated_cluster(dataset, labels, c) == (Cluster { point: c.point, index: c.index, size: 0 }),
{
    lemma_no_members(dataset, labels, c.index);
}

/// `fit` is a function of the engine's state: two engines with the same dataset, clusters
/// and metric end it with the same labels and the same clusters in the same order.
pub proof fn lemma_fit_deterministic<T: KmeansPoint>(a: Kmeans<T>, b: Kmeans<T>)
    requires
        a.dataset@ == b.dataset@,
        a.clusters@ == b.clusters@,
        a.distance_metric == b.distance_metric,
    ensures
        fit_result(a.dataset@, a.clusters@, a.labels@, a.distance_metric) == fit_result(
            b.dataset@,
            b.clusters@,
            b.labels@,
            b.distance_metric,
        ),
{
    assert(MAX_ITERATIONS > 0);
}

/// Relies on rayon's `par_iter().map(..).collect()` into a `Vec`, which keeps the input's
/// order: each point is mapped to its nearest cluster's identity.
#[verifier::external_body]
fn par_nearest_indices<T: KmeansPoint>(
    dataset: &Vec<T>,
    clusters: &Vec<Cluster<T>>,
    metric: &DistanceMetric,
) -> (r: Vec<u8>)
    ensures
        r.len() == dataset.len(),
        forall|i: int|
            0 <= i < dataset.len() ==> #[trigger] r@[i] == (if clusters.len() == 0 {
                0u8
            } else {
                nearest_index(dataset@[i], clusters@, *metric)
            }),
{
    dataset.par_iter().map(|p| p.get_nearest_cluster_index(clusters, metric)).collect()
}

/// Relies on rayon's `par_iter().map(..).collect()` into a `Vec`, which keeps the input's
/// order: each point is mapped to its distance from the nearest cluster.
#[verifier::external_body]
fn par_nearest_distances<T: KmeansPoint>(
    dataset: &Vec<T>,
    clusters: &Vec<Cluster<T>>,
    metric: &DistanceMetric,
) -> (r: Vec<u64>)
    ensures
        r.len() == dataset.len(),
        forall|i: int|
            0 <= i < dataset.len() ==> #[trigger] r@[i] as nat == (if clusters.len() == 0 {
                u64::MAX as nat
            } else {
                nearest_distance(dataset@[i], clusters@, *metric)
            }),
{
    dataset.par_iter().map(|p| p.get_nearest_cluster_distance(clusters, metric)).collect()
}

/// The nearest-cluster distance of every point of `dataset`, in dataset order.
pub fn nearest_distances<T: KmeansPoint>(
    dataset: &Vec<T>,
    clusters: &Vec<Cluster<T>>,
    metric: &DistanceMetric,
) -> (r: Vec<u64>)
    requires
        clusters.len() > 0,
    ensures
        r.len() == dataset.len(),
        forall|i: int|
            0 <= i < dataset.len() ==> #[trigger] r@[i] as nat == nearest_distance(
                dataset@[i],
                clusters@,
                *metric,
            ),
{
    par_nearest_distances(dataset, clusters, metric)
}

/// The sizes of `clusters`, in order.
pub open spec fn sizes_of<T>(clusters: Seq<Cluster<T>>) -> Seq<usize> {
    Seq::new(clusters.len(), |j: int| clusters[j].size)
}

/// One assign/update round: fresh labels, then clusters updated from them.
pub open spec fn round<T: KmeansPoint>(
    dataset: Seq<T>,
    clusters: Seq<Cluster<T>>,
    metric: DistanceMetric,
) -> (Seq<u8>, Seq<Cluster<T>>) {
    let labels = assigned_labels(dataset, clusters, metric);
    (labels, Seq::new(clusters.len(), |j: int| updated_cluster(dataset, labels, clusters[j])))
}

/// Labels and clusters after running at most `remaining` rounds, stopping early once the
/// convergence feature falls below a tenth of the previous round's.
pub open spec fn run_rounds<T: KmeansPoint>(
    dataset: Seq<T>,
    clusters: Seq<Cluster<T>>,
    labels: Seq<u8>,
    metric: DistanceMetric,
    previous: Seq<usize>,
    previous_feature: nat,
    remaining: nat,
) -> (Seq<u8>, Seq<Cluster<T>>)
    decreases remaining,
{
    if remaining == 0 {
        (labels, clusters)
    } else {
        let (l, c) = round(dataset, clusters, metric);
        let f = feature_of(c, previous);
        if 10 * f < previous_feature {
            (l, c)
        } else {
            run_rounds(dataset, c, l, metric, sizes_of(c), f, (remaining - 1) as nat)
        }
    }
}

/// What `fit` computes before it orders the clusters: every weight starts at one.
pub open spec fn fit_rounds<T: KmeansPoint>(
    dataset: Seq<T>,
    clusters: Seq<Cluster<T>>,
    labels: Seq<u8>,
    metric: DistanceMetric,
) -> (Seq<u8>, Seq<Cluster<T>>) {
    run_rounds(
        dataset,
        clusters,
        labels,
        metric,
        Seq::new(clusters.len(), |j: int| dataset.len() as usize),
        FEATURE_ONE as nat,
        MAX_ITERATIONS as nat,
    )
}

/// What `fit` leaves: the labels and clusters of its rounds, the clusters heaviest first.
pub open spec fn fit_result<T: KmeansPoint>(
    dataset: Seq<T>,
    clusters: Seq<Cluster<T>>,
    labels: Seq<u8>,
    metric: DistanceMetric,
) -> (Seq<u8>, Seq<Cluster<T>>) {
    let (l, c) = fit_rounds(dataset, clusters, labels, metric);
    (l, heaviest_first(c, 0, c.len() as int))
}

fn sizes<T>(clusters: &Vec<Cluster<T>>) -> (r: Vec<usize>)
    ensures
        r@ == sizes_of(clusters@),
{
    let mut r: Vec<usize> = Vec::new();
    let mut j: usize = 0;
    while j < clusters.len()
        invariant
            j <= clusters.len(),
            r@ =~= sizes_of(clusters@).take(j as int),
        decreases clusters.len() - j,
    {
        r.push(clusters[j].size);
        j = j + 1;
    }
    r
}

impl<T: KmeansPoint> Kmeans<T> {
    /// The state every constructed engine keeps.
    pub open spec fn wf(&self) -> bool {
        &&& self.dataset.len() >= 2
        &&& self.labels.len() == self.dataset.len()
        &&& 1 <= self.clusters.len() <= 255
        &&& labels_valid(self.labels@, self.clusters@)
        &&& indices_unique(self.clusters@)
    }

    /// Builds an engine over `dataset` with `n_clusters` prototypes picked by `init_clusters`
    /// from a generator seeded with `seed`; every label starts at 0.
    pub fn init(
        dataset: Vec<T>,
        n_clusters: u8,
        init_clusters: Initializer,
        metric: DistanceMetric,
        seed: u64,
    ) -> (r: Result<Self, KmeansError>)
        requires
            n_clusters >= 1,
        ensures
            r is Err <==> dataset.len() < 2,
            r is Err ==> r->Err_0 == KmeansError::InputTooSmall,
            r is Ok ==> ({
                let k = r->Ok_0;
                &&& k.wf()
                &&& k.dataset@ == dataset@
                &&& k.distance_metric == metric
                &&& k.labels@ == Seq::new(dataset.len() as nat, |i: int| 0u8)
                &&& k.clusters.len() == n_clusters
                &&& forall|i: int|
                    0 <= i < n_clusters ==> {
                        &&& (#[trigger] k.clusters@[i]).index == i
                        &&& k.clusters@[i].size == 0
                        &&& dataset@.contains(k.clusters@[i].point)
                    }
                &&& init_clusters == Initializer::PlusPlus ==> forall|i: int|
                    1 <= i < n_clusters ==> #[trigger] well_seeded(
                        dataset@,
                        k.clusters@,
                        metric,
                        i,
                    )
            }),
    {
        let len = dataset.len();
        if len < 2 {
            return Err(KmeansError::InputTooSmall);
        }
        let mut labels: Vec<u8> = Vec::new();
        let mut i: usize = 0;
        while i < len
            invariant
                i <= len,
                labels@ =~= Seq::new(i as nat, |x: int| 0u8),
            decreases len - i,
        {
            labels.push(0);
            i = i + 1;
        }
        let mut k = Kmeans { dataset, clusters: Vec::new(), labels, distance_metric: metric };
        match init_clusters {
            Initializer::Simple => init_simple(&mut k, n_clusters, seed),
            Initializer::PlusPlus => init_plus_plus(&mut k, n_clusters, seed),
        }
        proof {
            assert(k.clusters@[0].index == 0);
            assert forall|x: int| 0 <= x < k.labels.len() implies has_index(k.clusters@, #[trigger] k.labels@[x]) by {
                assert(k.clusters@[0].index == k.labels@[x]);
            }
            assert forall|a: int, b: int|
                0 <= a < k.clusters.len() && 0 <= b < k.clusters.len() && a != b implies
                #[trigger] k.clusters@[a].index != #[trigger] k.clusters@[b].index by {
                assert(k.clusters@[a].index == a);
                assert(k.clusters@[b].index == b);
            }
        }
        Ok(k)
    }

    /// Runs assign/update rounds until the convergence feature drops or the round cap is
    /// reached; returns how many rounds ran.
    fn run_fit_rounds(&mut self) -> (rounds: usize)
        requires
            old(self).wf(),
        ensures
            final(self).wf(),
            1 <= rounds <= MAX_ITERATIONS,
            final(self).dataset == old(self).dataset,
            final(self).distance_metric == old(self).distance_metric,
            final(self).clusters.len() == old(self).clusters.len(),
            (final(self).labels@, final(self).clusters@) == fit_rounds(
                old(self).dataset@,
                old(self).clusters@,
                old(self).labels@,
                old(self).distance_metric,
            ),
            total_size(final(self).clusters@) == final(self).dataset.len(),
    {
        let ghost target = fit_rounds(self.dataset@, self.clusters@, self.labels@, self.distance_metric);
        let ghost k = self.clusters.len();
        let n = self.dataset.len();
        let mut previous: Vec<usize> = Vec::new();
        let mut j: usize = 0;
        while j < self.clusters.len()
            invariant
                j <= self.clusters.len(),
                n == self.dataset.len(),
                previous@ =~= Seq::new(j as nat, |i: int| n),
            decreases self.clusters.len() - j,
        {
            previous.push(n);
            j = j + 1;
        }
        let mut previous_feature: u128 = FEATURE_ONE;
        let mut rounds: usize = 0;
        let mut done = false;
        while !done && rounds < MAX_ITERATIONS
            invariant
                self.wf(),
                self.dataset == old(self).dataset,
                self.distance_metric == old(self).distance_metric,
                self.clusters.len() == k,
                previous.len() == k,
                rounds <= MAX_ITERATIONS,
                done ==> rounds >= 1,
                rounds >= 1 ==> total_size(self.clusters@) == self.dataset.len(),
                done ==> target == (self.labels@, self.clusters@),
                !done ==> target == run_rounds(
                    self.dataset@,
                    self.clusters@,
                    self.labels@,
                    self.distance_metric,
                    previous@,
                    previous_feature as nat,
                    (MAX_ITERATIONS - rounds) as nat,
                ),
            decreases MAX_ITERATIONS - rounds,
        {
            let ghost before = self.clusters@;
            self.assign_points();
            self.update_clusters();
            proof {
                let (l, c) = round(self.dataset@, before, self.distance_metric);
                assert(self.labels@ == l);
                assert(self.clusters@ =~= c);
            }
            let feature = convergence_feature(&self.clusters, &previous);
            rounds = rounds + 1;
            if feature_dropped(feature, previous_feature) {
                done = true;
            } else {
                previous = sizes(&self.clusters);
                previous_feature = feature;
            }
        }
        rounds
    }

    /// Clusters the dataset: rounds of assignment and update, then the clusters in
    /// order of non-increasing weight.
    pub fn fit(&mut self)
        requires
            old(self).wf(),
        ensures
            final(self).wf(),
            final(self).dataset == old(self).dataset,
            final(self).distance_metric == old(self).distance_metric,
            final(self).clusters.len() == old(self).clusters.len(),
            total_size(final(self).clusters@) == final(self).dataset.len(),
            sorted_by_size(final(self).clusters@),
            (final(self).labels@, final(self).clusters@) == fit_result(
                old(self).dataset@,
                old(self).clusters@,
                old(self).labels@,
                old(self).distance_metric,
            ),
    {
        self.run_fit_rounds();
        let ghost labels = self.labels@;
        sort_by_size(&mut self.clusters, Ghost(labels));
    }

    /// Labels every point with its nearest cluster.
    fn assign_points(&mut self)
        requires
            old(self).wf(),
        ensures
            final(self).wf(),
            final(self).dataset == old(self).dataset,
            final(self).clusters == old(self).clusters,
            final(self).distance_metric == old(self).distance_metric,
            final(self).labels@ == assigned_labels(
                old(self).dataset@,
                old(self).clusters@,
                old(self).distance_metric,
            ),
    {
        let labels = par_nearest_indices(&self.dataset, &self.clusters, &self.distance_metric);
        self.labels = labels;
        proof {
            assert(self.labels@ =~= assigned_labels(self.dataset@, self.clusters@, self.distance_metric));
            assert forall|i: int| 0 <= i < self.labels.len() implies has_index(self.clusters@, #[trigger] self.labels@[i]) by {
                let p = self.dataset@[i];
                lemma_nearest_position(p, self.clusters@, self.distance_metric);
                let j = nearest_position(p, self.clusters@, self.distance_metric);
                assert(self.clusters@[j].index == self.labels@[i]);
            }
        }
    }

    /// Collects the members of the cluster with identity `index`.
    fn gather_members(&self, index: u8) -> (r: Vec<T>)
        requires
            self.labels.len() == self.dataset.len(),
        ensures
            r@ == members(self.dataset@, self.labels@, index),
    {
        let mut r: Vec<T> = Vec::new();
        let mut i: usize = 0;
        while i < self.dataset.len()
            invariant
                i <= self.dataset.len(),
                self.labels.len() == self.dataset.len(),
                r@ == members(self.dataset@.take(i as int), self.labels@.take(i as int), index),
            decreases self.dataset.len() - i,
        {
            proof {
                assert(self.dataset@.take(i as int + 1).drop_last() =~= self.dataset@.take(i as int));
                assert(self.labels@.take(i as int + 1).drop_last() =~= self.labels@.take(i as int));
            }
            if self.labels[i] == index {
                r.push(self.dataset[i].copy_point());
            }
            i = i + 1;
        }
        proof {
            assert(self.dataset@.take(i as int) =~= self.dataset@);
            assert(self.labels@.take(i as int) =~= self.labels@);
        }
        r
    }

    /// The cluster `c` after an update from the current labels.
    fn updated(&self, c: &Cluster<T>) -> (r: Cluster<T>)
        requires
            self.labels.len() == self.dataset.len(),
        ensures
            r == updated_cluster(self.dataset@, self.labels@, *c),
    {
        let m = self.gather_members(c.index);
        proof {
            lemma_members_len(self.dataset@, self.labels@, c.index);
        }
        let point = if m.len() == 0 {
            c.point.copy_point()
        } else {
            T::from_mean(&m)
        };
        Cluster { point, index: c.index, size: m.len() }
    }

    /// Relies on rayon's `par_iter().map(..).collect()` into a `Vec`, which keeps the input's
    /// order: each cluster is mapped to its updated form.
    #[verifier::external_body]
    fn par_updated_clusters(&self) -> (r: Vec<Cluster<T>>)
        requires
            self.labels.len() == self.dataset.len(),
        ensures
            r.len() == self.clusters.len(),
            forall|j: int|
                0 <= j < self.clusters.len() ==> #[trigger] r@[j] == updated_cluster(
                    self.dataset@,
                    self.labels@,
                    self.clusters@[j],
                ),
    {
        self.clusters.par_iter().map(|c| self.updated(c)).collect()
    }

    /// Moves each cluster to the mean of its members and records how many it has.
    fn update_clusters(&mut self)
        requires
            old(self).wf(),
        ensures
            final(self).wf(),
            final(self).dataset == old(self).dataset,
            final(self).labels == old(self).labels,
            final(self).distance_metric == old(self).distance_metric,
            final(self).clusters.len() == old(self).clusters.len(),
            forall|j: int|
                0 <= j < old(self).clusters.len() ==> #[trigger] final(self).clusters@[j]
                    == updated_cluster(old(self).dataset@, old(self).labels@, old(self).clusters@[j]),
            total_size(final(self).clusters@) == final(self).dataset.len(),
    {
        let ghost before = self.clusters@;
        let updated = self.par_updated_clusters();
        self.clusters = updated;
        proof {
            assert forall|i: int| 0 <= i < self.labels.len() implies has_index(self.clusters@, #[trigger] self.labels@[i]) by {
                assert(has_index(before, self.labels@[i]));
                let j = choose|j: int| 0 <= j < before.len() && #[trigger] before[j].index == self.labels@[i];
                assert(self.clusters@[j].index == before[j].index);
            }
            assert forall|a: int, b: int|
                0 <= a < self.clusters.len() && 0 <= b < self.clusters.len() && a != b implies
                #[trigger] self.clusters@[a].index != #[trigger] self.clusters@[b].index by {
                assert(before[a].index != before[b].index);
            }
            assert(self.clusters@ =~= Seq::new(
                before.len(),
                |j: int| updated_cluster(self.dataset@, self.labels@, before[j]),
            ));
            lemma_weights_sum_to_one(self.dataset@, self.labels@, before);
        }
    }
}

} // verus!
