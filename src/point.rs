use vstd::prelude::*;

verus! {

/// Which distance the engine measures with.
#[derive(Clone, Copy, Debug, PartialEq, Eq, Structural)]
pub enum DistanceMetric {
    /// Sum of squared per-channel differences (not square-rooted).
    Squared,
    /// Sum of absolute per-channel differences.
    Manhattan,
}

/// The two distances a point type offers, each with its mathematical meaning.
pub trait DistanceMetrics: Sized + Send + Sync {
    spec fn squared_distance(&self, other: &Self) -> nat;

    spec fn manhattan_distance(&self, other: &Self) -> nat;

    fn get_squared_distance(&self, point: &Self) -> (r: u64)
        ensures
            r as nat == self.squared_distance(point),
    ;

    fn get_manhattan_distance(&self, point: &Self) -> (r: u64)
        ensures
            r as nat == self.manhattan_distance(point),
    ;
}

/// The distance between `a` and `b` under `metric`.
pub open spec fn distance<T: DistanceMetrics>(a: T, b: T, metric: DistanceMetric) -> nat {
    match metric {
        DistanceMetric::Squared => a.squared_distance(&b),
        DistanceMetric::Manhattan => a.manhattan_distance(&b),
    }
}

/// A prototype point, its stable identity, and how many dataset points it holds.
#[derive(Clone, PartialEq, Debug)]
pub struct Cluster<T> {
    pub point: T,
    pub index: u8,
    /// Number of dataset points currently assigned; the weight is `size / dataset.len()`.
    pub size: usize,
}

/// Position in `from` of the cluster nearest to `p`: the first one at the least distance.
pub open spec fn nearest_position<T: DistanceMetrics>(
    p: T,
    from: Seq<Cluster<T>>,
    metric: DistanceMetric,
) -> int
    decreases from.len(),
{
    if from.len() <= 1 {
        0
    } else {
        let j = nearest_position(p, from.drop_last(), metric);
        if distance(p, from.last().point, metric) < distance(p, from[j].point, metric) {
            from.len() - 1
        } else {
            j
        }
    }
}

/// Distance from `p` to its nearest cluster in `from`.
pub open spec fn nearest_distance<T: DistanceMetrics>(
    p: T,
    from: Seq<Cluster<T>>,
    metric: DistanceMetric,
) -> nat {
    distance(p, from[nearest_position(p, from, metric)].point, metric)
}

/// Identity of the cluster nearest to `p`.
pub open spec fn nearest_index<T: DistanceMetrics>(
    p: T,
    from: Seq<Cluster<T>>,
    metric: DistanceMetric,
) -> u8 {
    from[nearest_position(p, from, metric)].index
}

/// The nearest position lies in `from`, no cluster is nearer, and every earlier one is farther.
pub proof fn lemma_nearest_position<T: DistanceMetrics>(
    p: T,
    from: Seq<Cluster<T>>,
    metric: DistanceMetric,
)
    requires
        from.len() > 0,
    ensures
        0 <= nearest_position(p, from, metric) < from.len(),
        forall|i: int|
            0 <= i < from.len() ==> nearest_distance(p, from, metric) <= #[trigger] distance(
                p,
                from[i].point,
                metric,
            ),
        forall|i: int|
            0 <= i < nearest_position(p, from, metric) ==> nearest_distance(p, from, metric)
                < #[trigger] distance(p, from[i].point, metric),
    decreases from.len(),
{
    if from.len() > 1 {
        let s = from.drop_last();
        lemma_nearest_position(p, s, metric);
        let j = nearest_position(p, s, metric);
        let n = from.len() - 1;
        let k = nearest_position(p, from, metric);
        assert(s.len() == n);
        assert(s[j] == from[j]);
        assert(from.last() == from[n]);
        if distance(p, from[n].point, metric) < distance(p, from[j].point, metric) {
            assert(k == n);
        } else {
            assert(k == j);
        }
        assert(nearest_distance(p, s, metric) == distance(p, from[j].point, metric));
        assert(nearest_distance(p, from, metric) == distance(p, from[k].point, metric));
        assert forall|i: int| 0 <= i < from.len() implies nearest_distance(p, from, metric)
            <= #[trigger] distance(p, from[i].point, metric) by {
            if i < n {
                assert(s[i] == from[i]);
                assert(nearest_distance(p, s, metric) <= distance(p, s[i].point, metric));
            }
        }
        assert forall|i: int| 0 <= i < nearest_position(p, from, metric) implies nearest_distance(
            p,
            from,
            metric,
        ) < #[trigger] distance(p, from[i].point, metric) by {
            if i < n {
                assert(s[i] == from[i]);
                if k == j {
                    assert(nearest_distance(p, s, metric) < distance(p, s[i].point, metric));
                } else {
                    assert(nearest_distance(p, s, metric) <= distance(p, s[i].point, metric));
                }
            }
        }
    }
}

/// A point type that the engine can cluster.
pub trait KmeansPoint: DistanceMetrics {
    /// The mean of a non-empty collection of points.
    spec fn mean_of(points: Seq<Self>) -> Self;

    fn from_mean(points: &Vec<Self>) -> (r: Self)
        requires
            points.len() > 0,
        ensures
            r == Self::mean_of(points@),
    ;

    fn copy_point(&self) -> (r: Self)
        ensures
            r == *self,
    ;

    fn get_distance(&self, point: &Self, metric: &DistanceMetric) -> (r: u64)
        ensures
            r as nat == distance(*self, *point, *metric),
    ;

    /// Distance to the nearest cluster; `u64::MAX` when there is none.
    fn get_nearest_cluster_distance(&self, from: &Vec<Cluster<Self>>, metric: &DistanceMetric) -> (r: u64)
        ensures
            from.len() == 0 ==> r == u64::MAX,
            from.len() > 0 ==> r as nat == nearest_distance(*self, from@, *metric),
    {
        if from.len() == 0 {
            u64::MAX
        } else {
            let (_, d) = nearest_cluster(self, from, metric);
            d
        }
    }

    /// Identity of the nearest cluster (ties go to the one met first); 0 when there is none.
    fn get_nearest_cluster_index(&self, from: &Vec<Cluster<Self>>, metric: &DistanceMetric) -> (r: u8)
        ensures
            from.len() == 0 ==> r == 0,
            from.len() > 0 ==> r == nearest_index(*self, from@, *metric),
    {
        if from.len() == 0 {
            0
        } else {
            let (j, _) = nearest_cluster(self, from, metric);
            from[j].index
        }
    }
}

/// Distance between two points under `metric`.
fn measure<T: DistanceMetrics>(a: &T, b: &T, metric: &DistanceMetric) -> (r: u64)
    ensures
        r as nat == distance(*a, *b, *metric),
{
    match metric {
        DistanceMetric::Squared => a.get_squared_distance(b),
        DistanceMetric::Manhattan => a.get_manhattan_distance(b),
    }
}

/// Scans `from` once and returns the nearest position and its distance.
fn nearest_cluster<T: DistanceMetrics>(p: &T, from: &Vec<Cluster<T>>, metric: &DistanceMetric) -> (r: (
    usize,
    u64,
))
    requires
        from.len() > 0,
    ensures
        r.0 < from.len(),
        r.0 as int == nearest_position(*p, from@, *metric),
        r.1 as nat == nearest_distance(*p, from@, *metric),
{
    let mut best: usize = 0;
    let mut min: u64 = measure(p, &from[0].point, metric);
    let mut i: usize = 1;
    proof {
        assert(from@.take(1).drop_last() =~= from@.take(0));
    }
    while i < from.len()
        invariant
            1 <= i <= from.len(),
            best < i,
            best as int == nearest_position(*p, from@.take(i as int), *metric),
            min as nat == distance(*p, from@[best as int].point, *metric),
        decreases from.len() - i,
    {
        proof {
            assert(from@.take(i as int + 1).drop_last() =~= from@.take(i as int));
            lemma_nearest_position(*p, from@.take(i as int), *metric);
        }
        let d = measure(p, &from[i].point, metric);
        if d < min {
            min = d;
            best = i;
        }
        i = i + 1;
    }
    proof {
        assert(from@.take(i as int) =~= from@);
        lemma_nearest_position(*p, from@, *metric);
    }
    (best, min)
}

} // verus!
