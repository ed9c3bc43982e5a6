use crate::kmeans::{has_index, indices_unique, labels_valid, total_size};
use crate::point::{Cluster, KmeansPoint};
use vstd::prelude::*;

verus! {

/// Clusters ordered by non-increasing size.
pub open spec fn sorted_by_size<T>(clusters: Seq<Cluster<T>>) -> bool {
    forall|a: int, b: int|
        0 <= a < b < clusters.len() ==> #[trigger] clusters[a].size >= #[trigger] clusters[b].size
}

/// First position in `[from, to)` of a cluster of the largest size.
pub open spec fn heaviest_position<T>(clusters: Seq<Cluster<T>>, from: int, to: int) -> int
    decreases to - from,
{
    if to <= from + 1 {
        from
    } else {
        let m = heaviest_position(clusters, from, to - 1);
        if clusters[to - 1].size > clusters[m].size {
            to - 1
        } else {
            m
        }
    }
}

/// `clusters` with the entries at `i` and `j` exchanged.
pub open spec fn swapped<T>(clusters: Seq<Cluster<T>>, i: int, j: int) -> Seq<Cluster<T>> {
    clusters.update(i, clusters[j]).update(j, clusters[i])
}

/// Selection sort of the first `n` clusters from position `from` on: the heaviest remaining
/// cluster is swapped forward.
pub open spec fn heaviest_first<T>(clusters: Seq<Cluster<T>>, from: int, n: int) -> Seq<
    Cluster<T>,
>
    decreases n - from,
{
    if from >= n {
        clusters
    } else {
        heaviest_first(swapped(clusters, from, heaviest_position(clusters, from, n)), from + 1, n)
    }
}

proof fn lemma_total_size_update<T>(clusters: Seq<Cluster<T>>, i: int, c: Cluster<T>)
    requires
        0 <= i < clusters.len(),
    ensures
        total_size(clusters.update(i, c)) + clusters[i].size == total_size(clusters) + c.size,
    decreases clusters.len(),
{
    let u = clusters.update(i, c);
    if i == clusters.len() - 1 {
        assert(u.drop_last() =~= clusters.drop_last());
    } else {
        assert(u.drop_last() =~= clusters.drop_last().update(i, c));
        lemma_total_size_update(clusters.drop_last(), i, c);
    }
}

fn copy_cluster<T: KmeansPoint>(c: &Cluster<T>) -> (r: Cluster<T>)
    ensures
        r == *c,
{
    Cluster { point: c.point.copy_point(), index: c.index, size: c.size }
}

/// Sorts `clusters` by non-increasing size; identities travel with their clusters.
pub(crate) fn sort_by_size<T: KmeansPoint>(clusters: &mut Vec<Cluster<T>>, labels: Ghost<Seq<u8>>)
    requires
        indices_unique(old(clusters)@),
        labels_valid(labels@, old(clusters)@),
    ensures
        final(clusters).len() == old(clusters).len(),
        sorted_by_size(final(clusters)@),
        indices_unique(final(clusters)@),
        labels_valid(labels@, final(clusters)@),
        total_size(final(clusters)@) == total_size(old(clusters)@),
        final(clusters)@ == heaviest_first(old(clusters)@, 0, old(clusters).len() as int),
        forall|j: int|
            0 <= j < old(clusters).len() ==> final(clusters)@.contains(#[trigger] old(clusters)@[j]),
        forall|k: int|
            0 <= k < final(clusters).len() ==> old(clusters)@.contains(#[trigger] final(clusters)@[k]),
{
    let ghost orig = clusters@;
    let ghost n = clusters.len() as int;
    let ghost mut perm: Seq<int> = Seq::new(n as nat, |k: int| k);
    let ghost mut inv: Seq<int> = Seq::new(n as nat, |k: int| k);
    let mut i: usize = 0;
    while i < clusters.len()
        invariant
            clusters.len() == n,
            perm.len() == n,
            inv.len() == n,
            i <= n,
            forall|k: int|
                0 <= k < n ==> 0 <= #[trigger] perm[k] < n && clusters@[k] == orig[perm[k]]
                    && inv[perm[k]] == k,
            forall|j: int| 0 <= j < n ==> 0 <= #[trigger] inv[j] < n && perm[inv[j]] == j,
            total_size(clusters@) == total_size(orig),
            heaviest_first(clusters@, i as int, n) == heaviest_first(orig, 0, n),
            forall|a: int, b: int|
                0 <= a < b < i ==> #[trigger] clusters@[a].size >= #[trigger] clusters@[b].size,
            forall|a: int, b: int|
                0 <= a < i <= b < n ==> #[trigger] clusters@[a].size >= #[trigger] clusters@[b].size,
        decreases n - i,
    {
        let mut m: usize = i;
        let mut k: usize = i + 1;
        while k < clusters.len()
            invariant
                clusters.len() == n,
                i <= m < n,
                i < k <= n,
                m < k,
                m as int == heaviest_position(clusters@, i as int, k as int),
                forall|b: int| i <= b < k ==> clusters@[m as int].size >= #[trigger] clusters@[b].size,
            decreases n - k,
        {
            if clusters[k].size > clusters[m].size {
                m = k;
            }
            k = k + 1;
        }
        let ci = copy_cluster(&clusters[i]);
        let cm = copy_cluster(&clusters[m]);
        proof {
            let s0 = clusters@;
            let s1 = s0.update(i as int, cm);
            lemma_total_size_update(s0, i as int, cm);
            lemma_total_size_update(s1, m as int, ci);
            if i != m {
                assert(s1[m as int] == cm);
            }
            let (pi, pm) = (perm[i as int], perm[m as int]);
            perm = perm.update(i as int, pm).update(m as int, pi);
            inv = inv.update(pi, m as int).update(pm, i as int);
        }
        let ghost before = clusters@;
        clusters.set(i, cm);
        clusters.set(m, ci);
        assert(clusters@ =~= swapped(before, i as int, m as int));
        i = i + 1;
    }
    proof {
        assert forall|a: int, b: int|
            0 <= a < n && 0 <= b < n && a != b implies #[trigger] clusters@[a].index
            != #[trigger] clusters@[b].index by {
            assert(orig[perm[a]].index != orig[perm[b]].index);
        }
        assert forall|j: int| 0 <= j < n implies clusters@.contains(#[trigger] orig[j]) by {
            assert(clusters@[inv[j]] == orig[j]);
        }
        assert forall|k: int| 0 <= k < n implies orig.contains(#[trigger] clusters@[k]) by {
            assert(clusters@[k] == orig[perm[k]]);
        }
        assert forall|x: int| 0 <= x < labels@.len() implies has_index(clusters@, #[trigger] labels@[x]) by {
            assert(has_index(orig, labels@[x]));
            let j = choose|j: int| 0 <= j < orig.len() && #[trigger] orig[j].index == labels@[x];
            assert(clusters@[inv[j]] == orig[j]);
        }
    }
}

} // verus!
