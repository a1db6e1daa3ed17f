//! The partition of points into clusters, the nearest-pair search, and the
//! clustering loop that merges clusters until a target count remains.

use vstd::prelude::*;
use vstd::multiset::Multiset;
use crate::point::Obj;
use crate::cluster::{
    Cluster, cluster_dist_sq, cluster_distance, merge_clusters, sorted_by_id,
};

verus! {

/// The multiset of all points held by the clusters of a partition.
pub open spec fn points_of(cs: Seq<Cluster>) -> Multiset<Obj>
    decreases cs.len(),
{
    if cs.len() == 0 {
        Multiset::empty()
    } else {
        points_of(cs.drop_last()).add(cs.last()@.to_multiset())
    }
}

/// Every cluster of the partition is non-empty.
pub open spec fn all_nonempty(cs: Seq<Cluster>) -> bool {
    forall|k: int| 0 <= k < cs.len() ==> #[trigger] cs[k]@.len() > 0
}

/// The single-linkage distance between the clusters at two positions of a
/// partition.
pub open spec fn pair_dist(cs: Seq<Cluster>, p: int, q: int) -> int {
    cluster_dist_sq(cs[p]@, cs[q]@)
}

/// Lexicographic order on index pairs: the earlier-found pair wins a tie.
pub open spec fn pair_le(i1: int, j1: int, i2: int, j2: int) -> bool {
    i1 < i2 || (i1 == i2 && j1 <= j2)
}

/// The pair `(i, j)` is the pair the nearest-pair search must return: its
/// single-linkage distance is a lower bound on that of every unordered
/// cluster pair, and on a tie it is the lexicographically earliest such
/// pair.
pub open spec fn is_nearest_pair(cs: Seq<Cluster>, i: int, j: int) -> bool {
    &&& 0 <= i < j < cs.len()
    &&& forall|p: int, q: int|
        0 <= p < q < cs.len() ==> pair_dist(cs, i, j) <= #[trigger] pair_dist(cs, p, q)
    &&& forall|p: int, q: int|
        0 <= p < q < cs.len() && #[trigger] pair_dist(cs, p, q) == pair_dist(cs, i, j)
            ==> pair_le(i, j, p, q)
}

/// `m` is the merge of the point sequences `c1` and `c2`: it holds exactly
/// their points, sorted non-decreasing by identifier.
pub open spec fn merged_cluster(c1: Seq<Obj>, c2: Seq<Obj>, m: Seq<Obj>) -> bool {
    &&& m.len() == c1.len() + c2.len()
    &&& m.to_multiset() == c1.to_multiset().add(c2.to_multiset())
    &&& sorted_by_id(m)
}

/// One iteration of the clustering loop turns `cs` into `cs2`: the nearest
/// pair `(i, j)` is found, their merge replaces position `i`, position `j`
/// is removed, and every other cluster keeps its contents and its relative
/// order.
pub open spec fn is_merge_step(cs: Seq<Cluster>, cs2: Seq<Cluster>) -> bool {
    exists|i: int, j: int|
        {
            &&& #[trigger] is_nearest_pair(cs, i, j)
            &&& cs2.len() == cs.len() - 1
            &&& merged_cluster(cs[i]@, cs[j]@, cs2[i]@)
            &&& forall|k: int|
                0 <= k < cs2.len() && k != i ==> cs2[k]@ == (if k < j {
                    cs[k]@
                } else {
                    cs[k + 1]@
                })
        }
}

/// `out` is a possible result of running the clustering loop on `cs` with
/// the given target: a chain of merge steps taken while more than `target`
/// clusters remain and at least two exist, ending as soon as neither holds.
pub open spec fn clustering_runs(cs: Seq<Cluster>, target: int, out: Seq<Cluster>) -> bool
    decreases cs.len(),
{
    if cs.len() <= target || cs.len() < 2 {
        out == cs
    } else {
        exists|cs2: Seq<Cluster>|
            cs2.len() == cs.len() - 1 && #[trigger] is_merge_step(cs, cs2) && clustering_runs(
                cs2,
                target,
                out,
            )
    }
}

/// Removing the cluster at a valid index splits the partition's point
/// multiset into the removed cluster's points and the points of the rest.
pub proof fn lemma_points_of_remove(cs: Seq<Cluster>, i: int)
    requires
        0 <= i < cs.len(),
    ensures
        points_of(cs) == points_of(cs.remove(i)).add(cs[i]@.to_multiset()),
    decreases cs.len(),
{
    broadcast use vstd::multiset::group_multiset_axioms;

    if i == cs.len() - 1 {
        assert(cs.remove(i) =~= cs.drop_last());
    } else {
        lemma_points_of_remove(cs.drop_last(), i);
        assert(cs.remove(i).drop_last() =~= cs.drop_last().remove(i));
        assert(cs.remove(i).last() == cs.last());
        assert(points_of(cs) =~= points_of(cs.remove(i)).add(cs[i]@.to_multiset()));
    }
}

/// Delete the cluster at `idx`, shifting every later cluster down one
/// position so the sequence stays dense. Returns the new cluster count.
pub fn remove_cluster(clusters: &mut Vec<Cluster>, idx: usize) -> (n: usize)
    requires
        idx < old(clusters)@.len(),
    ensures
        final(clusters)@ == old(clusters)@.remove(idx as int),
        n == final(clusters)@.len(),
        n == old(clusters)@.len() - 1,
{
    clusters.remove(idx);
    clusters.len()
}

/// Overwrite the cluster at `idx` with a new cluster value, leaving every
/// other position unchanged.
pub fn replace_cluster(clusters: &mut Vec<Cluster>, idx: usize, c: Cluster)
    requires
        idx < old(clusters)@.len(),
    ensures
        final(clusters)@ == old(clusters)@.update(idx as int, c),
{
    let ghost csnap = c;
    clusters.remove(idx);
    clusters.insert(idx, c);
    proof {
        assert(clusters@ =~= old(clusters)@.update(idx as int, csnap));
    }
}

/// Scan all unordered cluster pairs in ascending lexicographic index order
/// and return the indices of the globally closest pair; on equal distances
/// the earlier-found pair (lowest `i`, then lowest `j`) is kept.
pub fn find_neighbors(clusters: &Vec<Cluster>) -> (r: (usize, usize))
    requires
        clusters@.len() >= 2,
        all_nonempty(clusters@),
    ensures
        r.0 < r.1 < clusters@.len(),
        is_nearest_pair(clusters@, r.0 as int, r.1 as int),
{
    let n = clusters.len();
    let mut best_i: usize = 0;
    let mut best_j: usize = 1;
    let mut best_d: i128 = cluster_distance(&clusters[0], &clusters[1]);
    let mut i: usize = 0;
    while i < n
        invariant
            n == clusters@.len(),
            n >= 2,
            all_nonempty(clusters@),
            0 <= i <= n,
            best_i < best_j < n,
            best_d == pair_dist(clusters@, best_i as int, best_j as int),
            best_i < i || (best_i == 0 && best_j == 1),
            forall|p: int, q: int|
                0 <= p < q < n && p < i ==> best_d <= #[trigger] pair_dist(clusters@, p, q),
            forall|p: int, q: int|
                0 <= p < q < n && p < i && #[trigger] pair_dist(clusters@, p, q) == best_d
                    ==> pair_le(best_i as int, best_j as int, p, q),
        decreases n - i,
    {
        let mut j: usize = i + 1;
        while j < n
            invariant
                n == clusters@.len(),
                n >= 2,
                all_nonempty(clusters@),
                0 <= i < n,
                i + 1 <= j <= n,
                best_i < best_j < n,
                best_d == pair_dist(clusters@, best_i as int, best_j as int),
                best_i < i || (best_i == i && best_j < j) || (best_i == 0 && best_j == 1),
                forall|p: int, q: int|
                    0 <= p < q < n && (p < i || (p == i && q < j)) ==> best_d
                        <= #[trigger] pair_dist(clusters@, p, q),
                forall|p: int, q: int|
                    0 <= p < q < n && (p < i || (p == i && q < j)) && #[trigger] pair_dist(
                        clusters@,
                        p,
                        q,
                    ) == best_d ==> pair_le(best_i as int, best_j as int, p, q),
            decreases n - j,
        {
            let d = cluster_distance(&clusters[i], &clusters[j]);
            if d < best_d {
                best_i = i;
                best_j = j;
                best_d = d;
            }
            j += 1;
        }
        i += 1;
    }
    (best_i, best_j)
}

/// One step of the clustering loop: find the nearest pair `(i, j)`, install
/// the merged cluster in place of `i`, and remove `j`. The cluster count
/// drops by exactly one, no point is created or destroyed, and every other
/// cluster keeps its contents and its relative order.
pub fn merge_nearest(clusters: &mut Vec<Cluster>) -> (r: (usize, usize))
    requires
        old(clusters)@.len() >= 2,
        all_nonempty(old(clusters)@),
    ensures
        r.0 < r.1 < old(clusters)@.len(),
        is_nearest_pair(old(clusters)@, r.0 as int, r.1 as int),
        final(clusters)@.len() == old(clusters)@.len() - 1,
        all_nonempty(final(clusters)@),
        points_of(final(clusters)@) == points_of(old(clusters)@),
        merged_cluster(
            old(clusters)@[r.0 as int]@,
            old(clusters)@[r.1 as int]@,
            final(clusters)@[r.0 as int]@,
        ),
        forall|k: int|
            0 <= k < final(clusters)@.len() && k != r.0 ==> final(clusters)@[k]@ == (if k
                < r.1 {
                old(clusters)@[k]@
            } else {
                old(clusters)@[k + 1]@
            }),
        is_merge_step(old(clusters)@, final(clusters)@),
{
    broadcast use vstd::multiset::group_multiset_axioms;

    let r = find_neighbors(clusters);
    let (i, j) = r;
    let m = merge_clusters(&clusters[i], &clusters[j]);
    let ghost cs0 = clusters@;
    let ghost msnap = m;
    replace_cluster(clusters, i, m);
    let ghost cs1 = clusters@;
    remove_cluster(clusters, j);
    proof {
        let cs2 = clusters@;
        assert(cs1 == cs0.update(i as int, msnap));
        assert(cs2 == cs1.remove(j as int));
        lemma_points_of_remove(cs0, i as int);
        lemma_points_of_remove(cs1, i as int);
        assert(cs1.remove(i as int) =~= cs0.remove(i as int));
        lemma_points_of_remove(cs1, j as int);
        assert(cs1[j as int] == cs0[j as int]);
        let a = cs0[i as int]@.to_multiset();
        let b = cs0[j as int]@.to_multiset();
        let rest = points_of(cs0.remove(i as int));
        assert(points_of(cs0) == rest.add(a));
        assert(points_of(cs1) == rest.add(msnap@.to_multiset()));
        assert(points_of(cs1) == points_of(cs2).add(b));
        assert(msnap@.to_multiset() == a.add(b));
        assert forall|x: Obj| #[trigger] points_of(cs2).count(x) == points_of(cs0).count(
            x,
        ) by {
            assert(points_of(cs0).count(x) == rest.count(x) + a.count(x));
            assert(points_of(cs1).count(x) == rest.count(x) + msnap@.to_multiset().count(x));
            assert(points_of(cs1).count(x) == points_of(cs2).count(x) + b.count(x));
            assert(msnap@.to_multiset().count(x) == a.count(x) + b.count(x));
        }
        assert(points_of(cs2) =~= points_of(cs0));
        assert(is_merge_step(cs0, cs2)) by {
            assert(is_nearest_pair(cs0, i as int, j as int));
            assert(cs2[i as int]@ == msnap@);
            assert(merged_cluster(cs0[i as int]@, cs0[j as int]@, cs2[i as int]@));
            assert(forall|k: int|
                0 <= k < cs2.len() && k != i ==> cs2[k]@ == (if k < j {
                    cs0[k]@
                } else {
                    cs0[k + 1]@
                }));
        }
    }
    r
}

/// Run the clustering loop: while more than `target` clusters remain and at
/// least two clusters exist, merge the nearest pair. If the partition
/// already has at most `target` clusters, nothing changes; otherwise the
/// loop ends with exactly `target` clusters, or with a single cluster when
/// `target` is zero. The points of the partition are conserved throughout.
pub fn cluster_until(clusters: &mut Vec<Cluster>, target: usize)
    requires
        all_nonempty(old(clusters)@),
    ensures
        clustering_runs(old(clusters)@, target as int, final(clusters)@),
        points_of(final(clusters)@) == points_of(old(clusters)@),
        all_nonempty(final(clusters)@),
        old(clusters)@.len() <= target ==> final(clusters)@ == old(clusters)@,
        old(clusters)@.len() > target ==> final(clusters)@.len() == (if target >= 1 {
            target as int
        } else {
            1
        }),
{
    while clusters.len() > target && clusters.len() >= 2
        invariant
            all_nonempty(clusters@),
            points_of(clusters@) == points_of(old(clusters)@),
            old(clusters)@.len() <= target ==> clusters@ == old(clusters)@,
            old(clusters)@.len() > target ==> clusters@.len() >= target && clusters@.len() >= 1,
            forall|out: Seq<Cluster>|
                #[trigger] clustering_runs(clusters@, target as int, out) ==> clustering_runs(
                    old(clusters)@,
                    target as int,
                    out,
                ),
        decreases clusters.len(),
    {
        let ghost before = clusters@;
        merge_nearest(clusters);
        proof {
            assert forall|out: Seq<Cluster>|
                #[trigger] clustering_runs(clusters@, target as int, out) implies clustering_runs(
                old(clusters)@,
                target as int,
                out,
            ) by {
                assert(is_merge_step(before, clusters@));
                assert(clustering_runs(before, target as int, out));
            }
        }
    }
    proof {
        assert(clustering_runs(clusters@, target as int, clusters@));
    }
}

} // verus!
