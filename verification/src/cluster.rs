//! Clusters of points, the single-linkage cluster distance, and the merge
//! operation.

use vstd::prelude::*;
use crate::point::{Obj, dist_sq, lemma_dist_sq_symmetric};

verus! {

/// A cluster owns an ordered, growable sequence of points. During the
/// clustering loop every cluster is non-empty; an empty cluster exists only
/// transiently while one is being built up.
#[derive(Debug)]
pub struct Cluster {
    pub points: Vec<Obj>,
}

impl View for Cluster {
    type V = Seq<Obj>;

    open spec fn view(&self) -> Seq<Obj> {
        self.points@
    }
}

/// Minimum squared distance from a point to any point of a non-empty
/// sequence.
pub open spec fn min_dist_to(o: Obj, pts: Seq<Obj>) -> int
    decreases pts.len(),
{
    if pts.len() <= 1 {
        dist_sq(o, pts[0])
    } else {
        let rest = min_dist_to(o, pts.drop_first());
        if dist_sq(o, pts[0]) <= rest {
            dist_sq(o, pts[0])
        } else {
            rest
        }
    }
}

/// Single-linkage distance between two non-empty clusters: the minimum
/// squared point distance over all pairs drawn from `c1 x c2`.
pub open spec fn cluster_dist_sq(c1: Seq<Obj>, c2: Seq<Obj>) -> int
    decreases c1.len(),
{
    if c1.len() <= 1 {
        min_dist_to(c1[0], c2)
    } else {
        let rest = cluster_dist_sq(c1.drop_first(), c2);
        if min_dist_to(c1[0], c2) <= rest {
            min_dist_to(c1[0], c2)
        } else {
            rest
        }
    }
}

/// `min_dist_to` is a lower bound on the distance to every point of the
/// sequence, and is attained by some point of it.
pub proof fn lemma_min_dist_to_properties(o: Obj, pts: Seq<Obj>)
    requires
        pts.len() > 0,
    ensures
        forall|j: int| 0 <= j < pts.len() ==> min_dist_to(o, pts) <= #[trigger] dist_sq(o, pts[j]),
        exists|j: int| 0 <= j < pts.len() && min_dist_to(o, pts) == #[trigger] dist_sq(o, pts[j]),
    decreases pts.len(),
{
    if pts.len() == 1 {
        assert(min_dist_to(o, pts) == dist_sq(o, pts[0]));
    } else {
        let rest = pts.drop_first();
        lemma_min_dist_to_properties(o, rest);
        assert(forall|j: int| 1 <= j < pts.len() ==> pts[j] == rest[j - 1]);
        let w = choose|j: int| 0 <= j < rest.len() && min_dist_to(o, rest) == #[trigger] dist_sq(o, rest[j]);
        if dist_sq(o, pts[0]) <= min_dist_to(o, rest) {
            assert(min_dist_to(o, pts) == dist_sq(o, pts[0]));
        } else {
            assert(min_dist_to(o, pts) == dist_sq(o, pts[w + 1]));
        }
    }
}

/// `cluster_dist_sq` is a lower bound on the distance of every point pair
/// drawn from the two clusters, and is attained by some such pair.
pub proof fn lemma_cluster_dist_sq_properties(c1: Seq<Obj>, c2: Seq<Obj>)
    requires
        c1.len() > 0,
        c2.len() > 0,
    ensures
        forall|i: int, j: int|
            0 <= i < c1.len() && 0 <= j < c2.len() ==> cluster_dist_sq(c1, c2) <= #[trigger] dist_sq(
                c1[i],
                c2[j],
            ),
        exists|i: int, j: int|
            0 <= i < c1.len() && 0 <= j < c2.len() && cluster_dist_sq(c1, c2) == #[trigger] dist_sq(
                c1[i],
                c2[j],
            ),
    decreases c1.len(),
{
    lemma_min_dist_to_properties(c1[0], c2);
    let w0 = choose|j: int| 0 <= j < c2.len() && min_dist_to(c1[0], c2) == #[trigger] dist_sq(c1[0], c2[j]);
    if c1.len() == 1 {
        assert(cluster_dist_sq(c1, c2) == dist_sq(c1[0], c2[w0]));
    } else {
        let rest = c1.drop_first();
        lemma_cluster_dist_sq_properties(rest, c2);
        assert(forall|i: int| 1 <= i < c1.len() ==> c1[i] == rest[i - 1]);
        let (wi, wj): (int, int) = choose|i: int, j: int|
            0 <= i < rest.len() && 0 <= j < c2.len() && cluster_dist_sq(rest, c2) == #[trigger] dist_sq(
                rest[i],
                c2[j],
            );
        if min_dist_to(c1[0], c2) <= cluster_dist_sq(rest, c2) {
            assert(cluster_dist_sq(c1, c2) == dist_sq(c1[0], c2[w0]));
        } else {
            assert(cluster_dist_sq(c1, c2) == dist_sq(c1[wi + 1], c2[wj]));
        }
    }
}

/// The single-linkage distance is symmetric: swapping the two clusters
/// leaves it unchanged.
pub proof fn lemma_cluster_distance_symmetric(c1: Seq<Obj>, c2: Seq<Obj>)
    requires
        c1.len() > 0,
        c2.len() > 0,
    ensures
        cluster_dist_sq(c1, c2) == cluster_dist_sq(c2, c1),
{
    lemma_cluster_dist_sq_properties(c1, c2);
    lemma_cluster_dist_sq_properties(c2, c1);
    let (i1, j1): (int, int) = choose|i: int, j: int|
        0 <= i < c1.len() && 0 <= j < c2.len() && cluster_dist_sq(c1, c2) == #[trigger] dist_sq(
            c1[i],
            c2[j],
        );
    let (i2, j2): (int, int) = choose|i: int, j: int|
        0 <= i < c2.len() && 0 <= j < c1.len() && cluster_dist_sq(c2, c1) == #[trigger] dist_sq(
            c2[i],
            c1[j],
        );
    lemma_dist_sq_symmetric(c1[i1], c2[j1]);
    lemma_dist_sq_symmetric(c2[i2], c1[j2]);
    assert(cluster_dist_sq(c2, c1) <= dist_sq(c2[j1], c1[i1]));
    assert(cluster_dist_sq(c1, c2) <= dist_sq(c1[j2], c2[i2]));
}

/// Single-linkage distance between two non-empty clusters, computed by a
/// brute-force scan over all point pairs.
pub fn cluster_distance(c1: &Cluster, c2: &Cluster) -> (d: i128)
    requires
        c1@.len() > 0,
        c2@.len() > 0,
    ensures
        d == cluster_dist_sq(c1@, c2@),
{
    let mut best: i128 = crate::point::obj_distance(&c1.points[0], &c2.points[0]);
    let n1 = c1.points.len();
    let n2 = c2.points.len();
    let mut i: usize = 0;
    while i < n1
        invariant
            n1 == c1@.len(),
            n2 == c2@.len(),
            n1 > 0,
            n2 > 0,
            0 <= i <= n1,
            forall|p: int, q: int|
                0 <= p < i && 0 <= q < n2 ==> best <= #[trigger] dist_sq(c1@[p], c2@[q]),
            exists|p: int, q: int|
                0 <= p < n1 && 0 <= q < n2 && best == #[trigger] dist_sq(c1@[p], c2@[q]),
        decreases n1 - i,
    {
        let mut j: usize = 0;
        while j < n2
            invariant
                n1 == c1@.len(),
                n2 == c2@.len(),
                n1 > 0,
                n2 > 0,
                0 <= i < n1,
                0 <= j <= n2,
                forall|p: int, q: int|
                    0 <= p < i && 0 <= q < n2 ==> best <= #[trigger] dist_sq(c1@[p], c2@[q]),
                forall|q: int| 0 <= q < j ==> best <= #[trigger] dist_sq(c1@[i as int], c2@[q]),
                exists|p: int, q: int|
                    0 <= p < n1 && 0 <= q < n2 && best == #[trigger] dist_sq(c1@[p], c2@[q]),
            decreases n2 - j,
        {
            let d = crate::point::obj_distance(&c1.points[i], &c2.points[j]);
            if d < best {
                best = d;
            }
            j += 1;
        }
        i += 1;
    }
    proof {
        lemma_cluster_dist_sq_properties(c1@, c2@);
        let (wi, wj): (int, int) = choose|p: int, q: int|
            0 <= p < c1@.len() && 0 <= q < c2@.len() && best == #[trigger] dist_sq(c1@[p], c2@[q]);
        let (si, sj): (int, int) = choose|p: int, q: int|
            0 <= p < c1@.len() && 0 <= q < c2@.len() && cluster_dist_sq(c1@, c2@)
                == #[trigger] dist_sq(c1@[p], c2@[q]);
        assert(best <= dist_sq(c1@[si], c2@[sj]));
        assert(cluster_dist_sq(c1@, c2@) <= dist_sq(c1@[wi], c2@[wj]));
    }
    best
}

/// The points of a sequence are in non-decreasing order of identifier.
pub open spec fn sorted_by_id(s: Seq<Obj>) -> bool {
    forall|p: int, q: int| 0 <= p < q < s.len() ==> #[trigger] s[p].id <= #[trigger] s[q].id
}

/// Sort a point sequence in place, ascending by identifier, by insertion
/// sort. The content is preserved as a multiset.
fn sort_points(pts: &mut Vec<Obj>)
    ensures
        final(pts)@.len() == old(pts)@.len(),
        final(pts)@.to_multiset() == old(pts)@.to_multiset(),
        sorted_by_id(final(pts)@),
{
    broadcast use vstd::seq_lib::group_to_multiset_ensures;

    let n = pts.len();
    if n <= 1 {
        return ;
    }
    let mut i: usize = 1;
    while i < n
        invariant
            n == pts@.len(),
            pts@.to_multiset() == old(pts)@.to_multiset(),
            1 <= i <= n,
            sorted_by_id(pts@.subrange(0, i as int)),
        decreases n - i,
    {
        let ghost before = pts@;
        let x = pts.remove(i);
        let mut j: usize = i;
        while j > 0 && pts[j - 1].id > x.id
            invariant
                pts@ == before.remove(i as int),
                1 <= i < n,
                n == before.len(),
                x == before[i as int],
                0 <= j <= i,
                forall|q: int| j <= q < i ==> x.id < #[trigger] pts@[q].id,
            decreases j,
        {
            j -= 1;
        }
        proof {
            broadcast use vstd::multiset::group_multiset_axioms;

            vstd::seq_lib::to_multiset_insert(pts@, j as int, x);
            vstd::seq_lib::to_multiset_remove(before, i as int);
            vstd::seq_lib::to_multiset_contains(before, x);
            assert(before.contains(x)) by {
                assert(before[i as int] == x);
            }
            assert(before.to_multiset().remove(x).insert(x) =~= before.to_multiset());
        }
        pts.insert(j, x);
        proof {
            let now = pts@;
            assert forall|p: int, q: int| 0 <= p < q < i + 1 implies #[trigger] now[p].id
                <= #[trigger] now[q].id by {
                assert(forall|k: int| 0 <= k < j ==> now[k] == before[k]);
                assert(now[j as int] == x);
                assert(forall|k: int| j < k <= i ==> now[k] == before[k - 1]);
                assert(sorted_by_id(before.subrange(0, i as int)));
                assert(forall|k: int| 0 <= k < i ==> before.subrange(0, i as int)[k] == before[k]);
                if j > 0 {
                    assert(before[j - 1].id <= x.id);
                }
                assert(forall|k: int| j <= k < i ==> x.id < #[trigger] before[k].id) by {
                    assert(forall|q: int| j <= q < i ==> before.remove(i as int)[q] == before[q]);
                }
            }
            assert(sorted_by_id(pts@.subrange(0, i as int + 1))) by {
                assert(forall|k: int| 0 <= k <= i ==> pts@.subrange(0, i as int + 1)[k] == pts@[k]);
            }
        }
        i += 1;
    }
    proof {
        assert(pts@.subrange(0, n as int) =~= pts@);
    }
}

/// Merge two clusters: concatenate their point sequences and sort the
/// result ascending by point identifier. Returns a new cluster; the inputs
/// are not changed. Points that share an identifier keep their relative
/// order (the sort is stable in effect: existing order is only disturbed by
/// strictly smaller identifiers).
pub fn merge_clusters(c1: &Cluster, c2: &Cluster) -> (m: Cluster)
    ensures
        m@.len() == c1@.len() + c2@.len(),
        m@.to_multiset() == c1@.to_multiset().add(c2@.to_multiset()),
        sorted_by_id(m@),
{
    broadcast use vstd::seq_lib::group_to_multiset_ensures;

    let mut pts: Vec<Obj> = Vec::new();
    let n1 = c1.points.len();
    let n2 = c2.points.len();
    let mut i: usize = 0;
    while i < n1
        invariant
            n1 == c1@.len(),
            0 <= i <= n1,
            pts@ == c1@.subrange(0, i as int),
        decreases n1 - i,
    {
        pts.push(c1.points[i]);
        proof {
            assert(pts@ =~= c1@.subrange(0, i + 1));
        }
        i += 1;
    }
    proof {
        assert(pts@ =~= c1@);
    }
    let mut j: usize = 0;
    while j < n2
        invariant
            n2 == c2@.len(),
            0 <= j <= n2,
            pts@ == c1@ + c2@.subrange(0, j as int),
        decreases n2 - j,
    {
        pts.push(c2.points[j]);
        proof {
            assert(pts@ =~= c1@ + c2@.subrange(0, j + 1));
        }
        j += 1;
    }
    proof {
        assert(pts@ =~= c1@ + c2@);
        vstd::seq_lib::lemma_multiset_commutative(c1@, c2@);
    }
    sort_points(&mut pts);
    Cluster { points: pts }
}

/// A new, empty cluster, ready to have points appended.
pub fn init_cluster() -> (c: Cluster)
    ensures
        c@.len() == 0,
{
    Cluster { points: Vec::new() }
}

/// Remove every point from a cluster.
pub fn clear_cluster(c: &mut Cluster)
    ensures
        final(c)@.len() == 0,
{
    c.points.clear();
}

/// Append one point at the end of a cluster.
pub fn append_cluster(c: &mut Cluster, obj: Obj)
    ensures
        final(c)@ == old(c)@.push(obj),
{
    c.points.push(obj);
}

} // verus!
