use polotovar::cluster::{
    append_cluster, clear_cluster, cluster_distance, init_cluster, merge_clusters, Cluster,
};
use polotovar::partition::{
    cluster_until, find_neighbors, merge_nearest, remove_cluster, replace_cluster,
};
use polotovar::point::{obj_distance, Obj};

fn singleton(id: i32, x: i32, y: i32) -> Cluster {
    let mut c = init_cluster();
    append_cluster(&mut c, Obj { id, x, y });
    c
}

fn ids(c: &Cluster) -> Vec<i32> {
    let mut v: Vec<i32> = Vec::new();
    let mut i = 0;
    while i < c.points.len() {
        v.push(c.points[i].id);
        i += 1;
    }
    v
}

fn total_points(cs: &Vec<Cluster>) -> usize {
    let mut n = 0;
    for c in cs {
        n += c.points.len();
    }
    n
}

#[test]
fn obj_distance_exact() {
    let a = Obj { id: 1, x: 0, y: 0 };
    let b = Obj { id: 2, x: 3, y: 4 };
    assert_eq!(obj_distance(&a, &b), 25);
    assert_eq!(obj_distance(&b, &a), 25);
    assert_eq!(obj_distance(&a, &a), 0);
}

#[test]
fn obj_distance_negative_coordinates() {
    let a = Obj { id: 1, x: -2, y: -3 };
    let b = Obj { id: 2, x: 1, y: 1 };
    assert_eq!(obj_distance(&a, &b), 9 + 16);
}

#[test]
fn obj_distance_extreme_coordinates() {
    let a = Obj { id: 1, x: i32::MIN, y: i32::MIN };
    let b = Obj { id: 2, x: i32::MAX, y: i32::MAX };
    let span = (i32::MAX as i128) - (i32::MIN as i128);
    assert_eq!(obj_distance(&a, &b), 2 * span * span);
}

#[test]
fn cluster_distance_single_linkage() {
    // Minimum over all point pairs, not the distance of the first pair.
    let mut c1 = init_cluster();
    append_cluster(&mut c1, Obj { id: 1, x: 0, y: 0 });
    append_cluster(&mut c1, Obj { id: 2, x: 5, y: 0 });
    let mut c2 = init_cluster();
    append_cluster(&mut c2, Obj { id: 3, x: 100, y: 0 });
    append_cluster(&mut c2, Obj { id: 4, x: 6, y: 0 });
    assert_eq!(cluster_distance(&c1, &c2), 1);
}

#[test]
fn cluster_distance_symmetric() {
    let mut c1 = init_cluster();
    append_cluster(&mut c1, Obj { id: 1, x: 0, y: 0 });
    append_cluster(&mut c1, Obj { id: 2, x: 3, y: 1 });
    let mut c2 = init_cluster();
    append_cluster(&mut c2, Obj { id: 3, x: 7, y: -2 });
    append_cluster(&mut c2, Obj { id: 4, x: -1, y: 4 });
    assert_eq!(cluster_distance(&c1, &c2), cluster_distance(&c2, &c1));
}

#[test]
fn merge_sorts_by_id() {
    let mut c1 = init_cluster();
    append_cluster(&mut c1, Obj { id: 7, x: 0, y: 0 });
    append_cluster(&mut c1, Obj { id: 2, x: 1, y: 0 });
    let mut c2 = init_cluster();
    append_cluster(&mut c2, Obj { id: 5, x: 2, y: 0 });
    append_cluster(&mut c2, Obj { id: 1, x: 3, y: 0 });
    let m = merge_clusters(&c1, &c2);
    assert_eq!(ids(&m), vec![1, 2, 5, 7]);
}

#[test]
fn merge_keeps_equal_ids() {
    // Points sharing an identifier all survive the merge; order among them
    // follows the concatenated input order.
    let mut c1 = init_cluster();
    append_cluster(&mut c1, Obj { id: 3, x: 0, y: 0 });
    append_cluster(&mut c1, Obj { id: 3, x: 1, y: 0 });
    let mut c2 = init_cluster();
    append_cluster(&mut c2, Obj { id: 3, x: 2, y: 0 });
    append_cluster(&mut c2, Obj { id: 1, x: 3, y: 0 });
    let m = merge_clusters(&c1, &c2);
    assert_eq!(ids(&m), vec![1, 3, 3, 3]);
    let xs: Vec<i32> = m.points.iter().map(|p| p.x).collect();
    assert_eq!(xs, vec![3, 0, 1, 2]);
}

#[test]
fn init_append_clear() {
    let mut c = init_cluster();
    assert_eq!(c.points.len(), 0);
    append_cluster(&mut c, Obj { id: 9, x: 4, y: 5 });
    assert_eq!(c.points.len(), 1);
    assert_eq!(c.points[0], Obj { id: 9, x: 4, y: 5 });
    clear_cluster(&mut c);
    assert_eq!(c.points.len(), 0);
}

#[test]
fn remove_cluster_compacts() {
    let mut cs = vec![singleton(1, 0, 0), singleton(2, 1, 0), singleton(3, 2, 0)];
    let n = remove_cluster(&mut cs, 1);
    assert_eq!(n, 2);
    assert_eq!(cs.len(), 2);
    assert_eq!(cs[0].points[0].id, 1);
    assert_eq!(cs[1].points[0].id, 3);
}

#[test]
fn replace_cluster_overwrites_in_place() {
    let mut cs = vec![singleton(1, 0, 0), singleton(2, 1, 0)];
    replace_cluster(&mut cs, 0, singleton(8, 9, 9));
    assert_eq!(cs.len(), 2);
    assert_eq!(cs[0].points[0].id, 8);
    assert_eq!(cs[1].points[0].id, 2);
}

#[test]
fn find_neighbors_global_minimum() {
    let cs = vec![
        singleton(1, 0, 0),
        singleton(2, 50, 50),
        singleton(3, 51, 50),
        singleton(4, 100, 0),
    ];
    assert_eq!(find_neighbors(&cs), (1, 2));
}

#[test]
fn find_neighbors_tie_keeps_earliest_pair() {
    // The pairs (0, 1) and (2, 3) are both at squared distance 1; the scan
    // in ascending lexicographic order keeps (0, 1).
    let cs = vec![
        singleton(1, 0, 0),
        singleton(2, 1, 0),
        singleton(3, 10, 10),
        singleton(4, 11, 10),
    ];
    assert_eq!(find_neighbors(&cs), (0, 1));
}

#[test]
fn merge_nearest_shrinks_by_one() {
    let mut cs = vec![
        singleton(1, 0, 0),
        singleton(2, 1, 0),
        singleton(3, 10, 10),
    ];
    let before = total_points(&cs);
    let (i, j) = merge_nearest(&mut cs);
    assert_eq!((i, j), (0, 1));
    assert_eq!(cs.len(), 2);
    assert_eq!(total_points(&cs), before);
    assert_eq!(ids(&cs[0]), vec![1, 2]);
    assert_eq!(ids(&cs[1]), vec![3]);
}

#[test]
fn end_to_end_example() {
    // Four singletons 1(0,0) 2(1,0) 3(10,10) 4(11,10), target 2: the first
    // iteration merges the clusters of points 1 and 2, the second those of
    // points 3 and 4, each pair at the global minimum distance.
    let mut cs = vec![
        singleton(1, 0, 0),
        singleton(2, 1, 0),
        singleton(3, 10, 10),
        singleton(4, 11, 10),
    ];
    cluster_until(&mut cs, 2);
    assert_eq!(cs.len(), 2);
    assert_eq!(ids(&cs[0]), vec![1, 2]);
    assert_eq!(ids(&cs[1]), vec![3, 4]);
    assert_eq!(cs[0].points[0], Obj { id: 1, x: 0, y: 0 });
    assert_eq!(cs[0].points[1], Obj { id: 2, x: 1, y: 0 });
    assert_eq!(cs[1].points[0], Obj { id: 3, x: 10, y: 10 });
    assert_eq!(cs[1].points[1], Obj { id: 4, x: 11, y: 10 });
}

#[test]
fn degenerate_single_point() {
    let mut cs = vec![singleton(42, 7, -7)];
    cluster_until(&mut cs, 1);
    assert_eq!(cs.len(), 1);
    assert_eq!(cs[0].points.len(), 1);
    assert_eq!(cs[0].points[0], Obj { id: 42, x: 7, y: -7 });
}

#[test]
fn target_at_least_count_changes_nothing() {
    let mut cs = vec![singleton(1, 0, 0), singleton(2, 1, 0)];
    cluster_until(&mut cs, 5);
    assert_eq!(cs.len(), 2);
    assert_eq!(ids(&cs[0]), vec![1]);
    assert_eq!(ids(&cs[1]), vec![2]);
}

#[test]
fn target_zero_ends_at_one_cluster() {
    let mut cs = vec![
        singleton(3, 0, 0),
        singleton(1, 4, 0),
        singleton(2, 8, 0),
    ];
    cluster_until(&mut cs, 0);
    assert_eq!(cs.len(), 1);
    assert_eq!(ids(&cs[0]), vec![1, 2, 3]);
    assert_eq!(total_points(&cs), 3);
}

#[test]
fn conservation_across_full_run() {
    let mut cs = vec![
        singleton(1, 0, 0),
        singleton(2, 3, 0),
        singleton(3, 0, 4),
        singleton(4, -5, -5),
        singleton(5, 2, 2),
    ];
    cluster_until(&mut cs, 2);
    assert_eq!(cs.len(), 2);
    assert_eq!(total_points(&cs), 5);
    let mut all_ids: Vec<i32> = Vec::new();
    for c in &cs {
        all_ids.extend(ids(c));
    }
    all_ids.sort();
    assert_eq!(all_ids, vec![1, 2, 3, 4, 5]);
}
