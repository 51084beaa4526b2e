use ray_tracer::tree::build_bvh;
use ray_tracer::tree::build_octree;
use ray_tracer::tree::nearest_linear;
use ray_tracer::tree::BvhNode;
use ray_tracer::tree::OctNode;

fn leaves(node: &BvhNode, out: &mut Vec<Option<usize>>) {
    match node {
        BvhNode::Leaf(a) => out.push(*a),
        BvhNode::Split(l, r) => {
            leaves(l, out);
            leaves(r, out);
        }
    }
}

#[test]
fn bvh_of_nothing_is_an_empty_leaf() {
    let node = build_bvh(&vec![], &|_: &Vec<usize>| 0usize, &|_: usize, a: usize, b: usize| a < b);
    assert!(matches!(node, BvhNode::Leaf(None)));
}

#[test]
fn bvh_of_one_actor_is_a_leaf() {
    let node = build_bvh(&vec![7], &|_: &Vec<usize>| 0usize, &|_: usize, a: usize, b: usize| a < b);
    assert!(matches!(node, BvhNode::Leaf(Some(7))));
}

#[test]
fn bvh_sorts_along_axis_and_splits_at_median() {
    // centroid of actor i on axis 0 is keys[i]
    let keys = [5.0f64, 1.0, 4.0, 2.0, 3.0];
    let actors: Vec<usize> = (0..5).collect();
    let node = build_bvh(
        &actors,
        &|_: &Vec<usize>| 0usize,
        &|_: usize, a: usize, b: usize| keys[a] < keys[b],
    );
    let mut out = Vec::new();
    leaves(&node, &mut out);
    assert_eq!(out, vec![Some(1), Some(3), Some(4), Some(2), Some(0)]);
    match &node {
        BvhNode::Split(l, r) => {
            let (mut a, mut b) = (Vec::new(), Vec::new());
            leaves(l, &mut a);
            leaves(r, &mut b);
            assert_eq!(a, vec![Some(1), Some(3)]);
            assert_eq!(b, vec![Some(4), Some(2), Some(0)]);
        }
        BvhNode::Leaf(_) => panic!("expected a split"),
    }
}

#[test]
fn bvh_keeps_every_actor_whatever_the_order() {
    let actors: Vec<usize> = vec![3, 3, 9, 0, 4, 4, 4, 1];
    let node = build_bvh(&actors, &|v: &Vec<usize>| v.len() % 3, &|_: usize, _: usize, _: usize| true);
    let mut out: Vec<usize> = Vec::new();
    let mut raw = Vec::new();
    leaves(&node, &mut raw);
    for a in raw {
        out.push(a.expect("no empty leaf under a non-empty tree"));
    }
    out.sort();
    let mut expected = actors.clone();
    expected.sort();
    assert_eq!(out, expected);
}

fn all_held(nodes: &[OctNode]) -> Vec<usize> {
    let mut v: Vec<usize> = nodes.iter().flat_map(|n| n.actors.iter().copied()).collect();
    v.sort();
    v
}

#[test]
fn octree_single_actor_is_a_leaf() {
    let mut nodes = Vec::new();
    let root = build_octree(&mut nodes, vec![], vec![4], 3, &|_: &Vec<u8>, _: usize| 0u8);
    assert_eq!(root, 0);
    assert_eq!(nodes.len(), 1);
    assert_eq!(nodes[0].actors, vec![4]);
    assert!(nodes[0].children.is_empty());
}

#[test]
fn octree_depth_zero_keeps_all_at_root() {
    let mut nodes = Vec::new();
    let root = build_octree(&mut nodes, vec![], vec![0, 1, 2], 0, &|_: &Vec<u8>, a: usize| a as u8);
    assert_eq!(nodes.len(), 1);
    assert_eq!(nodes[root].actors, vec![0, 1, 2]);
}

#[test]
fn octree_places_actors_in_octants_or_keeps_them() {
    // actor 0 fits in no octant; actors 1 and 2 in octant 3; actor 3 in octant 5
    let mut nodes = Vec::new();
    let octant = |path: &Vec<u8>, a: usize| -> u8 {
        if !path.is_empty() {
            return 255;
        }
        match a {
            0 => 255,
            1 | 2 => 3,
            _ => 5,
        }
    };
    let root = build_octree(&mut nodes, vec![], vec![0, 1, 2, 3], 4, &octant);
    assert_eq!(root, nodes.len() - 1);
    let r = &nodes[root];
    assert!(r.path.is_empty());
    assert_eq!(r.actors, vec![0]);
    assert_eq!(r.children.len(), 2);
    let c3 = &nodes[r.children[0]];
    assert_eq!(c3.path, vec![3]);
    assert_eq!(c3.actors, vec![1, 2]);
    let c5 = &nodes[r.children[1]];
    assert_eq!(c5.path, vec![5]);
    assert_eq!(c5.actors, vec![3]);
    assert_eq!(all_held(&nodes), vec![0, 1, 2, 3]);
}

#[test]
fn octree_stops_at_max_depth() {
    let mut nodes = Vec::new();
    let root = build_octree(&mut nodes, vec![], vec![1, 2, 3], 2, &|_: &Vec<u8>, _: usize| 6u8);
    assert!(nodes.iter().all(|n| n.path.len() <= 2));
    assert_eq!(nodes.len(), 3);
    assert_eq!(nodes[0].path, vec![6, 6]);
    assert_eq!(nodes[0].actors, vec![1, 2, 3]);
    assert!(nodes[root].actors.is_empty());
    assert_eq!(all_held(&nodes), vec![1, 2, 3]);
}

fn hit_nearer(ts: &[Option<f64>]) -> impl Fn(usize, Option<f64>) -> Option<f64> + '_ {
    move |i, best| match (ts[i], best) {
        (Some(t), Some(b)) if t < b => Some(t),
        (Some(_), Some(_)) => None,
        (t, None) => t,
        (None, _) => None,
    }
}

#[test]
fn linear_scan_finds_nearest_hit() {
    let ts = [Some(4.0), None, Some(2.5), Some(3.0), Some(2.5), None];
    assert_eq!(nearest_linear(ts.len(), &hit_nearer(&ts)), Some((2, 2.5)));
}

#[test]
fn linear_scan_with_no_hit_is_none() {
    let ts = [None, None, None];
    assert_eq!(nearest_linear(ts.len(), &hit_nearer(&ts)), None);
    assert_eq!(nearest_linear(0, &hit_nearer(&ts)), None);
}

#[test]
fn linear_scan_passes_best_so_far() {
    let ts = [Some(9.0), Some(7.0), Some(8.0), Some(1.0)];
    assert_eq!(nearest_linear(ts.len(), &hit_nearer(&ts)), Some((3, 1.0)));
}
