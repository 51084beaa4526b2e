use ray_tracer::actor::Actor;
use ray_tracer::scene::Scene;
use ray_tracer::scene::SpatialIndex;
use ray_tracer::scene::TreeType;
use ray_tracer::tree::BvhNode;

fn count_leaves(node: &BvhNode, out: &mut Vec<usize>) {
    match node {
        BvhNode::Leaf(Some(a)) => out.push(*a),
        BvhNode::Leaf(None) => {}
        BvhNode::Split(l, r) => {
            count_leaves(l, out);
            count_leaves(r, out);
        }
    }
}

fn axis(_: &Vec<usize>) -> usize {
    0
}

fn by_index(_: usize, a: usize, b: usize) -> bool {
    a > b
}

fn keep(_: &Vec<u8>, a: usize) -> u8 {
    (a % 3) as u8
}

#[test]
fn scene_keeps_actors_in_order_and_tracks_staleness() {
    let mut scene: Scene<u8, char, [u8; 3]> = Scene::new([0, 0, 255]);
    assert_eq!(scene.tree_type(), TreeType::Linear);
    assert!(scene.tree_stale());
    scene.build_tree(&axis, &by_index, &keep, 3);
    assert!(!scene.tree_stale());
    assert!(matches!(scene.index(), SpatialIndex::Linear));
    scene.add_actor(Actor { hitable: 1, material: 'a' });
    assert!(scene.tree_stale());
    scene.add_actor(Actor { hitable: 2, material: 'b' });
    let actors = scene.actors();
    assert_eq!(actors.len(), 2);
    assert_eq!(actors[0].hitable, 1);
    assert_eq!(actors[1].material, 'b');
    scene.build_tree(&axis, &by_index, &keep, 3);
    scene.set_tree_type(TreeType::Oct);
    assert_eq!(scene.tree_type(), TreeType::Oct);
    assert!(scene.tree_stale());
    scene.set_background([1, 2, 3]);
    assert_eq!(scene.background(), [1, 2, 3]);
    assert_eq!(scene.actors().len(), 2);
}

#[test]
fn scene_builds_hierarchy_over_every_actor() {
    let mut scene: Scene<u8, u8, u8> = Scene::new(0);
    for k in 0..5u8 {
        scene.add_actor(Actor { hitable: k, material: k });
    }
    scene.set_tree_type(TreeType::Binary);
    scene.build_tree(&axis, &by_index, &keep, 3);
    match scene.index() {
        SpatialIndex::Binary(root) => {
            let mut got = Vec::new();
            count_leaves(root, &mut got);
            assert_eq!(got, vec![4, 3, 2, 1, 0]);
        }
        _ => panic!("expected a hierarchy"),
    }
}

#[test]
fn scene_builds_octree_over_every_actor() {
    let mut scene: Scene<u8, u8, u8> = Scene::new(0);
    for k in 0..7u8 {
        scene.add_actor(Actor { hitable: k, material: k });
    }
    scene.set_tree_type(TreeType::Oct);
    scene.build_tree(&axis, &by_index, &keep, 2);
    match scene.index() {
        SpatialIndex::Oct(nodes) => {
            let mut got: Vec<usize> = nodes.iter().flat_map(|n| n.actors.iter().copied()).collect();
            got.sort();
            assert_eq!(got, (0..7).collect::<Vec<usize>>());
            assert!(nodes.iter().all(|n| n.path.len() <= 2));
            assert!(nodes.last().unwrap().path.is_empty());
        }
        _ => panic!("expected an octree"),
    }
}

#[test]
fn rebuilding_a_fresh_index_changes_nothing() {
    let mut scene: Scene<u8, u8, u8> = Scene::new(0);
    scene.add_actor(Actor { hitable: 0, material: 0 });
    scene.add_actor(Actor { hitable: 1, material: 1 });
    scene.set_tree_type(TreeType::Binary);
    scene.build_tree(&axis, &by_index, &keep, 3);
    scene.build_tree(&axis, &|_: usize, a: usize, b: usize| a < b, &keep, 3);
    match scene.index() {
        SpatialIndex::Binary(root) => {
            let mut got = Vec::new();
            count_leaves(root, &mut got);
            assert_eq!(got, vec![1, 0]);
        }
        _ => panic!("expected a hierarchy"),
    }
}
