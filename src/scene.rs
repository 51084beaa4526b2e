use vstd::multiset::Multiset;
use vstd::prelude::*;

use crate::actor::Actor;
use crate::tree::BvhNode;
use crate::tree::OctNode;
use crate::tree::build_bvh;
use crate::tree::build_octree;
use crate::tree::held;
use crate::tree::leaf_actors;
use crate::tree::within_depth;

verus! {

/// The spatial index that answers a scene's nearest-hit queries.
#[derive(Clone, Copy, PartialEq, Eq, Structural, Debug)]
pub enum TreeType {
    /// Every actor is tested.
    Linear,
    /// A bounding-volume hierarchy split at the median.
    Binary,
    /// An octree over a bounding cube.
    Oct,
}

/// A built spatial index over actor indices. An octree's arena has its root
/// last.
pub enum SpatialIndex {
    Linear,
    Binary(BvhNode),
    Oct(Vec<OctNode>),
}

/// The actor indices `0..n`, each once.
pub open spec fn all_actors(n: nat) -> Multiset<usize> {
    Seq::new(n, |i: int| i as usize).to_multiset()
}

/// `all_actors(n)` holds each actor index below `n` once and no other.
pub proof fn lemma_all_actors_once(n: nat, a: usize)
    requires
        n <= usize::MAX,
    ensures
        all_actors(n).count(a) == if (a as nat) < n {
            1nat
        } else {
            0nat
        },
    decreases n,
{
    broadcast use vstd::seq_lib::group_to_multiset_ensures;
    broadcast use vstd::multiset::group_multiset_axioms;

    if n == 0 {
        assert(Seq::new(n, |i: int| i as usize) =~= Seq::<usize>::empty());
        Seq::<usize>::empty().to_multiset_ensures();
        assert(all_actors(n) =~= Multiset::empty());
    } else {
        let prev = Seq::new((n - 1) as nat, |i: int| i as usize);
        assert(Seq::new(n, |i: int| i as usize) =~= prev.push((n - 1) as usize));
        prev.to_multiset_ensures();
        lemma_all_actors_once((n - 1) as nat, a);
    }
}

/// `index` is of the kind `tree_type` names and holds each of the `n`
/// actors exactly once.
pub open spec fn index_fits(index: SpatialIndex, tree_type: TreeType, n: nat) -> bool {
    match index {
        SpatialIndex::Linear => tree_type == TreeType::Linear,
        SpatialIndex::Binary(root) => tree_type == TreeType::Binary && leaf_actors(root)
            == all_actors(n),
        SpatialIndex::Oct(nodes) => tree_type == TreeType::Oct && held(nodes@) == all_actors(n)
            && nodes@.len() > 0,
    }
}

/// Once built, an index of either kind holds each actor of the scene exactly
/// once, so no variant can lose an actor or report one twice.
pub proof fn lemma_index_holds_each_actor_once(
    index: SpatialIndex,
    tree_type: TreeType,
    n: nat,
    a: usize,
)
    requires
        index_fits(index, tree_type, n),
        n <= usize::MAX,
    ensures
        index matches SpatialIndex::Binary(root) ==> leaf_actors(root).count(a) == if (a as nat)
            < n {
            1nat
        } else {
            0nat
        },
        index matches SpatialIndex::Oct(nodes) ==> held(nodes@).count(a) == if (a as nat) < n {
            1nat
        } else {
            0nat
        },
{
    lemma_all_actors_once(n, a);
}

/// An octree index has no node deeper than `max_depth`.
pub open spec fn depth_bounded(index: SpatialIndex, max_depth: nat) -> bool {
    match index {
        SpatialIndex::Oct(nodes) => within_depth(nodes@, max_depth),
        _ => true,
    }
}

/// The actors of a scene in the order they were added, its background color
/// and the index it is queried through. The index is derived from the
/// actors: any change to them or to the index's kind marks it stale, and it
/// is rebuilt on demand.
pub struct Scene<H, M, C> {
    actors: Vec<Actor<H, M>>,
    background: C,
    tree_type: TreeType,
    tree_stale: bool,
    index: SpatialIndex,
}

pub struct SceneView<H, M, C> {
    pub actors: Seq<Actor<H, M>>,
    pub background: C,
    pub tree_type: TreeType,
    pub tree_stale: bool,
    pub index: SpatialIndex,
}

impl<H, M, C> View for Scene<H, M, C> {
    type V = SceneView<H, M, C>;

    closed spec fn view(&self) -> SceneView<H, M, C> {
        SceneView {
            actors: self.actors@,
            background: self.background,
            tree_type: self.tree_type,
            tree_stale: self.tree_stale,
            index: self.index,
        }
    }
}

impl<H, M, C: Copy> Scene<H, M, C> {
    /// A scene whose index is not stale has the selected kind of index over
    /// all its actors.
    pub open spec fn wf(&self) -> bool {
        !self@.tree_stale ==> index_fits(self@.index, self@.tree_type, self@.actors.len())
    }

    /// An empty scene with the given background, queried linearly.
    pub fn new(background: C) -> (r: Self)
        ensures
            r.wf(),
            r@.actors.len() == 0,
            r@.background == background,
            r@.tree_type == TreeType::Linear,
            r@.tree_stale,
    {
        Scene {
            actors: Vec::new(),
            background,
            tree_type: TreeType::Linear,
            tree_stale: true,
            index: SpatialIndex::Linear,
        }
    }

    pub fn add_actor(&mut self, actor: Actor<H, M>)
        ensures
            final(self).wf(),
            final(self)@.actors == old(self)@.actors.push(actor),
            final(self)@.background == old(self)@.background,
            final(self)@.tree_type == old(self)@.tree_type,
            final(self)@.tree_stale,
    {
        self.actors.push(actor);
        self.tree_stale = true;
    }

    pub fn set_background(&mut self, background: C)
        requires
            old(self).wf(),
        ensures
            final(self).wf(),
            final(self)@ == (SceneView { background, ..old(self)@ }),
    {
        self.background = background;
    }

    pub fn set_tree_type(&mut self, tree_type: TreeType)
        ensures
            final(self).wf(),
            final(self)@ == (SceneView { tree_type, tree_stale: true, ..old(self)@ }),
    {
        self.tree_type = tree_type;
        self.tree_stale = true;
    }

    /// Rebuilds the index from the current actors if it is stale. A
    /// hierarchy asks `axis_of` and `less` how to order a node's actors; an
    /// octree of at most `max_depth` levels asks `octant_of` which octant of a
    /// node's cube contains an actor.
    pub fn build_tree<
        A: Fn(&Vec<usize>) -> usize,
        L: Fn(usize, usize, usize) -> bool,
        O: Fn(&Vec<u8>, usize) -> u8,
    >(&mut self, axis_of: &A, less: &L, octant_of: &O, max_depth: usize)
        requires
            old(self).wf(),
            forall|v: &Vec<usize>| axis_of.requires((v,)),
            forall|x: usize, a: usize, b: usize| less.requires((x, a, b)),
            forall|p: &Vec<u8>, a: usize| octant_of.requires((p, a)),
        ensures
            final(self).wf(),
            !final(self)@.tree_stale,
            index_fits(final(self)@.index, final(self)@.tree_type, final(self)@.actors.len()),
            !old(self)@.tree_stale ==> final(self)@ == old(self)@,
            final(self)@.actors == old(self)@.actors,
            final(self)@.background == old(self)@.background,
            final(self)@.tree_type == old(self)@.tree_type,
            old(self)@.tree_stale ==> depth_bounded(final(self)@.index, max_depth as nat),
    {
        if !self.tree_stale {
            return ;
        }
        let n = self.actors.len();
        let mut ids: Vec<usize> = Vec::new();
        let mut k: usize = 0;
        while k < n
            invariant
                k <= n,
                ids@ == Seq::new(k as nat, |i: int| i as usize),
            decreases n - k,
        {
            ids.push(k);
            k = k + 1;
            assert(ids@ =~= Seq::new(k as nat, |i: int| i as usize));
        }
        self.index = match self.tree_type {
            TreeType::Linear => SpatialIndex::Linear,
            TreeType::Binary => SpatialIndex::Binary(build_bvh(&ids, axis_of, less)),
            TreeType::Oct => {
                let mut nodes: Vec<OctNode> = Vec::new();
                build_octree(&mut nodes, Vec::new(), ids, max_depth, octant_of);
                assert(held(Seq::<OctNode>::empty()) =~= Multiset::empty());
                assert(Multiset::<usize>::empty().add(all_actors(n as nat)) =~= all_actors(
                    n as nat,
                ));
                SpatialIndex::Oct(nodes)
            },
        };
        self.tree_stale = false;
    }

    /// The index; it reflects the actors only when not stale.
    pub fn index(&self) -> (r: &SpatialIndex)
        ensures
            *r == self@.index,
    {
        &self.index
    }

    pub fn actors(&self) -> (r: &Vec<Actor<H, M>>)
        ensures
            r@ == self@.actors,
    {
        &self.actors
    }

    pub fn background(&self) -> (r: C)
        ensures
            r == self@.background,
    {
        self.background
    }

    pub fn tree_type(&self) -> (r: TreeType)
        ensures
            r == self@.tree_type,
    {
        self.tree_type
    }

    /// Whether the index must be rebuilt before the next query.
    pub fn tree_stale(&self) -> (r: bool)
        ensures
            r == self@.tree_stale,
    {
        self.tree_stale
    }
}

} // verus!
