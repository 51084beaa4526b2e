use vstd::multiset::Multiset;
use vstd::prelude::*;
use vstd::seq_lib::group_to_multiset_ensures;
use vstd::seq_lib::lemma_multiset_commutative;
use vstd::seq_lib::to_multiset_insert;

verus! {

/// A node of a bounding-volume hierarchy over actor indices. A leaf holds at
/// most one actor; a split node holds the median split of its actors.
pub enum BvhNode {
    Leaf(Option<usize>),
    Split(Box<BvhNode>, Box<BvhNode>),
}

/// The actors held by the leaves under a node, with their multiplicities.
pub open spec fn leaf_actors(node: BvhNode) -> Multiset<usize>
    decreases node,
{
    match node {
        BvhNode::Leaf(None) => Multiset::empty(),
        BvhNode::Leaf(Some(a)) => Multiset::singleton(a),
        BvhNode::Split(l, r) => leaf_actors(*l).add(leaf_actors(*r)),
    }
}

/// Every split node is a median split of at least two actors: its first
/// child holds half of them, rounded down, and no leaf under it is empty.
pub open spec fn median_split(node: BvhNode) -> bool
    decreases node,
{
    match node {
        BvhNode::Leaf(_) => true,
        BvhNode::Split(l, r) => {
            &&& leaf_actors(*l).len() >= 1
            &&& leaf_actors(*l).len() == (leaf_actors(*l).len() + leaf_actors(*r).len()) / 2
            &&& !(*l is Leaf && (*l)->Leaf_0 is None)
            &&& !(*r is Leaf && (*r)->Leaf_0 is None)
            &&& median_split(*l)
            &&& median_split(*r)
        },
    }
}

/// Insertion-sorts `actors`, where `less(axis, a, b)` says that `a` goes
/// before `b`. Whatever `less` answers, the result holds the same actors.
fn sort_on_axis<L: Fn(usize, usize, usize) -> bool>(
    actors: &Vec<usize>,
    axis: usize,
    less: &L,
) -> (r: Vec<usize>)
    requires
        forall|x: usize, a: usize, b: usize| less.requires((x, a, b)),
    ensures
        r@.to_multiset() == actors@.to_multiset(),
{
    broadcast use group_to_multiset_ensures;

    let mut out: Vec<usize> = Vec::new();
    let mut k: usize = 0;
    while k < actors.len()
        invariant
            k <= actors.len(),
            forall|x: usize, a: usize, b: usize| less.requires((x, a, b)),
            out@.to_multiset() == actors@.subrange(0, k as int).to_multiset(),
            out@.len() == k,
        decreases actors.len() - k,
    {
        let a = actors[k];
        let mut p: usize = out.len();
        while p > 0 && less(axis, a, out[p - 1])
            invariant
                p <= out.len(),
                forall|x: usize, a: usize, b: usize| less.requires((x, a, b)),
                out@.to_multiset() == actors@.subrange(0, k as int).to_multiset(),
                out@.len() == k,
                k < actors.len(),
            decreases p,
        {
            p = p - 1;
        }
        let ghost before = out@;
        out.insert(p, a);
        proof {
            to_multiset_insert(before, p as int, a);
            assert(out@.to_multiset() == before.insert(p as int, a).to_multiset());
            assert(actors@.subrange(0, k + 1) =~= actors@.subrange(0, k as int).push(a));
            actors@.subrange(0, k as int).to_multiset_ensures();
            assert(actors@.subrange(0, k as int).push(a).to_multiset() =~= actors@.subrange(
                0,
                k as int,
            ).to_multiset().insert(a));
        }
        k = k + 1;
    }
    assert(actors@.subrange(0, actors.len() as int) =~= actors@);
    out
}

/// Builds the hierarchy over `actors`: a node of at most one actor is a
/// leaf; a larger one asks `axis_of` for the axis along which its actors'
/// centroids spread most, orders them along it with `less`, and splits them
/// at the median.
pub fn build_bvh<A: Fn(&Vec<usize>) -> usize, L: Fn(usize, usize, usize) -> bool>(
    actors: &Vec<usize>,
    axis_of: &A,
    less: &L,
) -> (r: BvhNode)
    requires
        forall|v: &Vec<usize>| axis_of.requires((v,)),
        forall|x: usize, a: usize, b: usize| less.requires((x, a, b)),
    ensures
        leaf_actors(r) == actors@.to_multiset(),
        median_split(r),
        actors@.len() > 0 ==> !(r is Leaf && r->Leaf_0 is None),
    decreases actors@.len(),
{
    broadcast use group_to_multiset_ensures;

    let n = actors.len();
    if n == 0 {
        return BvhNode::Leaf(None);
    }
    if n == 1 {
        assert(actors@ =~= Seq::<usize>::empty().push(actors@[0]));
        return BvhNode::Leaf(Some(actors[0]));
    }
    let axis = axis_of(actors);
    let sorted = sort_on_axis(actors, axis, less);
    assert(sorted@.to_multiset().len() == actors@.to_multiset().len());
    let mid: usize = n / 2;
    let mut left: Vec<usize> = Vec::new();
    let mut right: Vec<usize> = Vec::new();
    let mut k: usize = 0;
    while k < n
        invariant
            k <= n,
            n == sorted@.len(),
            mid == n / 2,
            k <= mid ==> left@ == sorted@.subrange(0, k as int) && right@.len() == 0,
            k > mid ==> left@ == sorted@.subrange(0, mid as int) && right@ == sorted@.subrange(
                mid as int,
                k as int,
            ),
        decreases n - k,
    {
        if k < mid {
            left.push(sorted[k]);
            assert(left@ =~= sorted@.subrange(0, k + 1));
        } else {
            right.push(sorted[k]);
            assert(right@ =~= sorted@.subrange(mid as int, k + 1));
        }
        k = k + 1;
    }
    proof {
        assert(sorted@ =~= sorted@.subrange(0, mid as int) + sorted@.subrange(mid as int, n as int));
        lemma_multiset_commutative(left@, right@);
    }
    let l = build_bvh(&left, axis_of, less);
    let r = build_bvh(&right, axis_of, less);
    BvhNode::Split(Box::new(l), Box::new(r))
}

} // verus!

verus! {

/// The number of octants a node of an octree splits into.
pub const OCTANTS: u8 = 8;

/// A node of an octree, stored in an arena: the octants taken from the
/// root's bounding cube to reach this node's cube, the actors that no
/// octant of it contains entirely, and the arena indices of its children.
pub struct OctNode {
    pub path: Vec<u8>,
    pub actors: Vec<usize>,
    pub children: Vec<usize>,
}

/// The actors held by the nodes of an arena, with their multiplicities.
pub open spec fn held(nodes: Seq<OctNode>) -> Multiset<usize>
    decreases nodes.len(),
{
    if nodes.len() == 0 {
        Multiset::empty()
    } else {
        held(nodes.drop_last()).add(nodes.last().actors@.to_multiset())
    }
}

/// The first `n` of `actors` whose octant in `octs` lies in `[lo, hi)`, in
/// order.
pub open spec fn picked(actors: Seq<usize>, octs: Seq<u8>, lo: int, hi: int, n: int) -> Seq<usize>
    decreases n,
{
    if n <= 0 {
        Seq::empty()
    } else {
        let s = picked(actors, octs, lo, hi, n - 1);
        if lo <= octs[n - 1] < hi {
            s.push(actors[n - 1])
        } else {
            s
        }
    }
}

/// Picking by `[lo, mid)` and by `[mid, hi)` together picks what `[lo, hi)`
/// picks.
proof fn lemma_picked_split(actors: Seq<usize>, octs: Seq<u8>, lo: int, mid: int, hi: int, n: int)
    requires
        lo <= mid <= hi,
    ensures
        picked(actors, octs, lo, hi, n).to_multiset() == picked(actors, octs, lo, mid, n).to_multiset().add(
            picked(actors, octs, mid, hi, n).to_multiset(),
        ),
    decreases n,
{
    broadcast use group_to_multiset_ensures;

    if n > 0 {
        lemma_picked_split(actors, octs, lo, mid, hi, n - 1);
        picked(actors, octs, lo, hi, n - 1).to_multiset_ensures();
        picked(actors, octs, lo, mid, n - 1).to_multiset_ensures();
        picked(actors, octs, mid, hi, n - 1).to_multiset_ensures();
    }
}

/// Picking every octant value picks all of `actors`.
proof fn lemma_picked_all(actors: Seq<usize>, octs: Seq<u8>, n: int)
    requires
        0 <= n <= actors.len(),
        octs.len() == actors.len(),
    ensures
        picked(actors, octs, 0, 256, n) == actors.subrange(0, n),
    decreases n,
{
    if n > 0 {
        lemma_picked_all(actors, octs, n - 1);
        assert(actors.subrange(0, n) =~= actors.subrange(0, n - 1).push(actors[n - 1]));
    }
}

/// Every node of the arena lies at most `max_depth` levels below the root.
pub open spec fn within_depth(nodes: Seq<OctNode>, max_depth: nat) -> bool {
    forall|i: int| 0 <= i < nodes.len() ==> #[trigger] nodes[i].path@.len() <= max_depth
}

proof fn lemma_held_push(nodes: Seq<OctNode>, node: OctNode)
    ensures
        held(nodes.push(node)) == held(nodes).add(node.actors@.to_multiset()),
{
    assert(nodes.push(node).drop_last() =~= nodes);
}

/// `octs[k]` may be what `octant_of(path, actors[k])` gave, for each actor.
pub open spec fn answered<O: Fn(&Vec<u8>, usize) -> u8>(
    octant_of: O,
    path: Vec<u8>,
    actors: Seq<usize>,
    octs: Seq<u8>,
) -> bool {
    &&& octs.len() == actors.len()
    &&& forall|k: int| 0 <= k < actors.len() ==> octant_of.ensures((&path, actors[k]), #[trigger] octs[k])
}

/// The children of node `i` come before it in the arena, and each lies in
/// an octant of its cube: its path is `i`'s path and one octant more.
pub open spec fn children_below(nodes: Seq<OctNode>, i: int) -> bool {
    forall|c: int|
        0 <= c < nodes[i].children@.len() ==> {
            let j = #[trigger] nodes[i].children@[c] as int;
            &&& 0 <= j < i
            &&& nodes[j].path@.len() == nodes[i].path@.len() + 1
            &&& nodes[j].path@.subrange(0, nodes[i].path@.len() as int) == nodes[i].path@
            &&& nodes[j].path@.last() < OCTANTS
        }
}

/// Builds the octree node reached by `path` over `actors`, appending it and
/// the nodes under it to `nodes`, and returns its index. The node is a leaf
/// at depth `max_depth` or with at most one actor. Otherwise
/// `octant_of(path, a)` names the octant (below 8) of the node's cube that
/// contains actor `a`'s bounding box entirely, or any larger value where no
/// octant does: the actor then stays at this node, and each octant that
/// contains actors becomes a child, built after it and placed before it.
pub fn build_octree<O: Fn(&Vec<u8>, usize) -> u8>(
    nodes: &mut Vec<OctNode>,
    path: Vec<u8>,
    actors: Vec<usize>,
    max_depth: usize,
    octant_of: &O,
) -> (root: usize)
    requires
        path@.len() <= max_depth,
        within_depth(old(nodes)@, max_depth as nat),
        forall|p: &Vec<u8>, a: usize| octant_of.requires((p, a)),
    ensures
        held(final(nodes)@) == held(old(nodes)@).add(actors@.to_multiset()),
        within_depth(final(nodes)@, max_depth as nat),
        old(nodes)@.len() < final(nodes)@.len(),
        root == final(nodes)@.len() - 1,
        final(nodes)@[root as int].path@ == path@,
        final(nodes)@.subrange(0, old(nodes)@.len() as int) == old(nodes)@,
        path@.len() >= max_depth || actors@.len() <= 1 ==> final(nodes)@[root as int].actors@
            == actors@ && final(nodes)@[root as int].children@.len() == 0,
        path@.len() < max_depth && actors@.len() > 1 ==> exists|octs: Seq<u8>|
            #[trigger] answered(*octant_of, path, actors@, octs)
                && final(nodes)@[root as int].actors@
                == picked(actors@, octs, 8, 256, actors@.len() as int),
        children_below(final(nodes)@, root as int),
    decreases max_depth - path@.len(),
{
    if path.len() >= max_depth || actors.len() <= 1 {
        let ghost before = nodes@;
        let leaf = OctNode { path, actors, children: Vec::new() };
        proof {
            lemma_held_push(nodes@, leaf);
        }
        nodes.push(leaf);
        assert(nodes@.subrange(0, before.len() as int) =~= before);
        return nodes.len() - 1;
    }
    let ghost start = nodes@;
    let mut octs: Vec<u8> = Vec::new();
    let mut k: usize = 0;
    while k < actors.len()
        invariant
            k <= actors.len(),
            octs@.len() == k,
            forall|p: &Vec<u8>, a: usize| octant_of.requires((p, a)),
            forall|m: int| 0 <= m < k ==> octant_of.ensures((&path, actors@[m]), #[trigger] octs@[m]),
        decreases actors.len() - k,
    {
        octs.push(octant_of(&path, actors[k]));
        proof {
            assert(forall|m: int| 0 <= m < k ==> octs@[m] == octs@.drop_last()[m]);
        }
        k = k + 1;
    }
    let n: usize = actors.len();
    let mut children: Vec<usize> = Vec::new();
    let mut o: u8 = 0;
    proof {
        assert(picked(actors@, octs@, 0, 0, n as int).to_multiset() =~= Multiset::empty()) by {
            lemma_picked_split(actors@, octs@, 0, 0, 0, n as int);
        }
        assert(held(nodes@) =~= held(start).add(Multiset::empty()));
        assert(nodes@.subrange(0, start.len() as int) =~= start);
    }
    while o < OCTANTS
        invariant
            o <= OCTANTS,
            n == actors@.len(),
            n == octs@.len(),
            path@.len() < max_depth,
            within_depth(nodes@, max_depth as nat),
            forall|p: &Vec<u8>, a: usize| octant_of.requires((p, a)),
            held(nodes@) == held(start).add(picked(actors@, octs@, 0, o as int, n as int).to_multiset()),
            start.len() <= nodes@.len(),
            nodes@.subrange(0, start.len() as int) == start,
            forall|c: int|
                0 <= c < children@.len() ==> {
                    let j = #[trigger] children@[c] as int;
                    &&& start.len() <= j < nodes@.len()
                    &&& nodes@[j].path@ == path@.push(nodes@[j].path@.last())
                    &&& nodes@[j].path@.last() < OCTANTS
                },
        decreases OCTANTS - o,
    {
        let mut bucket: Vec<usize> = Vec::new();
        let mut k: usize = 0;
        while k < n
            invariant
                k <= n,
                n == actors@.len(),
                n == octs@.len(),
                bucket@ == picked(actors@, octs@, o as int, o + 1, k as int),
            decreases n - k,
        {
            if octs[k] == o {
                bucket.push(actors[k]);
            }
            k = k + 1;
        }
        proof {
            lemma_picked_split(actors@, octs@, 0, o as int, o + 1, n as int);
        }
        if bucket.len() > 0 {
            let ghost before = nodes@;
            let mut child_path = path.clone();
            child_path.push(o);
            let ghost child = child_path@;
            let c = build_octree(nodes, child_path, bucket, max_depth, octant_of);
            let ghost old_children = children@;
            children.push(c);
            proof {
                assert(child.last() == o);
                assert forall|m: int| 0 <= m < children@.len() implies {
                    let j = #[trigger] children@[m] as int;
                    &&& start.len() <= j < nodes@.len()
                    &&& nodes@[j].path@ == path@.push(nodes@[j].path@.last())
                    &&& nodes@[j].path@.last() < OCTANTS
                } by {
                    if m < old_children.len() {
                        let j = old_children[m] as int;
                        assert(nodes@.subrange(0, before.len() as int)[j] == nodes@[j]);
                    }
                }
            }
            proof {
                assert(held(nodes@) =~= held(start).add(
                    picked(actors@, octs@, 0, o + 1, n as int).to_multiset(),
                ));
                assert(nodes@.subrange(0, start.len() as int) =~= start) by {
                    assert forall|i: int| 0 <= i < start.len() implies nodes@[i] == #[trigger] start[i] by {
                        assert(nodes@.subrange(0, before.len() as int)[i] == nodes@[i]);
                        assert(before.subrange(0, start.len() as int)[i] == before[i]);
                    }
                }
            }
        } else {
            proof {
                bucket@.to_multiset_ensures();
                assert(bucket@.to_multiset() =~= Multiset::empty());
                assert(held(nodes@) =~= held(start).add(
                    picked(actors@, octs@, 0, o + 1, n as int).to_multiset(),
                ));
            }
        }
        o = o + 1;
    }
    let mut stay: Vec<usize> = Vec::new();
    let mut k: usize = 0;
    while k < n
        invariant
            k <= n,
            n == actors@.len(),
            n == octs@.len(),
            stay@ == picked(actors@, octs@, 8, 256, k as int),
        decreases n - k,
    {
        if octs[k] >= OCTANTS {
            stay.push(actors[k]);
        }
        k = k + 1;
    }
    proof {
        lemma_picked_split(actors@, octs@, 0, 8, 256, n as int);
        lemma_picked_all(actors@, octs@, n as int);
        assert(actors@.subrange(0, n as int) =~= actors@);
    }
    let ghost before = nodes@;
    let node = OctNode { path, actors: stay, children };
    proof {
        lemma_held_push(nodes@, node);
        assert(held(nodes@.push(node)) =~= held(start).add(actors@.to_multiset()));
    }
    let ghost kids = children@;
    nodes.push(node);
    proof {
        let r = nodes@.len() - 1;
        assert forall|c: int| 0 <= c < nodes@[r].children@.len() implies {
            let j = #[trigger] nodes@[r].children@[c] as int;
            &&& 0 <= j < r
            &&& nodes@[j].path@.len() == nodes@[r].path@.len() + 1
            &&& nodes@[j].path@.subrange(0, nodes@[r].path@.len() as int) == nodes@[r].path@
            &&& nodes@[j].path@.last() < OCTANTS
        } by {
            let j = kids[c] as int;
            assert(nodes@[j] == before[j]);
            assert(before[j].path@.subrange(0, path@.len() as int) =~= path@);
        }
        assert(answered(*octant_of, path, actors@, octs@));
    }
    assert(nodes@.subrange(0, start.len() as int) =~= start) by {
        assert forall|i: int| 0 <= i < start.len() implies nodes@[i] == #[trigger] start[i] by {
            assert(before.subrange(0, start.len() as int)[i] == before[i]);
        }
    }
    nodes.len() - 1
}

} // verus!

verus! {

/// `answers[i]` may be what `query(i, bests[i])` gave for each of the first
/// `n` actors, where each query is handed the best hit found before it:
/// `bests[0]` is `None` and a hit replaces the best for the queries after it.
pub open spec fn scanned<H, Q: Fn(usize, Option<H>) -> Option<H>>(
    query: Q,
    answers: Seq<Option<H>>,
    bests: Seq<Option<(usize, H)>>,
    n: int,
) -> bool {
    &&& answers.len() == n
    &&& bests.len() == n + 1
    &&& bests[0] is None
    &&& forall|i: int|
        0 <= i < n ==> query.ensures(
            (i as usize, match bests[i] {
                Some(b) => Some(b.1),
                None => None,
            }),
            #[trigger] answers[i],
        )
    &&& forall|i: int|
        0 <= i < n ==> #[trigger] bests[i + 1] == match answers[i] {
            Some(h) => Some((i as usize, h)),
            None => bests[i],
        }
}

/// The nearest hit among `n` actors, tested one by one: `query(i, best)`
/// gives actor `i`'s hit if it is nearer than `best` (any hit where `best` is
/// `None`), and the result is the last hit given, with its actor, or `None`
/// where no actor gave one.
pub fn nearest_linear<H: Copy, Q: Fn(usize, Option<H>) -> Option<H>>(n: usize, query: &Q) -> (r:
    Option<(usize, H)>)
    requires
        forall|i: usize, b: Option<H>| query.requires((i, b)),
    ensures
        exists|answers: Seq<Option<H>>, bests: Seq<Option<(usize, H)>>|
            #[trigger] scanned(*query, answers, bests, n as int) && r == bests[n as int],
{
    let mut best: Option<(usize, H)> = None;
    let ghost mut answers: Seq<Option<H>> = Seq::empty();
    let ghost mut bests: Seq<Option<(usize, H)>> = seq![None];
    let mut i: usize = 0;
    while i < n
        invariant
            i <= n,
            forall|i: usize, b: Option<H>| query.requires((i, b)),
            scanned(*query, answers, bests, i as int),
            best == bests[i as int],
        decreases n - i,
    {
        let current = match best {
            Some(b) => Some(b.1),
            None => None,
        };
        let answer = query(i, current);
        if let Some(h) = answer {
            best = Some((i, h));
        }
        proof {
            answers = answers.push(answer);
            bests = bests.push(best);
            assert(forall|k: int| 0 <= k < i ==> answers[k] == answers.drop_last()[k]);
        }
        i = i + 1;
    }
    best
}

/// The linear scan finds nothing exactly when no actor gives a hit, and what
/// it finds is a hit that an actor gave and that no later actor improved on.
pub proof fn lemma_linear_scan_result<H, Q: Fn(usize, Option<H>) -> Option<H>>(
    query: Q,
    answers: Seq<Option<H>>,
    bests: Seq<Option<(usize, H)>>,
    n: usize,
)
    requires
        scanned(query, answers, bests, n as int),
    ensures
        bests[n as int] is None <==> forall|i: int| 0 <= i < n ==> #[trigger] answers[i] is None,
        bests[n as int] is Some ==> {
            let (k, h) = bests[n as int]->0;
            &&& k < n
            &&& answers[k as int] == Some(h)
            &&& forall|j: int| k < j < n ==> #[trigger] answers[j] is None
        },
    decreases n,
{
    if n > 0 {
        let m = (n - 1) as usize;
        let prefix_answers = answers.drop_last();
        let prefix_bests = bests.drop_last();
        assert forall|i: int| 0 <= i < m implies prefix_answers[i] == answers[i] && prefix_bests[i]
            == bests[i] && prefix_bests[i + 1] == bests[i + 1] by {}
        assert(scanned(query, prefix_answers, prefix_bests, m as int)) by {
            assert forall|i: int| 0 <= i < m implies #[trigger] prefix_bests[i + 1] == match prefix_answers[i] {
                Some(h) => Some((i as usize, h)),
                None => prefix_bests[i],
            } by {
                assert(bests[i + 1] == match answers[i] {
                    Some(h) => Some((i as usize, h)),
                    None => bests[i],
                });
            }
            assert forall|i: int| 0 <= i < m implies query.ensures(
                (i as usize, match prefix_bests[i] {
                    Some(b) => Some(b.1),
                    None => None,
                }),
                #[trigger] prefix_answers[i],
            ) by {
                assert(query.ensures(
                    (i as usize, match bests[i] {
                        Some(b) => Some(b.1),
                        None => None,
                    }),
                    answers[i],
                ));
            }
        }
        lemma_linear_scan_result(query, prefix_answers, prefix_bests, m);
        assert(bests[m + 1] == match answers[m as int] {
            Some(h) => Some((m, h)),
            None => bests[m as int],
        });
    }
}

} // verus!
