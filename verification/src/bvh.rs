//! Bounding-volume hierarchy over the scene's shapes.
//!
//! The tree is an arena: `BvhTree::nodes` owns every node, children are
//! indices, and a leaf names a shape by its position in the scene's shape
//! list. Construction mirrors the renderer's build: one shape becomes a
//! lone left leaf, two shapes a leaf pair, and a longer run of shapes is
//! split at its midpoint, each half built recursively; every node's box is
//! the union of its children's boxes.
//!
//! Coordinates are `i64` in any order-preserving encoding of the host's
//! coordinate type, so box union and containment — pure order operations —
//! carry over to the host's geometry unchanged.

use vstd::prelude::*;

verus! {

/// A point, in the host's order-encoded coordinates.
#[derive(Clone, Copy, Debug, PartialEq, Eq, Structural)]
pub struct Coord3 {
    pub x: i64,
    pub y: i64,
    pub z: i64,
}

/// An axis-aligned bounding box: the two corner points with the smallest
/// and the largest coordinates.
#[derive(Clone, Copy, Debug, PartialEq, Eq, Structural)]
pub struct AABB {
    pub min_p: Coord3,
    pub max_p: Coord3,
}

impl AABB {
    /// The corners are ordered: the box is a real (possibly flat) volume.
    pub open spec fn wf(self) -> bool {
        &&& self.min_p.x <= self.max_p.x
        &&& self.min_p.y <= self.max_p.y
        &&& self.min_p.z <= self.max_p.z
    }

    /// `other` lies inside `self`, component by component.
    pub open spec fn spec_contains(self, other: AABB) -> bool {
        &&& self.min_p.x <= other.min_p.x
        &&& self.min_p.y <= other.min_p.y
        &&& self.min_p.z <= other.min_p.z
        &&& other.max_p.x <= self.max_p.x
        &&& other.max_p.y <= self.max_p.y
        &&& other.max_p.z <= self.max_p.z
    }

    /// The smallest box holding both `self` and `other`.
    pub open spec fn spec_union(self, other: AABB) -> AABB {
        AABB {
            min_p: Coord3 {
                x: if self.min_p.x <= other.min_p.x {
                    self.min_p.x
                } else {
                    other.min_p.x
                },
                y: if self.min_p.y <= other.min_p.y {
                    self.min_p.y
                } else {
                    other.min_p.y
                },
                z: if self.min_p.z <= other.min_p.z {
                    self.min_p.z
                } else {
                    other.min_p.z
                },
            },
            max_p: Coord3 {
                x: if self.max_p.x >= other.max_p.x {
                    self.max_p.x
                } else {
                    other.max_p.x
                },
                y: if self.max_p.y >= other.max_p.y {
                    self.max_p.y
                } else {
                    other.max_p.y
                },
                z: if self.max_p.z >= other.max_p.z {
                    self.max_p.z
                } else {
                    other.max_p.z
                },
            },
        }
    }

    /// Componentwise union of two boxes.
    pub fn max(&self, other: &AABB) -> (r: AABB)
        ensures
            r == self.spec_union(*other),
            r.spec_contains(*self),
            r.spec_contains(*other),
    {
        AABB {
            min_p: Coord3 {
                x: if self.min_p.x <= other.min_p.x {
                    self.min_p.x
                } else {
                    other.min_p.x
                },
                y: if self.min_p.y <= other.min_p.y {
                    self.min_p.y
                } else {
                    other.min_p.y
                },
                z: if self.min_p.z <= other.min_p.z {
                    self.min_p.z
                } else {
                    other.min_p.z
                },
            },
            max_p: Coord3 {
                x: if self.max_p.x >= other.max_p.x {
                    self.max_p.x
                } else {
                    other.max_p.x
                },
                y: if self.max_p.y >= other.max_p.y {
                    self.max_p.y
                } else {
                    other.max_p.y
                },
                z: if self.max_p.z >= other.max_p.z {
                    self.max_p.z
                } else {
                    other.max_p.z
                },
            },
        }
    }

    /// Grow `self` to hold `other` as well.
    pub fn enlarge(&mut self, other: &AABB)
        ensures
            *final(self) == old(self).spec_union(*other),
    {
        *self = self.max(other);
    }
}

/// A child of a tree node: another node of the arena, or a leaf naming a
/// shape by its index in the scene's shape list.
#[derive(Clone, Copy, Debug, PartialEq, Eq, Structural)]
pub enum BvhChild {
    Shape(usize),
    Node(usize),
}

/// One node of the hierarchy: a left child, an optional right child, and
/// the box enclosing both subtrees.
#[derive(Clone, Copy, Debug, PartialEq, Eq, Structural)]
pub struct BvhNode {
    pub left: BvhChild,
    pub right: Option<BvhChild>,
    pub bounding_box: AABB,
}

/// Termination measure for walking a child link: node children always point
/// strictly down the arena.
pub open spec fn child_measure(c: BvhChild) -> int {
    match c {
        BvhChild::Shape(_) => 0,
        BvhChild::Node(i) => i + 1,
    }
}

/// Node children of `n` sit strictly below position `i` in the arena.
pub open spec fn links_down(n: BvhNode, i: int) -> bool {
    &&& (n.left matches BvhChild::Node(j) ==> j < i)
    &&& (match n.right {
        Some(BvhChild::Node(j)) => j < i,
        _ => true,
    })
}

/// The subtree hanging off child link `c` is structurally sound: every
/// node link stays inside the arena and points strictly down, and every
/// leaf names one of the `nshapes` shapes.
pub open spec fn child_wf(nodes: Seq<BvhNode>, nshapes: int, c: BvhChild) -> bool
    decreases child_measure(c),
{
    match c {
        BvhChild::Shape(s) => s < nshapes,
        BvhChild::Node(i) => {
            &&& 0 <= i < nodes.len()
            &&& links_down(nodes[i as int], i as int)
            &&& child_wf(nodes, nshapes, nodes[i as int].left)
            &&& (match nodes[i as int].right {
                Some(r) => child_wf(nodes, nshapes, r),
                None => true,
            })
        },
    }
}

/// The shape indices of the leaves under child link `c`, left to right.
pub open spec fn spec_leaves(nodes: Seq<BvhNode>, c: BvhChild) -> Seq<int>
    decreases child_measure(c),
{
    match c {
        BvhChild::Shape(s) => seq![s as int],
        BvhChild::Node(i) => {
            if 0 <= i < nodes.len() && links_down(nodes[i as int], i as int) {
                match nodes[i as int].right {
                    Some(r) => spec_leaves(nodes, nodes[i as int].left) + spec_leaves(nodes, r),
                    None => spec_leaves(nodes, nodes[i as int].left),
                }
            } else {
                Seq::empty()
            }
        },
    }
}

/// The box a child link stands for: a leaf's own box, or the node's
/// precomputed one.
pub open spec fn child_box(nodes: Seq<BvhNode>, boxes: Seq<AABB>, c: BvhChild) -> AABB {
    match c {
        BvhChild::Shape(s) => boxes[s as int],
        BvhChild::Node(i) => nodes[i as int].bounding_box,
    }
}

/// Every node box under `c` is exactly the union of its children's boxes,
/// where a leaf's box is the shape's own from `boxes`.
pub open spec fn boxes_wf(nodes: Seq<BvhNode>, boxes: Seq<AABB>, c: BvhChild) -> bool
    decreases child_measure(c),
{
    match c {
        BvhChild::Shape(s) => true,
        BvhChild::Node(i) => {
            &&& 0 <= i < nodes.len()
            &&& links_down(nodes[i as int], i as int)
            &&& boxes_wf(nodes, boxes, nodes[i as int].left)
            &&& (match nodes[i as int].right {
                Some(r) => boxes_wf(nodes, boxes, r),
                None => true,
            })
            &&& nodes[i as int].bounding_box == (match nodes[i as int].right {
                Some(r) => child_box(nodes, boxes, nodes[i as int].left).spec_union(
                    child_box(nodes, boxes, r),
                ),
                None => child_box(nodes, boxes, nodes[i as int].left),
            })
        },
    }
}

/// Growing the arena does not disturb a subtree already in it.
proof fn lemma_arena_extend(
    nodes1: Seq<BvhNode>,
    nodes2: Seq<BvhNode>,
    boxes: Seq<AABB>,
    nshapes: int,
    c: BvhChild,
)
    requires
        nodes1.len() <= nodes2.len(),
        nodes2.subrange(0, nodes1.len() as int) == nodes1,
        child_wf(nodes1, nshapes, c),
    ensures
        child_wf(nodes2, nshapes, c),
        spec_leaves(nodes2, c) == spec_leaves(nodes1, c),
        boxes_wf(nodes1, boxes, c) ==> boxes_wf(nodes2, boxes, c),
    decreases child_measure(c),
{
    match c {
        BvhChild::Shape(_) => {},
        BvhChild::Node(i) => {
            assert(nodes2[i as int] == nodes1[i as int]);
            lemma_arena_extend(nodes1, nodes2, boxes, nshapes, nodes1[i as int].left);
            match nodes1[i as int].right {
                Some(r) => {
                    lemma_arena_extend(nodes1, nodes2, boxes, nshapes, r);
                },
                None => {},
            }
        },
    }
}

/// Containment, transitively through a union.
proof fn lemma_contains_trans(a: AABB, b: AABB, c: AABB)
    requires
        a.spec_contains(b),
        b.spec_contains(c),
    ensures
        a.spec_contains(c),
{
}

/// The containment law of the hierarchy: the box of any subtree contains
/// the box of every shape at a leaf of that subtree.
pub proof fn lemma_bvh_containment(nodes: Seq<BvhNode>, boxes: Seq<AABB>, c: BvhChild)
    requires
        child_wf(nodes, boxes.len() as int, c),
        boxes_wf(nodes, boxes, c),
    ensures
        forall|t: int|
            0 <= t < spec_leaves(nodes, c).len() ==> child_box(nodes, boxes, c).spec_contains(
                boxes[#[trigger] spec_leaves(nodes, c)[t]],
            ),
    decreases child_measure(c),
{
    match c {
        BvhChild::Shape(s) => {
            assert(spec_leaves(nodes, c) == seq![s as int]);
        },
        BvhChild::Node(i) => {
            let n = nodes[i as int];
            lemma_bvh_containment(nodes, boxes, n.left);
            let lbox = child_box(nodes, boxes, n.left);
            match n.right {
                Some(r) => {
                    lemma_bvh_containment(nodes, boxes, r);
                    let rbox = child_box(nodes, boxes, r);
                    let lleaves = spec_leaves(nodes, n.left);
                    let rleaves = spec_leaves(nodes, r);
                    assert(n.bounding_box == lbox.spec_union(rbox));
                    assert forall|t: int|
                        0 <= t < spec_leaves(nodes, c).len() implies child_box(
                        nodes,
                        boxes,
                        c,
                    ).spec_contains(boxes[#[trigger] spec_leaves(nodes, c)[t]]) by {
                        if t < lleaves.len() {
                            assert(spec_leaves(nodes, c)[t] == lleaves[t]);
                            lemma_contains_trans(
                                n.bounding_box,
                                lbox,
                                boxes[lleaves[t]],
                            );
                        } else {
                            assert(spec_leaves(nodes, c)[t] == rleaves[t - lleaves.len()]);
                            lemma_contains_trans(
                                n.bounding_box,
                                rbox,
                                boxes[rleaves[t - lleaves.len()]],
                            );
                        }
                    }
                },
                None => {
                    assert(n.bounding_box == lbox);
                    assert(spec_leaves(nodes, c) == spec_leaves(nodes, n.left));
                },
            }
        },
    }
}

/// The hierarchy itself: the node arena and the index of its root.
#[derive(Clone, Debug)]
pub struct BvhTree {
    pub nodes: Vec<BvhNode>,
    pub root: usize,
}

impl BvhTree {
    /// Sound over `nshapes` shapes: the root is a structurally sound
    /// subtree of the arena.
    pub open spec fn wf(self, nshapes: int) -> bool {
        &&& self.root < self.nodes@.len()
        &&& child_wf(self.nodes@, nshapes, BvhChild::Node(self.root))
    }

    /// The shape indices at the leaves, in tree order.
    pub open spec fn spec_shape_order(self) -> Seq<int> {
        spec_leaves(self.nodes@, BvhChild::Node(self.root))
    }

    /// Build the hierarchy over the given shape boxes, in shape order:
    /// recursive midpoint split, one or two shapes to a leaf node. The
    /// resulting tree is sound, its leaves are exactly the shapes
    /// `0 .. boxes.len()` in order, and every node's box is the union of
    /// its children's (so the containment law `lemma_bvh_containment`
    /// applies to it).
    pub fn new(boxes: &Vec<AABB>) -> (t: BvhTree)
        requires
            0 < boxes@.len(),
        ensures
            t.wf(boxes@.len() as int),
            boxes_wf(t.nodes@, boxes@, BvhChild::Node(t.root)),
            t.spec_shape_order() == Seq::new(boxes@.len(), |i: int| i),
    {
        let mut nodes: Vec<BvhNode> = Vec::new();
        let root = build_range(&mut nodes, boxes, 0, boxes.len());
        proof {
            assert(Seq::new((boxes@.len() - 0) as nat, |k: int| 0 + k) =~= Seq::new(
                boxes@.len(),
                |i: int| i,
            ));
        }
        BvhTree { nodes, root }
    }
}

/// The parameter interval a query ray spends inside a node's box: the slab
/// entry and exit values, in the same order-encoded scale as the shape hit
/// distances. The host computes one per node from the node's box and the
/// ray.
#[derive(Clone, Copy, Debug, PartialEq, Eq, Structural)]
pub struct Slab {
    pub entry: i64,
    pub exit: i64,
}

/// Mathematical view of a query result: shape index and hit distance.
pub open spec fn view_hit(r: Option<(usize, i64)>) -> Option<(int, int)> {
    match r {
        Some(p) => Some((p.0 as int, p.1 as int)),
        None => None,
    }
}

/// Shape `s` hits the ray strictly after `tmin` and no later than `tmax`.
pub open spec fn spec_hit_in(hits: Seq<Option<i64>>, s: int, tmin: int, tmax: int) -> bool {
    &&& 0 <= s < hits.len()
    &&& hits[s] is Some
    &&& tmin < hits[s]->Some_0 <= tmax
}

/// The closest-hit scan over the shapes in `ids`, left to right: each shape
/// whose hit falls inside the current range takes over as best hit and
/// tightens the range's upper end to its own distance, so of several
/// equally close shapes the scan keeps the one visited last.
pub open spec fn spec_scan(hits: Seq<Option<i64>>, ids: Seq<int>, tmin: int, tmax: int) -> Option<
    (int, int),
>
    decreases ids.len(),
{
    if ids.len() == 0 {
        None
    } else {
        let prev = spec_scan(hits, ids.drop_last(), tmin, tmax);
        let cur_max = match prev {
            Some(p) => p.1,
            None => tmax,
        };
        let s = ids.last();
        if spec_hit_in(hits, s, tmin, cur_max) {
            Some((s, hits[s]->Some_0 as int))
        } else {
            prev
        }
    }
}

/// The upper end of the range a scan leaves behind: the best hit so far, or
/// the original bound when nothing hit.
pub open spec fn scan_cur_max(r: Option<(int, int)>, tmax: int) -> int {
    match r {
        Some(p) => p.1,
        None => tmax,
    }
}

/// The slab interval of every node brackets the hit distance of every shape
/// at a leaf below that node. This is what the slab test of a box relies
/// on: a ray that hits a shape passes through every box around it during
/// the same parameter interval.
pub open spec fn slabs_sound(nodes: Seq<BvhNode>, slabs: Seq<Slab>, hits: Seq<Option<i64>>) -> bool {
    forall|i: usize, t: int|
        0 <= i < nodes.len() && 0 <= t < spec_leaves(nodes, BvhChild::Node(i)).len() ==> {
            let s = #[trigger] spec_leaves(nodes, BvhChild::Node(i))[t];
            (0 <= s < hits.len() && hits[s] is Some) ==> slabs[i as int].entry <= hits[s]->Some_0
                <= slabs[i as int].exit
        }
}

/// A scan that never finds a shape in range returns nothing.
proof fn lemma_scan_none(hits: Seq<Option<i64>>, ids: Seq<int>, tmin: int, tmax: int)
    requires
        forall|t: int| 0 <= t < ids.len() ==> !spec_hit_in(hits, #[trigger] ids[t], tmin, tmax),
    ensures
        spec_scan(hits, ids, tmin, tmax) is None,
    decreases ids.len(),
{
    if ids.len() > 0 {
        assert forall|t: int|
            0 <= t < ids.drop_last().len() implies !spec_hit_in(
            hits,
            #[trigger] ids.drop_last()[t],
            tmin,
            tmax,
        ) by {
            assert(ids.drop_last()[t] == ids[t]);
        }
        lemma_scan_none(hits, ids.drop_last(), tmin, tmax);
        assert(!spec_hit_in(hits, ids.last(), tmin, tmax));
    }
}

/// What a scan's result always satisfies: it names a shape of the list,
/// reports that shape's own hit distance, and stays inside the queried
/// range.
proof fn lemma_scan_props(hits: Seq<Option<i64>>, ids: Seq<int>, tmin: int, tmax: int)
    ensures
        match spec_scan(hits, ids, tmin, tmax) {
            None => true,
            Some(p) => {
                &&& exists|t: int| 0 <= t < ids.len() && ids[t] == p.0
                &&& spec_hit_in(hits, p.0, tmin, tmax)
                &&& hits[p.0]->Some_0 == p.1
            },
        },
    decreases ids.len(),
{
    if ids.len() > 0 {
        lemma_scan_props(hits, ids.drop_last(), tmin, tmax);
        match spec_scan(hits, ids.drop_last(), tmin, tmax) {
            None => {},
            Some(p) => {
                let t = choose|t: int| 0 <= t < ids.drop_last().len() && ids.drop_last()[t] == p.0;
                assert(ids[t] == p.0);
            },
        }
        let s = ids.last();
        if spec_hit_in(
            hits,
            s,
            tmin,
            scan_cur_max(spec_scan(hits, ids.drop_last(), tmin, tmax), tmax),
        ) {
            assert(ids[ids.len() - 1] == s);
        }
    }
}

/// The scan's result is a true closest hit: when it reports nothing, no
/// shape of the list hits inside the range; when it reports a hit, that is
/// a shape of the list, struck at its own distance, inside the range, and
/// no shape of the list is struck closer.
pub proof fn lemma_scan_is_closest(hits: Seq<Option<i64>>, ids: Seq<int>, tmin: int, tmax: int)
    ensures
        spec_scan(hits, ids, tmin, tmax) is None ==> forall|t: int|
            0 <= t < ids.len() ==> !spec_hit_in(hits, #[trigger] ids[t], tmin, tmax),
        match spec_scan(hits, ids, tmin, tmax) {
            None => true,
            Some(p) => {
                &&& exists|t: int| 0 <= t < ids.len() && ids[t] == p.0
                &&& spec_hit_in(hits, p.0, tmin, tmax)
                &&& hits[p.0]->Some_0 == p.1
                &&& forall|t: int|
                    0 <= t < ids.len() && spec_hit_in(hits, #[trigger] ids[t], tmin, tmax)
                        ==> p.1 <= hits[ids[t]]->Some_0
            },
        },
    decreases ids.len(),
{
    if ids.len() > 0 {
        lemma_scan_is_closest(hits, ids.drop_last(), tmin, tmax);
        lemma_scan_props(hits, ids.drop_last(), tmin, tmax);
        let prev = spec_scan(hits, ids.drop_last(), tmin, tmax);
        match prev {
            None => {},
            Some(q) => {
                let t = choose|t: int| 0 <= t < ids.drop_last().len() && ids.drop_last()[t] == q.0;
                assert(ids[t] == q.0);
            },
        }
        let s = ids.last();
        assert(ids[ids.len() - 1] == s);
        assert forall|t: int| 0 <= t < ids.drop_last().len() implies ids.drop_last()[t]
            == ids[t] by {}
        match spec_scan(hits, ids, tmin, tmax) {
            None => {},
            Some(p) => {
                assert forall|t: int|
                    0 <= t < ids.len() && spec_hit_in(hits, #[trigger] ids[t], tmin, tmax) implies p.1
                    <= hits[ids[t]]->Some_0 by {
                    if t < ids.len() - 1 {
                        assert(ids.drop_last()[t] == ids[t]);
                    }
                }
            },
        }
    }
}

/// Scanning a concatenation: scan the first part, then the second with the
/// range the first part left behind; the second part's find wins when there
/// is one.
proof fn lemma_scan_append(hits: Seq<Option<i64>>, a: Seq<int>, b: Seq<int>, tmin: int, tmax: int)
    ensures
        spec_scan(hits, a + b, tmin, tmax) == {
            let ra = spec_scan(hits, a, tmin, tmax);
            let rb = spec_scan(hits, b, tmin, scan_cur_max(ra, tmax));
            match rb {
                Some(p) => Some(p),
                None => ra,
            }
        },
    decreases b.len(),
{
    if b.len() == 0 {
        assert(a + b =~= a);
    } else {
        lemma_scan_append(hits, a, b.drop_last(), tmin, tmax);
        assert((a + b).drop_last() =~= a + b.drop_last());
        assert((a + b).last() == b.last());
    }
}

/// Closest hit among the leaves under child link `c`, walking the tree as
/// the renderer does: the node's slab interval is tested against the
/// current range first — a miss prunes the whole subtree — and a hit found
/// on the left tightens the range the right subtree is searched with.
fn child_hit(
    nodes: &Vec<BvhNode>,
    slabs: &Vec<Slab>,
    hits: &Vec<Option<i64>>,
    c: BvhChild,
    min_t: i64,
    max_t: i64,
) -> (r: Option<(usize, i64)>)
    requires
        child_wf(nodes@, hits@.len() as int, c),
        slabs@.len() == nodes@.len(),
        slabs_sound(nodes@, slabs@, hits@),
    ensures
        view_hit(r) == spec_scan(hits@, spec_leaves(nodes@, c), min_t as int, max_t as int),
    decreases child_measure(c),
{
    match c {
        BvhChild::Shape(s) => {
            let r = match hits[s] {
                Some(d) => if min_t < d && d <= max_t {
                    Some((s, d))
                } else {
                    None
                },
                None => None,
            };
            proof {
                let ids = spec_leaves(nodes@, c);
                assert(ids == seq![s as int]);
                assert(ids.drop_last() =~= Seq::<int>::empty());
                assert(spec_scan(hits@, Seq::<int>::empty(), min_t as int, max_t as int) is None);
                assert(ids.last() == s as int);
            }
            r
        },
        BvhChild::Node(i) => {
            let node = nodes[i];
            let slab = slabs[i];
            let e = if slab.entry > min_t {
                slab.entry
            } else {
                min_t
            };
            let x = if slab.exit < max_t {
                slab.exit
            } else {
                max_t
            };
            if e > x {
                proof {
                    let ids = spec_leaves(nodes@, BvhChild::Node(i));
                    assert forall|t: int|
                        0 <= t < ids.len() implies !spec_hit_in(
                        hits@,
                        #[trigger] ids[t],
                        min_t as int,
                        max_t as int,
                    ) by {
                        assert(spec_leaves(nodes@, BvhChild::Node(i))[t] == ids[t]);
                    }
                    lemma_scan_none(hits@, ids, min_t as int, max_t as int);
                }
                None
            } else {
                proof {
                    assert(child_wf(nodes@, hits@.len() as int, nodes@[i as int].left));
                }
                let left_r = child_hit(nodes, slabs, hits, node.left, min_t, max_t);
                match node.right {
                    Some(rc) => {
                        let ghost lleaves = spec_leaves(nodes@, node.left);
                        let ghost rleaves = spec_leaves(nodes@, rc);
                        proof {
                            assert(spec_leaves(nodes@, BvhChild::Node(i)) == lleaves + rleaves);
                        }
                        match left_r {
                            Some(lp) => {
                                let right_r = child_hit(nodes, slabs, hits, rc, min_t, lp.1);
                                let res = match right_r {
                                    Some(p) => Some(p),
                                    None => Some(lp),
                                };
                                proof {
                                    lemma_scan_append(
                                        hits@,
                                        lleaves,
                                        rleaves,
                                        min_t as int,
                                        max_t as int,
                                    );
                                }
                                res
                            },
                            None => {
                                let right_r = child_hit(nodes, slabs, hits, rc, min_t, max_t);
                                proof {
                                    lemma_scan_append(
                                        hits@,
                                        lleaves,
                                        rleaves,
                                        min_t as int,
                                        max_t as int,
                                    );
                                }
                                right_r
                            },
                        }
                    },
                    None => {
                        proof {
                            assert(spec_leaves(nodes@, BvhChild::Node(i)) == spec_leaves(
                                nodes@,
                                node.left,
                            ));
                        }
                        left_r
                    },
                }
            }
        },
    }
}

/// Closest hit by brute force: every shape in index order, the range
/// tightening as hits are found.
pub fn linear_closest_hit(hits: &Vec<Option<i64>>, min_t: i64, max_t: i64) -> (r: Option<
    (usize, i64),
>)
    ensures
        view_hit(r) == spec_scan(
            hits@,
            Seq::new(hits@.len(), |s: int| s),
            min_t as int,
            max_t as int,
        ),
{
    let mut best: Option<(usize, i64)> = None;
    let mut s: usize = 0;
    proof {
        assert(Seq::new(0, |t: int| t) =~= Seq::<int>::empty());
    }
    while s < hits.len()
        invariant
            s <= hits@.len(),
            view_hit(best) == spec_scan(
                hits@,
                Seq::new(s as nat, |t: int| t),
                min_t as int,
                max_t as int,
            ),
        decreases hits@.len() - s,
    {
        let cur_max = match best {
            Some(p) => p.1,
            None => max_t,
        };
        let ghost ids1 = Seq::new((s + 1) as nat, |t: int| t);
        proof {
            assert(ids1.drop_last() =~= Seq::new(s as nat, |t: int| t));
            assert(ids1.last() == s as int);
        }
        match hits[s] {
            Some(d) => {
                if min_t < d && d <= cur_max {
                    best = Some((s, d));
                }
            },
            None => {},
        }
        s = s + 1;
    }
    best
}

impl BvhTree {
    /// Closest hit of a query ray through the hierarchy. `hits[s]` is shape
    /// `s`'s own closest hit over the base range, `slabs[i]` node `i`'s
    /// slab interval along the same ray; with sound slabs the result is
    /// exactly what the brute-force scan of all shapes returns
    /// ([`lemma_bvh_matches_linear`]).
    pub fn ray_hit(
        &self,
        slabs: &Vec<Slab>,
        hits: &Vec<Option<i64>>,
        min_t: i64,
        max_t: i64,
    ) -> (r: Option<(usize, i64)>)
        requires
            self.wf(hits@.len() as int),
            slabs@.len() == self.nodes@.len(),
            slabs_sound(self.nodes@, slabs@, hits@),
        ensures
            view_hit(r) == spec_scan(
                hits@,
                self.spec_shape_order(),
                min_t as int,
                max_t as int,
            ),
    {
        child_hit(&self.nodes, slabs, hits, BvhChild::Node(self.root), min_t, max_t)
    }
}

/// The equivalence law of the hierarchy: over a sound tree whose leaves are
/// the scene's shapes in order — which [`BvhTree::new`] guarantees — the
/// tree query [`BvhTree::ray_hit`] and the brute-force scan
/// [`linear_closest_hit`] are specified against the very same closest-hit
/// scan, so for every ray and range they return the same shape and the
/// same distance.
pub proof fn lemma_bvh_matches_linear(
    tree: BvhTree,
    hits: Seq<Option<i64>>,
    tmin: int,
    tmax: int,
)
    requires
        tree.wf(hits.len() as int),
        tree.spec_shape_order() == Seq::new(hits.len(), |s: int| s),
    ensures
        spec_scan(hits, tree.spec_shape_order(), tmin, tmax) == spec_scan(
            hits,
            Seq::new(hits.len(), |s: int| s),
            tmin,
            tmax,
        ),
{
}

/// Build the subtree over shapes `lo .. hi`, appending its nodes to the
/// arena and returning the index of its root (the last node appended).
fn build_range(nodes: &mut Vec<BvhNode>, boxes: &Vec<AABB>, lo: usize, hi: usize) -> (idx: usize)
    requires
        lo < hi <= boxes@.len(),
    ensures
        old(nodes)@.len() <= idx,
        idx == final(nodes)@.len() - 1,
        final(nodes)@.subrange(0, old(nodes)@.len() as int) == old(nodes)@,
        child_wf(final(nodes)@, boxes@.len() as int, BvhChild::Node(idx)),
        boxes_wf(final(nodes)@, boxes@, BvhChild::Node(idx)),
        spec_leaves(final(nodes)@, BvhChild::Node(idx)) == Seq::new(
            (hi - lo) as nat,
            |k: int| lo + k,
        ),
    decreases hi - lo,
{
    let n = hi - lo;
    if n == 1 {
        let node = BvhNode { left: BvhChild::Shape(lo), right: None, bounding_box: boxes[lo] };
        nodes.push(node);
        let idx = nodes.len() - 1;
        proof {
            assert(nodes@.subrange(0, old(nodes)@.len() as int) =~= old(nodes)@);
            assert(nodes@[idx as int] == node);
            assert(links_down(node, idx as int));
            assert(child_wf(nodes@, boxes@.len() as int, BvhChild::Shape(lo)));
            assert(child_wf(nodes@, boxes@.len() as int, BvhChild::Node(idx)));
            assert(spec_leaves(nodes@, BvhChild::Shape(lo)) == seq![lo as int]);
            assert(boxes_wf(nodes@, boxes@, BvhChild::Shape(lo)));
            assert(child_box(nodes@, boxes@, BvhChild::Shape(lo)) == boxes@[lo as int]);
            assert(boxes_wf(nodes@, boxes@, BvhChild::Node(idx)));
            assert(spec_leaves(nodes@, BvhChild::Node(idx)) == seq![lo as int]);
            assert(spec_leaves(nodes@, BvhChild::Node(idx)) =~= Seq::new(
                (hi - lo) as nat,
                |k: int| lo + k,
            ));
        }
        idx
    } else if n == 2 {
        let bb = boxes[lo].max(&boxes[lo + 1]);
        let node = BvhNode {
            left: BvhChild::Shape(lo),
            right: Some(BvhChild::Shape((lo + 1) as usize)),
            bounding_box: bb,
        };
        nodes.push(node);
        let idx = nodes.len() - 1;
        proof {
            assert(nodes@.subrange(0, old(nodes)@.len() as int) =~= old(nodes)@);
            assert(nodes@[idx as int] == node);
            assert(links_down(node, idx as int));
            assert(child_wf(nodes@, boxes@.len() as int, BvhChild::Shape(lo)));
            assert(child_wf(nodes@, boxes@.len() as int, BvhChild::Shape((lo + 1) as usize)));
            assert(child_wf(nodes@, boxes@.len() as int, BvhChild::Node(idx)));
            assert(spec_leaves(nodes@, BvhChild::Shape(lo)) == seq![lo as int]);
            assert(spec_leaves(nodes@, BvhChild::Shape((lo + 1) as usize)) == seq![lo + 1 as int]);
            assert(boxes_wf(nodes@, boxes@, BvhChild::Shape(lo)));
            assert(boxes_wf(nodes@, boxes@, BvhChild::Shape((lo + 1) as usize)));
            assert(child_box(nodes@, boxes@, BvhChild::Shape(lo)) == boxes@[lo as int]);
            assert(child_box(nodes@, boxes@, BvhChild::Shape((lo + 1) as usize)) == boxes@[lo + 1 as int]);
            assert(boxes_wf(nodes@, boxes@, BvhChild::Node(idx)));
            assert(spec_leaves(nodes@, BvhChild::Node(idx)) == seq![lo as int] + seq![
                lo + 1 as int,
            ]);
            assert(spec_leaves(nodes@, BvhChild::Node(idx)) =~= Seq::new(
                (hi - lo) as nat,
                |k: int| lo + k,
            ));
        }
        idx
    } else {
        let mid = lo + n / 2;
        let l = build_range(nodes, boxes, lo, mid);
        let ghost nodes_l = nodes@;
        let r = build_range(nodes, boxes, mid, hi);
        proof {
            assert(nodes@.subrange(0, nodes_l.len() as int) =~= nodes_l);
            lemma_arena_extend(
                nodes_l,
                nodes@,
                boxes@,
                boxes@.len() as int,
                BvhChild::Node(l),
            );
        }
        let lbox = nodes[l].bounding_box;
        let rbox = nodes[r].bounding_box;
        let node = BvhNode {
            left: BvhChild::Node(l),
            right: Some(BvhChild::Node(r)),
            bounding_box: lbox.max(&rbox),
        };
        let ghost nodes_r = nodes@;
        nodes.push(node);
        let idx = nodes.len() - 1;
        proof {
            assert(nodes@.subrange(0, nodes_r.len() as int) =~= nodes_r);
            lemma_arena_extend(
                nodes_r,
                nodes@,
                boxes@,
                boxes@.len() as int,
                BvhChild::Node(l),
            );
            lemma_arena_extend(
                nodes_r,
                nodes@,
                boxes@,
                boxes@.len() as int,
                BvhChild::Node(r),
            );
            assert(nodes@.subrange(0, old(nodes)@.len() as int) =~= old(nodes)@);
            assert(nodes@[idx as int] == node);
            assert(nodes@[l as int] == nodes_r[l as int]);
            assert(nodes@[r as int] == nodes_r[r as int]);
            assert(links_down(node, idx as int));
            assert(child_wf(nodes@, boxes@.len() as int, BvhChild::Node(idx)));
            assert(child_box(nodes@, boxes@, BvhChild::Node(l)) == lbox);
            assert(child_box(nodes@, boxes@, BvhChild::Node(r)) == rbox);
            assert(boxes_wf(nodes@, boxes@, BvhChild::Node(idx)));
            assert(spec_leaves(nodes@, BvhChild::Node(idx)) == spec_leaves(
                nodes@,
                BvhChild::Node(l),
            ) + spec_leaves(nodes@, BvhChild::Node(r)));
            assert(spec_leaves(nodes@, BvhChild::Node(idx)) =~= Seq::new(
                (hi - lo) as nat,
                |k: int| lo + k,
            ));
        }
        idx
    }
}

} // verus!
