//! The bounding-volume hierarchy: a binary tree of boxes over the entities of
//! a scene, kept in an arena, and the search for the closest hit in it.

use vstd::prelude::*;
use crate::aabb::AABB;
use crate::hitable::Hitable;
use crate::sampling::random_below;
use crate::sorting::{
    rearranged, sort_span, span_sortable, span_sorted, span_tied, tied_span_stays,
};

verus! {

/// The place of a node in the arena.
#[derive(Clone, Copy, Debug)]
pub struct NodeId {
    pub index: usize,
}

/// A node of the hierarchy: a leaf holds an entity and has its box; an inner
/// node has two children and the union of their boxes.
#[derive(Clone, Copy, Debug)]
pub struct BvhNode {
    pub bbox: Option<AABB>,
    pub left: Option<NodeId>,
    pub right: Option<NodeId>,
    pub hitable: Option<Hitable>,
}

/// The hierarchy: the arena of its nodes and the place of the root.
pub struct BvhTree {
    nodes: Vec<BvhNode>,
    root: NodeId,
}

/// The leaf that holds an entity.
pub open spec fn leaf_of(hitable: Hitable) -> BvhNode {
    BvhNode { bbox: hitable.bbox, left: None, right: None, hitable: Some(hitable) }
}

/// The inner node over two children.
pub open spec fn inner_of(bbox: AABB, left: NodeId, right: NodeId) -> BvhNode {
    BvhNode { bbox: Some(bbox), left: Some(left), right: Some(right), hitable: None }
}

/// The node at place `n` is a leaf with the box of its entity, or an inner
/// node whose two children stand before it in the arena, have boxes, and
/// whose own box is the union of theirs.
pub open spec fn node_ok(nodes: Seq<BvhNode>, n: int) -> bool {
    let node = nodes[n];
    match node.hitable {
        Some(h) => node.left is None && node.right is None && node.bbox == h.bbox,
        None => {
            &&& node.left is Some
            &&& node.right is Some
            &&& node.left.unwrap().index < n
            &&& node.right.unwrap().index < n
            &&& nodes[node.left.unwrap().index as int].bbox is Some
            &&& nodes[node.right.unwrap().index as int].bbox is Some
            &&& node.bbox == Some(
                AABB::surrounding(
                    nodes[node.left.unwrap().index as int].bbox.unwrap(),
                    nodes[node.right.unwrap().index as int].bbox.unwrap(),
                ),
            )
        },
    }
}

/// Every node of the arena is in order.
pub open spec fn arena_ok(nodes: Seq<BvhNode>) -> bool {
    forall|n: int| 0 <= n < nodes.len() ==> node_ok(nodes, n)
}

/// The entities under the node at place `n`, from left to right.
pub open spec fn leaves(nodes: Seq<BvhNode>, n: int) -> Seq<Hitable>
    decreases n,
{
    if n < 0 || n >= nodes.len() {
        Seq::empty()
    } else {
        match nodes[n].hitable {
            Some(h) => seq![h],
            None => {
                if nodes[n].left is Some && nodes[n].right is Some && nodes[n].left.unwrap().index
                    < n && nodes[n].right.unwrap().index < n {
                    leaves(nodes, nodes[n].left.unwrap().index as int) + leaves(
                        nodes,
                        nodes[n].right.unwrap().index as int,
                    )
                } else {
                    Seq::empty()
                }
            },
        }
    }
}

/// Under every inner node at or below place `n`, the left child holds half of
/// the entities, rounded down, and the right child the rest.
pub open spec fn halved(nodes: Seq<BvhNode>, n: int) -> bool
    decreases n,
{
    if n < 0 || n >= nodes.len() {
        true
    } else {
        match nodes[n].hitable {
            Some(h) => true,
            None => {
                if nodes[n].left is Some && nodes[n].right is Some && nodes[n].left.unwrap().index
                    < n && nodes[n].right.unwrap().index < n {
                    let l = nodes[n].left.unwrap().index as int;
                    let r = nodes[n].right.unwrap().index as int;
                    &&& leaves(nodes, l).len() == leaves(nodes, n).len() / 2
                    &&& halved(nodes, l)
                    &&& halved(nodes, r)
                } else {
                    true
                }
            },
        }
    }
}

/// The number of nodes on the longest way from the node at place `n` down to
/// a leaf.
pub open spec fn height(nodes: Seq<BvhNode>, n: int) -> nat
    decreases n,
{
    if n < 0 || n >= nodes.len() {
        0
    } else {
        match nodes[n].hitable {
            Some(h) => 1,
            None => {
                if nodes[n].left is Some && nodes[n].right is Some && nodes[n].left.unwrap().index
                    < n && nodes[n].right.unwrap().index < n {
                    let l = height(nodes, nodes[n].left.unwrap().index as int);
                    let r = height(nodes, nodes[n].right.unwrap().index as int);
                    if l > r {
                        l + 1
                    } else {
                        r + 1
                    }
                } else {
                    0
                }
            },
        }
    }
}

/// Two to the power of `e`.
pub open spec fn two_to(e: nat) -> nat
    decreases e,
{
    if e == 0 {
        1
    } else {
        2 * two_to((e - 1) as nat)
    }
}

/// A hierarchy that splits in the middle is shallow: over one entity it is a
/// leaf, and over `k` entities, two or more, its height `h` is such that two
/// to the power of `h - 1` is at most `2 * (k - 1)`. So the height grows
/// with the logarithm of the number of entities.
pub proof fn halved_is_shallow(nodes: Seq<BvhNode>, n: int)
    requires
        arena_ok(nodes),
        0 <= n < nodes.len(),
        halved(nodes, n),
    ensures
        leaves(nodes, n).len() >= 1,
        height(nodes, n) >= 1,
        leaves(nodes, n).len() == 1 <==> height(nodes, n) == 1,
        leaves(nodes, n).len() >= 2 ==> two_to((height(nodes, n) - 1) as nat) <= 2 * (leaves(
            nodes,
            n,
        ).len() - 1),
    decreases n,
{
    assert(node_ok(nodes, n));
    if nodes[n].hitable is None {
        let l = nodes[n].left.unwrap().index as int;
        let r = nodes[n].right.unwrap().index as int;
        halved_is_shallow(nodes, l);
        halved_is_shallow(nodes, r);
        let (a, b) = (leaves(nodes, l).len(), leaves(nodes, r).len());
        let k = leaves(nodes, n).len();
        assert(k == a + b);
        assert(a == k / 2);
        let (ha, hb) = (height(nodes, l), height(nodes, r));
        assert(two_to((ha - 1) as nat) <= 2 * (k - 1) / 2) by {
            if a >= 2 {
                assert(2 * (a - 1) <= k - 1);
            } else {
                assert(two_to(0) == 1);
            }
        }
        assert(two_to((hb - 1) as nat) <= 2 * (k - 1) / 2) by {
            if b >= 2 {
                assert(2 * (b - 1) <= k - 1);
            } else {
                assert(two_to(0) == 1);
            }
        }
        let h = height(nodes, n);
        assert(two_to((h - 1) as nat) == 2 * two_to((h - 2) as nat));
    }
}

/// Along `axis`, no entity of `left` comes after an entity of `right`.
pub open spec fn split_on(left: Seq<Hitable>, right: Seq<Hitable>, axis: int) -> bool {
    forall|i: int, j: int|
        0 <= i < left.len() && 0 <= j < right.len() ==> (#[trigger] left[i]).key(axis) <= (
        #[trigger] right[j]).key(axis)
}

/// Every inner node at or below place `n` splits its entities along one of
/// the three axes: along that axis, none under the left child comes after
/// one under the right child.
pub open spec fn split(nodes: Seq<BvhNode>, n: int) -> bool
    decreases n,
{
    if n < 0 || n >= nodes.len() {
        true
    } else {
        match nodes[n].hitable {
            Some(h) => true,
            None => {
                if nodes[n].left is Some && nodes[n].right is Some && nodes[n].left.unwrap().index
                    < n && nodes[n].right.unwrap().index < n {
                    let l = nodes[n].left.unwrap().index as int;
                    let r = nodes[n].right.unwrap().index as int;
                    &&& exists|axis: int|
                        0 <= axis < 3 && #[trigger] split_on(
                            leaves(nodes, l),
                            leaves(nodes, r),
                            axis,
                        )
                    &&& split(nodes, l)
                    &&& split(nodes, r)
                } else {
                    true
                }
            },
        }
    }
}

/// Every entity under a node at a place from `from` up to `to` is one of
/// `entities`.
pub open spec fn contained(nodes: Seq<BvhNode>, from: int, to: int, entities: Seq<Hitable>) -> bool {
    forall|m: int, i: int|
        from <= m < to && 0 <= i < leaves(nodes, m).len() ==> entities.contains(
            #[trigger] leaves(nodes, m)[i],
        )
}

/// The entities of `s` from `lo` up to `hi` have the same key along each of
/// the three axes.
pub open spec fn all_tied(s: Seq<Hitable>, lo: usize, hi: usize) -> bool {
    span_tied(s, lo, hi, 0) && span_tied(s, lo, hi, 1) && span_tied(s, lo, hi, 2)
}

/// `longer` begins with all of `shorter`.
pub open spec fn extends(longer: Seq<BvhNode>, shorter: Seq<BvhNode>) -> bool {
    &&& shorter.len() <= longer.len()
    &&& forall|n: int| 0 <= n < shorter.len() ==> longer[n] == shorter[n]
}

/// The hierarchy as a value: the nodes of the arena and the place of the root.
pub struct Arena {
    pub nodes: Seq<BvhNode>,
    pub root: usize,
}

impl Arena {
    /// The arena is in order and the root is one of its nodes.
    pub open spec fn wf(self) -> bool {
        arena_ok(self.nodes) && 0 <= self.root < self.nodes.len()
    }

    /// The entities of the hierarchy, from left to right.
    pub open spec fn leaves(self) -> Seq<Hitable> {
        leaves(self.nodes, self.root as int)
    }

    /// Every inner node splits its entities in the middle.
    pub open spec fn halved(self) -> bool {
        halved(self.nodes, self.root as int)
    }

    /// The number of nodes on the longest way from the root to a leaf.
    pub open spec fn height(self) -> nat {
        height(self.nodes, self.root as int)
    }

    /// Every inner node splits its entities along an axis.
    pub open spec fn split(self) -> bool {
        split(self.nodes, self.root as int)
    }

    /// The arena holds nothing but the hierarchy: every entity under any of
    /// its nodes is an entity of the hierarchy.
    pub open spec fn tidy(self) -> bool {
        contained(self.nodes, 0, self.nodes.len() as int, self.leaves())
    }
}

/// What stands under a node does not change when the arena grows.
pub proof fn leaves_stay(longer: Seq<BvhNode>, shorter: Seq<BvhNode>, n: int)
    requires
        extends(longer, shorter),
        0 <= n < shorter.len(),
    ensures
        leaves(longer, n) == leaves(shorter, n),
        halved(longer, n) == halved(shorter, n),
        split(longer, n) == split(shorter, n),
    decreases n,
{
    if shorter[n].hitable is None {
        if shorter[n].left is Some && shorter[n].right is Some && shorter[n].left.unwrap().index < n
            && shorter[n].right.unwrap().index < n {
            leaves_stay(longer, shorter, shorter[n].left.unwrap().index as int);
            leaves_stay(longer, shorter, shorter[n].right.unwrap().index as int);
        }
    }
}

/// What is under the nodes of an arena is under them when the arena has
/// grown, and entities that are among a part are among the whole.
proof fn contained_moves(
    longer: Seq<BvhNode>,
    shorter: Seq<BvhNode>,
    from: int,
    to: int,
    part: Seq<Hitable>,
    whole: Seq<Hitable>,
)
    requires
        extends(longer, shorter),
        0 <= from,
        to <= shorter.len(),
        contained(shorter, from, to, part),
        forall|k: int| 0 <= k < part.len() ==> whole.contains(#[trigger] part[k]),
    ensures
        contained(longer, from, to, whole),
{
    assert forall|m: int, i: int|
        from <= m < to && 0 <= i < leaves(longer, m).len() implies whole.contains(
        #[trigger] leaves(longer, m)[i],
    ) by {
        leaves_stay(longer, shorter, m);
        let x = leaves(shorter, m)[i];
        assert(part.contains(x));
        let k = choose|k: int| 0 <= k < part.len() && part[k] == x;
        assert(whole.contains(part[k]));
    }
}

/// An arena in order stays in order when a node in order is added.
proof fn arena_grows(nodes: Seq<BvhNode>, node: BvhNode)
    requires
        arena_ok(nodes),
        node_ok(nodes.push(node), nodes.len() as int),
    ensures
        arena_ok(nodes.push(node)),
        extends(nodes.push(node), nodes),
{
    let longer = nodes.push(node);
    assert forall|n: int| 0 <= n < longer.len() implies node_ok(longer, n) by {
        if n < nodes.len() {
            assert(node_ok(nodes, n));
        }
    }
}

/// What is in a part of a rearranged span was in the span before.
proof fn rearranged_from(before: Seq<Hitable>, after: Seq<Hitable>, lo: usize, hi: usize, i: int)
        -> (j: int)
    requires
        rearranged(before, after, lo, hi),
        lo <= i < hi <= before.len(),
    ensures
        lo <= j < hi,
        before[j] == after[i],
{
    let a = after.subrange(lo as int, hi as int);
    let b = before.subrange(lo as int, hi as int);
    assert(a[i - lo] == after[i]);
    assert(a.contains(after[i]));
    vstd::seq_lib::to_multiset_contains(a, after[i]);
    vstd::seq_lib::to_multiset_contains(b, after[i]);
    let k = choose|k: int| 0 <= k < b.len() && b[k] == after[i];
    k + lo
}

/// A span rearranged in its lower part and then in its upper part is
/// rearranged as a whole; so is a span that was rearranged as a whole first.
proof fn rearranged_in_parts(
    s0: Seq<Hitable>,
    s1: Seq<Hitable>,
    s2: Seq<Hitable>,
    s3: Seq<Hitable>,
    lo: usize,
    mid: usize,
    hi: usize,
)
    requires
        lo <= mid <= hi <= s0.len(),
        rearranged(s0, s1, lo, hi),
        rearranged(s1, s2, lo, mid),
        rearranged(s2, s3, mid, hi),
    ensures
        rearranged(s0, s3, lo, hi),
        s3.subrange(lo as int, mid as int) == s2.subrange(lo as int, mid as int),
{
    let (l, m, h) = (lo as int, mid as int, hi as int);
    assert(s3.subrange(l, m) =~= s2.subrange(l, m));
    assert(s2.subrange(m, h) =~= s1.subrange(m, h));
    assert(s1.subrange(l, h) =~= s1.subrange(l, m) + s1.subrange(m, h));
    assert(s3.subrange(l, h) =~= s3.subrange(l, m) + s3.subrange(m, h));
    vstd::seq_lib::lemma_multiset_commutative(s1.subrange(l, m), s1.subrange(m, h));
    vstd::seq_lib::lemma_multiset_commutative(s3.subrange(l, m), s3.subrange(m, h));
}

/// Two subtrees of the arena are ready to be joined under a root over the
/// entities of `span`: they stand over its lower half and the rest, each
/// halved and split, and none of the lower half comes after one of the rest
/// along `axis`; from place `base` on the arena holds nothing but entities of
/// `span`.
spec fn pair_ready(
    nodes: Seq<BvhNode>,
    base: int,
    left: NodeId,
    right: NodeId,
    span: Seq<Hitable>,
    axis: int,
) -> bool {
    let l = left.index as int;
    let r = right.index as int;
    &&& arena_ok(nodes)
    &&& 0 <= base
    &&& 0 <= axis < 3
    &&& l < nodes.len()
    &&& r < nodes.len()
    &&& nodes[l].bbox is Some
    &&& nodes[r].bbox is Some
    &&& leaves(nodes, l) + leaves(nodes, r) == span
    &&& leaves(nodes, l).len() == span.len() / 2
    &&& halved(nodes, l)
    &&& halved(nodes, r)
    &&& split(nodes, l)
    &&& split(nodes, r)
    &&& split_on(leaves(nodes, l), leaves(nodes, r), axis)
    &&& contained(nodes, base, nodes.len() as int, span)
}

/// What was sortable in a span is sortable after the span was rearranged.
proof fn rearranged_keeps_sortable(before: Seq<Hitable>, after: Seq<Hitable>, lo: usize, hi: usize)
    requires
        lo <= hi <= before.len(),
        rearranged(before, after, lo, hi),
        forall|i: int| lo <= i < hi ==> (#[trigger] before[i]).sortable(),
    ensures
        forall|i: int| lo <= i < hi ==> (#[trigger] after[i]).sortable(),
{
    assert forall|i: int| lo <= i < hi implies (#[trigger] after[i]).sortable() by {
        let j = rearranged_from(before, after, lo, hi, i);
    }
}

/// Two leaves that were added to an arena in the order of their keys are
/// ready to be joined.
proof fn two_leaves_are_ready(
    nodes: Seq<BvhNode>,
    a: Hitable,
    b: Hitable,
    left: NodeId,
    right: NodeId,
    axis: int,
)
    requires
        arena_ok(nodes),
        0 <= axis < 3,
        a.bbox is Some,
        b.bbox is Some,
        a.key(axis) <= b.key(axis),
        left.index == nodes.len(),
        right.index == nodes.len() + 1,
    ensures
        pair_ready(
            nodes.push(leaf_of(a)).push(leaf_of(b)),
            nodes.len() as int,
            left,
            right,
            seq![a, b],
            axis,
        ),
{
    let one = nodes.push(leaf_of(a));
    let two = one.push(leaf_of(b));
    let span = seq![a, b];
    arena_grows(nodes, leaf_of(a));
    arena_grows(one, leaf_of(b));
    assert(leaves(two, left.index as int) =~= seq![a]);
    assert(leaves(two, right.index as int) =~= seq![b]);
    assert(seq![a] + seq![b] =~= span);
    assert(span.contains(span[0]));
    assert(span.contains(span[1]));
}

/// The two halves of a sorted span, each built into a subtree of its own,
/// are ready to be joined.
proof fn halves_are_ready(
    base: Seq<BvhNode>,
    grown: Seq<BvhNode>,
    nodes: Seq<BvhNode>,
    sorted: Seq<Hitable>,
    halfway: Seq<Hitable>,
    done: Seq<Hitable>,
    lo: usize,
    mid: usize,
    hi: usize,
    axis: usize,
    left: NodeId,
    right: NodeId,
)
    requires
        lo < mid < hi <= sorted.len(),
        mid - lo == (hi - lo) / 2,
        axis < 3,
        span_sorted(sorted, lo, hi, axis),
        rearranged(sorted, halfway, lo, mid),
        rearranged(halfway, done, mid, hi),
        extends(grown, base),
        extends(nodes, grown),
        arena_ok(nodes),
        left.index == grown.len() - 1,
        right.index == nodes.len() - 1,
        base.len() <= left.index,
        grown.len() <= right.index,
        grown[left.index as int].bbox is Some,
        nodes[right.index as int].bbox is Some,
        leaves(grown, left.index as int) == halfway.subrange(lo as int, mid as int),
        leaves(nodes, right.index as int) == done.subrange(mid as int, hi as int),
        halved(grown, left.index as int),
        halved(nodes, right.index as int),
        split(grown, left.index as int),
        split(nodes, right.index as int),
        contained(
            grown,
            base.len() as int,
            grown.len() as int,
            halfway.subrange(lo as int, mid as int),
        ),
        contained(nodes, grown.len() as int, nodes.len() as int, done.subrange(mid as int, hi as int)),
    ensures
        pair_ready(
            nodes,
            base.len() as int,
            left,
            right,
            done.subrange(lo as int, hi as int),
            axis as int,
        ),
{
    let span = done.subrange(lo as int, hi as int);
    let lower = done.subrange(lo as int, mid as int);
    let upper = done.subrange(mid as int, hi as int);
    leaves_stay(nodes, grown, left.index as int);
    assert(halfway.subrange(lo as int, mid as int) =~= lower);
    assert(span =~= lower + upper);
    assert forall|i: int, j: int| 0 <= i < lower.len() && 0 <= j < upper.len() implies (
    #[trigger] lower[i]).key(axis as int) <= (#[trigger] upper[j]).key(axis as int) by {
        let i0 = rearranged_from(sorted, halfway, lo, mid, lo + i);
        let j0 = rearranged_from(halfway, done, mid, hi, mid + j);
        assert(lower[i] == sorted[i0]);
        assert(upper[j] == sorted[j0]);
    }
    assert forall|k: int| 0 <= k < lower.len() implies span.contains(#[trigger] lower[k]) by {
        assert(span[k] == lower[k]);
    }
    assert forall|k: int| 0 <= k < upper.len() implies span.contains(#[trigger] upper[k]) by {
        assert(span[lower.len() + k] == upper[k]);
    }
    contained_moves(nodes, grown, base.len() as int, grown.len() as int, lower, span);
    contained_moves(nodes, nodes, grown.len() as int, nodes.len() as int, upper, span);
}

/// Two subtrees that are ready are joined by a root whose box is the union
/// of theirs: the arena stays in order, and the root stands over the span,
/// halved and split.
proof fn root_joins(
    nodes: Seq<BvhNode>,
    base: int,
    left: NodeId,
    right: NodeId,
    span: Seq<Hitable>,
    axis: int,
)
    requires
        pair_ready(nodes, base, left, right, span, axis),
    ensures
        ({
            let root = inner_of(
                AABB::surrounding(
                    nodes[left.index as int].bbox.unwrap(),
                    nodes[right.index as int].bbox.unwrap(),
                ),
                left,
                right,
            );
            let joined = nodes.push(root);
            let id = nodes.len() as int;
            &&& node_ok(joined, id)
            &&& arena_ok(joined)
            &&& leaves(joined, id) == span
            &&& halved(joined, id)
            &&& split(joined, id)
            &&& contained(joined, base, joined.len() as int, span)
            &&& split_on(
                leaves(joined, left.index as int),
                leaves(joined, right.index as int),
                axis,
            )
        }),
{
    let root = inner_of(
        AABB::surrounding(
            nodes[left.index as int].bbox.unwrap(),
            nodes[right.index as int].bbox.unwrap(),
        ),
        left,
        right,
    );
    let joined = nodes.push(root);
    let id = nodes.len() as int;
    assert(node_ok(joined, id));
    arena_grows(nodes, root);
    leaves_stay(joined, nodes, left.index as int);
    leaves_stay(joined, nodes, right.index as int);
    assert forall|k: int| 0 <= k < span.len() implies span.contains(#[trigger] span[k]) by {}
    contained_moves(joined, nodes, base, nodes.len() as int, span, span);
    assert(split_on(leaves(joined, left.index as int), leaves(joined, right.index as int), axis));
}

/// Whether a hierarchy can be built over the entities: there is at least one,
/// and each has a box whose minimum is made of numbers.
pub fn buildable(l: &Vec<Hitable>) -> (r: bool)
    ensures
        r == (l@.len() >= 1 && forall|i: int| 0 <= i < l@.len() ==> (#[trigger] l@[i]).sortable()),
{
    if l.len() < 1 {
        return false;
    }
    let mut i: usize = 0;
    while i < l.len()
        invariant
            i <= l@.len(),
            forall|k: int| 0 <= k < i ==> (#[trigger] l@[k]).sortable(),
        decreases l@.len() - i,
    {
        match l[i].bbox {
            None => {
                return false;
            },
            Some(b) => {
                if b.min.x.is_nan() || b.min.y.is_nan() || b.min.z.is_nan() {
                    assert(!l@[i as int].sortable());
                    return false;
                }
            },
        }
        i = i + 1;
    }
    true
}

impl BvhTree {
    /// The nodes of the arena and the place of the root.
    pub closed spec fn view(&self) -> Arena {
        Arena { nodes: self.nodes@, root: self.root.index }
    }

    /// Builds the hierarchy over the entities of `l`.
    ///
    /// The entities are sorted along an axis drawn at random; one entity
    /// becomes a leaf, two become two leaves under one node, and more are
    /// split in the middle, each half built in the same way with an axis of
    /// its own. `l` is left in the order in which the leaves hold its
    /// entities. Every entity must have a box whose minimum is made of
    /// numbers, and there must be at least one.
    pub fn new(l: &mut Vec<Hitable>) -> (tree: Self)
        requires
            old(l)@.len() >= 1,
            forall|i: int| 0 <= i < old(l)@.len() ==> (#[trigger] old(l)@[i]).sortable(),
        ensures
            tree@.wf(),
            tree@.leaves() == final(l)@,
            final(l)@.len() == old(l)@.len(),
            final(l)@.to_multiset() == old(l)@.to_multiset(),
            tree@.nodes.len() == 2 * old(l)@.len() - 1,
            tree@.nodes[tree@.root as int].bbox is Some,
            tree@.halved(),
            tree@.split(),
            tree@.tidy(),
            all_tied(old(l)@, 0, old(l)@.len() as usize) ==> final(l)@ == old(l)@,
    {
        let mut tree = BvhTree { nodes: Vec::new(), root: NodeId { index: 0 } };
        let n: usize = l.len();
        tree.root = tree.build(l, 0, n);
        proof {
            assert(final(l)@.subrange(0, n as int) =~= final(l)@);
            assert(old(l)@.subrange(0, n as int) =~= old(l)@);
        }
        tree
    }

    /// Builds the hierarchy over the entities of `l` like `new`, with the
    /// axis of the first split given: 0 is x, 1 is y, 2 is z. The halves
    /// are built with axes drawn at random.
    pub fn new_along(l: &mut Vec<Hitable>, axis: usize) -> (tree: Self)
        requires
            old(l)@.len() >= 1,
            axis < 3,
            forall|i: int| 0 <= i < old(l)@.len() ==> (#[trigger] old(l)@[i]).sortable(),
        ensures
            tree@.wf(),
            tree@.leaves() == final(l)@,
            final(l)@.len() == old(l)@.len(),
            final(l)@.to_multiset() == old(l)@.to_multiset(),
            tree@.nodes.len() == 2 * old(l)@.len() - 1,
            tree@.nodes[tree@.root as int].bbox is Some,
            tree@.halved(),
            tree@.split(),
            tree@.tidy(),
            all_tied(old(l)@, 0, old(l)@.len() as usize) ==> final(l)@ == old(l)@,
            old(l)@.len() >= 2 ==> tree@.nodes[tree@.root as int].hitable is None && split_on(
                leaves(tree@.nodes, tree@.nodes[tree@.root as int].left.unwrap().index as int),
                leaves(tree@.nodes, tree@.nodes[tree@.root as int].right.unwrap().index as int),
                axis as int,
            ),
    {
        let mut tree = BvhTree { nodes: Vec::new(), root: NodeId { index: 0 } };
        let n: usize = l.len();
        tree.root = tree.build_along(l, 0, n, axis);
        proof {
            assert(final(l)@.subrange(0, n as int) =~= final(l)@);
            assert(old(l)@.subrange(0, n as int) =~= old(l)@);
        }
        tree
    }

    /// The number of nodes.
    pub fn len(&self) -> (r: usize)
        ensures
            r == self@.nodes.len(),
    {
        self.nodes.len()
    }

    /// The place of the root.
    pub fn root(&self) -> (r: NodeId)
        ensures
            r.index == self@.root,
    {
        self.root
    }

    /// The node at a place of the arena.
    pub fn node(&self, id: NodeId) -> (r: BvhNode)
        requires
            id.index < self@.nodes.len(),
        ensures
            r == self@.nodes[id.index as int],
    {
        self.nodes[id.index]
    }

    /// The box around everything in the hierarchy: the box of the root.
    pub fn bounding_box(&self) -> (r: Option<AABB>)
        requires
            self@.wf(),
        ensures
            r == self@.nodes[self@.root as int].bbox,
    {
        self.nodes[self.root.index].bbox
    }

    /// Builds the hierarchy over the entities of `l` from `lo` up to `hi`,
    /// split along an axis drawn at random, and returns the place of its
    /// root.
    fn build(&mut self, l: &mut Vec<Hitable>, lo: usize, hi: usize) -> (id: NodeId)
        requires
            lo < hi <= old(l)@.len(),
            arena_ok(old(self).nodes@),
            forall|i: int| lo <= i < hi ==> (#[trigger] old(l)@[i]).sortable(),
        ensures
            arena_ok(final(self).nodes@),
            extends(final(self).nodes@, old(self).nodes@),
            final(self).nodes@.len() == old(self).nodes@.len() + 2 * (hi - lo) - 1,
            id.index == final(self).nodes@.len() - 1,
            final(self).nodes@[id.index as int].bbox is Some,
            rearranged(old(l)@, final(l)@, lo, hi),
            leaves(final(self).nodes@, id.index as int) == final(l)@.subrange(lo as int, hi as int),
            halved(final(self).nodes@, id.index as int),
            split(final(self).nodes@, id.index as int),
            contained(
                final(self).nodes@,
                old(self).nodes@.len() as int,
                final(self).nodes@.len() as int,
                final(l)@.subrange(lo as int, hi as int),
            ),
            all_tied(old(l)@, lo, hi) ==> final(l)@ == old(l)@,
        decreases hi - lo, 1int,
    {
        let axis: usize = random_below(3);
        self.build_along(l, lo, hi, axis)
    }

    /// Builds the hierarchy over the entities of `l` from `lo` up to `hi`,
    /// split along the given axis: the entities are sorted along it, and the
    /// lower half of them goes under the left child of the root.
    fn build_along(&mut self, l: &mut Vec<Hitable>, lo: usize, hi: usize, axis: usize) -> (id:
        NodeId)
        requires
            lo < hi <= old(l)@.len(),
            axis < 3,
            arena_ok(old(self).nodes@),
            forall|i: int| lo <= i < hi ==> (#[trigger] old(l)@[i]).sortable(),
        ensures
            arena_ok(final(self).nodes@),
            extends(final(self).nodes@, old(self).nodes@),
            final(self).nodes@.len() == old(self).nodes@.len() + 2 * (hi - lo) - 1,
            id.index == final(self).nodes@.len() - 1,
            final(self).nodes@[id.index as int].bbox is Some,
            rearranged(old(l)@, final(l)@, lo, hi),
            leaves(final(self).nodes@, id.index as int) == final(l)@.subrange(lo as int, hi as int),
            halved(final(self).nodes@, id.index as int),
            split(final(self).nodes@, id.index as int),
            contained(
                final(self).nodes@,
                old(self).nodes@.len() as int,
                final(self).nodes@.len() as int,
                final(l)@.subrange(lo as int, hi as int),
            ),
            all_tied(old(l)@, lo, hi) ==> final(l)@ == old(l)@,
            hi - lo >= 2 ==> final(self).nodes@[id.index as int].hitable is None && split_on(
                leaves(
                    final(self).nodes@,
                    final(self).nodes@[id.index as int].left.unwrap().index as int,
                ),
                leaves(
                    final(self).nodes@,
                    final(self).nodes@[id.index as int].right.unwrap().index as int,
                ),
                axis as int,
            ),
        decreases hi - lo, 0int,
    {
        assert(span_sortable(l@, lo, hi, axis));
        sort_span(l, lo, hi, axis);
        let ghost sorted = l@;
        let ghost base = self.nodes@;
        proof {
            rearranged_keeps_sortable(old(l)@, sorted, lo, hi);
            if all_tied(old(l)@, lo, hi) {
                tied_span_stays(old(l)@, sorted, lo, hi, axis);
            }
        }
        let left: NodeId;
        let right: NodeId;
        if hi - lo == 1 {
            let id = self.add_leaf(l[lo]);
            proof {
                let span = l@.subrange(lo as int, hi as int);
                assert(span =~= seq![l@[lo as int]]);
                assert(span.contains(span[0]));
            }
            return id;
        } else if hi - lo == 2 {
            left = self.add_leaf(l[lo]);
            right = self.add_leaf(l[lo + 1]);
            proof {
                assert(l@.subrange(lo as int, hi as int) =~= seq![l@[lo as int], l@[lo + 1]]);
                two_leaves_are_ready(base, l@[lo as int], l@[lo + 1], left, right, axis as int);
            }
        } else {
            let half_len: usize = (hi - lo) / 2;
            let mid: usize = lo + half_len;
            left = self.build(l, lo, mid);
            let ghost grown = self.nodes@;
            let ghost halfway = l@;
            proof {
                assert forall|i: int| mid <= i < hi implies (#[trigger] halfway[i]).sortable() by {
                    assert(halfway[i] == sorted[i]);
                }
            }
            right = self.build(l, mid, hi);
            proof {
                rearranged_in_parts(old(l)@, sorted, halfway, l@, lo, mid, hi);
                halves_are_ready(
                    base,
                    grown,
                    self.nodes@,
                    sorted,
                    halfway,
                    l@,
                    lo,
                    mid,
                    hi,
                    axis,
                    left,
                    right,
                );
            }
        }
        let ghost children = self.nodes@;
        let left_box = self.nodes[left.index].bbox.unwrap();
        let right_box = self.nodes[right.index].bbox.unwrap();
        proof {
            root_joins(
                children,
                base.len() as int,
                left,
                right,
                l@.subrange(lo as int, hi as int),
                axis as int,
            );
        }
        self.add_node(AABB::surrounding_box(&left_box, &right_box), left, right)
    }

    /// Adds the leaf that holds an entity, and returns its place.
    fn add_leaf(&mut self, hitable: Hitable) -> (id: NodeId)
        requires
            arena_ok(old(self).nodes@),
        ensures
            final(self).nodes@ == old(self).nodes@.push(leaf_of(hitable)),
            final(self).root == old(self).root,
            id.index == old(self).nodes@.len(),
            arena_ok(final(self).nodes@),
            extends(final(self).nodes@, old(self).nodes@),
    {
        let next_index: usize = self.nodes.len();
        proof {
            arena_grows(self.nodes@, leaf_of(hitable));
        }
        self.nodes.push(BvhNode { bbox: hitable.bbox, left: None, right: None, hitable: Some(hitable) });
        NodeId { index: next_index }
    }

    /// Adds the inner node over two children, and returns its place.
    fn add_node(&mut self, bbox: AABB, left: NodeId, right: NodeId) -> (id: NodeId)
        requires
            arena_ok(old(self).nodes@),
            node_ok(
                old(self).nodes@.push(inner_of(bbox, left, right)),
                old(self).nodes@.len() as int,
            ),
        ensures
            final(self).nodes@ == old(self).nodes@.push(inner_of(bbox, left, right)),
            final(self).root == old(self).root,
            id.index == old(self).nodes@.len(),
            arena_ok(final(self).nodes@),
            extends(final(self).nodes@, old(self).nodes@),
    {
        let next_index: usize = self.nodes.len();
        proof {
            arena_grows(self.nodes@, inner_of(bbox, left, right));
        }
        self.nodes.push(BvhNode { left: Some(left), right: Some(right), bbox: Some(bbox), hitable: None });
        NodeId { index: next_index }
    }
}

} // verus!
