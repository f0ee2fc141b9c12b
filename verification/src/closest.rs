//! What the two searches find: the scan of a list and the search of a
//! hierarchy both end with a closest hit of the scene, and so with hits at
//! the same parameter.

use vstd::prelude::*;
use crate::aabb::{surrounding_box_encloses, AABB};
use crate::bvh_node::{arena_ok, leaves, node_ok, Arena, BvhNode};
use crate::hitable::{nearer, HitRecord, Hitable, Probe, ScanState};
use crate::scalar::Scalar;
use crate::traversal::{tree_hit, Slabs};

verus! {

/// The entity with handle `id` answers every window that starts at `t_min`
/// in keeping with its hit in the window up to `t_max`: the parameter of that
/// hit is a number; in a window that ends at a number `c` it reports that hit
/// or none, never a hit beyond `c`, and always the hit if it is before `c`.
pub open spec fn steady(probe: Probe, id: usize, t_min: Scalar, t_max: Scalar) -> bool {
    let whole = probe(id, t_min, t_max);
    &&& whole is Some ==> !whole.unwrap().t.nan()
    &&& forall|c: Scalar|
        !c.nan() ==> match #[trigger] probe(id, t_min, c) {
            Some(x) => whole == Some(x) && x.t.at_most(c),
            None => !(whole is Some && whole.unwrap().t.less(c)),
        }
}

/// The boxes of the arena are sound for the ray: wherever an entity under a
/// node is hit in the window, the slab test of the node's box succeeds.
pub open spec fn sound(
    nodes: Seq<BvhNode>,
    slabs: Slabs,
    probe: Probe,
    t_min: Scalar,
    t_max: Scalar,
) -> bool {
    forall|n: int, i: int|
        0 <= n < nodes.len() && 0 <= i < leaves(nodes, n).len() && nodes[n].bbox is Some && (
        #[trigger] probe(leaves(nodes, n)[i].id, t_min, t_max)) is Some ==> AABB::slabs_hit(
            slabs(nodes[n].bbox.unwrap()),
            t_min,
            t_max,
        )
}

/// The boxes of the leaves are made of numbers.
pub open spec fn leaf_boxes_are_numbers(nodes: Seq<BvhNode>) -> bool {
    forall|n: int|
        0 <= n < nodes.len() && (#[trigger] nodes[n]).hitable is Some && nodes[n].bbox is Some
            ==> !nodes[n].bbox.unwrap().nan()
}

/// The slab test is monotone for the ray: a box that encloses a box that the
/// ray meets in the window is met in the window too.
pub open spec fn monotone(slabs: Slabs, t_min: Scalar, t_max: Scalar) -> bool {
    forall|outer: AABB, inner: AABB|
        outer.encloses(inner) && AABB::slabs_hit(#[trigger] slabs(inner), t_min, t_max)
            ==> AABB::slabs_hit(#[trigger] slabs(outer), t_min, t_max)
}

/// The box of each entity is sound for the ray: an entity that is hit in the
/// window has a box that the ray meets in the window.
pub open spec fn boxes_sound(
    entities: Seq<Hitable>,
    slabs: Slabs,
    probe: Probe,
    t_min: Scalar,
    t_max: Scalar,
) -> bool {
    forall|i: int|
        0 <= i < entities.len() && entities[i].bbox is Some && (#[trigger] probe(
            entities[i].id,
            t_min,
            t_max,
        )) is Some ==> AABB::slabs_hit(slabs(entities[i].bbox.unwrap()), t_min, t_max)
}

/// The box of a node encloses the box of every entity under the node, and is
/// made of numbers, where the boxes of the leaves are.
pub proof fn node_box_encloses_leaves(nodes: Seq<BvhNode>, n: int)
    requires
        arena_ok(nodes),
        leaf_boxes_are_numbers(nodes),
        0 <= n < nodes.len(),
        nodes[n].bbox is Some,
    ensures
        !nodes[n].bbox.unwrap().nan(),
        forall|i: int|
            0 <= i < leaves(nodes, n).len() ==> (#[trigger] leaves(nodes, n)[i]).bbox is Some
                && nodes[n].bbox.unwrap().encloses(leaves(nodes, n)[i].bbox.unwrap()),
    decreases n,
{
    assert(node_ok(nodes, n));
    let here = nodes[n].bbox.unwrap();
    match nodes[n].hitable {
        Some(h) => {
            assert(leaves(nodes, n) =~= seq![h]);
        },
        None => {
            let l = nodes[n].left.unwrap().index as int;
            let r = nodes[n].right.unwrap().index as int;
            let (bl, br) = (nodes[l].bbox.unwrap(), nodes[r].bbox.unwrap());
            let (ul, ur) = (leaves(nodes, l), leaves(nodes, r));
            node_box_encloses_leaves(nodes, l);
            node_box_encloses_leaves(nodes, r);
            surrounding_box_encloses(bl, br);
            assert(leaves(nodes, n) == ul + ur);
            assert forall|i: int| 0 <= i < leaves(nodes, n).len() implies (#[trigger] leaves(
                nodes,
                n,
            )[i]).bbox is Some && here.encloses(leaves(nodes, n)[i].bbox.unwrap()) by {
                if i < ul.len() {
                    assert(leaves(nodes, n)[i] == ul[i]);
                    assert(bl.encloses(ul[i].bbox.unwrap()));
                } else {
                    assert(leaves(nodes, n)[i] == ur[i - ul.len()]);
                    assert(br.encloses(ur[i - ul.len()].bbox.unwrap()));
                }
            }
        },
    }
}

/// The boxes of a hierarchy are sound for a ray where the boxes of its
/// entities are, and the slab test is monotone.
pub proof fn hierarchy_is_sound(
    tree: Arena,
    slabs: Slabs,
    probe: Probe,
    t_min: Scalar,
    t_max: Scalar,
)
    requires
        tree.wf(),
        tree.tidy(),
        leaf_boxes_are_numbers(tree.nodes),
        monotone(slabs, t_min, t_max),
        boxes_sound(tree.leaves(), slabs, probe, t_min, t_max),
    ensures
        sound(tree.nodes, slabs, probe, t_min, t_max),
{
    let nodes = tree.nodes;
    let entities = tree.leaves();
    assert forall|n: int, i: int|
        0 <= n < nodes.len() && 0 <= i < leaves(nodes, n).len() && nodes[n].bbox is Some && (
        #[trigger] probe(leaves(nodes, n)[i].id, t_min, t_max)) is Some implies AABB::slabs_hit(
        slabs(nodes[n].bbox.unwrap()),
        t_min,
        t_max,
    ) by {
        let e = leaves(nodes, n)[i];
        node_box_encloses_leaves(nodes, n);
        assert(entities.contains(e));
        let k = choose|k: int| 0 <= k < entities.len() && entities[k] == e;
        assert(probe(entities[k].id, t_min, t_max) is Some);
        assert(AABB::slabs_hit(slabs(e.bbox.unwrap()), t_min, t_max));
        assert(nodes[n].bbox.unwrap().encloses(e.bbox.unwrap()));
    }
}

/// `r` is a closest hit among the entities: the hit of one of them in the
/// window, with a parameter that is a number and that no hit of another
/// undercuts; or none, where none of them is hit.
pub open spec fn closest_of(
    r: Option<HitRecord>,
    entities: Seq<Hitable>,
    probe: Probe,
    t_min: Scalar,
    t_max: Scalar,
) -> bool {
    match r {
        Some(x) => {
            &&& !x.t.nan()
            &&& exists|i: int|
                0 <= i < entities.len() && #[trigger] probe(entities[i].id, t_min, t_max) == Some(
                    x,
                )
            &&& forall|i: int|
                0 <= i < entities.len() ==> match #[trigger] probe(entities[i].id, t_min, t_max) {
                    Some(y) => x.t.rank() <= y.t.rank(),
                    None => true,
                }
        },
        None => forall|i: int|
            0 <= i < entities.len() ==> (#[trigger] probe(entities[i].id, t_min, t_max)) is None,
    }
}

/// A scan that holds a closest hit of the members it has asked ends with a
/// closest hit of all members.
pub proof fn scan_ends_closest(state: ScanState, list: Seq<Hitable>, probe: Probe, t_max: Scalar)
    requires
        forall|id: usize| steady(probe, id, state.t_min, t_max),
        state.next <= list.len(),
        closest_of(state.current, list.take(state.next as int), probe, state.t_min, t_max),
        match state.current {
            Some(x) => state.closest_so_far == x.t,
            None => state.closest_so_far == t_max,
        },
    ensures
        closest_of(state.outcome(list, probe), list, probe, state.t_min, t_max),
    decreases list.len() - state.next,
{
    let t_min = state.t_min;
    let k = state.next as int;
    let asked = list.take(k);
    if state.next >= list.len() {
        assert(asked =~= list);
    } else {
        let id = list[k].id;
        let whole = probe(id, t_min, t_max);
        let got = probe(id, t_min, state.closest_so_far);
        let after = state.absorb(list, got);
        let more = list.take(k + 1);
        assert(steady(probe, id, t_min, t_max));
        assert(more.drop_last() =~= asked);
        assert(more.last() == list[k]);
        assert forall|i: int| 0 <= i < asked.len() implies asked[i] == more[i] by {}
        match state.current {
            Some(x) => {
                let i0 = choose|i: int|
                    0 <= i < asked.len() && #[trigger] probe(asked[i].id, t_min, t_max) == Some(x);
                assert(probe(more[i0].id, t_min, t_max) == Some(x));
                match got {
                    Some(z) => {
                        assert(probe(more[k].id, t_min, t_max) == Some(z));
                        assert forall|i: int| 0 <= i < more.len() implies match #[trigger] probe(
                            more[i].id,
                            t_min,
                            t_max,
                        ) {
                            Some(y) => z.t.rank() <= y.t.rank(),
                            None => true,
                        } by {
                            if i < k {
                                assert(more[i] == asked[i]);
                            }
                        }
                    },
                    None => {
                        assert forall|i: int| 0 <= i < more.len() implies match #[trigger] probe(
                            more[i].id,
                            t_min,
                            t_max,
                        ) {
                            Some(y) => x.t.rank() <= y.t.rank(),
                            None => true,
                        } by {
                            if i < k {
                                assert(more[i] == asked[i]);
                            }
                        }
                    },
                }
            },
            None => {
                assert(got == whole);
                match got {
                    Some(z) => {
                        assert(probe(more[k].id, t_min, t_max) == Some(z));
                        assert forall|i: int| 0 <= i < more.len() implies match #[trigger] probe(
                            more[i].id,
                            t_min,
                            t_max,
                        ) {
                            Some(y) => z.t.rank() <= y.t.rank(),
                            None => true,
                        } by {
                            if i < k {
                                assert(more[i] == asked[i]);
                                assert(probe(asked[i].id, t_min, t_max) is None);
                            }
                        }
                    },
                    None => {
                        assert forall|i: int| 0 <= i < more.len() implies (#[trigger] probe(
                            more[i].id,
                            t_min,
                            t_max,
                        )) is None by {
                            if i < k {
                                assert(more[i] == asked[i]);
                            }
                        }
                    },
                }
            },
        }
        scan_ends_closest(after, list, probe, t_max);
    }
}

/// The scan of a list ends with a closest hit of its members, where the
/// members answer steadily.
pub proof fn scan_finds_closest(list: Seq<Hitable>, probe: Probe, t_min: Scalar, t_max: Scalar)
    requires
        forall|id: usize| steady(probe, id, t_min, t_max),
    ensures
        closest_of(ScanState::start(t_min, t_max).outcome(list, probe), list, probe, t_min, t_max),
{
    assert(list.take(0) =~= Seq::<Hitable>::empty());
    scan_ends_closest(ScanState::start(t_min, t_max), list, probe, t_max);
}

/// The search of a hierarchy finds, under every node, a closest hit of the
/// entities under that node, where the entities answer steadily and the boxes
/// are sound.
pub proof fn tree_finds_closest(
    nodes: Seq<BvhNode>,
    n: int,
    slabs: Slabs,
    probe: Probe,
    t_min: Scalar,
    t_max: Scalar,
)
    requires
        arena_ok(nodes),
        0 <= n < nodes.len(),
        forall|id: usize| steady(probe, id, t_min, t_max),
        sound(nodes, slabs, probe, t_min, t_max),
    ensures
        closest_of(
            tree_hit(nodes, n, slabs, probe, t_min, t_max),
            leaves(nodes, n),
            probe,
            t_min,
            t_max,
        ),
    decreases n,
{
    let under = leaves(nodes, n);
    let here = tree_hit(nodes, n, slabs, probe, t_min, t_max);
    assert(node_ok(nodes, n));
    if nodes[n].bbox is Some && !AABB::slabs_hit(slabs(nodes[n].bbox.unwrap()), t_min, t_max) {
        assert forall|i: int| 0 <= i < under.len() implies (#[trigger] probe(
            under[i].id,
            t_min,
            t_max,
        )) is None by {}
    } else {
        match nodes[n].hitable {
            Some(h) => {
                assert(under =~= seq![h]);
                assert(steady(probe, h.id, t_min, t_max));
                assert(here == probe(under[0].id, t_min, t_max));
            },
            None => {
                let l = nodes[n].left.unwrap().index as int;
                let r = nodes[n].right.unwrap().index as int;
                let (ul, ur) = (leaves(nodes, l), leaves(nodes, r));
                let hl = tree_hit(nodes, l, slabs, probe, t_min, t_max);
                let hr = tree_hit(nodes, r, slabs, probe, t_min, t_max);
                tree_finds_closest(nodes, l, slabs, probe, t_min, t_max);
                tree_finds_closest(nodes, r, slabs, probe, t_min, t_max);
                assert(under == ul + ur);
                assert(here == nearer(hl, hr));
                assert forall|i: int| 0 <= i < ul.len() implies under[i] == ul[i] by {}
                assert forall|i: int| 0 <= i < ur.len() implies under[ul.len() + i] == ur[i] by {}
                if hl is Some {
                    let i0 = choose|i: int|
                        0 <= i < ul.len() && #[trigger] probe(ul[i].id, t_min, t_max) == hl;
                    assert(probe(under[i0].id, t_min, t_max) == hl);
                }
                if hr is Some {
                    let i0 = choose|i: int|
                        0 <= i < ur.len() && #[trigger] probe(ur[i].id, t_min, t_max) == hr;
                    assert(probe(under[ul.len() + i0].id, t_min, t_max) == hr);
                }
                match here {
                    Some(x) => {
                        assert forall|i: int| 0 <= i < under.len() implies match #[trigger] probe(
                            under[i].id,
                            t_min,
                            t_max,
                        ) {
                            Some(y) => x.t.rank() <= y.t.rank(),
                            None => true,
                        } by {
                            if i < ul.len() {
                                assert(under[i] == ul[i]);
                            } else {
                                assert(under[ul.len() + (i - ul.len())] == ur[i - ul.len()]);
                            }
                        }
                    },
                    None => {
                        assert forall|i: int| 0 <= i < under.len() implies (#[trigger] probe(
                            under[i].id,
                            t_min,
                            t_max,
                        )) is None by {
                            if i < ul.len() {
                                assert(under[i] == ul[i]);
                            } else {
                                assert(under[ul.len() + (i - ul.len())] == ur[i - ul.len()]);
                            }
                        }
                    },
                }
            },
        }
    }
}

/// Two closest hits of the same entities, in whatever order these are held:
/// both are hits or neither is, and two hits have the same parameter.
pub proof fn closest_hits_agree(
    a: Option<HitRecord>,
    b: Option<HitRecord>,
    first: Seq<Hitable>,
    second: Seq<Hitable>,
    probe: Probe,
    t_min: Scalar,
    t_max: Scalar,
)
    requires
        first.to_multiset() == second.to_multiset(),
        closest_of(a, first, probe, t_min, t_max),
        closest_of(b, second, probe, t_min, t_max),
    ensures
        a is Some <==> b is Some,
        a is Some ==> a.unwrap().t.same(b.unwrap().t),
{
    assert forall|i: int| 0 <= i < first.len() implies second.contains(#[trigger] first[i]) by {
        assert(first.contains(first[i]));
        vstd::seq_lib::to_multiset_contains(first, first[i]);
        vstd::seq_lib::to_multiset_contains(second, first[i]);
    }
    assert forall|i: int| 0 <= i < second.len() implies first.contains(#[trigger] second[i]) by {
        assert(second.contains(second[i]));
        vstd::seq_lib::to_multiset_contains(first, second[i]);
        vstd::seq_lib::to_multiset_contains(second, second[i]);
    }
    if a is Some {
        let x = a.unwrap();
        let i = choose|i: int|
            0 <= i < first.len() && #[trigger] probe(first[i].id, t_min, t_max) == Some(x);
        assert(second.contains(first[i]));
        let j = choose|j: int| 0 <= j < second.len() && second[j] == first[i];
        assert(probe(second[j].id, t_min, t_max) == Some(x));
    }
    if b is Some {
        let y = b.unwrap();
        let j = choose|j: int|
            0 <= j < second.len() && #[trigger] probe(second[j].id, t_min, t_max) == Some(y);
        assert(first.contains(second[j]));
        let i = choose|i: int| 0 <= i < first.len() && first[i] == second[j];
        assert(probe(first[i].id, t_min, t_max) == Some(y));
    }
}

/// The search of a hierarchy and the scan of a list agree on the closest
/// hit, by its parameter.
///
/// For a hierarchy in order and a list that hold the same entities, a ray
/// whose entities answer steadily and for which the boxes are sound: the
/// search finds a hit exactly when the scan finds one, and the two hits have
/// the same parameter. Both are closest hits of the scene.
pub proof fn hierarchy_agrees_with_scan(
    tree: Arena,
    list: Seq<Hitable>,
    slabs: Slabs,
    probe: Probe,
    t_min: Scalar,
    t_max: Scalar,
)
    requires
        tree.wf(),
        tree.leaves().to_multiset() == list.to_multiset(),
        forall|id: usize| steady(probe, id, t_min, t_max),
        sound(tree.nodes, slabs, probe, t_min, t_max),
    ensures
        closest_of(
            tree_hit(tree.nodes, tree.root as int, slabs, probe, t_min, t_max),
            list,
            probe,
            t_min,
            t_max,
        ),
        closest_of(ScanState::start(t_min, t_max).outcome(list, probe), list, probe, t_min, t_max),
        ScanState::start(t_min, t_max).outcome(list, probe) is Some <==> tree_hit(
            tree.nodes,
            tree.root as int,
            slabs,
            probe,
            t_min,
            t_max,
        ) is Some,
        ScanState::start(t_min, t_max).outcome(list, probe) is Some ==> tree_hit(
            tree.nodes,
            tree.root as int,
            slabs,
            probe,
            t_min,
            t_max,
        ).unwrap().t.same(ScanState::start(t_min, t_max).outcome(list, probe).unwrap().t),
{
    let found = tree_hit(tree.nodes, tree.root as int, slabs, probe, t_min, t_max);
    let scanned = ScanState::start(t_min, t_max).outcome(list, probe);
    tree_finds_closest(tree.nodes, tree.root as int, slabs, probe, t_min, t_max);
    scan_finds_closest(list, probe, t_min, t_max);
    closest_hits_agree(found, scanned, tree.leaves(), list, probe, t_min, t_max);
    closest_moves(found, tree.leaves(), list, probe, t_min, t_max);
}

/// A closest hit of some entities is a closest hit of the same entities in
/// another order.
pub proof fn closest_moves(
    r: Option<HitRecord>,
    first: Seq<Hitable>,
    second: Seq<Hitable>,
    probe: Probe,
    t_min: Scalar,
    t_max: Scalar,
)
    requires
        first.to_multiset() == second.to_multiset(),
        closest_of(r, first, probe, t_min, t_max),
    ensures
        closest_of(r, second, probe, t_min, t_max),
{
    assert forall|j: int| 0 <= j < second.len() implies first.contains(#[trigger] second[j]) by {
        assert(second.contains(second[j]));
        vstd::seq_lib::to_multiset_contains(first, second[j]);
        vstd::seq_lib::to_multiset_contains(second, second[j]);
    }
    match r {
        Some(x) => {
            let i = choose|i: int|
                0 <= i < first.len() && #[trigger] probe(first[i].id, t_min, t_max) == Some(x);
            assert(first.contains(first[i]));
            vstd::seq_lib::to_multiset_contains(first, first[i]);
            vstd::seq_lib::to_multiset_contains(second, first[i]);
            let j = choose|j: int| 0 <= j < second.len() && second[j] == first[i];
            assert(probe(second[j].id, t_min, t_max) == Some(x));
            assert forall|j: int| 0 <= j < second.len() implies match #[trigger] probe(
                second[j].id,
                t_min,
                t_max,
            ) {
                Some(y) => x.t.rank() <= y.t.rank(),
                None => true,
            } by {
                assert(first.contains(second[j]));
                let i = choose|i: int| 0 <= i < first.len() && first[i] == second[j];
                assert(probe(first[i].id, t_min, t_max) == probe(second[j].id, t_min, t_max));
            }
        },
        None => {
            assert forall|j: int| 0 <= j < second.len() implies (#[trigger] probe(
                second[j].id,
                t_min,
                t_max,
            )) is None by {
                assert(first.contains(second[j]));
                let i = choose|i: int| 0 <= i < first.len() && first[i] == second[j];
                assert(probe(first[i].id, t_min, t_max) is None);
            }
        },
    }
}

} // verus!
