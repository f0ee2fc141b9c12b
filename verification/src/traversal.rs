//! The search for the closest hit in the hierarchy.
//!
//! The search walks the tree with a stack of its own. Whenever it needs to
//! know where the ray crosses a box, or where it hits an entity, it stops
//! with that question; the caller answers and the search goes on.

use vstd::prelude::*;
use crate::aabb::{Crossings, AABB};
use crate::bvh_node::{arena_ok, node_ok, Arena, BvhNode, BvhTree, NodeId};
use crate::hitable::{closer, nearer, HitRecord, Probe, Query};
use crate::scalar::Scalar;

verus! {

/// What a search has left to do.
#[derive(Clone, Copy, Debug)]
pub enum Task {
    /// Test the box of the node at this place, and enter the node if the ray
    /// meets the box.
    Visit(usize),
    /// Ask the entity of the node at this place, or go on to its children.
    Enter(usize),
    /// Take the closer of the two hits found last.
    Combine,
}

/// What the caller found out for a search.
#[derive(Clone, Copy, Debug)]
pub enum Answer {
    /// Where the ray crosses the planes of the box that was asked about.
    Bounds(Crossings),
    /// The hit of the entity that was asked about, within the window that
    /// was asked about.
    Shape(Option<HitRecord>),
}

/// The boxes of a scene for one ray: for a box, where the ray crosses its
/// planes.
pub type Slabs = spec_fn(AABB) -> Crossings;

/// The hit that a search finds under the node at place `n`: none where the
/// ray misses the node's box; the entity's hit in a leaf; under an inner
/// node the closer of what is found under the two children, each searched in
/// the same window.
pub open spec fn tree_hit(
    nodes: Seq<BvhNode>,
    n: int,
    slabs: Slabs,
    probe: Probe,
    t_min: Scalar,
    t_max: Scalar,
) -> Option<HitRecord>
    decreases n,
{
    if n < 0 || n >= nodes.len() {
        None
    } else if nodes[n].bbox is Some && !AABB::slabs_hit(
        slabs(nodes[n].bbox.unwrap()),
        t_min,
        t_max,
    ) {
        None
    } else {
        match nodes[n].hitable {
            Some(h) => probe(h.id, t_min, t_max),
            None => {
                if nodes[n].left is Some && nodes[n].right is Some && nodes[n].left.unwrap().index
                    < n && nodes[n].right.unwrap().index < n {
                    nearer(
                        tree_hit(
                            nodes,
                            nodes[n].left.unwrap().index as int,
                            slabs,
                            probe,
                            t_min,
                            t_max,
                        ),
                        tree_hit(
                            nodes,
                            nodes[n].right.unwrap().index as int,
                            slabs,
                            probe,
                            t_min,
                            t_max,
                        ),
                    )
                } else {
                    None
                }
            },
        }
    }
}

/// The steps that entering the node at place `n` takes at most.
pub open spec fn enter_cost(nodes: Seq<BvhNode>, n: int) -> nat
    decreases n,
{
    if n < 0 || n >= nodes.len() {
        1
    } else if nodes[n].hitable is None && nodes[n].left is Some && nodes[n].right is Some
        && nodes[n].left.unwrap().index < n && nodes[n].right.unwrap().index < n {
        4 + enter_cost(nodes, nodes[n].left.unwrap().index as int) + enter_cost(
            nodes,
            nodes[n].right.unwrap().index as int,
        )
    } else {
        1
    }
}

/// The steps that a task takes at most.
pub open spec fn task_cost(nodes: Seq<BvhNode>, task: Task) -> nat {
    match task {
        Task::Visit(n) => 1 + enter_cost(nodes, n as int),
        Task::Enter(n) => enter_cost(nodes, n as int),
        Task::Combine => 1,
    }
}

/// The steps that a stack of tasks takes at most.
pub open spec fn work_cost(nodes: Seq<BvhNode>, work: Seq<Task>) -> nat
    decreases work.len(),
{
    if work.len() == 0 {
        0
    } else {
        task_cost(nodes, work.last()) + work_cost(nodes, work.drop_last())
    }
}

/// Whether a stack of tasks, worked off from its top with `held` hits at
/// hand, always finds two hits to combine and ends with exactly one.
pub open spec fn works_out(work: Seq<Task>, held: int) -> bool
    decreases work.len(),
{
    if work.len() == 0 {
        held == 1
    } else {
        match work.last() {
            Task::Combine => held >= 2 && works_out(work.drop_last(), held - 1),
            _ => works_out(work.drop_last(), held + 1),
        }
    }
}

/// The state of a search: its window, the stack of what is left to do (the
/// top is the last), and the hits found and not yet combined.
pub struct Walk {
    pub t_min: Scalar,
    pub t_max: Scalar,
    pub work: Seq<Task>,
    pub found: Seq<Option<HitRecord>>,
}

impl Walk {
    /// The state before the first step: the root is to be visited.
    pub open spec fn start(root: usize, t_min: Scalar, t_max: Scalar) -> Walk {
        Walk { t_min, t_max, work: seq![Task::Visit(root)], found: Seq::empty() }
    }

    /// Every task names a node of the arena, and the stack works out.
    pub open spec fn wf(self, nodes: Seq<BvhNode>) -> bool {
        &&& forall|i: int|
            0 <= i < self.work.len() ==> match #[trigger] self.work[i] {
                Task::Visit(n) => n < nodes.len(),
                Task::Enter(n) => n < nodes.len(),
                Task::Combine => true,
            }
        &&& works_out(self.work, self.found.len() as int)
    }

    /// The steps that are left at most.
    pub open spec fn cost(self, nodes: Seq<BvhNode>) -> nat {
        work_cost(nodes, self.work)
    }

    /// Nothing is left to do.
    pub open spec fn done(self) -> bool {
        self.work.len() == 0
    }

    /// The next step needs an answer from the caller, or nothing is left to
    /// do.
    pub open spec fn settled(self, nodes: Seq<BvhNode>) -> bool {
        self.done() || match self.work.last() {
            Task::Visit(n) => nodes[n as int].bbox is Some,
            Task::Enter(n) => nodes[n as int].hitable is Some,
            Task::Combine => false,
        }
    }

    /// The question that is open in a settled state.
    pub open spec fn query(self, nodes: Seq<BvhNode>) -> Query {
        if self.done() {
            Query::Done(
                if self.found.len() > 0 {
                    self.found.last()
                } else {
                    None
                },
            )
        } else {
            match self.work.last() {
                Task::Visit(n) => Query::Bounds { bbox: nodes[n as int].bbox.unwrap() },
                Task::Enter(n) => Query::Shape {
                    hitable: nodes[n as int].hitable.unwrap().id,
                    t_min: self.t_min,
                    t_max: self.t_max,
                },
                Task::Combine => Query::Done(None),
            }
        }
    }

    /// The state after one step.
    ///
    /// A visit of a node without a box enters the node. A visit of a node
    /// with a box waits for the crossings of that box: where the slab test
    /// fails on them, nothing is found under this node, else the node is
    /// entered. Entering an inner node leaves its left child to visit, then
    /// its right child, then the two hits to combine. Entering a leaf waits
    /// for the hit of its entity, which is what is found there. Combining
    /// replaces the two hits found last by the closer of them.
    ///
    /// A step that waits for an answer and gets none, or one of the other
    /// kind, changes nothing; so does a step when nothing is left to do.
    pub open spec fn step(self, nodes: Seq<BvhNode>, answer: Option<Answer>) -> Walk {
        if self.done() {
            self
        } else {
            let rest = self.work.drop_last();
            match self.work.last() {
                Task::Visit(n) => match nodes[n as int].bbox {
                    None => Walk { work: rest.push(Task::Enter(n)), ..self },
                    Some(_) => match answer {
                        Some(Answer::Bounds(c)) => if AABB::slabs_hit(c, self.t_min, self.t_max) {
                            Walk { work: rest.push(Task::Enter(n)), ..self }
                        } else {
                            Walk { work: rest, found: self.found.push(None), ..self }
                        },
                        _ => self,
                    },
                },
                Task::Enter(n) => match nodes[n as int].hitable {
                    None => Walk {
                        work: rest.push(Task::Combine).push(
                            Task::Visit(nodes[n as int].right.unwrap().index),
                        ).push(Task::Visit(nodes[n as int].left.unwrap().index)),
                        ..self
                    },
                    Some(_) => match answer {
                        Some(Answer::Shape(h)) => Walk {
                            work: rest,
                            found: self.found.push(h),
                            ..self
                        },
                        _ => self,
                    },
                },
                Task::Combine => Walk {
                    work: rest,
                    found: self.found.drop_last().drop_last().push(
                        nearer(self.found[self.found.len() - 2], self.found.last()),
                    ),
                    ..self
                },
            }
        }
    }

    /// The state in which the search next stops: the steps that need no
    /// answer are taken until one needs an answer or nothing is left to do.
    pub open spec fn settle(self, nodes: Seq<BvhNode>) -> Walk
        decreases self.cost(nodes),
        when arena_ok(nodes) && self.wf(nodes)
    {
        if self.settled(nodes) {
            self
        } else {
            proof {
                step_goes_on(self, nodes, None);
            }
            self.step(nodes, None).settle(nodes)
        }
    }

    /// The answer of a scene to the question that is open: the crossings of
    /// the box asked about, or the hit of the entity asked about; none where
    /// no question is open.
    pub open spec fn reply(self, nodes: Seq<BvhNode>, slabs: Slabs, probe: Probe) -> Option<
        Answer,
    > {
        if self.done() || !self.settled(nodes) {
            None
        } else {
            match self.work.last() {
                Task::Visit(n) => Some(Answer::Bounds(slabs(nodes[n as int].bbox.unwrap()))),
                Task::Enter(n) => Some(
                    Answer::Shape(probe(nodes[n as int].hitable.unwrap().id, self.t_min, self.t_max)),
                ),
                Task::Combine => None,
            }
        }
    }

    /// The state in which the search ends when every question is answered by
    /// the scene.
    pub open spec fn finish(self, nodes: Seq<BvhNode>, slabs: Slabs, probe: Probe) -> Walk
        decreases self.cost(nodes),
        when arena_ok(nodes) && self.wf(nodes)
    {
        if self.done() {
            self
        } else {
            proof {
                step_goes_on(self, nodes, self.reply(nodes, slabs, probe));
            }
            self.step(nodes, self.reply(nodes, slabs, probe)).finish(nodes, slabs, probe)
        }
    }
}

/// The cost of a stack is the cost of its top and of what is under it.
pub proof fn cost_of_push(nodes: Seq<BvhNode>, work: Seq<Task>, task: Task)
    ensures
        work_cost(nodes, work.push(task)) == work_cost(nodes, work) + task_cost(nodes, task),
{
    assert(work.push(task).drop_last() =~= work);
}

/// A stack with a task on top works out like the stack under it with the
/// task's effect on the hits at hand.
pub proof fn works_out_of_push(work: Seq<Task>, task: Task, held: int)
    ensures
        works_out(work.push(task), held) == match task {
            Task::Combine => held >= 2 && works_out(work, held - 1),
            _ => works_out(work, held + 1),
        },
{
    assert(work.push(task).drop_last() =~= work);
}

/// A step keeps a search in order, and unless it waits for an answer that it
/// did not get, it brings the search nearer to its end.
pub proof fn step_goes_on(walk: Walk, nodes: Seq<BvhNode>, answer: Option<Answer>)
    requires
        arena_ok(nodes),
        walk.wf(nodes),
    ensures
        walk.step(nodes, answer).wf(nodes),
        walk.step(nodes, answer).t_min == walk.t_min,
        walk.step(nodes, answer).t_max == walk.t_max,
        walk.step(nodes, answer) != walk ==> walk.step(nodes, answer).cost(nodes) < walk.cost(
            nodes,
        ),
        !walk.settled(nodes) ==> walk.step(nodes, answer).cost(nodes) < walk.cost(nodes),
{
    if !walk.done() {
        let rest = walk.work.drop_last();
        let after = walk.step(nodes, answer);
        let held = walk.found.len() as int;
        assert(walk.work =~= rest.push(walk.work.last()));
        cost_of_push(nodes, rest, walk.work.last());
        works_out_of_push(rest, walk.work.last(), held);
        assert forall|i: int| 0 <= i < rest.len() implies rest[i] == walk.work[i] by {}
        match walk.work.last() {
            Task::Visit(n) => {
                assert(walk.work[walk.work.len() - 1] == Task::Visit(n));
                cost_of_push(nodes, rest, Task::Enter(n));
                works_out_of_push(rest, Task::Enter(n), held);
            },
            Task::Enter(n) => {
                assert(walk.work[walk.work.len() - 1] == Task::Enter(n));
                assert(node_ok(nodes, n as int));
                if nodes[n as int].hitable is None {
                    let l = nodes[n as int].left.unwrap().index;
                    let r = nodes[n as int].right.unwrap().index;
                    let w1 = rest.push(Task::Combine);
                    let w2 = w1.push(Task::Visit(r));
                    cost_of_push(nodes, rest, Task::Combine);
                    cost_of_push(nodes, w1, Task::Visit(r));
                    cost_of_push(nodes, w2, Task::Visit(l));
                    works_out_of_push(rest, Task::Combine, held + 2);
                    works_out_of_push(w1, Task::Visit(r), held + 1);
                    works_out_of_push(w2, Task::Visit(l), held);
                }
            },
            Task::Combine => {},
        }
    }
}

/// A visit of a node ends as if the hit under that node had been found at
/// once: whatever else the search has to do, it goes on from there.
pub proof fn visit_finds_tree_hit(walk: Walk, nodes: Seq<BvhNode>, slabs: Slabs, probe: Probe, n: usize)
    requires
        arena_ok(nodes),
        walk.wf(nodes),
        !walk.done(),
        walk.work.last() == Task::Visit(n),
    ensures
        (Walk {
            work: walk.work.drop_last(),
            found: walk.found.push(tree_hit(nodes, n as int, slabs, probe, walk.t_min, walk.t_max)),
            ..walk
        }).wf(nodes),
        walk.finish(nodes, slabs, probe) == (Walk {
            work: walk.work.drop_last(),
            found: walk.found.push(tree_hit(nodes, n as int, slabs, probe, walk.t_min, walk.t_max)),
            ..walk
        }).finish(nodes, slabs, probe),
    decreases n,
{
    let rest = walk.work.drop_last();
    let held = walk.found.len() as int;
    let (t_min, t_max) = (walk.t_min, walk.t_max);
    assert(walk.work[walk.work.len() - 1] == Task::Visit(n));
    assert(walk.work =~= rest.push(Task::Visit(n)));
    assert(node_ok(nodes, n as int));
    works_out_of_push(rest, Task::Visit(n), held);
    let here = tree_hit(nodes, n as int, slabs, probe, t_min, t_max);
    let target = Walk { work: rest, found: walk.found.push(here), ..walk };
    assert(target.wf(nodes)) by {
        assert forall|i: int| 0 <= i < rest.len() implies match #[trigger] rest[i] {
            Task::Visit(m) => m < nodes.len(),
            Task::Enter(m) => m < nodes.len(),
            Task::Combine => true,
        } by {
            assert(rest[i] == walk.work[i]);
        }
    }
    step_goes_on(walk, nodes, walk.reply(nodes, slabs, probe));
    let w1 = walk.step(nodes, walk.reply(nodes, slabs, probe));
    assert(walk.finish(nodes, slabs, probe) == w1.finish(nodes, slabs, probe));
    if nodes[n as int].bbox is Some && !AABB::slabs_hit(
        slabs(nodes[n as int].bbox.unwrap()),
        t_min,
        t_max,
    ) {
        assert(w1 == target);
    } else {
        assert(w1 == Walk { work: rest.push(Task::Enter(n)), ..walk });
        assert(w1.work.drop_last() =~= rest);
        step_goes_on(w1, nodes, w1.reply(nodes, slabs, probe));
        let w2 = w1.step(nodes, w1.reply(nodes, slabs, probe));
        assert(w1.finish(nodes, slabs, probe) == w2.finish(nodes, slabs, probe));
        match nodes[n as int].hitable {
            Some(h) => {
                assert(w2 == target);
            },
            None => {
                let l = nodes[n as int].left.unwrap().index;
                let r = nodes[n as int].right.unwrap().index;
                let hl = tree_hit(nodes, l as int, slabs, probe, t_min, t_max);
                let hr = tree_hit(nodes, r as int, slabs, probe, t_min, t_max);
                let above = rest.push(Task::Combine).push(Task::Visit(r));
                assert(w2.work == above.push(Task::Visit(l)));
                assert(w2.work.drop_last() =~= above);
                visit_finds_tree_hit(w2, nodes, slabs, probe, l);
                let w3 = Walk { work: above, found: walk.found.push(hl), ..walk };
                assert(w3.work.drop_last() =~= rest.push(Task::Combine));
                visit_finds_tree_hit(w3, nodes, slabs, probe, r);
                let w4 = Walk {
                    work: rest.push(Task::Combine),
                    found: walk.found.push(hl).push(hr),
                    ..walk
                };
                assert(w4.work.drop_last() =~= rest);
                step_goes_on(w4, nodes, w4.reply(nodes, slabs, probe));
                let w5 = w4.step(nodes, w4.reply(nodes, slabs, probe));
                assert(w4.finish(nodes, slabs, probe) == w5.finish(nodes, slabs, probe));
                assert(w4.found.drop_last().drop_last() =~= walk.found);
                assert(w5 == target);
            },
        }
    }
}

/// The search of a hierarchy ends with the hit that `tree_hit` describes for
/// the root, when every question is answered by the scene.
pub proof fn search_finds_tree_hit(tree: Arena, slabs: Slabs, probe: Probe, t_min: Scalar, t_max: Scalar)
    requires
        tree.wf(),
    ensures
        Walk::start(tree.root, t_min, t_max).wf(tree.nodes),
        Walk::start(tree.root, t_min, t_max).finish(tree.nodes, slabs, probe).done(),
        Walk::start(tree.root, t_min, t_max).finish(tree.nodes, slabs, probe).query(tree.nodes)
            == Query::Done(tree_hit(tree.nodes, tree.root as int, slabs, probe, t_min, t_max)),
{
    let first = Walk::start(tree.root, t_min, t_max);
    let root = tree.root;
    works_out_of_push(Seq::empty(), Task::Visit(root), 0);
    assert(first.work =~= Seq::<Task>::empty().push(Task::Visit(root)));
    assert(first.work.drop_last() =~= Seq::<Task>::empty());
    visit_finds_tree_hit(first, tree.nodes, slabs, probe, root);
    let last = Walk {
        work: Seq::<Task>::empty(),
        found: Seq::<Option<HitRecord>>::empty().push(
            tree_hit(tree.nodes, root as int, slabs, probe, t_min, t_max),
        ),
        ..first
    };
    assert(first.found =~= Seq::<Option<HitRecord>>::empty());
    assert(last.finish(tree.nodes, slabs, probe) == last);
}

/// Going on to the next question does not change where a search ends, nor
/// does the scene's answer to the open question; and a search with nothing
/// left to do has ended.
pub proof fn search_keeps_its_end(walk: Walk, nodes: Seq<BvhNode>, slabs: Slabs, probe: Probe)
    requires
        arena_ok(nodes),
        walk.wf(nodes),
    ensures
        walk.settle(nodes).wf(nodes),
        walk.settle(nodes).settled(nodes),
        walk.settle(nodes).finish(nodes, slabs, probe) == walk.finish(nodes, slabs, probe),
        walk.step(nodes, walk.reply(nodes, slabs, probe)).wf(nodes),
        walk.step(nodes, walk.reply(nodes, slabs, probe)).finish(nodes, slabs, probe)
            == walk.finish(nodes, slabs, probe),
        walk.done() ==> walk.finish(nodes, slabs, probe) == walk,
    decreases walk.cost(nodes),
{
    step_goes_on(walk, nodes, walk.reply(nodes, slabs, probe));
    if !walk.settled(nodes) {
        step_goes_on(walk, nodes, None);
        search_keeps_its_end(walk.step(nodes, None), nodes, slabs, probe);
    }
}

/// A search of a hierarchy, between two questions.
pub struct Traversal<'a> {
    tree: &'a BvhTree,
    t_min: Scalar,
    t_max: Scalar,
    work: Vec<Task>,
    found: Vec<Option<HitRecord>>,
}

impl<'a> Traversal<'a> {
    /// The state of the search.
    pub closed spec fn view(&self) -> Walk {
        Walk { t_min: self.t_min, t_max: self.t_max, work: self.work@, found: self.found@ }
    }

    /// The nodes of the hierarchy that is searched.
    pub closed spec fn nodes(&self) -> Seq<BvhNode> {
        self.tree@.nodes
    }

    /// The arena that is searched is in order, and so is the state of the
    /// search.
    pub open spec fn wf(&self) -> bool {
        arena_ok(self.nodes()) && self@.wf(self.nodes())
    }

    /// Starts a search of `tree` for the closest hit between `t_min` and
    /// `t_max`.
    pub fn new(tree: &'a BvhTree, t_min: Scalar, t_max: Scalar) -> (r: Traversal<'a>)
        requires
            tree@.wf(),
        ensures
            r.wf(),
            r.nodes() == tree@.nodes,
            r@ == Walk::start(tree@.root, t_min, t_max),
    {
        let mut work: Vec<Task> = Vec::new();
        let root: usize = tree.root().index;
        work.push(Task::Visit(root));
        proof {
            works_out_of_push(Seq::empty(), Task::Visit(root), 0);
            assert(work@ =~= seq![Task::Visit(tree@.root)]);
        }
        Traversal { tree, t_min, t_max, work, found: Vec::new() }
    }

    /// Goes on until a question is open or nothing is left to do, and
    /// returns the question, or the closest hit.
    pub fn next(&mut self) -> (q: Query)
        requires
            old(self).wf(),
        ensures
            final(self).wf(),
            final(self).nodes() == old(self).nodes(),
            final(self)@ == old(self)@.settle(old(self).nodes()),
            final(self)@.settled(old(self).nodes()),
            q == final(self)@.query(old(self).nodes()),
    {
        loop
            invariant
                self.wf(),
                self.tree == old(self).tree,
                self@.settle(self.nodes()) == old(self)@.settle(self.nodes()),
            decreases self@.cost(self.nodes()),
        {
            let depth: usize = self.work.len();
            if depth == 0 {
                let held: usize = self.found.len();
                let r = if held > 0 {
                    self.found[held - 1]
                } else {
                    None
                };
                return Query::Done(r);
            }
            proof {
                step_goes_on(self@, self.nodes(), None);
            }
            let task = self.work[depth - 1];
            match task {
                Task::Visit(n) => {
                    let node = self.tree.node(NodeId { index: n });
                    match node.bbox {
                        Some(b) => {
                            return Query::Bounds { bbox: b };
                        },
                        None => {
                            self.work.pop();
                            self.work.push(Task::Enter(n));
                        },
                    }
                },
                Task::Enter(n) => {
                    let node = self.tree.node(NodeId { index: n });
                    match node.hitable {
                        Some(h) => {
                            return Query::Shape {
                                hitable: h.id,
                                t_min: self.t_min,
                                t_max: self.t_max,
                            };
                        },
                        None => {
                            assert(node_ok(self.nodes(), n as int));
                            self.work.pop();
                            self.work.push(Task::Combine);
                            self.work.push(Task::Visit(node.right.unwrap().index));
                            self.work.push(Task::Visit(node.left.unwrap().index));
                        },
                    }
                },
                Task::Combine => {
                    proof {
                        works_out_of_push(
                            self.work@.drop_last(),
                            Task::Combine,
                            self.found@.len() as int,
                        );
                        assert(self.work@ =~= self.work@.drop_last().push(Task::Combine));
                    }
                    self.work.pop();
                    let right = self.found.pop().unwrap();
                    let left = self.found.pop().unwrap();
                    self.found.push(closer(left, right));
                },
            }
        }
    }

    /// Takes the caller's answer to the open question and makes the step
    /// that waited for it.
    pub fn answer(&mut self, answer: Answer)
        requires
            old(self).wf(),
        ensures
            final(self).wf(),
            final(self).nodes() == old(self).nodes(),
            final(self)@ == (if old(self)@.settled(old(self).nodes()) {
                old(self)@.step(old(self).nodes(), Some(answer))
            } else {
                old(self)@
            }),
    {
        let depth: usize = self.work.len();
        if depth == 0 {
            return ;
        }
        proof {
            step_goes_on(self@, self.nodes(), Some(answer));
        }
        let task = self.work[depth - 1];
        match task {
            Task::Visit(n) => {
                let node = self.tree.node(NodeId { index: n });
                if node.bbox.is_some() {
                    if let Answer::Bounds(c) = answer {
                        self.work.pop();
                        if AABB::hit(&c, self.t_min, self.t_max) {
                            self.work.push(Task::Enter(n));
                        } else {
                            self.found.push(None);
                        }
                    }
                }
            },
            Task::Enter(n) => {
                let node = self.tree.node(NodeId { index: n });
                if node.hitable.is_some() {
                    if let Answer::Shape(h) = answer {
                        self.work.pop();
                        self.found.push(h);
                    }
                }
            },
            Task::Combine => {},
        }
    }
}

impl BvhTree {
    /// Starts a search for the closest hit between `t_min` and `t_max`.
    pub fn hit(&self, t_min: Scalar, t_max: Scalar) -> (r: Traversal<'_>)
        requires
            self@.wf(),
        ensures
            r.wf(),
            r.nodes() == self@.nodes,
            r@ == Walk::start(self@.root, t_min, t_max),
    {
        Traversal::new(self, t_min, t_max)
    }
}

} // verus!
