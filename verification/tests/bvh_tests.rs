use pathtracer::aabb::{Crossings, Slab, AABB};
use pathtracer::bvh_node::{buildable, BvhTree, NodeId};
use pathtracer::hitable::{HitRecord, Hitable, HitableList, Query};
use pathtracer::scalar::Scalar;
use pathtracer::scene::Scene;
use pathtracer::sphere::choose_root;
use pathtracer::traversal::Answer;
use pathtracer::vec::Vec3;

fn s(x: f32) -> Scalar {
    Scalar::from_bits(x.to_bits())
}

fn f(x: Scalar) -> f32 {
    f32::from_bits(x.to_bits())
}

fn v(a: [f32; 3]) -> Vec3 {
    Vec3::new(s(a[0]), s(a[1]), s(a[2]))
}

fn boxed(min: [f32; 3], max: [f32; 3]) -> AABB {
    AABB::new(v(min), v(max))
}

#[derive(Clone, Copy)]
struct Ball {
    center: [f32; 3],
    radius: f32,
}

#[derive(Clone, Copy)]
struct Beam {
    origin: [f32; 3],
    dir: [f32; 3],
}

fn dot(a: [f32; 3], b: [f32; 3]) -> f32 {
    a[0] * b[0] + a[1] * b[1] + a[2] * b[2]
}

impl Ball {
    fn bbox(&self) -> AABB {
        let r = self.radius * 1.01;
        boxed(
            [self.center[0] - r, self.center[1] - r, self.center[2] - r],
            [self.center[0] + r, self.center[1] + r, self.center[2] + r],
        )
    }

    fn hit(&self, id: usize, ray: &Beam, t_min: f32, t_max: f32) -> Option<HitRecord> {
        let oc = [
            ray.origin[0] - self.center[0],
            ray.origin[1] - self.center[1],
            ray.origin[2] - self.center[2],
        ];
        let a = dot(ray.dir, ray.dir);
        let b = dot(oc, ray.dir);
        let c = dot(oc, oc) - self.radius * self.radius;
        let discriminant = b * b - a * c;
        let near = (-b - discriminant.sqrt()) / a;
        let far = (-b + discriminant.sqrt()) / a;
        let t = f(choose_root(s(discriminant), s(near), s(far), s(t_min), s(t_max))?);
        let p = [ray.origin[0] + t * ray.dir[0], ray.origin[1] + t * ray.dir[1], ray.origin[2] + t * ray.dir[2]];
        let n = [
            (p[0] - self.center[0]) / self.radius,
            (p[1] - self.center[1]) / self.radius,
            (p[2] - self.center[2]) / self.radius,
        ];
        Some(HitRecord::new(s(t), v(p), v(n), id, s(0.0), s(0.0)))
    }
}

fn crossings(b: &AABB, ray: &Beam) -> Crossings {
    let slab = |lo: Scalar, hi: Scalar, o: f32, d: f32| Slab {
        at_min: s((f(lo) - o) / d),
        at_max: s((f(hi) - o) / d),
    };
    Crossings {
        x: slab(b.min.x, b.max.x, ray.origin[0], ray.dir[0]),
        y: slab(b.min.y, b.max.y, ray.origin[1], ray.dir[1]),
        z: slab(b.min.z, b.max.z, ray.origin[2], ray.dir[2]),
    }
}

/// The search of the hierarchy; also counts the entities that were asked.
fn search(tree: &BvhTree, balls: &[Ball], ray: &Beam, t_min: f32, t_max: f32) -> (Option<HitRecord>, usize) {
    let mut asked = 0;
    let mut walk = tree.hit(s(t_min), s(t_max));
    loop {
        match walk.next() {
            Query::Bounds { bbox } => walk.answer(Answer::Bounds(crossings(&bbox, ray))),
            Query::Shape { hitable, t_min, t_max } => {
                asked += 1;
                walk.answer(Answer::Shape(balls[hitable].hit(hitable, ray, f(t_min), f(t_max))));
            }
            Query::Done(r) => return (r, asked),
        }
    }
}

fn scan(list: &HitableList, balls: &[Ball], ray: &Beam, t_min: f32, t_max: f32) -> Option<HitRecord> {
    let mut state = list.hit(s(t_min), s(t_max));
    loop {
        match state.query() {
            Query::Shape { hitable, t_min, t_max } => {
                state.answer(balls[hitable].hit(hitable, ray, f(t_min), f(t_max)));
            }
            Query::Done(r) => return r,
            Query::Bounds { .. } => panic!("a list asks about no boxes"),
        }
    }
}

struct Lcg(u64);

impl Lcg {
    fn next(&mut self) -> f32 {
        self.0 = self.0.wrapping_mul(6364136223846793005).wrapping_add(1442695040888963407);
        ((self.0 >> 40) as f32) / ((1u64 << 24) as f32)
    }

    fn between(&mut self, lo: f32, hi: f32) -> f32 {
        lo + (hi - lo) * self.next()
    }
}

fn entities(balls: &[Ball]) -> Vec<Hitable> {
    balls.iter().enumerate().map(|(id, b)| Hitable { id, bbox: Some(b.bbox()) }).collect()
}

fn leaves(tree: &BvhTree, id: NodeId, out: &mut Vec<usize>) {
    let node = tree.node(id);
    match node.hitable {
        Some(h) => out.push(h.id),
        None => {
            leaves(tree, node.left.unwrap(), out);
            leaves(tree, node.right.unwrap(), out);
        }
    }
}

fn leaf_ids(tree: &BvhTree) -> Vec<usize> {
    let mut out = Vec::new();
    leaves(tree, tree.root(), &mut out);
    out
}

fn cube_at(id: usize, lo: f32) -> Hitable {
    Hitable { id, bbox: Some(boxed([lo, lo, lo], [lo + 0.5, lo + 0.5, lo + 0.5])) }
}

#[test]
fn one_entity_makes_one_leaf() {
    let mut l = vec![cube_at(4, 1.0)];
    let tree = BvhTree::new(&mut l);
    assert_eq!(tree.len(), 1);
    assert_eq!(tree.root().index, 0);
    let root = tree.node(tree.root());
    assert!(root.left.is_none() && root.right.is_none());
    assert_eq!(root.hitable.unwrap().id, 4);
    assert_eq!(f(tree.bounding_box().unwrap().min.x), 1.0);
}

#[test]
fn two_entities_make_two_leaves_under_a_node() {
    for _ in 0..10 {
        let mut l = vec![cube_at(0, 5.0), cube_at(1, 2.0)];
        let tree = BvhTree::new(&mut l);
        assert_eq!(tree.len(), 3);
        assert_eq!(tree.root().index, 2);
        assert_eq!(leaf_ids(&tree), vec![1, 0]);
        assert_eq!(l.iter().map(|h| h.id).collect::<Vec<_>>(), vec![1, 0]);
        let b = tree.bounding_box().unwrap();
        assert_eq!([f(b.min.x), f(b.max.x)], [2.0, 5.5]);
    }
}

#[test]
fn entities_are_sorted_before_they_are_split() {
    // along every axis the order of these is the same, so the leaves are in that order
    for _ in 0..10 {
        let mut l = vec![cube_at(0, 3.0), cube_at(1, 1.0), cube_at(2, 2.0), cube_at(3, 0.0), cube_at(4, 4.0)];
        let tree = BvhTree::new(&mut l);
        assert_eq!(tree.len(), 9);
        assert_eq!(leaf_ids(&tree), vec![3, 1, 2, 0, 4]);
        assert_eq!(l.iter().map(|h| h.id).collect::<Vec<_>>(), vec![3, 1, 2, 0, 4]);
    }
}

#[test]
fn equal_entities_keep_their_order() {
    for _ in 0..10 {
        let mut l: Vec<Hitable> = (0..9).map(|id| cube_at(id, 1.0)).collect();
        let tree = BvhTree::new(&mut l);
        assert_eq!(leaf_ids(&tree), (0..9).collect::<Vec<_>>());
    }
}

#[test]
fn split_is_in_the_middle() {
    let mut l: Vec<Hitable> = (0..7).map(|id| cube_at(id, id as f32)).collect();
    let tree = BvhTree::new(&mut l);
    assert_eq!(tree.len(), 13);
    let root = tree.node(tree.root());
    let mut left = Vec::new();
    leaves(&tree, root.left.unwrap(), &mut left);
    let mut right = Vec::new();
    leaves(&tree, root.right.unwrap(), &mut right);
    assert_eq!(left, vec![0, 1, 2]);
    assert_eq!(right, vec![3, 4, 5, 6]);
}

#[test]
fn first_split_follows_the_given_axis() {
    let at = |id: usize, min: [f32; 3]| Hitable {
        id,
        bbox: Some(boxed(min, [min[0] + 1.0, min[1] + 1.0, min[2] + 1.0])),
    };
    let entities = vec![at(0, [0.0, 5.0, 2.0]), at(1, [1.0, 4.0, 0.0]), at(2, [2.0, 3.0, 1.0]), at(3, [3.0, 2.0, 3.0])];
    let want: [[Vec<usize>; 2]; 3] = [
        [vec![0, 1], vec![2, 3]],
        [vec![2, 3], vec![0, 1]],
        [vec![1, 2], vec![0, 3]],
    ];
    for axis in 0..3 {
        for _ in 0..5 {
            let mut l = entities.clone();
            let tree = BvhTree::new_along(&mut l, axis);
            assert_eq!(tree.len(), 7);
            let root = tree.node(tree.root());
            let mut left = Vec::new();
            leaves(&tree, root.left.unwrap(), &mut left);
            let mut right = Vec::new();
            leaves(&tree, root.right.unwrap(), &mut right);
            left.sort();
            right.sort();
            assert_eq!(left, want[axis][0]);
            assert_eq!(right, want[axis][1]);
        }
    }
}

fn height(tree: &BvhTree, id: NodeId) -> u32 {
    let node = tree.node(id);
    match node.hitable {
        Some(_) => 1,
        None => 1 + height(tree, node.left.unwrap()).max(height(tree, node.right.unwrap())),
    }
}

#[test]
fn hierarchy_is_shallow() {
    assert_eq!(height(&BvhTree::new(&mut vec![cube_at(0, 0.0)]), NodeId { index: 0 }), 1);
    for k in 2..200usize {
        let mut l: Vec<Hitable> = (0..k).map(|id| cube_at(id, ((id * 37) % 101) as f32)).collect();
        let tree = BvhTree::new(&mut l);
        let h = height(&tree, tree.root());
        assert!(1u64 << (h - 1) <= 2 * (k as u64 - 1), "{} entities, height {}", k, h);
    }
    let mut l: Vec<Hitable> = (0..1000).map(|id| cube_at(id, id as f32)).collect();
    let tree = BvhTree::new(&mut l);
    assert_eq!(height(&tree, tree.root()), 11);
}

#[test]
fn inner_boxes_are_unions() {
    let mut rng = Lcg(7);
    let balls: Vec<Ball> = (0..20)
        .map(|_| Ball {
            center: [rng.between(-10.0, 10.0), rng.between(-10.0, 10.0), rng.between(-10.0, 10.0)],
            radius: rng.between(0.1, 2.0),
        })
        .collect();
    let mut l = entities(&balls);
    let tree = BvhTree::new(&mut l);
    assert_eq!(tree.len(), 39);
    for index in 0..tree.len() {
        let node = tree.node(NodeId { index });
        let b = node.bbox.unwrap();
        match node.hitable {
            Some(h) => {
                let hb = h.bbox.unwrap();
                assert!(b.min == hb.min && b.max == hb.max);
            }
            None => {
                let (l, r) = (node.left.unwrap().index, node.right.unwrap().index);
                assert!(l < index && r < index);
                let u = AABB::surrounding_box(
                    &tree.node(NodeId { index: l }).bbox.unwrap(),
                    &tree.node(NodeId { index: r }).bbox.unwrap(),
                );
                assert!(b.min == u.min && b.max == u.max);
            }
        }
    }
    let mut ids = leaf_ids(&tree);
    ids.sort();
    assert_eq!(ids, (0..20).collect::<Vec<_>>());
}

#[test]
fn buildable_wants_boxes_of_numbers() {
    assert!(!buildable(&vec![]));
    assert!(buildable(&vec![cube_at(0, 1.0)]));
    assert!(!buildable(&vec![cube_at(0, 1.0), Hitable { id: 1, bbox: None }]));
    let nan = Hitable { id: 1, bbox: Some(boxed([0.0, f32::NAN, 0.0], [1.0, 1.0, 1.0])) };
    assert!(!buildable(&vec![cube_at(0, 1.0), nan]));
    let nan_max = Hitable { id: 1, bbox: Some(boxed([0.0, 0.0, 0.0], [1.0, f32::NAN, 1.0])) };
    assert!(buildable(&vec![cube_at(0, 1.0), nan_max]));
}

#[test]
fn hierarchy_and_scan_find_the_same_hit() {
    let mut rng = Lcg(2024);
    for round in 0..20 {
        let n = 1 + round * 3;
        let balls: Vec<Ball> = (0..n)
            .map(|_| Ball {
                center: [rng.between(-10.0, 10.0), rng.between(-10.0, 10.0), rng.between(-10.0, 10.0)],
                radius: rng.between(0.2, 3.0),
            })
            .collect();
        let list = HitableList::from_list(entities(&balls));
        let mut l = entities(&balls);
        let tree = BvhTree::new(&mut l);
        let mut hits = 0;
        for _ in 0..200 {
            let ray = Beam {
                origin: [rng.between(-20.0, 20.0), rng.between(-20.0, 20.0), rng.between(-20.0, 20.0)],
                dir: [rng.between(-1.0, 1.0), rng.between(-1.0, 1.0), rng.between(-1.0, 1.0)],
            };
            let brute = scan(&list, &balls, &ray, 0.001, f32::MAX);
            let (fast, _) = search(&tree, &balls, &ray, 0.001, f32::MAX);
            match (brute, fast) {
                (Some(a), Some(b)) => {
                    hits += 1;
                    assert_eq!(f(a.t), f(b.t));
                }
                (None, None) => {}
                _ => panic!("one search found a hit and the other did not"),
            }
        }
        if n > 10 {
            assert!(hits > 0);
        }
    }
}

#[test]
fn hierarchy_asks_fewer_entities() {
    let mut balls = Vec::new();
    for i in 0..8 {
        for j in 0..8 {
            balls.push(Ball { center: [i as f32 * 4.0, j as f32 * 4.0, 0.0], radius: 1.0 });
        }
    }
    let mut l = entities(&balls);
    let tree = BvhTree::new(&mut l);
    let ray = Beam { origin: [8.0, 12.0, -10.0], dir: [0.0, 0.0, 1.0] };
    let (r, asked) = search(&tree, &balls, &ray, 0.001, f32::MAX);
    let r = r.unwrap();
    assert_eq!(r.material, 2 * 8 + 3);
    assert_eq!(f(r.t), 9.0);
    assert!(asked < 16);
    let miss = Beam { origin: [8.0, 12.0, -10.0], dir: [0.0, 0.0, -1.0] };
    let (r, asked) = search(&tree, &balls, &miss, 0.001, f32::MAX);
    assert!(r.is_none());
    assert_eq!(asked, 0);
}

#[test]
fn a_box_that_does_not_hold_its_entity_hides_it() {
    // a sphere that has moved out of the box of its first position
    let moved = Ball { center: [10.0, 0.0, 0.0], radius: 1.0 };
    let first = Ball { center: [0.0, 0.0, 0.0], radius: 1.0 };
    let balls = vec![moved];
    let held = vec![Hitable { id: 0, bbox: Some(first.bbox()) }];
    let list = HitableList::from_list(held.clone());
    let mut l = held.clone();
    let tree = BvhTree::new(&mut l);
    let ray = Beam { origin: [10.0, 0.0, -5.0], dir: [0.0, 0.0, 1.0] };
    let brute = scan(&list, &balls, &ray, 0.001, f32::MAX);
    assert_eq!(f(brute.unwrap().t), 4.0);
    let (fast, asked) = search(&tree, &balls, &ray, 0.001, f32::MAX);
    assert!(fast.is_none());
    assert_eq!(asked, 0);
}

#[test]
fn answers_of_the_wrong_kind_change_nothing() {
    let balls = vec![Ball { center: [0.0, 0.0, 0.0], radius: 1.0 }];
    let mut l = entities(&balls);
    let tree = BvhTree::new(&mut l);
    let ray = Beam { origin: [0.0, 0.0, -5.0], dir: [0.0, 0.0, 1.0] };
    let mut walk = tree.hit(s(0.001), s(f32::MAX));
    let first = walk.next();
    assert!(matches!(first, Query::Bounds { .. }));
    walk.answer(Answer::Shape(None));
    assert!(matches!(walk.next(), Query::Bounds { .. }));
    if let Query::Bounds { bbox } = first {
        walk.answer(Answer::Bounds(crossings(&bbox, &ray)));
    }
    match walk.next() {
        Query::Shape { hitable, t_min, t_max } => {
            assert_eq!(hitable, 0);
            assert_eq!(f(t_min), 0.001);
            assert_eq!(f(t_max), f32::MAX);
            walk.answer(Answer::Shape(balls[0].hit(0, &ray, f(t_min), f(t_max))));
        }
        _ => panic!("the leaf should be asked"),
    }
    match walk.next() {
        Query::Done(Some(r)) => assert_eq!(f(r.t), 4.0),
        _ => panic!("the search should have ended with a hit"),
    }
    match walk.next() {
        Query::Done(Some(r)) => assert_eq!(f(r.t), 4.0),
        _ => panic!("the search stays ended"),
    }
}

#[test]
fn scene_builds_its_hierarchy() {
    let mut models = vec![cube_at(0, 3.0), cube_at(1, 1.0), cube_at(2, 2.0)];
    let scene = Scene::new(&mut models, 10);
    assert_eq!(scene.max_ray_depth, 10);
    assert_eq!(scene.bvh.len(), 5);
    assert_eq!(leaf_ids(&scene.bvh), vec![1, 2, 0]);
}
