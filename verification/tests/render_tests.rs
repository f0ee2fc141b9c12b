use pathtracer::aabb::{Crossings, Slab, AABB};
use pathtracer::bvh_node::BvhTree;
use pathtracer::hitable::{HitRecord, Hitable, HitableList, Query};
use pathtracer::renderer::{color_ray, next_depth, pixel_position, Step};
use pathtracer::scalar::Scalar;
use pathtracer::sphere::choose_root;
use pathtracer::texture::Pixel;
use pathtracer::traversal::Answer;
use pathtracer::vec::Vec3;

type V = [f32; 3];

fn s(x: f32) -> Scalar {
    Scalar::from_bits(x.to_bits())
}

fn f(x: Scalar) -> f32 {
    f32::from_bits(x.to_bits())
}

fn to_vec3(a: V) -> Vec3 {
    Vec3::new(s(a[0]), s(a[1]), s(a[2]))
}

fn of_vec3(a: Vec3) -> V {
    [f(a.x), f(a.y), f(a.z)]
}

fn add(a: V, b: V) -> V {
    [a[0] + b[0], a[1] + b[1], a[2] + b[2]]
}

fn sub(a: V, b: V) -> V {
    [a[0] - b[0], a[1] - b[1], a[2] - b[2]]
}

fn scale(a: V, k: f32) -> V {
    [a[0] * k, a[1] * k, a[2] * k]
}

fn dot(a: V, b: V) -> f32 {
    a[0] * b[0] + a[1] * b[1] + a[2] * b[2]
}

struct Lcg(u64);

impl Lcg {
    fn next(&mut self) -> f32 {
        self.0 = self.0.wrapping_mul(6364136223846793005).wrapping_add(1442695040888963407);
        ((self.0 >> 40) as f32) / ((1u64 << 24) as f32)
    }

    fn in_unit_sphere(&mut self) -> V {
        loop {
            let p = [2.0 * self.next() - 1.0, 2.0 * self.next() - 1.0, 2.0 * self.next() - 1.0];
            if dot(p, p) < 1.0 {
                return p;
            }
        }
    }
}

struct Ball {
    center: V,
    radius: f32,
    albedo: V,
}

impl Ball {
    fn hit(&self, id: usize, origin: V, dir: V, t_min: f32, t_max: f32) -> Option<HitRecord> {
        let oc = sub(origin, self.center);
        let a = dot(dir, dir);
        let b = dot(oc, dir);
        let c = dot(oc, oc) - self.radius * self.radius;
        let d = b * b - a * c;
        let t = f(choose_root(s(d), s((-b - d.sqrt()) / a), s((-b + d.sqrt()) / a), s(t_min), s(t_max))?);
        let p = add(origin, scale(dir, t));
        let n = scale(sub(p, self.center), 1.0 / self.radius);
        Some(HitRecord::new(s(t), to_vec3(p), to_vec3(n), id, s(0.0), s(0.0)))
    }

    fn entity(&self, id: usize) -> Hitable {
        let r = [self.radius, self.radius, self.radius];
        Hitable { id, bbox: Some(AABB::new(to_vec3(sub(self.center, r)), to_vec3(add(self.center, r)))) }
    }
}

enum World {
    List(HitableList),
    Tree(BvhTree),
}

fn crossings(b: &AABB, origin: V, dir: V) -> Crossings {
    let slab = |lo: Scalar, hi: Scalar, o: f32, d: f32| Slab { at_min: s((f(lo) - o) / d), at_max: s((f(hi) - o) / d) };
    Crossings {
        x: slab(b.min.x, b.max.x, origin[0], dir[0]),
        y: slab(b.min.y, b.max.y, origin[1], dir[1]),
        z: slab(b.min.z, b.max.z, origin[2], dir[2]),
    }
}

fn closest(world: &World, balls: &[Ball], origin: V, dir: V) -> Option<HitRecord> {
    let (t_min, t_max) = (s(0.001), s(f32::MAX));
    match world {
        World::List(list) => {
            let mut scan = list.hit(t_min, t_max);
            loop {
                match scan.query() {
                    Query::Shape { hitable, t_min, t_max } => {
                        scan.answer(balls[hitable].hit(hitable, origin, dir, f(t_min), f(t_max)))
                    }
                    Query::Done(r) => return r,
                    Query::Bounds { .. } => unreachable!(),
                }
            }
        }
        World::Tree(tree) => {
            let mut walk = tree.hit(t_min, t_max);
            loop {
                match walk.next() {
                    Query::Bounds { bbox } => walk.answer(Answer::Bounds(crossings(&bbox, origin, dir))),
                    Query::Shape { hitable, t_min, t_max } => {
                        walk.answer(Answer::Shape(balls[hitable].hit(hitable, origin, dir, f(t_min), f(t_max))))
                    }
                    Query::Done(r) => return r,
                }
            }
        }
    }
}

fn radiance(world: &World, balls: &[Ball], origin: V, dir: V, depth: u32, background: V, rng: &mut Lcg) -> V {
    let hit = closest(world, balls, origin, dir);
    match color_ray(hit.is_some(), depth) {
        Step::Background => background,
        Step::Black => [0.0, 0.0, 0.0],
        Step::Scatter => {
            let rec = hit.unwrap();
            let p = of_vec3(rec.p);
            let target = add(add(p, of_vec3(rec.normal)), rng.in_unit_sphere());
            let next = next_depth(depth).unwrap();
            let inner = radiance(world, balls, p, sub(target, p), next, background, rng);
            let albedo = balls[rec.material].albedo;
            [albedo[0] * inner[0], albedo[1] * inner[1], albedo[2] * inner[2]]
        }
    }
}

fn render(world: &World, balls: &[Ball], nx: usize, ny: usize, ns: usize, background: V, seed: u64) -> Vec<Pixel> {
    let mut rng = Lcg(seed);
    let mut pixels = vec![Pixel { r: 0, g: 0, b: 0 }; nx * ny];
    let eye = [0.0f32, 0.0, -4.0];
    for i in 0..nx * ny {
        let (x, y) = pixel_position(i, nx, ny);
        let mut col = [0.0f32; 3];
        for _ in 0..ns {
            let u = (x as f32 + rng.next()) / nx as f32;
            let v = (y as f32 + rng.next()) / ny as f32;
            let dir = [2.0 * u - 1.0, 2.0 * v - 1.0 - 1.0 / ny as f32, 2.0];
            col = add(col, radiance(world, balls, eye, dir, 0, background, &mut rng));
        }
        col = scale(col, 1.0 / ns as f32);
        pixels[i] = Pixel {
            r: (255.99 * col[0].sqrt()) as u8,
            g: (255.99 * col[1].sqrt()) as u8,
            b: (255.99 * col[2].sqrt()) as u8,
        };
    }
    pixels
}

#[test]
fn empty_scene_renders_as_background() {
    let world = World::List(HitableList::new());
    let sky = [0.25f32, 0.5, 1.0];
    let pixels = render(&world, &[], 8, 6, 1, sky, 1);
    assert_eq!(pixels.len(), 48);
    let want = Pixel { r: 127, g: 181, b: 255 };
    assert!(pixels.iter().all(|p| *p == want));
    let black = render(&world, &[], 8, 6, 3, [0.0, 0.0, 0.0], 1);
    assert!(black.iter().all(|p| *p == Pixel { r: 0, g: 0, b: 0 }));
}

#[test]
fn single_sphere_shows_against_the_background() {
    let balls = vec![Ball { center: [0.0, 0.0, 0.0], radius: 1.0, albedo: [0.5, 0.5, 0.5] }];
    let sky = [1.0f32, 1.0, 1.0];
    let background = Pixel { r: 255, g: 255, b: 255 };
    let list = World::List(HitableList::from_list(vec![balls[0].entity(0)]));
    let pixels = render(&list, &balls, 16, 16, 1, sky, 3);
    assert!(pixels.iter().any(|p| *p != background));
    assert!(pixels.iter().any(|p| *p == background));
    // the corner of the image looks past the sphere, the middle at it
    assert_eq!(pixels[0], background);
    assert!(pixels[8 * 16 + 8] != background);

    let mut l = vec![balls[0].entity(0)];
    let tree = World::Tree(BvhTree::new(&mut l));
    let again = render(&tree, &balls, 16, 16, 1, sky, 3);
    assert_eq!(pixels, again);
}

#[test]
fn sphere_in_the_dark_is_black() {
    let balls = vec![Ball { center: [0.0, 0.0, 0.0], radius: 1.0, albedo: [0.5, 0.5, 0.5] }];
    let mut l = vec![balls[0].entity(0)];
    let tree = World::Tree(BvhTree::new(&mut l));
    let pixels = render(&tree, &balls, 8, 8, 2, [0.0, 0.0, 0.0], 11);
    assert!(pixels.iter().all(|p| *p == Pixel { r: 0, g: 0, b: 0 }));
}

#[test]
fn mirror_box_ends_at_the_depth_cap() {
    // inside a hollow sphere, whose normals point inwards, a ray scatters until the path is
    // cut off
    let balls = vec![Ball { center: [0.0, 0.0, 0.0], radius: -100.0, albedo: [1.0, 1.0, 1.0] }];
    let list = World::List(HitableList::from_list(vec![balls[0].entity(0)]));
    let mut rng = Lcg(5);
    let c = radiance(&list, &balls, [0.0, 0.0, 0.0], [0.0, 0.0, 1.0], 0, [1.0, 1.0, 1.0], &mut rng);
    assert_eq!(c, [0.0, 0.0, 0.0]);
}
