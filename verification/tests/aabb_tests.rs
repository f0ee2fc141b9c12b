use pathtracer::aabb::{ffmax, ffmin, Crossings, Slab, AABB};
use pathtracer::hitable::set_min_max;
use pathtracer::scalar::Scalar;
use pathtracer::vec::Vec3;

fn s(x: f32) -> Scalar {
    Scalar::from_bits(x.to_bits())
}

fn f(x: Scalar) -> f32 {
    f32::from_bits(x.to_bits())
}

fn v(x: f32, y: f32, z: f32) -> Vec3 {
    Vec3::new(s(x), s(y), s(z))
}

fn boxed(min: [f32; 3], max: [f32; 3]) -> AABB {
    AABB::new(v(min[0], min[1], min[2]), v(max[0], max[1], max[2]))
}

fn crossings(b: &AABB, origin: [f32; 3], dir: [f32; 3]) -> Crossings {
    let slab = |lo: Scalar, hi: Scalar, o: f32, d: f32| Slab {
        at_min: s((f(lo) - o) / d),
        at_max: s((f(hi) - o) / d),
    };
    Crossings {
        x: slab(b.min.x, b.max.x, origin[0], dir[0]),
        y: slab(b.min.y, b.max.y, origin[1], dir[1]),
        z: slab(b.min.z, b.max.z, origin[2], dir[2]),
    }
}

fn hits(b: &AABB, origin: [f32; 3], dir: [f32; 3], tmin: f32, tmax: f32) -> bool {
    AABB::hit(&crossings(b, origin, dir), s(tmin), s(tmax))
}

#[test]
fn ffmin_and_ffmax_take_the_second_when_unordered() {
    assert_eq!(f(ffmin(s(1.0), s(2.0))), 1.0);
    assert_eq!(f(ffmin(s(2.0), s(1.0))), 1.0);
    assert_eq!(f(ffmax(s(1.0), s(2.0))), 2.0);
    assert_eq!(f(ffmax(s(2.0), s(1.0))), 2.0);
    assert_eq!(f(ffmin(s(f32::NAN), s(3.0))), 3.0);
    assert!(f(ffmin(s(3.0), s(f32::NAN))).is_nan());
    assert_eq!(f(ffmax(s(f32::NAN), s(3.0))), 3.0);
    assert!(f(ffmax(s(3.0), s(f32::NAN))).is_nan());
    assert_eq!(ffmin(s(0.0), s(-0.0)).to_bits(), (-0.0f32).to_bits());
    assert_eq!(ffmax(s(-0.0), s(0.0)).to_bits(), 0.0f32.to_bits());
}

#[test]
fn surrounding_box_takes_extremes() {
    let a = boxed([0.0, -1.0, 2.0], [1.0, 1.0, 3.0]);
    let b = boxed([-2.0, 0.0, 2.5], [0.5, 4.0, 2.75]);
    let u = AABB::surrounding_box(&a, &b);
    assert_eq!([f(u.min.x), f(u.min.y), f(u.min.z)], [-2.0, -1.0, 2.0]);
    assert_eq!([f(u.max.x), f(u.max.y), f(u.max.z)], [1.0, 4.0, 3.0]);
    let w = AABB::surrounding_box(&b, &a);
    assert!(u.min == w.min && u.max == w.max);
}

#[test]
fn surrounding_box_is_associative_on_samples() {
    let a = boxed([0.0, 0.0, 0.0], [1.0, 1.0, 1.0]);
    let b = boxed([-5.0, 0.5, 0.25], [-4.0, 7.0, 0.5]);
    let c = boxed([3.0, -3.0, -1.0], [3.0, -2.0, 9.0]);
    let left = AABB::surrounding_box(&AABB::surrounding_box(&a, &b), &c);
    let right = AABB::surrounding_box(&a, &AABB::surrounding_box(&b, &c));
    assert!(left.min == right.min && left.max == right.max);
}

#[test]
fn ray_outside_all_slabs_misses() {
    let b = boxed([-1.0, -1.0, -1.0], [1.0, 1.0, 1.0]);
    assert!(!hits(&b, [5.0, 5.0, 5.0], [1.0, 1.0, 1.0], 0.0, f32::INFINITY));
    assert!(!hits(&b, [5.0, 6.0, 7.0], [0.0, 0.0, 1.0], 0.0, f32::INFINITY));
    assert!(!hits(&b, [-3.0, -4.0, -5.0], [-1.0, -2.0, -0.5], 0.0, f32::MAX));
}

#[test]
fn ray_through_center_along_each_axis_hits() {
    let b = boxed([1.0, 2.0, 3.0], [3.0, 6.0, 4.0]);
    let c = [2.0, 4.0, 3.5];
    assert!(hits(&b, [c[0] - 10.0, c[1], c[2]], [1.0, 0.0, 0.0], 0.0, f32::INFINITY));
    assert!(hits(&b, [c[0], c[1] - 10.0, c[2]], [0.0, 1.0, 0.0], 0.0, f32::INFINITY));
    assert!(hits(&b, [c[0], c[1], c[2] - 10.0], [0.0, 0.0, 1.0], 0.0, f32::INFINITY));
    assert!(hits(&b, [c[0] + 10.0, c[1], c[2]], [-1.0, 0.0, 0.0], 0.0, f32::INFINITY));
    assert!(hits(&b, [c[0], c[1] + 10.0, c[2]], [0.0, -1.0, 0.0], 0.0, f32::INFINITY));
    assert!(hits(&b, [c[0], c[1], c[2] + 10.0], [0.0, 0.0, -1.0], 0.0, f32::INFINITY));
}

#[test]
fn ray_pointing_away_misses() {
    let b = boxed([1.0, 2.0, 3.0], [3.0, 6.0, 4.0]);
    assert!(!hits(&b, [-8.0, 4.0, 3.5], [-1.0, 0.0, 0.0], 0.0, f32::INFINITY));
}

#[test]
fn window_limits_the_slab_test() {
    let b = boxed([-1.0, -1.0, -1.0], [1.0, 1.0, 1.0]);
    let o = [-5.0, 0.0, 0.0];
    let d = [1.0, 0.0, 0.0];
    assert!(hits(&b, o, d, 0.0, 100.0));
    assert!(!hits(&b, o, d, 0.0, 4.0));
    assert!(!hits(&b, o, d, 6.0, 100.0));
    assert!(hits(&b, o, d, 5.0, 100.0));
    assert!(!hits(&b, o, d, 0.0, 3.999));
}

#[test]
fn all_three_axes_are_tested() {
    let b = boxed([-1.0, -1.0, -1.0], [1.0, 1.0, 1.0]);
    // inside the x and y slabs all the way, but never in the z slab
    assert!(!hits(&b, [-5.0, 0.0, 3.0], [1.0, 0.0, 0.0], 0.0, f32::INFINITY));
    // passes the x slab first and the y slab later: the intervals do not overlap
    assert!(!hits(&b, [-5.0, -20.0, 0.0], [1.0, 1.0, 0.0], 0.0, f32::INFINITY));
}

#[test]
fn swapped_corners_are_hit_alike() {
    let straight = boxed([-1.0, -2.0, -3.0], [1.0, 2.0, 3.0]);
    let rays: [([f32; 3], [f32; 3]); 4] = [
        ([-5.0, 0.1, 0.2], [1.0, 0.0, 0.0]),
        ([-5.0, 0.1, 0.2], [1.0, 0.3, -0.1]),
        ([4.0, 9.0, 0.0], [-0.4, -1.0, 0.05]),
        ([4.0, 9.0, 0.0], [0.4, 1.0, 0.05]),
    ];
    for flips in 0..8u32 {
        let mut min = [-1.0f32, -2.0, -3.0];
        let mut max = [1.0f32, 2.0, 3.0];
        for axis in 0..3 {
            if flips & (1 << axis) != 0 {
                std::mem::swap(&mut min[axis], &mut max[axis]);
            }
        }
        let flipped = boxed(min, max);
        for (o, d) in rays.iter() {
            assert_eq!(
                hits(&flipped, *o, *d, 0.0, f32::INFINITY),
                hits(&straight, *o, *d, 0.0, f32::INFINITY)
            );
        }
    }
}

#[test]
fn ray_in_a_bounding_plane_is_decided_by_the_order_of_the_planes() {
    // the ray runs in the plane x = 0 of the box: one crossing is not a number
    let b = boxed([0.0, -1.0, -1.0], [1.0, 1.0, 1.0]);
    let o = [0.0, 0.0, -5.0];
    let d = [0.0, 0.0, 1.0];
    let c = crossings(&b, o, d);
    assert!(f(c.x.at_min).is_nan());
    assert_eq!(f(c.x.at_max), f32::INFINITY);
    assert!(!AABB::hit(&c, s(0.0), s(f32::INFINITY)));
    let swapped = boxed([1.0, -1.0, -1.0], [0.0, 1.0, 1.0]);
    assert!(hits(&swapped, o, d, 0.0, f32::INFINITY));
}

#[test]
fn flat_box_can_be_hit() {
    let b = boxed([0.0, 0.0, 5.0], [1.0, 1.0, 5.0]);
    // a box of no thickness leaves no open interval: the test fails on it
    assert!(!hits(&b, [0.5, 0.5, 0.0], [0.0, 0.0, 1.0], 0.0, f32::INFINITY));
    let thick = boxed([0.0, 0.0, 4.9999], [1.0, 1.0, 5.0001]);
    assert!(hits(&thick, [0.5, 0.5, 0.0], [0.0, 0.0, 1.0], 0.0, f32::INFINITY));
    assert!(!hits(&thick, [1.5, 0.5, 0.0], [0.0, 0.0, 1.0], 0.0, f32::INFINITY));
}

#[test]
fn set_min_max_grows_a_box() {
    let mut min = v(f32::MAX, f32::MAX, f32::MAX);
    let mut max = v(f32::MIN, f32::MIN, f32::MIN);
    set_min_max(&mut min, &mut max, &v(1.0, -2.0, 3.0));
    set_min_max(&mut min, &mut max, &v(-1.0, 5.0, 3.5));
    set_min_max(&mut min, &mut max, &v(0.0, 0.0, 0.0));
    assert_eq!([f(min.x), f(min.y), f(min.z)], [-1.0, -2.0, 0.0]);
    assert_eq!([f(max.x), f(max.y), f(max.z)], [1.0, 5.0, 3.5]);
}

#[test]
fn vec3_equality_is_numeric() {
    assert!(v(0.0, 1.0, 2.0) == v(-0.0, 1.0, 2.0));
    assert!(v(0.0, 1.0, 2.0) != v(0.0, 1.0, 2.5));
    assert!(v(f32::NAN, 1.0, 2.0) != v(f32::NAN, 1.0, 2.0));
    let z = Vec3::zero();
    assert!(z == v(0.0, 0.0, 0.0));
    let vals = v(1.0, 2.0, 3.0).values();
    assert_eq!(vals.len(), 3);
    assert_eq!([f(vals[0]), f(vals[1]), f(vals[2])], [1.0, 2.0, 3.0]);
}
