//! Axis-aligned rectangles: whether the point where a ray meets the plane of
//! a rectangle is a hit.

use vstd::prelude::*;
use crate::scalar::Scalar;

verus! {

/// The extent of a rectangle in its plane, along the plane's two axes.
#[derive(Clone, Copy, Debug)]
pub struct Extent {
    pub a0: Scalar,
    pub a1: Scalar,
    pub b0: Scalar,
    pub b1: Scalar,
}

/// `x` is neither below `lo` nor above `hi`.
pub open spec fn within(x: Scalar, lo: Scalar, hi: Scalar) -> bool {
    !(x.less(lo) || hi.less(x))
}

/// A ray hits a rectangle where it meets the plane at a parameter `t` that
/// is not outside the window, in a point `(a, b)` of the plane that is not
/// outside the extent.
pub open spec fn plane_hit(
    t: Scalar,
    t_min: Scalar,
    t_max: Scalar,
    a: Scalar,
    b: Scalar,
    extent: Extent,
) -> bool {
    within(t, t_min, t_max) && within(a, extent.a0, extent.a1) && within(b, extent.b0, extent.b1)
}

/// Whether the ray parameter at which a ray meets the plane of a rectangle
/// is inside the window.
pub fn in_window(t: Scalar, t_min: Scalar, t_max: Scalar) -> (r: bool)
    ensures
        r == within(t, t_min, t_max),
{
    !(t.lt(&t_min) || t.gt(&t_max))
}

/// Whether the point `(a, b)` of the plane is inside the extent of the
/// rectangle.
pub fn in_extent(a: Scalar, b: Scalar, extent: &Extent) -> (r: bool)
    ensures
        r == (within(a, extent.a0, extent.a1) && within(b, extent.b0, extent.b1)),
{
    !(a.lt(&extent.a0) || a.gt(&extent.a1) || b.lt(&extent.b0) || b.gt(&extent.b1))
}

/// Whether a ray hits a rectangle, from the parameter and the point at which
/// it meets the plane.
pub fn hit(t: Scalar, t_min: Scalar, t_max: Scalar, a: Scalar, b: Scalar, extent: &Extent) -> (r:
    bool)
    ensures
        r == plane_hit(t, t_min, t_max, a, b, *extent),
{
    in_window(t, t_min, t_max) && in_extent(a, b, extent)
}

} // verus!
