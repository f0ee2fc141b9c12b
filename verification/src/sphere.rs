//! The sphere: which root of its quadratic is the hit.

use vstd::prelude::*;
use crate::scalar::Scalar;

verus! {

/// `t` lies strictly between `t_min` and `t_max`.
pub open spec fn inside(t: Scalar, t_min: Scalar, t_max: Scalar) -> bool {
    t.less(t_max) && t_min.less(t)
}

/// The root at which a ray hits a sphere, of the two roots of the quadratic:
/// none unless the discriminant is positive; else the nearer root if it lies
/// strictly inside the window, else the farther root if that does, else
/// none.
pub open spec fn chosen_root(
    discriminant: Scalar,
    nearer: Scalar,
    farther: Scalar,
    t_min: Scalar,
    t_max: Scalar,
) -> Option<Scalar> {
    if !(Scalar { bits: 0 }).less(discriminant) {
        None
    } else if inside(nearer, t_min, t_max) {
        Some(nearer)
    } else if inside(farther, t_min, t_max) {
        Some(farther)
    } else {
        None
    }
}

/// Chooses the root at which a ray hits a sphere.
pub fn choose_root(
    discriminant: Scalar,
    nearer: Scalar,
    farther: Scalar,
    t_min: Scalar,
    t_max: Scalar,
) -> (r: Option<Scalar>)
    ensures
        r == chosen_root(discriminant, nearer, farther, t_min, t_max),
{
    if discriminant.gt(&Scalar::zero()) {
        if nearer.lt(&t_max) && nearer.gt(&t_min) {
            return Some(nearer);
        }
        if farther.lt(&t_max) && farther.gt(&t_min) {
            return Some(farther);
        }
    }
    None
}

} // verus!
