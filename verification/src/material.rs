//! The choices that materials make when they scatter a ray.

use vstd::prelude::*;
use crate::scalar::{Scalar, ONE_BITS};

verus! {

/// The fuzz of a metal, kept between zero and one: below zero it is zero,
/// below one it is itself, and anything else, also what is not a number, is
/// one.
pub open spec fn fuzz_kept(fuzz: Scalar) -> Scalar {
    if fuzz.less(Scalar { bits: 0 }) {
        Scalar { bits: 0 }
    } else if fuzz.less(Scalar { bits: ONE_BITS }) {
        fuzz
    } else {
        Scalar { bits: ONE_BITS }
    }
}

/// Brings the fuzz of a metal into the range from zero to one.
pub fn clamp_fuzz(fuzz: Scalar) -> (r: Scalar)
    ensures
        r == fuzz_kept(fuzz),
        !r.nan(),
        0 <= r.rank() <= ONE_BITS,
{
    let zero = Scalar::zero();
    let one = Scalar::from_bits(ONE_BITS);
    if fuzz.lt(&zero) {
        zero
    } else if fuzz.lt(&one) {
        fuzz
    } else {
        one
    }
}

/// Whether a metal scatters: it does where the scattered direction points
/// away from the surface, that is where its product with the normal is
/// positive; else the ray is absorbed.
pub fn metal_scatters(scattered_dot_normal: Scalar) -> (r: bool)
    ensures
        r == (Scalar { bits: 0 }).less(scattered_dot_normal),
{
    scattered_dot_normal.gt(&Scalar::zero())
}

/// The side from which a ray meets a dielectric surface.
#[derive(Clone, Copy, Debug, PartialEq, Eq, Structural)]
pub enum Side {
    /// The ray comes from outside: the normal is the outward normal, and the
    /// ratio of the refractive indices is one over the material's index.
    Entering,
    /// The ray comes from inside: the outward normal is the negated normal,
    /// and the ratio is the material's index.
    Leaving,
}

/// The side from which a ray meets the surface: it leaves where the product
/// of its direction with the normal is positive.
pub fn side(direction_dot_normal: Scalar) -> (r: Side)
    ensures
        r == (if (Scalar { bits: 0 }).less(direction_dot_normal) {
            Side::Leaving
        } else {
            Side::Entering
        }),
{
    if direction_dot_normal.gt(&Scalar::zero()) {
        Side::Leaving
    } else {
        Side::Entering
    }
}

/// What a dielectric does with a ray.
#[derive(Clone, Copy, Debug, PartialEq, Eq, Structural)]
pub enum Branch {
    /// The ray is mirrored at the surface.
    Reflect,
    /// The ray passes the surface and is bent.
    Refract,
}

/// The probability with which a dielectric reflects: the Schlick
/// reflectance where the ray can be refracted, and one where it cannot.
pub open spec fn reflectance(refracted: bool, schlick: Scalar) -> Scalar {
    if refracted {
        schlick
    } else {
        Scalar { bits: ONE_BITS }
    }
}

/// Chooses between reflection and refraction: the ray is reflected where the
/// uniform draw is less than the reflectance. A ray that cannot be refracted
/// is reflected; for that the draw must be less than one, as every uniform
/// draw is.
pub fn choose_branch(refracted: bool, schlick: Scalar, draw: Scalar) -> (r: Branch)
    requires
        !refracted ==> draw.less(Scalar { bits: ONE_BITS }),
    ensures
        r == (if draw.less(reflectance(refracted, schlick)) {
            Branch::Reflect
        } else {
            Branch::Refract
        }),
        r == Branch::Refract ==> refracted,
{
    let reflect_prob = if refracted {
        schlick
    } else {
        Scalar::from_bits(ONE_BITS)
    };
    if draw.lt(&reflect_prob) {
        Branch::Reflect
    } else {
        Branch::Refract
    }
}

} // verus!
