//! Three scalars: a point, a direction or a colour.

use vstd::prelude::*;
use crate::scalar::Scalar;
use vstd::std_specs::cmp::PartialEqSpecImpl;

verus! {

/// A triple of scalars.
#[derive(Clone, Copy, Debug)]
pub struct Vec3 {
    pub x: Scalar,
    pub y: Scalar,
    pub z: Scalar,
}

impl Vec3 {
    /// Whether one of the three components is not a number.
    pub open spec fn nan(self) -> bool {
        self.x.nan() || self.y.nan() || self.z.nan()
    }

    /// Component by component, `self == other` as numbers.
    pub open spec fn same(self, other: Vec3) -> bool {
        self.x.same(other.x) && self.y.same(other.y) && self.z.same(other.z)
    }

    /// The component on an axis: 0 is x, 1 is y, anything else is z.
    pub open spec fn component(self, axis: int) -> Scalar {
        if axis == 0 {
            self.x
        } else if axis == 1 {
            self.y
        } else {
            self.z
        }
    }

    /// The triple of the three components.
    pub fn new(x: Scalar, y: Scalar, z: Scalar) -> (r: Self)
        ensures
            r.x == x,
            r.y == y,
            r.z == z,
    {
        Vec3 { x, y, z }
    }

    /// The triple of three positive zeros.
    pub fn zero() -> (r: Self)
        ensures
            r.x.bits == 0,
            r.y.bits == 0,
            r.z.bits == 0,
    {
        Vec3 { x: Scalar::zero(), y: Scalar::zero(), z: Scalar::zero() }
    }

    /// The three components in the order x, y, z.
    pub fn values(&self) -> (r: Vec<Scalar>)
        ensures
            r@ == seq![self.x, self.y, self.z],
    {
        let mut r: Vec<Scalar> = Vec::new();
        r.push(self.x);
        r.push(self.y);
        r.push(self.z);
        assert(r@ =~= seq![self.x, self.y, self.z]);
        r
    }
}

impl PartialEq for Vec3 {
    /// Whether the two triples are equal as numbers, component by component.
    fn eq(&self, other: &Vec3) -> (r: bool) {
        self.x == other.x && self.y == other.y && self.z == other.z
    }
}

impl PartialEqSpecImpl for Vec3 {
    open spec fn obeys_eq_spec() -> bool {
        true
    }

    open spec fn eq_spec(&self, other: &Vec3) -> bool {
        self.same(*other)
    }
}

} // verus!
