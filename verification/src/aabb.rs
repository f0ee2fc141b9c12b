//! Axis-aligned bounding boxes: the union of two boxes and the slab test.

use vstd::prelude::*;
use crate::scalar::Scalar;
use crate::vec::Vec3;

verus! {

/// The second argument unless the first is less.
pub open spec fn lesser(a: Scalar, b: Scalar) -> Scalar {
    if a.less(b) {
        a
    } else {
        b
    }
}

/// The second argument unless the first is greater.
pub open spec fn greater(a: Scalar, b: Scalar) -> Scalar {
    if b.less(a) {
        a
    } else {
        b
    }
}

/// The larger of two scalars; the second where they do not compare.
pub fn ffmax(a: Scalar, b: Scalar) -> (r: Scalar)
    ensures
        r == greater(a, b),
{
    if a.gt(&b) {
        a
    } else {
        b
    }
}

/// The smaller of two scalars; the second where they do not compare.
pub fn ffmin(a: Scalar, b: Scalar) -> (r: Scalar)
    ensures
        r == lesser(a, b),
{
    if a.lt(&b) {
        a
    } else {
        b
    }
}

/// An axis-aligned box, given by its two extreme corners. A box of no
/// thickness along an axis is a box like any other.
#[derive(Clone, Copy, Debug)]
pub struct AABB {
    pub min: Vec3,
    pub max: Vec3,
}

/// The parameters at which a ray meets the two planes that bound a box along
/// one axis: first the plane of the box's minimum, then that of its maximum.
/// Where the ray runs parallel to the planes they are infinite, or not a
/// number where the ray lies in a plane.
#[derive(Clone, Copy, Debug)]
pub struct Slab {
    pub at_min: Scalar,
    pub at_max: Scalar,
}

/// The three slabs of a box for one ray.
#[derive(Clone, Copy, Debug)]
pub struct Crossings {
    pub x: Slab,
    pub y: Slab,
    pub z: Slab,
}

/// An interval of ray parameters.
#[derive(Clone, Copy, Debug)]
pub struct Window {
    pub start: Scalar,
    pub end: Scalar,
}

impl Slab {
    /// Neither parameter is not a number.
    pub open spec fn comparable(self) -> bool {
        !self.at_min.nan() && !self.at_max.nan()
    }

    /// The same two planes, named the other way round.
    pub open spec fn swapped(self) -> Slab {
        Slab { at_min: self.at_max, at_max: self.at_min }
    }

    /// The rank at which the ray enters the slab.
    pub open spec fn entry(self) -> int {
        if self.at_min.rank() < self.at_max.rank() {
            self.at_min.rank()
        } else {
            self.at_max.rank()
        }
    }

    /// The rank at which the ray leaves the slab.
    pub open spec fn exit(self) -> int {
        if self.at_min.rank() > self.at_max.rank() {
            self.at_min.rank()
        } else {
            self.at_max.rank()
        }
    }
}

/// The larger of two ranks.
pub open spec fn later(a: int, b: int) -> int {
    if a > b {
        a
    } else {
        b
    }
}

/// The smaller of two ranks.
pub open spec fn earlier(a: int, b: int) -> int {
    if a < b {
        a
    } else {
        b
    }
}

impl Crossings {
    /// The rank from which the ray is inside all three slabs.
    pub open spec fn entry(self) -> int {
        later(self.x.entry(), later(self.y.entry(), self.z.entry()))
    }

    /// The rank at which the ray leaves the first of the three slabs.
    pub open spec fn exit(self) -> int {
        earlier(self.x.exit(), earlier(self.y.exit(), self.z.exit()))
    }
}

impl Window {
    /// The window cut down to the part that lies inside a slab.
    pub open spec fn narrowed(self, slab: Slab) -> Window {
        Window {
            start: greater(lesser(slab.at_min, slab.at_max), self.start),
            end: lesser(greater(slab.at_min, slab.at_max), self.end),
        }
    }

    /// Nothing is left of the window: its end is at most its start.
    pub open spec fn closed(self) -> bool {
        self.end.at_most(self.start)
    }

    /// Cuts the window down to a slab.
    pub fn narrow(&self, slab: &Slab) -> (r: Window)
        ensures
            r == self.narrowed(*slab),
    {
        let t0 = ffmin(slab.at_min, slab.at_max);
        let t1 = ffmax(slab.at_min, slab.at_max);
        Window { start: ffmax(t0, self.start), end: ffmin(t1, self.end) }
    }

    /// Whether nothing is left of the window.
    pub fn is_closed(&self) -> (r: bool)
        ensures
            r == self.closed(),
    {
        self.end.le(&self.start)
    }
}

impl AABB {
    /// One of the six coordinates is not a number.
    pub open spec fn nan(self) -> bool {
        self.min.nan() || self.max.nan()
    }

    /// Coordinate by coordinate, the same box as numbers.
    pub open spec fn same(self, other: AABB) -> bool {
        self.min.same(other.min) && self.max.same(other.max)
    }

    /// `other` lies inside `self`, on every axis.
    pub open spec fn encloses(self, other: AABB) -> bool {
        &&& self.min.x.at_most(other.min.x)
        &&& self.min.y.at_most(other.min.y)
        &&& self.min.z.at_most(other.min.z)
        &&& other.max.x.at_most(self.max.x)
        &&& other.max.y.at_most(self.max.y)
        &&& other.max.z.at_most(self.max.z)
    }

    /// The smallest box around two boxes: the lesser of the minima and the
    /// greater of the maxima, axis by axis.
    pub open spec fn surrounding(box0: AABB, box1: AABB) -> AABB {
        AABB {
            min: Vec3 {
                x: lesser(box0.min.x, box1.min.x),
                y: lesser(box0.min.y, box1.min.y),
                z: lesser(box0.min.z, box1.min.z),
            },
            max: Vec3 {
                x: greater(box0.max.x, box1.max.x),
                y: greater(box0.max.y, box1.max.y),
                z: greater(box0.max.z, box1.max.z),
            },
        }
    }

    /// Whether a window survives the three slabs of a box: it is narrowed by
    /// the x slab, what is left by the y slab, what is left of that by the z
    /// slab, and it must not be closed after any of them.
    pub open spec fn slabs_hit(crossings: Crossings, tmin: Scalar, tmax: Scalar) -> bool {
        let w = Window { start: tmin, end: tmax };
        let wx = w.narrowed(crossings.x);
        let wy = wx.narrowed(crossings.y);
        let wz = wy.narrowed(crossings.z);
        !wx.closed() && !wy.closed() && !wz.closed()
    }

    /// The box with the two corners.
    pub fn new(min: Vec3, max: Vec3) -> (r: Self)
        ensures
            r.min == min,
            r.max == max,
    {
        AABB { min, max }
    }

    /// The slab test. The ray is given by the parameters at which it crosses
    /// the six planes of the box; the answer is whether it is inside all
    /// three slabs at once somewhere strictly between `tmin` and `tmax`.
    pub fn hit(crossings: &Crossings, tmin: Scalar, tmax: Scalar) -> (r: bool)
        ensures
            r == Self::slabs_hit(*crossings, tmin, tmax),
    {
        let w = Window { start: tmin, end: tmax };
        let wx = w.narrow(&crossings.x);
        if wx.is_closed() {
            return false;
        }
        let wy = wx.narrow(&crossings.y);
        if wy.is_closed() {
            return false;
        }
        let wz = wy.narrow(&crossings.z);
        if wz.is_closed() {
            return false;
        }
        true
    }

    /// The smallest box around two boxes.
    pub fn surrounding_box(box0: &Self, box1: &Self) -> (r: Self)
        ensures
            r == Self::surrounding(*box0, *box1),
    {
        let small = Vec3::new(
            ffmin(box0.min.x, box1.min.x),
            ffmin(box0.min.y, box1.min.y),
            ffmin(box0.min.z, box1.min.z),
        );
        let big = Vec3::new(
            ffmax(box0.max.x, box1.max.x),
            ffmax(box0.max.y, box1.max.y),
            ffmax(box0.max.z, box1.max.z),
        );
        AABB::new(small, big)
    }
}

/// The order of the two planes of a slab does not matter to the slab test:
/// a box whose minimum and maximum are exchanged on any of the axes is hit by
/// the same rays. (Holds of slabs whose parameters are numbers.)
pub proof fn hit_ignores_plane_order(
    c: Crossings,
    flip_x: bool,
    flip_y: bool,
    flip_z: bool,
    tmin: Scalar,
    tmax: Scalar,
)
    requires
        c.x.comparable(),
        c.y.comparable(),
        c.z.comparable(),
    ensures
        AABB::slabs_hit(
            Crossings {
                x: if flip_x { c.x.swapped() } else { c.x },
                y: if flip_y { c.y.swapped() } else { c.y },
                z: if flip_z { c.z.swapped() } else { c.z },
            },
            tmin,
            tmax,
        ) == AABB::slabs_hit(c, tmin, tmax),
{
}

/// For parameters that are numbers the slab test is the overlap of four
/// intervals: the box is hit exactly when the latest of the three entries
/// and `tmin` comes before the earliest of the three exits and `tmax`.
pub proof fn hit_is_overlap(c: Crossings, tmin: Scalar, tmax: Scalar)
    requires
        c.x.comparable(),
        c.y.comparable(),
        c.z.comparable(),
        !tmin.nan(),
        !tmax.nan(),
    ensures
        AABB::slabs_hit(c, tmin, tmax) <==> later(tmin.rank(), c.entry()) < earlier(
            tmax.rank(),
            c.exit(),
        ),
{
}

/// A ray that is outside one of the slabs during the whole window misses the
/// box: where, on some axis, it leaves the slab no later than `tmin` or enters
/// it no earlier than `tmax`, the slab test fails.
pub proof fn hit_fails_outside_a_slab(c: Crossings, tmin: Scalar, tmax: Scalar)
    requires
        c.x.comparable(),
        c.y.comparable(),
        c.z.comparable(),
        !tmin.nan(),
        !tmax.nan(),
        c.x.exit() <= tmin.rank() || c.x.entry() >= tmax.rank() || c.y.exit() <= tmin.rank()
            || c.y.entry() >= tmax.rank() || c.z.exit() <= tmin.rank() || c.z.entry()
            >= tmax.rank(),
    ensures
        !AABB::slabs_hit(c, tmin, tmax),
{
}

/// The union of two boxes does not depend on their order, as numbers.
pub proof fn surrounding_box_commutes(a: AABB, b: AABB)
    requires
        !a.nan(),
        !b.nan(),
    ensures
        AABB::surrounding(a, b).same(AABB::surrounding(b, a)),
{
}

/// The union of three boxes does not depend on how they are grouped, as
/// numbers.
pub proof fn surrounding_box_associates(a: AABB, b: AABB, c: AABB)
    requires
        !a.nan(),
        !b.nan(),
        !c.nan(),
    ensures
        AABB::surrounding(AABB::surrounding(a, b), c).same(
            AABB::surrounding(a, AABB::surrounding(b, c)),
        ),
{
}

/// The union of two boxes encloses both.
pub proof fn surrounding_box_encloses(a: AABB, b: AABB)
    requires
        !a.nan(),
        !b.nan(),
    ensures
        AABB::surrounding(a, b).encloses(a),
        AABB::surrounding(a, b).encloses(b),
        !AABB::surrounding(a, b).nan(),
{
}

} // verus!
