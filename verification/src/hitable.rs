//! What can be hit: the record of a hit, the entities of a scene as the
//! library holds them, the questions it asks about them, and the plain list
//! with its closest-hit scan.

use vstd::prelude::*;
use crate::aabb::{greater, lesser, AABB};
use crate::scalar::Scalar;
use crate::vec::Vec3;

verus! {

/// What is known of the point where a ray meets a surface: the ray parameter,
/// the point, the surface coordinates, the normal, and the handle of the
/// material, which stays with the scene.
#[derive(Clone, Copy, Debug)]
pub struct HitRecord {
    pub t: Scalar,
    pub p: Vec3,
    pub u: Scalar,
    pub v: Scalar,
    pub normal: Vec3,
    pub material: usize,
}

/// An entity that rays can hit, as the library holds it: the handle by which
/// the caller finds its geometry, and its bounding box if it has one.
#[derive(Clone, Copy, Debug)]
pub struct Hitable {
    pub id: usize,
    pub bbox: Option<AABB>,
}

/// What a search for the closest hit needs to know next, or what it found.
#[derive(Clone, Copy, Debug)]
pub enum Query {
    /// Where does the ray cross the six planes of this box?
    Bounds { bbox: AABB },
    /// Where does the ray hit the entity with this handle, between `t_min`
    /// and `t_max`?
    Shape { hitable: usize, t_min: Scalar, t_max: Scalar },
    /// Nothing more: this is the closest hit, if there is one.
    Done(Option<HitRecord>),
}

/// The geometry of a scene for one ray, as far as a search asks about it:
/// for a handle and a window, the hit of that entity within the window.
pub type Probe = spec_fn(usize, Scalar, Scalar) -> Option<HitRecord>;

impl Hitable {
    /// Whether the entity can be ordered along an axis: it has a box, and the
    /// coordinate of the box's minimum on that axis is a number.
    pub open spec fn sortable_on(self, axis: int) -> bool {
        self.bbox is Some && !self.bbox.unwrap().min.component(axis).nan()
    }

    /// Whether the entity can be ordered along each of the three axes.
    pub open spec fn sortable(self) -> bool {
        self.sortable_on(0) && self.sortable_on(1) && self.sortable_on(2)
    }

    /// The rank by which the entity is ordered along an axis: that of the
    /// coordinate of its box's minimum.
    pub open spec fn key(self, axis: int) -> int {
        self.bbox.unwrap().min.component(axis).rank()
    }
}

impl HitRecord {
    /// The record of a hit at parameter `t` in the point `p`, with normal
    /// `n`, on the material with the given handle, at the surface
    /// coordinates `(u, v)`.
    pub fn new(t: Scalar, p: Vec3, n: Vec3, material: usize, u: Scalar, v: Scalar) -> (r: Self)
        ensures
            r == (HitRecord { t, p, u, v, normal: n, material }),
    {
        HitRecord { t, p, normal: n, material, u, v }
    }
}

/// The closer of two hits as a search takes it: of two hits the left one only
/// if its parameter is less, and the only hit if there is but one.
pub open spec fn nearer(left: Option<HitRecord>, right: Option<HitRecord>) -> Option<HitRecord> {
    match left {
        Some(l) => match right {
            Some(r) => if l.t.less(r.t) {
                left
            } else {
                right
            },
            None => left,
        },
        None => right,
    }
}

/// The closer of two hits.
pub fn closer(left: Option<HitRecord>, right: Option<HitRecord>) -> (r: Option<HitRecord>)
    ensures
        r == nearer(left, right),
{
    match left {
        Some(l) => match right {
            Some(r) => if l.t.lt(&r.t) {
                left
            } else {
                right
            },
            None => left,
        },
        None => right,
    }
}

/// An aggregate of entities in the order in which they were added.
pub struct HitableList {
    list: Vec<Hitable>,
}

/// A scan of a list for the closest hit, between two questions.
pub struct ListScan<'a> {
    list: &'a HitableList,
    next: usize,
    t_min: Scalar,
    closest_so_far: Scalar,
    current: Option<HitRecord>,
}

/// The state of a scan: the place of the member to ask next, the window's
/// start, the parameter of the closest hit so far (the window's end before
/// any hit), and that hit.
pub struct ScanState {
    pub next: nat,
    pub t_min: Scalar,
    pub closest_so_far: Scalar,
    pub current: Option<HitRecord>,
}

impl ScanState {
    /// The state before the first question.
    pub open spec fn start(t_min: Scalar, t_max: Scalar) -> ScanState {
        ScanState { next: 0, t_min, closest_so_far: t_max, current: None }
    }

    /// The question that is open in this state: the next member is asked for
    /// a hit that is closer than the closest so far; after the last member
    /// the scan is done.
    pub open spec fn query(self, list: Seq<Hitable>) -> Query {
        if self.next < list.len() {
            Query::Shape {
                hitable: list[self.next as int].id,
                t_min: self.t_min,
                t_max: self.closest_so_far,
            }
        } else {
            Query::Done(self.current)
        }
    }

    /// The state after the open question was answered: a hit becomes the
    /// closest so far, whatever its parameter; no hit changes nothing but the
    /// member to ask next. A scan that is done stays as it is.
    pub open spec fn absorb(self, list: Seq<Hitable>, found: Option<HitRecord>) -> ScanState {
        if self.next >= list.len() {
            self
        } else {
            match found {
                Some(h) => ScanState {
                    next: self.next + 1,
                    t_min: self.t_min,
                    closest_so_far: h.t,
                    current: found,
                },
                None => ScanState { next: self.next + 1, ..self },
            }
        }
    }

    /// What the scan ends with when every question is answered by `probe`.
    pub open spec fn outcome(self, list: Seq<Hitable>, probe: Probe) -> Option<HitRecord>
        decreases list.len() - self.next,
    {
        if self.next >= list.len() {
            self.current
        } else {
            self.absorb(
                list,
                probe(list[self.next as int].id, self.t_min, self.closest_so_far),
            ).outcome(list, probe)
        }
    }
}

/// The union of the boxes of `list` from place `k` on with `acc`, or nothing
/// if one of these members has no box. Each box is joined to the union of
/// those before it.
pub open spec fn union_from(list: Seq<Hitable>, k: int, acc: AABB) -> Option<AABB>
    decreases list.len() - k,
{
    if k < 0 || k >= list.len() {
        Some(acc)
    } else {
        match list[k].bbox {
            Some(b) => union_from(list, k + 1, AABB::surrounding(b, acc)),
            None => None,
        }
    }
}

/// The bounding box of a list: the union of the boxes of its members; none
/// for the empty list and for a list with a member that has no box.
pub open spec fn list_bounds(list: Seq<Hitable>) -> Option<AABB> {
    if list.len() < 1 {
        None
    } else {
        match list[0].bbox {
            Some(b) => union_from(list, 1, b),
            None => None,
        }
    }
}

/// One step of `union_from`: the member at place `k` joins the union.
proof fn union_from_step(list: Seq<Hitable>, k: int, acc: AABB)
    requires
        0 <= k < list.len(),
    ensures
        union_from(list, k, acc) == match list[k].bbox {
            Some(b) => union_from(list, k + 1, AABB::surrounding(b, acc)),
            None => None,
        },
{
}

/// The union of a box with the boxes of the members from place `k` on
/// encloses the box and the boxes of these members, where all of them are
/// made of numbers; and there is no union exactly where one of these members
/// has no box.
pub proof fn union_from_encloses(list: Seq<Hitable>, k: int, acc: AABB)
    requires
        0 <= k <= list.len(),
        !acc.nan(),
        forall|i: int|
            k <= i < list.len() && (#[trigger] list[i]).bbox is Some ==> !list[i].bbox.unwrap().nan(),
    ensures
        match union_from(list, k, acc) {
            Some(b) => {
                &&& !b.nan()
                &&& b.encloses(acc)
                &&& forall|i: int|
                    k <= i < list.len() ==> (#[trigger] list[i]).bbox is Some && b.encloses(
                        list[i].bbox.unwrap(),
                    )
            },
            None => exists|i: int| k <= i < list.len() && (#[trigger] list[i]).bbox is None,
        },
    decreases list.len() - k,
{
    if k < list.len() {
        match list[k].bbox {
            Some(b) => {
                crate::aabb::surrounding_box_encloses(b, acc);
                union_from_encloses(list, k + 1, AABB::surrounding(b, acc));
                match union_from(list, k, acc) {
                    Some(u) => {
                        assert forall|i: int| k <= i < list.len() implies (#[trigger] list[i]).bbox
                            is Some && u.encloses(list[i].bbox.unwrap()) by {
                            if i == k {
                                assert(AABB::surrounding(b, acc).encloses(b));
                            }
                        }
                    },
                    None => {
                        let w = choose|i: int|
                            k + 1 <= i < list.len() && (#[trigger] list[i]).bbox is None;
                        assert(k <= w < list.len() && list[w].bbox is None);
                    },
                }
            },
            None => {},
        }
    }
}

/// The box of a list encloses the box of every member, where these boxes are
/// made of numbers; and a list has no box exactly where it is empty or one
/// of its members has none.
pub proof fn list_box_encloses_members(list: Seq<Hitable>)
    requires
        forall|i: int|
            0 <= i < list.len() && (#[trigger] list[i]).bbox is Some ==> !list[i].bbox.unwrap().nan(),
    ensures
        match list_bounds(list) {
            Some(b) => {
                &&& !b.nan()
                &&& forall|i: int|
                    0 <= i < list.len() ==> (#[trigger] list[i]).bbox is Some && b.encloses(
                        list[i].bbox.unwrap(),
                    )
            },
            None => list.len() == 0 || exists|i: int|
                0 <= i < list.len() && (#[trigger] list[i]).bbox is None,
        },
{
    if list.len() >= 1 {
        match list[0].bbox {
            Some(first) => {
                union_from_encloses(list, 1, first);
                match list_bounds(list) {
                    Some(u) => {
                        assert forall|i: int| 0 <= i < list.len() implies (#[trigger] list[i]).bbox
                            is Some && u.encloses(list[i].bbox.unwrap()) by {}
                    },
                    None => {
                        let w = choose|i: int|
                            1 <= i < list.len() && (#[trigger] list[i]).bbox is None;
                        assert(0 <= w < list.len() && list[w].bbox is None);
                    },
                }
            },
            None => {},
        }
    }
}

impl HitableList {
    /// The members in their order.
    pub closed spec fn view(&self) -> Seq<Hitable> {
        self.list@
    }

    /// The empty list.
    pub fn new() -> (r: Self)
        ensures
            r@ == Seq::<Hitable>::empty(),
    {
        HitableList { list: Vec::new() }
    }

    /// The list of the given entities, in their order.
    pub fn from_list(list: Vec<Hitable>) -> (r: Self)
        ensures
            r@ == list@,
    {
        HitableList { list }
    }

    /// Adds an entity at the end.
    pub fn push(&mut self, hitable: Hitable)
        ensures
            final(self)@ == old(self)@.push(hitable),
    {
        self.list.push(hitable);
    }

    /// The number of members.
    pub fn len(&self) -> (r: usize)
        ensures
            r == self@.len(),
    {
        self.list.len()
    }

    /// Starts a scan for the closest hit between `t_min` and `t_max`.
    pub fn hit(&self, t_min: Scalar, t_max: Scalar) -> (scan: ListScan<'_>)
        ensures
            scan@ == ScanState::start(t_min, t_max),
            scan.members() == self@,
    {
        ListScan { list: self, next: 0, t_min, closest_so_far: t_max, current: None }
    }

    /// The box around all members.
    pub fn bounding_box(&self) -> (r: Option<AABB>)
        ensures
            r == list_bounds(self@),
    {
        if self.list.len() < 1 {
            return None;
        }
        let mut surrounding_box: AABB;
        let first = self.list[0].bbox;
        match first {
            Some(b) => surrounding_box = b,
            None => return None,
        }
        let mut i: usize = 1;
        while i < self.list.len()
            invariant
                1 <= i <= self.list@.len(),
                list_bounds(self@) == union_from(self@, i as int, surrounding_box),
            decreases self.list@.len() - i,
        {
            proof {
                union_from_step(self@, i as int, surrounding_box);
            }
            if let Some(bbox) = self.list[i].bbox {
                surrounding_box = AABB::surrounding_box(&bbox, &surrounding_box);
            } else {
                return None;
            }
            i = i + 1;
        }
        Some(surrounding_box)
    }
}

impl<'a> ListScan<'a> {
    /// The state of the scan.
    pub closed spec fn view(&self) -> ScanState {
        ScanState {
            next: self.next as nat,
            t_min: self.t_min,
            closest_so_far: self.closest_so_far,
            current: self.current,
        }
    }

    /// The members of the list that is scanned.
    pub closed spec fn members(&self) -> Seq<Hitable> {
        self.list@
    }

    /// The open question.
    pub fn query(&self) -> (q: Query)
        ensures
            q == self@.query(self.members()),
    {
        if self.next < self.list.list.len() {
            Query::Shape {
                hitable: self.list.list[self.next].id,
                t_min: self.t_min,
                t_max: self.closest_so_far,
            }
        } else {
            Query::Done(self.current)
        }
    }

    /// Takes the answer to the open question: the hit of the member asked,
    /// within the window asked, or none.
    pub fn answer(&mut self, found: Option<HitRecord>)
        ensures
            final(self)@ == old(self)@.absorb(old(self).members(), found),
            final(self).members() == old(self).members(),
    {
        if self.next < self.list.list.len() {
            if let Some(h) = found {
                self.closest_so_far = h.t;
                self.current = found;
            }
            self.next = self.next + 1;
        }
    }
}

/// The part of a ray that runs inside a medium and inside the window, from
/// the parameters at which the ray enters and leaves the boundary: each end
/// is moved to the window's end where it lies outside; nothing is left where
/// the start is then not before the end; and a start below zero is zero.
pub open spec fn clipped_span(entry: Scalar, exit: Scalar, t_min: Scalar, t_max: Scalar) -> Option<
    (Scalar, Scalar),
> {
    let start = if entry.less(t_min) {
        t_min
    } else {
        entry
    };
    let end = if t_max.less(exit) {
        t_max
    } else {
        exit
    };
    if end.at_most(start) {
        None
    } else if start.less(Scalar { bits: 0 }) {
        Some((Scalar { bits: 0 }, end))
    } else {
        Some((start, end))
    }
}

/// Clips the part of a ray inside a medium to the window.
pub fn medium_span(entry: Scalar, exit: Scalar, t_min: Scalar, t_max: Scalar) -> (r: Option<
    (Scalar, Scalar),
>)
    ensures
        r == clipped_span(entry, exit, t_min, t_max),
{
    let mut tmin = entry;
    let mut tmax = exit;
    if tmin.lt(&t_min) {
        tmin = t_min;
    }
    if tmax.gt(&t_max) {
        tmax = t_max;
    }
    if tmin.ge(&tmax) {
        return None;
    }
    if tmin.lt(&Scalar::zero()) {
        tmin = Scalar::zero();
    }
    Some((tmin, tmax))
}

/// The corner-wise growth of a box by a point: the greater of the point's and
/// the maximum's coordinates, and the lesser of the point's and the
/// minimum's.
pub fn set_min_max(min: &mut Vec3, max: &mut Vec3, min_max: &Vec3)
    ensures
        *final(max) == (Vec3 {
            x: greater(min_max.x, old(max).x),
            y: greater(min_max.y, old(max).y),
            z: greater(min_max.z, old(max).z),
        }),
        *final(min) == (Vec3 {
            x: lesser(min_max.x, old(min).x),
            y: lesser(min_max.y, old(min).y),
            z: lesser(min_max.z, old(min).z),
        }),
{
    if min_max.x.gt(&max.x) {
        max.x = min_max.x;
    }
    if min_max.y.gt(&max.y) {
        max.y = min_max.y;
    }
    if min_max.z.gt(&max.z) {
        max.z = min_max.z;
    }
    if min_max.x.lt(&min.x) {
        min.x = min_max.x;
    }
    if min_max.y.lt(&min.y) {
        min.y = min_max.y;
    }
    if min_max.z.lt(&min.z) {
        min.z = min_max.z;
    }
}

} // verus!
