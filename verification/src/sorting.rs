//! The order of entities along an axis, and the sort that establishes it.

use std::cmp::Ordering;
use vstd::prelude::*;
use crate::hitable::Hitable;

verus! {

/// The entities of `s` from `lo` up to `hi` can all be ordered along `axis`.
pub open spec fn span_sortable(s: Seq<Hitable>, lo: usize, hi: usize, axis: usize) -> bool {
    forall|i: int| lo <= i < hi ==> (#[trigger] s[i]).sortable_on(axis as int)
}

/// The entities of `s` from `lo` up to `hi` stand in the order of their keys
/// along `axis`, the least first.
pub open spec fn span_sorted(s: Seq<Hitable>, lo: usize, hi: usize, axis: usize) -> bool {
    forall|i: int, j: int|
        lo <= i <= j < hi ==> (#[trigger] s[i]).key(axis as int) <= (#[trigger] s[j]).key(
            axis as int,
        )
}

/// `after` is `before` with the entities from `lo` up to `hi` rearranged
/// among themselves: the same entities, each as often, and every other place
/// untouched.
pub open spec fn rearranged(before: Seq<Hitable>, after: Seq<Hitable>, lo: usize, hi: usize) -> bool {
    &&& after.len() == before.len()
    &&& forall|i: int| 0 <= i < lo ==> after[i] == before[i]
    &&& forall|i: int| hi <= i < before.len() ==> after[i] == before[i]
    &&& after.subrange(lo as int, hi as int).to_multiset() == before.subrange(
        lo as int,
        hi as int,
    ).to_multiset()
}

/// The entities of `s` from `lo` up to `hi` whose key along `axis` is `key`,
/// in their order.
pub open spec fn span_of_key(s: Seq<Hitable>, lo: usize, hi: usize, axis: usize, key: int) -> Seq<
    Hitable,
> {
    s.subrange(lo as int, hi as int).filter(|h: Hitable| h.key(axis as int) == key)
}

/// Entities with the same key along `axis` stand in `after` in the order in
/// which they stood in `before`.
pub open spec fn ties_kept(
    before: Seq<Hitable>,
    after: Seq<Hitable>,
    lo: usize,
    hi: usize,
    axis: usize,
) -> bool {
    forall|key: int| #[trigger]
        span_of_key(after, lo, hi, axis, key) == span_of_key(before, lo, hi, axis, key)
}

/// The entities of `s` from `lo` up to `hi` all have the same key along
/// `axis`.
pub open spec fn span_tied(s: Seq<Hitable>, lo: usize, hi: usize, axis: usize) -> bool {
    forall|i: int, j: int|
        lo <= i < hi && lo <= j < hi ==> (#[trigger] s[i]).key(axis as int) == (#[trigger] s[j]).key(
            axis as int,
        )
}

/// A sequence whose entries all pass a filter is not changed by it.
pub proof fn filter_keeps_all(s: Seq<Hitable>, pred: spec_fn(Hitable) -> bool)
    requires
        forall|i: int| 0 <= i < s.len() ==> pred(#[trigger] s[i]),
    ensures
        s.filter(pred) == s,
    decreases s.len(),
{
    reveal(Seq::filter);
    if s.len() > 0 {
        filter_keeps_all(s.drop_last(), pred);
        assert(s.drop_last().push(s.last()) =~= s);
    }
}

/// A span of entities with one key that was rearranged with its ties kept
/// was not changed.
pub proof fn tied_span_stays(
    before: Seq<Hitable>,
    after: Seq<Hitable>,
    lo: usize,
    hi: usize,
    axis: usize,
)
    requires
        lo <= hi <= before.len(),
        rearranged(before, after, lo, hi),
        ties_kept(before, after, lo, hi, axis),
        span_tied(before, lo, hi, axis),
    ensures
        after == before,
{
    if lo < hi {
        let key = before[lo as int].key(axis as int);
        let pred = |h: Hitable| h.key(axis as int) == key;
        let was = before.subrange(lo as int, hi as int);
        let is = after.subrange(lo as int, hi as int);
        assert forall|i: int| 0 <= i < was.len() implies pred(#[trigger] was[i]) by {
            assert(was[i] == before[lo + i]);
        }
        assert forall|i: int| 0 <= i < is.len() implies pred(#[trigger] is[i]) by {
            assert(is.contains(is[i]));
            vstd::seq_lib::to_multiset_contains(is, is[i]);
            vstd::seq_lib::to_multiset_contains(was, is[i]);
            let k = choose|k: int| 0 <= k < was.len() && was[k] == is[i];
            assert(pred(was[k]));
        }
        filter_keeps_all(was, pred);
        filter_keeps_all(is, pred);
        assert(span_of_key(after, lo, hi, axis, key) == span_of_key(before, lo, hi, axis, key));
        assert(is == was);
        assert forall|i: int| 0 <= i < before.len() implies after[i] == before[i] by {
            if lo <= i < hi {
                assert(is[i - lo] == after[i]);
                assert(was[i - lo] == before[i]);
            }
        }
    }
    assert(after =~= before);
}

/// How the first of two ranks stands to the second.
pub open spec fn ranks_compared(a: int, b: int) -> Ordering {
    if a < b {
        Ordering::Less
    } else if a == b {
        Ordering::Equal
    } else {
        Ordering::Greater
    }
}

/// Orders two entities by the x coordinate of their boxes' minima.
pub fn box_x_compare(a: &Hitable, b: &Hitable) -> (r: Ordering)
    requires
        a.sortable_on(0),
        b.sortable_on(0),
    ensures
        r == ranks_compared(a.key(0), b.key(0)),
{
    let left: i64 = a.bbox.unwrap().min.x.key();
    let right: i64 = b.bbox.unwrap().min.x.key();
    if left < right {
        Ordering::Less
    } else if left == right {
        Ordering::Equal
    } else {
        Ordering::Greater
    }
}

/// Orders two entities by the y coordinate of their boxes' minima.
pub fn box_y_compare(a: &Hitable, b: &Hitable) -> (r: Ordering)
    requires
        a.sortable_on(1),
        b.sortable_on(1),
    ensures
        r == ranks_compared(a.key(1), b.key(1)),
{
    let left: i64 = a.bbox.unwrap().min.y.key();
    let right: i64 = b.bbox.unwrap().min.y.key();
    if left < right {
        Ordering::Less
    } else if left == right {
        Ordering::Equal
    } else {
        Ordering::Greater
    }
}

/// Orders two entities by the z coordinate of their boxes' minima.
pub fn box_z_compare(a: &Hitable, b: &Hitable) -> (r: Ordering)
    requires
        a.sortable_on(2),
        b.sortable_on(2),
    ensures
        r == ranks_compared(a.key(2), b.key(2)),
{
    let left: i64 = a.bbox.unwrap().min.z.key();
    let right: i64 = b.bbox.unwrap().min.z.key();
    if left < right {
        Ordering::Less
    } else if left == right {
        Ordering::Equal
    } else {
        Ordering::Greater
    }
}

/// The axis as a mathematical integer.
pub open spec fn axis_number(axis: usize) -> int {
    axis as int
}

/// Orders two entities along the given axis: 0 is x, 1 is y, 2 is z.
pub fn box_compare(a: &Hitable, b: &Hitable, axis: usize) -> (r: Ordering)
    requires
        axis < 3,
        a.sortable_on(axis_number(axis)),
        b.sortable_on(axis_number(axis)),
    ensures
        r == ranks_compared(a.key(axis_number(axis)), b.key(axis_number(axis))),
{
    if axis == 0 {
        box_x_compare(a, b)
    } else if axis == 1 {
        box_y_compare(a, b)
    } else {
        box_z_compare(a, b)
    }
}

/// Sorts the entities from `lo` up to `hi` along an axis.
///
/// Calls `sort_by` of the standard library on that part of the vector, with
/// `box_compare` as the order. The standard library documents that the slice
/// is sorted by the given order and that the sort is stable: entities that
/// compare equal keep their order. A sort rearranges, so what is in the
/// slice afterwards is what was in it before, and nothing outside the slice
/// is touched.
#[verifier::external_body]
pub(crate) fn sort_span(l: &mut Vec<Hitable>, lo: usize, hi: usize, axis: usize)
    requires
        lo <= hi <= old(l)@.len(),
        axis < 3,
        span_sortable(old(l)@, lo, hi, axis),
    ensures
        rearranged(old(l)@, final(l)@, lo, hi),
        span_sorted(final(l)@, lo, hi, axis),
        ties_kept(old(l)@, final(l)@, lo, hi, axis),
{
    l[lo..hi].sort_by(|a, b| box_compare(a, b, axis));
}

} // verus!
