//! A scene ready to render.

use vstd::prelude::*;
use crate::bvh_node::{all_tied, BvhTree};
use crate::hitable::Hitable;

verus! {

/// The hierarchy over the entities of a scene, and the depth to which the
/// caller wants rays followed.
pub struct Scene {
    pub bvh: BvhTree,
    pub max_ray_depth: u32,
}

impl Scene {
    /// Builds the hierarchy over `models`, which are left in the order of
    /// its leaves.
    pub fn new(models: &mut Vec<Hitable>, max_ray_depth: u32) -> (r: Self)
        requires
            old(models)@.len() >= 1,
            forall|i: int|
                0 <= i < old(models)@.len() ==> (#[trigger] old(models)@[i]).sortable(),
        ensures
            r.max_ray_depth == max_ray_depth,
            r.bvh@.wf(),
            r.bvh@.leaves() == final(models)@,
            final(models)@.len() == old(models)@.len(),
            final(models)@.to_multiset() == old(models)@.to_multiset(),
            r.bvh@.nodes.len() == 2 * old(models)@.len() - 1,
            r.bvh@.halved(),
            r.bvh@.split(),
            r.bvh@.tidy(),
            all_tied(old(models)@, 0, old(models)@.len() as usize) ==> final(models)@ == old(
                models,
            )@,
    {
        Scene { bvh: BvhTree::new(models), max_ray_depth }
    }
}

} // verus!
