//! The bookkeeping of a render: which pixel a slot of the buffer is, and how
//! a path goes on.

use vstd::prelude::*;

verus! {

/// The depth beyond which a path is cut off.
pub const MAX_DEPTH: u32 = 50;

/// Where the pixel in slot `i` of the buffer lies in a raster of `nx` columns
/// and `ny` rows: its column, and its height above the lower edge. The
/// buffer holds the raster row by row from the top, so the first row is at
/// height `ny` and the last at height 1, and every pixel has a slot of its
/// own.
pub fn pixel_position(i: usize, nx: usize, ny: usize) -> (r: (usize, usize))
    requires
        nx > 0,
        i < nx * ny,
    ensures
        r.0 == i % nx,
        r.1 == ny - i / nx,
        r.0 < nx,
        1 <= r.1 <= ny,
        i == (ny - r.1) * nx + r.0,
{
    let x: usize = i % nx;
    proof {
        let q = i as int / nx as int;
        vstd::arithmetic::div_mod::lemma_fundamental_div_mod(i as int, nx as int);
        vstd::arithmetic::div_mod::lemma_div_multiples_vanish(q, nx as int);
        assert(q < ny) by (nonlinear_arith)
            requires
                nx * q <= i,
                i < nx * ny,
                nx > 0,
        ;
        assert(q >= 0) by (nonlinear_arith)
            requires
                nx * q + x == i,
                x < nx,
                i >= 0,
                nx > 0,
        ;
        assert((ny - (ny - q)) * nx + x == i) by (nonlinear_arith)
            requires
                nx * q + x == i,
        ;
    }
    let row: usize = (i - x) / nx;
    (x, ny - row)
}

/// What the integrator does with the vertex of a path.
#[derive(Clone, Copy, Debug, PartialEq, Eq, Structural)]
pub enum Step {
    /// The ray left the scene: the radiance is that of the background.
    Background,
    /// The path is cut off: the radiance is black.
    Black,
    /// The material at the hit is asked to scatter: the radiance is what it
    /// emits, and, if it scatters, what comes along the scattered ray at the
    /// next depth, attenuated.
    Scatter,
}

/// How a path goes on at `depth`, where the ray hit something or did not. A
/// ray that hits nothing ends the path with the background. A hit beyond
/// `MAX_DEPTH` ends it with black. Any other hit asks the material.
pub fn color_ray(hit: bool, depth: u32) -> (r: Step)
    ensures
        r == (if !hit {
            Step::Background
        } else if depth > MAX_DEPTH {
            Step::Black
        } else {
            Step::Scatter
        }),
{
    if hit {
        if depth > MAX_DEPTH {
            return Step::Black;
        }
        Step::Scatter
    } else {
        Step::Background
    }
}

/// The depth of the scattered ray of a vertex at `depth`. None where the
/// path is cut off at `depth`, so that no path goes deeper than one beyond
/// `MAX_DEPTH`.
pub fn next_depth(depth: u32) -> (r: Option<u32>)
    ensures
        r == (if depth > MAX_DEPTH {
            None
        } else {
            Some((depth + 1) as u32)
        }),
        r is Some ==> r.unwrap() <= MAX_DEPTH + 1,
{
    if depth > MAX_DEPTH {
        None
    } else {
        Some(depth + 1)
    }
}

} // verus!
