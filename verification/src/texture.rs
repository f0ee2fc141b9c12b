//! The raster behind an image texture.

use vstd::prelude::*;

verus! {

/// One pixel of a decoded image.
#[derive(Clone, Copy, Debug, PartialEq, Eq, Structural)]
pub struct Pixel {
    pub r: u8,
    pub g: u8,
    pub b: u8,
}

/// A decoded raster of `nx` columns and `ny` rows, row by row from the top.
pub struct ImageTexture {
    data: Vec<Pixel>,
    nx: usize,
    ny: usize,
}

/// A raster as a value.
pub struct Raster {
    pub data: Seq<Pixel>,
    pub nx: nat,
    pub ny: nat,
}

/// `x` brought into the range from 0 to `last`.
pub open spec fn clamped(x: int, last: int) -> int {
    if x < 0 {
        0
    } else if x > last {
        last
    } else {
        x
    }
}

impl Raster {
    /// The raster has a pixel, and data for each of its pixels.
    pub open spec fn wf(self) -> bool {
        self.nx >= 1 && self.ny >= 1 && self.nx * self.ny <= self.data.len()
    }

    /// The pixel in column `i` of row `j`, each brought into the raster
    /// first.
    pub open spec fn texel(self, i: int, j: int) -> Pixel {
        self.data[clamped(i, self.nx - 1) + self.nx * clamped(j, self.ny - 1)]
    }
}

impl ImageTexture {
    /// The raster.
    pub closed spec fn view(&self) -> Raster {
        Raster { data: self.data@, nx: self.nx as nat, ny: self.ny as nat }
    }

    /// What every image texture holds of its raster.
    #[verifier::type_invariant]
    spec fn holds_its_pixels(&self) -> bool {
        self@.wf()
    }

    /// The raster of `nx` columns and `ny` rows with the given pixels. There
    /// must be a pixel, and data for each.
    pub fn new(data: Vec<Pixel>, nx: usize, ny: usize) -> (r: Self)
        requires
            nx >= 1,
            ny >= 1,
            nx * ny <= data@.len(),
        ensures
            r@ == (Raster { data: data@, nx: nx as nat, ny: ny as nat }),
            r@.wf(),
    {
        ImageTexture { data, nx, ny }
    }

    /// The number of columns.
    pub fn width(&self) -> (r: usize)
        ensures
            r == self@.nx,
            self@.wf(),
    {
        proof {
            use_type_invariant(self);
        }
        self.nx
    }

    /// The number of rows.
    pub fn height(&self) -> (r: usize)
        ensures
            r == self@.ny,
            self@.wf(),
    {
        proof {
            use_type_invariant(self);
        }
        self.ny
    }

    /// The pixel at column `i` and row `j`. Coordinates off the raster are
    /// brought to its nearest edge.
    pub fn value(&self, i: i64, j: i64) -> (r: Pixel)
        ensures
            r == self@.texel(i as int, j as int),
    {
        proof {
            use_type_invariant(self);
        }
        let column: usize = clamp_index(i, self.nx);
        let row: usize = clamp_index(j, self.ny);
        let size: usize = self.data.len();
        proof {
            let (nx, ny) = (self.nx as int, self.ny as int);
            assert(nx * ny <= size);
            assert(0 <= nx * row && nx * row + column < nx * ny) by (nonlinear_arith)
                requires
                    0 <= column < nx,
                    0 <= row < ny,
            ;
        }
        self.data[column + self.nx * row]
    }
}

/// Whether `len` pixels are enough for a raster of `nx` columns and `ny`
/// rows that has a pixel.
pub fn holds(len: usize, nx: usize, ny: usize) -> (r: bool)
    ensures
        r == (nx >= 1 && ny >= 1 && nx * ny <= len),
{
    if nx < 1 || ny < 1 {
        return false;
    }
    let rows: usize = len / nx;
    proof {
        vstd::arithmetic::div_mod::lemma_fundamental_div_mod(len as int, nx as int);
        if ny <= rows {
            assert(nx * ny <= nx * rows) by (nonlinear_arith)
                requires
                    ny <= rows,
                    nx >= 1,
            ;
        } else {
            assert(nx * ny >= nx * (rows + 1)) by (nonlinear_arith)
                requires
                    ny >= rows + 1,
                    nx >= 1,
            ;
            assert(nx * (rows + 1) == nx * rows + nx) by (nonlinear_arith);
        }
    }
    ny <= rows
}

/// `x` brought into the range of the indices below `n`.
pub fn clamp_index(x: i64, n: usize) -> (r: usize)
    requires
        n >= 1,
    ensures
        r == clamped(x as int, n - 1),
        r < n,
{
    if x < 0 {
        0
    } else if x as u64 > (n - 1) as u64 {
        n - 1
    } else {
        x as usize
    }
}

} // verus!
