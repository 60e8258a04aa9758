//! Image raster parameters and pixel indexing.
//!
//! A raster of `width x height` pixels is addressed row-major: the pixel at
//! column `x` and row `y` has the flat index `y * width + x`, the order in
//! which the ray caster walks the image.

use vstd::prelude::*;

verus! {

/// Width and height of the output image, in pixels.
#[derive(Clone, Copy, Debug, PartialEq, Eq, Structural)]
pub struct ImageParams {
    pub width: u32,
    pub height: u32,
}

impl ImageParams {
    /// A raster the rest of the pipeline can address: both sides positive and
    /// the flat pixel range representable on this machine.
    pub open spec fn wf(self) -> bool {
        &&& 0 < self.width
        &&& 0 < self.height
        &&& self.width * self.height <= usize::MAX
    }

    /// Flat index of the pixel at column `x`, row `y`.
    pub open spec fn spec_pixel_index(self, x: u32, y: u32) -> int {
        y * self.width + x
    }

    /// Number of pixels in the raster.
    pub fn pixel_count(&self) -> (n: usize)
        requires
            self.wf(),
        ensures
            n == self.width * self.height,
    {
        proof {
            lemma_mul_bounds_u32(self.width, self.height);
        }
        (self.width as usize) * (self.height as usize)
    }

    /// Flat index of the pixel at column `x`, row `y`.
    pub fn pixel_index(&self, x: u32, y: u32) -> (i: usize)
        requires
            self.wf(),
            x < self.width,
            y < self.height,
        ensures
            i == self.spec_pixel_index(x, y),
            i < self.width * self.height,
    {
        proof {
            lemma_pixel_index_in_range(*self, x, y);
        }
        (y as usize) * (self.width as usize) + (x as usize)
    }

    /// The coordinates of the pixel with flat index `p`: the inverse of
    /// [`ImageParams::pixel_index`].
    pub fn pixel_coord(&self, p: usize) -> (c: (u32, u32))
        requires
            self.wf(),
            p < self.width * self.height,
        ensures
            c.0 < self.width,
            c.1 < self.height,
            self.spec_pixel_index(c.0, c.1) == p,
            c.0 == p as int % (self.width as int),
            c.1 == p as int / (self.width as int),
    {
        proof {
            lemma_mul_bounds_u32(self.width, self.height);
            assert(p as int / (self.width as int) < self.height) by (nonlinear_arith)
                requires
                    0 < self.width,
                    0 <= (p as int) < self.width * self.height,
            ;
            assert((p as int / (self.width as int)) * (self.width as int) + p as int % (
            self.width as int) == p as int) by (nonlinear_arith)
                requires
                    0 < self.width,
                    0 <= p as int,
            ;
        }
        let x = (p % (self.width as usize)) as u32;
        let y = (p / (self.width as usize)) as u32;
        (x, y)
    }

    /// All pixel coordinates `(x, y)` in row-major order: the entry at flat
    /// index `k` is the pixel whose `spec_pixel_index` is `k`.
    pub fn pixel_coords(&self) -> (coords: Vec<(u32, u32)>)
        requires
            self.wf(),
        ensures
            coords@.len() == self.width * self.height,
            forall|k: int|
                0 <= k < coords@.len() ==> #[trigger] coords@[k]
                    == ((k % (self.width as int)) as u32, (k / (self.width as int)) as u32),
            forall|k: int|
                0 <= k < coords@.len() ==> self.spec_pixel_index(
                    (#[trigger] coords@[k]).0,
                    coords@[k].1,
                ) == k,
    {
        let mut coords: Vec<(u32, u32)> = Vec::new();
        let mut y: u32 = 0;
        while y < self.height
            invariant
                self.wf(),
                y <= self.height,
                coords@.len() == y * self.width,
                forall|k: int| 0 <= k < coords@.len() ==> in_raster(*self, #[trigger] coords@[k], k),
            decreases self.height - y,
        {
            let mut x: u32 = 0;
            proof {
                lemma_mul_bounds_u32(self.width, self.height);
            }
            while x < self.width
                invariant
                    self.wf(),
                    y < self.height,
                    x <= self.width,
                    coords@.len() == y * self.width + x,
                    forall|k: int|
                        0 <= k < coords@.len() ==> in_raster(*self, #[trigger] coords@[k], k),
                decreases self.width - x,
            {
                proof {
                    lemma_pixel_index_in_range(*self, x, y);
                }
                coords.push((x, y));
                x = x + 1;
            }
            proof {
                assert((y + 1) * self.width == y * self.width + self.width) by (nonlinear_arith);
            }
            y = y + 1;
        }
        proof {
            assert(self.height * self.width == self.width * self.height) by (nonlinear_arith);
            assert forall|k: int| 0 <= k < coords@.len() implies #[trigger] coords@[k] == ((k % (
            self.width as int)) as u32, (k / (self.width as int)) as u32) by {
                lemma_row_major_div_mod(
                    self.width as int,
                    coords@[k].0 as int,
                    coords@[k].1 as int,
                );
            }
        }
        coords
    }
}

/// The pixel coordinates of a tile of the raster, row-major: columns
/// `x0 .. x1` of rows `y0 .. y1`. A tiled caster walks these instead of the
/// whole grid.
pub fn tile_coords(x0: u32, x1: u32, y0: u32, y1: u32) -> (coords: Vec<(u32, u32)>)
    requires
        x0 < x1,
        y0 < y1,
        (x1 - x0) * (y1 - y0) <= usize::MAX,
    ensures
        coords@.len() == (x1 - x0) * (y1 - y0),
        forall|k: int|
            0 <= k < coords@.len() ==> #[trigger] coords@[k] == ((x0 + k % ((x1 - x0) as int)) as u32, (
            y0 + k / ((x1 - x0) as int)) as u32),
{
    let w = x1 - x0;
    let mut coords: Vec<(u32, u32)> = Vec::new();
    let mut y: u32 = y0;
    while y < y1
        invariant
            x0 < x1,
            w == x1 - x0,
            y0 <= y <= y1,
            (x1 - x0) * (y1 - y0) <= usize::MAX,
            coords@.len() == (y - y0) * w,
            forall|k: int|
                0 <= k < coords@.len() ==> #[trigger] coords@[k] == ((x0 + k % (w as int)) as u32, (
                y0 + k / (w as int)) as u32),
        decreases y1 - y,
    {
        let mut x: u32 = x0;
        proof {
            lemma_tile_rows_fit(w as int, (y - y0) as int, (y1 - y0) as int);
        }
        while x < x1
            invariant
                x0 <= x <= x1,
                x0 < x1,
                w == x1 - x0,
                y0 <= y < y1,
                coords@.len() == (y - y0) * w + (x - x0),
                (y - y0) * w + w <= (x1 - x0) * (y1 - y0) <= usize::MAX,
                forall|k: int|
                    0 <= k < coords@.len() ==> #[trigger] coords@[k] == ((x0 + k % (w as int)) as u32, (
                    y0 + k / (w as int)) as u32),
            decreases x1 - x,
        {
            proof {
                lemma_row_major_div_mod(w as int, (x - x0) as int, (y - y0) as int);
            }
            coords.push((x, y));
            x = x + 1;
        }
        proof {
            assert(((y - y0) + 1) * w == (y - y0) * w + w) by (nonlinear_arith);
        }
        y = y + 1;
    }
    proof {
        assert((y1 - y0) * w == w * (y1 - y0)) by (nonlinear_arith);
    }
    coords
}

/// A finished tile row leaves room for one more row inside the tile.
proof fn lemma_tile_rows_fit(w: int, rows_done: int, rows: int)
    requires
        0 < w,
        0 <= rows_done < rows,
    ensures
        rows_done * w + w <= w * rows,
{
    assert(rows_done * w + w <= w * rows) by (nonlinear_arith)
        requires
            0 < w,
            0 <= rows_done < rows,
    ;
}

/// The coordinate pair `c` lies inside the raster `img` and names the pixel
/// with flat index `k`.
pub open spec fn in_raster(img: ImageParams, c: (u32, u32), k: int) -> bool {
    &&& c.0 < img.width
    &&& c.1 < img.height
    &&& img.spec_pixel_index(c.0, c.1) == k
}

/// The product of two `u32` values fits in a `u64`, hence in the `int`
/// arithmetic below without surprises.
proof fn lemma_mul_bounds_u32(a: u32, b: u32)
    ensures
        0 <= a * b <= u64::MAX,
{
    assert(0 <= a * b <= u64::MAX) by (nonlinear_arith);
}

/// Row-major flat indices stay inside the raster.
proof fn lemma_pixel_index_in_range(img: ImageParams, x: u32, y: u32)
    requires
        x < img.width,
        y < img.height,
    ensures
        0 <= y * img.width + x,
        y * img.width + x < img.width * img.height,
{
    assert(0 <= y * img.width + x && y * img.width + x < img.width * img.height)
        by (nonlinear_arith)
        requires
            x < img.width,
            y < img.height,
    ;
}

/// Splitting a row-major index back into its column and row.
proof fn lemma_row_major_div_mod(w: int, x: int, y: int)
    requires
        0 < w,
        0 <= x < w,
        0 <= y,
    ensures
        (y * w + x) % w == x,
        (y * w + x) / w == y,
{
    assert((y * w + x) % w == x && (y * w + x) / w == y) by (nonlinear_arith)
        requires
            0 < w,
            0 <= x < w,
            0 <= y,
    ;
}

} // verus!
