//! The mathematical model of a binary image.

use vstd::prelude::*;

verus! {

/// A rectangular raster of boolean pixels as a mathematical value.
///
/// The cell at coordinate `(x, y)` lives at position `x + y * width` of
/// `cells` (row-major order).
#[verifier::ext_equal]
pub struct Raster {
    pub width: nat,
    pub height: nat,
    pub cells: Seq<bool>,
}

impl Raster {
    /// The buffer holds exactly one cell per coordinate.
    pub open spec fn wf(self) -> bool {
        self.cells.len() == self.width * self.height
    }

    /// `(x, y)` names a cell of the raster.
    pub open spec fn in_bounds(self, x: int, y: int) -> bool {
        0 <= x < self.width && 0 <= y < self.height
    }

    /// Position of the cell `(x, y)` in `cells`.
    pub open spec fn index_of(self, x: int, y: int) -> int {
        x + y * self.width
    }

    /// The pixel at `(x, y)`; every coordinate outside the raster is unset.
    pub open spec fn pixel(self, x: int, y: int) -> bool {
        self.in_bounds(x, y) && self.cells[self.index_of(x, y)]
    }

    /// The raster of the given size whose cells all hold `value`.
    pub open spec fn uniform(width: nat, height: nat, value: bool) -> Raster {
        Raster { width, height, cells: Seq::new(width * height, |i: int| value) }
    }
}

/// Every coordinate of a raster has its own position inside the buffer.
pub proof fn lemma_index_in_range(width: int, height: int, x: int, y: int)
    requires
        0 <= x < width,
        0 <= y < height,
    ensures
        0 <= x + y * width < width * height,
{
    assert(0 <= y * width && x + y * width < width * height) by (nonlinear_arith)
        requires
            0 <= x < width,
            0 <= y < height,
    ;
}

/// A coordinate is recovered from its position in the buffer.
pub proof fn lemma_coordinate_of_index(width: int, x: int, y: int)
    requires
        0 <= x < width,
    ensures
        (x + y * width) % width == x,
        (x + y * width) / width == y,
{
    vstd::arithmetic::div_mod::lemma_fundamental_div_mod_converse(x + y * width, width, y, x);
}

/// Every position of the buffer is that of exactly one coordinate.
pub proof fn lemma_index_of_coordinate(width: int, height: int, i: int)
    requires
        0 <= width,
        0 <= height,
        0 <= i < width * height,
    ensures
        0 <= i % width < width,
        0 <= i / width < height,
        i == i % width + (i / width) * width,
{
    assert(width > 0) by (nonlinear_arith)
        requires
            0 <= width,
            0 <= i < width * height,
    ;
    vstd::arithmetic::div_mod::lemma_fundamental_div_mod(i, width);
    vstd::arithmetic::div_mod::lemma_mod_bound(i, width);
    let q = i / width;
    let r = i % width;
    assert(0 <= q < height && i == r + q * width) by (nonlinear_arith)
        requires
            width > 0,
            0 <= r < width,
            0 <= i < width * height,
            i == width * q + r,
    ;
}

/// Well-formed rasters of one size that agree on every pixel are equal.
pub proof fn lemma_equal_by_pixels(a: Raster, b: Raster)
    requires
        a.wf(),
        b.wf(),
        a.width == b.width,
        a.height == b.height,
        forall|x: int, y: int| a.pixel(x, y) == b.pixel(x, y),
    ensures
        a == b,
{
    let w = a.width as int;
    let h = a.height as int;
    assert forall|i: int| 0 <= i < w * h implies a.cells[i] == b.cells[i] by {
        lemma_index_of_coordinate(w, h, i);
        assert(a.pixel(i % w, i / w) == a.cells[i]);
        assert(b.pixel(i % w, i / w) == b.cells[i]);
    }
    assert(a.cells =~= b.cells);
}

} // verus!
