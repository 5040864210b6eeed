//! Laws of dilation and erosion, stated over the mathematical model.

use vstd::prelude::*;
use crate::engine::{dilation, erosion, lemma_morph_pixel};
use crate::footprint::{all_set, anchor, covers, neighbours, sample, sweep_end, sweep_start};
use crate::raster::{Raster, lemma_equal_by_pixels};

verus! {

/// The sweep never reaches in front of the image: whatever the size of the
/// kernel and however close `(x, y)` is to the image's edge, no pixel under
/// the footprint has a negative coordinate, and every swept cell is a cell of
/// the kernel.
pub proof fn lemma_footprint_is_clamped(kernel: Raster, x: int, y: int, dx: int, dy: int)
    requires
        0 <= x,
        0 <= y,
        covers(kernel, x, y, dx, dy),
    ensures
        0 <= x + dx - anchor(kernel.width as int),
        0 <= y + dy - anchor(kernel.height as int),
        0 <= dx < kernel.width,
        0 <= dy < kernel.height,
{
}

/// Unless the kernel is empty, the anchor is swept at every evaluated pixel:
/// the pixel under test lies under its own footprint.
pub proof fn lemma_anchor_is_covered(kernel: Raster, x: int, y: int)
    requires
        kernel.width >= 1,
        kernel.height >= 1,
        x >= 1,
        y >= 1,
    ensures
        covers(kernel, x, y, anchor(kernel.width as int), anchor(kernel.height as int)),
{
}

/// The neighbourhood test answers `flip` where some pixel under the footprint
/// equals `flip`, and `!flip` where none does.
pub proof fn lemma_neighbours_by_flip(img: Raster, kernel: Raster, x: int, y: int, flip: bool)
    ensures
        neighbours(img, kernel, x, y, flip) == flip <==> exists|dx: int, dy: int| #[trigger]
            covers(kernel, x, y, dx, dy) && sample(img, kernel, x, y, dx, dy) == flip,
{
    if !flip && !all_set(img, kernel, x, y) {
        let (dx, dy) = choose|dx: int, dy: int| #[trigger]
            covers(kernel, x, y, dx, dy) && !sample(img, kernel, x, y, dx, dy);
        assert(covers(kernel, x, y, dx, dy) && sample(img, kernel, x, y, dx, dy) == flip);
    }
}

/// Dilation sets an evaluated pixel as soon as one pixel under its footprint
/// is set.
pub proof fn lemma_dilation_of_set_neighbour(
    img: Raster,
    kernel: Raster,
    x: int,
    y: int,
    dx: int,
    dy: int,
)
    requires
        img.in_bounds(x, y),
        x >= 1,
        y >= 1,
        covers(kernel, x, y, dx, dy),
        sample(img, kernel, x, y, dx, dy),
    ensures
        dilation(img, kernel).pixel(x, y),
{
    lemma_morph_pixel(img, kernel, true, x, y);
}

/// Dilation keeps every set pixel that it evaluates, unless the kernel is
/// empty.
pub proof fn lemma_dilation_keeps_set_pixel(img: Raster, kernel: Raster, x: int, y: int)
    requires
        kernel.width >= 1,
        kernel.height >= 1,
        x >= 1,
        y >= 1,
        img.pixel(x, y),
    ensures
        dilation(img, kernel).pixel(x, y),
{
    lemma_anchor_is_covered(kernel, x, y);
    lemma_dilation_of_set_neighbour(
        img,
        kernel,
        x,
        y,
        anchor(kernel.width as int),
        anchor(kernel.height as int),
    );
}

/// A pixel of the erosion is set only if every pixel under its footprint is
/// set.
pub proof fn lemma_erosion_needs_all_neighbours(img: Raster, kernel: Raster, x: int, y: int)
    requires
        erosion(img, kernel).pixel(x, y),
    ensures
        all_set(img, kernel, x, y),
{
    lemma_morph_pixel(img, kernel, false, x, y);
}

/// A single unset pixel anywhere under the footprint unsets the pixel of the
/// erosion.
pub proof fn lemma_erosion_of_unset_neighbour(
    img: Raster,
    kernel: Raster,
    x: int,
    y: int,
    dx: int,
    dy: int,
)
    requires
        covers(kernel, x, y, dx, dy),
        !sample(img, kernel, x, y, dx, dy),
    ensures
        !erosion(img, kernel).pixel(x, y),
{
    lemma_morph_pixel(img, kernel, false, x, y);
}

/// Erosion sets no pixel that was unset, unless the kernel is empty.
pub proof fn lemma_erosion_keeps_unset_pixel(img: Raster, kernel: Raster, x: int, y: int)
    requires
        kernel.width >= 1,
        kernel.height >= 1,
        !img.pixel(x, y),
    ensures
        !erosion(img, kernel).pixel(x, y),
{
    lemma_morph_pixel(img, kernel, false, x, y);
    if x >= 1 && y >= 1 {
        lemma_anchor_is_covered(kernel, x, y);
        lemma_erosion_of_unset_neighbour(
            img,
            kernel,
            x,
            y,
            anchor(kernel.width as int),
            anchor(kernel.height as int),
        );
    }
}

/// The first column and the first row of a dilation and of an erosion are
/// unset: they are never evaluated.
pub proof fn lemma_first_column_and_row_stay_unset(img: Raster, kernel: Raster, x: int, y: int)
    requires
        x == 0 || y == 0,
    ensures
        !dilation(img, kernel).pixel(x, y),
        !erosion(img, kernel).pixel(x, y),
{
    lemma_morph_pixel(img, kernel, true, x, y);
    lemma_morph_pixel(img, kernel, false, x, y);
}

/// Under a kernel without cells, one whose width or height is zero, nothing
/// is swept: the neighbourhood test answers `!flip` everywhere, so the
/// dilation is unset everywhere and the erosion is set at every evaluated
/// pixel.
pub proof fn lemma_degenerate_kernel(img: Raster, kernel: Raster, x: int, y: int)
    requires
        kernel.width == 0 || kernel.height == 0,
    ensures
        forall|flip: bool| neighbours(img, kernel, x, y, flip) == !flip,
        !dilation(img, kernel).pixel(x, y),
        erosion(img, kernel).pixel(x, y) == (img.in_bounds(x, y) && x >= 1 && y >= 1),
{
    assert(forall|dx: int, dy: int| !covers(kernel, x, y, dx, dy));
    lemma_morph_pixel(img, kernel, true, x, y);
    lemma_morph_pixel(img, kernel, false, x, y);
}

/// Dilation and erosion preserve inclusion: where every set pixel of `small`
/// is set in `large`, an image of the same size, the same holds of their
/// dilations and of their erosions.
pub proof fn lemma_monotone(small: Raster, large: Raster, kernel: Raster, x: int, y: int)
    requires
        small.width == large.width,
        small.height == large.height,
        forall|u: int, v: int| small.pixel(u, v) ==> large.pixel(u, v),
    ensures
        dilation(small, kernel).pixel(x, y) ==> dilation(large, kernel).pixel(x, y),
        erosion(small, kernel).pixel(x, y) ==> erosion(large, kernel).pixel(x, y),
{
    lemma_morph_pixel(small, kernel, true, x, y);
    lemma_morph_pixel(large, kernel, true, x, y);
    lemma_morph_pixel(small, kernel, false, x, y);
    lemma_morph_pixel(large, kernel, false, x, y);
    if dilation(small, kernel).pixel(x, y) {
        let (dx, dy) = choose|dx: int, dy: int| #[trigger]
            covers(kernel, x, y, dx, dy) && sample(small, kernel, x, y, dx, dy);
        assert(sample(large, kernel, x, y, dx, dy));
    }
    if erosion(small, kernel).pixel(x, y) {
        assert forall|dx: int, dy: int| #[trigger] covers(kernel, x, y, dx, dy) implies sample(
            large,
            kernel,
            x,
            y,
            dx,
            dy,
        ) by {
            assert(sample(small, kernel, x, y, dx, dy));
        }
    }
}

/// `img` holds exactly one set pixel, the one at `(px, py)`.
pub open spec fn lone_pixel(img: Raster, px: int, py: int) -> bool {
    forall|x: int, y: int| #[trigger] img.pixel(x, y) == (x == px && y == py)
}

/// On an image axis of the given length, a kernel axis of odd extent fits
/// around `pos`: every position that it reaches from `pos` lies inside the
/// image, is evaluated, and is far enough from the image's front edge for
/// the sweep anchored on it to be whole.
pub open spec fn fits_around(extent: int, pos: int, length: int) -> bool {
    &&& extent % 2 == 1
    &&& 1 <= pos
    &&& 2 * anchor(extent) <= pos
    &&& pos + anchor(extent) < length
}

/// `(x, y)` lies in the block that a fitting kernel reaches from `(px, py)`.
pub open spec fn in_block(kernel: Raster, px: int, py: int, x: int, y: int) -> bool {
    &&& px - anchor(kernel.width as int) <= x <= px + anchor(kernel.width as int)
    &&& py - anchor(kernel.height as int) <= y <= py + anchor(kernel.height as int)
}

/// The dilation of a lone pixel by a kernel that fits around it is the block
/// that the kernel reaches from the pixel.
pub proof fn lemma_dilation_of_lone_pixel(
    img: Raster,
    kernel: Raster,
    px: int,
    py: int,
    x: int,
    y: int,
)
    requires
        lone_pixel(img, px, py),
        fits_around(kernel.width as int, px, img.width as int),
        fits_around(kernel.height as int, py, img.height as int),
    ensures
        dilation(img, kernel).pixel(x, y) == in_block(kernel, px, py, x, y),
{
    let ax = anchor(kernel.width as int);
    let ay = anchor(kernel.height as int);
    lemma_morph_pixel(img, kernel, true, x, y);
    if in_block(kernel, px, py, x, y) {
        let dx = px - x + ax;
        let dy = py - y + ay;
        assert(img.pixel(px, py));
        assert(covers(kernel, x, y, dx, dy) && sample(img, kernel, x, y, dx, dy));
    }
    if dilation(img, kernel).pixel(x, y) {
        let (dx, dy) = choose|dx: int, dy: int| #[trigger]
            covers(kernel, x, y, dx, dy) && sample(img, kernel, x, y, dx, dy);
        assert(img.pixel(x + dx - ax, y + dy - ay));
    }
}

/// Eroding the block that a fitting kernel reaches from `(px, py)` leaves
/// the pixel `(px, py)` alone.
proof fn lemma_erosion_of_block(
    block: Raster,
    kernel: Raster,
    px: int,
    py: int,
    x: int,
    y: int,
)
    requires
        forall|u: int, v: int| #[trigger] block.pixel(u, v) == in_block(kernel, px, py, u, v),
        fits_around(kernel.width as int, px, block.width as int),
        fits_around(kernel.height as int, py, block.height as int),
    ensures
        erosion(block, kernel).pixel(x, y) == (x == px && y == py),
{
    let kw = kernel.width as int;
    let kh = kernel.height as int;
    let ax = anchor(kw);
    let ay = anchor(kh);
    lemma_morph_pixel(block, kernel, false, x, y);
    if x == px && y == py {
        assert(block.pixel(px, py));
        assert forall|dx: int, dy: int| #[trigger] covers(kernel, x, y, dx, dy) implies sample(
            block,
            kernel,
            x,
            y,
            dx,
            dy,
        ) by {
            assert(block.pixel(x + dx - ax, y + dy - ay));
        }
    } else if x >= 1 && y >= 1 {
        // The cell swept first, last or on the anchor, whichever stands
        // furthest from the block on its axis.
        let dx = if x < px {
            sweep_start(kw, x)
        } else if x > px {
            sweep_end(kw, x) - 1
        } else {
            ax
        };
        let dy = if y < py {
            sweep_start(kh, y)
        } else if y > py {
            sweep_end(kh, y) - 1
        } else {
            ay
        };
        assert(covers(kernel, x, y, dx, dy));
        assert(!block.pixel(x + dx - ax, y + dy - ay));
        assert(!sample(block, kernel, x, y, dx, dy));
    }
}

/// Eroding the dilation gives the image back where it holds one lone pixel
/// and the kernel, of odd width and height, fits around it.
pub proof fn lemma_erode_dilate_lone_pixel(img: Raster, kernel: Raster, px: int, py: int)
    requires
        img.wf(),
        lone_pixel(img, px, py),
        fits_around(kernel.width as int, px, img.width as int),
        fits_around(kernel.height as int, py, img.height as int),
    ensures
        erosion(dilation(img, kernel), kernel) == img,
{
    let grown = dilation(img, kernel);
    let back = erosion(grown, kernel);
    assert forall|u: int, v: int| #[trigger] grown.pixel(u, v) == in_block(
        kernel,
        px,
        py,
        u,
        v,
    ) by {
        lemma_dilation_of_lone_pixel(img, kernel, px, py, u, v);
    }
    assert forall|x: int, y: int| back.pixel(x, y) == img.pixel(x, y) by {
        lemma_erosion_of_block(grown, kernel, px, py, x, y);
    }
    lemma_morph_pixel(grown, kernel, false, px, py);
    lemma_equal_by_pixels(back, img);
}

/// The dilation of a lone pixel differs from the image unless the kernel, of
/// odd width and height that fits around the pixel, is a single cell.
pub proof fn lemma_dilation_grows_lone_pixel(img: Raster, kernel: Raster, px: int, py: int)
    requires
        lone_pixel(img, px, py),
        fits_around(kernel.width as int, px, img.width as int),
        fits_around(kernel.height as int, py, img.height as int),
        kernel.width > 1 || kernel.height > 1,
    ensures
        dilation(img, kernel) != img,
{
    if kernel.width > 1 {
        lemma_dilation_of_lone_pixel(img, kernel, px, py, px + 1, py);
        assert(!img.pixel(px + 1, py));
    } else {
        lemma_dilation_of_lone_pixel(img, kernel, px, py, px, py + 1);
        assert(!img.pixel(px, py + 1));
    }
}

} // verus!
