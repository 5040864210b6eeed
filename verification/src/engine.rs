//! Dilation and erosion of a binary image by a rectangular kernel.

use vstd::prelude::*;
use crate::footprint::{all_set, anchor, any_set, covers, neighbours, sample, sweep_start};
use crate::grid::Vec2d;
use crate::raster::{Raster, lemma_coordinate_of_index, lemma_index_in_range, lemma_index_of_coordinate};

verus! {

/// What a transform writes at `(x, y)`: the neighbourhood test, except in the
/// first column and the first row, which are never evaluated and stay unset.
pub open spec fn morph_pixel(img: Raster, kernel: Raster, x: int, y: int, flip: bool) -> bool {
    x >= 1 && y >= 1 && neighbours(img, kernel, x, y, flip)
}

/// The image of the same size as `img` that holds `morph_pixel` at every
/// coordinate.
pub open spec fn morph(img: Raster, kernel: Raster, flip: bool) -> Raster {
    Raster {
        width: img.width,
        height: img.height,
        cells: Seq::new(
            img.width * img.height,
            |i: int| morph_pixel(img, kernel, i % (img.width as int), i / (img.width as int), flip),
        ),
    }
}

/// A transform holds `morph_pixel` at every coordinate inside the image, and
/// is unset elsewhere.
pub proof fn lemma_morph_pixel(img: Raster, kernel: Raster, flip: bool, x: int, y: int)
    ensures
        morph(img, kernel, flip).wf(),
        morph(img, kernel, flip).pixel(x, y) == (img.in_bounds(x, y) && morph_pixel(
            img,
            kernel,
            x,
            y,
            flip,
        )),
{
    if img.in_bounds(x, y) {
        lemma_index_in_range(img.width as int, img.height as int, x, y);
        lemma_coordinate_of_index(img.width as int, x, y);
    }
}

/// The dilation of `img` by `kernel`: a pixel is set where any pixel under
/// the footprint is set.
pub open spec fn dilation(img: Raster, kernel: Raster) -> Raster {
    morph(img, kernel, true)
}

/// The erosion of `img` by `kernel`: a pixel is set where every pixel under
/// the footprint is set.
pub open spec fn erosion(img: Raster, kernel: Raster) -> Raster {
    morph(img, kernel, false)
}

/// The image coordinate under kernel cell `d` on an axis whose anchor stands
/// on `pos`, or `None` where that coordinate lies beyond `usize::MAX` and so
/// outside every image.
fn coordinate_under(pos: usize, d: usize, anchor: usize) -> (coord: Option<usize>)
    requires
        pos + d >= anchor,
    ensures
        match coord {
            Some(c) => c == pos + d - anchor,
            None => pos + d - anchor > usize::MAX,
        },
{
    if d >= anchor {
        pos.checked_add(d - anchor)
    } else {
        Some(pos - (anchor - d))
    }
}

/// Tests the pixels of `img` under the kernel's footprint at `(x, y)`.
///
/// With `flip` set the answer is whether any of them is set, otherwise whether
/// all of them are. The sweep stops at the first pixel that equals `flip`;
/// under a kernel without cells nothing is swept and the answer is `!flip`.
/// Any `(x, y)` may be asked for, also in the first column or row and outside
/// the image.
pub fn check_neighbours(img: &Vec2d, kernel: &Vec2d, x: usize, y: usize, flip: bool) -> (r: bool)
    requires
        img.wf(),
    ensures
        r == neighbours(img@, kernel@, x as int, y as int, flip),
        kernel.width == 0 || kernel.height == 0 ==> r == !flip,
{
    proof {
        if kernel.width == 0 || kernel.height == 0 {
            assert(forall|dx: int, dy: int| !covers(kernel@, x as int, y as int, dx, dy));
        }
    }
    let anchor_x = kernel.width / 2;
    let anchor_y = kernel.height / 2;

    let offset_x = anchor_x - if anchor_x <= x { anchor_x } else { x };
    let offset_y = anchor_y - if anchor_y <= y { anchor_y } else { y };

    for dx in offset_x..(kernel.width - offset_x)
        invariant
            img.wf(),
            anchor_x == anchor(kernel.width as int),
            anchor_y == anchor(kernel.height as int),
            offset_x == sweep_start(kernel.width as int, x as int),
            offset_y == sweep_start(kernel.height as int, y as int),
            forall|i: int, j: int|
                offset_x <= i < dx && #[trigger] covers(kernel@, x as int, y as int, i, j)
                    ==> sample(img@, kernel@, x as int, y as int, i, j) != flip,
    {
        for dy in offset_y..(kernel.height - offset_y)
            invariant
                img.wf(),
                anchor_x == anchor(kernel.width as int),
                anchor_y == anchor(kernel.height as int),
                offset_x == sweep_start(kernel.width as int, x as int),
                offset_y == sweep_start(kernel.height as int, y as int),
                offset_x <= dx < kernel.width - offset_x,
                forall|i: int, j: int|
                    offset_x <= i < dx && #[trigger] covers(kernel@, x as int, y as int, i, j)
                        ==> sample(img@, kernel@, x as int, y as int, i, j) != flip,
                forall|j: int|
                    offset_y <= j < dy ==> #[trigger] sample(
                        img@,
                        kernel@,
                        x as int,
                        y as int,
                        dx as int,
                        j,
                    ) != flip,
        {
            let set = match coordinate_under(x, dx, anchor_x) {
                Some(cx) => match coordinate_under(y, dy, anchor_y) {
                    Some(cy) => img.get(cx, cy),
                    None => false,
                },
                None => false,
            };
            if flip == set {
                assert(covers(kernel@, x as int, y as int, dx as int, dy as int));
                return flip;
            }
        }
    }
    !flip
}

/// The cell `(cx, cy)` has been visited when the run over the image, which
/// goes down one column after the other, stands on `(x, y)`.
spec fn visited(cx: int, cy: int, x: int, y: int) -> bool {
    cx < x || (cx == x && cy < y)
}

/// Runs the neighbourhood test over the image, one column after the other,
/// into a fresh image of the same size. The first column and the first row
/// are left out.
fn transform(input: &Vec2d, kernel: &Vec2d, flip: bool) -> (output: Vec2d)
    requires
        input.wf(),
    ensures
        output.wf(),
        output@ == morph(input@, kernel@, flip),
{
    proof {
        input.lemma_area_fits();
    }
    let mut output = Vec2d::empty(input.width, input.height);
    let ghost w = input.width as int;
    let ghost h = input.height as int;
    let mut x: usize = 1;
    while x < input.width
        invariant
            input.wf(),
            input.width == w,
            input.height == h,
            output.width == w,
            output.height == h,
            output.data@.len() == w * h,
            1 <= x,
            forall|i: int|
                0 <= i < w * h ==> #[trigger] output.data@[i] == (visited(i % w, i / w, x as int, 1)
                    && morph_pixel(input@, kernel@, i % w, i / w, flip)),
        decreases input.width - x,
    {
        let mut y: usize = 1;
        while y < output.height
            invariant
                input.wf(),
                input.width == w,
                input.height == h,
                output.width == w,
                output.height == h,
                output.data@.len() == w * h,
                1 <= x < w,
                1 <= y,
                forall|i: int|
                    0 <= i < w * h ==> #[trigger] output.data@[i] == (visited(
                        i % w,
                        i / w,
                        x as int,
                        y as int,
                    ) && morph_pixel(input@, kernel@, i % w, i / w, flip)),
            decreases output.height - y,
        {
            proof {
                lemma_index_in_range(w, h, x as int, y as int);
                lemma_coordinate_of_index(w, x as int, y as int);
                output.lemma_area_fits();
            }
            output.data[x + y * output.width] = check_neighbours(input, kernel, x, y, flip);
            proof {
                assert forall|i: int| 0 <= i < w * h implies #[trigger] output.data@[i] == (visited(
                    i % w,
                    i / w,
                    x as int,
                    y + 1,
                ) && morph_pixel(input@, kernel@, i % w, i / w, flip)) by {
                    lemma_index_of_coordinate(w, h, i);
                }
            }
            y += 1;
        }
        proof {
            assert forall|i: int| 0 <= i < w * h implies #[trigger] output.data@[i] == (visited(
                i % w,
                i / w,
                x + 1,
                1,
            ) && morph_pixel(input@, kernel@, i % w, i / w, flip)) by {
                lemma_index_of_coordinate(w, h, i);
            }
        }
        x += 1;
    }
    proof {
        assert forall|i: int| 0 <= i < w * h implies #[trigger] output.data@[i] == morph_pixel(
            input@,
            kernel@,
            i % w,
            i / w,
            flip,
        ) by {
            lemma_index_of_coordinate(w, h, i);
        }
        assert(output@.cells =~= morph(input@, kernel@, flip).cells);
    }
    output
}

/// Dilates `input` by `kernel` into a new image of the same size: a pixel
/// is set where any pixel of `input` under the kernel's footprint is set.
///
/// Only the kernel's width and height are read, not its cells. The first
/// column and the first row are not evaluated and stay unset. See
/// [dilation](https://docs.opencv.org/2.4/doc/tutorials/imgproc/erosion_dilatation/erosion_dilatation.html#dilation).
pub fn dilate(input: &Vec2d, kernel: &Vec2d) -> (output: Vec2d)
    requires
        input.wf(),
    ensures
        output.wf(),
        output@ == dilation(input@, kernel@),
        forall|x: int, y: int| #[trigger]
            output@.pixel(x, y) == (input@.in_bounds(x, y) && x >= 1 && y >= 1 && any_set(
                input@,
                kernel@,
                x,
                y,
            )),
{
    proof {
        assert forall|x: int, y: int| #[trigger]
            dilation(input@, kernel@).pixel(x, y) == (input@.in_bounds(x, y) && x >= 1 && y >= 1
                && any_set(input@, kernel@, x, y)) by {
            lemma_morph_pixel(input@, kernel@, true, x, y);
        }
    }
    transform(input, kernel, true)
}

/// Erodes `input` by `kernel` into a new image of the same size: a pixel is
/// set where every pixel of `input` under the kernel's footprint is set.
///
/// Only the kernel's width and height are read, not its cells. The first
/// column and the first row are not evaluated and stay unset. See
/// [erosion](https://docs.opencv.org/2.4/doc/tutorials/imgproc/erosion_dilatation/erosion_dilatation.html#erosion).
pub fn erode(input: &Vec2d, kernel: &Vec2d) -> (output: Vec2d)
    requires
        input.wf(),
    ensures
        output.wf(),
        output@ == erosion(input@, kernel@),
        forall|x: int, y: int| #[trigger]
            output@.pixel(x, y) == (input@.in_bounds(x, y) && x >= 1 && y >= 1 && all_set(
                input@,
                kernel@,
                x,
                y,
            )),
{
    proof {
        assert forall|x: int, y: int| #[trigger]
            erosion(input@, kernel@).pixel(x, y) == (input@.in_bounds(x, y) && x >= 1 && y >= 1
                && all_set(input@, kernel@, x, y)) by {
            lemma_morph_pixel(input@, kernel@, false, x, y);
        }
    }
    transform(input, kernel, false)
}

} // verus!
