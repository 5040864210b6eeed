//! The footprint of a kernel: which image pixels lie under it when its anchor
//! is aligned with a given image pixel.
//!
//! Only the kernel's extent counts. Its own cells are never read: the kernel
//! is a dense rectangular mask.

use vstd::prelude::*;
use vstd::math::min;
use crate::raster::Raster;

verus! {

/// The anchor of a kernel axis of the given extent: its centre cell.
pub open spec fn anchor(extent: int) -> int {
    extent / 2
}

/// First kernel cell swept on an axis when the anchor stands on `pos`.
///
/// Where the anchor is further from the kernel's edge than `pos` is from the
/// image's, the sweep starts late by the difference, so that no pixel in
/// front of the image is reached.
pub open spec fn sweep_start(extent: int, pos: int) -> int {
    anchor(extent) - min(anchor(extent), pos)
}

/// One past the last kernel cell swept on an axis: the sweep is cut by the
/// same amount at both ends.
pub open spec fn sweep_end(extent: int, pos: int) -> int {
    extent - sweep_start(extent, pos)
}

/// Kernel cell `d` is swept on an axis of the given extent anchored at `pos`.
pub open spec fn in_sweep(extent: int, pos: int, d: int) -> bool {
    sweep_start(extent, pos) <= d < sweep_end(extent, pos)
}

/// Kernel cell `(dx, dy)` is swept when the anchor stands on `(x, y)`.
pub open spec fn covers(kernel: Raster, x: int, y: int, dx: int, dy: int) -> bool {
    in_sweep(kernel.width as int, x, dx) && in_sweep(kernel.height as int, y, dy)
}

/// The image pixel under kernel cell `(dx, dy)` when the anchor stands on
/// `(x, y)`.
pub open spec fn sample(img: Raster, kernel: Raster, x: int, y: int, dx: int, dy: int) -> bool {
    img.pixel(x + dx - anchor(kernel.width as int), y + dy - anchor(kernel.height as int))
}

/// Some pixel under the footprint at `(x, y)` is set.
pub open spec fn any_set(img: Raster, kernel: Raster, x: int, y: int) -> bool {
    exists|dx: int, dy: int| #[trigger]
        covers(kernel, x, y, dx, dy) && sample(img, kernel, x, y, dx, dy)
}

/// Every pixel under the footprint at `(x, y)` is set.
pub open spec fn all_set(img: Raster, kernel: Raster, x: int, y: int) -> bool {
    forall|dx: int, dy: int| #[trigger]
        covers(kernel, x, y, dx, dy) ==> sample(img, kernel, x, y, dx, dy)
}

/// The neighbourhood test at `(x, y)`: with `flip` it asks whether any pixel
/// under the footprint is set, without it whether all of them are.
pub open spec fn neighbours(img: Raster, kernel: Raster, x: int, y: int, flip: bool) -> bool {
    if flip {
        any_set(img, kernel, x, y)
    } else {
        all_set(img, kernel, x, y)
    }
}

} // verus!
