//! The binary image: a flat buffer of pixels addressed by `(x, y)`.

use vstd::prelude::*;
use crate::raster::{Raster, lemma_index_in_range};

verus! {

/// A [binary image](https://en.wikipedia.org/wiki/Binary_image): a raster of
/// `width` by `height` boolean pixels in one flat buffer.
///
/// The pixel `(x, y)` is the cell `x + y * width` of `data`. The fields are
/// open to the image's owner, who may set cells directly; the functions that
/// read an image ask that it is well formed (`wf`).
#[derive(Debug)]
pub struct Vec2d {
    /// Number of columns.
    pub width: usize,
    /// Number of rows.
    pub height: usize,
    /// The cells, row after row.
    pub data: Vec<bool>,
}

impl View for Vec2d {
    type V = Raster;

    open spec fn view(&self) -> Raster {
        Raster { width: self.width as nat, height: self.height as nat, cells: self.data@ }
    }
}

impl Vec2d {
    /// The buffer holds `width * height` cells.
    pub open spec fn wf(&self) -> bool {
        self@.wf()
    }

    /// The cells of a well-formed image can be counted in a `usize`.
    pub proof fn lemma_area_fits(&self)
        requires
            self.wf(),
        ensures
            self.width * self.height <= usize::MAX,
    {
        assert(self.data@.len() == self.data.len());
    }

    /// An image of the given size with every pixel unset.
    ///
    /// The number of cells has to fit in a `usize`. A width or height of zero
    /// is in order and gives an image without cells.
    pub fn empty(width: usize, height: usize) -> (grid: Self)
        requires
            width * height <= usize::MAX,
        ensures
            grid.wf(),
            grid@ == Raster::uniform(width as nat, height as nat, false),
            forall|x: int, y: int| !(#[trigger] grid@.pixel(x, y)),
    {
        let grid = Vec2d { data: vec![false; width * height], width: width, height: height };
        proof {
            assert(grid@.cells =~= Raster::uniform(width as nat, height as nat, false).cells);
            assert forall|x: int, y: int| !(#[trigger] grid@.pixel(x, y)) by {
                if grid@.in_bounds(x, y) {
                    lemma_index_in_range(width as int, height as int, x, y);
                }
            }
        }
        grid
    }

    /// An image of the given size with every pixel set.
    ///
    /// The number of cells has to fit in a `usize`. A width or height of zero
    /// is in order and gives an image without cells.
    pub fn filled(width: usize, height: usize) -> (grid: Self)
        requires
            width * height <= usize::MAX,
        ensures
            grid.wf(),
            grid@ == Raster::uniform(width as nat, height as nat, true),
            forall|x: int, y: int| #[trigger] grid@.pixel(x, y) == grid@.in_bounds(x, y),
    {
        let grid = Vec2d { data: vec![true; width * height], width: width, height: height };
        proof {
            assert(grid@.cells =~= Raster::uniform(width as nat, height as nat, true).cells);
            assert forall|x: int, y: int| #[trigger] grid@.pixel(x, y) == grid@.in_bounds(x, y) by {
                if grid@.in_bounds(x, y) {
                    lemma_index_in_range(width as int, height as int, x, y);
                }
            }
        }
        grid
    }

    /// The pixel at `(x, y)`, or `false` where `(x, y)` lies outside the
    /// image.
    pub fn get(&self, x: usize, y: usize) -> (set: bool)
        requires
            self.wf(),
        ensures
            set == self@.pixel(x as int, y as int),
            x >= self.width || y >= self.height ==> !set,
    {
        if x >= self.width {
            return false;
        }
        if y >= self.height {
            return false;
        }
        proof {
            lemma_index_in_range(self.width as int, self.height as int, x as int, y as int);
            self.lemma_area_fits();
        }
        self.data[x + y * self.width]
    }
}

} // verus!
