//! The image as text, for inspection: one line per row.

use vstd::prelude::*;
use crate::grid::Vec2d;
use crate::raster::Raster;

verus! {

/// `String::push` of the standard library appends the character to the end
/// of the string and changes nothing else.
pub assume_specification[ String::push ](s: &mut String, ch: char)
    ensures
        final(s)@ == old(s)@.push(ch),
;

/// The character that stands for a cell.
pub open spec fn cell_char(set: bool) -> char {
    if set {
        '1'
    } else {
        '0'
    }
}

/// The line of row `y`: one character per cell, then a newline.
pub open spec fn line(img: Raster, y: int) -> Seq<char> {
    Seq::new(
        img.width + 1,
        |x: int|
            if x < img.width {
                cell_char(img.pixel(x, y))
            } else {
                '\n'
            },
    )
}

/// The lines of the first `rows` rows, top row first.
pub open spec fn lines(img: Raster, rows: nat) -> Seq<char>
    decreases rows,
{
    if rows == 0 {
        Seq::empty()
    } else {
        lines(img, (rows - 1) as nat) + line(img, rows - 1)
    }
}

/// The text of an image: the lines of all its rows.
pub open spec fn text(img: Raster) -> Seq<char> {
    lines(img, img.height)
}

impl Vec2d {
    /// The image as text: one line per row, each ended by a newline, with
    /// `'1'` for a set cell and `'0'` for an unset one.
    pub fn render(&self) -> (out: String)
        requires
            self.wf(),
        ensures
            out@ == text(self@),
    {
        let mut out = String::new();
        for y in 0..self.height
            invariant
                self.wf(),
                out@ == lines(self@, y as nat),
        {
            let ghost above = out@;
            for x in 0..self.width
                invariant
                    self.wf(),
                    y < self.height,
                    out@ == above + line(self@, y as int).take(x as int),
            {
                out.push(if self.get(x, y) { '1' } else { '0' });
                assert(out@ =~= above + line(self@, y as int).take(x + 1));
            }
            out.push('\n');
            assert(out@ =~= above + line(self@, y as int));
        }
        out
    }
}

} // verus!
