//! A window of the grid as text.

use vstd::prelude::*;
use crate::grid::Grid;

verus! {

/// Rows of the window that is shown by default.
pub const WINDOW_ROWS: usize = 16;

/// Columns of the window that is shown by default.
pub const WINDOW_COLS: usize = 32;

/// The character that stands for a cell.
pub open spec fn glyph(cell: bool) -> char {
    if cell {
        'o'
    } else {
        ' '
    }
}

/// The upper left corner of the grid, `height` rows by `width` columns, as
/// lines of text: `o` for a live cell, a blank for a dead one.
pub fn render_window(cells: &Grid, height: usize, width: usize) -> (lines: Vec<Vec<char>>)
    requires
        cells.wf(),
        height <= cells.spec_rows(),
        width <= cells.spec_width(),
    ensures
        lines@.len() == height,
        forall|y: int| 0 <= y < height ==> (#[trigger] lines@[y])@.len() == width,
        forall|y: int, x: int|
            0 <= y < height && 0 <= x < width ==> (#[trigger] lines@[y]@[x]) == glyph(
                cells@[y][x],
            ),
{
    let mut lines: Vec<Vec<char>> = Vec::new();
    let mut y: usize = 0;
    while y < height
        invariant
            y <= height,
            cells.wf(),
            height <= cells.spec_rows(),
            width <= cells.spec_width(),
            lines@.len() == y,
            forall|k: int| 0 <= k < y ==> (#[trigger] lines@[k])@.len() == width,
            forall|k: int, x: int|
                0 <= k < y && 0 <= x < width ==> (#[trigger] lines@[k]@[x]) == glyph(cells@[k][x]),
        decreases height - y,
    {
        let mut line: Vec<char> = Vec::new();
        let mut x: usize = 0;
        while x < width
            invariant
                x <= width,
                y < height,
                cells.wf(),
                height <= cells.spec_rows(),
                width <= cells.spec_width(),
                line@.len() == x,
                forall|k: int| 0 <= k < x ==> (#[trigger] line@[k]) == glyph(cells@[y as int][k]),
            decreases width - x,
        {
            let on = cells.get_cell(y, x);
            line.push(if on {
                'o'
            } else {
                ' '
            });
            x += 1;
        }
        lines.push(line);
        y += 1;
    }
    lines
}

} // verus!
