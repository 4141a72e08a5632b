//! The viewport: the rectangle of the document shown on screen, scrolled
//! just enough to keep the caret visible.

use vstd::prelude::*;

verus! {

/// One axis of the scrolling policy: a position above the window pulls the
/// window up to it, one below pushes the window down just past it, and one
/// inside leaves the window alone.
pub open spec fn clamp_axis(top: int, pos: int, size: int) -> int {
    if pos < top {
        pos
    } else if pos >= top + size {
        pos - size + 1
    } else {
        top
    }
}

/// A window of `rows` by `cols` screen cells over the document, its top-left
/// cell at document line `top_line`, column `left_col`.
pub struct Viewport {
    pub top_line: usize,
    pub left_col: usize,
    pub rows: usize,
    pub cols: usize,
}

impl Viewport {
    /// The window is never empty.
    pub open spec fn inv(&self) -> bool {
        self.rows >= 1 && self.cols >= 1
    }

    /// Document position (line, col) lies on screen: its line within
    /// [top_line, top_line + rows), its column likewise.
    pub open spec fn shows(&self, line: int, col: int) -> bool {
        &&& self.top_line <= line < self.top_line + self.rows
        &&& self.left_col <= col < self.left_col + self.cols
    }

    /// A window at the document's start.
    pub fn new(rows: usize, cols: usize) -> (r: Viewport)
        requires
            rows >= 1,
            cols >= 1,
        ensures
            r.inv(),
            r == (Viewport { top_line: 0, left_col: 0, rows, cols }),
    {
        Viewport { top_line: 0, left_col: 0, rows, cols }
    }

    /// Scroll just enough that (line, col) is on screen: each axis moves by
    /// the clamp policy, and the position is shown afterwards.
    pub fn scroll_to_show(&mut self, line: usize, col: usize)
        requires
            old(self).inv(),
        ensures
            final(self).inv(),
            final(self).rows == old(self).rows,
            final(self).cols == old(self).cols,
            final(self).top_line == clamp_axis(
                old(self).top_line as int,
                line as int,
                old(self).rows as int,
            ),
            final(self).left_col == clamp_axis(
                old(self).left_col as int,
                col as int,
                old(self).cols as int,
            ),
            final(self).shows(line as int, col as int),
    {
        if line < self.top_line {
            self.top_line = line;
        } else if line - self.top_line >= self.rows {
            self.top_line = line - self.rows + 1;
        }
        if col < self.left_col {
            self.left_col = col;
        } else if col - self.left_col >= self.cols {
            self.left_col = col - self.cols + 1;
        }
    }

    /// Change the screen size. The reading position is kept, never reset;
    /// the caller scrolls afterwards to bring the caret back on screen.
    pub fn resize(&mut self, rows: usize, cols: usize)
        requires
            rows >= 1,
            cols >= 1,
        ensures
            final(self).inv(),
            final(self).rows == rows,
            final(self).cols == cols,
            final(self).top_line == old(self).top_line,
            final(self).left_col == old(self).left_col,
    {
        self.rows = rows;
        self.cols = cols;
    }
}

} // verus!
