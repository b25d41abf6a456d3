//! How big a diagram is drawn: the terminal grid, how diagrams fit it, and their footprint.

use vstd::prelude::*;

use crate::term::kitty::MAX_CELLS;

verus! {

/// Terminal grid geometry, with cell sizes in device pixels.
#[derive(Clone, Copy, Debug, PartialEq, Eq, Structural)]
pub struct Grid {
    pub cols: u16,
    pub rows: u16,
    pub cell_w: u32,
    pub cell_h: u32,
}

#[derive(Clone, Copy, Debug, PartialEq, Eq, Structural)]
pub enum Fit {
    /// Shrink to the terminal width; the height may scroll.
    Width,
    /// Shrink to fit both the width and the height.
    Contain,
    /// Keep the text-matched size.
    Natural,
}

/// The cells a diagram covers.
#[derive(Clone, Copy, Debug, PartialEq, Eq, Structural)]
pub struct Plan {
    pub cols: u16,
    pub rows: u16,
}

/// `n`, but at least 1 and at most [`MAX_CELLS`].
pub open spec fn clamped(n: u16) -> u16 {
    if n < 1 {
        1
    } else if n > MAX_CELLS {
        MAX_CELLS
    } else {
        n
    }
}

/// The most cells a diagram may cover.
pub open spec fn most_cells(grid: Grid, fit: Fit) -> Plan {
    Plan {
        cols: match fit {
            Fit::Natural => MAX_CELLS,
            Fit::Width | Fit::Contain => clamped(grid.cols),
        },
        rows: match fit {
            Fit::Contain => clamped(grid.rows),
            Fit::Width | Fit::Natural => MAX_CELLS,
        },
    }
}

fn clamp_cells(n: u16) -> (r: u16)
    ensures
        r == clamped(n),
{
    if n < 1 {
        1
    } else if n > MAX_CELLS {
        MAX_CELLS
    } else {
        n
    }
}

/// The most cells a diagram may cover: the grid where it has to fit, and otherwise what
/// placeholders can address.
pub fn limits(grid: &Grid, fit: Fit) -> (most: Plan)
    ensures
        most == most_cells(*grid, fit),
        1 <= most.cols <= MAX_CELLS,
        1 <= most.rows <= MAX_CELLS,
{
    Plan {
        cols: match fit {
            Fit::Natural => MAX_CELLS,
            Fit::Width | Fit::Contain => clamp_cells(grid.cols),
        },
        rows: match fit {
            Fit::Contain => clamp_cells(grid.rows),
            Fit::Width | Fit::Natural => MAX_CELLS,
        },
    }
}

impl Plan {
    /// Frame size in device pixels. Frames cover whole cells so the terminal never resamples.
    pub fn pixels(&self, grid: &Grid) -> (size: (u32, u32))
        requires
            self.cols * grid.cell_w <= u32::MAX,
            self.rows * grid.cell_h <= u32::MAX,
        ensures
            size.0 == self.cols * grid.cell_w,
            size.1 == self.rows * grid.cell_h,
    {
        (self.cols as u32 * grid.cell_w, self.rows as u32 * grid.cell_h)
    }

    /// The cells of a diagram, no more than `most`.
    pub fn within(self, most: Plan) -> (plan: Plan)
        ensures
            plan.cols == if self.cols < most.cols {
                self.cols
            } else {
                most.cols
            },
            plan.rows == if self.rows < most.rows {
                self.rows
            } else {
                most.rows
            },
    {
        Plan {
            cols: if self.cols < most.cols {
                self.cols
            } else {
                most.cols
            },
            rows: if self.rows < most.rows {
                self.rows
            } else {
                most.rows
            },
        }
    }
}

} // verus!
