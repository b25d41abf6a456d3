//! One diagram as one terminal frame: pixels sized to the grid, and how they are shown.

use vstd::prelude::*;

use crate::term::kitty;
use crate::text;

verus! {

pub struct Frame {
    /// Straight RGBA pixels.
    pub rgba: Vec<u8>,
    /// Size in device pixels: whole cells.
    pub pixels: (u32, u32),
    pub cols: u16,
    pub rows: u16,
    /// How long rendering took, in milliseconds.
    pub elapsed: u64,
}

impl Frame {
    /// Whether the frame has all its pixels and covers cells that can be addressed.
    pub open spec fn well_formed(&self) -> bool {
        &&& self.rgba@.len() == self.pixels.0 * self.pixels.1 * 4
        &&& self.cols <= kitty::MAX_CELLS
        &&& self.rows <= kitty::MAX_CELLS
    }

    /// What transmitting the frame as image `id` writes, or why it does not.
    pub open spec fn transmitted(&self, id: u32) -> Result<Seq<u8>, kitty::Untransmitted> {
        kitty::transmitted(
            id,
            kitty::zlib_fast(self.rgba@),
            self.pixels,
            (self.cols, self.rows),
        )
    }
}

/// The first `rows` lines of an image's placeholder grid.
pub open spec fn grid_lines(id: u32, cols: int, rows: int) -> Seq<char>
    decreases rows,
{
    if rows <= 0 {
        Seq::empty()
    } else {
        (grid_lines(id, cols, rows - 1) + kitty::placeholders(id, rows - 1, cols)).push('\n')
    }
}

/// An image's placeholder grid, one line per row.
pub open spec fn cell_bytes(id: u32, cols: u16, rows: u16) -> Seq<u8> {
    vstd::utf8::encode_utf8(grid_lines(id, cols as int, rows as int))
}

/// What drawing a frame inline writes, given what transmitting it writes.
pub open spec fn inline(
    transmitted: Result<Seq<u8>, kitty::Untransmitted>,
    id: u32,
    cols: u16,
    rows: u16,
) -> Result<Seq<u8>, kitty::Untransmitted> {
    match transmitted {
        Ok(bytes) => Ok(bytes + cell_bytes(id, cols, rows)),
        Err(why) => Err(why),
    }
}

/// Appends an image as image `id` followed by its placeholder grid, one line per row.
pub fn write_inline(out: &mut Vec<u8>, frame: &Frame, id: u32) -> (r: Result<
    (),
    kitty::Untransmitted,
>)
    requires
        frame.well_formed(),
    ensures
        match inline(frame.transmitted(id), id, frame.cols, frame.rows) {
            Ok(bytes) => r is Ok && final(out)@ == old(out)@ + bytes,
            Err(why) => r == Err::<(), kitty::Untransmitted>(why) && final(out)@ == old(out)@,
        },
{
    let ghost was = out@;
    match kitty::transmit_virtual(out, id, &frame.rgba, frame.pixels, (frame.cols, frame.rows)) {
        Ok(()) => {
            write_cells(out, id, frame.cols, frame.rows);
            assert(out@ =~= was + inline(
                frame.transmitted(id),
                id,
                frame.cols,
                frame.rows,
            ).unwrap());
            Ok(())
        },
        Err(why) => Err(why),
    }
}

/// Appends the placeholder grid for an image that has already been transmitted.
pub fn write_cells(out: &mut Vec<u8>, id: u32, cols: u16, rows: u16)
    requires
        cols <= kitty::MAX_CELLS,
        rows <= kitty::MAX_CELLS,
    ensures
        final(out)@ == old(out)@ + cell_bytes(id, cols, rows),
{
    let mut lines = String::new();
    let mut row: u16 = 0;
    while row < rows
        invariant
            row <= rows <= kitty::MAX_CELLS,
            cols <= kitty::MAX_CELLS,
            lines@ == grid_lines(id, cols as int, row as int),
        decreases rows - row,
    {
        kitty::placeholder_row(&mut lines, id, row, cols);
        lines.push('\n');
        row += 1;
    }
    text::push_text(out, lines.as_str());
}

} // verus!
