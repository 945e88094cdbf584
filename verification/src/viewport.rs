//! The live view of the tape, which follows the cursor.
use vstd::prelude::*;

use crate::tape::{window_spec, Tape, TapeChunkWidget};

verus! {

/// Which part of the tape the live view shows: the index of its first cell,
/// and whether values are shown as ASCII.
#[derive(Clone, Copy, Debug, Default, PartialEq, Eq, Structural)]
pub struct TapeViewportState {
    pub offset: usize,
    pub ascii_values: bool,
}

impl TapeViewportState {
    /// A view of the start of the tape.
    pub fn new(ascii_values: bool) -> (s: Self)
        ensures
            s.offset == 0,
            s.ascii_values == ascii_values,
    {
        TapeViewportState { offset: 0, ascii_values }
    }

    /// A view starting at cell `offset`, showing decimal values.
    pub fn _new(offset: usize) -> (s: Self)
        ensures
            s.offset == offset,
            !s.ascii_values,
    {
        TapeViewportState { offset, ascii_values: false }
    }
}

/// How many cells fit in `width` columns: four columns per cell plus one for
/// the closing border.
pub open spec fn viewport_cells(width: int) -> int {
    (width - 1) / 4
}

/// How many cells to keep between the cursor and either edge of a view of
/// `vp_width` cells.
pub open spec fn cursor_margin(vp_width: int) -> int {
    if vp_width <= 5 {
        0
    } else if vp_width <= 10 {
        1
    } else if vp_width <= 15 {
        2
    } else {
        3
    }
}

/// The first cell shown after the view follows the cursor: it shifts left
/// when the cursor comes within the margin of the left edge, shifts left to
/// close a gap after the end of the tape, and shifts right (no further than
/// the end of the tape) when the cursor comes within the margin of the
/// right edge.
pub open spec fn scrolled_offset(offset: int, width: int, cursor: int, tape_len: int) -> int {
    let vp_width = viewport_cells(width);
    let vp_begin = offset;
    let vp_end = vp_begin + vp_width;
    let vp_cursor = if cursor > vp_begin { cursor - vp_begin } else { 0 };
    let margin = cursor_margin(vp_width);
    let box_begin = margin;
    let box_end = if vp_width - margin > box_begin + 1 { vp_width - margin } else { box_begin + 1 };
    if vp_begin > 0 && cursor < vp_begin + box_begin {
        vp_begin - if vp_begin < vp_begin + box_begin - cursor { vp_begin } else { vp_begin + box_begin - cursor }
    } else if vp_begin > 0 && vp_end > tape_len {
        if vp_begin > vp_end - tape_len { vp_begin - (vp_end - tape_len) } else { 0 }
    } else if vp_cursor >= box_end && vp_end < tape_len {
        vp_begin + if vp_cursor - box_end + 1 < tape_len - vp_end { vp_cursor - box_end + 1 } else { tape_len - vp_end }
    } else {
        vp_begin
    }
}

/// The number of cells that fit in `width` columns.
pub fn viewport_width(width: u16) -> (n: usize)
    requires
        width >= 1,
    ensures
        n == viewport_cells(width as int),
{
    ((width - 1) / 4) as usize
}

/// Moves the view so that it follows a cursor at `cursor` on a tape of
/// `tape_len` cells, in `width` columns.
pub fn scroll(state: &mut TapeViewportState, width: u16, cursor: usize, tape_len: usize)
    requires
        width >= 1,
        old(state).offset + viewport_cells(width as int) <= usize::MAX,
    ensures
        final(state).offset == scrolled_offset(old(state).offset as int, width as int, cursor as int, tape_len as int),
        final(state).ascii_values == old(state).ascii_values,
{
    let vp_width = viewport_width(width);
    let vp_begin = state.offset;
    let vp_end = vp_begin + vp_width;
    let vp_cursor = if cursor > vp_begin { cursor - vp_begin } else { 0 };
    let margin: usize = if vp_width <= 5 {
        0
    } else if vp_width <= 10 {
        1
    } else if vp_width <= 15 {
        2
    } else {
        3
    };
    let box_begin = margin;
    let shrunk = if vp_width > margin { vp_width - margin } else { 0 };
    let box_end = if shrunk > box_begin + 1 { shrunk } else { box_begin + 1 };
    if vp_begin > 0 && cursor < vp_begin + box_begin {
        let back = vp_begin + box_begin - cursor;
        state.offset = vp_begin - if vp_begin < back { vp_begin } else { back };
    } else if vp_begin > 0 && vp_end > tape_len {
        let gap = vp_end - tape_len;
        state.offset = if vp_begin > gap { vp_begin - gap } else { 0 };
    } else if vp_cursor >= box_end && vp_end < tape_len {
        let ahead = vp_cursor - box_end + 1;
        let room = tape_len - vp_end;
        state.offset = vp_begin + if ahead < room { ahead } else { room };
    }
}

/// The live view of a tape.
pub struct TapeViewport<'tape> {
    tape: &'tape Tape,
}

impl<'tape> TapeViewport<'tape> {
    /// A view of `tape`.
    pub fn new(tape: &'tape Tape) -> (v: Self)
        ensures
            v.spec_tape() == tape,
    {
        TapeViewport { tape }
    }

    pub closed spec fn spec_tape(&self) -> &'tape Tape {
        self.tape
    }

    /// Follows the cursor (see `scroll`) and returns the row of cells to
    /// draw in `width` columns.
    pub fn layout(&self, width: u16, state: &mut TapeViewportState) -> (w: TapeChunkWidget)
        requires
            width >= 1,
            old(state).offset + viewport_cells(width as int) <= usize::MAX,
            scrolled_offset(old(state).offset as int, width as int, self.spec_tape()@.1, self.spec_tape()@.0.len() as int)
                + viewport_cells(width as int) >= 1,
        ensures
            final(state).offset == scrolled_offset(old(state).offset as int, width as int, self.spec_tape()@.1, self.spec_tape()@.0.len() as int),
            final(state).ascii_values == old(state).ascii_values,
            w.0@ == window_spec(self.spec_tape()@, final(state).offset as int, viewport_cells(width as int), final(state).ascii_values),
    {
        let cursor = self.tape.cursor();
        let len = self.tape.len();
        scroll(state, width, cursor, len);
        let vp_width = viewport_width(width);
        assert(state.offset <= usize::MAX - vp_width) by {
            assert(state.offset <= old(state).offset || state.offset <= len);
        }
        self.tape.window(state.offset, vp_width, state.ascii_values)
    }
}

/// After the view follows the cursor, the cursor's cell is in view, as long
/// as at least one cell fits.
pub proof fn law_scroll_keeps_cursor_in_view(offset: int, width: int, cursor: int, tape_len: int)
    requires
        0 <= offset,
        viewport_cells(width) >= 1,
        0 <= cursor < tape_len,
    ensures
        0 <= scrolled_offset(offset, width, cursor, tape_len) <= cursor,
        cursor < scrolled_offset(offset, width, cursor, tape_len) + viewport_cells(width),
{
}

} // verus!
