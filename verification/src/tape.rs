//! The Brainfuck tape and how it is drawn.
use vstd::prelude::*;

use vstd::string::StringExecFns;

use crate::cell::{highlight_off, highlight_on, Cell};
use crate::text::push_char;
use crate::widgets::{cell_text, edge_text, CellWidget, Edge};

verus! {

/// The Brainfuck memory: a row of cells that grows to the right as the
/// cursor moves past its end, and a cursor that never goes left of the
/// first cell.
#[derive(Debug)]
pub struct Tape {
    cells: Vec<Cell>,
    cursor: usize,
}

/// A tape model is well formed: at least one cell, and the cursor on one.
pub open spec fn tape_wf(t: (Seq<u8>, int)) -> bool {
    t.0.len() >= 1 && 0 <= t.1 < t.0.len()
}

impl View for Tape {
    /// The cell values and the cursor position.
    type V = (Seq<u8>, int);

    closed spec fn view(&self) -> (Seq<u8>, int) {
        (self.cells@.map_values(|c: Cell| c@), self.cursor as int)
    }
}

impl Tape {
    #[verifier::type_invariant]
    spec fn inv(&self) -> bool {
        self.cells.len() >= 1 && self.cursor < self.cells.len()
    }

    /// A tape of one zero cell with the cursor on it.
    pub fn new() -> (t: Self)
        ensures
            t@ == (seq![0u8], 0int),
    {
        let mut cells: Vec<Cell> = Vec::new();
        cells.push(Cell::new());
        let t = Tape { cells, cursor: 0 };
        assert(t@.0 =~= seq![0u8]);
        t
    }

    /// Every tape has at least one cell and its cursor on a cell.
    pub fn is_wf(&self) -> (b: bool)
        ensures
            b,
            tape_wf(self@),
    {
        proof {
            use_type_invariant(self);
        }
        true
    }

    /// The number of cells.
    pub fn len(&self) -> (n: usize)
        ensures
            n == self@.0.len(),
            n >= 1,
    {
        proof {
            use_type_invariant(self);
        }
        self.cells.len()
    }

    /// The position of the cursor.
    pub fn cursor(&self) -> (c: usize)
        ensures
            c == self@.1,
            tape_wf(self@),
    {
        proof {
            use_type_invariant(self);
        }
        self.cursor
    }

    /// The cell under the cursor.
    pub fn current(&self) -> (c: Cell)
        ensures
            c@ == self@.0[self@.1],
            tape_wf(self@),
    {
        proof {
            use_type_invariant(self);
        }
        self.cells[self.cursor]
    }

    /// The value of the cell at `index`.
    pub fn value_at(&self, index: usize) -> (v: u8)
        requires
            index < self@.0.len(),
        ensures
            v == self@.0[index as int],
    {
        self.cells[index].value()
    }
}

impl Tape {
    /// Moves the cursor one cell left; at the first cell it stays.
    pub fn left(&mut self)
        ensures
            final(self)@.0 == old(self)@.0,
            final(self)@.1 == if old(self)@.1 == 0 { 0 } else { old(self)@.1 - 1 },
            tape_wf(final(self)@),
    {
        proof {
            use_type_invariant(&*self);
        }
        if self.cursor > 0 {
            self.cursor = self.cursor - 1;
        }
    }

    /// Moves the cursor one cell right, adding a zero cell when it moves
    /// past the end of the tape.
    pub fn right(&mut self)
        ensures
            final(self)@.1 == old(self)@.1 + 1,
            final(self)@.0 == if old(self)@.1 + 1 == old(self)@.0.len() {
                old(self)@.0.push(0u8)
            } else {
                old(self)@.0
            },
            tape_wf(final(self)@),
    {
        proof {
            use_type_invariant(&*self);
        }
        let next = self.cursor + 1;
        if next == self.cells.len() {
            let mut old_tape = Tape::new();
            std::mem::swap(self, &mut old_tape);
            let mut cells = old_tape.cells;
            cells.push(Cell::new());
            *self = Tape { cells, cursor: next };
            assert(self@.0 =~= old(self)@.0.push(0u8));
        } else {
            self.cursor = next;
        }
    }

    /// Puts `c` under the cursor.
    fn replace_current(&mut self, c: Cell)
        ensures
            final(self)@ == (old(self)@.0.update(old(self)@.1, c@), old(self)@.1),
    {
        proof {
            use_type_invariant(&*self);
        }
        let mut taken = Tape::new();
        std::mem::swap(self, &mut taken);
        let cursor = taken.cursor;
        let mut cells = taken.cells;
        cells.set(cursor, c);
        *self = Tape { cells, cursor };
        assert(self@.0 =~= old(self)@.0.update(old(self)@.1, c@));
    }

    /// Adds one to the cell under the cursor, wrapping 255 to 0.
    pub fn inc_current(&mut self)
        ensures
            final(self)@ == (old(self)@.0.update(old(self)@.1, ((old(self)@.0[old(self)@.1] + 1) % 256) as u8), old(self)@.1),
            tape_wf(final(self)@),
    {
        proof {
            use_type_invariant(&*self);
        }
        let mut c = self.cells[self.cursor];
        c.inc();
        self.replace_current(c);
        assert(self@.0 =~= old(self)@.0.update(old(self)@.1, ((old(self)@.0[old(self)@.1] + 1) % 256) as u8));
    }

    /// Subtracts one from the cell under the cursor, wrapping 0 to 255.
    pub fn dec_current(&mut self)
        ensures
            final(self)@ == (old(self)@.0.update(old(self)@.1, ((old(self)@.0[old(self)@.1] + 255) % 256) as u8), old(self)@.1),
            tape_wf(final(self)@),
    {
        proof {
            use_type_invariant(&*self);
        }
        let mut c = self.cells[self.cursor];
        c.dec();
        self.replace_current(c);
        assert(self@.0 =~= old(self)@.0.update(old(self)@.1, ((old(self)@.0[old(self)@.1] + 255) % 256) as u8));
    }

    /// Stores `value` in the cell under the cursor.
    pub fn set_current(&mut self, value: u8)
        ensures
            final(self)@ == (old(self)@.0.update(old(self)@.1, value), old(self)@.1),
            tape_wf(final(self)@),
    {
        proof {
            use_type_invariant(&*self);
        }
        let mut c = self.cells[self.cursor];
        c.set(value);
        self.replace_current(c);
        assert(self@.0 =~= old(self)@.0.update(old(self)@.1, value));
    }
}

/// How the cell at index `i` is drawn when the chunk it belongs to ends at
/// `end_chunk`.
pub open spec fn widget_for(t: (Seq<u8>, int), i: int, end_chunk: int, ascii: bool) -> CellWidget {
    CellWidget {
        value: t.0[i],
        left_cap: i == 0,
        right_border_cap: if i == end_chunk { Some(i == t.0.len() - 1) } else { None },
        is_highlighted: i == t.1,
        ascii,
    }
}

pub open spec fn min(a: int, b: int) -> int {
    if a < b { a } else { b }
}

/// The cells `offset .. offset + size` that exist on the tape, drawn as one
/// chunk: the last of them carries the right border.
pub open spec fn window_spec(t: (Seq<u8>, int), offset: int, size: int, ascii: bool) -> Seq<CellWidget> {
    let end = min(offset + size, t.0.len() as int);
    let count = if offset < end { end - offset } else { 0 };
    Seq::new(count as nat, |j: int| widget_for(t, offset + j, min(offset + size - 1, t.0.len() - 1), ascii))
}

/// The number of chunks of `size` cells that cover `len` cells.
pub open spec fn chunk_count(len: int, size: int) -> int {
    (len + size - 1) / size
}

/// Row `k` of rows of `size` cells starts before the end of `len` cells
/// exactly when `k` is less than the number of rows.
pub proof fn lemma_chunk_index(k: int, size: int, len: int)
    requires
        k >= 0,
        size >= 1,
        len >= 0,
    ensures
        (k * size < len) <==> (k < chunk_count(len, size)),
        k <= chunk_count(len, size) ==> k * size <= len + size - 1,
{
    let n = chunk_count(len, size);
    assert(n * size <= len + size - 1 && len + size - 1 < (n + 1) * size) by (nonlinear_arith)
        requires
            n == (len + size - 1) / size,
            size >= 1,
            len >= 0,
    ;
    assert((n + 1) * size == n * size + size) by (nonlinear_arith);
    assert((n - 1) * size == n * size - size) by (nonlinear_arith);
    if k < n {
        assert(k * size <= (n - 1) * size) by (nonlinear_arith)
            requires
                k <= n - 1,
                size >= 1,
        ;
    } else {
        assert(k * size >= n * size) by (nonlinear_arith)
            requires
                k >= n,
                size >= 1,
        ;
    }
    if k <= n {
        assert(k * size <= n * size) by (nonlinear_arith)
            requires
                k <= n,
                size >= 1,
        ;
    }
}

/// One row of drawn cells.
#[derive(Debug)]
pub struct TapeChunkWidget(pub Vec<CellWidget>);

/// The tape cut into rows of drawn cells.
#[derive(Debug)]
pub struct ChunkedTapeWidget(pub Vec<TapeChunkWidget>);

impl ChunkedTapeWidget {
    /// The number of rows.
    pub fn len(&self) -> (n: usize)
        ensures
            n == self.0@.len(),
    {
        self.0.len()
    }
}

impl Tape {
    /// The cells `offset .. offset + size` that exist, drawn as one row: the
    /// first cell of the tape gets the left cap, the last cell of the row
    /// the right border (capped if it is also the last cell of the tape),
    /// and the cell under the cursor is highlighted.
    pub fn window(&self, offset: usize, size: usize, ascii: bool) -> (w: TapeChunkWidget)
        requires
            offset + size >= 1,
            offset + size <= usize::MAX,
        ensures
            w.0@ == window_spec(self@, offset as int, size as int, ascii),
    {
        proof {
            use_type_invariant(self);
        }
        let len = self.cells.len();
        let end_tape = len - 1;
        let last = offset + size - 1;
        let end_chunk = if last < end_tape { last } else { end_tape };
        let end = if offset + size < len { offset + size } else { len };
        let mut cells: Vec<CellWidget> = Vec::new();
        let mut i = offset;
        let ghost expected = window_spec(self@, offset as int, size as int, ascii);
        while i < end
            invariant
                offset <= i <= end || (i == offset && end <= offset),
                end <= len,
                len == self.cells@.len(),
                end_tape == len - 1,
                end_chunk == min(offset + size - 1, len - 1),
                end == min(offset + size, len as int),
                expected == window_spec(self@, offset as int, size as int, ascii),
                cells@.len() == i - offset,
                forall|j: int| 0 <= j < cells@.len() ==> cells@[j] == expected[j],
            decreases end - i,
        {
            let c = CellWidget {
                value: self.cells[i].value(),
                left_cap: i == 0,
                right_border_cap: if i == end_chunk { Some(i == end_tape) } else { None },
                is_highlighted: i == self.cursor,
                ascii,
            };
            cells.push(c);
            i += 1;
        }
        assert(cells@ =~= expected);
        TapeChunkWidget(cells)
    }

    /// The whole tape cut into rows as wide as a terminal of `width`
    /// columns allows: each cell takes four columns, plus one for the
    /// closing border.
    pub fn chunks(&self, width: i32, ascii: bool) -> (c: ChunkedTapeWidget)
        requires
            width >= 5,
        ensures
            c.0@.len() == chunk_count(self@.0.len() as int, (width - 1) / 4),
            forall|k: int| 0 <= k < c.0@.len() ==> #[trigger] c.0@[k].0@ == window_spec(
                self@,
                k * ((width - 1) / 4),
                (width - 1) / 4,
                ascii,
            ),
    {
        proof {
            use_type_invariant(self);
        }
        let chunk_size = ((width - 1) / 4) as usize;
        let len = self.cells.len();
        let mut rows: Vec<TapeChunkWidget> = Vec::new();
        let mut start: usize = 0;
        let ghost cs = chunk_size as int;
        proof {
            lemma_chunk_index(0, cs, len as int);
            assert(0 * cs == 0);
        }
        while start < len
            invariant
                cs == (width - 1) / 4,
                chunk_size == cs,
                1 <= cs <= 536870911,
                len == self@.0.len(),
                start == min(rows@.len() * cs, len as int),
                rows@.len() <= chunk_count(len as int, cs),
                start < len <==> rows@.len() < chunk_count(len as int, cs),
                forall|k: int| 0 <= k < rows@.len() ==> #[trigger] rows@[k].0@ == window_spec(self@, k * cs, cs, ascii),
            decreases len - start,
        {
            let ghost k = rows@.len() as int;
            proof {
                lemma_chunk_index(k, cs, len as int);
            }
            let take = if len - start < chunk_size { len - start } else { chunk_size };
            let row = self.window(start, take, ascii);
            assert(row.0@ =~= window_spec(self@, k * cs, cs, ascii));
            rows.push(row);
            proof {
                lemma_chunk_index(k + 1, cs, len as int);
                assert((k + 1) * cs == k * cs + cs) by (nonlinear_arith);
            }
            start = start + take;
        }
        ChunkedTapeWidget(rows)
    }
}

impl Clone for Tape {
    fn clone(&self) -> (t: Self)
        ensures
            t@ == self@,
    {
        proof {
            use_type_invariant(self);
        }
        let cells = self.cells.clone();
        assert(cells@ =~= self.cells@);
        Tape { cells, cursor: self.cursor }
    }
}

impl Default for Tape {
    /// A tape of one zero cell with the cursor on it.
    fn default() -> (t: Self)
        ensures
            t@ == (seq![0u8], 0int),
    {
        Tape::new()
    }
}

/// The middle line of a drawn cell: the left border, the value (black on
/// cyan under the cursor), and the right border where the cell ends a row.
pub open spec fn cell_middle(w: CellWidget) -> Seq<char> {
    seq!['│'] + (if w.is_highlighted {
        highlight_on() + cell_text(w.value, w.ascii) + highlight_off()
    } else {
        cell_text(w.value, w.ascii)
    }) + (if w.right_border_cap is Some { seq!['│'] } else { Seq::empty() })
}

/// The top line of a row of cells.
pub open spec fn row_top(cells: Seq<CellWidget>) -> Seq<char>
    decreases cells.len(),
{
    if cells.len() == 0 {
        Seq::empty()
    } else {
        row_top(cells.drop_last()) + edge_text(Edge::Top, cells.last().left_cap, cells.last().right_border_cap)
    }
}

/// The middle line of a row of cells.
pub open spec fn row_middle(cells: Seq<CellWidget>) -> Seq<char>
    decreases cells.len(),
{
    if cells.len() == 0 {
        Seq::empty()
    } else {
        row_middle(cells.drop_last()) + cell_middle(cells.last())
    }
}

/// The bottom line of a row of cells.
pub open spec fn row_bottom(cells: Seq<CellWidget>) -> Seq<char>
    decreases cells.len(),
{
    if cells.len() == 0 {
        Seq::empty()
    } else {
        row_bottom(cells.drop_last()) + edge_text(Edge::Bottom, cells.last().left_cap, cells.last().right_border_cap)
    }
}

/// Rows of cells as text: three lines per row, each after `prefix` and
/// ended by `\n`.
pub open spec fn rows_text(rows: Seq<Seq<CellWidget>>, prefix: Seq<char>) -> Seq<char>
    decreases rows.len(),
{
    if rows.len() == 0 {
        Seq::empty()
    } else {
        let r = rows.last();
        rows_text(rows.drop_last(), prefix) + prefix + row_top(r) + seq!['\n'] + prefix + row_middle(r) + seq!['\n'] + prefix
            + row_bottom(r) + seq!['\n']
    }
}

impl TapeChunkWidget {
    /// The row as three lines of text: top, middle and bottom.
    pub fn lines(&self) -> (r: (String, String, String))
        ensures
            r.0@ == row_top(self.0@),
            r.1@ == row_middle(self.0@),
            r.2@ == row_bottom(self.0@),
    {
        let mut top = String::new();
        let mut middle = String::new();
        let mut bottom = String::new();
        let mut i: usize = 0;
        while i < self.0.len()
            invariant
                i <= self.0@.len(),
                top@ == row_top(self.0@.subrange(0, i as int)),
                middle@ == row_middle(self.0@.subrange(0, i as int)),
                bottom@ == row_bottom(self.0@.subrange(0, i as int)),
            decreases self.0@.len() - i,
        {
            let w = self.0[i];
            let t = w.display_top();
            top.append(t.as_str());
            let b = w.display_bottom();
            bottom.append(b.as_str());
            let v = w.display_value();
            let ghost before = middle@;
            push_char(&mut middle, '│');
            if w.is_highlighted {
                middle.append("\x1b[46m\x1b[30m");
            }
            middle.append(v.as_str());
            if w.is_highlighted {
                middle.append("\x1b[0m");
            }
            if w.right_border_cap.is_some() {
                push_char(&mut middle, '│');
            }
            proof {
                reveal_strlit("\x1b[46m\x1b[30m");
                reveal_strlit("\x1b[0m");
                assert(middle@ =~= before + cell_middle(w));
                let pre = self.0@.subrange(0, i as int + 1);
                assert(pre.drop_last() =~= self.0@.subrange(0, i as int));
                assert(pre.last() == w);
            }
            i += 1;
        }
        assert(self.0@.subrange(0, self.0@.len() as int) =~= self.0@);
        (top, middle, bottom)
    }
}

/// The cells of each row.
pub open spec fn rows_of(rows: Seq<TapeChunkWidget>) -> Seq<Seq<CellWidget>> {
    rows.map_values(|r: TapeChunkWidget| r.0@)
}

impl ChunkedTapeWidget {
    /// The rows as text, three lines each, every line after `prefix`.
    pub fn display(&self, prefix: &str) -> (s: String)
        ensures
            s@ == rows_text(rows_of(self.0@), prefix@),
    {
        let mut s = String::new();
        let mut k: usize = 0;
        while k < self.0.len()
            invariant
                k <= self.0@.len(),
                s@ == rows_text(rows_of(self.0@).subrange(0, k as int), prefix@),
            decreases self.0@.len() - k,
        {
            let (top, middle, bottom) = self.0[k].lines();
            s.append(prefix);
            s.append(top.as_str());
            push_char(&mut s, '\n');
            s.append(prefix);
            s.append(middle.as_str());
            push_char(&mut s, '\n');
            s.append(prefix);
            s.append(bottom.as_str());
            push_char(&mut s, '\n');
            proof {
                let pre = rows_of(self.0@).subrange(0, k as int + 1);
                assert(pre.drop_last() =~= rows_of(self.0@).subrange(0, k as int));
                assert(pre.last() == self.0@[k as int].0@);
                assert(s@ =~= rows_text(pre, prefix@));
            }
            k += 1;
        }
        assert(rows_of(self.0@).subrange(0, self.0@.len() as int) =~= rows_of(self.0@));
        s
    }
}

/// Row `k` of a tape cut into rows of `size` cells holds the cells from
/// `k * size` on, in order, as many as remain but at most `size`; each is
/// drawn from its own value in the mode asked for, highlighted exactly
/// under the cursor, capped on the left exactly at the tape's first cell,
/// and only the row's last cell carries the right border, capped exactly at
/// the tape's end.
pub proof fn law_rows_hold_the_cells_in_order(t: (Seq<u8>, int), size: int, ascii: bool, k: int, j: int)
    requires
        tape_wf(t),
        size >= 1,
        0 <= k < chunk_count(t.0.len() as int, size),
    ensures
        ({
            let row = window_spec(t, k * size, size, ascii);
            let i = k * size + j;
            &&& row.len() == min(size, t.0.len() - k * size)
            &&& row.len() >= 1
            &&& 0 <= j < row.len() ==> {
                &&& row[j].value == t.0[i]
                &&& row[j].ascii == ascii
                &&& row[j].is_highlighted == (i == t.1)
                &&& row[j].left_cap == (i == 0)
                &&& (row[j].right_border_cap is Some <==> j == row.len() - 1)
                &&& (j == row.len() - 1 ==> row[j].right_border_cap == Some(i == t.0.len() - 1))
            }
        }),
{
    lemma_chunk_index(k, size, t.0.len() as int);
    assert(k * size >= 0) by (nonlinear_arith)
        requires
            k >= 0,
            size >= 1,
    ;
}

} // verus!

