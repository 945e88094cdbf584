//! How tape cells, the busy spinner and box dividers are drawn as text.
use vstd::prelude::*;

use vstd::string::{StringExecFns, StringSliceAdditionalSpecFns};

use crate::text::{StrExt, center3, center3_chars, decimal, decimal_u8, push_char, push_chars, repeat, string_from_chars};

verus! {

/// The glyphs of one horizontal edge (top or bottom) of a tape cell.
pub struct TapeBorderHorizontal {
    left_capped: char,
    left_uncapped: char,
    middle: char,
    right_capped: char,
    right_uncapped: char,
}

/// The glyph at the left end of a cell's edge.
pub open spec fn left_glyph(edge: Edge, capped: bool) -> char {
    match edge {
        Edge::Top => if capped { '┌' } else { '┬' },
        Edge::Bottom => if capped { '└' } else { '┴' },
    }
}

/// The line glyph along a cell's edge.
pub open spec fn middle_glyph() -> char {
    '─'
}

/// The glyph at the right end of a cell's edge.
pub open spec fn right_glyph(edge: Edge, capped: bool) -> char {
    match edge {
        Edge::Top => if capped { '┐' } else { '┬' },
        Edge::Bottom => if capped { '┘' } else { '┴' },
    }
}

/// Which of the two horizontal edges of the tape.
#[derive(Clone, Copy, Debug, PartialEq, Eq, Structural)]
pub enum Edge {
    Top,
    Bottom,
}

impl TapeBorderHorizontal {
    pub closed spec fn spec_left(&self, capped: bool) -> char {
        if capped { self.left_capped } else { self.left_uncapped }
    }

    pub closed spec fn spec_middle(&self) -> char {
        self.middle
    }

    pub closed spec fn spec_right(&self, capped: bool) -> char {
        if capped { self.right_capped } else { self.right_uncapped }
    }

    /// The glyph at the left end of a cell: a corner where the tape begins,
    /// a junction elsewhere.
    pub fn left(&self, capped: bool) -> (c: char)
        ensures
            c == self.spec_left(capped),
    {
        if capped { self.left_capped } else { self.left_uncapped }
    }

    /// The line glyph along a cell.
    pub fn middle(&self) -> (c: char)
        ensures
            c == self.spec_middle(),
    {
        self.middle
    }

    /// The glyph at the right end of a cell: a corner where the tape ends,
    /// a junction elsewhere.
    pub fn right(&self, capped: bool) -> (c: char)
        ensures
            c == self.spec_right(capped),
    {
        if capped { self.right_capped } else { self.right_uncapped }
    }

    /// The glyphs of the top or the bottom edge of the tape, drawn with
    /// plain box-drawing lines.
    pub fn for_edge(edge: Edge) -> (b: TapeBorderHorizontal)
        ensures
            forall|c: bool| #[trigger] b.spec_left(c) == left_glyph(edge, c),
            b.spec_middle() == middle_glyph(),
            forall|c: bool| #[trigger] b.spec_right(c) == right_glyph(edge, c),
    {
        match edge {
            Edge::Top => TapeBorderHorizontal {
                left_capped: '┌',
                left_uncapped: '┬',
                middle: '─',
                right_capped: '┐',
                right_uncapped: '┬',
            },
            Edge::Bottom => TapeBorderHorizontal {
                left_capped: '└',
                left_uncapped: '┴',
                middle: '─',
                right_capped: '┘',
                right_uncapped: '┴',
            },
        }
    }
}

/// How one tape cell is drawn: its value, whether it begins the tape,
/// whether it ends a drawn chunk (and, if so, whether it also ends the tape),
/// whether the cursor is on it, and whether the value is shown as ASCII.
#[derive(Clone, Copy, Debug, Default, PartialEq, Eq, Structural)]
pub struct CellWidget {
    pub value: u8,
    pub left_cap: bool,
    pub right_border_cap: Option<bool>,
    pub is_highlighted: bool,
    pub ascii: bool,
}

/// The three-character text drawn inside a cell.
pub open spec fn cell_text(value: u8, ascii: bool) -> Seq<char> {
    if ascii {
        if value == 0 {
            seq!['\\', '0', ' ']
        } else if value == 9 {
            seq!['\\', 't', ' ']
        } else if value == 13 {
            seq!['\\', 'r', ' ']
        } else if value == 10 {
            seq!['\\', 'n', ' ']
        } else if value == 32 {
            seq!['\'', ' ', '\'']
        } else if 33 <= value <= 126 {
            center3(seq![value as char])
        } else {
            center3(decimal(value as nat))
        }
    } else {
        center3(decimal(value as nat))
    }
}

/// One horizontal edge of a cell: the left glyph, three line glyphs, and a
/// right glyph only where the cell ends a chunk.
pub open spec fn edge_text(edge: Edge, left_cap: bool, right_border_cap: Option<bool>) -> Seq<char> {
    let base = seq![left_glyph(edge, left_cap)] + repeat(seq![middle_glyph()], 3);
    match right_border_cap {
        Some(c) => base.push(right_glyph(edge, c)),
        None => base,
    }
}

impl CellWidget {
    /// The top or bottom edge of the cell.
    pub fn display_horizontal_edge(&self, edge: Edge) -> (s: String)
        ensures
            s@ == edge_text(edge, self.left_cap, self.right_border_cap),
    {
        let border = TapeBorderHorizontal::for_edge(edge);
        let mut s = String::new();
        push_char(&mut s, border.left(self.left_cap));
        let m = border.middle();
        push_char(&mut s, m);
        push_char(&mut s, m);
        push_char(&mut s, m);
        assert(repeat(seq![m], 3) =~= seq![m, m, m]) by {
            assert(repeat(seq![m], 0) =~= Seq::<char>::empty());
            assert(repeat(seq![m], 1) =~= seq![m]);
            assert(repeat(seq![m], 2) =~= seq![m, m]);
        }
        match self.right_border_cap {
            Some(c) => push_char(&mut s, border.right(c)),
            None => {},
        }
        assert(s@ =~= edge_text(edge, self.left_cap, self.right_border_cap));
        s
    }

    /// The top edge of the cell.
    pub fn display_top(&self) -> (s: String)
        ensures
            s@ == edge_text(Edge::Top, self.left_cap, self.right_border_cap),
    {
        self.display_horizontal_edge(Edge::Top)
    }

    /// The bottom edge of the cell.
    pub fn display_bottom(&self) -> (s: String)
        ensures
            s@ == edge_text(Edge::Bottom, self.left_cap, self.right_border_cap),
    {
        self.display_horizontal_edge(Edge::Bottom)
    }

    /// The value as drawn inside the cell: the decimal value centered in
    /// three columns, or in ASCII mode the character itself, an escape for
    /// NUL, tab, carriage return and newline, quotes around a space, and
    /// the decimal value for anything unprintable.
    pub fn display_value(&self) -> (s: String)
        ensures
            s@ == cell_text(self.value, self.ascii),
    {
        let v = self.value;
        let mut cs: Vec<char> = Vec::new();
        if self.ascii && v == 0 {
            cs.push('\\');
            cs.push('0');
            cs.push(' ');
        } else if self.ascii && v == 9 {
            cs.push('\\');
            cs.push('t');
            cs.push(' ');
        } else if self.ascii && v == 13 {
            cs.push('\\');
            cs.push('r');
            cs.push(' ');
        } else if self.ascii && v == 10 {
            cs.push('\\');
            cs.push('n');
            cs.push(' ');
        } else if self.ascii && v == 32 {
            cs.push('\'');
            cs.push(' ');
            cs.push('\'');
        } else if self.ascii && 33 <= v && v <= 126 {
            let mut one: Vec<char> = Vec::new();
            one.push(v as char);
            cs = center3_chars(one.as_slice());
        } else {
            let digits = decimal_u8(v);
            cs = center3_chars(digits.as_slice());
        }
        assert(cs@ =~= cell_text(v, self.ascii));
        string_from_chars(cs.as_slice())
    }
}

/// The frames of the busy spinner, in order.
pub open spec fn spinner_frame(i: int) -> char {
    if i == 0 {
        '│'
    } else if i == 1 {
        '╱'
    } else if i == 2 {
        '─'
    } else {
        '╲'
    }
}

/// A busy indicator that turns one frame per tick.
#[derive(Clone, Copy, Debug, Default)]
pub struct Spinner(pub usize);

impl Spinner {
    /// Turns to the next of the four frames, wrapping after the last.
    pub fn tick(&mut self)
        ensures
            final(self).0 == (old(self).0 + 1) % 4,
    {
        self.0 = (self.0 % 4 + 1) % 4;
    }

    /// The frame to draw.
    pub fn frame(&self) -> (c: char)
        requires
            self.0 < 4,
        ensures
            c == spinner_frame(self.0 as int),
    {
        if self.0 == 0 {
            '│'
        } else if self.0 == 1 {
            '╱'
        } else if self.0 == 2 {
            '─'
        } else {
            '╲'
        }
    }
}

/// The glyphs of a set of box-drawing lines.
pub struct LineSet {
    pub vertical: &'static str,
    pub horizontal: &'static str,
    pub top_right: &'static str,
    pub top_left: &'static str,
    pub bottom_right: &'static str,
    pub bottom_left: &'static str,
    pub vertical_left: &'static str,
    pub vertical_right: &'static str,
    pub horizontal_down: &'static str,
    pub horizontal_up: &'static str,
    pub cross: &'static str,
}

/// A divider `width` columns wide: `left`, then `label`, then as many
/// `line`s as leave room for `right` (none if the label fills the width;
/// the label's width is taken as its length in bytes), then `right`.
pub open spec fn divider(left: Seq<char>, label: Seq<char>, label_len: int, line: Seq<char>, right: Seq<char>, width: int) -> Seq<char> {
    left + label + repeat(line, if width - 2 - label_len > 0 { (width - 2 - label_len) as nat } else { 0 }) + right
}

/// Horizontal dividers drawn with a line set.
pub trait LineSetExts {
    fn top_divider(&self, width: usize, label: &str) -> String;
    fn middle_divider(&self, width: usize, label: &str) -> String;
    fn bottom_divider(&self, width: usize) -> String;
}

/// `width - 2 - len`, or zero when that is negative.
fn room_after(width: usize, len: usize) -> (n: usize)
    ensures
        n == if width - 2 - len > 0 { width - 2 - len } else { 0 },
{
    if width >= 2 && width - 2 >= len {
        width - 2 - len
    } else {
        0
    }
}

impl LineSetExts for LineSet {
    /// The top border of a box, with a label after its left corner.
    fn top_divider(&self, width: usize, label: &str) -> (s: String)
        ensures
            s@ == divider(self.top_left@, label@, (label.spec_bytes().len() as usize) as int, self.horizontal@, self.top_right@, width as int),
    {
        let mut s = String::from_str(self.top_left);
        s.append(label);
        let line = self.horizontal.repeated(room_after(width, label.len()));
        s.append(line.as_str());
        s.append(self.top_right);
        assert(s@ =~= divider(self.top_left@, label@, (label.spec_bytes().len() as usize) as int, self.horizontal@, self.top_right@, width as int));
        s
    }

    /// A divider across a box, with a label after its left junction.
    fn middle_divider(&self, width: usize, label: &str) -> (s: String)
        ensures
            s@ == divider(self.vertical_right@, label@, (label.spec_bytes().len() as usize) as int, self.horizontal@, self.vertical_left@, width as int),
    {
        let mut s = String::from_str(self.vertical_right);
        s.append(label);
        let line = self.horizontal.repeated(room_after(width, label.len()));
        s.append(line.as_str());
        s.append(self.vertical_left);
        assert(s@ =~= divider(self.vertical_right@, label@, (label.spec_bytes().len() as usize) as int, self.horizontal@, self.vertical_left@, width as int));
        s
    }

    /// The bottom border of a box.
    fn bottom_divider(&self, width: usize) -> (s: String)
        ensures
            s@ == divider(self.bottom_left@, Seq::empty(), 0, self.horizontal@, self.bottom_right@, width as int),
    {
        let mut s = String::from_str(self.bottom_left);
        let line = self.horizontal.repeated(room_after(width, 0));
        s.append(line.as_str());
        s.append(self.bottom_right);
        assert(s@ =~= divider(self.bottom_left@, Seq::empty(), 0, self.horizontal@, self.bottom_right@, width as int));
        s
    }
}

/// In ASCII mode a printable byte (33 to 126) is drawn as its own
/// character with a space on each side; without ASCII mode every byte is
/// drawn by its decimal digits, never as a character.
pub proof fn law_printable_bytes_show_as_characters(v: u8)
    ensures
        33 <= v <= 126 ==> cell_text(v, true) == seq![' ', v as char, ' '],
        cell_text(v, false) == center3(decimal(v as nat)),
        cell_text(v, true).len() == 3,
{
    let one = seq![v as char];
    assert(center3(one) =~= seq![' '] + one + seq![' ']);
    assert(seq![' '] + one + seq![' '] =~= seq![' ', v as char, ' ']);
    let n = v as nat;
    if n >= 10 {
        assert(decimal(n) == decimal(n / 10).push(crate::text::digit_char((n % 10) as int)));
        if n / 10 >= 10 {
            assert(decimal(n / 10) == decimal(n / 10 / 10).push(crate::text::digit_char((n / 10 % 10) as int)));
            assert(n / 10 / 10 < 10);
        }
    }
    assert(1 <= decimal(n).len() <= 3);
}

} // verus!
