//! Rectangles of the terminal and the placement of a centered box.
use vstd::prelude::*;

use ratatui::layout::{Constraint, Direction, Layout};

verus! {

/// A rectangle of terminal cells: its left column, top row, width and
/// height.
#[derive(Clone, Copy, Debug, PartialEq, Eq, Structural)]
pub struct Rect {
    pub x: u16,
    pub y: u16,
    pub width: u16,
    pub height: u16,
}

/// `area` as ratatui's `Rect::new` builds it: the width and the height are
/// cut so that the right and the bottom edge stay within `u16`.
pub open spec fn clamped(area: Rect) -> Rect {
    Rect {
        x: area.x,
        y: area.y,
        width: if area.width > u16::MAX - area.x { (u16::MAX - area.x) as u16 } else { area.width },
        height: if area.height > u16::MAX - area.y { (u16::MAX - area.y) as u16 } else { area.height },
    }
}

/// `inner` lies within `outer`.
pub open spec fn inside(inner: Rect, outer: Rect) -> bool {
    &&& outer.x <= inner.x
    &&& outer.y <= inner.y
    &&& inner.x + inner.width <= outer.x + outer.width
    &&& inner.y + inner.height <= outer.y + outer.height
}

/// The sum of a sequence of percentages.
pub open spec fn percent_total(percents: Seq<u16>) -> int
    decreases percents.len(),
{
    if percents.len() == 0 {
        0
    } else {
        percent_total(percents.drop_last()) + percents.last()
    }
}

/// The sum of the first `k` percentages.
pub open spec fn percent_prefix(percents: Seq<u16>, k: int) -> int {
    percent_total(percents.take(k))
}

/// `n / 100` rounded to the nearest whole number, halves up (`n >= 0`).
pub open spec fn round_hundredths(n: int) -> int {
    (n + 50) / 100
}

/// Area `i` of a split of `area` by `percents`, into rows if `vertical`,
/// else into columns: it spans the whole (clamped) area across the split,
/// and along the split it runs between the boundaries that the
/// percentages before it, and up to it, give, each rounded to the nearest
/// cell.
pub open spec fn split_piece(vertical: bool, percents: Seq<u16>, area: Rect, i: int) -> Rect {
    let a = clamped(area);
    let size: int = if vertical { a.height as int } else { a.width as int };
    let lo = round_hundredths(size * percent_prefix(percents, i));
    let hi = round_hundredths(size * percent_prefix(percents, i + 1));
    if vertical {
        Rect { x: a.x, y: (a.y + lo) as u16, width: a.width, height: (hi - lo) as u16 }
    } else {
        Rect { x: (a.x + lo) as u16, y: a.y, width: (hi - lo) as u16, height: a.height }
    }
}

/// The areas of a split of `area` by `percents`, one per percentage, in
/// order (see `split_piece`).
pub open spec fn percent_split(vertical: bool, percents: Seq<u16>, area: Rect) -> Seq<Rect> {
    Seq::new(percents.len(), |i: int| split_piece(vertical, percents, area, i))
}

/// Splits `area` by percentages (`ratatui::layout::Layout::split` with
/// `Constraint::Percentage`s and the default `Flex::Start`), into rows if
/// `vertical`, else into columns.
///
/// Claimed of ratatui, for percentages that total at most 100: the areas
/// are `percent_split`. The solver's required constraints keep every
/// boundary in order inside the (clamped) area; the gaps between areas are
/// held at zero, and the first one empty, more strongly than anything
/// else; each percentage is a strong constraint that only weaker ones (the
/// last gap growing, the areas growing alike) pull against. So every
/// percentage is met exactly and the answer is the same whatever order the
/// solver works in: boundary `k` lies at `start + size * P_k / 100` in
/// hundredths of a cell, which `changes_to_rects` rounds to the nearest cell,
/// where `P_k` is the sum of the first `k` percentages; across the split
/// each area keeps the area's own position and size.
#[verifier::external_body]
fn split_percentages(vertical: bool, percents: &[u16], area: Rect) -> (r: Vec<Rect>)
    requires
        percent_total(percents@) <= 100,
    ensures
        r@ == percent_split(vertical, percents@, area),
{
    let direction = if vertical { Direction::Vertical } else { Direction::Horizontal };
    let areas = Layout::default()
        .direction(direction)
        .constraints(percents.iter().map(|p| Constraint::Percentage(*p)))
        .split(ratatui::layout::Rect::new(area.x, area.y, area.width, area.height));
    areas.iter().map(|a| Rect { x: a.x, y: a.y, width: a.width, height: a.height }).collect()
}

/// The percentages that put a band of `percent` in the middle.
pub open spec fn middle_band(percent: u16) -> Seq<u16> {
    let side = ((100 - percent) / 2) as u16;
    seq![side, percent, side]
}

/// The box `percent_x` wide and `percent_y` high in the middle of `area`:
/// the middle of three rows (split by `middle_band(percent_y)`), then the
/// middle of three columns of that row (split by `middle_band(percent_x)`).
pub open spec fn centered(percent_x: u16, percent_y: u16, area: Rect) -> Rect {
    split_piece(false, middle_band(percent_x), split_piece(true, middle_band(percent_y), area, 1), 1)
}

proof fn lemma_prefix_step(percents: Seq<u16>, k: int)
    requires
        0 <= k < percents.len(),
    ensures
        percent_prefix(percents, k + 1) == percent_prefix(percents, k) + percents[k],
        percent_prefix(percents, k) >= 0,
{
    assert(percents.take(k + 1).drop_last() =~= percents.take(k));
    lemma_total_nonneg(percents.take(k));
}

proof fn lemma_total_nonneg(percents: Seq<u16>)
    ensures
        percent_total(percents) >= 0,
    decreases percents.len(),
{
    if percents.len() > 0 {
        lemma_total_nonneg(percents.drop_last());
    }
}

proof fn lemma_prefix_bounds(percents: Seq<u16>, k: int)
    requires
        0 <= k <= percents.len(),
    ensures
        0 <= percent_prefix(percents, k) <= percent_total(percents),
    decreases percents.len() - k,
{
    lemma_total_nonneg(percents.take(k));
    if k == percents.len() {
        assert(percents.take(k) =~= percents);
    } else {
        lemma_prefix_step(percents, k);
        lemma_prefix_bounds(percents, k + 1);
    }
}

proof fn lemma_round_bounds(size: int, p: int, q: int)
    requires
        0 <= size,
        0 <= p <= q <= 100,
    ensures
        0 <= round_hundredths(size * p) <= round_hundredths(size * q) <= size,
{
    assert(0 <= size * p <= size * q <= size * 100) by (nonlinear_arith)
        requires
            0 <= size,
            0 <= p <= q <= 100,
    ;
}

/// Each area of a split lies within the (clamped) area split.
pub proof fn lemma_split_piece_inside(vertical: bool, percents: Seq<u16>, area: Rect, i: int)
    requires
        percent_total(percents) <= 100,
        0 <= i < percents.len(),
    ensures
        inside(split_piece(vertical, percents, area, i), clamped(area)),
{
    let a = clamped(area);
    let size: int = if vertical { a.height as int } else { a.width as int };
    lemma_prefix_step(percents, i);
    lemma_prefix_bounds(percents, i + 1);
    lemma_round_bounds(size, percent_prefix(percents, i), percent_prefix(percents, i + 1));
}

fn band(percent: u16) -> (v: Vec<u16>)
    requires
        percent <= 100,
    ensures
        v@ == middle_band(percent),
        percent_total(v@) <= 100,
{
    let side = (100 - percent) / 2;
    let mut v: Vec<u16> = Vec::new();
    v.push(side);
    v.push(percent);
    v.push(side);
    assert(v@ =~= middle_band(percent));
    assert(v@.drop_last().drop_last().drop_last() =~= Seq::<u16>::empty());
    assert(percent_total(v@) == side + percent + side) by {
        reveal_with_fuel(percent_total, 4);
    }
    v
}

/// The box `percent_x` wide and `percent_y` high in the middle of `area`
/// (see `centered`); it lies within `area`.
pub fn centered_rect(percent_x: u16, percent_y: u16, area: Rect) -> (r: Rect)
    requires
        percent_x <= 100,
        percent_y <= 100,
    ensures
        r == centered(percent_x, percent_y, area),
        inside(r, area),
{
    let rows = band(percent_y);
    let vertical = split_percentages(true, rows.as_slice(), area);
    let middle = vertical[1];
    let columns = band(percent_x);
    let horizontal = split_percentages(false, columns.as_slice(), middle);
    proof {
        lemma_split_piece_inside(true, rows@, area, 1);
        lemma_split_piece_inside(false, columns@, middle, 1);
    }
    horizontal[1]
}

} // verus!
