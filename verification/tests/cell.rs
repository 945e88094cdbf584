use bf::widgets::{CellWidget, Spinner};
use bf::Cell;

#[test]
fn new_initializes_to_0() {
    let cell = Cell::new();
    assert_eq!(cell.value(), 0);
}

#[test]
fn inc_increases_value_by_1() {
    let value = fastrand::u8(..u8::MAX);
    let mut cell = Cell::new();
    cell.set(value);
    cell.inc();
    assert_eq!(cell.value(), value + 1);
}

#[test]
fn dec_decreases_value_by_1() {
    let value = fastrand::u8(1..);
    let mut cell = Cell::new();
    cell.set(value);
    cell.dec();
    assert_eq!(cell.value(), value - 1);
}

#[test]
fn value_returns_the_value() {
    let value = fastrand::u8(..);
    let mut cell = Cell::new();
    cell.set(value);
    assert_eq!(cell.value(), value);
}

#[test]
fn set_updates_the_value() {
    let value = fastrand::u8(..);
    let mut cell = Cell::new();
    cell.set(value);
    assert_eq!(cell.value(), value);
}

#[test]
fn inc_wraps_from_255_to_0() {
    let mut cell = Cell::new();
    cell.set(255);
    cell.inc();
    assert_eq!(cell.value(), 0);
}

#[test]
fn dec_wraps_from_0_to_255() {
    let mut cell = Cell::new();
    cell.dec();
    assert_eq!(cell.value(), 255);
}

#[test]
fn dec_undoes_inc_on_every_value() {
    for v in 0..=255u8 {
        let mut cell = Cell::new();
        cell.set(v);
        cell.inc();
        cell.dec();
        assert_eq!(cell.value(), v);
        cell.dec();
        cell.inc();
        assert_eq!(cell.value(), v);
    }
}

#[test]
fn ascii_is_the_byte_as_a_character() {
    let mut cell = Cell::new();
    cell.set(65);
    assert_eq!(cell.ascii(), 'A');
}

#[test]
fn tick_increases_index_by_1() {
    let index = fastrand::usize(..3);
    let mut spinner = Spinner(index);
    spinner.tick();
    assert_eq!(spinner.0, index + 1);
}

#[test]
fn tick_wraps_to_0() {
    let mut spinner = Spinner(4 - 1);
    spinner.tick();
    assert_eq!(spinner.0, 0);
}

#[test]
fn renders_a_frame() {
    let frames = ['│', '╱', '─', '╲'];
    let index = fastrand::usize(0..4);
    let spinner = Spinner(index);
    assert_eq!(spinner.frame(), frames[index]);
}

#[test]
fn four_ticks_come_back_to_the_same_frame() {
    let mut spinner = Spinner(2);
    for _ in 0..4 {
        spinner.tick();
    }
    assert_eq!(spinner.0, 2);
}

fn lines_of_cell(widget: &CellWidget) -> [String; 3] {
    let right = if widget.right_border_cap.is_some() { "│" } else { "" };
    [widget.display_top(), format!("│{}{}", widget.display_value(), right), widget.display_bottom()]
}

#[test]
fn render_left_cap() {
    let widget = CellWidget { left_cap: true, ..Default::default() };
    let [top, middle, bottom] = lines_of_cell(&widget);
    assert_eq!(top, "┌───");
    assert_eq!(middle, "│ 0 ");
    assert_eq!(bottom, "└───");
    assert!(!widget.is_highlighted);
}

#[test]
fn render_right_uncapped() {
    let widget = CellWidget { right_border_cap: Some(false), ..Default::default() };
    assert_eq!(widget.display_top(), "┬───┬");
    assert_eq!(widget.display_bottom(), "┴───┴");
}

#[test]
fn render_right_capped() {
    let widget = CellWidget { right_border_cap: Some(true), ..Default::default() };
    assert_eq!(widget.display_top(), "┬───┐");
    assert_eq!(widget.display_bottom(), "┴───┘");
}

#[test]
fn render_highlight() {
    let widget = CellWidget { is_highlighted: true, ..Default::default() };
    let [top, middle, bottom] = lines_of_cell(&widget);
    assert_eq!(top, "┬───");
    assert_eq!(middle, "│ 0 ");
    assert_eq!(bottom, "┴───");
    assert!(widget.is_highlighted);
}

#[test]
fn display_numerical_value() {
    for (value, expected) in [(4u8, " 4 "), (42, "42 "), (255, "255")] {
        let widget = CellWidget { value, ..Default::default() };
        assert_eq!(widget.display_value(), expected);
    }
}

#[test]
fn display_ascii_value() {
    let cases: [(u8, &str); 7] = [
        (b'\0', r"\0 "),
        (b'\t', r"\t "),
        (b'\r', r"\r "),
        (b'\n', r"\n "),
        (b' ', "' '"),
        (b'A', " A "),
        (127, "127"),
    ];
    for (value, expected) in cases {
        let widget = CellWidget { value, ascii: true, ..Default::default() };
        assert_eq!(widget.display_value(), expected);
    }
}
