use bf::layout::{centered_rect, Rect};
use bf::run::tape_from_script;
use bf::tape::{Tape, TapeChunkWidget};
use bf::text::StrExt;
use bf::viewport::{TapeViewport, TapeViewportState};

/// The terminal width that fits `cells` cells.
fn width_for_cells(cells: u16) -> u16 {
    1 + 4 * cells
}

/// Checks a drawn row against the cells expected in it: the left cap when
/// the row begins the tape, the capped right border when it ends the tape,
/// and the highlight on the cursor's cell.
fn assert_row(row: &TapeChunkWidget, left: bool, right: bool, vp_cursor: usize, cells: &[u8]) {
    assert_eq!(row.0.len(), cells.len());
    for (j, w) in row.0.iter().enumerate() {
        assert_eq!(w.value, cells[j]);
        assert_eq!(w.is_highlighted, j == vp_cursor);
        assert_eq!(w.left_cap, j == 0 && left);
        let expected_right = if j + 1 == cells.len() { Some(right) } else { None };
        assert_eq!(w.right_border_cap, expected_right);
    }
}

fn tape(script: &str) -> Tape {
    tape_from_script(script, 1_000_000)
}

#[test]
fn state_ctor_sets_offset_to_0() {
    let state = TapeViewportState::new(false);
    assert_eq!(state.offset, 0);
}

#[test]
fn state_ctor_sets_ascii_to_true_when_given_true() {
    let state = TapeViewportState::new(true);
    assert!(state.ascii_values);
}

#[test]
fn state_ctor_sets_ascii_to_false_when_given_false() {
    let state = TapeViewportState::new(false);
    assert!(!state.ascii_values);
}

#[test]
fn renders_a_default_tape() {
    let tape = Tape::default();
    let widget = TapeViewport::new(&tape);
    let mut state = TapeViewportState::default();
    let row = widget.layout(width_for_cells(1), &mut state);
    assert_row(&row, true, true, 0, &[0]);
}

#[test]
fn renders_a_script() {
    let script = "++++++++[>+>++++++++<<-]>++>+.<.";
    let tape = tape(script);
    let widget = TapeViewport::new(&tape);
    let mut state = TapeViewportState::default();
    let row = widget.layout(width_for_cells(3), &mut state);
    assert_row(&row, true, true, 1, &[0, 10, 65]);
}

#[test]
fn shifts_right_when_cursor_is_right_of_the_viewport() {
    for width in [3usize, 8, 12, 16] {
        let tape = tape(&">".repeated(width));
        let widget = TapeViewport::new(&tape);
        let mut state = TapeViewportState::default();
        let row = widget.layout(width_for_cells(width as u16), &mut state);
        assert_eq!(state.offset, 1);
        assert_row(&row, false, true, width - 1, &vec![0; width]);
    }
}

#[test]
fn shifts_right_when_cursor_is_right_of_the_cursorbox() {
    for (width, margin) in [(3usize, 0usize), (8, 1), (12, 2), (16, 3)] {
        let script = ">".repeated(width * 2) + &"<".repeated(width * 2) + &">".repeated(width - margin);
        let tape = tape(&script);
        let widget = TapeViewport::new(&tape);
        let mut state = TapeViewportState::default();
        let row = widget.layout(width_for_cells(width as u16), &mut state);
        assert_eq!(state.offset, 1);
        assert_row(&row, false, false, width - margin - 1, &vec![0; width]);
    }
}

#[test]
fn shifts_left_when_cursor_is_left_of_the_viewport() {
    let width = 3_usize;
    let script = ">".repeated(width) + &"<".repeated(width);
    let tape = tape(&script);
    let widget = TapeViewport::new(&tape);
    let mut state = TapeViewportState::_new(1);
    let row = widget.layout(width_for_cells(width as u16), &mut state);
    assert_eq!(state.offset, 0);
    assert_row(&row, true, false, 0, &vec![0; width]);
}

#[test]
fn shifts_left_when_cursor_is_left_of_the_cursorbox() {
    for (width, margin) in [(3usize, 0usize), (8, 1), (12, 2), (16, 3)] {
        let script = ">".repeated(width * 2) + &"<".repeated(width - margin);
        let tape = tape(&script);
        let widget = TapeViewport::new(&tape);
        let mut state = TapeViewportState::_new(width);
        let row = widget.layout(width_for_cells(width as u16), &mut state);
        assert_eq!(state.offset, width);
        assert_row(&row, false, false, margin, &vec![0; width]);
    }
}

#[test]
fn shits_left_when_there_is_a_gap_after_the_tape() {
    let tape = tape(">>>");
    let widget = TapeViewport::new(&tape);
    let mut state = TapeViewportState::_new(1);
    let row = widget.layout(width_for_cells(4), &mut state);
    assert_eq!(state.offset, 0);
    assert_row(&row, true, true, 3, &[0, 0, 0, 0]);
}

#[test]
fn the_cursor_stays_in_view_while_it_walks_the_tape() {
    let width = 5usize;
    let mut state = TapeViewportState::default();
    let mut script = String::new();
    for step in 0..40 {
        if step < 25 {
            script.push('>');
        } else {
            script.push('<');
        }
        let tape = tape(&script);
        let widget = TapeViewport::new(&tape);
        let _ = widget.layout(width_for_cells(width as u16), &mut state);
        let cursor = tape.cursor();
        assert!(state.offset <= cursor && cursor < state.offset + width);
    }
}

#[test]
fn chunks_cut_the_tape_into_rows() {
    let tape = tape(">>>>>>+");
    let rows = tape.chunks(13, false);
    assert_eq!(rows.len(), 3);
    assert_row(&rows.0[0], true, false, 9, &[0, 0, 0]);
    assert_row(&rows.0[1], false, false, 9, &[0, 0, 0]);
    assert_row(&rows.0[2], false, true, 0, &[1]);
}

#[test]
fn window_shows_the_cells_that_exist() {
    let tape = tape("+>++>+++<");
    let row = tape.window(1, 5, true);
    assert_eq!(row.0.len(), 2);
    assert_eq!(row.0[0].value, 2);
    assert!(row.0[0].is_highlighted);
    assert!(row.0[0].ascii);
    assert_eq!(row.0[1].right_border_cap, Some(true));
}

#[test]
fn centered_rect_is_in_the_middle() {
    let area = Rect { x: 0, y: 0, width: 100, height: 40 };
    assert_eq!(centered_rect(50, 50, area), Rect { x: 25, y: 10, width: 50, height: 20 });
    let area = Rect { x: 10, y: 5, width: 20, height: 10 };
    assert_eq!(centered_rect(100, 100, area), area);
}

#[test]
fn the_tape_as_text() {
    let tape = tape("+>++");
    let text = tape.chunks(9, false).display("> ");
    assert_eq!(
        text,
        "> ┌───┬───┐\n> │ 1 │\u{1b}[46m\u{1b}[30m 2 \u{1b}[0m│\n> └───┴───┘\n"
    );
    let (top, middle, bottom) = tape.window(0, 1, false).lines();
    assert_eq!(top, "┌───┬");
    assert_eq!(middle, "│ 1 │");
    assert_eq!(bottom, "└───┴");
}
