use bf::cli::{get_width, is_valid_delay, is_valid_infile, is_valid_width, parse_delay, parse_infile, parse_width, width_for, RunCli};
use bf::editable::Field;
use bf::field::Field as PlainField;
use bf::history::{input_debug_action, InputDebugAction, State};
use bf::keys::{collapse_page_keys, key_event_label, BfEvent, InputEvent, KeyCode, KeyEvent, KeyEventExt, KeyModifiers};
use bf::lines::{contains_crlf, ends_with_eol, split_lines};
use bf::printer::Printer;
use bf::text::{StrExt, USizeExt};
use bf::widgets::{LineSet, LineSetExts};

fn plain(c: char) -> BfEvent {
    BfEvent::Input(InputEvent::Key(KeyEvent::plain(KeyCode::Char(c))))
}

fn with_mods(code: KeyCode, shift: bool, control: bool, alt: bool) -> KeyEvent {
    KeyEvent { code, modifiers: KeyModifiers { shift, control, alt } }
}

#[test]
fn width_must_be_an_integer_greater_than_5() {
    assert_eq!(parse_width("5"), Err(String::from("value must be an integer > 5")));
    assert_eq!(parse_width("6"), Ok(6));
    assert_eq!(parse_width("+80"), Ok(80));
    assert_eq!(parse_width("4"), Err(String::from("value must be an integer > 5")));
    assert_eq!(parse_width("-7"), Err(String::from("value must be an integer > 5")));
    assert!(parse_width("").is_err());
    assert!(parse_width("12a").is_err());
    assert!(parse_width(" 12").is_err());
    assert!(parse_width("99999999999999999999").is_err());
    assert_eq!(is_valid_width(String::from("10")), Ok(()));
    assert_eq!(is_valid_width(String::from("5")), Err(String::from("value must be an integer > 5")));
    assert_eq!(is_valid_width(String::from("3")), Err(String::from("value must be an integer > 5")));
}

#[test]
fn delay_must_be_an_integer_of_at_least_0() {
    assert_eq!(parse_delay("0"), Ok(0));
    assert_eq!(parse_delay("250"), Ok(250));
    assert_eq!(parse_delay("-1"), Err(String::from("value must be an integer >= 0")));
    assert!(parse_delay("fast").is_err());
    assert_eq!(is_valid_delay(String::from("3")), Ok(()));
    assert_eq!(is_valid_delay(String::from("-3")), Err(String::from("value must be an integer >= 0")));
}

#[test]
fn infile_must_exist_and_be_a_file() {
    assert_eq!(parse_infile("-", false, false), Ok(String::from("-")));
    assert_eq!(parse_infile("a.bf", true, false), Ok(String::from("a.bf")));
    assert_eq!(parse_infile("dir", true, true), Err(String::from("file is a directory: dir")));
    assert_eq!(parse_infile("nope.bf", false, false), Err(String::from("no such file exists: nope.bf")));
    assert_eq!(is_valid_infile(String::from("nope.bf"), false, false), Err(String::from("no such file exists: nope.bf")));
    assert_eq!(is_valid_infile(String::from("-"), false, true), Ok(()));
}

#[test]
fn width_falls_back_to_the_terminal_and_then_to_65() {
    assert_eq!(width_for(Some(40), Some(100)), 40);
    assert_eq!(width_for(None, Some(100)), 100);
    assert_eq!(width_for(None, Some(5)), 65);
    assert_eq!(width_for(None, None), 65);
    assert_eq!(get_width(Some(33)), 33);
    let w = get_width(None);
    assert!(w == 65 || w > 5);
}

#[test]
fn run_options_hold_their_values() {
    let cli = RunCli {
        delay: 0,
        input: String::new(),
        show_tape: false,
        width: None,
        ascii_values: false,
        outfile: None,
        infile: Some(String::from("-")),
    };
    assert_eq!(cli.clone().infile.as_deref(), Some("-"));
}

#[test]
fn lines_are_split_without_their_endings() {
    assert_eq!(split_lines(b"a\nb\r\nc"), vec![b"a".to_vec(), b"b".to_vec(), b"c".to_vec()]);
    assert_eq!(split_lines(b"a\n"), vec![b"a".to_vec()]);
    assert_eq!(split_lines(b""), Vec::<Vec<u8>>::new());
    assert_eq!(split_lines(b"\n\n"), vec![Vec::new(), Vec::new()]);
    assert_eq!(split_lines(b"x\r"), vec![b"x\r".to_vec()]);
    assert!(ends_with_eol(b"a\n"));
    assert!(!ends_with_eol(b"a"));
    assert!(contains_crlf(b"a\r\nb"));
    assert!(!contains_crlf(b"a\rb\n"));
}

#[test]
fn printer_erases_what_it_printed() {
    let mut printer = Printer::new();
    assert_eq!(printer.print(b"one\ntwo\n"), b"one\ntwo\n".to_vec());
    assert_eq!(printer.lines_printed, 2);
    let erase = printer.reset();
    assert_eq!(erase, b"\x1b[1A\r\x1b[K\x1b[1A\r\x1b[K".to_vec());
    assert_eq!(printer.lines_printed, 0);
    assert!(printer.reset().is_empty());
}

#[test]
fn printer_clears_an_unfinished_line_in_place() {
    let mut printer = Printer::new();
    assert_eq!(printer.print(b"abc"), b"abc".to_vec());
    assert!(!printer.has_final_eol);
    assert_eq!(printer.reset(), b"\r\x1b[K".to_vec());
}

#[test]
fn field_edits_at_its_cursor() {
    let mut field = Field::from("ac");
    field.cursor_left();
    field.insert('b');
    assert_eq!(field.text(), "abc");
    assert_eq!(field.cursor(), 2);
    field.backspace();
    assert_eq!(field.text(), "ac");
    assert_eq!(field.cursor(), 1);
    field.insert('é');
    field.insert('\x07');
    assert_eq!(field.text(), "ac");
    field.cursor_home();
    field.delete();
    assert_eq!(field.text(), "c");
    field.cursor_end();
    assert_eq!(field.cursor(), 1);
    field.cursor_right();
    assert_eq!(field.cursor(), 1);
}

#[test]
fn backspace_undoes_a_typed_character() {
    let mut field = Field::from("hello");
    field.cursor_left();
    field.cursor_left();
    field.insert('X');
    field.backspace();
    assert_eq!(field.text(), "hello");
    assert_eq!(field.cursor(), 3);
}

#[test]
fn field_follows_key_presses() {
    let mut field = Field::new();
    for c in "hi".chars() {
        field.on_event(KeyEvent::plain(KeyCode::Char(c)));
    }
    field.on_event(KeyEvent::plain(KeyCode::Home));
    field.on_event(with_mods(KeyCode::Char('x'), false, true, false));
    assert_eq!(field.text(), "hi");
    assert_eq!(field.cursor(), 0);
}

#[test]
fn history_keeps_the_newest_entries() {
    let mut state: State<u32> = State::new(3);
    for e in 1..=5 {
        state.input_history_add(e);
    }
    assert_eq!(state.get_input_history().iter().copied().collect::<Vec<_>>(), vec![3, 4, 5]);
    state.input_history_resize(2);
    assert_eq!(state.get_input_history().iter().copied().collect::<Vec<_>>(), vec![4, 5]);
    state.input_history_resize(0);
    assert!(state.get_input_history().is_empty());
    state.input_history_add(9);
    assert_eq!(state.get_input_history().len(), 1);
    state.spinner_tick();
    assert_eq!(state.get_spinner().0, 1);
}

#[test]
fn page_keys_from_escape_sequences() {
    let five = BfEvent::Input(InputEvent::Key(with_mods(KeyCode::Char('5'), false, false, true)));
    let events = vec![plain('a'), plain('['), five, plain('~'), plain('['), plain('6'), plain('~'), BfEvent::Tick];
    let collapsed = collapse_page_keys(events);
    assert_eq!(
        collapsed,
        vec![
            plain('a'),
            BfEvent::Input(InputEvent::Key(KeyEvent::plain(KeyCode::PageUp))),
            BfEvent::Input(InputEvent::Key(KeyEvent::plain(KeyCode::PageDown))),
            BfEvent::Tick,
        ]
    );
    assert_eq!(collapse_page_keys(vec![plain('['), plain('7'), plain('~')]), vec![plain('['), plain('7'), plain('~')]);
}

#[test]
fn key_labels() {
    assert_eq!(key_event_label(with_mods(KeyCode::Char('c'), false, true, false)), "Ctrl + 'c'");
    assert_eq!(key_event_label(KeyEvent::plain(KeyCode::Char('A'))), "Shift + 'A'");
    assert_eq!(key_event_label(KeyEvent::plain(KeyCode::Char('\''))), "'\\''");
    assert_eq!(key_event_label(with_mods(KeyCode::F(12), false, false, true)), "Alt + F12");
    assert_eq!(key_event_label(with_mods(KeyCode::PageUp, true, true, true)), "Ctrl + Alt + Shift + PageUp");
    assert!(KeyEvent::plain(KeyCode::Char('Q')).is_shift());
    assert!(with_mods(KeyCode::Char('s'), false, true, false).is_ctrl_char('s'));
}

#[test]
fn digit_counts() {
    assert_eq!(0usize.count_digits(), 1);
    assert_eq!(9usize.count_digits(), 1);
    assert_eq!(10usize.count_digits(), 2);
    assert_eq!(12345usize.count_digits(), 5);
    assert_eq!(usize::MAX.count_digits(), usize::MAX.to_string().len());
}

#[test]
fn repeated_text() {
    assert_eq!("ab".repeated(3), "ababab");
    assert_eq!("ab".repeated(0), "");
    assert_eq!("─".repeated(2), "──");
}

fn plain_lines() -> LineSet {
    LineSet {
        vertical: "│",
        horizontal: "─",
        top_right: "┐",
        top_left: "┌",
        bottom_right: "┘",
        bottom_left: "└",
        vertical_left: "┤",
        vertical_right: "├",
        horizontal_down: "┬",
        horizontal_up: "┴",
        cross: "┼",
    }
}

#[test]
fn dividers_fill_the_width() {
    let set = plain_lines();
    assert_eq!(set.top_divider(10, " Tape "), "┌ Tape ──┐");
    assert_eq!(set.middle_divider(10, " Code "), "├ Code ──┤");
    assert_eq!(set.bottom_divider(5), "└───┘");
    assert_eq!(set.top_divider(4, " Output "), "┌ Output ┐");
}

#[test]
fn input_debugger_rules() {
    let esc = BfEvent::Input(InputEvent::Key(KeyEvent::plain(KeyCode::Esc)));
    assert_eq!(input_debug_action(false, esc), InputDebugAction::Quit);
    let ctrl_esc = BfEvent::Input(InputEvent::Key(with_mods(KeyCode::Esc, false, true, false)));
    assert_eq!(input_debug_action(false, ctrl_esc), InputDebugAction::Record);
    assert_eq!(input_debug_action(false, BfEvent::Input(InputEvent::Mouse)), InputDebugAction::Ignore);
    assert_eq!(input_debug_action(true, BfEvent::Input(InputEvent::Mouse)), InputDebugAction::Record);
    assert_eq!(input_debug_action(false, BfEvent::Input(InputEvent::Resize(80, 24))), InputDebugAction::Resize(21));
    assert_eq!(input_debug_action(false, BfEvent::Input(InputEvent::Resize(80, 2))), InputDebugAction::Resize(0));
    assert_eq!(input_debug_action(false, BfEvent::Tick), InputDebugAction::Tick);
}

#[test]
fn an_editor_field_counts_its_cursor_in_bytes() {
    let field = Field::from("é");
    assert_eq!(field.cursor(), 2);
    assert_eq!(field.text(), "é");
    assert_eq!(Field::new().text(), "");
    assert_eq!(Field::new().cursor(), 0);
}

#[test]
fn a_plain_field_takes_any_character() {
    let mut field = PlainField::new();
    assert_eq!(field.data(), "");
    field.insert('a');
    field.insert('\x07');
    field.insert('c');
    assert_eq!(field.data(), "a\x07c");
    assert_eq!(field.cursor(), 3);
    field.cursor_left();
    field.insert('b');
    assert_eq!(field.data(), "a\x07bc");
    field.backspace();
    assert_eq!(field.data(), "a\x07c");
    assert_eq!(field.cursor(), 2);
    field.cursor_home();
    field.delete();
    assert_eq!(field.data(), "\x07c");
    field.backspace();
    assert_eq!(field.cursor(), 0);
    field.cursor_end();
    assert_eq!(field.cursor(), 2);
    field.cursor_right();
    assert_eq!(field.cursor(), 2);
}

#[test]
fn a_plain_field_moves_by_bytes() {
    let mut field = PlainField::new();
    field.insert('é');
    assert_eq!(field.data(), "é");
    assert_eq!(field.cursor(), 1);
    field.cursor_right();
    assert_eq!(field.cursor(), 2);
    field.insert('x');
    assert_eq!(field.data(), "éx");
    field.backspace();
    assert_eq!(field.data(), "é");
}

