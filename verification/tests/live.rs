use bf::dialogue::{button_spacing, Dialogue, DialogueButton, DialogueCommand, DialogueKind, PromptDialogueCursor};
use bf::keys::{KeyCode, KeyEvent, KeyModifiers};
use bf::live::{digests_differ, edit_command, lines_hash, sha1_digest, EditCommand, LiveState, Status};

fn key(code: KeyCode) -> KeyEvent {
    KeyEvent::plain(code)
}

fn ctrl(c: char) -> KeyEvent {
    KeyEvent { code: KeyCode::Char(c), modifiers: KeyModifiers { shift: false, control: true, alt: false } }
}

fn fresh(path: Option<&str>) -> LiveState {
    LiveState::new(path.map(String::from), false, sha1_digest(b""))
}

fn type_text(state: &mut LiveState, text: &str) {
    for c in text.chars() {
        state.handle_key_event(key(KeyCode::Char(c)));
    }
}

#[test]
fn typing_code_edits_and_restarts() {
    let mut state = fresh(None);
    let out = state.handle_key_event(key(KeyCode::Char('+')));
    assert_eq!(out.edit, Some(EditCommand::Insert('+')));
    assert!(out.restart);
    assert!(out.save.is_none());
}

#[test]
fn moving_the_cursor_does_not_restart() {
    let mut state = fresh(None);
    let out = state.handle_key_event(key(KeyCode::Left));
    assert_eq!(out.edit, Some(EditCommand::Back));
    assert!(!out.restart);
}

#[test]
fn save_without_a_file_asks_for_a_name() {
    let mut state = fresh(None);
    let out = state.handle_key_event(ctrl('s'));
    assert!(out.save.is_none());
    let dialogue = state.dialogue.as_ref().expect("a dialogue");
    assert_eq!(dialogue.title(), " Save As ");
    type_text(&mut state, "out.bf");
    let out = state.handle_key_event(key(KeyCode::Enter));
    assert_eq!(out.save.as_deref(), Some("out.bf"));
    assert_eq!(state.file_path.as_deref(), Some("out.bf"));
    assert!(state.dialogue.is_none());
}

#[test]
fn save_with_a_file_saves_to_it() {
    let mut state = fresh(Some("hello.bf"));
    let out = state.handle_key_event(ctrl('s'));
    assert_eq!(out.save.as_deref(), Some("hello.bf"));
    assert!(state.dialogue.is_none());
}

#[test]
fn save_as_is_prefilled_with_the_file_name() {
    let mut state = fresh(Some("hello.bf"));
    state.handle_key_event(ctrl('x'));
    match state.dialogue.as_ref().map(Dialogue::kind) {
        Some(DialogueKind::FileSaveAs(prompt)) => {
            assert_eq!(prompt.input().text(), "hello.bf");
            assert_eq!(prompt.cursor(), PromptDialogueCursor::Input);
        }
        other => panic!("unexpected dialogue {:?}", other),
    }
}

#[test]
fn escape_closes_a_dialogue_without_saving() {
    let mut state = fresh(None);
    state.handle_key_event(ctrl('x'));
    let out = state.handle_key_event(key(KeyCode::Esc));
    assert!(state.dialogue.is_none());
    assert!(out.save.is_none());
    assert!(state.file_path.is_none());
}

#[test]
fn f1_sets_the_input_and_restarts() {
    let mut state = fresh(None);
    state.handle_key_event(key(KeyCode::F(1)));
    type_text(&mut state, "abc");
    let out = state.handle_key_event(key(KeyCode::Enter));
    assert!(out.restart);
    assert_eq!(state.input, "abc");
    assert!(state.dialogue.is_none());
}

#[test]
fn f2_takes_the_first_byte_of_the_answer() {
    let mut state = fresh(None);
    state.handle_key_event(key(KeyCode::F(2)));
    type_text(&mut state, "xyz");
    let out = state.handle_key_event(key(KeyCode::Enter));
    assert!(out.restart);
    assert_eq!(state.auto_input, Some(b'x'));
    state.handle_key_event(key(KeyCode::F(2)));
    state.handle_key_event(key(KeyCode::Enter));
    assert_eq!(state.auto_input, None);
}

#[test]
fn control_a_switches_ascii_and_control_c_quits() {
    let mut state = fresh(None);
    state.handle_key_event(ctrl('a'));
    assert!(state.ascii_values);
    state.handle_key_event(ctrl('a'));
    assert!(!state.ascii_values);
    let out = state.handle_key_event(ctrl('c'));
    assert!(state.should_quit);
    assert!(!out.restart);
}

#[test]
fn a_failed_save_shows_why() {
    let mut state = fresh(None);
    state.on_save_result("x.bf", Err(String::from("permission denied")));
    let dialogue = state.dialogue.as_ref().expect("a dialogue");
    assert_eq!(dialogue.title(), " Error ");
    match dialogue.kind() {
        DialogueKind::Error(b) => {
            assert_eq!(b.message(), "Error while saving file: x.bf\n\npermission denied");
            assert_eq!(b.buttons(), &vec![DialogueButton::Okay]);
        }
        other => panic!("unexpected dialogue {:?}", other),
    }
    state.handle_key_event(key(KeyCode::Enter));
    assert!(state.dialogue.is_none());
}

#[test]
fn a_saved_text_is_clean() {
    let mut state = fresh(None);
    let lines = vec![String::from("+++"), String::from(".")];
    let current = lines_hash(&lines);
    assert!(state.is_dirty(&current));
    state.on_save_result("x.bf", Ok(current));
    assert!(!state.is_dirty(&current));
}

#[test]
fn a_broken_background_run_is_reported() {
    let mut state = fresh(None);
    state.on_restart(&Status::Running);
    assert!(state.dialogue.is_none());
    state.on_restart(&Status::FatalError(String::from("poisoned")));
    assert_eq!(state.dialogue.as_ref().map(|d| d.title()), Some(" Error "));
}

#[test]
fn dialogue_keys_do_not_reach_the_editor() {
    let mut state = fresh(None);
    state.handle_key_event(key(KeyCode::F(1)));
    let out = state.handle_key_event(key(KeyCode::Char('q')));
    assert_eq!(out.edit, None);
    assert!(!out.restart);
}

#[test]
fn confirm_dialogue_answers() {
    let mut d = Dialogue::confirm_unsaved_changes(String::from("Quit?"));
    assert_eq!(d.on_event(key(KeyCode::Enter)), DialogueCommand::Dismissed);
    d.on_event(key(KeyCode::Tab));
    assert_eq!(d.on_event(key(KeyCode::Enter)), DialogueCommand::ConfirmUnsavedChangesConfirmed);
}

#[test]
fn escape_and_control_c_dismiss_every_dialogue() {
    for cancel in [key(KeyCode::Esc), ctrl('c')] {
        let mut dialogues = vec![
            Dialogue::confirm_unsaved_changes(String::from("?")),
            Dialogue::error(String::from("!")),
            Dialogue::file_save_as(None),
            Dialogue::script_input(),
            Dialogue::script_auto_input(),
        ];
        for d in dialogues.iter_mut() {
            assert_eq!(d.on_event(cancel), DialogueCommand::Dismissed);
        }
    }
}

#[test]
fn single_line_editing_ignores_lines_and_pages() {
    assert_eq!(edit_command(key(KeyCode::Up), false), None);
    assert_eq!(edit_command(key(KeyCode::Enter), false), None);
    assert_eq!(edit_command(key(KeyCode::Up), true), Some(EditCommand::Up));
    assert_eq!(edit_command(key(KeyCode::PageDown), true), Some(EditCommand::Bottom));
    assert_eq!(edit_command(ctrl('z'), true), None);
    assert_eq!(edit_command(key(KeyCode::Delete), false), Some(EditCommand::DeleteForward));
}

#[test]
fn sha1_of_abc() {
    let d = sha1_digest(b"abc");
    let hex: String = d.iter().map(|b| format!("{:02x}", b)).collect();
    assert_eq!(hex, "a9993e364706816aba3e25717850c26c9cd0d89d");
}

#[test]
fn the_hash_of_lines_is_the_hash_of_their_bytes() {
    let lines = vec![String::from("ab"), String::from(""), String::from("c")];
    assert_eq!(lines_hash(&lines), sha1_digest(b"abc"));
    assert!(!digests_differ(&lines_hash(&lines), &sha1_digest(b"abc")));
    assert!(digests_differ(&lines_hash(&lines), &sha1_digest(b"ab")));
}

#[test]
fn buttons_are_spaced_evenly() {
    assert_eq!(button_spacing(30, 1), 10);
    assert_eq!(button_spacing(35, 2), 5);
    assert_eq!(button_spacing(5, 1), 0);
    assert_eq!(button_spacing(15, 2), 0);
}

#[test]
fn tab_and_back_tab_bring_the_focus_back() {
    let mut d = Dialogue::confirm_unsaved_changes(String::from("Quit?"));
    d.on_event(key(KeyCode::Tab));
    d.on_event(key(KeyCode::BackTab));
    match d.kind() {
        DialogueKind::ConfirmUnsavedChanges(b) => assert_eq!(b.cursor(), 0),
        other => panic!("unexpected dialogue {:?}", other),
    }
    let mut p = Dialogue::script_input();
    p.on_event(key(KeyCode::Tab));
    p.on_event(key(KeyCode::BackTab));
    match p.kind() {
        DialogueKind::ScriptInput(s) => assert_eq!(s.cursor(), PromptDialogueCursor::Input),
        other => panic!("unexpected dialogue {:?}", other),
    }
}

#[test]
fn only_a_broken_run_opens_a_dialogue_on_restart() {
    for status in [Status::WaitingForInput, Status::Done, Status::Error(String::from("infinite loop"))] {
        let mut state = fresh(None);
        state.on_restart(&status);
        assert!(state.dialogue.is_none());
    }
}

#[test]
fn status_labels() {
    assert_eq!(Status::Done.label(), "Done");
    assert_eq!(Status::Running.label(), "Running");
    assert_eq!(Status::WaitingForInput.label(), "Waiting for input");
    assert_eq!(Status::Error(String::from("mismatched brackets")).label(), "Error: mismatched brackets");
    assert_eq!(Status::FatalError(String::from("lost")).label(), "Fatal error: lost");
}
