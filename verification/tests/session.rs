use bf::dialogue::{Dialogue, DialogueButton, DialogueCommand, DialogueKind, PromptDialogueState};
use bf::line_input::LineInput;
use bf::keys::{KeyCode, KeyEvent, KeyModifiers};
use bf::layout::{centered_rect, Rect};
use bf::session::{RunAction, RunSession};
use bf::tape::Tape;

/// Steps a session to its end, collecting what each step asks for.
fn run_all(session: &mut RunSession) -> Vec<RunAction> {
    let mut actions = Vec::new();
    loop {
        let action = session.step();
        let stop = !matches!(action, RunAction::Stepped { .. });
        actions.push(action);
        if stop {
            return actions;
        }
    }
}

#[test]
fn a_run_prints_its_output_after_each_step() {
    let code = "+".repeat(49) + ".";
    let (mut session, opening) = RunSession::new(code.as_bytes(), b"", false, 65, false);
    assert!(opening.is_empty());
    let actions = run_all(&mut session);
    assert_eq!(actions.len(), 51);
    for action in &actions[..49] {
        match action {
            RunAction::Stepped { erase, pause, show } => {
                assert!(erase.is_empty());
                assert!(!pause);
                assert!(show.is_empty());
            }
            other => panic!("unexpected {:?}", other),
        }
    }
    match &actions[49] {
        RunAction::Stepped { erase, show, .. } => {
            assert!(erase.is_empty());
            assert_eq!(show, b"1");
        }
        other => panic!("unexpected {:?}", other),
    }
    assert!(matches!(actions[50], RunAction::Finished));
    assert_eq!(session.output(), "1");
}

#[test]
fn later_steps_erase_the_output_first() {
    let code = "+".repeat(10) + ".." ;
    let (mut session, _) = RunSession::new(code.as_bytes(), b"", false, 65, false);
    let actions = run_all(&mut session);
    match &actions[11] {
        RunAction::Stepped { erase, show, .. } => {
            assert_eq!(erase, b"\x1b[1A\r\x1b[K");
            assert_eq!(show, b"\n\n");
        }
        other => panic!("unexpected {:?}", other),
    }
    assert_eq!(session.output(), "\n\n");
}

#[test]
fn a_failed_step_prints_the_report_and_stops() {
    let (mut session, _) = RunSession::new(b"+]", b"", false, 65, false);
    let actions = run_all(&mut session);
    assert_eq!(actions.len(), 2);
    match &actions[1] {
        RunAction::Failed(report) => assert_eq!(report, b"Error: mismatched brackets\n"),
        other => panic!("unexpected {:?}", other),
    }
}

#[test]
fn a_run_waiting_for_input_fails() {
    let (mut session, _) = RunSession::new(b",", b"", false, 65, false);
    match session.step() {
        RunAction::Failed(report) => assert_eq!(report, b"Error: waiting for input\n"),
        other => panic!("unexpected {:?}", other),
    }
}

#[test]
fn the_tape_is_shown_before_and_after_each_step() {
    let (mut session, opening) = RunSession::new(b"+", b"", true, 9, false);
    let expected = Tape::new().chunks(9, false).display("");
    assert_eq!(opening, expected.as_bytes());
    assert_eq!(opening.iter().filter(|b| **b == b'\n').count(), 3);
    match session.step() {
        RunAction::Stepped { erase, pause, show } => {
            assert_eq!(erase, b"\x1b[1A\r\x1b[K\x1b[1A\r\x1b[K\x1b[1A\r\x1b[K");
            assert!(pause);
            let after = session.interpreter().tape().chunks(9, false).display("");
            assert_eq!(show, after.as_bytes());
            assert_eq!(session.interpreter().tape().cursor(), 0);
        }
        other => panic!("unexpected {:?}", other),
    }
    assert!(matches!(session.step(), RunAction::Finished));
}

#[test]
fn comments_change_nothing_about_a_run() {
    let (mut plain, _) = RunSession::new(b"++.", b"", false, 65, false);
    let (mut commented, _) = RunSession::new(b"add two: + + then print .", b"", false, 65, false);
    for _ in 0..4 {
        let a = format!("{:?}", plain.step());
        let b = format!("{:?}", commented.step());
        assert_eq!(a, b);
    }
    assert_eq!(plain.output(), commented.output());
}

#[test]
fn a_centered_box_lies_within_its_area() {
    for (px, py, area) in [
        (50, 50, Rect { x: 3, y: 7, width: 33, height: 17 }),
        (20, 80, Rect { x: 0, y: 0, width: 1, height: 1 }),
        (100, 0, Rect { x: 65000, y: 65000, width: 535, height: 535 }),
    ] {
        let r = centered_rect(px, py, area);
        assert!(r.x >= area.x && r.y >= area.y);
        assert!(r.x as u32 + r.width as u32 <= area.x as u32 + area.width as u32);
        assert!(r.y as u32 + r.height as u32 <= area.y as u32 + area.height as u32);
    }
}

#[test]
fn a_prompt_takes_any_character() {
    let mut dialogue = Dialogue::file_save_as(None);
    for c in "é.bf".chars() {
        assert_eq!(dialogue.on_event(KeyEvent::plain(KeyCode::Char(c))), DialogueCommand::Continue);
    }
    dialogue.on_event(KeyEvent {
        code: KeyCode::Char('x'),
        modifiers: KeyModifiers { shift: false, control: false, alt: true },
    });
    match dialogue.kind() {
        DialogueKind::FileSaveAs(prompt) => assert_eq!(prompt.input().text(), "é.bf"),
        other => panic!("unexpected {:?}", other),
    }
    assert_eq!(
        dialogue.on_event(KeyEvent::plain(KeyCode::Enter)),
        DialogueCommand::FileSaveAsSubmitted(String::from("é.bf"))
    );
}

#[test]
fn a_dialogue_with_many_buttons_wraps_its_focus() {
    let buttons = vec![DialogueButton::Yes; 300];
    let mut prompt = PromptDialogueState::new(String::from("?"), buttons, LineInput::new());
    prompt.focus_prev();
    assert_eq!(prompt.cursor(), bf::dialogue::PromptDialogueCursor::Button(299));
    prompt.focus_next();
    assert_eq!(prompt.cursor(), bf::dialogue::PromptDialogueCursor::Input);
}

#[test]
fn a_centered_box_is_placed_by_rounded_percentages() {
    let area = Rect { x: 0, y: 0, width: 100, height: 100 };
    assert_eq!(centered_rect(50, 50, area), Rect { x: 25, y: 25, width: 50, height: 50 });
    let area = Rect { x: 3, y: 7, width: 33, height: 17 };
    // rows 17 * 25/100 = 4.25 -> 4, 17 * 75/100 = 12.75 -> 13; columns 33 * 25/100 = 8.25 -> 8, 24.75 -> 25
    assert_eq!(centered_rect(50, 50, area), Rect { x: 11, y: 11, width: 17, height: 9 });
}

/// The placement `centered_rect` states: each boundary of a band is the
/// area's start plus its size times the percentages before it, in
/// hundredths, rounded half up.
fn expected_centered(px: u16, py: u16, area: Rect) -> Rect {
    let cut = |size: u32, p: u32| (size * p + 50) / 100;
    let sy = (100 - py as u32) / 2;
    let (top, bottom) = (cut(area.height as u32, sy), cut(area.height as u32, sy + py as u32));
    let sx = (100 - px as u32) / 2;
    let (left, right) = (cut(area.width as u32, sx), cut(area.width as u32, sx + px as u32));
    Rect {
        x: area.x + left as u16,
        y: area.y + top as u16,
        width: (right - left) as u16,
        height: (bottom - top) as u16,
    }
}

#[test]
fn centered_boxes_follow_the_rounded_percentages() {
    for width in 0..90u16 {
        for height in [0u16, 1, 2, 3, 7, 10, 17, 24, 40, 51] {
            for (px, py) in [(50, 50), (10, 90), (33, 67), (100, 0), (75, 25), (1, 99)] {
                let area = Rect { x: 2, y: 5, width, height };
                assert_eq!(centered_rect(px, py, area), expected_centered(px, py, area), "{px} {py} {width} {height}");
            }
        }
    }
}
