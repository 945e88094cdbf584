use bf::playground::{Playground, PlaygroundInput};

fn typed(p: &mut Playground, text: &str) {
    for c in text.chars() {
        assert!(!p.on_input(PlaygroundInput::Character(c)));
    }
}

#[test]
fn only_instructions_are_typed() {
    let mut p = Playground::new(false);
    typed(&mut p, "+a+ [x].!");
    assert_eq!(p.code().data(), "++[].");
    assert_eq!(p.code().cursor(), 5);
}

#[test]
fn control_keys_move_and_switch() {
    let mut p = Playground::new(false);
    typed(&mut p, "+-");
    p.on_input(PlaygroundInput::Character('\u{8}'));
    assert_eq!(p.code().cursor(), 0);
    typed(&mut p, ">");
    assert_eq!(p.code().data(), ">+-");
    p.on_input(PlaygroundInput::Character('\u{c}'));
    assert_eq!(p.code().cursor(), 3);
    assert!(!p.ascii_values());
    p.on_input(PlaygroundInput::Character('\u{1}'));
    assert!(p.ascii_values());
}

#[test]
fn arrows_and_erasing() {
    let mut p = Playground::new(true);
    typed(&mut p, "+-<");
    p.on_input(PlaygroundInput::Left);
    p.on_input(PlaygroundInput::Backspace);
    assert_eq!(p.code().data(), "+<");
    assert_eq!(p.code().cursor(), 1);
    p.on_input(PlaygroundInput::Delete);
    assert_eq!(p.code().data(), "+");
    p.on_input(PlaygroundInput::Right);
    assert_eq!(p.code().cursor(), 1);
    p.on_input(PlaygroundInput::Other);
    assert_eq!(p.code().data(), "+");
}

#[test]
fn q_and_control_c_quit() {
    let mut p = Playground::new(false);
    assert!(p.on_input(PlaygroundInput::Character('q')));
    assert!(p.on_input(PlaygroundInput::Character('\u{3}')));
    assert_eq!(p.code().data(), "");
}
