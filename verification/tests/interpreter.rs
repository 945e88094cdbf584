use bf::generate::{generate_script, generator_charwise, generator_linewise, generator_unique_chars};
use bf::interpreter::{ExecError, Interpreter};
use bf::live::{advance, Status};
use bf::program::{build_bracemap, is_instruction, sanitize};
use bf::run::tape_from_script;

/// Runs `code` to its end (or first error) and returns what it printed.
fn run_to_end(code: &[u8], input: &[u8]) -> (String, Option<ExecError>) {
    let mut interpreter = Interpreter::new(code, input, None);
    for _ in 0..10_000_000 {
        match interpreter.next() {
            None => return (interpreter.output().clone(), None),
            Some(Err(e)) => return (interpreter.output().clone(), Some(e)),
            Some(Ok(_)) => {}
        }
    }
    panic!("the script did not finish");
}

fn printed(data: &[u8]) -> String {
    data.iter().map(|b| *b as char).collect()
}

#[test]
fn prints_a_capital_a_and_a_newline() {
    let (out, err) = run_to_end(b"++++++++[>+>++++++++<<-]>++>+.<.", b"");
    assert_eq!(out, "A\n");
    assert_eq!(err, None);
}

#[test]
fn comments_are_ignored() {
    assert_eq!(sanitize(b"a+b-c>d<e[f]g.h,i"), b"+-><[].,".to_vec());
    assert!(is_instruction(&b'['));
    assert!(!is_instruction(&b'x'));
}

#[test]
fn reads_input_and_then_the_automatic_byte() {
    let mut interpreter = Interpreter::new(b",.,.,.", b"hi", Some(b'!'));
    let mut steps = 0;
    while interpreter.next().is_some() {
        steps += 1;
        assert!(steps < 100);
    }
    assert_eq!(interpreter.output(), "hi!");
}

#[test]
fn waits_for_input_without_changing_its_state() {
    let mut interpreter = Interpreter::new(b"+,.", b"", None);
    assert_eq!(interpreter.next(), Some(Ok('+')));
    assert_eq!(interpreter.next(), Some(Err(ExecError::InputNeeded)));
    assert_eq!(interpreter.ip(), 1);
    assert_eq!(interpreter.next(), Some(Err(ExecError::InputNeeded)));
    assert_eq!(interpreter.ip(), 1);
    interpreter.provide_input(b'x');
    assert_eq!(interpreter.next(), Some(Ok(',')));
    assert_eq!(interpreter.next(), Some(Ok('.')));
    assert_eq!(interpreter.next(), None);
    assert!(interpreter.is_done());
    assert_eq!(interpreter.output(), "x");
}

#[test]
fn mismatched_brackets_are_an_error() {
    let (_, err) = run_to_end(b"+[", b"");
    assert_eq!(err, Some(ExecError::MismatchedBrackets));
    let (_, err) = run_to_end(b"+]", b"");
    assert_eq!(err, Some(ExecError::MismatchedBrackets));
}

#[test]
fn a_loop_that_cannot_change_a_cell_is_an_error() {
    let (_, err) = run_to_end(b"+[>]", b"");
    assert_eq!(err, Some(ExecError::InfiniteLoop));
}

#[test]
fn error_messages() {
    assert_eq!(ExecError::MismatchedBrackets.message(), "mismatched brackets");
    assert_eq!(ExecError::InfiniteLoop.message(), "infinite loop");
    assert_eq!(ExecError::InputNeeded.message(), "waiting for input");
}

#[test]
fn the_tape_grows_to_the_right_and_stops_at_the_left_end() {
    let tape = tape_from_script("<<>>+>", 100);
    assert_eq!(tape.len(), 4);
    assert_eq!(tape.cursor(), 3);
    assert_eq!(tape.value_at(1), 0);
    assert_eq!(tape.value_at(2), 1);
    let tape = tape_from_script("<<+", 100);
    assert_eq!(tape.cursor(), 0);
    assert_eq!(tape.value_at(0), 1);
}

#[test]
fn tape_from_script_stops_after_the_given_steps() {
    let tape = tape_from_script("+++++", 2);
    assert_eq!(tape.value_at(0), 2);
}

#[test]
fn cells_wrap_around() {
    let tape = tape_from_script("-", 10);
    assert_eq!(tape.value_at(0), 255);
}

#[test]
fn jump_table_pairs_each_bracket_with_its_partner() {
    let code = b"[[]][";
    let map = build_bracemap(code);
    assert_eq!(map.get(&0), Some(&3));
    assert_eq!(map.get(&3), Some(&0));
    assert_eq!(map.get(&1), Some(&2));
    assert_eq!(map.get(&2), Some(&1));
    assert_eq!(map.get(&4), None);
    for (a, b) in map.iter() {
        assert_eq!(map.get(b), Some(a));
    }
}

#[test]
fn advance_reports_the_status() {
    let mut interpreter = Interpreter::new(b"+]", b"", None);
    assert!(matches!(advance(&mut interpreter), Status::Running));
    match advance(&mut interpreter) {
        Status::Error(m) => assert_eq!(m, "mismatched brackets"),
        other => panic!("unexpected status {:?}", other),
    }
    let mut interpreter = Interpreter::new(b"", b"", None);
    assert!(matches!(advance(&mut interpreter), Status::Done));
    let mut interpreter = Interpreter::new(b",", b"", None);
    assert!(matches!(advance(&mut interpreter), Status::WaitingForInput));
}

#[test]
fn charwise_script_prints_the_data() {
    for data in ["Hello, World!\n", "", "\u{0}\u{1}\u{fe}", "abc\r\ndef", "π ≈ 3.14 🦀"] {
        let script = generator_charwise(data);
        let (out, err) = run_to_end(script.as_bytes(), b"");
        assert_eq!(err, None);
        assert_eq!(out, printed(data.as_bytes()));
    }
}

#[test]
fn charwise_script_for_a_letter() {
    assert_eq!(generator_charwise("A"), "++++++++++[>+++++++<-]>-----<>.>\n");
}

#[test]
fn unique_chars_script_prints_the_data() {
    for data in ["abracadabra", "", "zzz\n", "\u{0} \u{fe}", "ünïcödé"] {
        let script = generator_unique_chars(data);
        let (out, err) = run_to_end(script.as_bytes(), b"");
        assert_eq!(err, None);
        assert_eq!(out, printed(data.as_bytes()));
    }
}

#[test]
fn unique_chars_script_for_two_letters() {
    assert_eq!(generator_unique_chars("ba"), "++++++++++[>++++++++++>++++++++++<<-]>--->--<<>>.<.\n");
}

#[test]
fn linewise_script_prints_text_without_crlf_unchanged() {
    for data in ["one\ntwo\n", "one\ntwo", "", "\n\n", "single", "tab\there\r\n"] {
        let script = generator_linewise(data);
        let (out, err) = run_to_end(script.as_bytes(), b"");
        assert_eq!(err, None);
        assert_eq!(out, printed(data.as_bytes()));
    }
}

#[test]
fn linewise_script_keeps_crlf_line_endings() {
    let data = "one\r\ntwo\r\n";
    let (out, err) = run_to_end(generator_linewise(data).as_bytes(), b"");
    assert_eq!(err, None);
    assert_eq!(out, "one\r\ntwo\r\n");
}

#[test]
fn linewise_script_uses_crlf_for_every_line_once_the_text_has_one() {
    let data = "a\r\nb\nc";
    let (out, _) = run_to_end(generator_linewise(data).as_bytes(), b"");
    assert_eq!(out, "a\r\nb\r\nc");
}

#[test]
fn moving_right_and_back_left_keeps_the_cells() {
    let tape = tape_from_script("+++><", 100);
    assert_eq!(tape.cursor(), 0);
    assert_eq!(tape.value_at(0), 3);
    assert_eq!(tape.value_at(1), 0);
    assert_eq!(tape.len(), 2);
}

#[test]
fn an_error_is_reported_on_its_own_line() {
    assert_eq!(ExecError::InfiniteLoop.report(), "Error: infinite loop\n");
    assert_eq!(ExecError::MismatchedBrackets.report(), "Error: mismatched brackets\n");
}

#[test]
fn generate_script_follows_the_options() {
    assert_eq!(generate_script("charwise", false, "A"), Ok(generator_charwise("A")));
    assert_eq!(generate_script("charwise", true, "A"), Ok(generator_charwise("A\n")));
    assert_eq!(generate_script("linewise", true, "A\n"), Ok(generator_linewise("A\n")));
    assert_eq!(generate_script("unique-chars", false, "ab"), Ok(generator_unique_chars("ab")));
    assert_eq!(
        generate_script("wordwise", false, "A"),
        Err(String::from("invalid mode (impossible): wordwise"))
    );
}

#[test]
fn generated_scripts_have_one_loop_and_one_print_per_byte() {
    for data in ["abracadabra", "", "Hello, World!\n", "ünï"] {
        for script in [generator_charwise(data), generator_unique_chars(data)] {
            assert_eq!(script.matches('[').count(), 1);
            assert_eq!(script.matches('.').count(), data.len());
            assert!(script.ends_with('\n'));
            assert!(script[..script.len() - 1].chars().all(|c| "+-<>[].,".contains(c)));
        }
        assert!(generator_linewise(data).ends_with('\n'));
    }
}

#[test]
fn a_generated_script_never_fails_on_the_way() {
    let script = generator_unique_chars("never fails");
    let mut interpreter = Interpreter::new(script.as_bytes(), b"", None);
    loop {
        match interpreter.next() {
            None => break,
            Some(result) => assert!(result.is_ok()),
        }
    }
    assert_eq!(interpreter.output(), "never fails");
}
