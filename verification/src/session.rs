//! A run of a script on the terminal, step by step: what each step of the
//! interpreter has the terminal erase, show and print.
use vstd::prelude::*;

use crate::interpreter::{error_report, step, Interpreter, InterpreterView};
use crate::lines::{ends_with_eol_spec, lemma_lines_of_props, lines_of};
use crate::printer::{after_print, after_reset, print_body, reset_output, Printer};
use crate::run::{lemma_run_add, lemma_run_one, run, start};
use crate::tape::{chunk_count, lemma_chunk_index, min, rows_of, rows_text, tape_wf, widget_for, window_spec};
use crate::widgets::{cell_text, law_printable_bytes_show_as_characters, CellWidget};
use vstd::arithmetic::div_mod::lemma_fundamental_div_mod;
use vstd::string::StrSliceExecFns;
use vstd::utf8::encode_utf8;

verus! {

/// The tape as the run shows it in a terminal of `width` columns: rows of
/// as many cells as fit, three lines each.
pub open spec fn tape_text(t: (Seq<u8>, int), width: i32, ascii: bool) -> Seq<char> {
    let size = (width - 1) / 4;
    rows_text(
        Seq::new(chunk_count(t.0.len() as int, size) as nat, |k: int| window_spec(t, k * size, size, ascii)),
        ""@,
    )
}

/// What the terminal is asked to do after a step.
#[derive(Debug)]
pub enum RunAction {
    /// The program has ended; nothing is to be printed.
    Finished,
    /// The step failed: write these bytes (the error report) and stop.
    Failed(Vec<u8>),
    /// The step went through: write `erase`, wait if `pause`, then write
    /// `show` (the tape, if shown, and the output so far).
    Stepped { erase: Vec<u8>, pause: bool, show: Vec<u8> },
    /// The screen would hold more lines than can be counted; nothing is to
    /// be printed.
    TooMuchOutput,
}

/// A `RunAction` as values.
pub enum RunActionView {
    Finished,
    Failed(Seq<u8>),
    Stepped { erase: Seq<u8>, pause: bool, show: Seq<u8> },
    TooMuchOutput,
}

pub open spec fn run_action_view(a: RunAction) -> RunActionView {
    match a {
        RunAction::Finished => RunActionView::Finished,
        RunAction::Failed(b) => RunActionView::Failed(b@),
        RunAction::Stepped { erase, pause, show } => RunActionView::Stepped { erase: erase@, pause, show: show@ },
        RunAction::TooMuchOutput => RunActionView::TooMuchOutput,
    }
}

/// A session as values: the run, the printer, how the tape is shown, and
/// where the run began and how many steps it has taken.
pub struct SessionView {
    pub state: InterpreterView,
    pub printer: Printer,
    pub show_tape: bool,
    pub width: i32,
    pub ascii_values: bool,
    pub origin: InterpreterView,
    pub steps: nat,
}

/// The bytes of the tape as the session shows it: none unless it shows
/// the tape.
pub open spec fn shown_tape(v: SessionView, t: (Seq<u8>, int)) -> Seq<u8> {
    if v.show_tape {
        encode_utf8(tape_text(t, v.width, v.ascii_values))
    } else {
        Seq::empty()
    }
}

/// The bytes that `Printer::print` writes for `data`.
pub open spec fn printed_bytes(data: Seq<u8>) -> Seq<u8> {
    print_body(lines_of(data), ends_with_eol_spec(data))
}

/// One step of a session: the interpreter takes a step; at the end nothing
/// is printed; an error is printed as its report; otherwise what was
/// printed is erased and the tape (if shown) and the output so far are
/// printed again. Printing that would count more lines than a `usize`
/// holds is not done.
pub open spec fn session_step(v: SessionView) -> (SessionView, RunActionView) {
    let (w, r) = step(v.state);
    let next = SessionView { state: w, steps: v.steps + 1, ..v };
    match r {
        None => (next, RunActionView::Finished),
        Some(Err(e)) => {
            let report = encode_utf8(error_report(e));
            if v.printer.lines_printed + report.len() <= usize::MAX {
                (
                    SessionView { printer: after_print(v.printer, report), ..next },
                    RunActionView::Failed(printed_bytes(report)),
                )
            } else {
                (next, RunActionView::TooMuchOutput)
            }
        },
        Some(Ok(_)) => {
            let t = shown_tape(v, w.tape);
            let o = encode_utf8(w.output);
            if t.len() + o.len() <= usize::MAX {
                (
                    SessionView { printer: after_print(after_print(after_reset(v.printer), t), o), ..next },
                    RunActionView::Stepped {
                        erase: reset_output(v.printer),
                        pause: v.show_tape,
                        show: printed_bytes(t) + printed_bytes(o),
                    },
                )
            } else {
                (next, RunActionView::TooMuchOutput)
            }
        },
    }
}

/// A run of a script on the terminal.
pub struct RunSession {
    interpreter: Interpreter,
    printer: Printer,
    show_tape: bool,
    width: i32,
    ascii_values: bool,
    origin: Ghost<InterpreterView>,
    steps: Ghost<nat>,
}

impl View for RunSession {
    type V = SessionView;

    closed spec fn view(&self) -> SessionView {
        SessionView {
            state: self.interpreter@,
            printer: self.printer,
            show_tape: self.show_tape,
            width: self.width,
            ascii_values: self.ascii_values,
            origin: self.origin@,
            steps: self.steps@,
        }
    }
}

/// Whatever a session does, its run is the reference run: the state is the
/// one `steps` steps lead to from where the run began, and the tape can be
/// drawn if it is shown.
pub open spec fn session_wf(v: SessionView) -> bool {
    &&& v.state == run(v.origin, v.steps)
    &&& (v.show_tape ==> v.width >= 5)
}

impl RunSession {
    /// The bytes that print the tape as shown, if it is.
    fn tape_bytes(&self) -> (b: Vec<u8>)
        requires
            session_wf(self@),
        ensures
            b@ == shown_tape(self@, self@.state.tape),
    {
        if self.show_tape {
            let rows = self.interpreter.tape().chunks(self.width, self.ascii_values);
            let ghost t = self@.state.tape;
            let ghost size = (self.width - 1) / 4;
            assert(rows_of(rows.0@) =~= Seq::new(
                chunk_count(t.0.len() as int, size) as nat,
                |k: int| window_spec(t, k * size, size, self.ascii_values),
            ));
            let text = rows.display("");
            text.as_str().as_bytes_vec()
        } else {
            Vec::new()
        }
    }

    /// A session running `code` on `input`, from its first instruction;
    /// also the bytes that show the tape before the first step (none unless
    /// the tape is shown).
    pub fn new(code: &[u8], input: &[u8], show_tape: bool, width: i32, ascii_values: bool) -> (r: (Self, Vec<u8>))
        requires
            show_tape ==> width >= 5,
        ensures
            r.0@.state == start(code@, input@, None),
            r.0@.origin == start(code@, input@, None),
            r.0@.steps == 0,
            r.0@.show_tape == show_tape,
            r.0@.width == width,
            r.0@.ascii_values == ascii_values,
            r.0@.printer == after_print(Printer { lines_printed: 0, has_final_eol: true }, shown_tape(r.0@, r.0@.state.tape)),
            r.1@ == printed_bytes(shown_tape(r.0@, r.0@.state.tape)),
            session_wf(r.0@),
    {
        let interpreter = Interpreter::new(code, input, None);
        let ghost origin = interpreter@;
        let mut session = RunSession {
            interpreter,
            printer: Printer::new(),
            show_tape,
            width,
            ascii_values,
            origin: Ghost(origin),
            steps: Ghost(0),
        };
        let tape = session.tape_bytes();
        let _n = tape.len();
        proof {
            lemma_lines_of_props(tape@);
        }
        let opening = session.printer.print(tape.as_slice());
        (session, opening)
    }

    /// Takes one step of the run (see `session_step`).
    pub fn step(&mut self) -> (a: RunAction)
        requires
            session_wf(old(self)@),
        ensures
            (final(self)@, run_action_view(a)) == session_step(old(self)@),
            session_wf(final(self)@),
    {
        let ghost v = self@;
        let r = self.interpreter.next();
        proof {
            lemma_run_add(v.origin, v.steps, 1);
            lemma_run_one(v.state);
            self.steps@ = self.steps@ + 1;
        }
        match r {
            None => RunAction::Finished,
            Some(Err(e)) => {
                let report = e.report();
                let bytes = report.as_str().as_bytes();
                if self.printer.lines_printed <= usize::MAX - bytes.len() {
                    proof {
                        lemma_lines_of_props(bytes@);
                    }
                    RunAction::Failed(self.printer.print(bytes))
                } else {
                    RunAction::TooMuchOutput
                }
            },
            Some(Ok(_)) => {
                let tape = self.tape_bytes();
                let output = self.interpreter.output().as_str().as_bytes();
                if tape.len() <= usize::MAX - output.len() {
                    proof {
                        lemma_lines_of_props(tape@);
                        lemma_lines_of_props(output@);
                    }
                    let erase = self.printer.reset();
                    let mut show = self.printer.print(tape.as_slice());
                    let mut more = self.printer.print(output);
                    show.append(&mut more);
                    RunAction::Stepped { erase, pause: self.show_tape, show }
                } else {
                    RunAction::TooMuchOutput
                }
            },
        }
    }

    /// Everything the run has printed so far.
    pub fn output(&self) -> (o: &String)
        ensures
            o@ == self@.state.output,
    {
        self.interpreter.output()
    }

    /// The run's interpreter.
    pub fn interpreter(&self) -> (i: &Interpreter)
        ensures
            i@ == self@.state,
    {
        &self.interpreter
    }
}

/// The tape a session shows is drawn with the session's own ASCII setting:
/// it is rows of drawn cells, and cell `j` of the tape stands in row
/// `j / size`, place `j % size` (`size` cells to a row), drawn from its own
/// value in ASCII mode exactly when the session asks for it. So with ASCII
/// asked for, a printable byte (33 to 126) shows as its character between
/// two spaces.
pub proof fn law_shown_tape_follows_the_ascii_setting(v: SessionView, t: (Seq<u8>, int), j: int)
    requires
        v.show_tape,
        v.width >= 5,
        tape_wf(t),
        0 <= j < t.0.len(),
    ensures
        exists|rows: Seq<Seq<CellWidget>>|
            #![trigger rows_text(rows, ""@)]
            {
                let size = (v.width - 1) / 4;
                let w = rows[j / size][j % size];
                &&& shown_tape(v, t) == encode_utf8(rows_text(rows, ""@))
                &&& 0 <= j / size < rows.len()
                &&& 0 <= j % size < rows[j / size].len()
                &&& w.value == t.0[j]
                &&& w.ascii == v.ascii_values
                &&& (v.ascii_values && 33 <= t.0[j] <= 126 ==> cell_text(w.value, w.ascii) == seq![
                    ' ',
                    t.0[j] as char,
                    ' ',
                ])
            },
{
    let size = (v.width - 1) / 4;
    let len = t.0.len() as int;
    let rows = Seq::new(
        chunk_count(len, size) as nat,
        |k: int| window_spec(t, k * size, size, v.ascii_values),
    );
    let k = j / size;
    let q = j % size;
    lemma_fundamental_div_mod(j, size);
    assert(0 <= k && 0 <= q < size) by {
        vstd::arithmetic::div_mod::lemma_div_pos_is_pos(j, size);
        vstd::arithmetic::div_mod::lemma_mod_bound(j, size);
    }
    assert(k * size <= j) by (nonlinear_arith)
        requires
            j == size * k + q,
            0 <= q,
    ;
    lemma_chunk_index(k, size, len);
    assert(rows[k] == window_spec(t, k * size, size, v.ascii_values));
    assert(rows[k][q] == widget_for(t, j, min(k * size + size - 1, len - 1), v.ascii_values));
    law_printable_bytes_show_as_characters(t.0[j]);
    assert(shown_tape(v, t) == encode_utf8(rows_text(rows, ""@)));
}

/// After each step a session either says the run has ended (exactly when
/// the program has), or prints the error report and stops (exactly when
/// the step failed), or first erases all it had shown, waits only when the
/// tape is shown, and shows the output so far; printed output without
/// carriage returns comes out byte for byte, after the tape if it is shown.
pub proof fn law_session_shows_each_step(v: SessionView)
    ensures
        ({
            let (w, a) = session_step(v);
            let (u, r) = step(v.state);
            &&& w.state == u && w.steps == v.steps + 1
            &&& (a is Finished <==> r is None)
            &&& (a matches RunActionView::Failed(b) ==> r matches Some(Err(e)) && b == printed_bytes(
                encode_utf8(error_report(e)),
            ))
            &&& (a matches RunActionView::Stepped { erase, pause, show } ==> {
                &&& r matches Some(Ok(_))
                &&& erase == reset_output(v.printer)
                &&& pause == v.show_tape
                &&& show == printed_bytes(shown_tape(v, u.tape)) + printed_bytes(encode_utf8(u.output))
                &&& (!v.show_tape && (forall|i: int|
                    0 <= i < encode_utf8(u.output).len() ==> encode_utf8(u.output)[i] != 13) ==> show
                    == encode_utf8(u.output))
            })
        }),
{
    let (u, r) = step(v.state);
    let o = encode_utf8(u.output);
    if !v.show_tape && (forall|i: int| 0 <= i < o.len() ==> o[i] != 13) {
        crate::printer::law_print_writes_the_data(o);
        assert(lines_of(Seq::<u8>::empty()) =~= Seq::<Seq<u8>>::empty());
        assert(printed_bytes(Seq::<u8>::empty()) =~= Seq::<u8>::empty());
        assert(Seq::<u8>::empty() + o =~= o);
    }
}

} // verus!

