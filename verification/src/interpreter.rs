//! The interpreter: the semantics of one step, and the interpreter that
//! carries it out.
use std::collections::HashMap;
use std::collections::VecDeque;

use vstd::prelude::*;
use vstd::string::StringExecFns;

use crate::program::{
    balanced, build_bracemap, is_bracemap, law_balanced_brackets_pair_up, lemma_paired_partner_unique, paired, sanitize, sanitized,
};
use crate::tape::{tape_wf, Tape};
use crate::text::push_char;

verus! {

broadcast use vstd::std_specs::hash::group_hash_axioms;

/// Why the interpreter could not carry out the instruction at the
/// instruction pointer. The instruction pointer stays where it is, so a
/// later call meets the same condition unless something changes.
#[derive(Clone, Copy, Debug, PartialEq, Eq, Structural)]
pub enum ExecError {
    /// A bracket without a partner.
    MismatchedBrackets,
    /// A loop whose body holds neither `+` nor `-`.
    InfiniteLoop,
    /// A `,` with no input left and no automatic input byte.
    InputNeeded,
}

/// The message shown for an error.
pub open spec fn error_message(e: ExecError) -> Seq<char> {
    match e {
        ExecError::MismatchedBrackets => "mismatched brackets"@,
        ExecError::InfiniteLoop => "infinite loop"@,
        ExecError::InputNeeded => "waiting for input"@,
    }
}

/// How a run that stopped on an error reports it: `Error: `, the message
/// and a line ending.
pub open spec fn error_report(e: ExecError) -> Seq<char> {
    "Error: "@ + error_message(e) + "\n"@
}

impl ExecError {
    /// The report printed when a run stops on this error (see
    /// `error_report`).
    pub fn report(&self) -> (s: String)
        ensures
            s@ == error_report(*self),
    {
        let mut s = String::from_str("Error: ");
        s.append(self.message());
        s.append("\n");
        s
    }

    /// The message shown for the error.
    pub fn message(&self) -> (s: &'static str)
        ensures
            s@ == error_message(*self),
    {
        match self {
            ExecError::MismatchedBrackets => "mismatched brackets",
            ExecError::InfiniteLoop => "infinite loop",
            ExecError::InputNeeded => "waiting for input",
        }
    }
}

/// The state of a run, as a mathematical value.
pub struct InterpreterView {
    /// The program, with everything but the eight instructions dropped.
    pub instructions: Seq<u8>,
    /// The index of the next instruction.
    pub ip: int,
    /// The cell values and the cursor.
    pub tape: (Seq<u8>, int),
    /// The input bytes not read yet.
    pub input: Seq<u8>,
    /// The byte that `,` reads once the input is used up, if any.
    pub auto_input: Option<u8>,
    /// What `.` has printed so far.
    pub output: Seq<char>,
}

/// Where the bracket at `ip` sends the instruction pointer when it jumps:
/// just past its partner. A bracket without a partner is an error, and so
/// is a loop whose body can never change a cell (no `+` or `-` in it).
pub open spec fn jump_target(s: Seq<u8>, ip: int) -> Result<int, ExecError> {
    if exists|j: int| paired(s, ip, j) {
        let p = choose|j: int| paired(s, ip, j);
        let b = if ip < p { ip + 1 } else { p + 1 };
        let e = if ip < p { p } else { ip };
        if exists|k: int| b <= k < e && (s[k] == 43 || s[k] == 45) {
            Ok(p + 1)
        } else {
            Err(ExecError::InfiniteLoop)
        }
    } else {
        Err(ExecError::MismatchedBrackets)
    }
}

/// The tape after the cell under the cursor is set to `v`.
pub open spec fn tape_set(t: (Seq<u8>, int), v: u8) -> (Seq<u8>, int) {
    (t.0.update(t.1, v), t.1)
}

/// The tape after the cursor moves right, growing by a zero cell at the end.
pub open spec fn tape_right(t: (Seq<u8>, int)) -> (Seq<u8>, int) {
    (if t.1 + 1 == t.0.len() { t.0.push(0u8) } else { t.0 }, t.1 + 1)
}

/// The tape after the cursor moves left, staying put at the first cell.
pub open spec fn tape_left(t: (Seq<u8>, int)) -> (Seq<u8>, int) {
    (t.0, if t.1 == 0 { 0 } else { t.1 - 1 })
}

/// One step of a Brainfuck run: the state afterwards and what the step
/// reports — nothing once the program has ended, the instruction carried
/// out, or the reason it could not be.
pub open spec fn step(v: InterpreterView) -> (InterpreterView, Option<Result<char, ExecError>>) {
    if v.ip < 0 || v.ip >= v.instructions.len() {
        (v, None)
    } else {
        let c = v.instructions[v.ip];
        let cur = v.tape.0[v.tape.1];
        let next = v.ip + 1;
        if c == 43 {
            (InterpreterView { tape: tape_set(v.tape, ((cur + 1) % 256) as u8), ip: next, ..v }, Some(Ok('+')))
        } else if c == 45 {
            (InterpreterView { tape: tape_set(v.tape, ((cur + 255) % 256) as u8), ip: next, ..v }, Some(Ok('-')))
        } else if c == 62 {
            (InterpreterView { tape: tape_right(v.tape), ip: next, ..v }, Some(Ok('>')))
        } else if c == 60 {
            (InterpreterView { tape: tape_left(v.tape), ip: next, ..v }, Some(Ok('<')))
        } else if c == 91 {
            match jump_target(v.instructions, v.ip) {
                Err(e) => (v, Some(Err(e))),
                Ok(t) => (InterpreterView { ip: if cur == 0 { t } else { next }, ..v }, Some(Ok('['))),
            }
        } else if c == 93 {
            match jump_target(v.instructions, v.ip) {
                Err(e) => (v, Some(Err(e))),
                Ok(t) => (InterpreterView { ip: if cur != 0 { t } else { next }, ..v }, Some(Ok(']'))),
            }
        } else if c == 46 {
            (InterpreterView { output: v.output.push(cur as char), ip: next, ..v }, Some(Ok('.')))
        } else if c == 44 {
            if v.input.len() > 0 {
                (
                    InterpreterView {
                        tape: tape_set(v.tape, v.input[0]),
                        input: v.input.drop_first(),
                        ip: next,
                        ..v
                    },
                    Some(Ok(',')),
                )
            } else {
                match v.auto_input {
                    Some(b) => (InterpreterView { tape: tape_set(v.tape, b), ip: next, ..v }, Some(Ok(','))),
                    None => (v, Some(Err(ExecError::InputNeeded))),
                }
            }
        } else {
            (v, None)
        }
    }
}

/// A sanitized program together with its jump table.
pub struct Program {
    instructions: Vec<u8>,
    bracemap: HashMap<usize, usize>,
}

impl Program {
    #[verifier::type_invariant]
    spec fn inv(&self) -> bool {
        is_bracemap(self.instructions@, self.bracemap@)
    }

    pub closed spec fn spec_instructions(&self) -> Seq<u8> {
        self.instructions@
    }

    /// The instructions of `code`, paired up.
    pub fn new(code: &[u8]) -> (p: Self)
        ensures
            p.spec_instructions() == sanitized(code@),
    {
        let instructions = sanitize(code);
        let bracemap = build_bracemap(instructions.as_slice());
        Program { instructions, bracemap }
    }

    /// The number of instructions.
    pub fn len(&self) -> (n: usize)
        ensures
            n == self.spec_instructions().len(),
    {
        self.instructions.len()
    }

    /// The instruction at `i`.
    pub fn get(&self, i: usize) -> (c: u8)
        requires
            i < self.spec_instructions().len(),
        ensures
            c == self.spec_instructions()[i as int],
    {
        self.instructions[i]
    }

    /// The partner of the bracket at `ip`, if it has one.
    pub fn partner(&self, ip: usize) -> (r: Option<usize>)
        ensures
            match r {
                Some(p) => paired(self.spec_instructions(), ip as int, p as int),
                None => forall|j: int| !paired(self.spec_instructions(), ip as int, j),
            },
    {
        broadcast use vstd::std_specs::hash::axiom_usize_obeys_hash_table_key_model;

        proof {
            use_type_invariant(self);
        }
        let ghost s = self.instructions@;
        let _n = self.instructions.len();
        match self.bracemap.get(&ip) {
            Some(p) => Some(*p),
            None => {
                assert forall|j: int| !paired(s, ip as int, j) by {
                    if paired(s, ip as int, j) {
                        assert(0 <= j < s.len());
                        assert(s.len() <= usize::MAX);
                        assert(paired(s, ip as int, (j as usize) as int));
                    }
                }
                None
            },
        }
    }

    /// Where the bracket at `ip` jumps: just past its partner, unless it has
    /// none or the loop it delimits holds no `+` or `-`.
    pub fn jump_bracket(&self, ip: usize) -> (r: Result<usize, ExecError>)
        ensures
            match r {
                Ok(t) => jump_target(self.spec_instructions(), ip as int) == Ok::<int, ExecError>(t as int),
                Err(e) => jump_target(self.spec_instructions(), ip as int) == Err::<int, ExecError>(e),
            },
    {
        let ghost s = self.spec_instructions();
        let _n = self.len();
        match self.partner(ip) {
            None => Err(ExecError::MismatchedBrackets),
            Some(next) => {
                proof {
                    let c = choose|j: int| paired(s, ip as int, j);
                    lemma_paired_partner_unique(s, ip as int, next as int, c);
                }
                let (begin, end) = if ip < next { (ip + 1, next) } else { (next + 1, ip) };
                let mut k = begin;
                let mut found = false;
                while k < end
                    invariant
                        s == self.spec_instructions(),
                        begin <= k <= end || (k == begin && end <= begin),
                        end < s.len(),
                        found <==> exists|q: int| begin <= q < k && (s[q] == 43 || s[q] == 45),
                    decreases end - k,
                {
                    let c = self.get(k);
                    if c == 43 || c == 45 {
                        found = true;
                    }
                    k += 1;
                }
                if found {
                    Ok(next + 1)
                } else {
                    Err(ExecError::InfiniteLoop)
                }
            },
        }
    }
}

/// A Brainfuck run in progress.
pub struct Interpreter {
    program: Program,
    ip: usize,
    tape: Tape,
    input: VecDeque<u8>,
    auto_input: Option<u8>,
    output: String,
}

impl View for Interpreter {
    type V = InterpreterView;

    closed spec fn view(&self) -> InterpreterView {
        InterpreterView {
            instructions: self.program.spec_instructions(),
            ip: self.ip as int,
            tape: self.tape@,
            input: self.input@,
            auto_input: self.auto_input,
            output: self.output@,
        }
    }
}

impl Interpreter {
    /// A run of `code` at its first instruction, on a fresh tape, reading
    /// `input` and then, once it is used up, `auto_input` if given.
    pub fn new(code: &[u8], input: &[u8], auto_input: Option<u8>) -> (i: Self)
        ensures
            i@.instructions == sanitized(code@),
            i@.ip == 0,
            i@.tape == (seq![0u8], 0int),
            i@.input == input@,
            i@.auto_input == auto_input,
            i@.output == Seq::<char>::empty(),
    {
        let mut queue: VecDeque<u8> = VecDeque::new();
        let mut k: usize = 0;
        while k < input.len()
            invariant
                k <= input.len(),
                queue@ == input@.subrange(0, k as int),
            decreases input.len() - k,
        {
            queue.push_back(input[k]);
            assert(input@.subrange(0, k as int + 1) =~= input@.subrange(0, k as int).push(input@[k as int]));
            k += 1;
        }
        assert(input@.subrange(0, input.len() as int) =~= input@);
        Interpreter {
            program: Program::new(code),
            ip: 0,
            tape: Tape::new(),
            input: queue,
            auto_input,
            output: String::new(),
        }
    }

    /// The tape.
    pub fn tape(&self) -> (t: &Tape)
        ensures
            t@ == self@.tape,
    {
        &self.tape
    }

    /// Everything printed so far.
    pub fn output(&self) -> (o: &String)
        ensures
            o@ == self@.output,
    {
        &self.output
    }

    /// The index of the next instruction.
    pub fn ip(&self) -> (ip: usize)
        ensures
            ip == self@.ip,
    {
        self.ip
    }

    /// Whether the program has run to its end.
    pub fn is_done(&self) -> (b: bool)
        ensures
            b == (self@.ip >= self@.instructions.len()),
    {
        self.ip >= self.program.len()
    }

    /// Queues one more input byte for `,` to read.
    pub fn provide_input(&mut self, b: u8)
        ensures
            final(self)@ == (InterpreterView { input: old(self)@.input.push(b), ..old(self)@ }),
    {
        self.input.push_back(b);
    }

    /// Carries out the instruction at the instruction pointer and reports
    /// it; `None` once the program has ended.
    pub fn next(&mut self) -> (r: Option<Result<char, ExecError>>)
        ensures
            (final(self)@, r) == step(old(self)@),
    {
        let n = self.program.len();
        if self.ip >= n {
            return None;
        }
        let ins = self.program.get(self.ip);
        let next_ip = self.ip + 1;
        let _ = self.tape.is_wf();
        if ins == 43 {
            self.tape.inc_current();
            self.ip = next_ip;
            Some(Ok('+'))
        } else if ins == 45 {
            self.tape.dec_current();
            self.ip = next_ip;
            Some(Ok('-'))
        } else if ins == 62 {
            self.tape.right();
            self.ip = next_ip;
            Some(Ok('>'))
        } else if ins == 60 {
            self.tape.left();
            self.ip = next_ip;
            Some(Ok('<'))
        } else if ins == 91 {
            match self.program.jump_bracket(self.ip) {
                Err(e) => Some(Err(e)),
                Ok(target) => {
                    if self.tape.current().value() == 0 {
                        self.ip = target;
                    } else {
                        self.ip = next_ip;
                    }
                    Some(Ok('['))
                },
            }
        } else if ins == 93 {
            match self.program.jump_bracket(self.ip) {
                Err(e) => Some(Err(e)),
                Ok(target) => {
                    if self.tape.current().value() != 0 {
                        self.ip = target;
                    } else {
                        self.ip = next_ip;
                    }
                    Some(Ok(']'))
                },
            }
        } else if ins == 46 {
            let c = self.tape.current().ascii();
            push_char(&mut self.output, c);
            self.ip = next_ip;
            Some(Ok('.'))
        } else if ins == 44 {
            match self.input.pop_front() {
                Some(b) => {
                    self.tape.set_current(b);
                    self.ip = next_ip;
                    Some(Ok(','))
                },
                None => match self.auto_input {
                    Some(b) => {
                        self.tape.set_current(b);
                        self.ip = next_ip;
                        Some(Ok(','))
                    },
                    None => Some(Err(ExecError::InputNeeded)),
                },
            }
        } else {
            None
        }
    }
}

/// A step that fails leaves the state as it was, so asking again meets
/// the same error until something changes (such as more input); at the
/// end of the program a step changes nothing.
pub proof fn law_failed_step_changes_nothing(v: InterpreterView)
    ensures
        step(v).1 matches Some(Err(_)) ==> step(v).0 == v,
        step(v).1 is None ==> step(v).0 == v,
        (v.ip < 0 || v.ip >= v.instructions.len()) ==> step(v) == (v, None::<Result<char, ExecError>>),
{
}

/// A step keeps the tape well formed: at least one cell, and the cursor
/// on one.
pub proof fn law_step_keeps_tape_wf(v: InterpreterView)
    requires
        tape_wf(v.tape),
    ensures
        tape_wf(step(v).0.tape),
{
}

/// Following the jump table from a bracket to its partner and back leads to
/// the bracket one started from.
pub proof fn law_jump_table_goes_back(s: Seq<u8>, m: Map<usize, usize>, a: usize)
    requires
        is_bracemap(s, m),
        m.contains_key(a),
    ensures
        m.contains_key(m[a]),
        m[m[a]] == a,
{
    let b = m[a];
    assert(paired(s, a as int, b as int));
    assert(paired(s, b as int, a as int));
    assert(m.contains_key(b) && m[b] == a);
}

/// Moving the cursor right and back left returns it to its cell, with every
/// cell's value unchanged (the move right may add a zero cell at the end).
pub proof fn law_left_undoes_right(t: (Seq<u8>, int))
    requires
        tape_wf(t),
    ensures
        ({
            let u = tape_left(tape_right(t));
            &&& u.1 == t.1
            &&& u.0.len() >= t.0.len()
            &&& forall|i: int| 0 <= i < t.0.len() ==> u.0[i] == t.0[i]
            &&& forall|i: int| t.0.len() <= i < u.0.len() ==> u.0[i] == 0
        }),
{
}

/// In a balanced program no bracket meets the mismatched-brackets error.
pub proof fn law_balanced_program_has_no_mismatch(s: Seq<u8>, ip: int)
    requires
        balanced(s),
        0 <= ip < s.len(),
        s[ip] == 91 || s[ip] == 93,
    ensures
        jump_target(s, ip) != Err::<int, ExecError>(ExecError::MismatchedBrackets),
{
    law_balanced_brackets_pair_up(s, ip);
}

/// The loop between a bracket at `ip` and its partner at `p` can change a
/// cell: a `+` or `-` stands strictly between them.
pub open spec fn loop_can_change(s: Seq<u8>, ip: int, p: int) -> bool {
    exists|k: int| (if ip < p { ip < k < p } else { p < k < ip }) && (s[k] == 43 || s[k] == 45)
}

/// A bracket whose partner is at `p`, in a loop that can change a cell:
/// a `[` on a cell holding 0 skips the loop, going on just past its `]`,
/// and on any other cell enters it; a `]` on a cell not holding 0 goes back
/// to just past its `[`, and on 0 leaves the loop. A bracket changes
/// neither the tape, the input nor the output, and reports itself.
pub proof fn law_brackets_jump_past_their_partner(v: InterpreterView, p: int)
    requires
        0 <= v.ip < v.instructions.len(),
        paired(v.instructions, v.ip, p),
        loop_can_change(v.instructions, v.ip, p),
    ensures
        ({
            let cur = v.tape.0[v.tape.1];
            let (w, r) = step(v);
            &&& v.instructions[v.ip] == 91 ==> r == Some(Ok::<char, ExecError>('[')) && w.ip == if cur == 0 {
                p + 1
            } else {
                v.ip + 1
            }
            &&& v.instructions[v.ip] == 93 ==> r == Some(Ok::<char, ExecError>(']')) && w.ip == if cur != 0 {
                p + 1
            } else {
                v.ip + 1
            }
            &&& w.tape == v.tape && w.input == v.input && w.output == v.output
        }),
{
    let s = v.instructions;
    let ip = v.ip;
    let c = choose|j: int| paired(s, ip, j);
    lemma_paired_partner_unique(s, ip, p, c);
    let k = choose|k: int| (if ip < p { ip < k < p } else { p < k < ip }) && (s[k] == 43 || s[k] == 45);
    let b = if ip < p { ip + 1 } else { p + 1 };
    let e = if ip < p { p } else { ip };
    assert(b <= k < e && (s[k] == 43 || s[k] == 45));
    assert(jump_target(s, ip) == Ok::<int, ExecError>(p + 1));
    assert(s[ip] == 91 || s[ip] == 93) by {
        if !(s[ip] == 91) {
            assert(crate::program::matches(s, p, ip));
        }
    }
}

/// What every other instruction does to a state whose tape is well formed:
/// `+` and `-` add and take one from the cell under the cursor, wrapping
/// around at 256; `>` moves right, adding a zero cell at the end; `<` moves
/// left but not past the first cell; `.` prints the cell as a character;
/// `,` stores the next input byte, or once the input is used up the
/// automatic byte, and fails without changing anything when there is
/// neither. Each goes on to the next instruction and reports itself.
pub proof fn law_each_instruction(v: InterpreterView)
    requires
        0 <= v.ip < v.instructions.len(),
        tape_wf(v.tape),
    ensures
        ({
            let c = v.instructions[v.ip];
            let t = v.tape;
            let cur = t.0[t.1];
            let (w, r) = step(v);
            &&& (c == 43 || c == 45 || c == 62 || c == 60 || c == 46) ==> w.ip == v.ip + 1 && w.input == v.input
                && w.instructions == v.instructions
            &&& c == 43 ==> r == Some(Ok::<char, ExecError>('+')) && w.tape.1 == t.1 && w.tape.0.len() == t.0.len()
                && w.tape.0[t.1] as int == (if cur == 255 { 0 } else { cur + 1 }) && (forall|i: int|
                0 <= i < t.0.len() && i != t.1 ==> w.tape.0[i] == t.0[i]) && w.output == v.output
            &&& c == 45 ==> r == Some(Ok::<char, ExecError>('-')) && w.tape.1 == t.1 && w.tape.0.len() == t.0.len()
                && w.tape.0[t.1] as int == (if cur == 0 { 255 } else { cur - 1 }) && (forall|i: int|
                0 <= i < t.0.len() && i != t.1 ==> w.tape.0[i] == t.0[i]) && w.output == v.output
            &&& c == 62 ==> r == Some(Ok::<char, ExecError>('>')) && w.tape.1 == t.1 + 1 && w.tape.0.len() == (if t.1
                + 1 == t.0.len() { t.0.len() + 1 } else { t.0.len() + 0 }) && (forall|i: int|
                0 <= i < t.0.len() ==> w.tape.0[i] == t.0[i]) && (t.1 + 1 == t.0.len() ==> w.tape.0[t.1 + 1] == 0)
                && w.output == v.output
            &&& c == 60 ==> r == Some(Ok::<char, ExecError>('<')) && w.tape.0 == t.0 && w.tape.1 == (if t.1 == 0 {
                0
            } else {
                t.1 - 1
            }) && w.output == v.output
            &&& c == 46 ==> r == Some(Ok::<char, ExecError>('.')) && w.tape == t && w.output.len() == v.output.len() + 1
                && w.output.subrange(0, v.output.len() as int) == v.output && w.output.last() == cur as char
            &&& c == 44 && v.input.len() > 0 ==> r == Some(Ok::<char, ExecError>(',')) && w.ip == v.ip + 1 && w.tape
                == (t.0.update(t.1, v.input[0]), t.1) && w.input == v.input.subrange(1, v.input.len() as int)
                && w.output == v.output
            &&& c == 44 && v.input.len() == 0 && v.auto_input is Some ==> r == Some(Ok::<char, ExecError>(','))
                && w.ip == v.ip + 1 && w.tape == (t.0.update(t.1, v.auto_input->0), t.1) && w.input == v.input
                && w.output == v.output
            &&& c == 44 && v.input.len() == 0 && v.auto_input is None ==> r == Some(Err::<char, ExecError>(
                ExecError::InputNeeded,
            )) && w == v
        }),
{
    let w = step(v).0;
    assert(v.output.push(v.tape.0[v.tape.1] as char).subrange(0, v.output.len() as int) =~= v.output);
}

} // verus!

