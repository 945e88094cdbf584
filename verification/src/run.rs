//! Runs of the interpreter as sequences of steps, and what the generated
//! scripts do when they are run.
use vstd::prelude::*;

use crate::generate::{
    adjust_part, cell_of, chars_n, charwise_spec, data_to_print, law_text_to_print_keeps_the_data, law_text_is_printable, fill_part, gen_loop_spec, lemma_unique_below_props, moves, offset_from_tens,
    eol_code, lemma_lines_printable, linewise_body, linewise_spec, print_part, printable_data, tens, unique_below,
    unique_chars_spec,
};
use crate::lines::{ends_with_eol_spec, first_newline, has_crlf, lemma_first_newline_bounds, lines_of, strip_cr};
use crate::interpreter::{jump_target, step, ExecError, Interpreter, InterpreterView};
use crate::program::{is_instruction_byte, law_sanitized_ignores_other_bytes, lemma_paired_partner_unique, net, paired, sanitized};
use vstd::utf8::{encode_utf8, is_ascii_chars, is_ascii_chars_encode_utf8};
use crate::tape::{tape_wf, Tape};
use crate::text::repeat;

verus! {

/// The state after `n` steps from `v`.
pub open spec fn run(v: InterpreterView, n: nat) -> InterpreterView
    decreases n,
{
    if n == 0 {
        v
    } else {
        run(step(v).0, (n - 1) as nat)
    }
}

/// The state a run of `code` starts in: the one `Interpreter::new` builds.
pub open spec fn start(code: Seq<u8>, input: Seq<u8>, auto_input: Option<u8>) -> InterpreterView {
    InterpreterView {
        instructions: sanitized(code),
        ip: 0,
        tape: (seq![0u8], 0),
        input,
        auto_input,
        output: Seq::empty(),
    }
}

/// The run has carried out its last instruction.
pub open spec fn finished(v: InterpreterView) -> bool {
    v.ip == v.instructions.len()
}

/// Bytes as `.` prints them: one character per byte.
pub open spec fn printed(data: Seq<u8>) -> Seq<char> {
    data.map_values(|b: u8| b as char)
}

/// The value of cell `i`; the cells past the end of the tape are zero.
pub open spec fn cell(t: (Seq<u8>, int), i: int) -> u8 {
    if 0 <= i < t.0.len() {
        t.0[i]
    } else {
        0
    }
}

/// What a script without `,` never changes.
pub open spec fn same_frame(v: InterpreterView, w: InterpreterView) -> bool {
    &&& w.instructions == v.instructions
    &&& w.input == v.input
    &&& w.auto_input == v.auto_input
}

/// `code` stands in the program `s` from position `p` on.
pub open spec fn code_at(s: Seq<u8>, p: int, code: Seq<char>) -> bool {
    &&& 0 <= p
    &&& p + code.len() <= s.len()
    &&& forall|q: int| 0 <= q < code.len() ==> s[p + q] == #[trigger] code[q] as u8
}

/// Running `a` steps and then `b` more is running `a + b` steps.
pub proof fn lemma_run_add(v: InterpreterView, a: nat, b: nat)
    ensures
        run(run(v, a), b) == run(v, a + b),
    decreases a,
{
    if a > 0 {
        lemma_run_add(step(v).0, (a - 1) as nat, b);
        assert(run(v, a + b) == run(step(v).0, (a + b - 1) as nat));
    }
}

/// One step of a run is a step.
pub proof fn lemma_run_one(v: InterpreterView)
    ensures
        run(v, 1) == step(v).0,
{
    assert(run(step(v).0, 0) == step(v).0);
}

/// Once a run has carried out its last instruction, a step reports nothing
/// and changes nothing, however many more are taken.
pub proof fn law_end_is_fixed(v: InterpreterView, m: nat)
    requires
        finished(v),
    ensures
        step(v) == (v, None::<Result<char, ExecError>>),
        run(v, m) == v,
{
    lemma_run_fixed(v, m);
}

/// A run that comes to its end never stops on an error on the way: before
/// the end, every step carries out an instruction.
pub proof fn law_run_to_end_never_fails(v: InterpreterView, n: nat)
    requires
        finished(run(v, n)),
    ensures
        forall|m: nat| finished(#[trigger] run(v, m)) || step(run(v, m)).1 matches Some(Ok(_)),
{
    assert forall|m: nat| finished(#[trigger] run(v, m)) || step(run(v, m)).1 matches Some(Ok(_)) by {
        let w = run(v, m);
        if !finished(w) && !(step(w).1 matches Some(Ok(_))) {
            assert(step(w).0 == w);
            if m <= n {
                lemma_run_add(v, m, (n - m) as nat);
                lemma_run_fixed(w, (n - m) as nat);
            } else {
                lemma_run_add(v, n, (m - n) as nat);
                lemma_run_fixed(run(v, n), (m - n) as nat);
            }
        }
    }
}

/// The reports of the first `n` steps of a run from `v`, in order.
pub open spec fn reports(v: InterpreterView, n: nat) -> Seq<Option<Result<char, ExecError>>>
    decreases n,
{
    if n == 0 {
        Seq::empty()
    } else {
        seq![step(v).1] + reports(step(v).0, (n - 1) as nat)
    }
}

/// The instruction at the instruction pointer, as a character.
pub open spec fn current_instruction(v: InterpreterView) -> char {
    v.instructions[v.ip] as char
}

proof fn lemma_reports_index(v: InterpreterView, n: nat, i: nat)
    requires
        i < n,
    ensures
        reports(v, n).len() == n,
        reports(v, n)[i as int] == step(run(v, i)).1,
    decreases n,
{
    if i == 0 {
        lemma_reports_len(v, n);
    } else {
        lemma_reports_index(step(v).0, (n - 1) as nat, (i - 1) as nat);
        lemma_reports_len(v, n);
    }
}

proof fn lemma_reports_len(v: InterpreterView, n: nat)
    ensures
        reports(v, n).len() == n,
    decreases n,
{
    if n > 0 {
        lemma_reports_len(step(v).0, (n - 1) as nat);
    }
}

/// A step that carries out an instruction reports that instruction.
proof fn lemma_step_reports_instruction(w: InterpreterView)
    requires
        step(w).1 matches Some(Ok(_)),
    ensures
        step(w).1 == Some(Ok::<char, ExecError>(current_instruction(w))),
{
}

/// A run that comes to its end after `n` steps, and not sooner, reports
/// each instruction it carries out, one per step and in order, and then
/// reports nothing: no step on the way fails.
pub proof fn law_run_reports_each_instruction(v: InterpreterView, n: nat)
    requires
        finished(run(v, n)),
        forall|m: nat| m < n ==> !finished(#[trigger] run(v, m)),
    ensures
        reports(v, n).len() == n,
        forall|i: nat|
            i < n ==> reports(v, n)[i as int] == Some(Ok::<char, ExecError>(current_instruction(#[trigger] run(v, i)))),
        step(run(v, n)).1 is None,
{
    law_run_to_end_never_fails(v, n);
    lemma_reports_len(v, n);
    assert forall|i: nat| i < n implies reports(v, n)[i as int] == Some(
        Ok::<char, ExecError>(current_instruction(#[trigger] run(v, i))),
    ) by {
        lemma_reports_index(v, n, i);
        assert(!finished(run(v, i)));
        lemma_step_reports_instruction(run(v, i));
    }
}

/// A byte that is no instruction, put anywhere in a script, changes nothing
/// about its run: after any number of steps the state is the same.
pub proof fn law_other_bytes_change_no_run(
    a: Seq<u8>,
    x: u8,
    b: Seq<u8>,
    input: Seq<u8>,
    auto_input: Option<u8>,
    n: nat,
)
    requires
        !is_instruction_byte(x),
    ensures
        run(start(a + seq![x] + b, input, auto_input), n) == run(start(a + b, input, auto_input), n),
        step(run(start(a + seq![x] + b, input, auto_input), n)) == step(run(start(a + b, input, auto_input), n)),
{
    law_sanitized_ignores_other_bytes(a, x, b);
    assert(start(a + seq![x] + b, input, auto_input) == start(a + b, input, auto_input));
}

proof fn lemma_code_at_split(s: Seq<u8>, p: int, a: Seq<char>, b: Seq<char>)
    requires
        code_at(s, p, a + b),
    ensures
        code_at(s, p, a),
        code_at(s, p + a.len(), b),
{
    assert forall|q: int| 0 <= q < a.len() implies s[p + q] == #[trigger] a[q] as u8 by {
        assert((a + b)[q] == a[q]);
    }
    assert forall|q: int| 0 <= q < b.len() implies s[p + a.len() + q] == #[trigger] b[q] as u8 by {
        assert((a + b)[a.len() + q] == b[q]);
    }
}

proof fn lemma_code_at_rest(s: Seq<u8>, p: int, c: char, k: nat)
    requires
        k > 0,
        code_at(s, p, chars_n(c, k as int)),
    ensures
        s[p] == c as u8,
        code_at(s, p + 1, chars_n(c, k - 1)),
{
    assert(chars_n(c, k as int)[0] == c);
    assert forall|q: int| 0 <= q < chars_n(c, k - 1).len() implies s[p + 1 + q] == #[trigger] chars_n(c, k - 1)[q] as u8 by {
        assert(chars_n(c, k as int)[q + 1] == c);
    }
}

/// `k` increments in a row add `k` to the cell under the cursor.
pub proof fn lemma_run_plus(v: InterpreterView, k: nat) -> (n: nat)
    requires
        tape_wf(v.tape),
        code_at(v.instructions, v.ip, chars_n('+', k as int)),
        cell(v.tape, v.tape.1) + k < 256,
    ensures
        same_frame(v, run(v, n)),
        run(v, n).ip == v.ip + k,
        run(v, n).tape.1 == v.tape.1,
        tape_wf(run(v, n).tape),
        run(v, n).output == v.output,
        cell(run(v, n).tape, v.tape.1) == cell(v.tape, v.tape.1) + k,
        forall|i: int| i != v.tape.1 ==> #[trigger] cell(run(v, n).tape, i) == cell(v.tape, i),
    decreases k,
{
    if k == 0 {
        0
    } else {
        lemma_code_at_rest(v.instructions, v.ip, '+', k);
        let w = step(v).0;
        assert(w.tape.0 == v.tape.0.update(v.tape.1, (v.tape.0[v.tape.1] + 1) as u8));
        let m = lemma_run_plus(w, (k - 1) as nat);
        lemma_run_one(v);
        lemma_run_add(v, 1, m);
        1 + m
    }
}

/// `k` decrements in a row take `k` from the cell under the cursor.
pub proof fn lemma_run_minus(v: InterpreterView, k: nat) -> (n: nat)
    requires
        tape_wf(v.tape),
        code_at(v.instructions, v.ip, chars_n('-', k as int)),
        cell(v.tape, v.tape.1) >= k,
    ensures
        same_frame(v, run(v, n)),
        run(v, n).ip == v.ip + k,
        run(v, n).tape.1 == v.tape.1,
        tape_wf(run(v, n).tape),
        run(v, n).output == v.output,
        cell(run(v, n).tape, v.tape.1) == cell(v.tape, v.tape.1) - k,
        forall|i: int| i != v.tape.1 ==> #[trigger] cell(run(v, n).tape, i) == cell(v.tape, i),
    decreases k,
{
    if k == 0 {
        0
    } else {
        lemma_code_at_rest(v.instructions, v.ip, '-', k);
        let w = step(v).0;
        assert(w.tape.0 == v.tape.0.update(v.tape.1, (v.tape.0[v.tape.1] - 1) as u8));
        let m = lemma_run_minus(w, (k - 1) as nat);
        lemma_run_one(v);
        lemma_run_add(v, 1, m);
        1 + m
    }
}

/// `k` moves right in a row: the cells stay as they are.
pub proof fn lemma_run_right(v: InterpreterView, k: nat) -> (n: nat)
    requires
        tape_wf(v.tape),
        code_at(v.instructions, v.ip, chars_n('>', k as int)),
    ensures
        same_frame(v, run(v, n)),
        run(v, n).ip == v.ip + k,
        run(v, n).tape.1 == v.tape.1 + k,
        tape_wf(run(v, n).tape),
        run(v, n).output == v.output,
        forall|i: int| #[trigger] cell(run(v, n).tape, i) == cell(v.tape, i),
    decreases k,
{
    if k == 0 {
        0
    } else {
        lemma_code_at_rest(v.instructions, v.ip, '>', k);
        let w = step(v).0;
        assert forall|i: int| #[trigger] cell(w.tape, i) == cell(v.tape, i) by {
            if v.tape.1 + 1 == v.tape.0.len() && i == v.tape.0.len() {
                assert(w.tape.0[i] == 0);
            }
        }
        let m = lemma_run_right(w, (k - 1) as nat);
        lemma_run_one(v);
        lemma_run_add(v, 1, m);
        1 + m
    }
}

/// `k` moves left in a row from a cursor at least `k` cells from the start.
pub proof fn lemma_run_left(v: InterpreterView, k: nat) -> (n: nat)
    requires
        tape_wf(v.tape),
        code_at(v.instructions, v.ip, chars_n('<', k as int)),
        v.tape.1 >= k,
    ensures
        same_frame(v, run(v, n)),
        run(v, n).ip == v.ip + k,
        run(v, n).tape.1 == v.tape.1 - k,
        tape_wf(run(v, n).tape),
        run(v, n).output == v.output,
        forall|i: int| #[trigger] cell(run(v, n).tape, i) == cell(v.tape, i),
    decreases k,
{
    if k == 0 {
        0
    } else {
        lemma_code_at_rest(v.instructions, v.ip, '<', k);
        let w = step(v).0;
        let m = lemma_run_left(w, (k - 1) as nat);
        lemma_run_one(v);
        lemma_run_add(v, 1, m);
        1 + m
    }
}

/// One `.` prints the cell under the cursor.
pub proof fn lemma_run_dot(v: InterpreterView)
    requires
        tape_wf(v.tape),
        code_at(v.instructions, v.ip, seq!['.']),
    ensures
        same_frame(v, run(v, 1)),
        run(v, 1).ip == v.ip + 1,
        run(v, 1).tape == v.tape,
        run(v, 1).output == v.output.push(cell(v.tape, v.tape.1) as char),
{
    assert(seq!['.'][0] == '.');
    lemma_run_one(v);
}

proof fn lemma_code_at_sub(s: Seq<u8>, p: int, code: Seq<char>, a: int, b: int)
    requires
        code_at(s, p, code),
        0 <= a <= b <= code.len(),
    ensures
        code_at(s, p + a, code.subrange(a, b)),
{
    assert forall|q: int| 0 <= q < b - a implies s[p + a + q] == #[trigger] code.subrange(a, b)[q] as u8 by {
        assert(code.subrange(a, b)[q] == code[a + q]);
    }
}

proof fn lemma_net_no_brackets(s: Seq<u8>, a: int, b: int)
    requires
        0 <= a <= b <= s.len(),
        forall|q: int| a <= q < b ==> s[q] != 91 && s[q] != 93,
    ensures
        net(s, a, b) == 0,
    decreases b - a,
{
    if b > a {
        lemma_net_no_brackets(s, a, b - 1);
    }
}

/// A loop with no bracket inside and a `-` just before its `]`: each end
/// jumps just past the other.
pub proof fn lemma_simple_loop(s: Seq<u8>, i: int, j: int)
    requires
        0 <= i < j - 1,
        j < s.len(),
        s[i] == 91,
        s[j] == 93,
        s[j - 1] == 45,
        forall|q: int| i < q < j ==> s[q] != 91 && s[q] != 93,
    ensures
        jump_target(s, i) == Ok::<int, crate::interpreter::ExecError>(j + 1),
        jump_target(s, j) == Ok::<int, crate::interpreter::ExecError>(i + 1),
{
    assert forall|q: int| i + 1 <= q <= j implies #[trigger] net(s, i + 1, q) >= 0 by {
        lemma_net_no_brackets(s, i + 1, q);
    }
    lemma_net_no_brackets(s, i + 1, j);
    assert(crate::program::matches(s, i, j));
    assert(paired(s, i, j));
    assert(paired(s, j, i));
    let p = choose|x: int| paired(s, i, x);
    lemma_paired_partner_unique(s, i, j, p);
    let r = choose|x: int| paired(s, j, x);
    lemma_paired_partner_unique(s, j, i, r);
    assert(i + 1 <= j - 1 < j && (s[j - 1] == 43 || s[j - 1] == 45));
}

proof fn lemma_tens_bound(b: u8)
    requires
        b < 255,
    ensures
        0 <= tens(b) <= 25,
        10 * tens(b) <= b + 5,
        b <= 10 * tens(b) + 4,
{
}

proof fn lemma_rounds(m: int, t: int)
    requires
        1 <= m <= 10,
        0 <= t <= 25,
    ensures
        (10 - m) * t + t == (10 - (m - 1)) * t,
        (10 - (m - 1)) * t <= 250,
        (10 - 10) * t == 0,
{
    assert((10 - m) * t + t == (10 - (m - 1)) * t) by (nonlinear_arith);
    assert((10 - (m - 1)) * t <= 250) by (nonlinear_arith)
        requires
            1 <= m <= 10,
            0 <= t <= 25,
    ;
}

/// The part of a loop round that adds each value's number of tens to its
/// cell, from the cell left of the first one.
pub proof fn lemma_run_fill(v: InterpreterView, values: Seq<u8>) -> (n: nat)
    requires
        tape_wf(v.tape),
        code_at(v.instructions, v.ip, fill_part(values)),
        forall|q: int| 0 <= q < values.len() ==> cell(v.tape, v.tape.1 + 1 + q) + tens(#[trigger] values[q]) < 256,
        forall|q: int| 0 <= q < values.len() ==> #[trigger] values[q] < 255,
    ensures
        same_frame(v, run(v, n)),
        run(v, n).ip == v.ip + fill_part(values).len(),
        run(v, n).tape.1 == v.tape.1 + values.len(),
        tape_wf(run(v, n).tape),
        run(v, n).output == v.output,
        forall|i: int| #[trigger] cell(run(v, n).tape, i) == if v.tape.1 < i <= v.tape.1 + values.len() {
            (cell(v.tape, i) + tens(values[i - v.tape.1 - 1])) as u8
        } else {
            cell(v.tape, i)
        },
    decreases values.len(),
{
    if values.len() == 0 {
        0
    } else {
        let s = v.instructions;
        let c = v.tape.1;
        let k = values.len() - 1;
        let dl = values.drop_last();
        let t = tens(values.last());
        lemma_tens_bound(values.last());
        let a = fill_part(dl);
        assert(fill_part(values) == a + seq!['>'] + chars_n('+', t));
        lemma_code_at_split(s, v.ip, a + seq!['>'], chars_n('+', t));
        lemma_code_at_split(s, v.ip, a, seq!['>']);
        assert forall|q: int| 0 <= q < dl.len() implies cell(v.tape, c + 1 + q) + tens(#[trigger] dl[q]) < 256 by {
            assert(dl[q] == values[q]);
        }
        let n1 = lemma_run_fill(v, dl);
        let w1 = run(v, n1);
        assert(seq!['>'] =~= chars_n('>', 1));
        let n2 = lemma_run_right(w1, 1);
        let w2 = run(w1, n2);
        assert(cell(w2.tape, c + 1 + k) == cell(v.tape, c + 1 + k));
        assert(values[k] == values.last());
        let n3 = lemma_run_plus(w2, t as nat);
        let w3 = run(w2, n3);
        lemma_run_add(v, n1, n2);
        lemma_run_add(v, n1 + n2, n3);
        assert forall|i: int| #[trigger] cell(w3.tape, i) == if c < i <= c + values.len() {
            (cell(v.tape, i) + tens(values[i - c - 1])) as u8
        } else {
            cell(v.tape, i)
        } by {
            if c < i <= c + k {
                assert(dl[i - c - 1] == values[i - c - 1]);
            }
        }
        n1 + n2 + n3
    }
}

/// The rounds of the loop that fills the cells, from the first instruction
/// of its body, with `m` rounds left on the counter cell.
proof fn lemma_run_fill_rounds(v: InterpreterView, values: Seq<u8>, i: int, j: int, m: int) -> (n: nat)
    requires
        tape_wf(v.tape),
        v.ip == i + 1,
        j == i + 1 + fill_part(values).len() + values.len() + 1,
        code_at(v.instructions, i + 1, fill_part(values) + chars_n('<', values.len() as int) + seq!['-']),
        j < v.instructions.len(),
        v.instructions[j] == 93,
        jump_target(v.instructions, j) == Ok::<int, crate::interpreter::ExecError>(i + 1),
        1 <= m <= 10,
        cell(v.tape, v.tape.1) == m,
        forall|q: int| 0 <= q < values.len() ==> #[trigger] values[q] < 255,
        forall|q: int| 0 <= q < values.len() ==> cell(v.tape, v.tape.1 + 1 + q) == (10 - m) * tens(#[trigger] values[q]),
    ensures
        same_frame(v, run(v, n)),
        run(v, n).ip == j + 1,
        run(v, n).tape.1 == v.tape.1,
        tape_wf(run(v, n).tape),
        run(v, n).output == v.output,
        forall|x: int| #[trigger] cell(run(v, n).tape, x) == if x == v.tape.1 {
            0
        } else if v.tape.1 < x <= v.tape.1 + values.len() {
            (10 * tens(values[x - v.tape.1 - 1])) as u8
        } else {
            cell(v.tape, x)
        },
    decreases m,
{
    let s = v.instructions;
    let c = v.tape.1;
    let len = values.len() as int;
    let f = fill_part(values);
    lemma_code_at_split(s, i + 1, f + chars_n('<', len), seq!['-']);
    lemma_code_at_split(s, i + 1, f, chars_n('<', len));
    assert forall|q: int| 0 <= q < len implies cell(v.tape, c + 1 + q) + tens(#[trigger] values[q]) < 256 by {
        lemma_tens_bound(values[q]);
        lemma_rounds(m, tens(values[q]));
    }
    let n1 = lemma_run_fill(v, values);
    let w1 = run(v, n1);
    let n2 = lemma_run_left(w1, len as nat);
    let w2 = run(w1, n2);
    assert(seq!['-'] =~= chars_n('-', 1));
    assert(cell(w2.tape, c) == m);
    let n3 = lemma_run_minus(w2, 1);
    let w3 = run(w2, n3);
    assert(w3.ip == j);
    lemma_run_add(v, n1, n2);
    lemma_run_add(v, n1 + n2, n3);
    let w4 = step(w3).0;
    lemma_run_one(w3);
    lemma_run_add(v, n1 + n2 + n3, 1);
    assert forall|q: int| 0 <= q < len implies cell(w4.tape, c + 1 + q) == (10 - (m - 1)) * tens(#[trigger] values[q]) by {
        lemma_tens_bound(values[q]);
        lemma_rounds(m, tens(values[q]));
    }
    if m == 1 {
        assert(w4.ip == j + 1);
        assert forall|x: int| #[trigger] cell(w4.tape, x) == if x == c {
            0
        } else if c < x <= c + len {
            (10 * tens(values[x - c - 1])) as u8
        } else {
            cell(v.tape, x)
        } by {
            if c < x <= c + len {
                lemma_tens_bound(values[x - c - 1]);
                lemma_rounds(m, tens(values[x - c - 1]));
            }
        }
        n1 + n2 + n3 + 1
    } else {
        assert(w4.ip == i + 1);
        let n5 = lemma_run_fill_rounds(w4, values, i, j, m - 1);
        lemma_run_add(v, n1 + n2 + n3 + 1, n5);
        let w5 = run(w4, n5);
        assert forall|x: int| #[trigger] cell(w5.tape, x) == if x == c {
            0
        } else if c < x <= c + len {
            (10 * tens(values[x - c - 1])) as u8
        } else {
            cell(v.tape, x)
        } by {
            assert(cell(w5.tape, x) == if x == c {
                0
            } else if c < x <= c + len {
                (10 * tens(values[x - c - 1])) as u8
            } else {
                cell(w4.tape, x)
            });
        }
        n1 + n2 + n3 + 1 + n5
    }
}

/// The part after the loop that corrects each cell from its multiple of ten
/// to the value itself.
pub proof fn lemma_run_adjust(v: InterpreterView, values: Seq<u8>) -> (n: nat)
    requires
        tape_wf(v.tape),
        code_at(v.instructions, v.ip, adjust_part(values)),
        forall|q: int| 0 <= q < values.len() ==> #[trigger] values[q] < 255,
        forall|q: int| 0 <= q < values.len() ==> cell(v.tape, v.tape.1 + 1 + q) == 10 * tens(#[trigger] values[q]),
    ensures
        same_frame(v, run(v, n)),
        run(v, n).ip == v.ip + adjust_part(values).len(),
        run(v, n).tape.1 == v.tape.1 + values.len(),
        tape_wf(run(v, n).tape),
        run(v, n).output == v.output,
        forall|i: int| #[trigger] cell(run(v, n).tape, i) == if v.tape.1 < i <= v.tape.1 + values.len() {
            values[i - v.tape.1 - 1]
        } else {
            cell(v.tape, i)
        },
    decreases values.len(),
{
    if values.len() == 0 {
        0
    } else {
        let s = v.instructions;
        let c = v.tape.1;
        let k = values.len() - 1;
        let dl = values.drop_last();
        let b = values.last();
        let d = offset_from_tens(b);
        lemma_tens_bound(b);
        let tail = if d < 0 { chars_n('-', -d) } else { chars_n('+', d) };
        let a = adjust_part(dl);
        assert(adjust_part(values) == a + seq!['>'] + tail);
        lemma_code_at_split(s, v.ip, a + seq!['>'], tail);
        lemma_code_at_split(s, v.ip, a, seq!['>']);
        assert forall|q: int| 0 <= q < dl.len() implies cell(v.tape, c + 1 + q) == 10 * tens(#[trigger] dl[q]) by {
            assert(dl[q] == values[q]);
        }
        let n1 = lemma_run_adjust(v, dl);
        let w1 = run(v, n1);
        assert(seq!['>'] =~= chars_n('>', 1));
        let n2 = lemma_run_right(w1, 1);
        let w2 = run(w1, n2);
        assert(values[k] == b);
        assert(cell(w2.tape, c + 1 + k) == 10 * tens(b));
        let n3 = if d < 0 {
            lemma_run_minus(w2, (-d) as nat)
        } else {
            lemma_run_plus(w2, d as nat)
        };
        let w3 = run(w2, n3);
        lemma_run_add(v, n1, n2);
        lemma_run_add(v, n1 + n2, n3);
        assert forall|i: int| #[trigger] cell(w3.tape, i) == if c < i <= c + values.len() {
            values[i - c - 1]
        } else {
            cell(v.tape, i)
        } by {
            if c < i <= c + k {
                assert(dl[i - c - 1] == values[i - c - 1]);
            }
        }
        n1 + n2 + n3
    }
}

/// `k` rounds of `>.` print the `k` cells right of the cursor.
pub proof fn lemma_run_print(v: InterpreterView, k: nat) -> (n: nat)
    requires
        tape_wf(v.tape),
        code_at(v.instructions, v.ip, repeat(seq!['>', '.'], k)),
    ensures
        same_frame(v, run(v, n)),
        run(v, n).ip == v.ip + 2 * k,
        run(v, n).tape.1 == v.tape.1 + k,
        tape_wf(run(v, n).tape),
        run(v, n).output == v.output + Seq::new(k, |q: int| cell(v.tape, v.tape.1 + 1 + q) as char),
        forall|i: int| #[trigger] cell(run(v, n).tape, i) == cell(v.tape, i),
    decreases k,
{
    if k == 0 {
        assert(v.output + Seq::new(0, |q: int| cell(v.tape, v.tape.1 + 1 + q) as char) =~= v.output);
        0
    } else {
        let s = v.instructions;
        let r = repeat(seq!['>', '.'], (k - 1) as nat);
        assert(repeat(seq!['>', '.'], k) == r + seq!['>', '.']);
        lemma_text_repeat_len(seq!['>', '.'], (k - 1) as nat);
        lemma_code_at_split(s, v.ip, r, seq!['>', '.']);
        let n1 = lemma_run_print(v, (k - 1) as nat);
        let w1 = run(v, n1);
        lemma_code_at_sub(s, w1.ip, seq!['>', '.'], 0, 1);
        lemma_code_at_sub(s, w1.ip, seq!['>', '.'], 1, 2);
        assert(seq!['>', '.'].subrange(0, 1) =~= chars_n('>', 1));
        assert(seq!['>', '.'].subrange(1, 2) =~= seq!['.']);
        let n2 = lemma_run_right(w1, 1);
        let w2 = run(w1, n2);
        lemma_run_dot(w2);
        let w3 = run(w2, 1);
        lemma_run_add(v, n1, n2);
        lemma_run_add(v, n1 + n2, 1);
        assert(w3.output =~= v.output + Seq::new(k, |q: int| cell(v.tape, v.tape.1 + 1 + q) as char));
        n1 + n2 + 1
    }
}

proof fn lemma_text_repeat_len(s: Seq<char>, k: nat)
    ensures
        repeat(s, k).len() == k * s.len(),
    decreases k,
{
    if k > 0 {
        lemma_text_repeat_len(s, (k - 1) as nat);
        assert(repeat(s, k).len() == repeat(s, (k - 1) as nat).len() + s.len());
        assert((k - 1) * s.len() + s.len() == k * s.len()) by (nonlinear_arith);
    } else {
        assert(k * s.len() == 0) by (nonlinear_arith)
            requires
                k == 0,
        ;
    }
}

proof fn lemma_fill_chars(values: Seq<u8>)
    ensures
        forall|q: int| 0 <= q < fill_part(values).len() ==> #[trigger] fill_part(values)[q] == '>' || fill_part(values)[q] == '+',
    decreases values.len(),
{
    if values.len() > 0 {
        lemma_fill_chars(values.drop_last());
        let a = fill_part(values.drop_last());
        let t = chars_n('+', tens(values.last()));
        assert forall|q: int| 0 <= q < fill_part(values).len() implies #[trigger] fill_part(values)[q] == '>' || fill_part(values)[q] == '+' by {
            assert(fill_part(values) == a + seq!['>'] + t);
            if q < a.len() {
                assert(fill_part(values)[q] == a[q]);
            } else if q > a.len() {
                assert(fill_part(values)[q] == t[q - a.len() - 1]);
            }
        }
    }
}

/// The code that stores `values` right of the cursor, on a part of the tape
/// that is still zero from the cursor on: afterwards those cells hold the
/// values, and they have been printed if `print_cells` was asked for.
pub proof fn lemma_run_gen_loop(v: InterpreterView, values: Seq<u8>, print_cells: bool) -> (n: nat)
    requires
        tape_wf(v.tape),
        code_at(v.instructions, v.ip, gen_loop_spec(values, print_cells)),
        forall|q: int| 0 <= q < values.len() ==> #[trigger] values[q] < 255,
        forall|x: int| x >= v.tape.1 ==> #[trigger] cell(v.tape, x) == 0,
    ensures
        same_frame(v, run(v, n)),
        run(v, n).ip == v.ip + gen_loop_spec(values, print_cells).len(),
        run(v, n).tape.1 == if print_cells { v.tape.1 + values.len() + 1 } else { v.tape.1 },
        tape_wf(run(v, n).tape),
        run(v, n).output == if print_cells { v.output + printed(values) } else { v.output },
        forall|x: int| #[trigger] cell(run(v, n).tape, x) == if v.tape.1 < x <= v.tape.1 + values.len() {
            values[x - v.tape.1 - 1]
        } else {
            cell(v.tape, x)
        },
{
    let s = v.instructions;
    let p = v.ip;
    let c = v.tape.1;
    let len = values.len() as int;
    let code = gen_loop_spec(values, print_cells);
    let f = fill_part(values);
    let lc = f.len() as int;
    let adj = adjust_part(values);
    let la = adj.len() as int;
    let tail = if print_cells {
        repeat(seq!['>', '.'], len as nat) + seq!['>']
    } else {
        Seq::<char>::empty()
    };
    let i = p + 10;
    let j = i + 1 + lc + len + 1;
    assert(code == chars_n('+', 10) + seq!['['] + f + chars_n('<', len) + seq!['-', ']'] + adj + chars_n('<', len) + tail);
    lemma_code_at_sub(s, p, code, 0, 10);
    assert(code.subrange(0, 10) =~= chars_n('+', 10));
    lemma_code_at_sub(s, p, code, 11, 11 + lc + len + 1);
    assert(code.subrange(11, 11 + lc + len + 1) =~= f + chars_n('<', len) + seq!['-']);
    lemma_code_at_sub(s, p, code, 13 + lc + len, 13 + lc + len + la);
    assert(code.subrange(13 + lc + len, 13 + lc + len + la) =~= adj);
    lemma_code_at_sub(s, p, code, 13 + lc + len + la, 13 + lc + 2 * len + la);
    assert(code.subrange(13 + lc + len + la, 13 + lc + 2 * len + la) =~= chars_n('<', len));
    lemma_code_at_sub(s, p, code, 13 + lc + 2 * len + la, code.len() as int);
    assert(code.subrange(13 + lc + 2 * len + la, code.len() as int) =~= tail);
    // The loop's brackets.
    assert(code[10] == '[');
    assert(s[i] == 91);
    assert(code[11 + lc + len] == '-');
    assert(code[12 + lc + len] == ']');
    assert(s[j] == 93);
    assert(s[j - 1] == 45);
    lemma_fill_chars(values);
    assert forall|q: int| i < q < j implies s[q] != 91 && s[q] != 93 by {
        let r = q - p;
        assert(s[p + r] == code[r] as u8);
        if r < 11 + lc {
            assert(code[r] == f[r - 11]);
        } else if r < 11 + lc + len {
            assert(code[r] == '<');
        }
    }
    lemma_simple_loop(s, i, j);
    // Ten on the counter.
    let n1 = lemma_run_plus(v, 10);
    let w1 = run(v, n1);
    // Into the loop.
    let w2 = step(w1).0;
    lemma_run_one(w1);
    lemma_run_add(v, n1, 1);
    assert(w2.ip == i + 1);
    assert forall|q: int| 0 <= q < len implies cell(w2.tape, w2.tape.1 + 1 + q) == (10 - 10) * tens(#[trigger] values[q]) by {
        lemma_tens_bound(values[q]);
        lemma_rounds(10, tens(values[q]));
    }
    let n3 = lemma_run_fill_rounds(w2, values, i, j, 10);
    let w3 = run(w2, n3);
    lemma_run_add(v, n1 + 1, n3);
    let n4 = lemma_run_adjust(w3, values);
    let w4 = run(w3, n4);
    lemma_run_add(v, n1 + 1 + n3, n4);
    let n5 = lemma_run_left(w4, len as nat);
    let w5 = run(w4, n5);
    lemma_run_add(v, n1 + 1 + n3 + n4, n5);
    assert forall|x: int| #[trigger] cell(w5.tape, x) == if c < x <= c + len {
        values[x - c - 1]
    } else {
        cell(v.tape, x)
    } by {
        assert(cell(w5.tape, x) == cell(w4.tape, x));
    }
    let total = n1 + 1 + n3 + n4 + n5;
    if print_cells {
        lemma_code_at_split(s, w5.ip, repeat(seq!['>', '.'], len as nat), seq!['>']);
        let n6 = lemma_run_print(w5, len as nat);
        let w6 = run(w5, n6);
        lemma_run_add(v, total, n6);
        assert(Seq::new(len as nat, |q: int| cell(w5.tape, w5.tape.1 + 1 + q) as char) =~= printed(values));
        assert(seq!['>'] =~= chars_n('>', 1));
        lemma_text_repeat_len(seq!['>', '.'], len as nat);
        assert(repeat(seq!['>', '.'], len as nat).len() == 2 * len) by (nonlinear_arith)
            requires
                repeat(seq!['>', '.'], len as nat).len() == len * 2,
        ;
        assert(code_at(s, w6.ip, chars_n('>', 1)));
        let n7 = lemma_run_right(w6, 1);
        lemma_run_add(v, total + n6, n7);
        total + n6 + n7
    } else {
        total
    }
}

/// The characters a generated script is written in: the eight instructions.
pub open spec fn bf_char(c: char) -> bool {
    c == '+' || c == '-' || c == '>' || c == '<' || c == '[' || c == ']' || c == '.' || c == ','
}

/// Every character of `cs` is an instruction.
pub open spec fn bf_chars(cs: Seq<char>) -> bool {
    forall|q: int| 0 <= q < cs.len() ==> bf_char(#[trigger] cs[q])
}

/// A generated script: instructions only, then one line ending.
pub open spec fn script_alphabet(s: Seq<char>) -> bool {
    s.len() > 0 && s.last() == '\n' && bf_chars(s.drop_last())
}

proof fn lemma_sanitized_instructions(b: Seq<u8>)
    requires
        forall|q: int| 0 <= q < b.len() ==> is_instruction_byte(#[trigger] b[q]),
    ensures
        sanitized(b) == b,
    decreases b.len(),
{
    if b.len() > 0 {
        lemma_sanitized_instructions(b.drop_last());
        assert(b.drop_last().push(b.last()) =~= b);
    }
}

/// The program that a script of instructions followed by a line ending
/// becomes: its instructions, byte for byte.
proof fn lemma_script_program(body: Seq<char>)
    requires
        bf_chars(body),
    ensures
        sanitized(encode_utf8(body + seq!['\n'])).len() == body.len(),
        code_at(sanitized(encode_utf8(body + seq!['\n'])), 0, body),
{
    let cs = body + seq!['\n'];
    assert forall|q: int| 0 <= q < cs.len() implies '\0' <= #[trigger] cs[q] <= '\u{7f}' by {
        if q < body.len() {
            assert(cs[q] == body[q]);
            assert(bf_char(body[q]));
        }
    }
    assert(is_ascii_chars(cs));
    is_ascii_chars_encode_utf8(cs);
    let e = encode_utf8(cs);
    let b = body.map_values(|c: char| c as u8);
    assert forall|q: int| 0 <= q < b.len() implies is_instruction_byte(#[trigger] b[q]) by {
        assert(bf_char(body[q]));
    }
    assert(e.drop_last() =~= b) by {
        assert forall|q: int| 0 <= q < b.len() implies e[q] == b[q] by {
            assert(cs[q] == body[q]);
        }
    }
    assert(e.last() == 10) by {
        assert(cs[cs.len() - 1] == '\n');
    }
    lemma_sanitized_instructions(b);
    assert(sanitized(e) == sanitized(e.drop_last()));
}

proof fn lemma_bf_concat(a: Seq<char>, b: Seq<char>)
    requires
        bf_chars(a),
        bf_chars(b),
    ensures
        bf_chars(a + b),
{
    assert forall|q: int| 0 <= q < (a + b).len() implies bf_char(#[trigger] (a + b)[q]) by {
        if q < a.len() {
            assert((a + b)[q] == a[q]);
        } else {
            assert((a + b)[q] == b[q - a.len()]);
        }
    }
}

proof fn lemma_repeat_bf(s: Seq<char>, k: nat)
    requires
        bf_chars(s),
    ensures
        bf_chars(repeat(s, k)),
    decreases k,
{
    if k > 0 {
        lemma_repeat_bf(s, (k - 1) as nat);
        lemma_bf_concat(repeat(s, (k - 1) as nat), s);
    }
}

proof fn lemma_adjust_bf(values: Seq<u8>)
    ensures
        bf_chars(adjust_part(values)),
    decreases values.len(),
{
    if values.len() > 0 {
        lemma_adjust_bf(values.drop_last());
        let d = offset_from_tens(values.last());
        let tail = if d < 0 { chars_n('-', -d) } else { chars_n('+', d) };
        lemma_bf_concat(adjust_part(values.drop_last()), seq!['>']);
        lemma_bf_concat(adjust_part(values.drop_last()) + seq!['>'], tail);
    }
}

proof fn lemma_gen_loop_bf(values: Seq<u8>, print_cells: bool)
    ensures
        bf_chars(gen_loop_spec(values, print_cells)),
{
    let n = values.len() as int;
    lemma_fill_chars(values);
    lemma_adjust_bf(values);
    lemma_repeat_bf(seq!['>', '.'], n as nat);
    let tail = if print_cells {
        repeat(seq!['>', '.'], n as nat) + seq!['>']
    } else {
        Seq::empty()
    };
    lemma_bf_concat(repeat(seq!['>', '.'], n as nat), seq!['>']);
    let a = chars_n('+', 10) + seq!['['];
    lemma_bf_concat(chars_n('+', 10), seq!['[']);
    lemma_bf_concat(a, fill_part(values));
    lemma_bf_concat(a + fill_part(values), chars_n('<', n));
    lemma_bf_concat(a + fill_part(values) + chars_n('<', n), seq!['-', ']']);
    lemma_bf_concat(a + fill_part(values) + chars_n('<', n) + seq!['-', ']'], adjust_part(values));
    lemma_bf_concat(a + fill_part(values) + chars_n('<', n) + seq!['-', ']'] + adjust_part(values), chars_n('<', n));
    lemma_bf_concat(a + fill_part(values) + chars_n('<', n) + seq!['-', ']'] + adjust_part(values) + chars_n('<', n), tail);
}

proof fn lemma_fresh_start(code: Seq<u8>, input: Seq<u8>, auto_input: Option<u8>)
    ensures
        tape_wf(start(code, input, auto_input).tape),
        forall|x: int| x >= 0 ==> #[trigger] cell(start(code, input, auto_input).tape, x) == 0,
{
}

/// A charwise script, run from the start on any input, comes to its end
/// without an error on the way and has then printed exactly the data it was
/// made from; it is instructions followed by a line ending.
pub proof fn law_charwise_script_prints_data(data: Seq<u8>, input: Seq<u8>, auto_input: Option<u8>)
    requires
        printable_data(data),
    ensures
        exists|n: nat| {
            let w = #[trigger] run(start(encode_utf8(charwise_spec(data)), input, auto_input), n);
            finished(w) && w.output == printed(data)
        },
        script_alphabet(charwise_spec(data)),
        forall|m: nat|
            finished(#[trigger] run(start(encode_utf8(charwise_spec(data)), input, auto_input), m)) || step(
                run(start(encode_utf8(charwise_spec(data)), input, auto_input), m),
            ).1 matches Some(Ok(_)),
{
    let g = gen_loop_spec(data, true);
    lemma_gen_loop_bf(data, true);
    lemma_script_program(g);
    let v = start(encode_utf8(charwise_spec(data)), input, auto_input);
    assert(charwise_spec(data) == g + seq!['\n']);
    lemma_fresh_start(encode_utf8(charwise_spec(data)), input, auto_input);
    let n = lemma_run_gen_loop(v, data, true);
    assert(run(v, n).output =~= printed(data));
    assert((g + seq!['\n']).drop_last() =~= g);
    law_run_to_end_never_fails(v, n);
}

/// A byte of the data is held at index `unique_below(data, b).len()` of the
/// distinct bytes.
proof fn lemma_unique_index(data: Seq<u8>, b: u8, n: int)
    requires
        data.contains(b),
        b < n <= 256,
    ensures
        unique_below(data, b as int).len() < unique_below(data, n).len(),
        unique_below(data, n)[unique_below(data, b as int).len() as int] == b,
    decreases n,
{
    if n - 1 > b {
        lemma_unique_index(data, b, n - 1);
    } else {
        assert((n - 1) as u8 == b);
    }
}

/// The part of a unique-chars script that walks between the cells and
/// prints, from cell 1, with each distinct byte in its cell.
proof fn lemma_run_print_part(v: InterpreterView, all: Seq<u8>, s: Seq<u8>) -> (n: nat)
    requires
        tape_wf(v.tape),
        code_at(v.instructions, v.ip, print_part(all, s)),
        v.tape.1 == 1,
        forall|q: int| 0 <= q < unique_below(all, 256).len() ==> #[trigger] cell(v.tape, 1 + q) == unique_below(all, 256)[q],
        forall|q: int| 0 <= q < s.len() ==> all.contains(#[trigger] s[q]),
    ensures
        same_frame(v, run(v, n)),
        run(v, n).ip == v.ip + print_part(all, s).len(),
        run(v, n).tape.1 == if s.len() == 0 { 1 } else { cell_of(all, s.last()) },
        tape_wf(run(v, n).tape),
        run(v, n).output == v.output + printed(s),
        forall|x: int| #[trigger] cell(run(v, n).tape, x) == cell(v.tape, x),
    decreases s.len(),
{
    if s.len() == 0 {
        assert(v.output + printed(s) =~= v.output);
        0
    } else {
        let prog = v.instructions;
        let dl = s.drop_last();
        let last = s.last();
        let from = if s.len() >= 2 { cell_of(all, s[s.len() - 2]) } else { 1 };
        let to = cell_of(all, last);
        let mv = moves(from, to);
        assert(print_part(all, s) == print_part(all, dl) + mv + seq!['.']);
        lemma_code_at_split(prog, v.ip, print_part(all, dl) + mv, seq!['.']);
        lemma_code_at_split(prog, v.ip, print_part(all, dl), mv);
        assert forall|q: int| 0 <= q < dl.len() implies all.contains(#[trigger] dl[q]) by {
            assert(dl[q] == s[q]);
        }
        let n1 = lemma_run_print_part(v, all, dl);
        let w1 = run(v, n1);
        if s.len() >= 2 {
            assert(dl.last() == s[s.len() - 2]);
        }
        assert(w1.tape.1 == from);
        assert(all.contains(s[s.len() - 1]));
        lemma_unique_index(all, last, 256);
        let n2 = if to < from {
            lemma_run_left(w1, (from - to) as nat)
        } else {
            lemma_run_right(w1, (to - from) as nat)
        };
        let w2 = run(w1, n2);
        assert(w2.tape.1 == to);
        let q = unique_below(all, last as int).len() as int;
        assert(cell(w2.tape, to) == cell(v.tape, 1 + q));
        lemma_run_dot(w2);
        lemma_run_add(v, n1, n2);
        lemma_run_add(v, n1 + n2, 1);
        assert(run(w2, 1).output =~= v.output + printed(s));
        n1 + n2 + 1
    }
}

proof fn lemma_print_part_bf(all: Seq<u8>, s: Seq<u8>)
    ensures
        bf_chars(print_part(all, s)),
    decreases s.len(),
{
    if s.len() > 0 {
        lemma_print_part_bf(all, s.drop_last());
        let from = if s.len() >= 2 { cell_of(all, s[s.len() - 2]) } else { 1 };
        let mv = moves(from, cell_of(all, s.last()));
        lemma_bf_concat(print_part(all, s.drop_last()), mv);
        lemma_bf_concat(print_part(all, s.drop_last()) + mv, seq!['.']);
    }
}

/// A unique-chars script, run from the start on any input, comes to its end
/// without an error on the way and has then printed exactly the data it was
/// made from; it is instructions followed by a line ending; on the way its
/// setup fills cells 1, 2, ... with the distinct bytes of the data in the
/// order `unique_below` lists them (smallest first).
pub proof fn law_unique_chars_script_prints_data(data: Seq<u8>, input: Seq<u8>, auto_input: Option<u8>)
    requires
        printable_data(data),
    ensures
        exists|n: nat| {
            let w = #[trigger] run(start(encode_utf8(unique_chars_spec(data)), input, auto_input), n);
            finished(w) && w.output == printed(data)
        },
        script_alphabet(unique_chars_spec(data)),
        forall|m: nat|
            finished(#[trigger] run(start(encode_utf8(unique_chars_spec(data)), input, auto_input), m)) || step(
                run(start(encode_utf8(unique_chars_spec(data)), input, auto_input), m),
            ).1 matches Some(Ok(_)),
        exists|n: nat|
            forall|q: int|
                0 <= q < unique_below(data, 256).len() ==> cell(
                    #[trigger] run(start(encode_utf8(unique_chars_spec(data)), input, auto_input), n).tape,
                    1 + q,
                ) == unique_below(data, 256)[q],
{
    let u = unique_below(data, 256);
    let g = gen_loop_spec(u, false);
    let pp = print_part(data, data);
    let body = g + seq!['>'] + pp;
    lemma_gen_loop_bf(u, false);
    lemma_print_part_bf(data, data);
    lemma_bf_concat(g, seq!['>']);
    lemma_bf_concat(g + seq!['>'], pp);
    lemma_script_program(body);
    assert(unique_chars_spec(data) == body + seq!['\n']);
    let code = encode_utf8(unique_chars_spec(data));
    let v = start(code, input, auto_input);
    let prog = v.instructions;
    lemma_code_at_split(prog, 0, g + seq!['>'], pp);
    lemma_code_at_split(prog, 0, g, seq!['>']);
    lemma_fresh_start(code, input, auto_input);
    lemma_unique_below_props(data, 256);
    assert forall|q: int| 0 <= q < u.len() implies #[trigger] u[q] < 255 by {
        assert(data.contains(u[q]));
    }
    let n1 = lemma_run_gen_loop(v, u, false);
    let w1 = run(v, n1);
    assert(seq!['>'] =~= chars_n('>', 1));
    let n2 = lemma_run_right(w1, 1);
    let w2 = run(w1, n2);
    assert forall|q: int| 0 <= q < u.len() implies #[trigger] cell(w2.tape, 1 + q) == u[q] by {
        assert(cell(w2.tape, 1 + q) == cell(w1.tape, 1 + q));
    }
    assert forall|q: int| 0 <= q < data.len() implies data.contains(#[trigger] data[q]) by {}
    let n3 = lemma_run_print_part(w2, data, data);
    lemma_run_add(v, n1, n2);
    assert(forall|q: int| 0 <= q < u.len() ==> cell(#[trigger] run(v, n1 + n2).tape, 1 + q) == u[q]);
    lemma_run_add(v, n1 + n2, n3);
    assert(run(v, n1 + n2 + n3).output =~= printed(data));
    assert((body + seq!['\n']).drop_last() =~= body);
    law_run_to_end_never_fails(v, n1 + n2 + n3);
}

/// The bytes of a line ending: `\r\n` or `\n`.
pub open spec fn eol_bytes(crlf: bool) -> Seq<u8> {
    if crlf {
        seq![13u8, 10u8]
    } else {
        seq![10u8]
    }
}

/// The lines joined by `eol`; the last line is followed by one only if
/// `last_eol`.
pub open spec fn joined_lines(lines: Seq<Seq<u8>>, eol: Seq<u8>, last_eol: bool) -> Seq<u8>
    decreases lines.len(),
{
    if lines.len() == 0 {
        Seq::empty()
    } else {
        joined_lines(lines.drop_last(), eol, true) + lines.last() + if last_eol {
            eol
        } else {
            Seq::empty()
        }
    }
}

/// The text a linewise script prints: the lines of `data`, each ending in
/// `\r\n` if `data` holds any `\r\n` and in `\n` otherwise, the last one
/// only if `data` ends in a line ending.
pub open spec fn linewise_text(data: Seq<u8>) -> Seq<u8> {
    joined_lines(lines_of(data), eol_bytes(has_crlf(data)), ends_with_eol_spec(data))
}

proof fn lemma_printed_add(a: Seq<u8>, b: Seq<u8>)
    ensures
        printed(a + b) == printed(a) + printed(b),
{
    assert(printed(a + b) =~= printed(a) + printed(b));
}

/// The code for a line ending, on a fresh cell: it prints the ending and
/// moves on to the next fresh cell.
proof fn lemma_run_eol(v: InterpreterView, crlf: bool) -> (n: nat)
    requires
        tape_wf(v.tape),
        code_at(v.instructions, v.ip, eol_code(crlf)),
        forall|x: int| x >= v.tape.1 ==> #[trigger] cell(v.tape, x) == 0,
    ensures
        same_frame(v, run(v, n)),
        run(v, n).ip == v.ip + eol_code(crlf).len(),
        tape_wf(run(v, n).tape),
        run(v, n).tape.1 == v.tape.1 + 1,
        run(v, n).output == v.output + printed(eol_bytes(crlf)),
        forall|x: int| x >= run(v, n).tape.1 ==> #[trigger] cell(run(v, n).tape, x) == 0,
{
    let prog = v.instructions;
    let c = v.tape.1;
    if crlf {
        let a = chars_n('+', 13);
        let b = chars_n('-', 3);
        assert(eol_code(true) == a + seq!['.'] + b + seq!['.', '>']);
        lemma_code_at_split(prog, v.ip, a + seq!['.'] + b, seq!['.', '>']);
        lemma_code_at_split(prog, v.ip, a + seq!['.'], b);
        lemma_code_at_split(prog, v.ip, a, seq!['.']);
        let n1 = lemma_run_plus(v, 13);
        let w1 = run(v, n1);
        lemma_run_dot(w1);
        let w2 = run(w1, 1);
        let n3 = lemma_run_minus(w2, 3);
        let w3 = run(w2, n3);
        lemma_code_at_sub(prog, w3.ip, seq!['.', '>'], 0, 1);
        lemma_code_at_sub(prog, w3.ip, seq!['.', '>'], 1, 2);
        assert(seq!['.', '>'].subrange(0, 1) =~= seq!['.']);
        assert(seq!['.', '>'].subrange(1, 2) =~= chars_n('>', 1));
        lemma_run_dot(w3);
        let w4 = run(w3, 1);
        let n5 = lemma_run_right(w4, 1);
        lemma_run_add(v, n1, 1);
        lemma_run_add(v, n1 + 1, n3);
        lemma_run_add(v, n1 + 1 + n3, 1);
        lemma_run_add(v, n1 + 1 + n3 + 1, n5);
        assert(run(v, n1 + 1 + n3 + 1 + n5).output =~= v.output + printed(eol_bytes(true)));
        n1 + 1 + n3 + 1 + n5
    } else {
        let a = chars_n('+', 10);
        assert(eol_code(false) == a + seq!['.', '>']);
        lemma_code_at_split(prog, v.ip, a, seq!['.', '>']);
        let n1 = lemma_run_plus(v, 10);
        let w1 = run(v, n1);
        lemma_code_at_sub(prog, w1.ip, seq!['.', '>'], 0, 1);
        lemma_code_at_sub(prog, w1.ip, seq!['.', '>'], 1, 2);
        assert(seq!['.', '>'].subrange(0, 1) =~= seq!['.']);
        assert(seq!['.', '>'].subrange(1, 2) =~= chars_n('>', 1));
        lemma_run_dot(w1);
        let w2 = run(w1, 1);
        let n3 = lemma_run_right(w2, 1);
        lemma_run_add(v, n1, 1);
        lemma_run_add(v, n1 + 1, n3);
        assert(run(v, n1 + 1 + n3).output =~= v.output + printed(eol_bytes(false)));
        n1 + 1 + n3
    }
}

/// The body of a linewise script prints its lines joined by line endings,
/// and leaves the cursor on a fresh cell.
proof fn lemma_run_lines(v: InterpreterView, lines: Seq<Seq<u8>>, crlf: bool, last_eol: bool) -> (n: nat)
    requires
        tape_wf(v.tape),
        code_at(v.instructions, v.ip, linewise_body(lines, eol_code(crlf), last_eol)),
        forall|q: int| 0 <= q < lines.len() ==> printable_data(#[trigger] lines[q]),
        forall|x: int| x >= v.tape.1 ==> #[trigger] cell(v.tape, x) == 0,
    ensures
        same_frame(v, run(v, n)),
        run(v, n).ip == v.ip + linewise_body(lines, eol_code(crlf), last_eol).len(),
        tape_wf(run(v, n).tape),
        run(v, n).output == v.output + printed(joined_lines(lines, eol_bytes(crlf), last_eol)),
        forall|x: int| x >= run(v, n).tape.1 ==> #[trigger] cell(run(v, n).tape, x) == 0,
    decreases lines.len(),
{
    let eol = eol_code(crlf);
    if lines.len() == 0 {
        assert(v.output + printed(Seq::empty()) =~= v.output);
        0
    } else {
        let prog = v.instructions;
        let dl = lines.drop_last();
        let line = lines.last();
        let g = gen_loop_spec(line, true);
        let tail = if last_eol { eol } else { Seq::<char>::empty() };
        assert(linewise_body(lines, eol, last_eol) == linewise_body(dl, eol, true) + g + tail);
        lemma_code_at_split(prog, v.ip, linewise_body(dl, eol, true) + g, tail);
        lemma_code_at_split(prog, v.ip, linewise_body(dl, eol, true), g);
        assert forall|q: int| 0 <= q < dl.len() implies printable_data(#[trigger] dl[q]) by {
            assert(dl[q] == lines[q]);
        }
        let n1 = lemma_run_lines(v, dl, crlf, true);
        let w1 = run(v, n1);
        assert(printable_data(lines[lines.len() - 1]));
        let n2 = lemma_run_gen_loop(w1, line, true);
        let w2 = run(w1, n2);
        lemma_run_add(v, n1, n2);
        assert forall|x: int| x >= w2.tape.1 implies #[trigger] cell(w2.tape, x) == 0 by {
            assert(cell(w2.tape, x) == cell(w1.tape, x));
        }
        let eb = if last_eol { eol_bytes(crlf) } else { Seq::<u8>::empty() };
        assert(joined_lines(lines, eol_bytes(crlf), last_eol) == joined_lines(dl, eol_bytes(crlf), true) + line + eb);
        lemma_printed_add(joined_lines(dl, eol_bytes(crlf), true), line);
        lemma_printed_add(joined_lines(dl, eol_bytes(crlf), true) + line, eb);
        if last_eol {
            let n3 = lemma_run_eol(w2, crlf);
            lemma_run_add(v, n1 + n2, n3);
            n1 + n2 + n3
        } else {
            assert(printed(eb) =~= Seq::<char>::empty());
            assert(w2.output =~= v.output + printed(joined_lines(lines, eol_bytes(crlf), last_eol)));
            n1 + n2
        }
    }
}

proof fn lemma_linewise_bf(lines: Seq<Seq<u8>>, crlf: bool, last_eol: bool)
    ensures
        bf_chars(linewise_body(lines, eol_code(crlf), last_eol)),
    decreases lines.len(),
{
    if lines.len() > 0 {
        let eol = eol_code(crlf);
        lemma_linewise_bf(lines.drop_last(), crlf, true);
        lemma_gen_loop_bf(lines.last(), true);
        if crlf {
            lemma_bf_concat(chars_n('+', 13), seq!['.']);
            lemma_bf_concat(chars_n('+', 13) + seq!['.'], chars_n('-', 3));
            lemma_bf_concat(chars_n('+', 13) + seq!['.'] + chars_n('-', 3), seq!['.', '>']);
        } else {
            lemma_bf_concat(chars_n('+', 10), seq!['.', '>']);
        }
        let tail = if last_eol { eol } else { Seq::<char>::empty() };
        lemma_bf_concat(linewise_body(lines.drop_last(), eol, true), gen_loop_spec(lines.last(), true));
        lemma_bf_concat(linewise_body(lines.drop_last(), eol, true) + gen_loop_spec(lines.last(), true), tail);
    }
}

/// A linewise script, run from the start on any input, comes to its end
/// without an error on the way and has then printed the lines of the data it
/// was made from, with the line ending that the data uses; it is
/// instructions followed by a line ending.
pub proof fn law_linewise_script_prints_lines(data: Seq<u8>, input: Seq<u8>, auto_input: Option<u8>)
    requires
        printable_data(data),
    ensures
        exists|n: nat| {
            let w = #[trigger] run(start(encode_utf8(linewise_spec(data)), input, auto_input), n);
            finished(w) && w.output == printed(linewise_text(data))
        },
        script_alphabet(linewise_spec(data)),
        forall|m: nat|
            finished(#[trigger] run(start(encode_utf8(linewise_spec(data)), input, auto_input), m)) || step(
                run(start(encode_utf8(linewise_spec(data)), input, auto_input), m),
            ).1 matches Some(Ok(_)),
{
    let lines = lines_of(data);
    let crlf = has_crlf(data);
    let last_eol = ends_with_eol_spec(data);
    let body = linewise_body(lines, eol_code(crlf), last_eol);
    lemma_linewise_bf(lines, crlf, last_eol);
    lemma_script_program(body);
    lemma_lines_printable(data);
    let code = encode_utf8(linewise_spec(data));
    let v = start(code, input, auto_input);
    lemma_fresh_start(code, input, auto_input);
    let n = lemma_run_lines(v, lines, crlf, last_eol);
    assert(run(v, n).output =~= printed(linewise_text(data)));
    assert(linewise_spec(data) == body + seq!['\n']);
    assert((body + seq!['\n']).drop_last() =~= body);
    law_run_to_end_never_fails(v, n);
}

proof fn lemma_joined_cons(l: Seq<u8>, ls: Seq<Seq<u8>>, eol: Seq<u8>, last_eol: bool)
    ensures
        joined_lines(seq![l] + ls, eol, last_eol) == if ls.len() == 0 {
            l + if last_eol { eol } else { Seq::empty() }
        } else {
            l + eol + joined_lines(ls, eol, last_eol)
        },
    decreases ls.len(),
{
    let all = seq![l] + ls;
    let e = if last_eol { eol } else { Seq::<u8>::empty() };
    if ls.len() == 0 {
        assert(all.drop_last() =~= Seq::<Seq<u8>>::empty());
        assert(joined_lines(all.drop_last(), eol, true) == Seq::<u8>::empty());
        assert(all.last() == l);
        assert(joined_lines(all, eol, last_eol) =~= l + e);
    } else {
        assert(all.drop_last() =~= seq![l] + ls.drop_last());
        assert(all.last() == ls.last());
        lemma_joined_cons(l, ls.drop_last(), eol, true);
        if ls.len() == 1 {
            assert(ls.drop_last() =~= Seq::<Seq<u8>>::empty());
            assert(joined_lines(ls.drop_last(), eol, true) == Seq::<u8>::empty());
            assert(joined_lines(ls, eol, last_eol) =~= ls.last() + e);
            assert(joined_lines(all, eol, last_eol) =~= l + eol + joined_lines(ls, eol, last_eol));
        } else {
            assert(joined_lines(all, eol, last_eol) =~= l + eol + joined_lines(ls, eol, last_eol));
        }
    }
}

/// Text without `\r\n` comes out of a linewise script unchanged.
pub proof fn law_linewise_text_without_crlf(data: Seq<u8>)
    requires
        !has_crlf(data),
    ensures
        linewise_text(data) == data,
    decreases data.len(),
{
    let eol = eol_bytes(false);
    let last_eol = ends_with_eol_spec(data);
    if data.len() > 0 {
        lemma_first_newline_bounds(data);
        let k = first_newline(data);
        if k >= data.len() {
            assert(lines_of(data) == seq![data]);
            assert(!last_eol) by {
                assert(data[data.len() - 1] != 10);
            }
            lemma_joined_cons(data, Seq::empty(), eol, last_eol);
            assert(seq![data] + Seq::<Seq<u8>>::empty() =~= seq![data]);
            assert(data + Seq::<u8>::empty() =~= data);
        } else {
            let line = data.subrange(0, k);
            let rest = data.subrange(k + 1, data.len() as int);
            assert(strip_cr(line) == line) by {
                if line.len() > 0 && line.last() == 13 {
                    assert(data[k - 1] == 13 && data[k] == 10);
                }
            }
            assert(lines_of(data) == seq![line] + lines_of(rest));
            lemma_joined_cons(line, lines_of(rest), eol, last_eol);
            if rest.len() == 0 {
                assert(lines_of(rest) =~= Seq::<Seq<u8>>::empty());
                assert(last_eol);
                assert(line + eol =~= data);
            } else {
                assert(!has_crlf(rest)) by {
                    if has_crlf(rest) {
                        let i = choose|i: int| 0 <= i < rest.len() - 1 && #[trigger] rest[i] == 13 && rest[i + 1] == 10;
                        assert(data[k + 1 + i] == 13 && data[k + 2 + i] == 10);
                    }
                }
                assert(ends_with_eol_spec(rest) == last_eol);
                law_linewise_text_without_crlf(rest);
                assert(line + eol + rest =~= data);
            }
        }
    } else {
        assert(lines_of(data) =~= Seq::<Seq<u8>>::empty());
    }
}

/// A state that a step leaves as it is stays so.
proof fn lemma_run_fixed(w: InterpreterView, m: nat)
    requires
        step(w).0 == w,
    ensures
        run(w, m) == w,
    decreases m,
{
    if m > 0 {
        lemma_run_fixed(w, (m - 1) as nat);
    }
}

/// The tape after running `script` on no input for `max_steps` steps; the
/// run stops sooner at the end of the script or at an error, which leave
/// the state as it is.
pub fn tape_from_script(script: &str, max_steps: u64) -> (t: Tape)
    ensures
        t@ == run(start(encode_utf8(script@), Seq::empty(), None), max_steps as nat).tape,
{
    let ghost v0 = start(encode_utf8(script@), Seq::empty(), None);
    let no_input: Vec<u8> = Vec::new();
    let mut interpreter = Interpreter::new(script.as_bytes(), no_input.as_slice(), None);
    assert(interpreter@ == v0);
    let mut i: u64 = 0;
    while i < max_steps
        invariant
            i <= max_steps,
            interpreter@ == run(v0, i as nat),
        ensures
            interpreter@ == run(v0, max_steps as nat),
        decreases max_steps - i,
    {
        let ghost before = interpreter@;
        let r = interpreter.next();
        proof {
            lemma_run_one(before);
            lemma_run_add(v0, i as nat, 1);
        }
        match r {
            Some(Ok(_)) => {},
            _ => {
                proof {
                    lemma_run_fixed(before, (max_steps - i) as nat);
                    lemma_run_add(v0, i as nat, (max_steps - i) as nat);
                }
                break;
            },
        }
        i += 1;
    }
    interpreter.tape().clone()
}

/// A charwise script made from a text, run from the start on any input,
/// comes to its end without an error on the way and has then printed
/// exactly the text's bytes; it is written in the eight instructions and
/// ends with a line ending.
pub proof fn law_charwise_script_prints_text(text: Seq<char>, input: Seq<u8>, auto_input: Option<u8>)
    ensures
        exists|n: nat| {
            let w = #[trigger] run(start(encode_utf8(charwise_spec(encode_utf8(text))), input, auto_input), n);
            finished(w) && w.output == printed(encode_utf8(text))
        },
        script_alphabet(charwise_spec(encode_utf8(text))),
        forall|m: nat|
            finished(#[trigger] run(start(encode_utf8(charwise_spec(encode_utf8(text))), input, auto_input), m))
                || step(run(start(encode_utf8(charwise_spec(encode_utf8(text))), input, auto_input), m)).1 matches Some(
                Ok(_),
            ),
{
    law_text_is_printable(text);
    law_charwise_script_prints_data(encode_utf8(text), input, auto_input);
}

/// A unique-chars script made from a text, run from the start on any
/// input, comes to its end without an error on the way and has then printed
/// exactly the text's bytes; it is written in the eight instructions and
/// ends with a line ending.
pub proof fn law_unique_chars_script_prints_text(text: Seq<char>, input: Seq<u8>, auto_input: Option<u8>)
    ensures
        exists|n: nat| {
            let w = #[trigger] run(start(encode_utf8(unique_chars_spec(encode_utf8(text))), input, auto_input), n);
            finished(w) && w.output == printed(encode_utf8(text))
        },
        script_alphabet(unique_chars_spec(encode_utf8(text))),
        forall|m: nat|
            finished(#[trigger] run(start(encode_utf8(unique_chars_spec(encode_utf8(text))), input, auto_input), m))
                || step(run(start(encode_utf8(unique_chars_spec(encode_utf8(text))), input, auto_input), m)).1 matches Some(
                Ok(_),
            ),
{
    law_text_is_printable(text);
    law_unique_chars_script_prints_data(encode_utf8(text), input, auto_input);
}

/// A linewise script made from a text, run from the start on any input,
/// comes to its end without an error on the way and has then printed the
/// text's lines with the line ending the text uses; it is written in the
/// eight instructions and ends with a line ending.
pub proof fn law_linewise_script_prints_text(text: Seq<char>, input: Seq<u8>, auto_input: Option<u8>)
    ensures
        exists|n: nat| {
            let w = #[trigger] run(start(encode_utf8(linewise_spec(encode_utf8(text))), input, auto_input), n);
            finished(w) && w.output == printed(linewise_text(encode_utf8(text)))
        },
        script_alphabet(linewise_spec(encode_utf8(text))),
        forall|m: nat|
            finished(#[trigger] run(start(encode_utf8(linewise_spec(encode_utf8(text))), input, auto_input), m))
                || step(run(start(encode_utf8(linewise_spec(encode_utf8(text))), input, auto_input), m)).1 matches Some(
                Ok(_),
            ),
{
    law_text_is_printable(text);
    law_linewise_script_prints_lines(encode_utf8(text), input, auto_input);
}

/// A script that `generate_script` writes in the charwise or the
/// unique-chars mode without the newline option, run from the start on any
/// input, comes to its end and has then printed exactly the data's bytes,
/// a final line ending included.
pub proof fn law_generated_script_prints_the_data(data: Seq<char>, input: Seq<u8>, auto_input: Option<u8>)
    ensures
        exists|n: nat|
            {
                let w = #[trigger] run(
                    start(encode_utf8(charwise_spec(encode_utf8(data_to_print(data, false)))), input, auto_input),
                    n,
                );
                finished(w) && w.output == printed(encode_utf8(data))
            },
        exists|n: nat|
            {
                let w = #[trigger] run(
                    start(encode_utf8(unique_chars_spec(encode_utf8(data_to_print(data, false)))), input, auto_input),
                    n,
                );
                finished(w) && w.output == printed(encode_utf8(data))
            },
{
    law_text_to_print_keeps_the_data(data, false);
    law_unique_chars_script_prints_text(data, input, auto_input);
    law_charwise_script_prints_text(data, input, auto_input);
}

} // verus!
