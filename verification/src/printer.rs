//! Output that can be erased and printed again, as terminal bytes.
use vstd::prelude::*;

use crate::lines::{ends_with_eol, ends_with_eol_spec, lemma_lines_of_props, lines_of, split_lines};

verus! {

/// Terminal bytes that move the cursor up one line (`ESC [ 1 A`).
pub open spec fn cursor_up() -> Seq<u8> {
    seq![27u8, 91u8, 49u8, 65u8]
}

/// Terminal bytes that return to the start of the line and clear it
/// (`\r ESC [ K`).
pub open spec fn clear_line() -> Seq<u8> {
    seq![13u8, 27u8, 91u8, 75u8]
}

/// `s` repeated `n` times.
pub open spec fn repeat_bytes(s: Seq<u8>, n: nat) -> Seq<u8>
    decreases n,
{
    if n == 0 {
        Seq::empty()
    } else {
        repeat_bytes(s, (n - 1) as nat) + s
    }
}

/// The lines, each followed by `\n` except the last, which gets one only if
/// `last_eol`.
pub open spec fn print_body(lines: Seq<Seq<u8>>, last_eol: bool) -> Seq<u8>
    decreases lines.len(),
{
    if lines.len() == 0 {
        Seq::empty()
    } else {
        print_body(lines.drop_last(), true) + lines.last() + if last_eol {
            seq![10u8]
        } else {
            Seq::empty()
        }
    }
}

/// The number of `\n` bytes in `s`: how many rows printing `s` moves the
/// cursor down.
pub open spec fn newlines(s: Seq<u8>) -> nat
    decreases s.len(),
{
    if s.len() == 0 {
        0
    } else {
        newlines(s.drop_last()) + if s.last() == 10 {
            1nat
        } else {
            0nat
        }
    }
}

/// Clears `clears` lines from the bottom up, moving up `ups` rows: a move
/// up before each clear while there are as many moves left as lines, else
/// the line the cursor is on is cleared first.
pub open spec fn erase(ups: nat, clears: nat) -> Seq<u8>
    decreases clears,
{
    if clears == 0 {
        Seq::empty()
    } else if ups >= clears {
        cursor_up() + clear_line() + erase((ups - 1) as nat, (clears - 1) as nat)
    } else {
        clear_line() + erase(ups, (clears - 1) as nat)
    }
}

/// The bytes that `Printer::reset` writes for printer `p`.
pub open spec fn reset_output(p: Printer) -> Seq<u8> {
    if p.lines_printed == 0 {
        Seq::<u8>::empty()
    } else {
        (if p.has_final_eol { cursor_up() } else { Seq::<u8>::empty() }) + clear_line() + repeat_bytes(
            cursor_up() + clear_line(),
            (p.lines_printed - 1) as nat,
        )
    }
}

/// The printer after `Printer::reset`.
pub open spec fn after_reset(p: Printer) -> Printer {
    Printer { lines_printed: 0, has_final_eol: p.has_final_eol || p.lines_printed > 0 }
}

/// The printer after `Printer::print` of `data`.
pub open spec fn after_print(p: Printer, data: Seq<u8>) -> Printer {
    Printer {
        lines_printed: (p.lines_printed + lines_of(data).len()) as usize,
        has_final_eol: if lines_of(data).len() == 0 {
            p.has_final_eol
        } else {
            ends_with_eol_spec(data)
        },
    }
}

/// Prints output that can later be erased again: it counts the lines it
/// has printed and whether the last of them was ended.
#[derive(Clone, Copy, Debug, PartialEq, Eq, Structural)]
pub struct Printer {
    pub lines_printed: usize,
    pub has_final_eol: bool,
}

impl Printer {
    /// A printer that has printed nothing.
    pub fn new() -> (p: Self)
        ensures
            p.lines_printed == 0,
            p.has_final_eol,
    {
        Printer { lines_printed: 0, has_final_eol: true }
    }

    /// The bytes that erase everything printed so far: for each printed
    /// line, clear it and move up — except that a last line without line
    /// ending is cleared where the cursor already is.
    pub fn reset(&mut self) -> (out: Vec<u8>)
        ensures
            *final(self) == after_reset(*old(self)),
            out@ == reset_output(*old(self)),
    {
        let mut out: Vec<u8> = Vec::new();
        let ghost n = self.lines_printed;
        let ghost first_eol = self.has_final_eol;
        while self.lines_printed > 0
            invariant
                self.lines_printed <= n,
                n == old(self).lines_printed,
                first_eol == old(self).has_final_eol,
                self.lines_printed < n ==> self.has_final_eol,
                self.lines_printed == n ==> self.has_final_eol == first_eol,
                out@ == if self.lines_printed == n {
                    Seq::<u8>::empty()
                } else {
                    (if first_eol { cursor_up() } else { Seq::<u8>::empty() }) + clear_line()
                        + repeat_bytes(cursor_up() + clear_line(), (n - self.lines_printed - 1) as nat)
                },
            decreases self.lines_printed,
        {
            let ghost before = out@;
            let ghost k = self.lines_printed;
            if self.has_final_eol {
                out.push(27);
                out.push(91);
                out.push(49);
                out.push(65);
            } else {
                self.has_final_eol = true;
            }
            out.push(13);
            out.push(27);
            out.push(91);
            out.push(75);
            self.lines_printed = self.lines_printed - 1;
            proof {
                if k == n {
                    assert(repeat_bytes(cursor_up() + clear_line(), 0) =~= Seq::<u8>::empty());
                    assert(out@ =~= (if first_eol { cursor_up() } else { Seq::<u8>::empty() }) + clear_line()
                        + repeat_bytes(cursor_up() + clear_line(), 0));
                } else {
                    let r = (n - k - 1) as nat;
                    assert(repeat_bytes(cursor_up() + clear_line(), r + 1) == repeat_bytes(cursor_up() + clear_line(), r) + (cursor_up() + clear_line()));
                    assert(out@ =~= (if first_eol { cursor_up() } else { Seq::<u8>::empty() }) + clear_line()
                        + repeat_bytes(cursor_up() + clear_line(), r + 1));
                }
            }
        }
        out
    }

    /// The bytes that print `data` line by line; the last line is ended only
    /// if `data` ends with a line ending. Counts the lines printed.
    pub fn print(&mut self, data: &[u8]) -> (out: Vec<u8>)
        requires
            old(self).lines_printed + lines_of(data@).len() <= usize::MAX,
        ensures
            out@ == print_body(lines_of(data@), ends_with_eol_spec(data@)),
            *final(self) == after_print(*old(self), data@),
    {
        let has_final_eol = ends_with_eol(data);
        let lines = split_lines(data);
        let ghost ls = lines_of(data@);
        let n = lines.len();
        let mut out: Vec<u8> = Vec::new();
        let mut i: usize = 0;
        while i < n
            invariant
                i <= n,
                n == ls.len(),
                lines@.len() == n,
                forall|q: int| 0 <= q < n ==> #[trigger] lines@[q]@ == ls[q],
                self.lines_printed == old(self).lines_printed + i,
                old(self).lines_printed + n <= usize::MAX,
                self.has_final_eol == old(self).has_final_eol,
                has_final_eol == ends_with_eol_spec(data@),
                out@ == if i == 0 {
                    Seq::<u8>::empty()
                } else {
                    print_body(ls.subrange(0, i as int), i < n || has_final_eol)
                },
            decreases n - i,
        {
            let ghost before = out@;
            let line = &lines[i];
            let mut j: usize = 0;
            while j < line.len()
                invariant
                    j <= line@.len(),
                    out@ == before + line@.subrange(0, j as int),
                decreases line.len() - j,
            {
                out.push(line[j]);
                assert(line@.subrange(0, j as int + 1) =~= line@.subrange(0, j as int).push(line@[j as int]));
                j += 1;
            }
            assert(line@.subrange(0, line@.len() as int) =~= line@);
            if i + 1 < n || has_final_eol {
                out.push(10);
            }
            self.lines_printed = self.lines_printed + 1;
            proof {
                let pre = ls.subrange(0, i as int + 1);
                let x = i + 1 < n || has_final_eol;
                assert(pre.drop_last() =~= ls.subrange(0, i as int));
                assert(pre.last() == ls[i as int]);
                if i == 0 {
                    assert(print_body(pre.drop_last(), true) =~= Seq::<u8>::empty());
                }
                assert(print_body(pre, x) == print_body(pre.drop_last(), true) + pre.last() + if x {
                    seq![10u8]
                } else {
                    Seq::<u8>::empty()
                });
                assert(out@ =~= print_body(pre, x));
            }
            i += 1;
        }
        if n > 0 {
            self.has_final_eol = has_final_eol;
            assert(ls.subrange(0, n as int) =~= ls);
        } else {
            assert(print_body(ls, has_final_eol) =~= Seq::<u8>::empty());
        }
        out
    }
}

proof fn lemma_newlines_concat(a: Seq<u8>, b: Seq<u8>)
    ensures
        newlines(a + b) == newlines(a) + newlines(b),
    decreases b.len(),
{
    if b.len() == 0 {
        assert(a + b =~= a);
    } else {
        lemma_newlines_concat(a, b.drop_last());
        assert((a + b).drop_last() =~= a + b.drop_last());
    }
}

proof fn lemma_newlines_none(s: Seq<u8>)
    requires
        forall|j: int| 0 <= j < s.len() ==> s[j] != 10,
    ensures
        newlines(s) == 0,
    decreases s.len(),
{
    if s.len() > 0 {
        lemma_newlines_none(s.drop_last());
    }
}

/// Printing lines that hold no `\n` moves down one row after each line but
/// the last, and after the last one only if it is ended.
proof fn lemma_newlines_body(lines: Seq<Seq<u8>>, last_eol: bool)
    requires
        forall|i: int, j: int| 0 <= i < lines.len() && 0 <= j < lines[i].len() ==> #[trigger] lines[i][j] != 10,
    ensures
        newlines(print_body(lines, last_eol)) == if lines.len() == 0 {
            0
        } else if last_eol {
            lines.len() as int
        } else {
            lines.len() - 1
        },
    decreases lines.len(),
{
    if lines.len() > 0 {
        let front = lines.drop_last();
        assert forall|i: int, j: int| 0 <= i < front.len() && 0 <= j < front[i].len() implies #[trigger] front[i][j]
            != 10 by {
            assert(front[i] == lines[i]);
        }
        lemma_newlines_body(front, true);
        let tail: Seq<u8> = if last_eol { seq![10u8] } else { Seq::empty() };
        assert forall|j: int| 0 <= j < lines.last().len() implies lines.last()[j] != 10 by {
            assert(lines.last()[j] == lines[lines.len() - 1][j]);
        }
        lemma_newlines_none(lines.last());
        lemma_newlines_concat(print_body(front, true), lines.last());
        lemma_newlines_concat(print_body(front, true) + lines.last(), tail);
        assert(print_body(lines, last_eol) == print_body(front, true) + lines.last() + tail);
        if last_eol {
            assert(tail.drop_last() =~= Seq::<u8>::empty());
            assert(newlines(tail.drop_last()) == 0);
            assert(tail.last() == 10);
            assert(newlines(tail) == 1);
        } else {
            assert(newlines(tail) == 0);
        }
        if front.len() == 0 {
            assert(newlines(print_body(front, true)) == 0);
        }
    }
}

proof fn lemma_erase_all(k: nat)
    ensures
        erase(k, k) == repeat_bytes(cursor_up() + clear_line(), k),
    decreases k,
{
    if k > 0 {
        lemma_erase_all((k - 1) as nat);
        lemma_repeat_front(cursor_up() + clear_line(), (k - 1) as nat);
        assert(cursor_up() + clear_line() + erase((k - 1) as nat, (k - 1) as nat) =~= (cursor_up() + clear_line())
            + erase((k - 1) as nat, (k - 1) as nat));
    }
}

proof fn lemma_repeat_front(s: Seq<u8>, k: nat)
    ensures
        repeat_bytes(s, k + 1) == s + repeat_bytes(s, k),
    decreases k,
{
    if k == 0 {
        assert(repeat_bytes(s, 1) == repeat_bytes(s, 0) + s);
        assert(Seq::<u8>::empty() + s =~= s + Seq::<u8>::empty());
    } else {
        lemma_repeat_front(s, (k - 1) as nat);
        assert(repeat_bytes(s, k + 1) == repeat_bytes(s, k) + s);
        assert(s + repeat_bytes(s, (k - 1) as nat) + s =~= s + (repeat_bytes(s, (k - 1) as nat) + s));
    }
}

/// Erasing after printing clears exactly what was printed: from a printer
/// with nothing on screen, printing `data` moves the cursor down one row per
/// line printed, but for the last line when `data` has no final line
/// ending; resetting then clears one line for each line printed and moves
/// up one row for each row the print moved down (one before each clear,
/// but for the first when there was no final line ending), so the cursor
/// is back where the print began; a second reset writes nothing.
pub proof fn law_reset_erases_print(p: Printer, data: Seq<u8>)
    requires
        p.lines_printed == 0,
        lines_of(data).len() <= usize::MAX,
    ensures
        ({
            let q = after_print(p, data);
            let rows = newlines(print_body(lines_of(data), ends_with_eol_spec(data)));
            &&& q.lines_printed == lines_of(data).len()
            &&& rows == if lines_of(data).len() == 0 {
                0
            } else if ends_with_eol_spec(data) {
                lines_of(data).len() as int
            } else {
                lines_of(data).len() - 1
            }
            &&& reset_output(q) == erase(rows, lines_of(data).len())
            &&& reset_output(after_reset(q)) == Seq::<u8>::empty()
        }),
{
    let lines = lines_of(data);
    let n = lines.len();
    let eol = ends_with_eol_spec(data);
    lemma_lines_of_props(data);
    lemma_newlines_body(lines, eol);
    if n > 0 {
        lemma_erase_all((n - 1) as nat);
        if eol {
            lemma_erase_all(n);
            lemma_repeat_front(cursor_up() + clear_line(), (n - 1) as nat);
            assert(cursor_up() + clear_line() + repeat_bytes(cursor_up() + clear_line(), (n - 1) as nat) =~= (
            cursor_up() + clear_line()) + repeat_bytes(cursor_up() + clear_line(), (n - 1) as nat));
        } else {
            assert(erase((n - 1) as nat, n) == clear_line() + erase((n - 1) as nat, (n - 1) as nat));
            assert(Seq::<u8>::empty() + clear_line() =~= clear_line());
        }
    }
}

proof fn lemma_print_body_cons(l: Seq<u8>, ls: Seq<Seq<u8>>, last_eol: bool)
    ensures
        print_body(seq![l] + ls, last_eol) == if ls.len() == 0 {
            l + if last_eol { seq![10u8] } else { Seq::<u8>::empty() }
        } else {
            l + seq![10u8] + print_body(ls, last_eol)
        },
    decreases ls.len(),
{
    let all = seq![l] + ls;
    if ls.len() == 0 {
        assert(all =~= seq![l]);
        assert(all.drop_last() =~= Seq::<Seq<u8>>::empty());
        assert(print_body(all.drop_last(), true) =~= Seq::<u8>::empty());
        assert(Seq::<u8>::empty() + l =~= l);
    } else {
        lemma_print_body_cons(l, ls.drop_last(), true);
        assert(all.drop_last() =~= seq![l] + ls.drop_last());
        assert(all.last() == ls.last());
        let tail: Seq<u8> = if last_eol { seq![10u8] } else { Seq::empty() };
        if ls.len() == 1 {
            assert(ls.drop_last() =~= Seq::<Seq<u8>>::empty());
            assert(print_body(ls.drop_last(), true) =~= Seq::<u8>::empty());
            assert(print_body(ls, last_eol) == print_body(ls.drop_last(), true) + ls.last() + tail);
            assert(l + seq![10u8] + ls.last() + tail =~= l + seq![10u8] + (Seq::<u8>::empty() + ls.last() + tail));
        } else {
            assert(print_body(ls, last_eol) == print_body(ls.drop_last(), true) + ls.last() + tail);
            assert(l + seq![10u8] + print_body(ls.drop_last(), true) + ls.last() + tail =~= l + seq![10u8] + (
            print_body(ls.drop_last(), true) + ls.last() + tail));
        }
    }
}

/// Printing text that holds no carriage return writes exactly that text:
/// its lines, each followed by a line ending, but the last only if the
/// text ends with one.
pub proof fn law_print_writes_the_data(data: Seq<u8>)
    requires
        forall|i: int| 0 <= i < data.len() ==> data[i] != 13,
    ensures
        print_body(lines_of(data), ends_with_eol_spec(data)) == data,
    decreases data.len(),
{
    if data.len() == 0 {
        assert(print_body(lines_of(data), false) =~= data);
    } else {
        let k = crate::lines::first_newline(data);
        crate::lines::lemma_first_newline_bounds(data);
        if k >= data.len() {
            assert(lines_of(data) == seq![data]);
            assert(!ends_with_eol_spec(data));
            lemma_print_body_cons(data, Seq::<Seq<u8>>::empty(), false);
            assert(seq![data] + Seq::<Seq<u8>>::empty() =~= seq![data]);
            assert(data + Seq::<u8>::empty() =~= data);
        } else {
            let head = data.subrange(0, k);
            let rest = data.subrange(k + 1, data.len() as int);
            assert(crate::lines::strip_cr(head) == head) by {
                if head.len() > 0 {
                    assert(head.last() == data[k - 1]);
                }
            }
            assert(lines_of(data) == seq![head] + lines_of(rest));
            lemma_print_body_cons(head, lines_of(rest), ends_with_eol_spec(data));
            if rest.len() == 0 {
                assert(lines_of(rest) =~= Seq::<Seq<u8>>::empty());
                assert(k == data.len() - 1);
                assert(ends_with_eol_spec(data));
                assert(head + seq![10u8] =~= data);
            } else {
                assert forall|i: int| 0 <= i < rest.len() implies rest[i] != 13 by {
                    assert(rest[i] == data[k + 1 + i]);
                }
                law_print_writes_the_data(rest);
                assert(ends_with_eol_spec(rest) == ends_with_eol_spec(data)) by {
                    assert(rest.last() == data.last());
                }
                crate::lines::lemma_lines_of_props(rest);
                assert(lines_of(rest).len() > 0) by {
                    let kr = crate::lines::first_newline(rest);
                    crate::lines::lemma_first_newline_bounds(rest);
                }
                assert(head + seq![10u8] + rest =~= data);
            }
        }
    }
}

} // verus!

