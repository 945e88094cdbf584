//! Generators of Brainfuck scripts that print a given text.
use vstd::prelude::*;
use vstd::string::StringExecFns;

use crate::lines::{contains_crlf, ends_with_eol, ends_with_eol_spec, has_crlf, lines_of, split_lines};
use crate::text::{chars_of, push_char, repeat, string_from_chars};
use vstd::utf8::{
    encode_scalar, encode_utf8, last_continuation_byte, leading_byte_width_1, leading_byte_width_2, leading_byte_width_3,
    leading_byte_width_4, second_last_continuation_byte, third_last_continuation_byte,
};

verus! {

/// The number of ten-steps that brings a zero cell nearest to `b`:
/// `b / 10` rounded half up.
pub open spec fn tens(b: u8) -> int {
    (b as int + 5) / 10
}

/// How far `b` lies from its nearest multiple of ten (from -5 to 4).
pub open spec fn offset_from_tens(b: u8) -> int {
    b as int - 10 * tens(b)
}

/// `n` copies of the character `c`.
pub open spec fn chars_n(c: char, n: int) -> Seq<char> {
    Seq::new(if n < 0 { 0 } else { n as nat }, |i: int| c)
}

/// For each value: step right, then add its number of tens.
pub open spec fn fill_part(values: Seq<u8>) -> Seq<char>
    decreases values.len(),
{
    if values.len() == 0 {
        Seq::empty()
    } else {
        fill_part(values.drop_last()) + seq!['>'] + chars_n('+', tens(values.last()))
    }
}

/// For each value: step right, then correct the cell from its multiple of ten
/// to the value itself.
pub open spec fn adjust_part(values: Seq<u8>) -> Seq<char>
    decreases values.len(),
{
    if values.len() == 0 {
        Seq::empty()
    } else {
        let d = offset_from_tens(values.last());
        adjust_part(values.drop_last()) + seq!['>'] + if d < 0 {
            chars_n('-', -d)
        } else {
            chars_n('+', d)
        }
    }
}

/// Brainfuck that stores `values` in the cells right of the current one (a
/// loop of ten rounds adds the tens, then each cell is corrected), comes back
/// to the current cell and, if asked, prints the cells and moves onto a
/// fresh cell.
pub open spec fn gen_loop_spec(values: Seq<u8>, print_cells: bool) -> Seq<char> {
    let n = values.len() as int;
    chars_n('+', 10) + seq!['['] + fill_part(values) + chars_n('<', n) + seq!['-', ']'] + adjust_part(values)
        + chars_n('<', n) + if print_cells {
        repeat(seq!['>', '.'], n as nat) + seq!['>']
    } else {
        Seq::empty()
    }
}

/// Pushes `n` copies of `c`.
fn push_n(script: &mut String, c: char, n: usize)
    ensures
        final(script)@ == old(script)@ + chars_n(c, n as int),
{
    let ghost start = script@;
    let mut i: usize = 0;
    while i < n
        invariant
            i <= n,
            script@ == start + chars_n(c, i as int),
        decreases n - i,
    {
        push_char(script, c);
        assert(chars_n(c, i as int + 1) =~= chars_n(c, i as int).push(c));
        i += 1;
    }
}

/// Appends Brainfuck that stores `data` in the cells to the right, returns to
/// the starting cell and, when `print_cells` is set, prints them all.
pub fn gen_loop(script: &mut String, data: &[u8], print_cells: bool)
    requires
        forall|i: int| 0 <= i < data@.len() ==> data@[i] < 255,
    ensures
        final(script)@ == old(script)@ + gen_loop_spec(data@, print_cells),
{
    let ghost start = script@;
    let len = data.len();
    push_n(script, '+', 10);
    push_char(script, '[');
    let mut i: usize = 0;
    while i < len
        invariant
            i <= len,
            len == data@.len(),
            script@ == start + chars_n('+', 10) + seq!['['] + fill_part(data@.subrange(0, i as int)),
        decreases len - i,
    {
        push_char(script, '>');
        let factor = ((data[i] as usize) + 5) / 10;
        push_n(script, '+', factor);
        assert(data@.subrange(0, i as int + 1).drop_last() =~= data@.subrange(0, i as int));
        i += 1;
    }
    assert(data@.subrange(0, len as int) =~= data@);
    push_n(script, '<', len);
    push_char(script, '-');
    push_char(script, ']');
    let ghost mid = script@;
    let mut j: usize = 0;
    while j < len
        invariant
            j <= len,
            len == data@.len(),
            forall|q: int| 0 <= q < data@.len() ==> data@[q] < 255,
            script@ == mid + adjust_part(data@.subrange(0, j as int)),
        decreases len - j,
    {
        push_char(script, '>');
        let val = data[j] as usize;
        let approx = ((val + 5) / 10) * 10;
        if val < approx {
            push_n(script, '-', approx - val);
        } else {
            push_n(script, '+', val - approx);
        }
        assert(data@.subrange(0, j as int + 1).drop_last() =~= data@.subrange(0, j as int));
        j += 1;
    }
    push_n(script, '<', len);
    let ghost before_print = script@;
    if print_cells {
        let mut k: usize = 0;
        while k < len
            invariant
                k <= len,
                script@ == before_print + repeat(seq!['>', '.'], k as nat),
            decreases len - k,
        {
            push_char(script, '>');
            push_char(script, '.');
            assert(repeat(seq!['>', '.'], k as nat + 1) =~= repeat(seq!['>', '.'], k as nat) + seq!['>', '.']);
            k += 1;
        }
        push_char(script, '>');
    }
    assert(script@ =~= start + gen_loop_spec(data@, print_cells));
}

/// Every byte of the text is below 255 (true of any UTF-8 text).
pub open spec fn printable_data(data: Seq<u8>) -> bool {
    forall|i: int| 0 <= i < data.len() ==> data[i] < 255
}

/// Brainfuck that prints `data`: one loop fills a cell per byte, then
/// every cell is printed in order.
pub open spec fn charwise_spec(data: Seq<u8>) -> Seq<char> {
    gen_loop_spec(data, true) + seq!['\n']
}

/// Brainfuck that prints one line ending from the fresh cell it stands on:
/// `\r\n` or `\n`.
pub open spec fn eol_code(crlf: bool) -> Seq<char> {
    if crlf {
        chars_n('+', 13) + seq!['.'] + chars_n('-', 3) + seq!['.', '>']
    } else {
        chars_n('+', 10) + seq!['.', '>']
    }
}

/// One loop per line, each followed by the code for a line ending; the last
/// line gets one only if `last_eol`.
pub open spec fn linewise_body(lines: Seq<Seq<u8>>, eol: Seq<char>, last_eol: bool) -> Seq<char>
    decreases lines.len(),
{
    if lines.len() == 0 {
        Seq::empty()
    } else {
        linewise_body(lines.drop_last(), eol, true) + gen_loop_spec(lines.last(), true) + if last_eol {
            eol
        } else {
            Seq::empty()
        }
    }
}

/// Brainfuck that prints `data` line by line, using `\r\n` endings if the
/// text has any and `\n` otherwise.
pub open spec fn linewise_spec(data: Seq<u8>) -> Seq<char> {
    linewise_body(lines_of(data), eol_code(has_crlf(data)), ends_with_eol_spec(data)) + seq!['\n']
}

pub proof fn lemma_lines_printable(data: Seq<u8>)
    requires
        printable_data(data),
    ensures
        forall|i: int| 0 <= i < lines_of(data).len() ==> printable_data(#[trigger] lines_of(data)[i]),
    decreases data.len(),
{
    if data.len() > 0 {
        crate::lines::lemma_first_newline_bounds(data);
        let k = crate::lines::first_newline(data);
        if k < data.len() {
            let rest = data.subrange(k + 1, data.len() as int);
            lemma_lines_printable(rest);
            assert forall|i: int| 0 <= i < lines_of(data).len() implies printable_data(#[trigger] lines_of(data)[i]) by {
                if i == 0 {
                    let l = crate::lines::strip_cr(data.subrange(0, k));
                    assert(lines_of(data)[0] == l);
                    assert forall|j: int| 0 <= j < l.len() implies l[j] < 255 by {
                        assert(l[j] == data[j]);
                    }
                } else {
                    assert(lines_of(data)[i] == lines_of(rest)[i - 1]);
                }
            }
        }
    }
}

/// A script that prints `data`, one cell per byte.
fn charwise_script(data: &[u8]) -> (script: String)
    requires
        printable_data(data@),
    ensures
        script@ == charwise_spec(data@),
{
    let mut script = String::new();
    gen_loop(&mut script, data, true);
    push_char(&mut script, '\n');
    assert(script@ =~= charwise_spec(data@));
    script
}

/// A script that prints `data` one line at a time.
fn linewise_script(data: &[u8]) -> (script: String)
    requires
        printable_data(data@),
    ensures
        script@ == linewise_spec(data@),
{
    let has_final_eol = ends_with_eol(data);
    let crlf = contains_crlf(data);
    let lines = split_lines(data);
    let ghost ls = lines_of(data@);
    let ghost eol = eol_code(crlf);
    proof {
        lemma_lines_printable(data@);
    }
    let mut script = String::new();
    let n = lines.len();
    let mut i: usize = 0;
    while i < n
        invariant
            i <= n,
            n == ls.len(),
            forall|q: int| 0 <= q < lines@.len() ==> #[trigger] lines@[q]@ == ls[q],
            lines@.len() == n,
            forall|q: int| 0 <= q < ls.len() ==> printable_data(#[trigger] ls[q]),
            eol == eol_code(crlf),
            has_final_eol == ends_with_eol_spec(data@),
            script@ == if i == 0 {
                Seq::<char>::empty()
            } else {
                linewise_body(ls.subrange(0, i as int), eol, i < n || has_final_eol)
            },
        decreases n - i,
    {
        proof {
            assert(ls.subrange(0, i as int + 1).drop_last() =~= ls.subrange(0, i as int));
            assert(ls.subrange(0, i as int + 1).last() == ls[i as int]);
            if i == 0 {
                assert(linewise_body(ls.subrange(0, 0), eol, true) =~= Seq::<char>::empty());
            }
        }
        assert(printable_data(lines@[i as int]@));
        gen_loop(&mut script, lines[i].as_slice(), true);
        if i + 1 < n || has_final_eol {
            if crlf {
                push_n(&mut script, '+', 13);
                push_char(&mut script, '.');
                push_n(&mut script, '-', 3);
                push_char(&mut script, '.');
                push_char(&mut script, '>');
            } else {
                push_n(&mut script, '+', 10);
                push_char(&mut script, '.');
                push_char(&mut script, '>');
            }
        }
        proof {
            let pre = ls.subrange(0, i as int + 1);
            let x = i + 1 < n || has_final_eol;
            assert(linewise_body(pre, eol, x) == linewise_body(pre.drop_last(), eol, true) + gen_loop_spec(pre.last(), true) + if x {
                eol
            } else {
                Seq::<char>::empty()
            });
            assert(script@ =~= linewise_body(pre, eol, x));
        }
        i += 1;
    }
    push_char(&mut script, '\n');
    proof {
        if n == 0 {
            assert(linewise_body(ls, eol, has_final_eol) =~= Seq::<char>::empty());
        } else {
            assert(ls.subrange(0, n as int) =~= ls);
        }
    }
    assert(script@ =~= linewise_spec(data@));
    script
}

/// The distinct byte values below `n` that occur in `data`, in increasing
/// order.
pub open spec fn unique_below(data: Seq<u8>, n: int) -> Seq<u8>
    decreases n,
{
    if n <= 0 {
        Seq::empty()
    } else if data.contains((n - 1) as u8) {
        unique_below(data, n - 1).push((n - 1) as u8)
    } else {
        unique_below(data, n - 1)
    }
}

proof fn lemma_unique_below_sorted(data: Seq<u8>, n: int)
    requires
        0 <= n <= 256,
    ensures
        forall|i: int, j: int|
            0 <= i < j < unique_below(data, n).len() ==> #[trigger] unique_below(data, n)[i] < #[trigger] unique_below(
                data,
                n,
            )[j],
        forall|b: u8| (b as int) < n ==> (data.contains(b) <==> #[trigger] unique_below(data, n).contains(b)),
    decreases n,
{
    if n > 0 {
        lemma_unique_below_sorted(data, n - 1);
        lemma_unique_below_props(data, n - 1);
        let u = unique_below(data, n - 1);
        if data.contains((n - 1) as u8) {
            let w = u.push((n - 1) as u8);
            assert forall|b: u8| (b as int) < n implies (data.contains(b) <==> #[trigger] w.contains(b)) by {
                if (b as int) < n - 1 {
                    if w.contains(b) {
                        let k = choose|k: int| 0 <= k < w.len() && w[k] == b;
                        if k < u.len() {
                            assert(u[k] == b);
                        }
                    }
                    if u.contains(b) {
                        let k = choose|k: int| 0 <= k < u.len() && u[k] == b;
                        assert(w[k] == b);
                    }
                } else {
                    assert(w[w.len() - 1] == b);
                }
            }
        } else {
            assert forall|b: u8| (b as int) < n implies (data.contains(b) <==> #[trigger] u.contains(b)) by {
                if b as int == n - 1 && u.contains(b) {
                    let k = choose|k: int| 0 <= k < u.len() && u[k] == b;
                    assert((u[k] as int) < n - 1);
                }
            }
        }
    }
}

/// The cells of a unique-chars script go to the distinct bytes of the
/// data in increasing order: the list holds each byte that occurs in the
/// data, once, smallest first, and no other.
pub proof fn law_unique_bytes_ascending(data: Seq<u8>)
    ensures
        forall|i: int, j: int|
            0 <= i < j < unique_below(data, 256).len() ==> #[trigger] unique_below(data, 256)[i]
                < #[trigger] unique_below(data, 256)[j],
        forall|b: u8| data.contains(b) <==> #[trigger] unique_below(data, 256).contains(b),
{
    lemma_unique_below_sorted(data, 256);
}

/// The cell that holds byte `c` in a unique-chars script: cells are given to
/// the distinct bytes in increasing order, starting at cell 1.
pub open spec fn cell_of(data: Seq<u8>, c: u8) -> int {
    1 + unique_below(data, c as int).len() as int
}

/// Moves from cell `from` to cell `to`.
pub open spec fn moves(from: int, to: int) -> Seq<char> {
    if to < from {
        chars_n('<', from - to)
    } else {
        chars_n('>', to - from)
    }
}

/// For each byte of `s` in turn: move to its cell and print it, starting from
/// cell 1.
pub open spec fn print_part(all: Seq<u8>, s: Seq<u8>) -> Seq<char>
    decreases s.len(),
{
    if s.len() == 0 {
        Seq::empty()
    } else {
        let from = if s.len() >= 2 { cell_of(all, s[s.len() - 2]) } else { 1 };
        print_part(all, s.drop_last()) + moves(from, cell_of(all, s.last())) + seq!['.']
    }
}

/// Brainfuck that gives each distinct byte of `data` one cell, then prints
/// `data` by moving between those cells.
pub open spec fn unique_chars_spec(data: Seq<u8>) -> Seq<char> {
    gen_loop_spec(unique_below(data, 256), false) + seq!['>'] + print_part(data, data) + seq!['\n']
}

pub proof fn lemma_unique_below_props(data: Seq<u8>, n: int)
    requires
        0 <= n <= 256,
    ensures
        unique_below(data, n).len() <= n,
        forall|i: int| 0 <= i < unique_below(data, n).len() ==> (#[trigger] unique_below(data, n)[i] as int) < n,
        forall|i: int| 0 <= i < unique_below(data, n).len() ==> data.contains(#[trigger] unique_below(data, n)[i]),
    decreases n,
{
    if n > 0 {
        lemma_unique_below_props(data, n - 1);
    }
}

/// Appends the moves from cell `from` to cell `to`.
fn push_moves(script: &mut String, from: usize, to: usize)
    ensures
        final(script)@ == old(script)@ + moves(from as int, to as int),
{
    if to < from {
        push_n(script, '<', from - to);
    } else {
        push_n(script, '>', to - from);
    }
}

/// A script that prints `data` using one cell per distinct byte.
fn unique_chars_script(data: &[u8]) -> (script: String)
    requires
        printable_data(data@),
    ensures
        script@ == unique_chars_spec(data@),
{
    let mut present: Vec<bool> = Vec::new();
    let mut b: usize = 0;
    while b < 256
        invariant
            b <= 256,
            present@.len() == b,
            forall|q: int| 0 <= q < b ==> !present@[q],
        decreases 256 - b,
    {
        present.push(false);
        b += 1;
    }
    let mut i: usize = 0;
    while i < data.len()
        invariant
            i <= data.len(),
            present@.len() == 256,
            forall|q: int| 0 <= q < 256 ==> (present@[q] <==> data@.subrange(0, i as int).contains(q as u8)),
        decreases data.len() - i,
    {
        let v = data[i] as usize;
        present.set(v, true);
        proof {
            let pre = data@.subrange(0, i as int);
            let post = data@.subrange(0, i as int + 1);
            assert(post =~= pre.push(data@[i as int]));
            assert forall|q: int| 0 <= q < 256 implies (present@[q] <==> post.contains(q as u8)) by {
                if post.contains(q as u8) {
                    let w = choose|w: int| 0 <= w < post.len() && post[w] == q as u8;
                    if w < i {
                        assert(pre[w] == q as u8);
                    }
                }
                if pre.contains(q as u8) {
                    let w = choose|w: int| 0 <= w < pre.len() && pre[w] == q as u8;
                    assert(post[w] == q as u8);
                }
                if q == v as int {
                    assert(post[i as int] == q as u8);
                }
            }
        }
        i += 1;
    }
    assert(data@.subrange(0, data.len() as int) =~= data@);
    let mut unique: Vec<u8> = Vec::new();
    let mut cell_index: Vec<usize> = Vec::new();
    let mut c: usize = 0;
    while c < 256
        invariant
            c <= 256,
            present@.len() == 256,
            forall|q: int| 0 <= q < 256 ==> (present@[q] <==> data@.contains(q as u8)),
            unique@ == unique_below(data@, c as int),
            unique@.len() <= c,
            cell_index@.len() == c,
            forall|q: int| 0 <= q < c ==> #[trigger] cell_index@[q] == cell_of(data@, q as u8),
        decreases 256 - c,
    {
        cell_index.push(unique.len() + 1);
        if present[c] {
            unique.push(c as u8);
        }
        c += 1;
    }
    proof {
        lemma_unique_below_props(data@, 256);
        assert forall|q: int| 0 <= q < unique@.len() implies unique@[q] < 255 by {
            let w = choose|w: int| 0 <= w < data@.len() && data@[w] == unique@[q];
        }
    }
    let mut script = String::new();
    gen_loop(&mut script, unique.as_slice(), false);
    push_char(&mut script, '>');
    let ghost head = script@;
    let mut cursor: usize = 1;
    let mut k: usize = 0;
    while k < data.len()
        invariant
            k <= data.len(),
            cell_index@.len() == 256,
            forall|q: int| 0 <= q < 256 ==> #[trigger] cell_index@[q] == cell_of(data@, q as u8),
            cursor == if k == 0 { 1 } else { cell_of(data@, data@[k - 1]) },
            script@ == head + print_part(data@, data@.subrange(0, k as int)),
        decreases data.len() - k,
    {
        let target = cell_index[data[k] as usize];
        push_moves(&mut script, cursor, target);
        push_char(&mut script, '.');
        proof {
            let pre = data@.subrange(0, k as int + 1);
            assert(pre.drop_last() =~= data@.subrange(0, k as int));
            if k >= 1 {
                assert(pre[pre.len() - 2] == data@[k - 1]);
            }
        }
        cursor = target;
        k += 1;
    }
    push_char(&mut script, '\n');
    assert(script@ =~= unique_chars_spec(data@));
    script
}

/// No byte of UTF-8 text is 255.
pub proof fn law_text_is_printable(text: Seq<char>)
    ensures
        printable_data(encode_utf8(text)),
    decreases text.len(),
{
    if text.len() > 0 {
        law_text_is_printable(text.drop_first());
        let c = text[0] as u32;
        let head = encode_scalar(c);
        let rest = encode_utf8(text.drop_first());
        assert(encode_utf8(text) == head + rest);
        assert(leading_byte_width_1(c) < 255) by (bit_vector);
        assert(leading_byte_width_2(c) < 255) by (bit_vector);
        assert(leading_byte_width_3(c) < 255) by (bit_vector);
        assert(leading_byte_width_4(c) < 255) by (bit_vector);
        assert(last_continuation_byte(c) < 255) by (bit_vector);
        assert(second_last_continuation_byte(c) < 255) by (bit_vector);
        assert(third_last_continuation_byte(c) < 255) by (bit_vector);
        assert forall|i: int| 0 <= i < head.len() implies head[i] < 255 by {}
        assert forall|i: int| 0 <= i < encode_utf8(text).len() implies encode_utf8(text)[i] < 255 by {
            if i < head.len() {
                assert(encode_utf8(text)[i] == head[i]);
            } else {
                assert(encode_utf8(text)[i] == rest[i - head.len()]);
            }
        }
    }
}

/// A charwise script for a text: it prints the text's bytes, one cell per
/// byte.
pub fn generator_charwise(data: &str) -> (script: String)
    ensures
        script@ == charwise_spec(encode_utf8(data@)),
{
    proof {
        law_text_is_printable(data@);
    }
    charwise_script(data.as_bytes())
}

/// A linewise script for a text: it prints the text one line at a time.
pub fn generator_linewise(data: &str) -> (script: String)
    ensures
        script@ == linewise_spec(encode_utf8(data@)),
{
    proof {
        law_text_is_printable(data@);
    }
    linewise_script(data.as_bytes())
}

/// A unique-chars script for a text: one cell per distinct byte of the
/// text, then the text printed by moving between them.
pub fn generator_unique_chars(data: &str) -> (script: String)
    ensures
        script@ == unique_chars_spec(encode_utf8(data@)),
{
    proof {
        law_text_is_printable(data@);
    }
    unique_chars_script(data.as_bytes())
}

/// The text a script is made from: the data, with a line ending added when
/// one is asked for and the data does not end in one.
pub open spec fn data_to_print(data: Seq<char>, newline: bool) -> Seq<char> {
    if newline && !(data.len() > 0 && data.last() == '\n') {
        data.push('\n')
    } else {
        data
    }
}

/// The script the `generate` options ask for: the data (with a final line
/// ending if `newline` is set and it has none) printed in the given mode —
/// `charwise`, `linewise` or `unique-chars`; any other mode is an error.
pub fn generate_script(mode: &str, newline: bool, data: &str) -> (r: Result<String, String>)
    ensures
        match r {
            Ok(script) => {
                let text = encode_utf8(data_to_print(data@, newline));
                ||| mode@ == "charwise"@ && script@ == charwise_spec(text)
                ||| mode@ == "linewise"@ && script@ == linewise_spec(text)
                ||| mode@ == "unique-chars"@ && script@ == unique_chars_spec(text)
            },
            Err(m) => m@ == "invalid mode (impossible): "@ + mode@ && mode@ != "charwise"@ && mode@ != "linewise"@
                && mode@ != "unique-chars"@,
        },
{
    let cs = chars_of(data);
    let mut text = string_from_chars(cs.as_slice());
    if newline && !(cs.len() > 0 && cs[cs.len() - 1] == '\n') {
        push_char(&mut text, '\n');
    }
    assert(text@ == data_to_print(data@, newline));
    let m = chars_of(mode);
    proof {
        reveal_strlit("charwise");
        reveal_strlit("linewise");
        reveal_strlit("unique-chars");
    }
    if same_chars(m.as_slice(), "charwise") {
        Ok(generator_charwise(text.as_str()))
    } else if same_chars(m.as_slice(), "linewise") {
        Ok(generator_linewise(text.as_str()))
    } else if same_chars(m.as_slice(), "unique-chars") {
        Ok(generator_unique_chars(text.as_str()))
    } else {
        let mut e = String::from_str("invalid mode (impossible): ");
        e.append(mode);
        Err(e)
    }
}

/// Whether `cs` are the characters of `s`.
fn same_chars(cs: &[char], s: &str) -> (b: bool)
    ensures
        b == (cs@ == s@),
{
    let t = chars_of(s);
    if cs.len() != t.len() {
        return false;
    }
    let mut i: usize = 0;
    while i < cs.len()
        invariant
            i <= cs.len(),
            cs@.len() == t@.len(),
            t@ == s@,
            forall|q: int| 0 <= q < i ==> cs@[q] == t@[q],
        decreases cs.len() - i,
    {
        if cs[i] != t[i] {
            return false;
        }
        i += 1;
    }
    assert(cs@ =~= t@);
    true
}

/// How many times `c` occurs in `s`.
pub open spec fn count_char(s: Seq<char>, c: char) -> nat
    decreases s.len(),
{
    if s.len() == 0 {
        0
    } else {
        count_char(s.drop_last(), c) + if s.last() == c {
            1nat
        } else {
            0nat
        }
    }
}

proof fn lemma_count_concat(a: Seq<char>, b: Seq<char>, c: char)
    ensures
        count_char(a + b, c) == count_char(a, c) + count_char(b, c),
    decreases b.len(),
{
    if b.len() == 0 {
        assert(a + b =~= a);
    } else {
        lemma_count_concat(a, b.drop_last(), c);
        assert((a + b).drop_last() =~= a + b.drop_last());
    }
}

proof fn lemma_count_absent(s: Seq<char>, c: char)
    requires
        forall|i: int| 0 <= i < s.len() ==> s[i] != c,
    ensures
        count_char(s, c) == 0,
    decreases s.len(),
{
    if s.len() > 0 {
        lemma_count_absent(s.drop_last(), c);
    }
}

proof fn lemma_count_one(x: char, c: char)
    ensures
        count_char(seq![x], c) == if x == c { 1nat } else { 0nat },
{
    assert(seq![x].drop_last() =~= Seq::<char>::empty());
    assert(count_char(Seq::<char>::empty(), c) == 0);
    assert(seq![x].last() == x);
}

proof fn lemma_fill_adjust_count(values: Seq<u8>, c: char)
    requires
        c == '.' || c == '[',
    ensures
        count_char(fill_part(values), c) == 0,
        count_char(adjust_part(values), c) == 0,
    decreases values.len(),
{
    if values.len() > 0 {
        let front = values.drop_last();
        lemma_fill_adjust_count(front, c);
        let d = offset_from_tens(values.last());
        let tail = if d < 0 { chars_n('-', -d) } else { chars_n('+', d) };
        lemma_count_one('>', c);
        lemma_count_absent(chars_n('+', tens(values.last())), c);
        lemma_count_absent(tail, c);
        lemma_count_concat(fill_part(front), seq!['>'], c);
        lemma_count_concat(fill_part(front) + seq!['>'], chars_n('+', tens(values.last())), c);
        lemma_count_concat(adjust_part(front), seq!['>'], c);
        lemma_count_concat(adjust_part(front) + seq!['>'], tail, c);
    }
}

/// The setup loop of a script without its printing part holds one `[` and
/// no `.`.
proof fn lemma_gen_loop_count(values: Seq<u8>)
    ensures
        count_char(gen_loop_spec(values, false), '.') == 0,
        count_char(gen_loop_spec(values, false), '[') == 1,
{
    let n = values.len() as int;
    let parts = seq![
        chars_n('+', 10),
        seq!['['],
        fill_part(values),
        chars_n('<', n),
        seq!['-', ']'],
        adjust_part(values),
        chars_n('<', n),
    ];
    let c1 = '.';
    let c2 = '[';
    lemma_fill_adjust_count(values, c1);
    lemma_fill_adjust_count(values, c2);
    lemma_count_absent(chars_n('+', 10), c1);
    lemma_count_absent(chars_n('+', 10), c2);
    lemma_count_absent(chars_n('<', n), c1);
    lemma_count_absent(chars_n('<', n), c2);
    lemma_count_absent(seq!['-', ']'], c1);
    lemma_count_absent(seq!['-', ']'], c2);
    lemma_count_one('[', c1);
    lemma_count_one('[', c2);
    let a1 = chars_n('+', 10) + seq!['['];
    let a2 = a1 + fill_part(values);
    let a3 = a2 + chars_n('<', n);
    let a4 = a3 + seq!['-', ']'];
    let a5 = a4 + adjust_part(values);
    let a6 = a5 + chars_n('<', n);
    lemma_count_concat(chars_n('+', 10), seq!['['], c1);
    lemma_count_concat(a1, fill_part(values), c1);
    lemma_count_concat(a2, chars_n('<', n), c1);
    lemma_count_concat(a3, seq!['-', ']'], c1);
    lemma_count_concat(a4, adjust_part(values), c1);
    lemma_count_concat(a5, chars_n('<', n), c1);
    lemma_count_concat(chars_n('+', 10), seq!['['], c2);
    lemma_count_concat(a1, fill_part(values), c2);
    lemma_count_concat(a2, chars_n('<', n), c2);
    lemma_count_concat(a3, seq!['-', ']'], c2);
    lemma_count_concat(a4, adjust_part(values), c2);
    lemma_count_concat(a5, chars_n('<', n), c2);
    assert(gen_loop_spec(values, false) =~= a6);
}

proof fn lemma_print_part_count(all: Seq<u8>, s: Seq<u8>)
    ensures
        count_char(print_part(all, s), '.') == s.len(),
        count_char(print_part(all, s), '[') == 0,
    decreases s.len(),
{
    if s.len() > 0 {
        lemma_print_part_count(all, s.drop_last());
        let from = if s.len() >= 2 { cell_of(all, s[s.len() - 2]) } else { 1 };
        let m = moves(from, cell_of(all, s.last()));
        lemma_count_absent(m, '.');
        lemma_count_absent(m, '[');
        lemma_count_one('.', '.');
        lemma_count_one('.', '[');
        lemma_count_concat(print_part(all, s.drop_last()), m, '.');
        lemma_count_concat(print_part(all, s.drop_last()) + m, seq!['.'], '.');
        lemma_count_concat(print_part(all, s.drop_last()), m, '[');
        lemma_count_concat(print_part(all, s.drop_last()) + m, seq!['.'], '[');
    }
}

/// A unique-chars script has one loop, and one `.` for each byte of the
/// data: each byte is printed from the cell of its value.
pub proof fn law_unique_chars_one_loop_one_print_per_byte(data: Seq<u8>)
    ensures
        count_char(unique_chars_spec(data), '[') == 1,
        count_char(unique_chars_spec(data), '.') == data.len(),
{
    let g = gen_loop_spec(unique_below(data, 256), false);
    let pp = print_part(data, data);
    lemma_gen_loop_count(unique_below(data, 256));
    lemma_print_part_count(data, data);
    lemma_count_one('>', '.');
    lemma_count_one('>', '[');
    lemma_count_one('\n', '.');
    lemma_count_one('\n', '[');
    lemma_count_concat(g, seq!['>'], '.');
    lemma_count_concat(g + seq!['>'], pp, '.');
    lemma_count_concat(g + seq!['>'] + pp, seq!['\n'], '.');
    lemma_count_concat(g, seq!['>'], '[');
    lemma_count_concat(g + seq!['>'], pp, '[');
    lemma_count_concat(g + seq!['>'] + pp, seq!['\n'], '[');
}

proof fn lemma_repeat_print_count(n: nat)
    ensures
        count_char(repeat(seq!['>', '.'], n), '.') == n,
        count_char(repeat(seq!['>', '.'], n), '[') == 0,
    decreases n,
{
    if n > 0 {
        lemma_repeat_print_count((n - 1) as nat);
        let s = seq!['>', '.'];
        assert(s.drop_last() =~= seq!['>']);
        lemma_count_one('>', '.');
        lemma_count_one('>', '[');
        lemma_count_concat(repeat(s, (n - 1) as nat), s, '.');
        lemma_count_concat(repeat(s, (n - 1) as nat), s, '[');
    }
}

/// A charwise script has one loop, and one `.` for each byte of the data:
/// each byte gets a cell of its own, printed in order.
pub proof fn law_charwise_one_loop_one_print_per_byte(data: Seq<u8>)
    ensures
        count_char(charwise_spec(data), '[') == 1,
        count_char(charwise_spec(data), '.') == data.len(),
{
    let n = data.len();
    let g = gen_loop_spec(data, false);
    let t = repeat(seq!['>', '.'], n) + seq!['>'];
    lemma_gen_loop_count(data);
    lemma_repeat_print_count(n);
    lemma_count_one('>', '.');
    lemma_count_one('>', '[');
    lemma_count_one('\n', '.');
    lemma_count_one('\n', '[');
    lemma_count_concat(repeat(seq!['>', '.'], n), seq!['>'], '.');
    lemma_count_concat(repeat(seq!['>', '.'], n), seq!['>'], '[');
    assert(gen_loop_spec(data, true) =~= g + t);
    lemma_count_concat(g, t, '.');
    lemma_count_concat(g, t, '[');
    lemma_count_concat(g + t, seq!['\n'], '.');
    lemma_count_concat(g + t, seq!['\n'], '[');
}

/// The text a script is generated from: the data itself, unless the
/// newline option is set and the data lacks a final line ending, in which
/// case one line ending is added. So the data always stands at its start,
/// nothing of it is dropped, and with the option the text ends with a line
/// ending.
pub proof fn law_text_to_print_keeps_the_data(data: Seq<char>, newline: bool)
    ensures
        !newline ==> data_to_print(data, newline) == data,
        data_to_print(data, newline).subrange(0, data.len() as int) == data,
        data.len() <= data_to_print(data, newline).len() <= data.len() + 1,
        data_to_print(data, newline).len() == data.len() + 1 ==> data_to_print(data, newline).last() == '\n',
        newline ==> data_to_print(data, newline).len() > 0 && data_to_print(data, newline).last() == '\n',
{
    assert(data.subrange(0, data.len() as int) =~= data);
    assert(data.push('\n').subrange(0, data.len() as int) =~= data);
}

/// A byte is its number of tens times ten plus its offset, and the offset
/// is the smallest way to get there: from -5 to 4.
pub proof fn law_tens_and_offset_make_the_byte(b: u8)
    ensures
        10 * tens(b) + offset_from_tens(b) == b,
        -5 <= offset_from_tens(b) <= 4,
        0 <= tens(b) <= 26,
{
}

} // verus!

