//! Lines of a byte string and line endings.
use vstd::prelude::*;

verus! {

/// The index of the first `\n` in `s`, or its length when there is none.
pub open spec fn first_newline(s: Seq<u8>) -> int
    decreases s.len(),
{
    if s.len() == 0 {
        0
    } else if s[0] == 10 {
        0
    } else {
        1 + first_newline(s.drop_first())
    }
}

/// A line as it was terminated by `\n`: one `\r` just before the `\n` is part
/// of the line ending, not of the line.
pub open spec fn strip_cr(line: Seq<u8>) -> Seq<u8> {
    if line.len() > 0 && line.last() == 13 {
        line.drop_last()
    } else {
        line
    }
}

/// The lines of `s`: split at each `\n` (or `\r\n`), without the line
/// endings; a final line ending adds no empty line, and an empty text has no
/// lines.
pub open spec fn lines_of(s: Seq<u8>) -> Seq<Seq<u8>>
    decreases s.len(),
{
    if s.len() == 0 {
        Seq::empty()
    } else {
        let k = first_newline(s);
        proof {
            lemma_first_newline_bounds(s);
        }
        if k >= s.len() {
            seq![s]
        } else {
            seq![strip_cr(s.subrange(0, k))] + lines_of(s.subrange(k + 1, s.len() as int))
        }
    }
}

/// Whether `s` ends with a line ending.
pub open spec fn ends_with_eol_spec(s: Seq<u8>) -> bool {
    s.len() > 0 && s.last() == 10
}

/// Whether `s` holds a `\r\n` anywhere.
pub open spec fn has_crlf(s: Seq<u8>) -> bool {
    exists|i: int| 0 <= i < s.len() - 1 && #[trigger] s[i] == 13 && s[i + 1] == 10
}

pub proof fn lemma_first_newline_bounds(s: Seq<u8>)
    ensures
        0 <= first_newline(s) <= s.len(),
        first_newline(s) < s.len() ==> s[first_newline(s)] == 10,
        forall|j: int| 0 <= j < first_newline(s) ==> s[j] != 10,
    decreases s.len(),
{
    if s.len() > 0 && s[0] != 10 {
        lemma_first_newline_bounds(s.drop_first());
        assert forall|j: int| 0 <= j < first_newline(s) implies s[j] != 10 by {
            if j > 0 {
                assert(s[j] == s.drop_first()[j - 1]);
            }
        }
    }
}

/// The first `\n` is the one at `k` when no `\n` comes before it.
pub proof fn lemma_first_newline_at(s: Seq<u8>, k: int)
    requires
        0 <= k <= s.len(),
        k < s.len() ==> s[k] == 10,
        forall|j: int| 0 <= j < k ==> s[j] != 10,
    ensures
        first_newline(s) == k,
    decreases s.len(),
{
    if s.len() > 0 && k > 0 {
        assert forall|j: int| 0 <= j < k - 1 implies s.drop_first()[j] != 10 by {
            assert(s.drop_first()[j] == s[j + 1]);
        }
        lemma_first_newline_at(s.drop_first(), k - 1);
    }
}

/// A text has no more lines than bytes, and none of its lines holds a
/// `\n`.
pub proof fn lemma_lines_of_props(s: Seq<u8>)
    ensures
        lines_of(s).len() <= s.len(),
        forall|i: int, j: int|
            0 <= i < lines_of(s).len() && 0 <= j < lines_of(s)[i].len() ==> #[trigger] lines_of(s)[i][j] != 10,
    decreases s.len(),
{
    if s.len() > 0 {
        let k = first_newline(s);
        lemma_first_newline_bounds(s);
        if k < s.len() {
            let rest = s.subrange(k + 1, s.len() as int);
            lemma_lines_of_props(rest);
            let head = strip_cr(s.subrange(0, k));
            assert(lines_of(s) == seq![head] + lines_of(rest));
            assert forall|i: int, j: int|
                0 <= i < lines_of(s).len() && 0 <= j < lines_of(s)[i].len() implies #[trigger] lines_of(s)[i][j]
                != 10 by {
                if i == 0 {
                    assert(lines_of(s)[i] == head);
                    assert(head[j] == s[j]);
                } else {
                    assert(lines_of(s)[i] == lines_of(rest)[i - 1]);
                }
            }
        } else {
            assert(lines_of(s) == seq![s]);
        }
    }
}

/// Whether `s` ends with a line ending (`\n`, which also ends `\r\n`).
pub fn ends_with_eol(s: &[u8]) -> (b: bool)
    ensures
        b == ends_with_eol_spec(s@),
{
    s.len() > 0 && s[s.len() - 1] == 10
}

/// Whether `s` holds a `\r\n`.
pub fn contains_crlf(s: &[u8]) -> (b: bool)
    ensures
        b == has_crlf(s@),
{
    if s.len() < 2 {
        return false;
    }
    let mut i: usize = 0;
    while i < s.len() - 1
        invariant
            2 <= s@.len(),
            forall|j: int| 0 <= j < i && j < s@.len() - 1 ==> !(#[trigger] s@[j] == 13 && s@[j + 1] == 10),
        decreases s.len() - i,
    {
        if s[i] == 13 && s[i + 1] == 10 {
            return true;
        }
        i += 1;
    }
    false
}

/// Splits `s` into its lines (see `lines_of`).
pub fn split_lines(s: &[u8]) -> (r: Vec<Vec<u8>>)
    ensures
        r@.len() == lines_of(s@).len(),
        forall|i: int| 0 <= i < r@.len() ==> #[trigger] r@[i]@ == lines_of(s@)[i],
{
    let ghost whole = s@;
    let mut out: Vec<Vec<u8>> = Vec::new();
    let mut current: Vec<u8> = Vec::new();
    let mut start: usize = 0;
    let mut i: usize = 0;
    let ghost mut done: Seq<Seq<u8>> = Seq::empty();
    assert(s@.subrange(0, s@.len() as int) =~= s@);
    assert(Seq::<Seq<u8>>::empty() + lines_of(s@) =~= lines_of(s@));
    while i < s.len()
        invariant
            start <= i <= s.len(),
            current@ == s@.subrange(start as int, i as int),
            forall|j: int| start <= j < i ==> s@[j] != 10,
            out@.len() == done.len(),
            forall|q: int| 0 <= q < out@.len() ==> #[trigger] out@[q]@ == done[q],
            lines_of(s@) == done + lines_of(s@.subrange(start as int, s@.len() as int)),
        decreases s.len() - i,
    {
        if s[i] == 10 {
            let ghost rest = s@.subrange(start as int, s@.len() as int);
            proof {
                assert forall|j: int| 0 <= j < i - start implies rest[j] != 10 by {
                    assert(rest[j] == s@[start + j]);
                }
                lemma_first_newline_at(rest, i - start);
                assert(rest.subrange(0, i - start) =~= current@);
                assert(rest.subrange(i - start + 1, rest.len() as int) =~= s@.subrange(i + 1, s@.len() as int));
            }
            let mut line = current;
            let n = line.len();
            if n > 0 && line[n - 1] == 13 {
                line.pop();
            }
            assert(line@ =~= strip_cr(s@.subrange(start as int, i as int)));
            out.push(line);
            proof {
                done = done.push(strip_cr(s@.subrange(start as int, i as int)));
            }
            current = Vec::new();
            start = i + 1;
            assert(current@ =~= s@.subrange(start as int, i as int + 1));
        } else {
            current.push(s[i]);
            assert(current@ =~= s@.subrange(start as int, i as int + 1));
        }
        i += 1;
    }
    let ghost rest = s@.subrange(start as int, s@.len() as int);
    proof {
        assert(rest =~= current@);
        lemma_first_newline_bounds(rest);
        if rest.len() > 0 {
            assert forall|j: int| 0 <= j < rest.len() implies rest[j] != 10 by {
                assert(rest[j] == s@[start + j]);
            }
        }
    }
    if current.len() > 0 {
        proof {
            lemma_first_newline_at(rest, rest.len() as int);
            done = done.push(rest);
        }
        out.push(current);
    } else {
        assert(lines_of(rest) =~= Seq::<Seq<u8>>::empty());
        assert(done + Seq::<Seq<u8>>::empty() =~= done);
    }
    assert(lines_of(s@) =~= done);
    out
}

} // verus!
