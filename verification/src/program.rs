//! Brainfuck programs: the instructions of a source text and the pairing
//! of their brackets.
use std::collections::HashMap;

use vstd::prelude::*;

verus! {

broadcast use vstd::std_specs::hash::group_hash_axioms;

/// The eight Brainfuck instructions: `+ - > < [ ] . ,`.
pub open spec fn is_instruction_byte(b: u8) -> bool {
    b == 43 || b == 45 || b == 62 || b == 60 || b == 91 || b == 93 || b == 46 || b == 44
}

/// The program that remains of a source text once everything that is not
/// an instruction is dropped.
pub open spec fn sanitized(code: Seq<u8>) -> Seq<u8>
    decreases code.len(),
{
    if code.len() == 0 {
        Seq::empty()
    } else if is_instruction_byte(code.last()) {
        sanitized(code.drop_last()).push(code.last())
    } else {
        sanitized(code.drop_last())
    }
}

/// `+1` for an opening bracket, `-1` for a closing bracket, `0` otherwise.
pub open spec fn bracket_weight(b: u8) -> int {
    if b == 91 {
        1
    } else if b == 93 {
        -1
    } else {
        0
    }
}

/// Opening minus closing brackets among `s[a..b)`.
pub open spec fn net(s: Seq<u8>, a: int, b: int) -> int
    decreases b - a,
{
    if b <= a {
        0
    } else {
        net(s, a, b - 1) + bracket_weight(s[b - 1])
    }
}

/// No prefix of `s[p+1..k)` closes more brackets than it opens: the bracket at
/// `p` is still open at position `k`.
pub open spec fn open_at(s: Seq<u8>, p: int, k: int) -> bool {
    forall|q: int| p + 1 <= q <= k ==> #[trigger] net(s, p + 1, q) >= 0
}

/// The `[` at `i` is closed by the `]` at `j`.
pub open spec fn matches(s: Seq<u8>, i: int, j: int) -> bool {
    &&& 0 <= i < j < s.len()
    &&& s[i] == 91
    &&& s[j] == 93
    &&& net(s, i + 1, j) == 0
    &&& open_at(s, i, j)
}

/// `a` and `b` are the two ends of one bracket pair, in either order.
pub open spec fn paired(s: Seq<u8>, a: int, b: int) -> bool {
    matches(s, a, b) || matches(s, b, a)
}

/// The pairs whose both ends lie before `k`.
pub open spec fn paired_before(s: Seq<u8>, a: int, b: int, k: int) -> bool {
    (matches(s, a, b) && b < k) || (matches(s, b, a) && a < k)
}

/// The jump table of a program: each bracket that has a partner maps to it.
pub open spec fn is_bracemap(s: Seq<u8>, m: Map<usize, usize>) -> bool {
    forall|a: usize, b: usize|
        (m.contains_key(a) && m[a] == b) <==> #[trigger] paired(s, a as int, b as int)
}

pub proof fn lemma_net_split(s: Seq<u8>, a: int, b: int, c: int)
    requires
        a <= b <= c,
    ensures
        net(s, a, c) == net(s, a, b) + net(s, b, c),
    decreases c - b,
{
    if c > b {
        lemma_net_split(s, a, b, c - 1);
    }
}

/// A `[` is closed by at most one `]`.
pub proof fn lemma_match_unique_close(s: Seq<u8>, a: int, b: int, c: int)
    requires
        matches(s, a, b),
        matches(s, a, c),
    ensures
        b == c,
{
    if b < c {
        assert(net(s, a + 1, b + 1) == net(s, a + 1, b) + bracket_weight(s[b]));
        assert(net(s, a + 1, b + 1) >= 0);
    } else if c < b {
        assert(net(s, a + 1, c + 1) == net(s, a + 1, c) + bracket_weight(s[c]));
        assert(net(s, a + 1, c + 1) >= 0);
    }
}

/// A `]` closes at most one `[`.
pub proof fn lemma_match_unique_open(s: Seq<u8>, a: int, b: int, c: int)
    requires
        matches(s, a, c),
        matches(s, b, c),
    ensures
        a == b,
{
    if a < b {
        lemma_net_split(s, a + 1, b, c);
        lemma_net_split(s, b, b + 1, c);
        assert(net(s, b, b) == 0);
        assert(net(s, b, b + 1) == 1);
        assert(net(s, a + 1, b) >= 0);
    } else if b < a {
        lemma_net_split(s, b + 1, a, c);
        lemma_net_split(s, a, a + 1, c);
        assert(net(s, a, a) == 0);
        assert(net(s, a, a + 1) == 1);
        assert(net(s, b + 1, a) >= 0);
    }
}

/// Pairing is symmetric and each bracket has at most one partner: following
/// the jump table twice leads back to where one started.
pub proof fn lemma_paired_partner_unique(s: Seq<u8>, a: int, b: int, c: int)
    requires
        paired(s, a, b),
        paired(s, a, c),
    ensures
        b == c,
{
    if matches(s, a, b) && matches(s, a, c) {
        lemma_match_unique_close(s, a, b, c);
    } else if matches(s, b, a) && matches(s, c, a) {
        lemma_match_unique_open(s, b, c, a);
    }
}

/// Every prefix opens at least as many brackets as it closes, and the whole
/// program closes all it opens.
pub open spec fn balanced(s: Seq<u8>) -> bool {
    &&& net(s, 0, s.len() as int) == 0
    &&& forall|q: int| 0 <= q <= s.len() ==> #[trigger] net(s, 0, q) >= 0
}

/// Scanning right from `q` for the first place where the brackets opened
/// after `p` fall below zero: it is just past the partner of `p`.
proof fn lemma_find_close(s: Seq<u8>, p: int, q: int) -> (j: int)
    requires
        0 <= p < q <= s.len(),
        s[p] == 91,
        net(s, p + 1, s.len() as int) < 0,
        forall|r: int| p + 1 <= r < q ==> #[trigger] net(s, p + 1, r) >= 0,
    ensures
        matches(s, p, j),
    decreases s.len() - q,
{
    if net(s, p + 1, q) < 0 {
        let j = q - 1;
        assert(net(s, p + 1, q) == net(s, p + 1, j) + bracket_weight(s[j]));
        assert(net(s, p + 1, j) >= 0);
        assert(j > p) by {
            if j == p {
                assert(net(s, p + 1, p + 1) == 0);
            }
        }
        assert(open_at(s, p, j));
        j
    } else {
        assert(q < s.len());
        lemma_find_close(s, p, q + 1)
    }
}

/// Scanning left from `k` for the last place from which the brackets up
/// to `j` still leave one open: the partner of the `]` at `j`.
proof fn lemma_find_open(s: Seq<u8>, j: int, k: int) -> (i: int)
    requires
        0 <= k <= j < s.len(),
        s[j] == 93,
        net(s, 0, j) >= 1,
        forall|r: int| k < r <= j ==> #[trigger] net(s, r, j) <= 0,
    ensures
        matches(s, i, j),
    decreases k,
{
    if net(s, k, j) >= 1 {
        lemma_net_split(s, k, k + 1, j);
        assert(net(s, k, k + 1) == net(s, k, k) + bracket_weight(s[k]));
        assert(net(s, k + 1, j) <= 0) by {
            if k + 1 <= j {
            } else {
                assert(net(s, k + 1, j) == 0);
            }
        }
        assert(bracket_weight(s[k]) == 1 && net(s, k + 1, j) == 0);
        assert(k < j) by {
            if k == j {
                assert(net(s, j, j) == 0);
            }
        }
        assert forall|q: int| k + 1 <= q <= j implies #[trigger] net(s, k + 1, q) >= 0 by {
            lemma_net_split(s, k + 1, q, j);
        }
        k
    } else {
        assert(k > 0) by {
            if k == 0 {
            }
        }
        lemma_find_open(s, j, k - 1)
    }
}

/// In a balanced program every bracket has a partner.
pub proof fn law_balanced_brackets_pair_up(s: Seq<u8>, i: int)
    requires
        balanced(s),
        0 <= i < s.len(),
        s[i] == 91 || s[i] == 93,
    ensures
        exists|j: int| paired(s, i, j),
{
    let n = s.len() as int;
    if s[i] == 91 {
        lemma_net_split(s, 0, i + 1, n);
        assert(net(s, 0, i + 1) == net(s, 0, i) + 1);
        assert(net(s, 0, i) >= 0);
        let j = lemma_find_close(s, i, i + 1);
        assert(paired(s, i, j));
    } else {
        assert(net(s, 0, i + 1) == net(s, 0, i) - 1);
        assert(net(s, 0, i + 1) >= 0);
        let k = lemma_find_open(s, i, i);
        assert(paired(s, i, k));
    }
}

/// Whether `c` is one of the eight Brainfuck instructions.
pub fn is_instruction(c: &u8) -> (r: bool)
    ensures
        r == is_instruction_byte(*c),
{
    let c = *c;
    c == 43 || c == 45 || c == 62 || c == 60 || c == 91 || c == 93 || c == 46 || c == 44
}

/// Drops every byte of the source that is not an instruction.
pub fn sanitize(code: &[u8]) -> (r: Vec<u8>)
    ensures
        r@ == sanitized(code@),
{
    let mut r: Vec<u8> = Vec::new();
    let mut i: usize = 0;
    while i < code.len()
        invariant
            i <= code.len(),
            r@ == sanitized(code@.subrange(0, i as int)),
        decreases code.len() - i,
    {
        let ghost prefix = code@.subrange(0, i as int + 1);
        assert(prefix.drop_last() =~= code@.subrange(0, i as int));
        if is_instruction(&code[i]) {
            r.push(code[i]);
        }
        i += 1;
    }
    assert(code@.subrange(0, code.len() as int) =~= code@);
    r
}

/// Sanitizing a text piece by piece gives the same program as sanitizing
/// it whole: the instructions of `a`, then those of `b`.
pub proof fn law_sanitized_concat(a: Seq<u8>, b: Seq<u8>)
    ensures
        sanitized(a + b) == sanitized(a) + sanitized(b),
    decreases b.len(),
{
    if b.len() == 0 {
        assert(a + b =~= a);
        assert(sanitized(a) + sanitized(b) =~= sanitized(a));
    } else {
        law_sanitized_concat(a, b.drop_last());
        assert((a + b).drop_last() =~= a + b.drop_last());
        assert((a + b).last() == b.last());
        if is_instruction_byte(b.last()) {
            assert(sanitized(a) + sanitized(b.drop_last()).push(b.last()) =~= (sanitized(a) + sanitized(
                b.drop_last(),
            )).push(b.last()));
        }
    }
}

/// The program of a text holds only instructions, no more bytes than the
/// text, and is the text itself when the text holds nothing else.
pub proof fn law_sanitized_is_the_instructions(code: Seq<u8>)
    ensures
        forall|i: int| 0 <= i < sanitized(code).len() ==> is_instruction_byte(#[trigger] sanitized(code)[i]),
        sanitized(code).len() <= code.len(),
        (forall|i: int| 0 <= i < code.len() ==> is_instruction_byte(#[trigger] code[i])) ==> sanitized(code) == code,
        (forall|i: int| 0 <= i < code.len() ==> !is_instruction_byte(#[trigger] code[i])) ==> sanitized(code).len()
            == 0,
    decreases code.len(),
{
    if code.len() > 0 {
        let front = code.drop_last();
        law_sanitized_is_the_instructions(front);
        assert((forall|i: int| 0 <= i < code.len() ==> is_instruction_byte(#[trigger] code[i])) ==> (forall|i: int|
            0 <= i < front.len() ==> is_instruction_byte(#[trigger] front[i])));
        assert((forall|i: int| 0 <= i < code.len() ==> !is_instruction_byte(#[trigger] code[i])) ==> (forall|i: int|
            0 <= i < front.len() ==> !is_instruction_byte(#[trigger] front[i])));
        if forall|i: int| 0 <= i < code.len() ==> is_instruction_byte(#[trigger] code[i]) {
            assert(is_instruction_byte(code[code.len() - 1]));
            assert(front.push(code.last()) =~= code);
        }
        if forall|i: int| 0 <= i < code.len() ==> !is_instruction_byte(#[trigger] code[i]) {
            assert(!is_instruction_byte(code[code.len() - 1]));
        }
    }
}

/// A byte that is no instruction, put in anywhere or taken out, leaves the
/// program as it is.
pub proof fn law_sanitized_ignores_other_bytes(a: Seq<u8>, x: u8, b: Seq<u8>)
    requires
        !is_instruction_byte(x),
    ensures
        sanitized(a + seq![x] + b) == sanitized(a + b),
{
    law_sanitized_concat(a + seq![x], b);
    law_sanitized_concat(a, seq![x]);
    law_sanitized_concat(a, b);
    assert(seq![x].drop_last() =~= Seq::<u8>::empty());
    assert(sanitized(seq![x]) == sanitized(Seq::<u8>::empty()));
    assert(sanitized(a) + sanitized(seq![x]) =~= sanitized(a));
}

/// What the loop of `build_bracemap` keeps: the open brackets on the stack,
/// and the pairs found so far in the map.
pub open spec fn bracemap_scan_inv(
    s: Seq<u8>,
    k: int,
    stack: Seq<usize>,
    m: Map<usize, usize>,
) -> bool {
    &&& 0 <= k <= s.len()
    &&& forall|t: int, u: int| 0 <= t < u < stack.len() ==> stack[t] < stack[u]
    &&& forall|t: int| 0 <= t < stack.len() ==> #[trigger] stack[t] < k && s[stack[t] as int] == 91
    &&& forall|t: int|
        0 <= t < stack.len() ==> open_at(s, #[trigger] stack[t] as int, k) && net(
            s,
            stack[t] + 1,
            k,
        ) == stack.len() - 1 - t
    &&& forall|a: int|
        0 <= a < k && s[a] == 91 && !stack.contains(a as usize) ==> exists|b: int|
            b < k && #[trigger] matches(s, a, b)
    &&& forall|a: usize, b: usize|
        (m.contains_key(a) && m[a] == b) <==> #[trigger] paired_before(s, a as int, b as int, k)
}

proof fn lemma_scan_other(s: Seq<u8>, k: int, stack: Seq<usize>, m: Map<usize, usize>)
    requires
        bracemap_scan_inv(s, k, stack, m),
        k < s.len(),
        s[k] != 91,
        s[k] != 93,
    ensures
        bracemap_scan_inv(s, k + 1, stack, m),
{
    assert forall|t: int| 0 <= t < stack.len() implies open_at(s, #[trigger] stack[t] as int, k + 1)
        && net(s, stack[t] + 1, k + 1) == stack.len() - 1 - t by {
        assert(net(s, stack[t] + 1, k + 1) == net(s, stack[t] + 1, k) + bracket_weight(s[k]));
    }
    assert forall|a: int| 0 <= a < k + 1 && s[a] == 91 && !stack.contains(a as usize) implies exists|b: int|
        b < k + 1 && #[trigger] matches(s, a, b) by {
        let b = choose|b: int| b < k && #[trigger] matches(s, a, b);
        assert(b < k + 1 && matches(s, a, b));
    }
    assert forall|a: usize, b: usize|
        (m.contains_key(a) && m[a] == b) <==> #[trigger] paired_before(s, a as int, b as int, k + 1) by {
        assert(paired_before(s, a as int, b as int, k + 1) == paired_before(s, a as int, b as int, k));
    }
}

proof fn lemma_scan_open(s: Seq<u8>, k: int, stack: Seq<usize>, m: Map<usize, usize>)
    requires
        bracemap_scan_inv(s, k, stack, m),
        k < s.len(),
        k <= usize::MAX,
        s[k] == 91,
    ensures
        bracemap_scan_inv(s, k + 1, stack.push(k as usize), m),
{
    let st = stack.push(k as usize);
    assert forall|t: int| 0 <= t < st.len() implies open_at(s, #[trigger] st[t] as int, k + 1) && net(
        s,
        st[t] + 1,
        k + 1,
    ) == st.len() - 1 - t by {
        if t < stack.len() {
            assert(st[t] == stack[t]);
            assert(net(s, stack[t] + 1, k + 1) == net(s, stack[t] + 1, k) + bracket_weight(s[k]));
            assert(open_at(s, stack[t] as int, k));
        } else {
            assert(st[t] == k);
        }
    }
    assert forall|a: int| 0 <= a < k + 1 && s[a] == 91 && !st.contains(a as usize) implies exists|b: int|
        b < k + 1 && #[trigger] matches(s, a, b) by {
        if a == k {
            assert(st[st.len() - 1] == k);
            assert(st.contains(a as usize));
        } else {
            if stack.contains(a as usize) {
                let t = choose|t: int| 0 <= t < stack.len() && stack[t] == a as usize;
                assert(st[t] == a as usize);
            }
            let b = choose|b: int| b < k && #[trigger] matches(s, a, b);
            assert(b < k + 1 && matches(s, a, b));
        }
    }
    assert forall|a: usize, b: usize|
        (m.contains_key(a) && m[a] == b) <==> #[trigger] paired_before(s, a as int, b as int, k + 1) by {
        assert(paired_before(s, a as int, b as int, k + 1) == paired_before(s, a as int, b as int, k));
    }
    assert forall|t: int, u: int| 0 <= t < u < st.len() implies st[t] < st[u] by {
        if u == stack.len() {
            assert(stack[t] < k);
        }
    }
}

proof fn lemma_scan_close_unmatched(s: Seq<u8>, k: int, stack: Seq<usize>, m: Map<usize, usize>)
    requires
        bracemap_scan_inv(s, k, stack, m),
        k < s.len(),
        s[k] == 93,
        stack.len() == 0,
    ensures
        bracemap_scan_inv(s, k + 1, stack, m),
{
    assert forall|a: int| 0 <= a < k + 1 && s[a] == 91 && !stack.contains(a as usize) implies exists|b: int|
        b < k + 1 && #[trigger] matches(s, a, b) by {
        let b = choose|b: int| b < k && #[trigger] matches(s, a, b);
        assert(b < k + 1 && matches(s, a, b));
    }
    assert forall|a: usize, b: usize|
        (m.contains_key(a) && m[a] == b) <==> #[trigger] paired_before(s, a as int, b as int, k + 1) by {
        if matches(s, a as int, b as int) && b as int == k {
            let c = choose|c: int| c < k && #[trigger] matches(s, a as int, c);
            lemma_match_unique_close(s, a as int, b as int, c);
        }
        if matches(s, b as int, a as int) && a as int == k {
            let c = choose|c: int| c < k && #[trigger] matches(s, b as int, c);
            lemma_match_unique_close(s, b as int, a as int, c);
        }
        assert(paired_before(s, a as int, b as int, k + 1) == paired_before(s, a as int, b as int, k));
    }
}

proof fn lemma_scan_close_matched(
    s: Seq<u8>,
    k: int,
    stack: Seq<usize>,
    m: Map<usize, usize>,
)
    requires
        bracemap_scan_inv(s, k, stack, m),
        k < s.len(),
        k <= usize::MAX,
        s[k] == 93,
        stack.len() > 0,
    ensures
        matches(s, stack.last() as int, k),
        bracemap_scan_inv(
            s,
            k + 1,
            stack.drop_last(),
            m.insert(stack.last(), k as usize).insert(k as usize, stack.last()),
        ),
{
    let p = stack.last();
    let top = stack.len() - 1;
    assert(stack[top] == p);
    assert(open_at(s, p as int, k));
    assert(net(s, p + 1, k) == 0);
    assert(matches(s, p as int, k));
    let st = stack.drop_last();
    let m2 = m.insert(p, k as usize).insert(k as usize, p);
    // Only `p` can be closed by the bracket at `k`.
    assert forall|a: int| #[trigger] matches(s, a, k) implies a == p as int by {
        if a > p as int {
            if stack.contains(a as usize) {
                let t = choose|t: int| 0 <= t < stack.len() && stack[t] == a as usize;
                if t < top {
                    assert(stack[t] < stack[top]);
                }
            }
            let c = choose|c: int| c < k && #[trigger] matches(s, a, c);
            lemma_match_unique_close(s, a, k, c);
        } else if a < p as int {
            lemma_match_unique_open(s, a, p as int, k);
        }
    }
    assert forall|t: int| 0 <= t < st.len() implies open_at(s, #[trigger] st[t] as int, k + 1) && net(
        s,
        st[t] + 1,
        k + 1,
    ) == st.len() - 1 - t by {
        assert(st[t] == stack[t]);
        assert(net(s, stack[t] + 1, k + 1) == net(s, stack[t] + 1, k) + bracket_weight(s[k]));
        assert(open_at(s, stack[t] as int, k));
    }
    assert forall|a: int| 0 <= a < k + 1 && s[a] == 91 && !st.contains(a as usize) implies exists|b: int|
        b < k + 1 && #[trigger] matches(s, a, b) by {
        if a == p as int {
            assert(matches(s, a, k));
        } else {
            if stack.contains(a as usize) {
                let t = choose|t: int| 0 <= t < stack.len() && stack[t] == a as usize;
                assert(t != top);
                assert(st[t] == a as usize);
            }
            let b = choose|b: int| b < k && #[trigger] matches(s, a, b);
            assert(b < k + 1 && matches(s, a, b));
        }
    }
    assert forall|a: usize, b: usize|
        (m2.contains_key(a) && m2[a] == b) <==> #[trigger] paired_before(s, a as int, b as int, k + 1) by {
        if a == k as usize {
            if matches(s, b as int, a as int) {
                assert(b == p);
            }
            assert(!matches(s, a as int, b as int));
        } else if a == p {
            if matches(s, a as int, b as int) && b as int <= k {
                lemma_match_unique_close(s, a as int, b as int, k);
            }
            if matches(s, a as int, b as int) && (b as int) < k {
                lemma_match_unique_close(s, a as int, b as int, k);
            }
            assert(!matches(s, b as int, a as int));
            assert(!m.contains_key(a) || m[a] != b || paired_before(s, a as int, b as int, k));
            if m.contains_key(a) && m[a] == b {
                assert(paired_before(s, a as int, b as int, k));
                assert(false);
            }
        } else {
            if b as int == k && matches(s, a as int, b as int) {
                assert(a == p);
            }
            assert(paired_before(s, a as int, b as int, k + 1) == paired_before(s, a as int, b as int, k));
        }
    }
    assert forall|t: int, u: int| 0 <= t < u < st.len() implies st[t] < st[u] by {
        assert(st[t] == stack[t] && st[u] == stack[u]);
    }
    assert forall|t: int| 0 <= t < st.len() implies #[trigger] st[t] < k + 1 && s[st[t] as int] == 91 by {
        assert(st[t] == stack[t]);
    }
}

/// Pairs every `[` with the `]` that closes it. A `]` with nothing to close
/// and a `[` that is never closed get no entry.
pub fn build_bracemap(instructions: &[u8]) -> (m: HashMap<usize, usize>)
    ensures
        is_bracemap(instructions@, m@),
{
    broadcast use vstd::std_specs::hash::axiom_usize_obeys_hash_table_key_model;

    let ghost s = instructions@;
    let mut open_brackets: Vec<usize> = Vec::new();
    let mut bracemap: HashMap<usize, usize> = HashMap::new();
    let mut i: usize = 0;
    assert(bracemap_scan_inv(s, 0, open_brackets@, bracemap@)) by {
        assert forall|a: usize, b: usize|
            (bracemap@.contains_key(a) && bracemap@[a] == b) <==> #[trigger] paired_before(s, a as int, b as int, 0) by {}
    }
    while i < instructions.len()
        invariant
            s == instructions@,
            bracemap_scan_inv(s, i as int, open_brackets@, bracemap@),
        decreases instructions.len() - i,
    {
        let v = instructions[i];
        if v == 91 {
            proof {
                lemma_scan_open(s, i as int, open_brackets@, bracemap@);
            }
            open_brackets.push(i);
        } else if v == 93 {
            if open_brackets.len() > 0 {
                let ghost old_stack = open_brackets@;
                let ghost old_map = bracemap@;
                proof {
                    lemma_scan_close_matched(s, i as int, old_stack, old_map);
                }
                let open_i = open_brackets.pop().unwrap();
                bracemap.insert(open_i, i);
                bracemap.insert(i, open_i);
                assert(open_brackets@ == old_stack.drop_last());
            } else {
                proof {
                    lemma_scan_close_unmatched(s, i as int, open_brackets@, bracemap@);
                }
            }
        } else {
            proof {
                lemma_scan_other(s, i as int, open_brackets@, bracemap@);
            }
        }
        i += 1;
    }
    assert forall|a: usize, b: usize|
        (bracemap@.contains_key(a) && bracemap@[a] == b) <==> #[trigger] paired(s, a as int, b as int) by {
        assert(paired_before(s, a as int, b as int, s.len() as int) == paired(s, a as int, b as int));
    }
    bracemap
}

} // verus!
