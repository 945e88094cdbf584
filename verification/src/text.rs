//! Text helpers: decimal digits, centering, repetition.
use vstd::prelude::*;

use vstd::utf8::{
    encode_utf8, encode_utf8_first_scalar, encode_utf8_valid_utf8, is_char_boundary, is_char_boundary_iff_not_is_continuation_byte,
    length_of_first_scalar, pop_first_scalar, valid_utf8, valid_utf8_concat, valid_utf8_split,
};

verus! {

/// The character of a decimal digit `d < 10`.
pub open spec fn digit_char(d: int) -> char {
    (48 + d) as char
}

/// The decimal representation of `n`, without leading zeros.
pub open spec fn decimal(n: nat) -> Seq<char>
    decreases n,
{
    if n < 10 {
        seq![digit_char(n as int)]
    } else {
        decimal(n / 10).push(digit_char((n % 10) as int))
    }
}

/// `s` padded with spaces to width 3 and centered; when the padding is
/// odd the extra space goes to the right. Text of three or more
/// characters is left as it is.
pub open spec fn center3(s: Seq<char>) -> Seq<char> {
    if s.len() >= 3 {
        s
    } else {
        let pad = (3 - s.len()) as int;
        let left = pad / 2;
        Seq::new(left as nat, |i: int| ' ') + s + Seq::new((pad - left) as nat, |i: int| ' ')
    }
}

/// `s` repeated `n` times.
pub open spec fn repeat(s: Seq<char>, n: nat) -> Seq<char>
    decreases n,
{
    if n == 0 {
        Seq::empty()
    } else {
        repeat(s, (n - 1) as nat) + s
    }
}

/// Appends one character to a `String` (`String::push`).
#[verifier::external_body]
pub(crate) fn push_char(s: &mut String, c: char)
    ensures
        final(s)@ == old(s)@.push(c),
{
    s.push(c);
}

/// `bytes` with the UTF-8 encoding of `ch` put in at byte `i`.
pub open spec fn insert_char_bytes(bytes: Seq<u8>, i: int, ch: char) -> Seq<u8> {
    bytes.subrange(0, i) + encode_utf8(seq![ch]) + bytes.subrange(i, bytes.len() as int)
}

/// `bytes` with the character whose encoding starts at byte `i` taken out.
pub open spec fn remove_char_bytes(bytes: Seq<u8>, i: int) -> Seq<u8> {
    bytes.subrange(0, i) + pop_first_scalar(bytes.subrange(i, bytes.len() as int))
}

/// Inserts `ch` into `s` at byte position `idx` (`String::insert`). The
/// standard library panics unless `idx` lies on a character boundary; the
/// string's bytes are then the old ones with the character's encoding put
/// in at `idx`, and their number is a `usize` (`String::len`).
#[verifier::external_body]
pub(crate) fn insert_at(s: &mut String, idx: usize, ch: char)
    requires
        is_char_boundary(encode_utf8(old(s)@), idx as int),
    ensures
        encode_utf8(final(s)@) == insert_char_bytes(encode_utf8(old(s)@), idx as int, ch),
        encode_utf8(final(s)@).len() <= usize::MAX,
{
    s.insert(idx, ch);
}

/// Removes the character at byte position `idx` from `s`
/// (`String::remove`). The standard library panics unless `idx` is before
/// the end and on a character boundary; the string's bytes are then the
/// old ones without that character's encoding.
#[verifier::external_body]
pub(crate) fn remove_at(s: &mut String, idx: usize)
    requires
        idx < encode_utf8(old(s)@).len(),
        is_char_boundary(encode_utf8(old(s)@), idx as int),
    ensures
        encode_utf8(final(s)@) == remove_char_bytes(encode_utf8(old(s)@), idx as int),
{
    s.remove(idx);
}

/// Putting a character in at a character boundary gives valid text one
/// character longer in which the new character starts at that boundary;
/// taking it out again gives back the old bytes.
pub proof fn lemma_insert_char_bytes(bytes: Seq<u8>, i: int, ch: char)
    requires
        valid_utf8(bytes),
        is_char_boundary(bytes, i),
    ensures
        valid_utf8(insert_char_bytes(bytes, i, ch)),
        1 <= encode_utf8(seq![ch]).len() <= 4,
        insert_char_bytes(bytes, i, ch).len() == bytes.len() + encode_utf8(seq![ch]).len(),
        i < insert_char_bytes(bytes, i, ch).len(),
        is_char_boundary(insert_char_bytes(bytes, i, ch), i),
        remove_char_bytes(insert_char_bytes(bytes, i, ch), i) == bytes,
{
    let pre = bytes.subrange(0, i);
    let post = bytes.subrange(i, bytes.len() as int);
    let enc = encode_utf8(seq![ch]);
    let all = insert_char_bytes(bytes, i, ch);
    valid_utf8_split(bytes, i);
    encode_utf8_valid_utf8(seq![ch]);
    encode_utf8_first_scalar(seq![ch]);
    assert(seq![ch].drop_first() =~= Seq::<char>::empty());
    assert(enc == vstd::utf8::encode_scalar(ch as u32) + encode_utf8(Seq::<char>::empty()));
    assert(enc =~= vstd::utf8::encode_scalar(ch as u32));
    valid_utf8_concat(pre, enc);
    valid_utf8_concat(pre + enc, post);
    assert(all[i] == enc[0]);
    is_char_boundary_iff_not_is_continuation_byte(all, i);
    let rest = all.subrange(i, all.len() as int);
    assert(rest =~= enc + post);
    assert(rest[0] == enc[0]);
    assert(length_of_first_scalar(rest) == length_of_first_scalar(enc));
    assert(pop_first_scalar(rest) =~= post);
    assert(all.subrange(0, i) =~= pre);
    assert(pre + post =~= bytes);
}

/// Taking out a character that starts at a boundary before the end leaves
/// a shorter text that still reaches up to that boundary.
pub proof fn lemma_remove_char_bytes(bytes: Seq<u8>, i: int)
    requires
        valid_utf8(bytes),
        is_char_boundary(bytes, i),
        i < bytes.len(),
    ensures
        valid_utf8(remove_char_bytes(bytes, i)),
        i <= remove_char_bytes(bytes, i).len() < bytes.len(),
{
    let pre = bytes.subrange(0, i);
    let post = bytes.subrange(i, bytes.len() as int);
    valid_utf8_split(bytes, i);
    assert(post.len() > 0);
    assert(vstd::utf8::valid_first_scalar(post));
    valid_utf8_concat(pre, pop_first_scalar(post));
}

/// The characters of a string slice.
pub fn chars_of(s: &str) -> (r: Vec<char>)
    ensures
        r@ == s@,
{
    broadcast use vstd::string::axiom_spec_iter;

    let mut r: Vec<char> = Vec::new();
    for c in it: s.chars()
        invariant
            r@.len() == it.index(),
            forall|i: int| 0 <= i < r@.len() ==> r@[i] == it.seq()[i],
    {
        r.push(c);
    }
    assert(r@ =~= s@);
    r
}

/// Appends the characters of `cs` to `s`.
pub fn push_chars(s: &mut String, cs: &[char])
    ensures
        final(s)@ == old(s)@ + cs@,
{
    let ghost start = s@;
    let mut i: usize = 0;
    while i < cs.len()
        invariant
            i <= cs.len(),
            s@ == start + cs@.subrange(0, i as int),
        decreases cs.len() - i,
    {
        push_char(s, cs[i]);
        assert(cs@.subrange(0, i as int + 1) =~= cs@.subrange(0, i as int).push(cs@[i as int]));
        i += 1;
    }
    assert(cs@.subrange(0, cs.len() as int) =~= cs@);
}

/// A `String` holding the characters of `cs`.
pub fn string_from_chars(cs: &[char]) -> (s: String)
    ensures
        s@ == cs@,
{
    let mut s = String::new();
    push_chars(&mut s, cs);
    assert(Seq::<char>::empty() + cs@ =~= cs@);
    s
}

/// The decimal digits of `v`.
pub fn decimal_u8(v: u8) -> (r: Vec<char>)
    ensures
        r@ == decimal(v as nat),
        1 <= r@.len() <= 3,
{
    let mut r: Vec<char> = Vec::new();
    if v >= 100 {
        r.push(((v / 100) + 48) as char);
        r.push((((v / 10) % 10) + 48) as char);
        r.push(((v % 10) + 48) as char);
        assert(decimal(v as nat) =~= decimal((v / 10) as nat).push(digit_char((v % 10) as int)));
        assert(decimal((v / 10) as nat) =~= decimal((v / 100) as nat).push(digit_char(((v / 10) % 10) as int)));
    } else if v >= 10 {
        r.push(((v / 10) + 48) as char);
        r.push(((v % 10) + 48) as char);
        assert(decimal(v as nat) =~= decimal((v / 10) as nat).push(digit_char((v % 10) as int)));
    } else {
        r.push((v + 48) as char);
    }
    assert(r@ =~= decimal(v as nat));
    r
}

/// `cs` (of at most three characters) centered in a field of width 3.
pub fn center3_chars(cs: &[char]) -> (r: Vec<char>)
    requires
        cs@.len() <= 3,
    ensures
        r@ == center3(cs@),
{
    let mut r: Vec<char> = Vec::new();
    let n = cs.len();
    if n >= 3 {
        r.push(cs[0]);
        r.push(cs[1]);
        r.push(cs[2]);
    } else if n == 2 {
        r.push(cs[0]);
        r.push(cs[1]);
        r.push(' ');
    } else if n == 1 {
        r.push(' ');
        r.push(cs[0]);
        r.push(' ');
    } else {
        r.push(' ');
        r.push(' ');
        r.push(' ');
    }
    assert(r@ =~= center3(cs@));
    r
}

/// The number of decimal digits of `n`.
pub open spec fn digit_count(n: nat) -> nat
    decreases n,
{
    if n < 10 {
        1
    } else {
        1 + digit_count(n / 10)
    }
}

proof fn lemma_digit_count_bound(n: nat, k: nat)
    requires
        n < pow10(k),
        k >= 1,
    ensures
        digit_count(n) <= k,
    decreases k,
{
    if n >= 10 {
        assert(n / 10 < pow10((k - 1) as nat)) by {
            assert(pow10(k) == 10 * pow10((k - 1) as nat));
        }
        if k == 1 {
            assert(pow10(1) == 10 * pow10(0));
        } else {
            lemma_digit_count_bound(n / 10, (k - 1) as nat);
        }
    }
}

/// Ten to the power `k`.
pub open spec fn pow10(k: nat) -> nat
    decreases k,
{
    if k == 0 {
        1
    } else {
        10 * pow10((k - 1) as nat)
    }
}

/// How many decimal digits a number has.
pub trait USizeExt {
    fn count_digits(&self) -> usize;
}

impl USizeExt for usize {
    /// The number of decimal digits of the number, from 1 to 20.
    fn count_digits(&self) -> (d: usize)
        ensures
            d == digit_count(*self as nat),
            1 <= d <= 20,
    {
        proof {
            assert(pow10(20) == 100000000000000000000nat) by {
                reveal_with_fuel(pow10, 21);
            }
            lemma_digit_count_bound(*self as nat, 20);
        }
        let mut n: usize = *self;
        let mut d: usize = 1;
        while n >= 10
            invariant
                d >= 1,
                d + digit_count(n as nat) == 1 + digit_count(*self as nat),
                digit_count(*self as nat) <= 20,
            decreases n,
        {
            n = n / 10;
            d = d + 1;
        }
        d
    }
}

/// Text made of `s` repeated.
pub trait StrExt {
    fn repeated(&self, n: usize) -> String;
}

impl StrExt for str {
    /// The text repeated `n` times.
    fn repeated(&self, n: usize) -> (r: String)
        ensures
            r@ == repeat(self@, n as nat),
    {
        let cs = chars_of(self);
        let mut r = String::new();
        let mut i: usize = 0;
        while i < n
            invariant
                i <= n,
                cs@ == self@,
                r@ == repeat(self@, i as nat),
            decreases n - i,
        {
            push_chars(&mut r, cs.as_slice());
            i += 1;
        }
        r
    }
}

} // verus!
