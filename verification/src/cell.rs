//! A tape cell: one byte that wraps around.
use vstd::prelude::*;
use vstd::string::StringExecFns;

use crate::text::{center3, center3_chars, decimal, decimal_u8, push_chars};

verus! {

/// One memory cell of the Brainfuck tape: a byte that wraps around on
/// increment and decrement.
#[derive(Clone, Copy, Debug)]
pub struct Cell {
    value: u8,
}

/// `v` plus one, 255 wrapping around to 0.
pub open spec fn wrapped_inc(v: u8) -> u8 {
    ((v + 1) % 256) as u8
}

/// `v` minus one, 0 wrapping around to 255.
pub open spec fn wrapped_dec(v: u8) -> u8 {
    ((v + 255) % 256) as u8
}

impl View for Cell {
    type V = u8;

    open spec fn view(&self) -> u8 {
        self.spec_value()
    }
}

impl Cell {
    /// The byte stored in the cell.
    pub closed spec fn spec_value(&self) -> u8 {
        self.value
    }

    /// A cell holding zero.
    pub fn new() -> (c: Self)
        ensures
            c@ == 0,
    {
        Cell { value: 0 }
    }

    /// Adds one, wrapping 255 around to 0.
    pub fn inc(&mut self)
        ensures
            final(self)@ == wrapped_inc(old(self)@),
    {
        self.value = if self.value == 255 { 0 } else { self.value + 1 };
    }

    /// Subtracts one, wrapping 0 around to 255.
    pub fn dec(&mut self)
        ensures
            final(self)@ == wrapped_dec(old(self)@),
    {
        self.value = if self.value == 0 { 255 } else { self.value - 1 };
    }

    /// The byte stored in the cell.
    pub fn value(&self) -> (v: u8)
        ensures
            v == self@,
    {
        self.value
    }

    /// The stored byte read as a character (Latin-1).
    pub fn ascii(&self) -> (c: char)
        ensures
            c as u32 == self@ as u32,
    {
        self.value as char
    }

    /// Replaces the stored byte.
    pub fn set(&mut self, value: u8)
        ensures
            final(self)@ == value,
    {
        self.value = value;
    }
}

/// The terminal escape that draws black on cyan.
pub open spec fn highlight_on() -> Seq<char> {
    seq!['\x1b', '[', '4', '6', 'm', '\x1b', '[', '3', '0', 'm']
}

/// The terminal escape that resets the colours.
pub open spec fn highlight_off() -> Seq<char> {
    seq!['\x1b', '[', '0', 'm']
}

/// A cell's value as printed on a plain terminal: the decimal value
/// centered in three columns, in black on cyan under the cursor.
pub open spec fn cell_display(value: u8, highlight: bool) -> Seq<char> {
    if highlight {
        highlight_on() + center3(decimal(value as nat)) + highlight_off()
    } else {
        center3(decimal(value as nat))
    }
}

impl Cell {
    /// The value as printed on a plain terminal (see `cell_display`).
    pub fn display(&self, highlight: bool) -> (s: String)
        ensures
            s@ == cell_display(self@, highlight),
    {
        let digits = decimal_u8(self.value);
        let body = center3_chars(digits.as_slice());
        let mut s = String::new();
        if highlight {
            s.append("\x1b[46m\x1b[30m");
        }
        push_chars(&mut s, body.as_slice());
        if highlight {
            s.append("\x1b[0m");
        }
        proof {
            reveal_strlit("\x1b[46m\x1b[30m");
            reveal_strlit("\x1b[0m");
        }
        assert(s@ =~= cell_display(self@, highlight));
        s
    }
}

/// Decrementing undoes incrementing, and incrementing undoes decrementing.
pub proof fn law_dec_undoes_inc(v: u8)
    ensures
        wrapped_dec(wrapped_inc(v)) == v,
        wrapped_inc(wrapped_dec(v)) == v,
{
}

/// Incrementing adds exactly one, but for 255, which becomes 0;
/// decrementing takes exactly one, but for 0, which becomes 255.
pub proof fn law_inc_and_dec_step_by_one(v: u8)
    ensures
        v < 255 ==> wrapped_inc(v) == v + 1,
        wrapped_inc(255) == 0,
        v > 0 ==> wrapped_dec(v) == v - 1,
        wrapped_dec(0) == 255,
{
}

} // verus!

