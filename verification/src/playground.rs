//! The scripting playground's decisions: what each key does to the code
//! being typed and to the way the tape is shown.
use vstd::prelude::*;

use vstd::utf8::{
    encode_utf8, is_ascii_chars, is_ascii_chars_encode_utf8, is_char_boundary, is_char_boundary_iff_not_is_continuation_byte,
    is_char_boundary_start_end_of_seq, valid_utf8,
};

use crate::field::{field_backspace, field_delete, field_insert, Field};
use crate::text::{insert_char_bytes, remove_char_bytes};

verus! {

/// A key press as the playground reads it.
#[derive(Clone, Copy, Debug, PartialEq, Eq, Structural)]
pub enum PlaygroundInput {
    /// A character, control characters included.
    Character(char),
    Left,
    Right,
    Backspace,
    Delete,
    /// Any other key.
    Other,
}

/// The eight instructions, the only characters typed into the code.
pub open spec fn is_bf_char(c: char) -> bool {
    c == '>' || c == '<' || c == '+' || c == '-' || c == '[' || c == ']' || c == '.' || c == ','
}

/// Every byte is ASCII.
pub open spec fn ascii_bytes(b: Seq<u8>) -> bool {
    forall|i: int| 0 <= i < b.len() ==> #[trigger] b[i] < 128
}

/// The playground as values: the code field and whether the tape shows
/// ASCII characters.
pub type PlaygroundView = ((Seq<u8>, int), bool);

/// What a key does: `q` and Control-C quit; Control-A switches between
/// values and ASCII characters on the tape; Control-H and Control-L move to
/// the start and the end of the code; an instruction character is typed;
/// the arrows move, Backspace and Delete erase; anything else does nothing.
/// The result is the playground afterwards and whether to quit.
pub open spec fn playground_step(v: PlaygroundView, input: PlaygroundInput) -> (PlaygroundView, bool) {
    let (f, ascii) = v;
    match input {
        PlaygroundInput::Character(c) => if c == 'q' || c == '\u{3}' {
            (v, true)
        } else if c == '\u{1}' {
            ((f, !ascii), false)
        } else if c == '\u{8}' {
            (((f.0, 0int), ascii), false)
        } else if c == '\u{c}' {
            (((f.0, f.0.len() as int), ascii), false)
        } else if is_bf_char(c) {
            ((field_insert(f, c), ascii), false)
        } else {
            (v, false)
        },
        PlaygroundInput::Left => (((f.0, if f.1 > 0 { f.1 - 1 } else { 0 }), ascii), false),
        PlaygroundInput::Right => (((f.0, if f.1 < f.0.len() { f.1 + 1 } else { f.1 }), ascii), false),
        PlaygroundInput::Backspace => ((field_backspace(f), ascii), false),
        PlaygroundInput::Delete => ((field_delete(f), ascii), false),
        PlaygroundInput::Other => (v, false),
    }
}

/// The scripting playground: the code typed so far and how the tape is
/// shown.
pub struct Playground {
    code: Field,
    ascii_values: bool,
}

impl View for Playground {
    type V = PlaygroundView;

    closed spec fn view(&self) -> PlaygroundView {
        (self.code@, self.ascii_values)
    }
}

/// In ASCII text every position is where a character starts.
proof fn lemma_ascii_boundaries(b: Seq<u8>, k: int)
    requires
        valid_utf8(b),
        ascii_bytes(b),
        0 <= k <= b.len(),
    ensures
        is_char_boundary(b, k),
{
    if k == b.len() {
        is_char_boundary_start_end_of_seq(b);
    } else {
        is_char_boundary_iff_not_is_continuation_byte(b, k);
    }
}

/// Typing an instruction into ASCII text keeps it ASCII.
proof fn lemma_insert_ascii(b: Seq<u8>, k: int, c: char)
    requires
        ascii_bytes(b),
        0 <= k <= b.len(),
        is_bf_char(c),
    ensures
        ascii_bytes(insert_char_bytes(b, k, c)),
{
    assert(is_ascii_chars(seq![c]));
    is_ascii_chars_encode_utf8(seq![c]);
    let e = encode_utf8(seq![c]);
    assert(e.len() == 1 && e[0] == c as u8);
    let r = insert_char_bytes(b, k, c);
    assert forall|i: int| 0 <= i < r.len() implies #[trigger] r[i] < 128 by {
        if i < k {
            assert(r[i] == b[i]);
        } else if i == k {
            assert(r[i] == e[0]);
        } else {
            assert(r[i] == b[i - 1]);
        }
    }
}

/// Taking a character out of ASCII text keeps it ASCII.
proof fn lemma_remove_ascii(b: Seq<u8>, k: int)
    requires
        ascii_bytes(b),
        0 <= k < b.len(),
    ensures
        ascii_bytes(remove_char_bytes(b, k)),
{
    let rest = b.subrange(k, b.len() as int);
    let r = remove_char_bytes(b, k);
    assert(rest[0] < 128);
    assert(vstd::utf8::length_of_first_scalar(rest) == 1);
    assert forall|i: int| 0 <= i < r.len() implies #[trigger] r[i] < 128 by {
        if i < k {
            assert(r[i] == b[i]);
        } else {
            assert(r[i] == b[i + 1]);
        }
    }
}

impl Playground {
    #[verifier::type_invariant]
    spec fn inv(&self) -> bool {
        ascii_bytes(self.code@.0)
    }

    /// An empty playground showing values.
    pub fn new(ascii_values: bool) -> (p: Self)
        ensures
            p@ == ((Seq::<u8>::empty(), 0int), ascii_values),
    {
        Playground { code: Field::new(), ascii_values }
    }

    /// The code typed so far.
    pub fn code(&self) -> (f: &Field)
        ensures
            f@ == self@.0,
    {
        &self.code
    }

    /// Whether the tape shows ASCII characters.
    pub fn ascii_values(&self) -> (a: bool)
        ensures
            a == self@.1,
    {
        self.ascii_values
    }

    /// Handles a key (see `playground_step`); returns whether to quit.
    pub fn on_input(&mut self, input: PlaygroundInput) -> (quit: bool)
        ensures
            (final(self)@, quit) == playground_step(old(self)@, input),
    {
        proof {
            use_type_invariant(&*self);
        }
        let _c = self.code.cursor();
        let ghost f = self.code@;
        let mut code = Field::new();
        std::mem::swap(&mut code, &mut self.code);
        let mut ascii = self.ascii_values;
        let mut quit = false;
        proof {
            if f.1 > 0 {
                lemma_ascii_boundaries(f.0, f.1 - 1);
            }
            lemma_ascii_boundaries(f.0, f.1);
        }
        match input {
            PlaygroundInput::Character(c) => {
                if c == 'q' || c == '\u{3}' {
                    quit = true;
                } else if c == '\u{1}' {
                    ascii = !ascii;
                } else if c == '\u{8}' {
                    code.cursor_home();
                } else if c == '\u{c}' {
                    code.cursor_end();
                } else if c == '>' || c == '<' || c == '+' || c == '-' || c == '[' || c == ']' || c == '.' || c == ',' {
                    proof {
                        lemma_insert_ascii(f.0, f.1, c);
                    }
                    code.insert(c);
                }
            },
            PlaygroundInput::Left => code.cursor_left(),
            PlaygroundInput::Right => code.cursor_right(),
            PlaygroundInput::Backspace => {
                proof {
                    if f.1 > 0 {
                        lemma_remove_ascii(f.0, f.1 - 1);
                    }
                }
                code.backspace();
            },
            PlaygroundInput::Delete => {
                proof {
                    if f.1 < f.0.len() {
                        lemma_remove_ascii(f.0, f.1);
                    }
                }
                code.delete();
            },
            PlaygroundInput::Other => {},
        }
        *self = Playground { code, ascii_values: ascii };
        quit
    }
}

} // verus!
