//! A one-line text input, as the dialogues' prompts hold it: the text as
//! characters, with a cursor counted in characters.
use vstd::prelude::*;

use crate::keys::{KeyCode, KeyEvent};
use crate::text::{chars_of, string_from_chars};

verus! {

/// A one-line text input with a cursor between characters.
#[derive(Debug)]
pub struct LineInput {
    data: Vec<char>,
    cursor: usize,
}

/// An input model is well formed: the cursor lies within the text or just
/// after it.
pub open spec fn line_wf(f: (Seq<char>, int)) -> bool {
    0 <= f.1 <= f.0.len()
}

/// The input after typing `c`: it goes in at the cursor, which moves past
/// it.
pub open spec fn line_insert(f: (Seq<char>, int), c: char) -> (Seq<char>, int) {
    (f.0.insert(f.1, c), f.1 + 1)
}

/// The input after Backspace: the character before the cursor goes, and
/// the cursor moves back onto its place.
pub open spec fn line_backspace(f: (Seq<char>, int)) -> (Seq<char>, int) {
    if f.1 > 0 {
        (f.0.remove(f.1 - 1), f.1 - 1)
    } else {
        f
    }
}

/// What a key press does to a one-line input: arrows, Home and End move
/// the cursor, Backspace and Delete erase, and a character typed without
/// Control or Alt goes in whatever it is, line breaks aside (a one-line
/// text holds none); other keys do nothing.
pub open spec fn line_after_key(f: (Seq<char>, int), event: KeyEvent) -> (Seq<char>, int) {
    match event.code {
        KeyCode::Left => (f.0, if f.1 > 0 { f.1 - 1 } else { 0 }),
        KeyCode::Right => (f.0, if f.1 < f.0.len() { f.1 + 1 } else { f.1 }),
        KeyCode::Home => (f.0, 0),
        KeyCode::End => (f.0, f.0.len() as int),
        KeyCode::Char(c) => if !event.modifiers.control && !event.modifiers.alt && c != '\n' && c != '\r' {
            line_insert(f, c)
        } else {
            f
        },
        KeyCode::Backspace => line_backspace(f),
        KeyCode::Delete => if f.1 < f.0.len() { (f.0.remove(f.1), f.1) } else { f },
        _ => f,
    }
}

impl View for LineInput {
    /// The text and the cursor position.
    type V = (Seq<char>, int);

    closed spec fn view(&self) -> (Seq<char>, int) {
        (self.data@, self.cursor as int)
    }
}

impl LineInput {
    #[verifier::type_invariant]
    spec fn inv(&self) -> bool {
        self.cursor <= self.data.len()
    }

    /// An empty input.
    pub fn new() -> (f: Self)
        ensures
            f@ == (Seq::<char>::empty(), 0int),
    {
        LineInput { data: Vec::new(), cursor: 0 }
    }

    /// An input holding `data`, with the cursor after its last character.
    pub fn from(data: &str) -> (f: Self)
        ensures
            f@ == (data@, data@.len() as int),
    {
        let data = chars_of(data);
        let cursor = data.len();
        LineInput { data, cursor }
    }

    /// The cursor position, counted in characters.
    pub fn cursor(&self) -> (c: usize)
        ensures
            c == self@.1,
            line_wf(self@),
    {
        proof {
            use_type_invariant(self);
        }
        self.cursor
    }

    /// The text.
    pub fn text(&self) -> (s: String)
        ensures
            s@ == self@.0,
    {
        string_from_chars(self.data.as_slice())
    }

    /// Types `ch` at the cursor; the cursor moves past it.
    pub fn insert(&mut self, ch: char)
        ensures
            final(self)@ == line_insert(old(self)@, ch),
    {
        proof {
            use_type_invariant(&*self);
        }
        let mut taken = LineInput::new();
        std::mem::swap(self, &mut taken);
        let cursor = taken.cursor;
        let mut data = taken.data;
        data.insert(cursor, ch);
        let _n = data.len();
        *self = LineInput { data, cursor: cursor + 1 };
    }
    /// Moves the cursor one character right, unless it is at the end.
    pub fn cursor_right(&mut self)
        ensures
            final(self)@.0 == old(self)@.0,
            final(self)@.1 == if old(self)@.1 < old(self)@.0.len() { old(self)@.1 + 1 } else { old(self)@.1 },
    {
        proof {
            use_type_invariant(&*self);
        }
        if self.cursor < self.data.len() {
            self.cursor = self.cursor + 1;
        }
    }

    /// Moves the cursor one character left, unless it is at the start.
    pub fn cursor_left(&mut self)
        ensures
            final(self)@.0 == old(self)@.0,
            final(self)@.1 == if old(self)@.1 > 0 { old(self)@.1 - 1 } else { 0 },
    {
        proof {
            use_type_invariant(&*self);
        }
        if self.cursor > 0 {
            self.cursor = self.cursor - 1;
        }
    }

    /// Moves the cursor to the start.
    pub fn cursor_home(&mut self)
        ensures
            final(self)@ == (old(self)@.0, 0int),
    {
        self.cursor = 0;
    }

    /// Moves the cursor to the end.
    pub fn cursor_end(&mut self)
        ensures
            final(self)@ == (old(self)@.0, old(self)@.0.len() as int),
    {
        self.cursor = self.data.len();
    }

    /// Deletes the character before the cursor, if any.
    pub fn backspace(&mut self)
        ensures
            final(self)@ == line_backspace(old(self)@),
    {
        proof {
            use_type_invariant(&*self);
        }
        if self.cursor > 0 {
            let mut taken = LineInput::new();
            std::mem::swap(self, &mut taken);
            let cursor = taken.cursor - 1;
            let mut data = taken.data;
            data.remove(cursor);
            *self = LineInput { data, cursor };
        }
    }

    /// Deletes the character under the cursor, if any.
    pub fn delete(&mut self)
        ensures
            old(self)@.1 < old(self)@.0.len() ==> final(self)@ == (old(self)@.0.remove(old(self)@.1), old(self)@.1),
            old(self)@.1 >= old(self)@.0.len() ==> final(self)@ == old(self)@,
    {
        proof {
            use_type_invariant(&*self);
        }
        if self.cursor < self.data.len() {
            let mut taken = LineInput::new();
            std::mem::swap(self, &mut taken);
            let cursor = taken.cursor;
            let mut data = taken.data;
            data.remove(cursor);
            *self = LineInput { data, cursor };
        }
    }

    /// Applies a key press (see `line_after_key`).
    pub fn on_key(&mut self, event: KeyEvent)
        ensures
            final(self)@ == line_after_key(old(self)@, event),
    {
        proof {
            use_type_invariant(&*self);
        }
        match event.code {
            KeyCode::Left => self.cursor_left(),
            KeyCode::Right => self.cursor_right(),
            KeyCode::Home => self.cursor_home(),
            KeyCode::End => self.cursor_end(),
            KeyCode::Char(c) => {
                if !event.modifiers.control && !event.modifiers.alt && c != '\n' && c != '\r' {
                    self.insert(c);
                }
            },
            KeyCode::Backspace => self.backspace(),
            KeyCode::Delete => self.delete(),
            _ => {},
        }
    }
}

impl Clone for LineInput {
    fn clone(&self) -> (f: Self)
        ensures
            f@ == self@,
    {
        proof {
            use_type_invariant(self);
        }
        let data = self.data.clone();
        assert(data@ =~= self.data@);
        LineInput { data, cursor: self.cursor }
    }
}

/// Typing a character and then Backspace leaves the input as it was.
pub proof fn law_line_backspace_undoes_insert(f: (Seq<char>, int), c: char)
    requires
        line_wf(f),
    ensures
        line_backspace(line_insert(f, c)) == f,
{
    assert(f.0.insert(f.1, c).remove(f.1) =~= f.0);
}

} // verus!
