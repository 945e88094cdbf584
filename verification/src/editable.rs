//! The editor's text field: typing takes only ASCII text characters, and
//! the cursor is a byte position in the text.
use vstd::prelude::*;

use vstd::utf8::{encode_utf8, encode_utf8_valid_utf8, is_char_boundary, valid_utf8};

use crate::field::{backspace_ok, delete_ok, field_backspace, field_delete, field_insert, field_wf};
use crate::keys::{KeyCode, KeyEvent};
use crate::text::{insert_at, lemma_insert_char_bytes, lemma_remove_char_bytes, remove_at};

verus! {

/// The editor's text field: its text and a cursor, a byte position in the
/// text.
#[derive(Debug)]
pub struct Field {
    data: String,
    cursor: usize,
}

/// The characters typing puts in: ASCII letters, digits, punctuation and
/// ASCII white space.
pub open spec fn insertable(c: char) -> bool {
    ('!' <= c && c <= '~') || c == ' ' || c == '\t' || c == '\n' || c == '\x0C' || c == '\r'
}

/// The field after `ch` is typed: an accepted character goes in at the
/// cursor, which moves on by one byte; any other leaves the field as it is.
pub open spec fn editable_insert(f: (Seq<u8>, int), ch: char) -> (Seq<u8>, int) {
    if insertable(ch) {
        field_insert(f, ch)
    } else {
        f
    }
}

/// What a key press does to the field: arrows, Home and End move the
/// cursor, Backspace and Delete erase, and a character typed without
/// Control or Alt is typed; other keys do nothing.
pub open spec fn field_after_key(f: (Seq<u8>, int), event: KeyEvent) -> (Seq<u8>, int) {
    match event.code {
        KeyCode::Left => (f.0, if f.1 > 0 { f.1 - 1 } else { 0 }),
        KeyCode::Right => (f.0, if f.1 < f.0.len() { f.1 + 1 } else { f.1 }),
        KeyCode::Home => (f.0, 0),
        KeyCode::End => (f.0, f.0.len() as int),
        KeyCode::Char(c) => if !event.modifiers.control && !event.modifiers.alt {
            editable_insert(f, c)
        } else {
            f
        },
        KeyCode::Backspace => field_backspace(f),
        KeyCode::Delete => field_delete(f),
        _ => f,
    }
}

/// The key press can be handled: an edit it makes starts where a
/// character starts.
pub open spec fn key_ok(f: (Seq<u8>, int), event: KeyEvent) -> bool {
    match event.code {
        KeyCode::Char(c) => (!event.modifiers.control && !event.modifiers.alt && insertable(c)) ==> is_char_boundary(
            f.0,
            f.1,
        ),
        KeyCode::Backspace => backspace_ok(f),
        KeyCode::Delete => delete_ok(f),
        _ => true,
    }
}

impl View for Field {
    /// The text's UTF-8 bytes and the cursor.
    type V = (Seq<u8>, int);

    closed spec fn view(&self) -> (Seq<u8>, int) {
        (encode_utf8(self.data@), self.cursor as int)
    }
}

impl Field {
    #[verifier::type_invariant]
    spec fn inv(&self) -> bool {
        field_wf((encode_utf8(self.data@), self.cursor as int))
    }

    /// An empty field.
    pub fn new() -> (f: Self)
        ensures
            f@ == (Seq::<u8>::empty(), 0int),
    {
        let data = String::new();
        assert(encode_utf8(data@) =~= Seq::<u8>::empty());
        Field { data, cursor: 0 }
    }

    /// A field holding `data`, with the cursor at its end: its length in
    /// bytes.
    pub fn from(data: &str) -> (f: Self)
        ensures
            f@ == (encode_utf8(data@), encode_utf8(data@).len() as int),
    {
        let cursor = data.as_bytes().len();
        let data = String::from_str(data);
        proof {
            encode_utf8_valid_utf8(data@);
        }
        Field { data, cursor }
    }

    /// The cursor, a byte position.
    pub fn cursor(&self) -> (c: usize)
        ensures
            c == self@.1,
            field_wf(self@),
    {
        proof {
            use_type_invariant(self);
        }
        self.cursor
    }

    /// The text.
    pub fn text(&self) -> (s: &str)
        ensures
            encode_utf8(s@) == self@.0,
    {
        self.data.as_str()
    }

    /// Types `ch` at the cursor if it is an ASCII text character (the
    /// cursor must then stand where a character starts); the cursor moves on
    /// by one byte.
    pub fn insert(&mut self, ch: char)
        requires
            insertable(ch) ==> is_char_boundary(old(self)@.0, old(self)@.1),
        ensures
            final(self)@ == editable_insert(old(self)@, ch),
    {
        proof {
            use_type_invariant(&*self);
        }
        if !(('!' <= ch && ch <= '~') || ch == ' ' || ch == '\t' || ch == '\n' || ch == '\x0C' || ch == '\r') {
            return;
        }
        proof {
            lemma_insert_char_bytes(encode_utf8(self.data@), self.cursor as int, ch);
        }
        let mut taken = Field::new();
        std::mem::swap(self, &mut taken);
        let cursor = taken.cursor;
        let mut data = taken.data;
        insert_at(&mut data, cursor, ch);
        proof {
            encode_utf8_valid_utf8(data@);
        }
        *self = Field { data, cursor: cursor + 1 };
    }

    /// Deletes the character that starts one byte before the cursor, and
    /// moves the cursor back one byte.
    pub fn backspace(&mut self)
        requires
            backspace_ok(old(self)@),
        ensures
            final(self)@ == field_backspace(old(self)@),
    {
        proof {
            use_type_invariant(&*self);
        }
        if self.cursor > 0 {
            let cursor = self.cursor - 1;
            proof {
                lemma_remove_char_bytes(encode_utf8(self.data@), cursor as int);
            }
            let mut taken = Field::new();
            std::mem::swap(self, &mut taken);
            let mut data = taken.data;
            remove_at(&mut data, cursor);
            *self = Field { data, cursor };
        }
    }

    /// Deletes the character that starts at the cursor, if any.
    pub fn delete(&mut self)
        requires
            delete_ok(old(self)@),
        ensures
            final(self)@ == field_delete(old(self)@),
    {
        proof {
            use_type_invariant(&*self);
        }
        let len = self.data.as_str().len();
        if self.cursor < len {
            let cursor = self.cursor;
            proof {
                lemma_remove_char_bytes(encode_utf8(self.data@), cursor as int);
            }
            let mut taken = Field::new();
            std::mem::swap(self, &mut taken);
            let mut data = taken.data;
            remove_at(&mut data, cursor);
            *self = Field { data, cursor };
        }
    }

    /// Moves the cursor one byte right, unless it is at the end.
    pub fn cursor_right(&mut self)
        ensures
            final(self)@.0 == old(self)@.0,
            final(self)@.1 == if old(self)@.1 < old(self)@.0.len() { old(self)@.1 + 1 } else { old(self)@.1 },
    {
        proof {
            use_type_invariant(&*self);
        }
        if self.cursor < self.data.as_str().len() {
            self.cursor = self.cursor + 1;
        }
    }

    /// Moves the cursor one byte left, unless it is at the start.
    pub fn cursor_left(&mut self)
        ensures
            final(self)@.0 == old(self)@.0,
            final(self)@.1 == if old(self)@.1 > 0 { old(self)@.1 - 1 } else { 0 },
    {
        proof {
            use_type_invariant(&*self);
        }
        if self.cursor > 0 {
            self.cursor = self.cursor - 1;
        }
    }

    /// Moves the cursor to the start.
    pub fn cursor_home(&mut self)
        ensures
            final(self)@ == (old(self)@.0, 0int),
    {
        proof {
            use_type_invariant(&*self);
        }
        self.cursor = 0;
    }

    /// Moves the cursor to the end.
    pub fn cursor_end(&mut self)
        ensures
            final(self)@ == (old(self)@.0, old(self)@.0.len() as int),
    {
        proof {
            use_type_invariant(&*self);
        }
        self.cursor = self.data.as_str().len();
    }

    /// Applies a key press (see `field_after_key`).
    pub fn on_event(&mut self, event: KeyEvent)
        requires
            key_ok(old(self)@, event),
        ensures
            final(self)@ == field_after_key(old(self)@, event),
    {
        match event.code {
            KeyCode::Left => self.cursor_left(),
            KeyCode::Right => self.cursor_right(),
            KeyCode::Home => self.cursor_home(),
            KeyCode::End => self.cursor_end(),
            KeyCode::Char(c) => {
                if !event.modifiers.control && !event.modifiers.alt {
                    self.insert(c);
                }
            },
            KeyCode::Backspace => self.backspace(),
            KeyCode::Delete => self.delete(),
            _ => {},
        }
    }
}

/// Typing an ASCII text character where a character starts and then
/// Backspace leaves the field as it was.
pub proof fn law_backspace_undoes_typing(f: (Seq<u8>, int), ch: char)
    requires
        field_wf(f),
        is_char_boundary(f.0, f.1),
        insertable(ch),
    ensures
        backspace_ok(editable_insert(f, ch)),
        field_backspace(editable_insert(f, ch)) == f,
{
    crate::field::law_backspace_undoes_insert(f, ch);
}

} // verus!
