//! A text field with a cursor, as a string and a byte position in it.
use vstd::prelude::*;

use vstd::utf8::{encode_utf8, encode_utf8_valid_utf8, is_char_boundary, valid_utf8};

use crate::text::{
    insert_at, insert_char_bytes, lemma_insert_char_bytes, lemma_remove_char_bytes, remove_at, remove_char_bytes,
};

verus! {

/// A text field: its text and a cursor, a byte position in the text.
#[derive(Debug)]
pub struct Field {
    data: String,
    cursor: usize,
}

/// A field model (the text's UTF-8 bytes and the cursor) is well formed:
/// the bytes are valid UTF-8 whose length fits a `usize`, and the cursor
/// lies within them or just after them.
pub open spec fn field_wf(f: (Seq<u8>, int)) -> bool {
    &&& valid_utf8(f.0)
    &&& f.0.len() <= usize::MAX
    &&& 0 <= f.1 <= f.0.len()
}

/// The field after `ch` is typed: it goes in at the cursor, and the cursor
/// moves on by one byte.
pub open spec fn field_insert(f: (Seq<u8>, int), ch: char) -> (Seq<u8>, int) {
    (insert_char_bytes(f.0, f.1, ch), f.1 + 1)
}

/// The field after Backspace: the character that starts one byte before the
/// cursor goes, and the cursor moves back one byte.
pub open spec fn field_backspace(f: (Seq<u8>, int)) -> (Seq<u8>, int) {
    if f.1 > 0 {
        (remove_char_bytes(f.0, f.1 - 1), f.1 - 1)
    } else {
        f
    }
}

/// The field after Delete: the character that starts at the cursor goes.
pub open spec fn field_delete(f: (Seq<u8>, int)) -> (Seq<u8>, int) {
    if f.1 < f.0.len() {
        (remove_char_bytes(f.0, f.1), f.1)
    } else {
        f
    }
}

/// Backspace can be pressed: the cursor is at the start, or one byte
/// before it a character starts.
pub open spec fn backspace_ok(f: (Seq<u8>, int)) -> bool {
    f.1 > 0 ==> is_char_boundary(f.0, f.1 - 1)
}

/// Delete can be pressed: the cursor is at the end, or a character starts
/// at it.
pub open spec fn delete_ok(f: (Seq<u8>, int)) -> bool {
    f.1 < f.0.len() ==> is_char_boundary(f.0, f.1)
}

impl View for Field {
    /// The text's UTF-8 bytes and the cursor.
    type V = (Seq<u8>, int);

    closed spec fn view(&self) -> (Seq<u8>, int) {
        (encode_utf8(self.data@), self.cursor as int)
    }
}

impl Field {
    #[verifier::type_invariant]
    spec fn inv(&self) -> bool {
        field_wf((encode_utf8(self.data@), self.cursor as int))
    }

    /// An empty field.
    pub fn new() -> (f: Self)
        ensures
            f@ == (Seq::<u8>::empty(), 0int),
    {
        let data = String::new();
        assert(encode_utf8(data@) =~= Seq::<u8>::empty());
        Field { data, cursor: 0 }
    }

    /// The cursor, a byte position.
    pub fn cursor(&self) -> (c: usize)
        ensures
            c == self@.1,
            field_wf(self@),
    {
        proof {
            use_type_invariant(self);
        }
        self.cursor
    }

    /// The text.
    pub fn data(&self) -> (s: &str)
        ensures
            encode_utf8(s@) == self@.0,
    {
        self.data.as_str()
    }

    /// Types `ch` at the cursor, which must stand where a character
    /// starts; the cursor moves on by one byte.
    pub fn insert(&mut self, ch: char)
        requires
            is_char_boundary(old(self)@.0, old(self)@.1),
        ensures
            final(self)@ == field_insert(old(self)@, ch),
    {
        proof {
            use_type_invariant(&*self);
            lemma_insert_char_bytes(encode_utf8(self.data@), self.cursor as int, ch);
        }
        let mut taken = Field::new();
        std::mem::swap(self, &mut taken);
        let cursor = taken.cursor;
        let mut data = taken.data;
        insert_at(&mut data, cursor, ch);
        proof {
            encode_utf8_valid_utf8(data@);
        }
        *self = Field { data, cursor: cursor + 1 };
    }

    /// Deletes the character that starts one byte before the cursor, and
    /// moves the cursor back one byte.
    pub fn backspace(&mut self)
        requires
            backspace_ok(old(self)@),
        ensures
            final(self)@ == field_backspace(old(self)@),
    {
        proof {
            use_type_invariant(&*self);
        }
        if self.cursor > 0 {
            let cursor = self.cursor - 1;
            proof {
                lemma_remove_char_bytes(encode_utf8(self.data@), cursor as int);
            }
            let mut taken = Field::new();
            std::mem::swap(self, &mut taken);
            let mut data = taken.data;
            remove_at(&mut data, cursor);
            *self = Field { data, cursor };
        }
    }

    /// Deletes the character that starts at the cursor, if any.
    pub fn delete(&mut self)
        requires
            delete_ok(old(self)@),
        ensures
            final(self)@ == field_delete(old(self)@),
    {
        proof {
            use_type_invariant(&*self);
        }
        let len = self.data.as_str().len();
        if self.cursor < len {
            let cursor = self.cursor;
            proof {
                lemma_remove_char_bytes(encode_utf8(self.data@), cursor as int);
            }
            let mut taken = Field::new();
            std::mem::swap(self, &mut taken);
            let mut data = taken.data;
            remove_at(&mut data, cursor);
            *self = Field { data, cursor };
        }
    }

    /// Moves the cursor one byte right, unless it is at the end.
    pub fn cursor_right(&mut self)
        ensures
            final(self)@.0 == old(self)@.0,
            final(self)@.1 == if old(self)@.1 < old(self)@.0.len() { old(self)@.1 + 1 } else { old(self)@.1 },
    {
        proof {
            use_type_invariant(&*self);
        }
        if self.cursor < self.data.as_str().len() {
            self.cursor = self.cursor + 1;
        }
    }

    /// Moves the cursor one byte left, unless it is at the start.
    pub fn cursor_left(&mut self)
        ensures
            final(self)@.0 == old(self)@.0,
            final(self)@.1 == if old(self)@.1 > 0 { old(self)@.1 - 1 } else { 0 },
    {
        proof {
            use_type_invariant(&*self);
        }
        if self.cursor > 0 {
            self.cursor = self.cursor - 1;
        }
    }

    /// Moves the cursor to the start.
    pub fn cursor_home(&mut self)
        ensures
            final(self)@ == (old(self)@.0, 0int),
    {
        proof {
            use_type_invariant(&*self);
        }
        self.cursor = 0;
    }

    /// Moves the cursor to the end.
    pub fn cursor_end(&mut self)
        ensures
            final(self)@ == (old(self)@.0, old(self)@.0.len() as int),
    {
        proof {
            use_type_invariant(&*self);
        }
        self.cursor = self.data.as_str().len();
    }
}

/// Typing a character where one starts and then Backspace leaves the field
/// as it was; Backspace can always be pressed there.
pub proof fn law_backspace_undoes_insert(f: (Seq<u8>, int), ch: char)
    requires
        field_wf(f),
        is_char_boundary(f.0, f.1),
    ensures
        backspace_ok(field_insert(f, ch)),
        field_backspace(field_insert(f, ch)) == f,
{
    lemma_insert_char_bytes(f.0, f.1, ch);
}

} // verus!
