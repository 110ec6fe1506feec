//! A buffer of typed characters that follows the cursor.

use crate::utf8::{string_pop, string_push};
use vstd::prelude::*;
use vstd::string::*;
use vstd::utf8::*;

verus! {

/// What the buffer answers when it is handed a character.
#[derive(Debug, Clone, Copy, PartialEq, Eq, Structural)]
pub enum AddResult {
    /// The buffer took the character and has room for more.
    Added,
    /// The buffer took the character and is now full.
    MustPersist,
}

/// Typed characters, at most `max_length` bytes of them, with the position
/// of the cursor.
pub struct TemporaryBuffer {
    pub buffer: String,
    pub max_length: usize,
    pub position: usize,
}

impl TemporaryBuffer {
    /// The bytes that are waiting in the buffer.
    pub open spec fn bytes(&self) -> Seq<u8> {
        encode_utf8(self.buffer@)
    }

    /// An empty buffer with the cursor at `cursor_position`.
    pub fn new(max_length: usize, cursor_position: usize) -> (buffer: Self)
        ensures
            buffer.buffer@ == Seq::<char>::empty(),
            buffer.max_length == max_length,
            buffer.position == cursor_position,
    {
        Self { buffer: String::new(), max_length, position: cursor_position }
    }

    /// Appends `c`, unless the buffer already holds `max_length` bytes or
    /// more. Says `MustPersist` when the buffer holds exactly `max_length`
    /// bytes afterwards.
    pub fn add_char(&mut self, c: char) -> (result: Result<AddResult, ()>)
        ensures
            final(self).max_length == old(self).max_length,
            final(self).position == old(self).position,
            result is Err <==> old(self).bytes().len() >= old(self).max_length,
            result is Err ==> final(self).buffer@ == old(self).buffer@,
            result is Ok ==> final(self).buffer@ == old(self).buffer@.push(c),
            result is Ok ==> result == Ok::<AddResult, ()>(
                if final(self).bytes().len() == old(self).max_length {
                    AddResult::MustPersist
                } else {
                    AddResult::Added
                },
            ),
    {
        if self.buffer.as_str().as_bytes().len() >= self.max_length {
            return Err(());
        }
        string_push(&mut self.buffer, c);
        if self.buffer.as_str().as_bytes().len() == self.max_length {
            Ok(AddResult::MustPersist)
        } else {
            Ok(AddResult::Added)
        }
    }

    /// Moves the cursor to `new_position`.
    pub fn update_position(&mut self, new_position: usize)
        ensures
            final(self).position == new_position,
            final(self).buffer@ == old(self).buffer@,
            final(self).max_length == old(self).max_length,
    {
        self.position = new_position;
    }

    /// Takes the last character back and steps the cursor one to the left,
    /// unless the cursor is at position 0.
    pub fn remove_char(&mut self)
        ensures
            final(self).max_length == old(self).max_length,
            final(self).position == old(self).position.saturating_sub(1),
            final(self).buffer@ == if old(self).position > 0 && old(self).buffer@.len() > 0 {
                old(self).buffer@.drop_last()
            } else {
                old(self).buffer@
            },
    {
        if self.position > 0 {
            let _ = string_pop(&mut self.buffer);
            self.position -= 1;
        }
    }

    /// Empties the buffer and moves the cursor to `cursor_position`.
    pub fn clear(&mut self, cursor_position: usize)
        ensures
            final(self).buffer@ == Seq::<char>::empty(),
            final(self).position == cursor_position,
            final(self).max_length == old(self).max_length,
    {
        self.buffer = String::new();
        self.position = cursor_position;
    }
}

} // verus!
