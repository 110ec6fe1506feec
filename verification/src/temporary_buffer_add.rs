//! The buffer that gathers the characters typed at one place before they are
//! inserted into the piece table as one piece.

use crate::enum_add_result::EnumAddResult;
use crate::utf8::{string_pop, string_push};
use vstd::prelude::*;
use vstd::string::*;
use vstd::utf8::*;

verus! {

/// Characters typed one after the other at `position`, at most `max_length`
/// bytes of them before they have to be written out.
pub struct TemporaryBufferAddText {
    pub buffer: String,
    pub max_length: usize,
    pub position: usize,
}

impl TemporaryBufferAddText {
    /// The bytes that are waiting in the buffer.
    pub open spec fn bytes(&self) -> Seq<u8> {
        encode_utf8(self.buffer@)
    }

    /// An empty buffer that stands at `cursor_position`.
    pub fn new(max_length: usize, cursor_position: usize) -> (buffer: Self)
        ensures
            buffer.buffer@ == Seq::<char>::empty(),
            buffer.max_length == max_length,
            buffer.position == cursor_position,
    {
        Self { buffer: String::new(), max_length, position: cursor_position }
    }

    /// Appends `c`, unless the buffer already holds `max_length` bytes or
    /// more. Says `MustPersist` when the buffer holds exactly `max_length`
    /// bytes afterwards.
    pub fn add_char(&mut self, c: char) -> (result: Result<EnumAddResult, ()>)
        ensures
            final(self).max_length == old(self).max_length,
            final(self).position == old(self).position,
            result is Err <==> old(self).bytes().len() >= old(self).max_length,
            result is Err ==> final(self).buffer@ == old(self).buffer@,
            result is Ok ==> final(self).buffer@ == old(self).buffer@.push(c),
            result is Ok ==> result == Ok::<EnumAddResult, ()>(
                if final(self).bytes().len() == old(self).max_length {
                    EnumAddResult::MustPersist
                } else {
                    EnumAddResult::Added
                },
            ),
    {
        if self.buffer.as_str().as_bytes().len() >= self.max_length {
            return Err(());
        }
        string_push(&mut self.buffer, c);
        if self.buffer.as_str().as_bytes().len() == self.max_length {
            Ok(EnumAddResult::MustPersist)
        } else {
            Ok(EnumAddResult::Added)
        }
    }

    /// Moves the empty buffer to `new_position`. A buffer that holds
    /// characters stays where it is: it is written out first.
    pub fn update_position(&mut self, new_position: usize)
        requires
            old(self).buffer@.len() == 0,
        ensures
            final(self).position == new_position,
            final(self).buffer@ == old(self).buffer@,
            final(self).max_length == old(self).max_length,
    {
        self.position = new_position;
    }

    /// Removes the character that was typed last, if there is one.
    pub fn delete_char(&mut self)
        ensures
            final(self).buffer@ == if old(self).buffer@.len() > 0 {
                old(self).buffer@.drop_last()
            } else {
                old(self).buffer@
            },
            final(self).position == old(self).position,
            final(self).max_length == old(self).max_length,
    {
        let _ = string_pop(&mut self.buffer);
    }

    /// Empties the buffer and moves it to `cursor_position`.
    pub fn clear(&mut self, cursor_position: usize)
        ensures
            final(self).buffer@ == Seq::<char>::empty(),
            final(self).position == cursor_position,
            final(self).max_length == old(self).max_length,
    {
        self.buffer = String::new();
        self.position = cursor_position;
    }

    /// Whether `cursor_position` lies on one of the buffered bytes.
    pub fn is_cursor_on_buffer(&self, cursor_position: usize) -> (on_buffer: bool)
        ensures
            on_buffer <==> self.position <= cursor_position < self.position + self.bytes().len(),
    {
        let length = self.buffer.as_str().as_bytes().len();
        cursor_position >= self.position && cursor_position - self.position < length
    }
}

} // verus!
