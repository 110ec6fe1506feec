//! A text that grows and shrinks at its end, with a cursor.

use crate::utf8::{string_pop, string_push};
use vstd::prelude::*;

verus! {

/// A text and the position of the cursor in it.
pub struct Content {
    pub content: String,
    pub cursor_position: usize,
}

impl Content {
    /// The empty text, with the cursor at 0.
    pub fn new() -> (content: Self)
        ensures
            content.content@ == Seq::<char>::empty(),
            content.cursor_position == 0,
    {
        Self { content: String::new(), cursor_position: 0 }
    }

    /// Appends `c` and steps the cursor one to the right.
    pub fn add_char(&mut self, c: char)
        ensures
            final(self).content@ == old(self).content@.push(c),
            final(self).cursor_position == old(self).cursor_position.saturating_add(1),
    {
        string_push(&mut self.content, c);
        self.cursor_position = self.cursor_position.saturating_add(1);
    }

    /// Takes the last character back and steps the cursor one to the left,
    /// unless the cursor is at 0.
    pub fn remove_char(&mut self)
        ensures
            final(self).cursor_position == old(self).cursor_position.saturating_sub(1),
            final(self).content@ == if old(self).cursor_position > 0 && old(self).content@.len()
                > 0 {
                old(self).content@.drop_last()
            } else {
                old(self).content@
            },
    {
        if self.cursor_position > 0 {
            let _ = string_pop(&mut self.content);
            self.cursor_position -= 1;
        }
    }

    /// Steps the cursor one to the left, unless it is at 0.
    pub fn move_cursor_left(&mut self)
        ensures
            final(self).content@ == old(self).content@,
            final(self).cursor_position == if old(self).cursor_position > 0 {
                (old(self).cursor_position - 1) as usize
            } else {
                0usize
            },
    {
        if self.cursor_position > 0 {
            self.cursor_position -= 1;
        }
    }

    /// Leaves the cursor where it is.
    pub fn move_cursor_right(&mut self)
        ensures
            final(self).content@ == old(self).content@,
            final(self).cursor_position == old(self).cursor_position,
    {
    }

    /// Steps the cursor one to the left, unless it is at 0.
    pub fn move_cursor_up(&mut self)
        ensures
            final(self).content@ == old(self).content@,
            final(self).cursor_position == if old(self).cursor_position > 0 {
                (old(self).cursor_position - 1) as usize
            } else {
                0usize
            },
    {
        if self.cursor_position > 0 {
            self.cursor_position -= 1;
        }
    }

    /// Leaves the cursor where it is.
    pub fn move_cursor_down(&mut self)
        ensures
            final(self).content@ == old(self).content@,
            final(self).cursor_position == old(self).cursor_position,
    {
    }

    /// Appends a line feed and puts the cursor at 0.
    pub fn add_new_line(&mut self)
        ensures
            final(self).content@ == old(self).content@.push('\n'),
            final(self).cursor_position == 0,
    {
        string_push(&mut self.content, '\n');
        self.cursor_position = 0;
    }
}

} // verus!
