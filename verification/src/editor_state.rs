//! The editor as a state machine: its state as plain values, and each of its
//! operations as a function from state to state.

use crate::edits::{Edit, TableParts};
use crate::enum_add_result::EnumAddResult;
use crate::position::Position;
use crate::temporary_buffer_deletion::{answer_to_key, range_after_key, range_after_word, EditKey};
use crate::text::{
    column_of, lemma_row_and_column, line_lengths, offset_of, row_of, saturate,
    text_after_delete, text_after_insert, without_range, LINE_FEED,
};
use crate::utf8::utf8_lossy;
use crate::words::whitespace_offsets;
use vstd::prelude::*;
use vstd::utf8::*;

verus! {

/// Everything the editor holds.
pub struct EditorState {
    /// The buffers and the pieces of the piece table.
    pub parts: TableParts,
    /// The offset of the cursor in the text as the user sees it.
    pub text_position: usize,
    /// The characters that are waiting to be inserted.
    pub add_text: Seq<char>,
    /// Where they are to be inserted.
    pub add_position: usize,
    /// The number of bytes at which they have to be inserted.
    pub add_max_length: usize,
    /// The range that is waiting to be deleted.
    pub delete_range: Option<(usize, usize)>,
    /// The number of bytes at which it has to be deleted.
    pub delete_max_length: usize,
    /// The cursor on the screen.
    pub cursor: Position,
    /// The column that the cursor returns to when it moves to another row.
    pub right_most_column: u16,
    /// The length of each line.
    pub lines_map: Seq<usize>,
}

/// `n` as a coordinate of the screen: the largest one where `n` is larger.
pub open spec fn screen_coordinate(n: int) -> u16 {
    if n > u16::MAX {
        u16::MAX
    } else {
        n as u16
    }
}

/// The place on the screen of the offset `position`, by a table of line
/// lengths.
pub open spec fn cursor_for(lengths: Seq<usize>, position: int) -> Position {
    Position {
        x: screen_coordinate(column_of(lengths, position)),
        y: screen_coordinate(row_of(lengths, position)),
    }
}

/// The parts of the table after an attempt to insert `inserted` at
/// `position`: a position beyond the end of the text leaves them as they
/// are.
pub open spec fn parts_after_insert(
    parts: TableParts,
    position: usize,
    inserted: Seq<u8>,
) -> TableParts {
    if position <= parts.text().len() {
        parts.after(Edit::Insert { position, text: inserted })
    } else {
        parts
    }
}

/// The parts of the table after an attempt to delete `range`: a range that
/// the text does not hold leaves them as they are.
pub open spec fn parts_after_delete(
    parts: TableParts,
    range: Option<(usize, usize)>,
) -> TableParts {
    match range {
        Some((start, end)) => if start <= end <= parts.text().len() {
            parts.after(Edit::Delete { start, end })
        } else {
            parts
        },
        None => parts,
    }
}

impl EditorState {
    /// The text in the piece table.
    pub open spec fn document(self) -> Seq<u8> {
        self.parts.text()
    }

    /// The bytes that are waiting to be inserted.
    pub open spec fn add_bytes(self) -> Seq<u8> {
        encode_utf8(self.add_text)
    }

    /// The text as the user sees it: the document with what is waiting
    /// applied to it. Waiting characters go before a waiting range.
    pub open spec fn effective_text(self) -> Seq<u8> {
        if self.add_text.len() > 0 {
            text_after_insert(self.document(), self.add_position, self.add_bytes())
        } else {
            text_after_delete(self.document(), self.delete_range)
        }
    }

    /// Where the next typed character goes: behind the characters that are
    /// waiting, or at the cursor where none is.
    pub open spec fn insertion_point(self) -> int {
        if self.add_text.len() > 0 {
            self.add_position + self.add_bytes().len()
        } else {
            self.text_position as int
        }
    }

    /// What is waiting is in place: at most one of the two buffers holds
    /// something; waiting characters are to go to a place in the document;
    /// a waiting range is not empty and lies in the document.
    pub open spec fn pending_in_place(self) -> bool {
        &&& self.add_text.len() > 0 ==> self.delete_range is None && self.add_position
            <= self.document().len()
        &&& self.delete_range matches Some(range) ==> range.0 < range.1 <= self.document().len()
    }

    /// What is waiting is in order: it is in place, and a waiting range
    /// begins at the cursor.
    pub open spec fn pending_in_order(self) -> bool {
        &&& self.pending_in_place()
        &&& self.delete_range matches Some(range) ==> self.text_position == range.0
    }

    /// What holds of the editor between any two operations. What is
    /// waiting is in order, the table is well formed, the cursor's offset
    /// lies in the text as the user sees it, the line map is that of this
    /// text, and the cursor on the screen stands where the offset is, as
    /// far as the screen can count.
    pub open spec fn coherent(self) -> bool {
        &&& self.pending_in_order()
        &&& self.parts.well_formed()
        &&& self.effective_text().len() <= usize::MAX
        &&& self.text_position <= self.effective_text().len()
        &&& self.lines_map == line_lengths(self.effective_text())
        &&& self.cursor == cursor_for(self.lines_map, self.text_position as int)
        &&& self.cursor_can_show() ==> self.cursor_shows_position()
    }

    /// The screen can count the row and the column of the cursor's offset.
    pub open spec fn cursor_can_show(self) -> bool {
        row_of(self.lines_map, self.text_position as int) <= u16::MAX && column_of(
            self.lines_map,
            self.text_position as int,
        ) <= u16::MAX
    }

    /// The cursor stands in a row of the line map and in a column of that
    /// row, and row and column lead back to the cursor's offset.
    pub open spec fn cursor_shows_position(self) -> bool {
        &&& self.cursor.y < self.lines_map.len()
        &&& self.cursor.x <= self.lines_map[self.cursor.y as int]
        &&& offset_of(self.lines_map, self.cursor.y as int, self.cursor.x as int)
            == self.text_position
    }

    /// The editor on a text of `text` bytes, with buffers of `max_length`
    /// bytes: the cursor stands at the end of the text.
    pub open spec fn initial(text: Seq<u8>, max_length: usize) -> EditorState {
        EditorState {
            parts: TableParts::initial(text),
            text_position: text.len() as usize,
            add_text: Seq::empty(),
            add_position: text.len() as usize,
            add_max_length: max_length,
            delete_range: None,
            delete_max_length: max_length,
            cursor: cursor_for(line_lengths(text), text.len() as int),
            right_most_column: 0,
            lines_map: line_lengths(text),
        }
    }

    /// Whether the waiting characters are written out now: always when it
    /// is forced, else only once they take more than half of the buffer.
    pub open spec fn add_buffer_is_due(self, force_save: bool) -> bool {
        self.add_text.len() > 0 && (force_save || self.add_bytes().len() > self.add_max_length
            / 2)
    }

    /// Writes the waiting characters into the table if they are due, as one
    /// insertion, and moves the empty buffer to the cursor. Nothing changes
    /// where they are not due.
    pub open spec fn persist_add_buffer(self, force_save: bool) -> EditorState {
        if self.add_buffer_is_due(force_save) {
            EditorState {
                parts: parts_after_insert(self.parts, self.add_position, self.add_bytes()),
                add_text: Seq::empty(),
                add_position: self.text_position,
                ..self
            }
        } else {
            self
        }
    }

    /// Deletes the waiting range from the table, as one deletion.
    pub open spec fn persist_delete_buffer(self) -> EditorState {
        EditorState {
            parts: parts_after_delete(self.parts, self.delete_range),
            delete_range: None,
            ..self
        }
    }

    /// Writes out both buffers, the characters first.
    pub open spec fn persist_changes(self) -> EditorState {
        self.persist_add_buffer(true).persist_delete_buffer()
    }

    /// Brings what is derived in line with the text as the user sees it:
    /// the cursor's offset is kept inside the text, the line map is read
    /// off the text, and the cursor on the screen is put where the offset
    /// is.
    pub open spec fn settle(self) -> EditorState {
        let shown = self.effective_text();
        let position = if self.text_position <= shown.len() {
            self.text_position
        } else {
            shown.len() as usize
        };
        EditorState {
            text_position: position,
            lines_map: line_lengths(shown),
            cursor: cursor_for(line_lengths(shown), position as int),
            ..self
        }
    }

    /// Moves the add buffer to the cursor.
    pub open spec fn anchor(self) -> EditorState {
        EditorState { add_position: self.text_position, ..self }
    }

    /// Makes the column of the cursor the one it returns to.
    pub open spec fn keep_column(self) -> EditorState {
        EditorState { right_most_column: self.cursor.x, ..self }
    }

    /// What follows every move of the cursor: both buffers are written out,
    /// what is derived is settled, and the empty add buffer moves to the
    /// cursor.
    pub open spec fn do_after_move_cursor(self) -> EditorState {
        self.persist_changes().settle().anchor()
    }

    /// Whether the add buffer takes one more character.
    pub open spec fn takes_char(self) -> bool {
        self.add_bytes().len() < self.add_max_length
    }

    /// Types `c` at the cursor. A waiting range is deleted first. A
    /// character that the buffer does not take is dropped; one that it
    /// takes moves the cursor one to the right, and a buffer that is full
    /// with it is written out.
    pub open spec fn add_char(self, c: char) -> EditorState {
        let flushed = if self.delete_range is Some {
            self.persist_delete_buffer()
        } else {
            self
        };
        let anchored = if flushed.add_text.len() == 0 {
            flushed.anchor()
        } else {
            flushed
        };
        if !anchored.takes_char() {
            anchored.settle()
        } else {
            let typed = EditorState {
                add_text: anchored.add_text.push(c),
                text_position: anchored.text_position.saturating_add(1),
                ..anchored
            };
            let persisted = if typed.add_bytes().len() == typed.add_max_length {
                typed.persist_add_buffer(true)
            } else {
                typed
            };
            persisted.settle().keep_column()
        }
    }

    /// Whether the cursor stands on one of the waiting characters.
    pub open spec fn cursor_on_add_buffer(self) -> bool {
        self.add_text.len() > 0 && self.add_position <= self.text_position < self.add_position
            + self.add_bytes().len()
    }

    /// Whether `key` has nothing to delete: it is no key that deletes, the
    /// cursor is at the start of the text, or the key is Delete and nothing
    /// lies behind the cursor.
    pub open spec fn nothing_to_delete(self, key: EditKey) -> bool {
        ||| key == EditKey::Other
        ||| self.text_position == 0
        ||| key == EditKey::Delete && self.text_position >= self.effective_text().len()
    }

    /// Hands the deletion of one character to the delete buffer: the
    /// waiting characters are written out first, and a range that is full
    /// is written out too.
    pub open spec fn delete_through_buffer(self, key: EditKey) -> EditorState {
        let flushed = self.persist_add_buffer(true);
        let answer = answer_to_key(
            flushed.delete_range,
            flushed.delete_max_length,
            flushed.text_position,
            key,
        );
        let ranged = EditorState {
            delete_range: range_after_key(flushed.delete_range, flushed.text_position, key),
            ..flushed
        };
        if answer == Ok::<EnumAddResult, ()>(EnumAddResult::MustPersist) {
            ranged.persist_delete_buffer()
        } else {
            ranged
        }
    }

    /// What `key` removes from the text as the user sees it: Backspace the
    /// byte before the cursor, Delete the byte at it, another key nothing.
    pub open spec fn text_after_key(self, key: EditKey) -> Seq<u8> {
        match key {
            EditKey::Backspace => without_range(
                self.effective_text(),
                self.text_position - 1,
                self.text_position as int,
            ),
            EditKey::Delete => without_range(
                self.effective_text(),
                self.text_position as int,
                self.text_position + 1,
            ),
            EditKey::Other => self.effective_text(),
        }
    }

    /// Deletes one character with `key`, unless there is nothing to delete.
    /// A cursor on the waiting characters takes the last of them back;
    /// otherwise the deletion goes through the delete buffer. Backspace
    /// then steps the cursor one to the left.
    pub open spec fn delete_char(self, key: EditKey) -> EditorState {
        if self.nothing_to_delete(key) {
            self
        } else {
            let deleted = if self.cursor_on_add_buffer() {
                EditorState { add_text: self.add_text.drop_last(), ..self }
            } else {
                self.delete_through_buffer(key)
            };
            if key == EditKey::Backspace {
                EditorState {
                    text_position: (deleted.text_position - 1) as usize,
                    ..deleted
                }.settle().keep_column()
            } else {
                deleted.settle()
            }
        }
    }

    /// Deletes a word with `key`. The waiting characters are written out
    /// first; the word is looked for in the text as the user sees it, read
    /// as a string. A range that the document does not hold is dropped.
    /// After Backspace the cursor stands at the start of the waiting range.
    pub open spec fn delete_word(self, key: EditKey) -> EditorState {
        let flushed = self.persist_add_buffer(true);
        let shown = utf8_lossy(flushed.effective_text());
        let found = range_after_word(
            flushed.delete_range,
            whitespace_offsets(shown),
            encode_utf8(shown).len() as usize,
            flushed.text_position,
            key,
        );
        let kept = match found {
            Some((start, end)) => if end <= flushed.document().len() {
                found
            } else {
                None
            },
            None => None,
        };
        let ranged = EditorState { delete_range: kept, ..flushed };
        match kept {
            Some((start, _)) => if key == EditKey::Backspace {
                EditorState {
                    text_position: start,
                    add_position: start,
                    ..ranged
                }.settle().keep_column()
            } else {
                ranged.settle()
            },
            None => ranged.settle(),
        }
    }

    /// Steps the cursor one byte to the left, unless it is at the start of
    /// the text.
    pub open spec fn move_cursor_left(self) -> EditorState {
        if self.text_position > 0 {
            EditorState {
                text_position: (self.text_position - 1) as usize,
                ..self
            }.do_after_move_cursor().keep_column()
        } else {
            self
        }
    }

    /// Steps the cursor one byte to the right, unless it is at the end of
    /// the text as the user sees it.
    pub open spec fn move_cursor_right(self) -> EditorState {
        if self.text_position < self.effective_text().len() {
            EditorState {
                text_position: (self.text_position + 1) as usize,
                ..self
            }.do_after_move_cursor().keep_column()
        } else {
            self
        }
    }

    /// The row of the text that the cursor's offset lies in, by the line
    /// map.
    pub open spec fn row(self) -> int {
        row_of(self.lines_map, self.text_position as int)
    }

    /// The column of that row that the cursor's offset lies in.
    pub open spec fn column(self) -> int {
        column_of(self.lines_map, self.text_position as int)
    }

    /// The column that the cursor takes in row `row`: the one it returns
    /// to, or the end of the row where the row is shorter.
    pub open spec fn column_in_row(self, row: int) -> int {
        if self.lines_map[row] >= self.right_most_column {
            self.right_most_column as int
        } else {
            self.lines_map[row] as int
        }
    }

    /// The offset of the column that the cursor takes in row `row`.
    pub open spec fn offset_in_row(self, row: int) -> usize {
        saturate(offset_of(self.lines_map, row, self.column_in_row(row)))
    }

    /// Steps the cursor one row up, unless it is in the first row, and
    /// writes out both buffers.
    pub open spec fn move_cursor_up(self) -> EditorState {
        let row = self.row();
        if 0 < row < self.lines_map.len() {
            EditorState {
                text_position: self.offset_in_row(row - 1),
                ..self
            }.do_after_move_cursor()
        } else {
            self.do_after_move_cursor()
        }
    }

    /// Steps the cursor one row down, unless it is in the last row, and
    /// writes out both buffers.
    pub open spec fn move_cursor_down(self) -> EditorState {
        let row = self.row();
        if row + 1 < self.lines_map.len() {
            EditorState {
                text_position: self.offset_in_row(row + 1),
                ..self
            }.do_after_move_cursor()
        } else {
            self.do_after_move_cursor()
        }
    }

    /// Breaks the line at the cursor: both buffers are written out, a line
    /// feed goes into the table at the cursor, and the cursor stands behind
    /// it, at the start of the next row.
    pub open spec fn add_new_line(self) -> EditorState {
        let persisted = self.persist_changes();
        let broken = EditorState {
            parts: parts_after_insert(persisted.parts, persisted.text_position, seq![LINE_FEED]),
            text_position: persisted.text_position.saturating_add(1),
            ..persisted
        };
        EditorState { right_most_column: 0, ..broken.settle().anchor() }
    }
}

/// Settling makes an editor coherent whose table is well formed and whose
/// waiting edits are in order.
pub proof fn lemma_settle_makes_coherent(state: EditorState)
    requires
        state.pending_in_order(),
        state.parts.well_formed(),
        state.effective_text().len() <= usize::MAX,
    ensures
        state.settle().coherent(),
        state.settle().effective_text() == state.effective_text(),
        state.text_position <= state.effective_text().len() ==> state.settle().text_position
            == state.text_position,
{
    let settled = state.settle();
    lemma_row_and_column(settled.effective_text(), settled.text_position as int);
}

/// An editor that is made is coherent.
pub proof fn lemma_initial_is_coherent(text: Seq<u8>, max_length: usize)
    requires
        text.len() <= usize::MAX,
    ensures
        EditorState::initial(text, max_length).coherent(),
        EditorState::initial(text, max_length).effective_text() == text,
{
    crate::edits::lemma_initial_parts(text);
    lemma_row_and_column(text, text.len() as int);
}

/// In a coherent editor the offset that a move to another row of the text
/// leads to lies in the text, in that row, and in the column that the
/// cursor returns to, or at the end of the row where the row is shorter.
pub proof fn lemma_offset_in_row(state: EditorState, row: int)
    requires
        state.coherent(),
        0 <= row < state.lines_map.len(),
    ensures
        state.offset_in_row(row) <= state.effective_text().len(),
        row_of(state.lines_map, state.offset_in_row(row) as int) == row,
        column_of(state.lines_map, state.offset_in_row(row) as int) == state.column_in_row(row),
{
    crate::text::lemma_lines_length(state.effective_text());
    crate::text::lemma_offset_lies_in_row(state.lines_map, row, state.column_in_row(row));
}

} // verus!
