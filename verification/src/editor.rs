//! The editor: one piece table, the two buffers in front of it, the cursor
//! and the line map.

use crate::editor_state::{
    cursor_for, lemma_initial_is_coherent, lemma_offset_in_row, lemma_settle_makes_coherent,
    EditorState,
};
use crate::enum_add_result::EnumAddResult;
use crate::piece_table::PieceTable;
use crate::position::Position;
use crate::temporary_buffer_add::TemporaryBufferAddText;
use crate::temporary_buffer_deletion::{EditKey, TemporaryBufferDeleteText};
use crate::text::{
    insert_bytes, lemma_delete_next_to, lemma_insert_behind, lemma_row_and_column, line_lengths,
    line_lengths_of, lines, offset_in_lines, offset_of, remove_bytes, row_and_column, saturate,
    split_lines, text_after_delete, text_after_insert, with_insertion, LINE_FEED,
};
use crate::text_trait::TextTrait;
use crate::utf8::{lemma_encode_utf8_push, string_from_bytes, utf8_lossy};
use vstd::prelude::*;
use vstd::string::*;
use vstd::utf8::*;

verus! {

/// A text under edit.
pub struct Editor {
    pub content: PieceTable,
    pub text_position: usize,
    pub temporary_add_buffer: TemporaryBufferAddText,
    pub temporary_delete_buffer: TemporaryBufferDeleteText,
    pub cursor: Position,
    pub right_most_column: u16,
    pub lines_map: Vec<usize>,
}

impl View for Editor {
    type V = EditorState;

    open spec fn view(&self) -> EditorState {
        EditorState {
            parts: self.content.parts(),
            text_position: self.text_position,
            add_text: self.temporary_add_buffer.buffer@,
            add_position: self.temporary_add_buffer.position,
            add_max_length: self.temporary_add_buffer.max_length,
            delete_range: self.temporary_delete_buffer.range(),
            delete_max_length: self.temporary_delete_buffer.max_length(),
            cursor: self.cursor,
            right_most_column: self.right_most_column,
            lines_map: self.lines_map@,
        }
    }
}

/// The place on the screen of the offset `position`, by a table of line
/// lengths.
fn cursor_in_lines(lengths: &Vec<usize>, position: usize) -> (cursor: Position)
    ensures
        cursor == cursor_for(lengths@, position as int),
{
    let (row, column) = row_and_column(lengths, position);
    Position {
        x: if column > u16::MAX as usize {
            u16::MAX
        } else {
            column as u16
        },
        y: if row > u16::MAX as usize {
            u16::MAX
        } else {
            row as u16
        },
    }
}

impl Editor {
    /// An editor on `text`, with buffers of `temporary_buffer_max_length`
    /// bytes and the cursor at the end of the text.
    pub fn new(text: String, temporary_buffer_max_length: usize) -> (editor: Self)
        ensures
            editor@ == EditorState::initial(encode_utf8(text@), temporary_buffer_max_length),
            editor@.coherent(),
            editor@.effective_text() == encode_utf8(text@),
    {
        let content = PieceTable::new(text.as_str());
        let text_position = content.total_length();
        let bytes = content.to_bytes();
        let lines_map = line_lengths_of(&bytes);
        let cursor = cursor_in_lines(&lines_map, text_position);
        proof {
            lemma_initial_is_coherent(encode_utf8(text@), temporary_buffer_max_length);
        }
        Self {
            content,
            temporary_add_buffer: TemporaryBufferAddText::new(
                temporary_buffer_max_length,
                text_position,
            ),
            temporary_delete_buffer: TemporaryBufferDeleteText::new(temporary_buffer_max_length),
            text_position,
            cursor,
            lines_map,
            right_most_column: 0,
        }
    }

    /// Types `c` at the cursor. In a coherent editor a character that the
    /// add buffer takes lands in the text as the user sees it, behind the
    /// characters that are waiting or at the cursor where none is.
    #[verifier::rlimit(50)]
    pub fn add_char(&mut self, c: char)
        ensures
            final(self)@ == old(self)@.add_char(c),
            old(self)@.coherent() ==> final(self)@.coherent(),
            old(self)@.coherent() && old(self)@.takes_char() ==> final(self)@.effective_text()
                == with_insertion(
                old(self)@.effective_text(),
                old(self)@.insertion_point(),
                encode_scalar(c as u32),
            ),
    {
        if !self.temporary_delete_buffer.is_empty() {
            self.persist_delete_buffer();
        }
        if self.temporary_add_buffer.buffer.as_str().is_empty() {
            self.temporary_add_buffer.update_position(self.text_position);
        }
        let ghost anchored = self@;
        let add_result = self.temporary_add_buffer.add_char(c);
        proof {
            lemma_encode_utf8_push(anchored.add_text, c);
        }
        match add_result {
            Ok(answer) => {
                self.text_position = self.text_position.saturating_add(1);
                let ghost typed = self@;
                match answer {
                    EnumAddResult::MustPersist => {
                        self.persist_add_buffer(true);
                    },
                    _ => {},
                }
                proof {
                    if old(self)@.coherent() {
                        lemma_insert_behind(
                            anchored.document(),
                            anchored.add_position as int,
                            anchored.add_bytes(),
                            encode_scalar(c as u32),
                        );
                        assert(anchored.add_text.len() == 0 ==> anchored.add_bytes()
                            =~= Seq::<u8>::empty());
                        assert(Seq::<u8>::empty() + encode_scalar(c as u32) =~= encode_scalar(
                            c as u32,
                        ));
                    }
                }
                self.settle();
                self.set_right_most_column(self.cursor.x);
            },
            Err(_) => {
                self.settle();
            },
        }
    }

    /// The text as the user sees it, as bytes.
    pub fn get_bytes(&self) -> (bytes: Vec<u8>)
        ensures
            bytes@ == self@.effective_text(),
            self@.parts.well_formed(),
    {
        let content = self.content.to_bytes();
        let added = self.temporary_add_buffer.buffer.as_str().as_bytes();
        if added.len() > 0 {
            let position = self.temporary_add_buffer.position;
            if position <= content.len() {
                insert_bytes(&content, position, added)
            } else {
                content
            }
        } else {
            match self.temporary_delete_buffer.get_deletion_range() {
                Some((start, end)) => {
                    if end <= content.len() {
                        remove_bytes(&content, start, end)
                    } else {
                        content
                    }
                },
                None => content,
            }
        }
    }

    /// The text as the user sees it.
    pub fn get_text(&self) -> (text: String)
        ensures
            text@ == utf8_lossy(self@.effective_text()),
            valid_utf8(self@.effective_text()) ==> text@ == decode_utf8(self@.effective_text()),
    {
        let bytes = self.get_bytes();
        string_from_bytes(&bytes)
    }

    /// The lines of the text as the user sees it.
    pub fn get_text_lines(&self) -> (text_lines: Vec<String>)
        ensures
            text_lines@.len() == lines(self@.effective_text()).len(),
            forall|i: int|
                0 <= i < text_lines@.len() ==> (#[trigger] text_lines@[i])@ == utf8_lossy(
                    lines(self@.effective_text())[i],
                ),
    {
        let bytes = self.get_bytes();
        let byte_lines = split_lines(&bytes);
        let mut text_lines: Vec<String> = Vec::new();
        let mut index: usize = 0;
        while index < byte_lines.len()
            invariant
                index <= byte_lines@.len(),
                text_lines@.len() == index,
                forall|i: int|
                    0 <= i < index ==> (#[trigger] text_lines@[i])@ == utf8_lossy(
                        byte_lines@[i]@,
                    ),
            decreases byte_lines@.len() - index,
        {
            text_lines.push(string_from_bytes(&byte_lines[index]));
            index += 1;
        }
        text_lines
    }

    /// Deletes one character with `key`. In a coherent editor whose cursor
    /// does not stand on waiting characters, Backspace removes the byte
    /// before the cursor and Delete the byte at it.
    pub fn delete_char(&mut self, key: EditKey)
        ensures
            final(self)@ == old(self)@.delete_char(key),
            old(self)@.coherent() ==> final(self)@.coherent(),
            old(self)@.coherent() && !old(self)@.nothing_to_delete(key)
                && !old(self)@.cursor_on_add_buffer() ==> final(self)@.effective_text()
                == old(self)@.text_after_key(key),
    {
        let shown_length = self.get_bytes().len();
        let nothing_to_delete = match key {
            EditKey::Backspace => self.text_position == 0,
            EditKey::Delete => self.text_position == 0 || self.text_position >= shown_length,
            EditKey::Other => true,
        };
        if nothing_to_delete {
            return ;
        }
        if !self.temporary_add_buffer.buffer.as_str().is_empty()
            && self.temporary_add_buffer.is_cursor_on_buffer(self.text_position) {
            self.temporary_add_buffer.delete_char();
        } else {
            self.delete_through_buffer(key);
        }
        match key {
            EditKey::Backspace => {
                self.text_position -= 1;
                self.settle();
                self.set_right_most_column(self.cursor.x);
            },
            _ => {
                self.settle();
            },
        }
    }

    /// Hands the deletion of one character to the delete buffer.
    fn delete_through_buffer(&mut self, key: EditKey)
        ensures
            final(self)@ == old(self)@.delete_through_buffer(key),
            final(self).text_position == old(self).text_position,
            old(self)@.coherent() && !old(self)@.nothing_to_delete(key) ==> {
                &&& final(self)@.pending_in_place()
                &&& final(self)@.delete_range matches Some(range) ==> range.0 == if key
                    == EditKey::Backspace {
                    old(self).text_position - 1
                } else {
                    old(self).text_position as int
                }
                &&& final(self)@.effective_text() == old(self)@.text_after_key(key)
            },
    {
        self.persist_add_buffer(true);
        let ghost flushed = self@;
        proof {
            if old(self)@.coherent() {
                match flushed.delete_range {
                    Some((start, end)) => {
                        lemma_delete_next_to(flushed.document(), start as int, end as int);
                    },
                    None => {},
                }
            }
        }
        let answer = self.temporary_delete_buffer.add_char(self.text_position, key);
        let ghost ranged = self@;
        proof {
            if old(self)@.coherent() && !old(self)@.nothing_to_delete(key) {
                crate::edits::lemma_well_formed_addressable(flushed.parts);
                assert(flushed.effective_text() == old(self)@.effective_text());
                assert(flushed.text_position <= flushed.effective_text().len());
                assert(ranged.pending_in_place());
                assert(ranged.effective_text() == old(self)@.text_after_key(key));
            }
        }
        match answer {
            Ok(EnumAddResult::MustPersist) => {
                self.persist_delete_buffer();
            },
            _ => {},
        }
    }

    /// Deletes a word with `key`.
    pub fn delete_word(&mut self, key: EditKey)
        ensures
            final(self)@ == old(self)@.delete_word(key),
            old(self)@.coherent() ==> final(self)@.coherent(),
    {
        self.persist_add_buffer(true);
        let text = self.get_text();
        let _ = self.temporary_delete_buffer.delete_word(text.as_str(), self.text_position, key);
        let total = self.content.total_length();
        match self.temporary_delete_buffer.get_deletion_range() {
            Some((start, end)) => {
                if end > total {
                    self.temporary_delete_buffer.clear();
                } else {
                    match key {
                        EditKey::Backspace => {
                            self.text_position = start;
                            self.temporary_add_buffer.update_position(start);
                            self.settle();
                            self.set_right_most_column(self.cursor.x);
                            return ;
                        },
                        _ => {},
                    }
                }
            },
            None => {},
        }
        self.settle();
    }

    /// Steps the cursor one byte to the left. In a coherent editor whose
    /// cursor is not at the start of the text, the text stays as the user
    /// sees it and nothing is left waiting.
    pub fn move_cursor_left(&mut self)
        ensures
            final(self)@ == old(self)@.move_cursor_left(),
            old(self)@.coherent() ==> final(self)@.coherent(),
            old(self)@.coherent() && old(self).text_position > 0 ==> {
                &&& final(self).text_position == old(self).text_position - 1
                &&& final(self)@.effective_text() == old(self)@.effective_text()
                &&& final(self)@.document() == old(self)@.effective_text()
                &&& final(self)@.add_text.len() == 0
                &&& final(self)@.add_position == final(self).text_position
                &&& final(self)@.delete_range is None
            },
    {
        if self.text_position > 0 {
            self.text_position -= 1;
            self.do_after_move_cursor();
            self.set_right_most_column(self.cursor.x);
        }
    }

    /// Steps the cursor one byte to the right. In a coherent editor whose
    /// cursor is not at the end of the text as the user sees it, the text
    /// stays as the user sees it and nothing is left waiting.
    pub fn move_cursor_right(&mut self)
        ensures
            final(self)@ == old(self)@.move_cursor_right(),
            old(self)@.coherent() ==> final(self)@.coherent(),
            old(self)@.coherent() && old(self).text_position < old(self)@.effective_text().len()
                ==> {
                &&& final(self).text_position == old(self).text_position + 1
                &&& final(self)@.effective_text() == old(self)@.effective_text()
                &&& final(self)@.document() == old(self)@.effective_text()
                &&& final(self)@.add_text.len() == 0
                &&& final(self)@.add_position == final(self).text_position
                &&& final(self)@.delete_range is None
            },
    {
        let shown_length = self.get_bytes().len();
        if self.text_position < shown_length {
            self.text_position += 1;
            self.do_after_move_cursor();
            self.set_right_most_column(self.cursor.x);
        }
    }

    /// Steps the cursor one row up. In a coherent editor the text stays as
    /// the user sees it and nothing is left waiting.
    pub fn move_cursor_up(&mut self)
        ensures
            final(self)@ == old(self)@.move_cursor_up(),
            old(self)@.coherent() ==> final(self)@.coherent(),
            old(self)@.coherent() ==> {
                &&& final(self)@.effective_text() == old(self)@.effective_text()
                &&& final(self)@.add_text.len() == 0
                &&& final(self)@.delete_range is None
                &&& final(self)@.lines_map == old(self)@.lines_map
                &&& old(self)@.row() > 0 ==> final(self)@.row() == old(self)@.row() - 1
                    && final(self)@.column() == old(self)@.column_in_row(old(self)@.row() - 1)
                &&& old(self)@.row() == 0 ==> final(self).text_position == old(self).text_position
            },
    {
        let (row, _) = row_and_column(&self.lines_map, self.text_position);
        proof {
            if old(self)@.coherent() {
                lemma_row_and_column(old(self)@.effective_text(), self.text_position as int);
            }
        }
        if 0 < row && row < self.lines_map.len() {
            proof {
                if old(self)@.coherent() {
                    lemma_offset_in_row(old(self)@, row - 1);
                }
            }
            self.handle_change_of_cursor_y_position(row - 1);
        }
        self.do_after_move_cursor();
    }

    /// Steps the cursor one row down. In a coherent editor the text stays
    /// as the user sees it and nothing is left waiting.
    pub fn move_cursor_down(&mut self)
        ensures
            final(self)@ == old(self)@.move_cursor_down(),
            old(self)@.coherent() ==> final(self)@.coherent(),
            old(self)@.coherent() ==> {
                &&& final(self)@.effective_text() == old(self)@.effective_text()
                &&& final(self)@.add_text.len() == 0
                &&& final(self)@.delete_range is None
                &&& final(self)@.lines_map == old(self)@.lines_map
                &&& old(self)@.row() + 1 < old(self)@.lines_map.len() ==> final(self)@.row()
                    == old(self)@.row() + 1
                &&& old(self)@.row() + 1 < old(self)@.lines_map.len() ==> final(self)@.column()
                    == old(self)@.column_in_row(old(self)@.row() + 1)
                &&& old(self)@.row() + 1 == old(self)@.lines_map.len()
                    ==> final(self).text_position == old(self).text_position
            },
    {
        let (row, _) = row_and_column(&self.lines_map, self.text_position);
        proof {
            if old(self)@.coherent() {
                lemma_row_and_column(old(self)@.effective_text(), self.text_position as int);
            }
        }
        if row < self.lines_map.len() && row + 1 < self.lines_map.len() {
            proof {
                if old(self)@.coherent() {
                    lemma_offset_in_row(old(self)@, row + 1);
                }
            }
            self.handle_change_of_cursor_y_position(row + 1);
        }
        self.do_after_move_cursor();
    }

    /// Puts the cursor's offset into row `row`: at the column that the
    /// cursor returns to, or at the end of the row where the row is shorter.
    fn handle_change_of_cursor_y_position(&mut self, row: usize)
        requires
            row < old(self).lines_map@.len(),
        ensures
            final(self)@ == (EditorState {
                text_position: old(self)@.offset_in_row(row as int),
                ..old(self)@
            }),
    {
        let length = self.lines_map[row];
        let column = if length >= self.right_most_column as usize {
            self.right_most_column as usize
        } else {
            length
        };
        self.update_text_position_after_cursor_move(row, column);
    }

    /// Puts the cursor's offset where `row` and `column` say, by the line
    /// map.
    fn update_text_position_after_cursor_move(&mut self, row: usize, column: usize)
        ensures
            final(self)@ == (EditorState {
                text_position: saturate(
                    offset_of(old(self)@.lines_map, row as int, column as int),
                ),
                ..old(self)@
            }),
    {
        self.text_position = offset_in_lines(&self.lines_map, row, column);
    }

    /// Breaks the line at the cursor. In a coherent editor the line feed
    /// goes into the text as the user sees it at the cursor.
    pub fn add_new_line(&mut self)
        ensures
            final(self)@ == old(self)@.add_new_line(),
            old(self)@.coherent() ==> final(self)@.coherent(),
            old(self)@.coherent() ==> final(self)@.effective_text() == with_insertion(
                old(self)@.effective_text(),
                old(self).text_position as int,
                seq![LINE_FEED],
            ),
    {
        self.persist_changes();
        proof {
            reveal_strlit("\n");
            assert("\n"@ =~= seq!['\n']);
            is_ascii_chars_encode_utf8("\n"@);
            assert(encode_utf8("\n"@) =~= seq![LINE_FEED]);
        }
        let _ = self.content.add_text("\n", self.text_position);
        self.text_position = self.text_position.saturating_add(1);
        self.settle();
        self.temporary_add_buffer.update_position(self.text_position);
        self.set_right_most_column(0);
    }

    /// Writes the waiting characters into the piece table, as one
    /// insertion: always when `force_save` is set, else only once they take
    /// more than half of the buffer. Where nothing is due, the table and
    /// the buffer stay as they are.
    pub fn persist_add_buffer(&mut self, force_save: bool)
        ensures
            final(self)@ == old(self)@.persist_add_buffer(force_save),
            final(self)@.parts.well_formed(),
            final(self)@.document() == if old(self)@.add_buffer_is_due(force_save) {
                text_after_insert(
                    old(self)@.document(),
                    old(self)@.add_position,
                    old(self)@.add_bytes(),
                )
            } else {
                old(self)@.document()
            },
            old(self)@.pending_in_place() ==> final(self)@.pending_in_place(),
            old(self)@.pending_in_place() ==> final(self)@.effective_text()
                == old(self)@.effective_text(),
            old(self)@.pending_in_order() ==> final(self)@.pending_in_order(),
    {
        proof {
            use_type_invariant(&self.content);
        }
        if self.temporary_add_buffer.buffer.as_str().is_empty() {
            return ;
        }
        let length = self.temporary_add_buffer.buffer.as_str().as_bytes().len();
        if force_save || length > self.temporary_add_buffer.max_length / 2 {
            let _ = self.content.add_text(
                self.temporary_add_buffer.buffer.as_str(),
                self.temporary_add_buffer.position,
            );
            self.temporary_add_buffer.clear(self.text_position);
        }
    }

    /// Deletes the waiting range from the piece table, as one deletion.
    fn persist_delete_buffer(&mut self)
        ensures
            final(self)@ == old(self)@.persist_delete_buffer(),
            final(self)@.parts.well_formed(),
            final(self)@.document() == text_after_delete(
                old(self)@.document(),
                old(self)@.delete_range,
            ),
            old(self)@.pending_in_place() ==> final(self)@.pending_in_place(),
            old(self)@.pending_in_place() ==> final(self)@.effective_text()
                == old(self)@.effective_text(),
            old(self)@.pending_in_order() ==> final(self)@.pending_in_order(),
    {
        proof {
            use_type_invariant(&self.content);
        }
        match self.temporary_delete_buffer.get_deletion_range() {
            Some((start, end)) => {
                let _ = self.content.delete_text(start, end);
                self.temporary_delete_buffer.clear();
            },
            None => {},
        }
    }

    /// Writes out both buffers.
    fn persist_changes(&mut self)
        ensures
            final(self)@ == old(self)@.persist_changes(),
            final(self)@.parts.well_formed(),
            final(self)@.add_text.len() == 0,
            final(self)@.delete_range is None,
            old(self)@.pending_in_place() ==> final(self)@.document()
                == old(self)@.effective_text(),
    {
        self.persist_add_buffer(true);
        self.persist_delete_buffer();
    }

    /// Brings the cursor's offset, the line map and the cursor on the
    /// screen in line with the text as the user sees it.
    fn settle(&mut self)
        ensures
            final(self)@ == old(self)@.settle(),
            old(self)@.pending_in_order() ==> final(self)@.coherent(),
            final(self)@.effective_text() == old(self)@.effective_text(),
            old(self).text_position <= old(self)@.effective_text().len()
                ==> final(self).text_position == old(self).text_position,
    {
        let length = self.update_lines_map();
        if self.text_position > length {
            self.text_position = length;
        }
        self.cursor = cursor_in_lines(&self.lines_map, self.text_position);
        proof {
            if old(self)@.pending_in_order() {
                lemma_settle_makes_coherent(old(self)@);
            }
        }
    }

    /// Reads the line map off the text as the user sees it, and gives the
    /// length of that text.
    fn update_lines_map(&mut self) -> (length: usize)
        ensures
            final(self)@ == (EditorState {
                lines_map: line_lengths(old(self)@.effective_text()),
                ..old(self)@
            }),
            length == old(self)@.effective_text().len(),
            final(self)@.parts.well_formed(),
    {
        let bytes = self.get_bytes();
        self.lines_map = line_lengths_of(&bytes);
        bytes.len()
    }

    /// Sets the column that the cursor returns to.
    fn set_right_most_column(&mut self, column: u16)
        ensures
            final(self)@ == (EditorState { right_most_column: column, ..old(self)@ }),
    {
        self.right_most_column = column;
    }

    /// What follows every move of the cursor.
    fn do_after_move_cursor(&mut self)
        ensures
            final(self)@ == old(self)@.do_after_move_cursor(),
            final(self)@.add_text.len() == 0,
            final(self)@.delete_range is None,
            final(self)@.add_position == final(self).text_position,
            old(self)@.pending_in_place() ==> {
                &&& final(self)@.coherent()
                &&& final(self)@.effective_text() == old(self)@.effective_text()
                &&& final(self)@.document() == old(self)@.effective_text()
                &&& old(self).text_position <= old(self)@.effective_text().len()
                    ==> final(self).text_position == old(self).text_position
            },
    {
        self.persist_changes();
        self.settle();
        self.temporary_add_buffer.update_position(self.text_position);
    }
}

} // verus!
