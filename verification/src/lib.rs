//! The text buffer engine of a terminal editor: a piece table, the two
//! buffers that batch keystrokes before they reach it, and the coordinator
//! that owns the cursor and the line map.

pub mod content;
pub mod editor;
pub mod editor_state;
pub mod edits;
pub mod enum_add_result;
pub mod piece_lemmas;
pub mod piece_table;
pub mod pieces;
pub mod position;
pub mod temporary_buffer;
pub mod temporary_buffer_add;
pub mod temporary_buffer_deletion;
pub mod text;
pub mod text_trait;
pub mod utf8;
pub mod words;
