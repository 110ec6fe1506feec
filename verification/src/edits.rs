//! Edits and what they do: to a plain text, which is the reference, and to
//! the parts of a piece table, which has to agree with it.

use crate::piece_lemmas::{
    lemma_delete_removes, lemma_insert_splices, lemma_insertion_index_unique, lemma_piece_end,
    lemma_piece_offset_monotone, lemma_pieces_text_append, lemma_pieces_text_len,
};
use crate::pieces::{
    insertion_index, is_insertion_index, no_empty_piece, piece_end, piece_in_bounds,
    piece_offset, piece_prefix, piece_suffix, piece_text, pieces_addressable,
    pieces_after_delete, pieces_after_insert, pieces_in_bounds, pieces_length, pieces_text,
    pieces_with_insertion, BufferType, Piece,
};
use crate::text::{with_insertion, without_range};
use vstd::prelude::*;
use vstd::utf8::*;

verus! {

/// One edit of a text.
pub enum Edit {
    /// Places `text` before the byte at `position`.
    Insert { position: usize, text: Seq<u8> },
    /// Removes the bytes from `start` up to, not including, `end`.
    Delete { start: usize, end: usize },
}

/// The edit can be made on `text`: an insertion lies in the text or at its
/// end and leaves it no longer than a `usize` counts; a deletion covers a
/// range that the text holds.
pub open spec fn edit_applies(text: Seq<u8>, edit: Edit) -> bool {
    match edit {
        Edit::Insert { position, text: inserted } => position <= text.len() && text.len()
            + inserted.len() <= usize::MAX,
        Edit::Delete { start, end } => start <= end <= text.len(),
    }
}

/// The edit changes something: it inserts at least one byte or deletes at
/// least one.
pub open spec fn edit_is_committed(edit: Edit) -> bool {
    match edit {
        Edit::Insert { position, text: inserted } => inserted.len() > 0,
        Edit::Delete { start, end } => start < end,
    }
}

/// `text` after the edit, as a plain string would have it.
pub open spec fn edited(text: Seq<u8>, edit: Edit) -> Seq<u8> {
    match edit {
        Edit::Insert { position, text: inserted } => with_insertion(
            text,
            position as int,
            inserted,
        ),
        Edit::Delete { start, end } => without_range(text, start as int, end as int),
    }
}

/// Each of the edits can be made on the text that the ones before it leave.
pub open spec fn edits_apply(text: Seq<u8>, edits: Seq<Edit>) -> bool
    decreases edits.len(),
{
    edits.len() > 0 ==> edits_apply(text, edits.drop_last()) && edit_applies(
        edited_by_all(text, edits.drop_last()),
        edits.last(),
    )
}

/// `text` after the edits, one after the other.
pub open spec fn edited_by_all(text: Seq<u8>, edits: Seq<Edit>) -> Seq<u8>
    decreases edits.len(),
{
    if edits.len() == 0 {
        text
    } else {
        edited(edited_by_all(text, edits.drop_last()), edits.last())
    }
}

/// The parts of a piece table: its two buffers and its pieces.
pub struct TableParts {
    pub original: Seq<u8>,
    pub added: Seq<u8>,
    pub pieces: Seq<Piece>,
}

impl TableParts {
    /// The text that the pieces spell over the buffers.
    pub open spec fn text(self) -> Seq<u8> {
        pieces_text(self.pieces, self.original, self.added)
    }

    /// Each piece lies inside its buffer, the buffers and the text are no
    /// longer than a `usize` counts, and an empty piece occurs only as the
    /// single piece of a table made from the empty text.
    pub open spec fn well_formed(self) -> bool {
        &&& pieces_in_bounds(self.pieces, self.original, self.added)
        &&& self.original.len() <= usize::MAX
        &&& self.added.len() <= usize::MAX
        &&& pieces_length(self.pieces) <= usize::MAX
        &&& self.pieces.len() == 1 || no_empty_piece(self.pieces)
    }

    /// The parts of a table made from `text`.
    pub open spec fn initial(text: Seq<u8>) -> TableParts {
        TableParts {
            original: text,
            added: Seq::empty(),
            pieces: seq![
                Piece { buffer_type: BufferType::Original, start: 0, length: text.len() as usize },
            ],
        }
    }

    /// The piece that stands for `inserted` once it is appended to the
    /// added buffer.
    pub open spec fn new_piece(self, inserted: Seq<u8>) -> Piece {
        Piece {
            buffer_type: BufferType::Added,
            start: self.added.len() as usize,
            length: inserted.len() as usize,
        }
    }

    /// The parts after the edit. An edit that changes nothing leaves them
    /// as they are. An insertion appends to the added buffer and places one
    /// piece; a deletion only rebuilds the pieces.
    pub open spec fn after(self, edit: Edit) -> TableParts {
        if !edit_is_committed(edit) {
            self
        } else {
            match edit {
                Edit::Insert { position, text: inserted } => TableParts {
                    original: self.original,
                    added: self.added + inserted,
                    pieces: pieces_after_insert(
                        self.pieces,
                        position as int,
                        self.new_piece(inserted),
                    ),
                },
                Edit::Delete { start, end } => TableParts {
                    pieces: pieces_after_delete(self.pieces, start as int, end as int),
                    ..self
                },
            }
        }
    }

    /// The added buffer has room for what the edit inserts.
    pub open spec fn has_room(self, edit: Edit) -> bool {
        edit matches Edit::Insert { position, text: inserted } ==> self.added.len()
            + inserted.len() <= usize::MAX
    }

    /// The parts after the edits, one after the other.
    pub open spec fn after_all(self, edits: Seq<Edit>) -> TableParts
        decreases edits.len(),
    {
        if edits.len() == 0 {
            self
        } else {
            self.after_all(edits.drop_last()).after(edits.last())
        }
    }

    /// The added buffer has room for every insertion among the edits.
    pub open spec fn has_room_for(self, edits: Seq<Edit>) -> bool
        decreases edits.len(),
    {
        edits.len() > 0 ==> self.has_room_for(edits.drop_last()) && self.after_all(
            edits.drop_last(),
        ).has_room(edits.last())
    }
}

/// The pieces of well-formed parts end at offsets that a `usize` holds.
pub proof fn lemma_well_formed_addressable(parts: TableParts)
    requires
        parts.well_formed(),
    ensures
        pieces_addressable(parts.pieces),
        parts.text().len() == pieces_length(parts.pieces),
{
    assert forall|i: int| 0 <= i < parts.pieces.len() implies (#[trigger] parts.pieces[i]).start
        + parts.pieces[i].length <= usize::MAX by {
        assert(piece_in_bounds(parts.pieces[i], parts.original, parts.added));
    }
    lemma_pieces_text_len(parts.pieces, parts.original, parts.added);
}

/// A table made from a text spells that text and is well formed.
pub proof fn lemma_initial_parts(text: Seq<u8>)
    requires
        text.len() <= usize::MAX,
    ensures
        TableParts::initial(text).well_formed(),
        TableParts::initial(text).text() == text,
{
    let parts = TableParts::initial(text);
    crate::piece_lemmas::lemma_pieces_text_one(parts.pieces[0], parts.original, parts.added);
    assert(parts.pieces =~= seq![parts.pieces[0]]);
    assert(text.subrange(0, text.len() as int) =~= text);
}

/// One edit does to the table what it does to a plain text. The table
/// stays well formed, the lengths of its pieces add up to the length of its
/// text, an edit that changes something leaves no empty piece, and an edit
/// that changes nothing leaves buffers and pieces as they were.
pub proof fn lemma_edit_agrees(parts: TableParts, edit: Edit)
    requires
        parts.well_formed(),
        edit_applies(parts.text(), edit),
        parts.has_room(edit),
    ensures
        parts.after(edit).text() == edited(parts.text(), edit),
        parts.after(edit).well_formed(),
        pieces_length(parts.after(edit).pieces) == parts.after(edit).text().len(),
        edit_is_committed(edit) ==> no_empty_piece(parts.after(edit).pieces),
        !edit_is_committed(edit) ==> parts.after(edit) == parts,
{
    lemma_well_formed_addressable(parts);
    let text = parts.text();
    match edit {
        Edit::Insert { position, text: inserted } => {
            if inserted.len() > 0 {
                let piece = parts.new_piece(inserted);
                let added = parts.added + inserted;
                lemma_pieces_text_append(parts.pieces, parts.original, parts.added, inserted);
                assert(piece_text(piece, parts.original, added) =~= inserted);
                lemma_insert_splices(parts.pieces, parts.original, added, position as int, piece);
                lemma_pieces_text_len(parts.after(edit).pieces, parts.original, added);
            } else {
                assert(with_insertion(text, position as int, inserted) =~= text);
            }
        },
        Edit::Delete { start, end } => {
            if start < end {
                if parts.pieces.len() == 1 {
                    lemma_piece_end(parts.pieces, 0);
                    assert(parts.pieces.take(1) =~= parts.pieces);
                    assert(parts.pieces.take(0) =~= Seq::<Piece>::empty());
                    assert(parts.pieces[0].length > 0);
                }
                lemma_delete_removes(
                    parts.pieces,
                    parts.original,
                    parts.added,
                    start as int,
                    end as int,
                );
                lemma_pieces_text_len(parts.after(edit).pieces, parts.original, parts.added);
            } else {
                assert(without_range(text, start as int, end as int) =~= text);
            }
        },
    }
}

/// Any sequence of edits that can be made does to the table what it does to
/// a plain text, and leaves the table well formed with piece lengths that
/// add up to the length of its text.
pub proof fn lemma_edits_agree(parts: TableParts, edits: Seq<Edit>)
    requires
        parts.well_formed(),
        edits_apply(parts.text(), edits),
        parts.has_room_for(edits),
    ensures
        parts.after_all(edits).text() == edited_by_all(parts.text(), edits),
        parts.after_all(edits).well_formed(),
        pieces_length(parts.after_all(edits).pieces) == parts.after_all(edits).text().len(),
    decreases edits.len(),
{
    if edits.len() == 0 {
        lemma_well_formed_addressable(parts);
    } else {
        lemma_edits_agree(parts, edits.drop_last());
        lemma_edit_agrees(parts.after_all(edits.drop_last()), edits.last());
    }
}

/// After a sequence of edits whose last one changes something, no piece is
/// empty.
pub proof fn lemma_edits_leave_no_empty_piece(parts: TableParts, edits: Seq<Edit>)
    requires
        parts.well_formed(),
        edits_apply(parts.text(), edits),
        parts.has_room_for(edits),
        edits.len() > 0,
        edit_is_committed(edits.last()),
    ensures
        no_empty_piece(parts.after_all(edits).pieces),
{
    lemma_edits_agree(parts, edits.drop_last());
    lemma_edit_agrees(parts.after_all(edits.drop_last()), edits.last());
}

/// An insertion at the start of a text puts the new text in front of it;
/// an insertion at its end puts the new text behind it.
pub proof fn lemma_insert_at_boundaries(text: Seq<u8>, inserted: Seq<u8>)
    ensures
        with_insertion(text, 0, inserted) == inserted + text,
        with_insertion(text, text.len() as int, inserted) == text + inserted,
{
    assert(with_insertion(text, 0, inserted) =~= inserted + text);
    assert(with_insertion(text, text.len() as int, inserted) =~= text + inserted);
}

/// An insertion at the start of the document puts the new piece in front of
/// the others, which stay as they are.
pub proof fn lemma_insert_at_start(pieces: Seq<Piece>, piece: Piece)
    requires
        no_empty_piece(pieces),
    ensures
        pieces_after_insert(pieces, 0, piece) == seq![piece] + pieces,
{
    if pieces.len() == 0 {
        assert(is_insertion_index(pieces, 0, 0));
        lemma_insertion_index_unique(pieces, 0, 0, insertion_index(pieces, 0));
        assert(pieces.push(piece) =~= seq![piece] + pieces);
    } else {
        assert(is_insertion_index(pieces, 0, 0));
        lemma_insertion_index_unique(pieces, 0, 0, insertion_index(pieces, 0));
        assert(pieces.take(0) =~= Seq::<Piece>::empty());
        assert(piece_suffix(pieces[0], 0) =~= seq![pieces[0]]);
        assert(pieces_with_insertion(pieces, 0, 0, piece) =~= seq![piece] + pieces);
    }
}

/// An insertion at the end of the document puts the new piece behind the
/// others, which stay as they are.
pub proof fn lemma_insert_at_end(pieces: Seq<Piece>, piece: Piece)
    requires
        no_empty_piece(pieces),
    ensures
        pieces_after_insert(pieces, pieces_length(pieces) as int, piece) == pieces.push(piece),
{
    let total = pieces_length(pieces) as int;
    let count = pieces.len() as int;
    if count == 0 {
        assert(is_insertion_index(pieces, total, 0));
        lemma_insertion_index_unique(pieces, total, 0, insertion_index(pieces, total));
    } else {
        let last = count - 1;
        assert(pieces.take(count) =~= pieces);
        lemma_piece_end(pieces, last);
        assert forall|j: int| 0 <= j < last implies #[trigger] piece_end(pieces, j) < total by {
            lemma_piece_end(pieces, j);
            lemma_piece_offset_monotone(pieces, j + 1, last);
        }
        assert(is_insertion_index(pieces, total, last));
        lemma_insertion_index_unique(pieces, total, last, insertion_index(pieces, total));
        let offset = total - piece_offset(pieces, last);
        assert(piece_prefix(pieces[last], offset) =~= seq![pieces[last]]);
        assert(piece_suffix(pieces[last], offset) =~= Seq::<Piece>::empty());
        assert(pieces_with_insertion(pieces, last, offset, piece) =~= pieces.push(piece));
    }
}

/// An insertion of valid UTF-8 between two characters of a text that is
/// valid UTF-8 leaves it valid.
pub proof fn lemma_insert_keeps_valid_utf8(text: Seq<u8>, position: int, inserted: Seq<u8>)
    requires
        valid_utf8(text),
        valid_utf8(inserted),
        is_char_boundary(text, position),
    ensures
        valid_utf8(with_insertion(text, position, inserted)),
{
    valid_utf8_split(text, position);
    valid_utf8_concat(text.subrange(0, position), inserted);
    valid_utf8_concat(
        text.subrange(0, position) + inserted,
        text.subrange(position, text.len() as int),
    );
}

/// A deletion from one character boundary to another of a text that is
/// valid UTF-8 leaves it valid.
pub proof fn lemma_delete_keeps_valid_utf8(text: Seq<u8>, start: int, end: int)
    requires
        valid_utf8(text),
        is_char_boundary(text, start),
        is_char_boundary(text, end),
    ensures
        valid_utf8(without_range(text, start, end)),
{
    valid_utf8_split(text, start);
    valid_utf8_split(text, end);
    valid_utf8_concat(text.subrange(0, start), text.subrange(end, text.len() as int));
}

} // verus!
