//! The piece table: two append-only buffers and an ordered list of spans
//! over them whose concatenation is the document.

use crate::edits::{
    lemma_edit_agrees, lemma_initial_parts, lemma_well_formed_addressable, Edit, TableParts,
};
use crate::piece_lemmas::lemma_pieces_length_prefix;
use crate::pieces::{
    delete_range, insert_piece, no_empty_piece, piece_in_bounds, pieces_length, pieces_text,
    BufferType, Piece,
};
use crate::text::{insert_bytes, without_range};
use crate::text_trait::{InvalidPosition, RangeError, TextTrait};
use crate::utf8::{lemma_encode_utf8_concat, string_from_bytes};
use vstd::prelude::*;
use vstd::string::*;
use vstd::utf8::*;

verus! {

/// A text store of two buffers and a list of pieces.
pub struct PieceTable {
    original_buffer: String,
    add_buffer: String,
    pieces: Vec<Piece>,
}

impl View for PieceTable {
    type V = Seq<u8>;

    /// The document: the text of the pieces over the two buffers.
    open spec fn view(&self) -> Seq<u8> {
        self.parts().text()
    }
}

impl PieceTable {
    /// The text the table was made from.
    pub closed spec fn original_text(&self) -> Seq<char> {
        self.original_buffer@
    }

    /// Everything that was ever inserted, in order of insertion.
    pub closed spec fn added_text(&self) -> Seq<char> {
        self.add_buffer@
    }

    /// The pieces, in document order.
    pub closed spec fn piece_seq(&self) -> Seq<Piece> {
        self.pieces@
    }

    /// The two buffers as bytes, and the pieces.
    pub open spec fn parts(&self) -> TableParts {
        TableParts {
            original: encode_utf8(self.original_text()),
            added: encode_utf8(self.added_text()),
            pieces: self.piece_seq(),
        }
    }

    /// What holds of every table: its parts are well formed.
    #[verifier::type_invariant]
    pub open spec fn well_formed(&self) -> bool {
        self.parts().well_formed()
    }

    /// The original buffer.
    pub fn original_buffer(&self) -> (buffer: &str)
        ensures
            buffer@ == self.original_text(),
    {
        self.original_buffer.as_str()
    }

    /// The added buffer.
    pub fn add_buffer(&self) -> (buffer: &str)
        ensures
            buffer@ == self.added_text(),
    {
        self.add_buffer.as_str()
    }

    /// The pieces, in document order.
    pub fn pieces(&self) -> (pieces: &[Piece])
        ensures
            pieces@ == self.piece_seq(),
    {
        self.pieces.as_slice()
    }

    /// Appends to `result` the bytes of `buffer` that `piece` spans.
    pub fn get_text_from_buffer(buffer: &str, result: &mut Vec<u8>, piece: &Piece)
        requires
            piece.start + piece.length <= buffer.spec_bytes().len(),
        ensures
            final(result)@ == old(result)@ + buffer.spec_bytes().subrange(
                piece.start as int,
                piece.start + piece.length,
            ),
    {
        let bytes = buffer.as_bytes();
        assert(bytes@.len() == bytes.len());
        let end = piece.start + piece.length;
        let mut i = piece.start;
        while i < end
            invariant
                piece.start <= i <= end,
                end == piece.start + piece.length,
                end <= bytes@.len(),
                bytes@ == buffer.spec_bytes(),
                result@ == old(result)@ + bytes@.subrange(piece.start as int, i as int),
            decreases end - i,
        {
            result.push(bytes[i]);
            i += 1;
            assert(bytes@.subrange(piece.start as int, i as int) =~= bytes@.subrange(
                piece.start as int,
                i - 1,
            ).push(bytes@[i - 1]));
        }
    }

    /// The length of the document in bytes: the sum of the piece lengths.
    pub fn total_length(&self) -> (total: usize)
        ensures
            total == self@.len(),
            total == pieces_length(self.piece_seq()),
            self.parts().well_formed(),
    {
        proof {
            use_type_invariant(&*self);
            lemma_well_formed_addressable(self.parts());
        }
        let mut total: usize = 0;
        let mut i: usize = 0;
        while i < self.pieces.len()
            invariant
                i <= self.pieces@.len(),
                total == pieces_length(self.pieces@.take(i as int)),
                pieces_length(self.pieces@) <= usize::MAX,
            decreases self.pieces@.len() - i,
        {
            proof {
                lemma_pieces_length_prefix(self.pieces@, i + 1);
                assert(self.pieces@.take(i + 1).drop_last() =~= self.pieces@.take(i as int));
            }
            total = total + self.pieces[i].length;
            i += 1;
        }
        assert(self.pieces@.take(i as int) =~= self.pieces@);
        total
    }

    /// The document as bytes.
    pub fn to_bytes(&self) -> (bytes: Vec<u8>)
        ensures
            bytes@ == self@,
            self.parts().well_formed(),
    {
        proof {
            use_type_invariant(&*self);
        }
        let mut bytes: Vec<u8> = Vec::new();
        let mut i: usize = 0;
        while i < self.pieces.len()
            invariant
                i <= self.pieces@.len(),
                self.parts().well_formed(),
                bytes@ == pieces_text(
                    self.pieces@.take(i as int),
                    self.parts().original,
                    self.parts().added,
                ),
            decreases self.pieces@.len() - i,
        {
            let piece = self.pieces[i];
            proof {
                assert(piece_in_bounds(
                    self.pieces@[i as int],
                    self.parts().original,
                    self.parts().added,
                ));
                assert(self.pieces@.take(i + 1).drop_last() =~= self.pieces@.take(i as int));
            }
            match piece.buffer_type {
                BufferType::Original => {
                    PieceTable::get_text_from_buffer(
                        self.original_buffer.as_str(),
                        &mut bytes,
                        &piece,
                    );
                },
                BufferType::Added => {
                    PieceTable::get_text_from_buffer(self.add_buffer.as_str(), &mut bytes, &piece);
                },
            }
            i += 1;
        }
        assert(self.pieces@.take(i as int) =~= self.pieces@);
        bytes
    }
}

impl TextTrait for PieceTable {
    open spec fn text(&self) -> Seq<u8> {
        self@
    }

    /// A table whose document is `text`: the whole of it is the original
    /// buffer, under a single piece.
    fn new(text: &str) -> (table: Self)
        ensures
            table.original_text() == text@,
            table.added_text() == Seq::<char>::empty(),
            table.parts() == TableParts::initial(text.spec_bytes()),
            table.parts().well_formed(),
    {
        let original_buffer = text.to_owned();
        let length = original_buffer.as_str().as_bytes().len();
        let piece = Piece { buffer_type: BufferType::Original, start: 0, length };
        let pieces: Vec<Piece> = vec![piece];
        proof {
            lemma_initial_parts(encode_utf8(text@));
            assert(pieces@ =~= seq![piece]);
            assert(encode_utf8(Seq::<char>::empty()) =~= Seq::<u8>::empty());
        }
        PieceTable { original_buffer, add_buffer: String::new(), pieces }
    }

    /// Appends `text` to the added buffer and places a piece for it at
    /// `position`, splitting the piece that holds the position where it
    /// falls strictly inside one.
    fn add_text(&mut self, text: &str, position: usize) -> (result: Result<(), InvalidPosition>)
        ensures
            final(self).original_text() == old(self).original_text(),
            final(self).added_text() == if result is Ok {
                old(self).added_text() + text@
            } else {
                old(self).added_text()
            },
            final(self).parts() == if result is Ok {
                old(self).parts().after(Edit::Insert { position, text: text.spec_bytes() })
            } else {
                old(self).parts()
            },
            final(self).parts().well_formed(),
            result is Ok && text@.len() > 0 ==> no_empty_piece(final(self).piece_seq()),
    {
        proof {
            use_type_invariant(&*self);
        }
        if text.is_empty() {
            proof {
                assert(old(self).added_text() + text@ =~= old(self).added_text());
            }
            return Ok(());
        }
        let total_len = self.total_length();
        if position > total_len {
            return Err(InvalidPosition { position, length: total_len });
        }
        let text_length = text.as_bytes().len();
        if text_length > usize::MAX - total_len {
            // No memory holds a text that long: to write it out shows that
            // its length can be counted after all.
            let whole = insert_bytes(&self.to_bytes(), total_len, text.as_bytes());
            let held = whole.len();
            assert(held == total_len + text_length);
        }
        let new_piece_start_position = self.add_buffer.as_str().as_bytes().len();
        let new_piece = Piece {
            buffer_type: BufferType::Added,
            start: new_piece_start_position,
            length: text_length,
        };
        let ghost edit = Edit::Insert { position, text: text.spec_bytes() };
        let ghost before = self.parts();
        proof {
            lemma_well_formed_addressable(before);
        }
        let new_pieces = insert_piece(&self.pieces, position, new_piece);
        self.pieces = Vec::new();
        let mut add_buffer = String::new();
        std::mem::swap(&mut self.add_buffer, &mut add_buffer);
        add_buffer.append(text);
        let added_length = add_buffer.as_str().as_bytes().len();
        proof {
            lemma_encode_utf8_concat(old(self).added_text(), text@);
            lemma_edit_agrees(before, edit);
        }
        self.add_buffer = add_buffer;
        self.pieces = new_pieces;
        Ok(())
    }

    /// The document as a string.
    fn get_text(&self) -> (text: String)
        ensures
            valid_utf8(self@) ==> encode_utf8(text@) == self@,
    {
        let bytes = self.to_bytes();
        proof {
            if valid_utf8(self@) {
                decode_utf8_encode_utf8(self@);
            }
        }
        string_from_bytes(&bytes)
    }

    /// Rebuilds the piece list without the range: the pieces before the one
    /// that holds `start`, what that piece has before `start`, what the piece
    /// that holds the last deleted byte has behind `end`, and the pieces
    /// behind that one.
    fn delete_text(&mut self, start: usize, end: usize) -> (result: Result<(), RangeError>)
        ensures
            final(self).original_text() == old(self).original_text(),
            final(self).added_text() == old(self).added_text(),
            final(self).parts() == if result is Ok {
                old(self).parts().after(Edit::Delete { start, end })
            } else {
                old(self).parts()
            },
            final(self).parts().well_formed(),
            result is Ok && start < end ==> no_empty_piece(final(self).piece_seq()),
    {
        proof {
            use_type_invariant(&*self);
        }
        let total_len = self.total_length();
        if start > total_len {
            return Err(RangeError::StartBeyondLength { start, length: total_len });
        }
        if end > total_len {
            return Err(RangeError::EndBeyondLength { end, length: total_len });
        }
        if start > end {
            return Err(RangeError::StartAfterEnd { start, end });
        }
        if start == end {
            proof {
                assert(without_range(self@, start as int, end as int) =~= self@);
            }
            return Ok(());
        }
        proof {
            lemma_well_formed_addressable(self.parts());
            lemma_edit_agrees(self.parts(), Edit::Delete { start, end });
        }
        let new_pieces = delete_range(&self.pieces, start, end);
        self.pieces = new_pieces;
        Ok(())
    }
}

} // verus!
