//! Pieces and lists of pieces: what a list spells over the two buffers, and
//! how an insertion and a deletion rebuild it.

use crate::piece_lemmas::{
    lemma_end_index_unique, lemma_insertion_index_unique, lemma_piece_end,
    lemma_piece_offset_monotone, lemma_start_index_unique,
};
use vstd::prelude::*;

verus! {

/// Which of the table's two buffers a piece points into.
#[derive(Debug, Clone, Copy, PartialEq, Eq, Structural)]
pub enum BufferType {
    Original,
    Added,
}

/// A span of `length` bytes that begins at byte `start` of one buffer.
#[derive(Debug, Clone, Copy, PartialEq, Eq, Structural)]
pub struct Piece {
    pub buffer_type: BufferType,
    pub start: usize,
    pub length: usize,
}

/// The buffer that `piece` points into.
pub open spec fn piece_source(piece: Piece, original: Seq<u8>, added: Seq<u8>) -> Seq<u8> {
    match piece.buffer_type {
        BufferType::Original => original,
        BufferType::Added => added,
    }
}

/// The span of `piece` lies inside its buffer.
pub open spec fn piece_in_bounds(piece: Piece, original: Seq<u8>, added: Seq<u8>) -> bool {
    piece.start + piece.length <= piece_source(piece, original, added).len()
}

/// Every piece of the list lies inside its buffer.
pub open spec fn pieces_in_bounds(pieces: Seq<Piece>, original: Seq<u8>, added: Seq<u8>) -> bool {
    forall|i: int| 0 <= i < pieces.len() ==> piece_in_bounds(#[trigger] pieces[i], original, added)
}

/// The bytes that `piece` stands for.
pub open spec fn piece_text(piece: Piece, original: Seq<u8>, added: Seq<u8>) -> Seq<u8> {
    piece_source(piece, original, added).subrange(
        piece.start as int,
        piece.start + piece.length,
    )
}

/// The bytes of the pieces, one after the other in list order.
pub open spec fn pieces_text(pieces: Seq<Piece>, original: Seq<u8>, added: Seq<u8>) -> Seq<u8>
    decreases pieces.len(),
{
    if pieces.len() == 0 {
        Seq::empty()
    } else {
        pieces_text(pieces.drop_last(), original, added) + piece_text(
            pieces.last(),
            original,
            added,
        )
    }
}

/// The sum of the lengths of the pieces.
pub open spec fn pieces_length(pieces: Seq<Piece>) -> nat
    decreases pieces.len(),
{
    if pieces.len() == 0 {
        0
    } else {
        pieces_length(pieces.drop_last()) + pieces.last().length as nat
    }
}

/// No piece of the list is empty.
pub open spec fn no_empty_piece(pieces: Seq<Piece>) -> bool {
    forall|i: int| 0 <= i < pieces.len() ==> (#[trigger] pieces[i]).length > 0
}

/// Every piece of the list ends at an offset that a `usize` holds.
pub open spec fn pieces_addressable(pieces: Seq<Piece>) -> bool {
    forall|i: int|
        0 <= i < pieces.len() ==> (#[trigger] pieces[i]).start + pieces[i].length <= usize::MAX
}

/// The byte offset in the document at which piece `index` begins.
pub open spec fn piece_offset(pieces: Seq<Piece>, index: int) -> nat {
    pieces_length(pieces.take(index))
}

/// The byte offset in the document just behind piece `index`.
pub open spec fn piece_end(pieces: Seq<Piece>, index: int) -> nat {
    pieces_length(pieces.take(index + 1))
}

/// `index` is where an insertion at `position` takes place: the first piece
/// that ends at or behind `position`, or the number of pieces where none
/// does.
pub open spec fn is_insertion_index(pieces: Seq<Piece>, position: int, index: int) -> bool {
    &&& 0 <= index <= pieces.len()
    &&& forall|j: int| 0 <= j < index ==> #[trigger] piece_end(pieces, j) < position
    &&& index < pieces.len() ==> position <= piece_end(pieces, index)
}

/// `index` is the piece that holds the byte at `start`.
pub open spec fn is_start_index(pieces: Seq<Piece>, start: int, index: int) -> bool {
    &&& 0 <= index < pieces.len()
    &&& piece_offset(pieces, index) <= start < piece_end(pieces, index)
}

/// `index` is the piece that holds the last byte before `end`: an `end` on
/// the boundary of two pieces belongs to the earlier one.
pub open spec fn is_end_index(pieces: Seq<Piece>, end: int, index: int) -> bool {
    &&& 0 <= index < pieces.len()
    &&& piece_offset(pieces, index) < end <= piece_end(pieces, index)
}

/// The index at which an insertion at `position` takes place.
pub open spec fn insertion_index(pieces: Seq<Piece>, position: int) -> int {
    choose|index: int| is_insertion_index(pieces, position, index)
}

/// The index of the piece that holds the byte at `start`.
pub open spec fn start_index(pieces: Seq<Piece>, start: int) -> int {
    choose|index: int| is_start_index(pieces, start, index)
}

/// The index of the piece that holds the last byte before `end`.
pub open spec fn end_index(pieces: Seq<Piece>, end: int) -> int {
    choose|index: int| is_end_index(pieces, end, index)
}

/// What is left of `piece` before a cut `offset` bytes into it: nothing
/// where the cut is at its start.
pub open spec fn piece_prefix(piece: Piece, offset: int) -> Seq<Piece> {
    if offset > 0 {
        seq![Piece { buffer_type: piece.buffer_type, start: piece.start, length: offset as usize }]
    } else {
        Seq::empty()
    }
}

/// What is left of `piece` behind a cut `offset` bytes into it: nothing
/// where the cut is at its end.
pub open spec fn piece_suffix(piece: Piece, offset: int) -> Seq<Piece> {
    if offset < piece.length {
        seq![
            Piece {
                buffer_type: piece.buffer_type,
                start: (piece.start + offset) as usize,
                length: (piece.length - offset) as usize,
            },
        ]
    } else {
        Seq::empty()
    }
}

/// The list with `piece` placed `offset` bytes into the piece at `index`,
/// which is split there, or at the end where `index` is the number of
/// pieces.
pub open spec fn pieces_with_insertion(
    pieces: Seq<Piece>,
    index: int,
    offset: int,
    piece: Piece,
) -> Seq<Piece> {
    if index == pieces.len() {
        pieces.push(piece)
    } else {
        pieces.take(index) + piece_prefix(pieces[index], offset) + seq![piece] + piece_suffix(
            pieces[index],
            offset,
        ) + pieces.skip(index + 1)
    }
}

/// The list after `piece` is inserted at byte `position` of the document.
pub open spec fn pieces_after_insert(pieces: Seq<Piece>, position: int, piece: Piece) -> Seq<
    Piece,
> {
    let index = insertion_index(pieces, position);
    pieces_with_insertion(pieces, index, position - piece_offset(pieces, index), piece)
}

/// The list with everything dropped from `start_offset` bytes into the piece
/// at `start_index` up to `end_offset` bytes into the piece at `end_index`.
pub open spec fn pieces_with_deletion(
    pieces: Seq<Piece>,
    start_index: int,
    start_offset: int,
    end_index: int,
    end_offset: int,
) -> Seq<Piece> {
    pieces.take(start_index) + piece_prefix(pieces[start_index], start_offset) + piece_suffix(
        pieces[end_index],
        end_offset,
    ) + pieces.skip(end_index + 1)
}

/// The list after the bytes `[start, end)` of the document are deleted.
pub open spec fn pieces_after_delete(pieces: Seq<Piece>, start: int, end: int) -> Seq<Piece> {
    let first = start_index(pieces, start);
    let last = end_index(pieces, end);
    pieces_with_deletion(
        pieces,
        first,
        start - piece_offset(pieces, first),
        last,
        end - piece_offset(pieces, last),
    )
}

/// Finds where an insertion at `position` takes place: the index of the
/// first piece that ends at or behind `position`, and how far into that
/// piece the position lies.
fn find_insertion(pieces: &Vec<Piece>, position: usize) -> (found: (usize, usize))
    requires
        pieces_length(pieces@) <= usize::MAX,
        position <= pieces_length(pieces@),
    ensures
        is_insertion_index(pieces@, position as int, found.0 as int),
        found.0 == insertion_index(pieces@, position as int),
        found.1 == position - piece_offset(pieces@, found.0 as int),
        found.0 < pieces@.len() ==> found.1 <= pieces@[found.0 as int].length,
        found.0 == pieces@.len() ==> found.1 == 0,
{
    let mut current_pos: usize = 0;
    let mut index: usize = 0;
    while index < pieces.len()
        invariant
            index <= pieces@.len(),
            current_pos == piece_offset(pieces@, index as int),
            current_pos <= position <= pieces_length(pieces@) <= usize::MAX,
            forall|j: int| 0 <= j < index ==> #[trigger] piece_end(pieces@, j) < position,
        decreases pieces@.len() - index,
    {
        let piece = pieces[index];
        proof {
            lemma_piece_end(pieces@, index as int);
            lemma_piece_offset_monotone(pieces@, index + 1, pieces@.len() as int);
        }
        if position <= current_pos + piece.length {
            proof {
                assert(is_insertion_index(pieces@, position as int, index as int));
                lemma_insertion_index_unique(
                    pieces@,
                    position as int,
                    index as int,
                    insertion_index(pieces@, position as int),
                );
            }
            return (index, position - current_pos);
        }
        current_pos += piece.length;
        index += 1;
    }
    proof {
        assert(pieces@.take(index as int) =~= pieces@);
        if index > 0 {
            assert(piece_end(pieces@, index - 1) < position);
        }
        assert(is_insertion_index(pieces@, position as int, index as int));
        lemma_insertion_index_unique(
            pieces@,
            position as int,
            index as int,
            insertion_index(pieces@, position as int),
        );
    }
    (index, 0)
}

/// Finds the two cuts of a deletion: the piece that holds the byte at
/// `start` and the piece that holds the last byte before `end`, each with
/// the offset of the cut inside it.
fn find_range(pieces: &Vec<Piece>, start: usize, end: usize) -> (found: (
    usize,
    usize,
    usize,
    usize,
))
    requires
        pieces_length(pieces@) <= usize::MAX,
        start < end <= pieces_length(pieces@),
    ensures
        is_start_index(pieces@, start as int, found.0 as int),
        found.0 == start_index(pieces@, start as int),
        found.1 == start - piece_offset(pieces@, found.0 as int),
        is_end_index(pieces@, end as int, found.2 as int),
        found.2 == end_index(pieces@, end as int),
        found.3 == end - piece_offset(pieces@, found.2 as int),
        found.0 <= found.2,
{
    let mut current_pos: usize = 0;
    let mut start_piece: Option<(usize, usize)> = None;
    let mut index: usize = 0;
    while index < pieces.len()
        invariant
            index <= pieces@.len(),
            current_pos == piece_offset(pieces@, index as int),
            start < end <= pieces_length(pieces@) <= usize::MAX,
            current_pos < end,
            start_piece is None ==> current_pos <= start,
            start_piece matches Some(at) ==> at.0 < index && is_start_index(
                pieces@,
                start as int,
                at.0 as int,
            ) && at.1 == start - piece_offset(pieces@, at.0 as int),
        decreases pieces@.len() - index,
    {
        let piece = pieces[index];
        proof {
            lemma_piece_end(pieces@, index as int);
            lemma_piece_offset_monotone(pieces@, index + 1, pieces@.len() as int);
        }
        let piece_end = current_pos + piece.length;
        if start_piece.is_none() && start < piece_end {
            start_piece = Some((index, start - current_pos));
        }
        if end <= piece_end {
            match start_piece {
                Some(at) => {
                    proof {
                        assert(is_start_index(pieces@, start as int, at.0 as int));
                        lemma_start_index_unique(
                            pieces@,
                            start as int,
                            at.0 as int,
                            start_index(pieces@, start as int),
                        );
                        assert(is_end_index(pieces@, end as int, index as int));
                        lemma_end_index_unique(
                            pieces@,
                            end as int,
                            index as int,
                            end_index(pieces@, end as int),
                        );
                    }
                    return (at.0, at.1, index, end - current_pos);
                },
                None => {
                    assert(false);
                },
            }
        }
        current_pos = piece_end;
        index += 1;
    }
    proof {
        assert(pieces@.take(index as int) =~= pieces@);
        assert(false);
    }
    (0, 0, 0, 0)
}

/// Copies the pieces `from..to` of `pieces` to the end of `result`.
fn push_pieces(result: &mut Vec<Piece>, pieces: &Vec<Piece>, from: usize, to: usize)
    requires
        from <= to <= pieces@.len(),
    ensures
        final(result)@ == old(result)@ + pieces@.subrange(from as int, to as int),
{
    let mut index = from;
    while index < to
        invariant
            from <= index <= to <= pieces@.len(),
            result@ == old(result)@ + pieces@.subrange(from as int, index as int),
        decreases to - index,
    {
        result.push(pieces[index]);
        index += 1;
        assert(pieces@.subrange(from as int, index as int) =~= pieces@.subrange(
            from as int,
            index - 1,
        ).push(pieces@[index - 1]));
    }
    assert(result@ =~= old(result)@ + pieces@.subrange(from as int, to as int));
}

/// The list with `piece` inserted at byte `position` of the document: the
/// piece that holds the position is split where the position falls strictly
/// inside it, and a part of no length is left out.
pub fn insert_piece(pieces: &Vec<Piece>, position: usize, piece: Piece) -> (result: Vec<Piece>)
    requires
        pieces_length(pieces@) <= usize::MAX,
        pieces_addressable(pieces@),
        position <= pieces_length(pieces@),
    ensures
        result@ == pieces_after_insert(pieces@, position as int, piece),
{
    let (insert_idx, split_offset) = find_insertion(pieces, position);
    let mut result: Vec<Piece> = Vec::new();
    push_pieces(&mut result, pieces, 0, insert_idx);
    if insert_idx == pieces.len() {
        result.push(piece);
        proof {
            assert(pieces@.subrange(0, insert_idx as int) =~= pieces@);
        }
    } else {
        let found = pieces[insert_idx];
        if split_offset > 0 {
            result.push(
                Piece { buffer_type: found.buffer_type, start: found.start, length: split_offset },
            );
        }
        result.push(piece);
        if split_offset < found.length {
            result.push(
                Piece {
                    buffer_type: found.buffer_type,
                    start: found.start + split_offset,
                    length: found.length - split_offset,
                },
            );
        }
        push_pieces(&mut result, pieces, insert_idx + 1, pieces.len());
    }
    assert(result@ =~= pieces_with_insertion(
        pieces@,
        insert_idx as int,
        split_offset as int,
        piece,
    ));
    result
}

/// The list without the bytes `[start, end)` of the document: the pieces
/// before the one that holds `start`, what that piece has before `start`,
/// what the piece that holds the last deleted byte has behind `end`, and the
/// pieces behind that one.
pub fn delete_range(pieces: &Vec<Piece>, start: usize, end: usize) -> (result: Vec<Piece>)
    requires
        pieces_length(pieces@) <= usize::MAX,
        pieces_addressable(pieces@),
        start < end <= pieces_length(pieces@),
    ensures
        result@ == pieces_after_delete(pieces@, start as int, end as int),
{
    let (start_idx, start_offset, end_idx, end_offset) = find_range(pieces, start, end);
    let start_piece = pieces[start_idx];
    let end_piece = pieces[end_idx];
    proof {
        lemma_piece_end(pieces@, start_idx as int);
        lemma_piece_end(pieces@, end_idx as int);
    }
    let mut result: Vec<Piece> = Vec::new();
    push_pieces(&mut result, pieces, 0, start_idx);
    if start_offset > 0 {
        result.push(
            Piece {
                buffer_type: start_piece.buffer_type,
                start: start_piece.start,
                length: start_offset,
            },
        );
    }
    if end_offset < end_piece.length {
        result.push(
            Piece {
                buffer_type: end_piece.buffer_type,
                start: end_piece.start + end_offset,
                length: end_piece.length - end_offset,
            },
        );
    }
    let count = pieces.len();
    assert(end_idx < count);
    push_pieces(&mut result, pieces, end_idx + 1, count);
    assert(result@ =~= pieces_with_deletion(
        pieces@,
        start_idx as int,
        start_offset as int,
        end_idx as int,
        end_offset as int,
    ));
    result
}

} // verus!
