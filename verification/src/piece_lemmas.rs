//! What holds of lists of pieces: the facts behind the insertion and the
//! deletion.

use crate::pieces::{
    end_index, insertion_index, is_end_index, is_insertion_index, is_start_index,
    no_empty_piece, piece_end, piece_in_bounds, piece_offset, piece_prefix, piece_suffix,
    piece_text, pieces_addressable, pieces_after_delete, pieces_after_insert, pieces_in_bounds,
    pieces_length, pieces_text, pieces_with_deletion, pieces_with_insertion, start_index, Piece,
};
use crate::text::{lemma_cut_in_middle, with_insertion, without_range};
use vstd::prelude::*;

verus! {

/// The lengths of two lists placed one after the other add up.
pub proof fn lemma_pieces_length_concat(a: Seq<Piece>, b: Seq<Piece>)
    ensures
        pieces_length(a + b) == pieces_length(a) + pieces_length(b),
    decreases b.len(),
{
    if b.len() == 0 {
        assert(a + b =~= a);
    } else {
        lemma_pieces_length_concat(a, b.drop_last());
        assert((a + b).drop_last() =~= a + b.drop_last());
    }
}

/// The text of two lists placed one after the other is the two texts joined.
pub proof fn lemma_pieces_text_concat(
    a: Seq<Piece>,
    b: Seq<Piece>,
    original: Seq<u8>,
    added: Seq<u8>,
)
    ensures
        pieces_text(a + b, original, added) == pieces_text(a, original, added) + pieces_text(
            b,
            original,
            added,
        ),
    decreases b.len(),
{
    if b.len() == 0 {
        assert(a + b =~= a);
        assert(pieces_text(a, original, added) + pieces_text(b, original, added) =~= pieces_text(
            a,
            original,
            added,
        ));
    } else {
        lemma_pieces_text_concat(a, b.drop_last(), original, added);
        assert((a + b).drop_last() =~= a + b.drop_last());
        assert(pieces_text(a + b, original, added) =~= pieces_text(a, original, added)
            + pieces_text(b, original, added));
    }
}

/// Pieces that lie inside their buffers spell a text as long as their
/// lengths add up to.
pub proof fn lemma_pieces_text_len(pieces: Seq<Piece>, original: Seq<u8>, added: Seq<u8>)
    requires
        pieces_in_bounds(pieces, original, added),
    ensures
        pieces_text(pieces, original, added).len() == pieces_length(pieces),
    decreases pieces.len(),
{
    if pieces.len() > 0 {
        lemma_pieces_text_len(pieces.drop_last(), original, added);
        assert(piece_in_bounds(pieces.last(), original, added));
    }
}

/// A prefix of a list is no longer than the list.
pub proof fn lemma_pieces_length_prefix(pieces: Seq<Piece>, n: int)
    requires
        0 <= n <= pieces.len(),
    ensures
        pieces_length(pieces.take(n)) <= pieces_length(pieces),
{
    lemma_pieces_length_concat(pieces.take(n), pieces.skip(n));
    assert(pieces.take(n) + pieces.skip(n) =~= pieces);
}

/// Appending to the added buffer changes neither the bounds nor the text of
/// the pieces that were there.
pub proof fn lemma_pieces_text_append(
    pieces: Seq<Piece>,
    original: Seq<u8>,
    added: Seq<u8>,
    more: Seq<u8>,
)
    requires
        pieces_in_bounds(pieces, original, added),
    ensures
        pieces_in_bounds(pieces, original, added + more),
        pieces_text(pieces, original, added + more) == pieces_text(pieces, original, added),
    decreases pieces.len(),
{
    if pieces.len() > 0 {
        lemma_pieces_text_append(pieces.drop_last(), original, added, more);
        let last = pieces.last();
        assert(piece_in_bounds(last, original, added));
        assert(piece_text(last, original, added + more) =~= piece_text(last, original, added));
        assert forall|i: int| 0 <= i < pieces.len() implies piece_in_bounds(
            #[trigger] pieces[i],
            original,
            added + more,
        ) by {
            assert(piece_in_bounds(pieces[i], original, added));
        }
    }
}

/// A list of one piece spells that piece's text and has its length.
pub proof fn lemma_pieces_text_one(piece: Piece, original: Seq<u8>, added: Seq<u8>)
    ensures
        pieces_text(seq![piece], original, added) == piece_text(piece, original, added),
        pieces_length(seq![piece]) == piece.length,
{
    reveal_with_fuel(pieces_text, 2);
    reveal_with_fuel(pieces_length, 2);
    let one = seq![piece];
    assert(one.drop_last() =~= Seq::<Piece>::empty());
    assert(pieces_text(one, original, added) =~= piece_text(piece, original, added));
}

/// A piece ends where it begins plus its length, and the next one begins
/// there.
pub proof fn lemma_piece_end(pieces: Seq<Piece>, index: int)
    requires
        0 <= index < pieces.len(),
    ensures
        piece_end(pieces, index) == piece_offset(pieces, index) + pieces[index].length,
        piece_end(pieces, index) == piece_offset(pieces, index + 1),
{
    assert(pieces.take(index + 1).drop_last() =~= pieces.take(index));
}

/// Offsets grow with the index.
pub proof fn lemma_piece_offset_monotone(pieces: Seq<Piece>, i: int, j: int)
    requires
        0 <= i <= j <= pieces.len(),
    ensures
        piece_offset(pieces, i) <= piece_offset(pieces, j),
        piece_offset(pieces, j) <= pieces_length(pieces),
{
    lemma_pieces_length_prefix(pieces.take(j), i);
    assert(pieces.take(j).take(i) =~= pieces.take(i));
    lemma_pieces_length_prefix(pieces, j);
}

/// At most one index is the insertion index of a position.
pub proof fn lemma_insertion_index_unique(pieces: Seq<Piece>, position: int, i: int, j: int)
    requires
        is_insertion_index(pieces, position, i),
        is_insertion_index(pieces, position, j),
    ensures
        i == j,
{
    if i < j {
        assert(piece_end(pieces, i) < position);
    } else if j < i {
        assert(piece_end(pieces, j) < position);
    }
}

/// At most one piece holds a given byte.
pub proof fn lemma_start_index_unique(pieces: Seq<Piece>, start: int, i: int, j: int)
    requires
        is_start_index(pieces, start, i),
        is_start_index(pieces, start, j),
    ensures
        i == j,
{
    if i < j {
        lemma_piece_offset_monotone(pieces, i + 1, j);
    } else if j < i {
        lemma_piece_offset_monotone(pieces, j + 1, i);
    }
}

/// At most one piece holds the last byte before a given end.
pub proof fn lemma_end_index_unique(pieces: Seq<Piece>, end: int, i: int, j: int)
    requires
        is_end_index(pieces, end, i),
        is_end_index(pieces, end, j),
    ensures
        i == j,
{
    if i < j {
        lemma_piece_offset_monotone(pieces, i + 1, j);
    } else if j < i {
        lemma_piece_offset_monotone(pieces, j + 1, i);
    }
}

/// The text of a list is the text before a piece, the piece, and the text
/// behind it.
pub proof fn lemma_pieces_text_around(
    pieces: Seq<Piece>,
    original: Seq<u8>,
    added: Seq<u8>,
    index: int,
)
    requires
        pieces_in_bounds(pieces, original, added),
        0 <= index < pieces.len(),
    ensures
        pieces_text(pieces, original, added) == pieces_text(pieces.take(index), original, added)
            + piece_text(pieces[index], original, added) + pieces_text(
            pieces.skip(index + 1),
            original,
            added,
        ),
        pieces_text(pieces.take(index), original, added).len() == piece_offset(pieces, index),
        piece_text(pieces[index], original, added).len() == pieces[index].length,
        pieces_text(pieces.skip(index + 1), original, added).len() == pieces_length(pieces)
            - piece_end(pieces, index),
{
    let before = pieces.take(index);
    let one = seq![pieces[index]];
    let behind = pieces.skip(index + 1);
    assert(pieces =~= before + one + behind);
    lemma_pieces_text_concat(before + one, behind, original, added);
    lemma_pieces_text_concat(before, one, original, added);
    lemma_pieces_text_one(pieces[index], original, added);
    assert(piece_in_bounds(pieces[index], original, added));
    assert(pieces_in_bounds(before, original, added));
    assert(pieces_in_bounds(behind, original, added));
    lemma_pieces_text_len(before, original, added);
    lemma_pieces_text_len(behind, original, added);
    lemma_pieces_length_concat(before + one, behind);
    assert(before + one =~= pieces.take(index + 1));
}

/// The two parts of a piece that is cut spell its text before and behind the
/// cut, lie inside its buffer, and are not empty.
pub proof fn lemma_piece_cut(piece: Piece, offset: int, original: Seq<u8>, added: Seq<u8>)
    requires
        piece_in_bounds(piece, original, added),
        0 <= offset <= piece.length,
        piece.start + piece.length <= usize::MAX,
    ensures
        pieces_text(piece_prefix(piece, offset), original, added) == piece_text(
            piece,
            original,
            added,
        ).subrange(0, offset),
        pieces_text(piece_suffix(piece, offset), original, added) == piece_text(
            piece,
            original,
            added,
        ).subrange(offset, piece.length as int),
        pieces_in_bounds(piece_prefix(piece, offset), original, added),
        pieces_in_bounds(piece_suffix(piece, offset), original, added),
        no_empty_piece(piece_prefix(piece, offset)),
        no_empty_piece(piece_suffix(piece, offset)),
        pieces_length(piece_prefix(piece, offset)) == offset,
        pieces_length(piece_suffix(piece, offset)) == piece.length - offset,
{
    let prefix = piece_prefix(piece, offset);
    let suffix = piece_suffix(piece, offset);
    let text = piece_text(piece, original, added);
    if offset > 0 {
        lemma_pieces_text_one(prefix[0], original, added);
        assert(prefix =~= seq![prefix[0]]);
        assert(pieces_text(prefix, original, added) =~= text.subrange(0, offset));
    } else {
        assert(pieces_text(prefix, original, added) =~= text.subrange(0, offset));
    }
    if offset < piece.length {
        lemma_pieces_text_one(suffix[0], original, added);
        assert(suffix =~= seq![suffix[0]]);
        assert(pieces_text(suffix, original, added) =~= text.subrange(
            offset,
            piece.length as int,
        ));
    } else {
        assert(pieces_text(suffix, original, added) =~= text.subrange(
            offset,
            piece.length as int,
        ));
    }
}

/// An insertion into the list is an insertion into the text: what the list
/// spells afterwards is the old text with the new piece's text placed at
/// the insertion point. Nothing leaves its buffer, and no empty piece is
/// made.
pub proof fn lemma_insertion_text(
    pieces: Seq<Piece>,
    original: Seq<u8>,
    added: Seq<u8>,
    index: int,
    offset: int,
    piece: Piece,
)
    requires
        pieces_in_bounds(pieces, original, added),
        piece_in_bounds(piece, original, added),
        0 <= index <= pieces.len(),
        index < pieces.len() ==> 0 <= offset <= pieces[index].length && pieces[index].start
            + pieces[index].length <= usize::MAX,
        index == pieces.len() ==> offset == 0,
    ensures
        pieces_text(pieces_with_insertion(pieces, index, offset, piece), original, added)
            == with_insertion(
            pieces_text(pieces, original, added),
            piece_offset(pieces, index) + offset,
            piece_text(piece, original, added),
        ),
        pieces_in_bounds(pieces_with_insertion(pieces, index, offset, piece), original, added),
        pieces_length(pieces_with_insertion(pieces, index, offset, piece)) == pieces_length(pieces)
            + piece.length,
        piece.length > 0 && (no_empty_piece(pieces) || (pieces.len() == 1 && index == 0
            && pieces[0].length == 0)) ==> no_empty_piece(
            pieces_with_insertion(pieces, index, offset, piece),
        ),
{
    if index == pieces.len() {
        lemma_insertion_at_end(pieces, original, added, piece);
    } else {
        lemma_insertion_in_middle(pieces, original, added, index, offset, piece);
        lemma_insertion_keeps_pieces(pieces, original, added, index, offset, piece);
    }
}

proof fn lemma_insertion_at_end(
    pieces: Seq<Piece>,
    original: Seq<u8>,
    added: Seq<u8>,
    piece: Piece,
)
    requires
        pieces_in_bounds(pieces, original, added),
        piece_in_bounds(piece, original, added),
    ensures
        pieces_text(pieces.push(piece), original, added) == with_insertion(
            pieces_text(pieces, original, added),
            piece_offset(pieces, pieces.len() as int) as int,
            piece_text(piece, original, added),
        ),
        pieces_in_bounds(pieces.push(piece), original, added),
        pieces_length(pieces.push(piece)) == pieces_length(pieces) + piece.length,
        piece.length > 0 && no_empty_piece(pieces) ==> no_empty_piece(pieces.push(piece)),
{
    let result = pieces.push(piece);
    let text = pieces_text(pieces, original, added);
    let position = piece_offset(pieces, pieces.len() as int) as int;
    lemma_pieces_text_len(pieces, original, added);
    assert(pieces.take(pieces.len() as int) =~= pieces);
    assert(result.drop_last() =~= pieces);
    assert(text.subrange(0, position) =~= text);
    assert(text.subrange(position, text.len() as int) =~= Seq::<u8>::empty());
    assert(pieces_text(result, original, added) =~= with_insertion(
        text,
        position,
        piece_text(piece, original, added),
    ));
}

proof fn lemma_insertion_in_middle(
    pieces: Seq<Piece>,
    original: Seq<u8>,
    added: Seq<u8>,
    index: int,
    offset: int,
    piece: Piece,
)
    requires
        pieces_in_bounds(pieces, original, added),
        0 <= index < pieces.len(),
        0 <= offset <= pieces[index].length,
        pieces[index].start + pieces[index].length <= usize::MAX,
    ensures
        pieces_text(pieces_with_insertion(pieces, index, offset, piece), original, added)
            == with_insertion(
            pieces_text(pieces, original, added),
            piece_offset(pieces, index) + offset,
            piece_text(piece, original, added),
        ),
        pieces_length(pieces_with_insertion(pieces, index, offset, piece)) == pieces_length(pieces)
            + piece.length,
{
    let result = pieces_with_insertion(pieces, index, offset, piece);
    let text = pieces_text(pieces, original, added);
    let new_text = piece_text(piece, original, added);
    let position = piece_offset(pieces, index) + offset;
    let cut = pieces[index];
    let before = pieces.take(index);
    let behind = pieces.skip(index + 1);
    let prefix = piece_prefix(cut, offset);
    let suffix = piece_suffix(cut, offset);
    let one = seq![piece];
    let text_before = pieces_text(before, original, added);
    let text_cut = piece_text(cut, original, added);
    let text_behind = pieces_text(behind, original, added);
    assert(piece_in_bounds(cut, original, added));
    lemma_pieces_text_one(piece, original, added);
    lemma_pieces_text_around(pieces, original, added, index);
    lemma_piece_end(pieces, index);
    lemma_piece_cut(cut, offset, original, added);
    assert(pieces_text(result, original, added) == text_before + text_cut.subrange(0, offset)
        + new_text + text_cut.subrange(offset, cut.length as int) + text_behind) by {
        lemma_pieces_text_concat(before + prefix + one + suffix, behind, original, added);
        lemma_pieces_text_concat(before + prefix + one, suffix, original, added);
        lemma_pieces_text_concat(before + prefix, one, original, added);
        lemma_pieces_text_concat(before, prefix, original, added);
    }
    assert(pieces_length(result) == pieces_length(pieces) + piece.length) by {
        lemma_pieces_length_concat(before + prefix + one + suffix, behind);
        lemma_pieces_length_concat(before + prefix + one, suffix);
        lemma_pieces_length_concat(before + prefix, one);
        lemma_pieces_length_concat(before, prefix);
        assert(pieces_in_bounds(behind, original, added));
        lemma_pieces_text_len(behind, original, added);
    }
    assert(with_insertion(text, position, new_text) =~= text_before + text_cut.subrange(0, offset)
        + new_text + text_cut.subrange(offset, cut.length as int) + text_behind) by {
        lemma_cut_in_middle(text_before, text_cut, text_behind, offset);
    }
}

proof fn lemma_insertion_keeps_pieces(
    pieces: Seq<Piece>,
    original: Seq<u8>,
    added: Seq<u8>,
    index: int,
    offset: int,
    piece: Piece,
)
    requires
        pieces_in_bounds(pieces, original, added),
        piece_in_bounds(piece, original, added),
        0 <= index < pieces.len(),
        0 <= offset <= pieces[index].length,
        pieces[index].start + pieces[index].length <= usize::MAX,
    ensures
        pieces_in_bounds(pieces_with_insertion(pieces, index, offset, piece), original, added),
        piece.length > 0 && (no_empty_piece(pieces) || (pieces.len() == 1 && index == 0
            && pieces[0].length == 0)) ==> no_empty_piece(
            pieces_with_insertion(pieces, index, offset, piece),
        ),
{
    let result = pieces_with_insertion(pieces, index, offset, piece);
    assert(piece_in_bounds(pieces[index], original, added));
    lemma_piece_cut(pieces[index], offset, original, added);
    assert forall|i: int| 0 <= i < result.len() implies piece_in_bounds(
        #[trigger] result[i],
        original,
        added,
    ) by {
        lemma_insertion_element(pieces, index, offset, piece, i);
    }
    if piece.length > 0 && (no_empty_piece(pieces) || (pieces.len() == 1 && index == 0
        && pieces[0].length == 0)) {
        assert forall|i: int| 0 <= i < result.len() implies (#[trigger] result[i]).length > 0 by {
            lemma_insertion_element(pieces, index, offset, piece, i);
        }
    }
}

/// Each piece of a list after an insertion in its middle is the new piece,
/// one of the two parts of the piece that was cut, or a piece of the old
/// list other than that one.
pub proof fn lemma_insertion_element(
    pieces: Seq<Piece>,
    index: int,
    offset: int,
    piece: Piece,
    i: int,
)
    requires
        0 <= index < pieces.len(),
        0 <= i < pieces_with_insertion(pieces, index, offset, piece).len(),
    ensures
        ({
            let element = pieces_with_insertion(pieces, index, offset, piece)[i];
            ||| element == piece
            ||| piece_prefix(pieces[index], offset).contains(element)
            ||| piece_suffix(pieces[index], offset).contains(element)
            ||| exists|j: int| 0 <= j < pieces.len() && j != index && element == pieces[j]
        }),
{
    let result = pieces_with_insertion(pieces, index, offset, piece);
    let prefix = piece_prefix(pieces[index], offset);
    let suffix = piece_suffix(pieces[index], offset);
    let element = result[i];
    if i < index {
        assert(element == pieces[i]);
    } else if i < index + prefix.len() {
        assert(element == prefix[i - index]);
    } else if i == index + prefix.len() {
        assert(element == piece);
    } else if i < index + prefix.len() + 1 + suffix.len() {
        assert(element == suffix[i - index - prefix.len() - 1]);
    } else {
        let j = i - prefix.len() - suffix.len() + index - index;
        assert(element == pieces[j]);
        assert(j != index);
    }
}

/// Each piece of a list after a deletion is one of the two parts left of
/// the pieces that were cut, or a piece of the old list.
pub proof fn lemma_deletion_element(
    pieces: Seq<Piece>,
    first: int,
    first_offset: int,
    last: int,
    last_offset: int,
    i: int,
)
    requires
        0 <= first <= last < pieces.len(),
        0 <= i < pieces_with_deletion(pieces, first, first_offset, last, last_offset).len(),
    ensures
        ({
            let element = pieces_with_deletion(pieces, first, first_offset, last, last_offset)[i];
            ||| piece_prefix(pieces[first], first_offset).contains(element)
            ||| piece_suffix(pieces[last], last_offset).contains(element)
            ||| exists|j: int| 0 <= j < pieces.len() && element == pieces[j]
        }),
{
    let result = pieces_with_deletion(pieces, first, first_offset, last, last_offset);
    let prefix = piece_prefix(pieces[first], first_offset);
    let suffix = piece_suffix(pieces[last], last_offset);
    let element = result[i];
    if i < first {
        assert(element == pieces[i]);
    } else if i < first + prefix.len() {
        assert(element == prefix[i - first]);
    } else if i < first + prefix.len() + suffix.len() {
        assert(element == suffix[i - first - prefix.len()]);
    } else {
        let j = i - first - prefix.len() - suffix.len() + last + 1;
        assert(element == pieces[j]);
    }
}

/// A deletion from the list is a deletion from the text: what the list
/// spells afterwards is the old text without the bytes between the two
/// cuts. Nothing leaves its buffer, and no empty piece is made.
pub proof fn lemma_deletion_text(
    pieces: Seq<Piece>,
    original: Seq<u8>,
    added: Seq<u8>,
    first: int,
    first_offset: int,
    last: int,
    last_offset: int,
)
    requires
        pieces_in_bounds(pieces, original, added),
        0 <= first <= last < pieces.len(),
        0 <= first_offset < pieces[first].length,
        0 < last_offset <= pieces[last].length,
        first == last ==> first_offset < last_offset,
        pieces[first].start + pieces[first].length <= usize::MAX,
        pieces[last].start + pieces[last].length <= usize::MAX,
    ensures
        pieces_text(
            pieces_with_deletion(pieces, first, first_offset, last, last_offset),
            original,
            added,
        ) == without_range(
            pieces_text(pieces, original, added),
            piece_offset(pieces, first) + first_offset,
            piece_offset(pieces, last) + last_offset,
        ),
        pieces_in_bounds(
            pieces_with_deletion(pieces, first, first_offset, last, last_offset),
            original,
            added,
        ),
        pieces_length(pieces_with_deletion(pieces, first, first_offset, last, last_offset))
            == pieces_length(pieces) - (piece_offset(pieces, last) + last_offset - (piece_offset(
            pieces,
            first,
        ) + first_offset)),
        piece_offset(pieces, first) + first_offset < piece_offset(pieces, last) + last_offset
            <= pieces_length(pieces),
        no_empty_piece(pieces) ==> no_empty_piece(
            pieces_with_deletion(pieces, first, first_offset, last, last_offset),
        ),
{
    let result = pieces_with_deletion(pieces, first, first_offset, last, last_offset);
    let text = pieces_text(pieces, original, added);
    let start = piece_offset(pieces, first) + first_offset;
    let end = piece_offset(pieces, last) + last_offset;
    let before = pieces.take(first);
    let behind = pieces.skip(last + 1);
    let prefix = piece_prefix(pieces[first], first_offset);
    let suffix = piece_suffix(pieces[last], last_offset);
    let text_before = pieces_text(before, original, added);
    let text_first = piece_text(pieces[first], original, added);
    let text_last = piece_text(pieces[last], original, added);
    let text_behind = pieces_text(behind, original, added);
    assert(piece_in_bounds(pieces[first], original, added));
    assert(piece_in_bounds(pieces[last], original, added));
    lemma_pieces_text_len(pieces, original, added);
    lemma_piece_end(pieces, first);
    lemma_piece_end(pieces, last);
    lemma_piece_offset_monotone(pieces, first, last);
    lemma_piece_offset_monotone(pieces, last + 1, pieces.len() as int);
    if first < last {
        lemma_piece_offset_monotone(pieces, first + 1, last);
    }
    lemma_piece_cut(pieces[first], first_offset, original, added);
    lemma_piece_cut(pieces[last], last_offset, original, added);
    assert(text.subrange(0, start as int) == text_before + text_first.subrange(0, first_offset))
        by {
        lemma_pieces_text_around(pieces, original, added, first);
        lemma_cut_in_middle(
            text_before,
            text_first,
            pieces_text(pieces.skip(first + 1), original, added),
            first_offset,
        );
    }
    assert(text.subrange(end as int, text.len() as int) == text_last.subrange(
        last_offset,
        pieces[last].length as int,
    ) + text_behind) by {
        lemma_pieces_text_around(pieces, original, added, last);
        lemma_cut_in_middle(
            pieces_text(pieces.take(last), original, added),
            text_last,
            text_behind,
            last_offset,
        );
    }
    assert(pieces_text(result, original, added) == text_before + text_first.subrange(
        0,
        first_offset,
    ) + text_last.subrange(last_offset, pieces[last].length as int) + text_behind) by {
        lemma_pieces_text_concat(before + prefix + suffix, behind, original, added);
        lemma_pieces_text_concat(before + prefix, suffix, original, added);
        lemma_pieces_text_concat(before, prefix, original, added);
    }
    assert(pieces_text(result, original, added) =~= without_range(text, start as int, end as int));
    assert(pieces_length(result) == pieces_length(pieces) - (end - start)) by {
        lemma_pieces_length_concat(before + prefix + suffix, behind);
        lemma_pieces_length_concat(before + prefix, suffix);
        lemma_pieces_length_concat(before, prefix);
        lemma_pieces_text_around(pieces, original, added, last);
        lemma_pieces_text_len(behind, original, added);
    }
    assert forall|i: int| 0 <= i < result.len() implies piece_in_bounds(
        #[trigger] result[i],
        original,
        added,
    ) by {
        lemma_deletion_element(pieces, first, first_offset, last, last_offset, i);
    }
    if no_empty_piece(pieces) {
        assert forall|i: int| 0 <= i < result.len() implies (#[trigger] result[i]).length > 0 by {
            lemma_deletion_element(pieces, first, first_offset, last, last_offset, i);
        }
    }
}

/// Every position up to the end of the document has an insertion index,
/// which lies `position - piece_offset` bytes into the piece found there.
pub proof fn lemma_insertion_index_exists(pieces: Seq<Piece>, position: int)
    requires
        0 <= position <= pieces_length(pieces),
    ensures
        is_insertion_index(pieces, position, insertion_index(pieces, position)),
        ({
            let index = insertion_index(pieces, position);
            let offset = position - piece_offset(pieces, index);
            &&& index < pieces.len() ==> 0 <= offset <= pieces[index].length
            &&& index == pieces.len() ==> offset == 0
        }),
{
    let found = lemma_insertion_index_from(pieces, position, 0);
    assert(is_insertion_index(pieces, position, found));
    let index = insertion_index(pieces, position);
    if index < pieces.len() {
        lemma_piece_end(pieces, index);
        if index > 0 {
            assert(piece_end(pieces, index - 1) < position);
        }
    } else {
        assert(pieces.take(index) =~= pieces);
        if index > 0 {
            assert(piece_end(pieces, index - 1) < position);
        }
    }
}

proof fn lemma_insertion_index_from(pieces: Seq<Piece>, position: int, from: int) -> (index: int)
    requires
        0 <= from <= pieces.len(),
        forall|j: int| 0 <= j < from ==> #[trigger] piece_end(pieces, j) < position,
    ensures
        is_insertion_index(pieces, position, index),
    decreases pieces.len() - from,
{
    if from == pieces.len() || position <= piece_end(pieces, from) {
        from
    } else {
        lemma_insertion_index_from(pieces, position, from + 1)
    }
}

/// Every byte of the document lies in a piece.
pub proof fn lemma_start_index_exists(pieces: Seq<Piece>, start: int)
    requires
        0 <= start < pieces_length(pieces),
    ensures
        is_start_index(pieces, start, start_index(pieces, start)),
{
    let found = lemma_start_index_from(pieces, start, 0);
    assert(is_start_index(pieces, start, found));
}

proof fn lemma_start_index_from(pieces: Seq<Piece>, start: int, from: int) -> (index: int)
    requires
        0 <= from <= pieces.len(),
        piece_offset(pieces, from) <= start < pieces_length(pieces),
    ensures
        is_start_index(pieces, start, index),
    decreases pieces.len() - from,
{
    if from == pieces.len() {
        assert(pieces.take(from) =~= pieces);
        from
    } else if start < piece_end(pieces, from) {
        from
    } else {
        lemma_piece_end(pieces, from);
        lemma_start_index_from(pieces, start, from + 1)
    }
}

/// Every end of a range that is not empty lies in a piece.
pub proof fn lemma_end_index_exists(pieces: Seq<Piece>, end: int)
    requires
        0 < end <= pieces_length(pieces),
    ensures
        is_end_index(pieces, end, end_index(pieces, end)),
{
    let found = lemma_end_index_from(pieces, end, 0);
    assert(is_end_index(pieces, end, found));
}

proof fn lemma_end_index_from(pieces: Seq<Piece>, end: int, from: int) -> (index: int)
    requires
        0 <= from <= pieces.len(),
        piece_offset(pieces, from) < end <= pieces_length(pieces),
    ensures
        is_end_index(pieces, end, index),
    decreases pieces.len() - from,
{
    if from == pieces.len() {
        assert(pieces.take(from) =~= pieces);
        from
    } else if end <= piece_end(pieces, from) {
        from
    } else {
        lemma_piece_end(pieces, from);
        lemma_end_index_from(pieces, end, from + 1)
    }
}

/// Inserting a piece at a position of the document splices its text into
/// the document there: the bytes before the position stay, then comes the
/// new text, then the bytes that were at and behind the position. The list
/// grows by the piece's length, stays inside the buffers, and holds no empty
/// piece if the new piece is not empty and the old list held none (or was a
/// single piece).
pub proof fn lemma_insert_splices(
    pieces: Seq<Piece>,
    original: Seq<u8>,
    added: Seq<u8>,
    position: int,
    piece: Piece,
)
    requires
        pieces_in_bounds(pieces, original, added),
        pieces_addressable(pieces),
        piece_in_bounds(piece, original, added),
        0 <= position <= pieces_length(pieces),
    ensures
        pieces_text(pieces_after_insert(pieces, position, piece), original, added)
            == with_insertion(
            pieces_text(pieces, original, added),
            position,
            piece_text(piece, original, added),
        ),
        pieces_in_bounds(pieces_after_insert(pieces, position, piece), original, added),
        pieces_length(pieces_after_insert(pieces, position, piece)) == pieces_length(pieces)
            + piece.length,
        piece.length > 0 && (no_empty_piece(pieces) || pieces.len() == 1) ==> no_empty_piece(
            pieces_after_insert(pieces, position, piece),
        ),
{
    lemma_insertion_index_exists(pieces, position);
    let index = insertion_index(pieces, position);
    let offset = position - piece_offset(pieces, index);
    lemma_insertion_text(pieces, original, added, index, offset, piece);
    if pieces.len() == 1 && pieces[0].length == 0 {
        lemma_piece_end(pieces, 0);
        lemma_insertion_index_unique(pieces, position, index, 0);
    } else if pieces.len() == 1 {
        assert(no_empty_piece(pieces));
    }
}

/// Deleting a range of the document that is not empty removes exactly its
/// bytes: what was before `start` and what was at and behind `end` stay, in
/// that order. The list shrinks by the length of the range, stays inside
/// the buffers, and holds no empty piece if the old list held none.
pub proof fn lemma_delete_removes(
    pieces: Seq<Piece>,
    original: Seq<u8>,
    added: Seq<u8>,
    start: int,
    end: int,
)
    requires
        pieces_in_bounds(pieces, original, added),
        pieces_addressable(pieces),
        0 <= start < end <= pieces_length(pieces),
    ensures
        pieces_text(pieces_after_delete(pieces, start, end), original, added) == without_range(
            pieces_text(pieces, original, added),
            start,
            end,
        ),
        pieces_in_bounds(pieces_after_delete(pieces, start, end), original, added),
        pieces_length(pieces_after_delete(pieces, start, end)) == pieces_length(pieces) - (end
            - start),
        no_empty_piece(pieces) ==> no_empty_piece(pieces_after_delete(pieces, start, end)),
{
    lemma_start_index_exists(pieces, start);
    lemma_end_index_exists(pieces, end);
    let first = start_index(pieces, start);
    let last = end_index(pieces, end);
    lemma_piece_end(pieces, first);
    lemma_piece_end(pieces, last);
    if last < first {
        lemma_piece_offset_monotone(pieces, last + 1, first);
    }
    lemma_deletion_text(
        pieces,
        original,
        added,
        first,
        start - piece_offset(pieces, first),
        last,
        end - piece_offset(pieces, last),
    );
}

} // verus!
