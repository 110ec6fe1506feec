//! Documents as byte sequences: the edits that every component is specified
//! against.

use vstd::prelude::*;

verus! {

/// `text` with `inserted` placed before the byte at `position`.
pub open spec fn with_insertion(text: Seq<u8>, position: int, inserted: Seq<u8>) -> Seq<u8> {
    text.subrange(0, position) + inserted + text.subrange(position, text.len() as int)
}

/// `text` without the bytes of the half-open range `[start, end)`.
pub open spec fn without_range(text: Seq<u8>, start: int, end: int) -> Seq<u8> {
    text.subrange(0, start) + text.subrange(end, text.len() as int)
}

/// In a text of three parts, what lies before a point of the middle part is
/// the first part and the middle part up to that point; what lies behind it
/// is the rest of the middle part and the last part.
pub proof fn lemma_cut_in_middle(before: Seq<u8>, middle: Seq<u8>, behind: Seq<u8>, offset: int)
    requires
        0 <= offset <= middle.len(),
    ensures
        (before + middle + behind).subrange(0, before.len() + offset) == before + middle.subrange(
            0,
            offset,
        ),
        (before + middle + behind).subrange(
            before.len() + offset,
            (before + middle + behind).len() as int,
        ) == middle.subrange(offset, middle.len() as int) + behind,
{
    let whole = before + middle + behind;
    assert(whole.subrange(0, before.len() + offset) =~= before + middle.subrange(0, offset));
    assert(whole.subrange(before.len() + offset, whole.len() as int) =~= middle.subrange(
        offset,
        middle.len() as int,
    ) + behind);
}

/// The byte that ends a line.
pub const LINE_FEED: u8 = 10;

/// `text` after an attempt to place `inserted` at `position`: a position
/// beyond the end of the text leaves the text as it is.
pub open spec fn text_after_insert(text: Seq<u8>, position: usize, inserted: Seq<u8>) -> Seq<u8> {
    if position <= text.len() {
        with_insertion(text, position as int, inserted)
    } else {
        text
    }
}

/// `text` after an attempt to delete `range`: a range that the text does
/// not hold leaves the text as it is.
pub open spec fn text_after_delete(text: Seq<u8>, range: Option<(usize, usize)>) -> Seq<u8> {
    match range {
        Some((start, end)) => if start <= end <= text.len() {
            without_range(text, start as int, end as int)
        } else {
            text
        },
        None => text,
    }
}

/// The lines of a text: what stands between its line feeds. A text of `n`
/// line feeds has `n + 1` lines.
pub open spec fn lines(text: Seq<u8>) -> Seq<Seq<u8>>
    decreases text.len(),
{
    if text.len() == 0 {
        seq![Seq::empty()]
    } else {
        let before = lines(text.drop_last());
        if text.last() == LINE_FEED {
            before.push(Seq::empty())
        } else {
            before.drop_last().push(before.last().push(text.last()))
        }
    }
}

/// The length of each line of a text.
pub open spec fn line_lengths(text: Seq<u8>) -> Seq<usize> {
    Seq::new(lines(text).len(), |i: int| lines(text)[i].len() as usize)
}

/// The bytes that the given lines take when each is followed by a line
/// feed.
pub open spec fn rows_length(lengths: Seq<usize>) -> nat
    decreases lengths.len(),
{
    if lengths.len() == 0 {
        0
    } else {
        rows_length(lengths.drop_last()) + lengths.last() as nat + 1
    }
}

/// The offset in the text of column `column` of row `row`, by a table of
/// line lengths: the bytes of the rows above with their line feeds, and the
/// column. A row below the last counts as the row behind the last.
pub open spec fn offset_of(lengths: Seq<usize>, row: int, column: int) -> int {
    let rows = if row < lengths.len() {
        row
    } else {
        lengths.len() as int
    };
    rows_length(lengths.take(rows)) + column
}

/// `n`, or the largest `usize` where `n` is larger.
pub open spec fn saturate(n: int) -> usize {
    if n > usize::MAX {
        usize::MAX
    } else {
        n as usize
    }
}

/// A text has at least one line, and its lines together with the line feeds
/// between them are as long as the text.
pub proof fn lemma_lines_length(text: Seq<u8>)
    requires
        text.len() <= usize::MAX,
    ensures
        lines(text).len() >= 1,
        lines(text).last().len() <= text.len(),
        rows_length(line_lengths(text)) == text.len() + 1,
        forall|i: int|
            0 <= i < lines(text).len() ==> (#[trigger] lines(text)[i]).len() <= text.len(),
    decreases text.len(),
{
    if text.len() == 0 {
        reveal_with_fuel(rows_length, 2);
        assert(line_lengths(text) =~= seq![0usize]);
        assert(line_lengths(text).drop_last() =~= Seq::<usize>::empty());
    } else {
        let shorter = text.drop_last();
        lemma_lines_length(shorter);
        let before = lines(shorter);
        let now = lines(text);
        assert(line_lengths(shorter).last() == before.last().len());
        if text.last() == LINE_FEED {
            assert(line_lengths(text).drop_last() =~= line_lengths(shorter));
            assert(line_lengths(text).last() == 0);
        } else {
            assert(line_lengths(text).drop_last() =~= line_lengths(shorter).drop_last());
            assert(now.last().len() == before.last().len() + 1);
            assert(line_lengths(text).last() == before.last().len() + 1);
        }
        assert forall|i: int| 0 <= i < now.len() implies (#[trigger] now[i]).len()
            <= text.len() by {
            if i < now.len() - 1 {
                assert(now[i] == before[i]);
            }
        }
    }
}

/// A byte at the end of a text either opens a line, if it is a line feed,
/// or makes the last line one byte longer.
pub proof fn lemma_line_lengths_push(text: Seq<u8>)
    requires
        0 < text.len() <= usize::MAX,
    ensures
        line_lengths(text) == if text.last() == LINE_FEED {
            line_lengths(text.drop_last()).push(0usize)
        } else {
            line_lengths(text.drop_last()).drop_last().push(
                (line_lengths(text.drop_last()).last() + 1) as usize,
            )
        },
        line_lengths(text.drop_last()).len() >= 1,
        line_lengths(text.drop_last()).last() < text.len(),
{
    let shorter = text.drop_last();
    lemma_lines_length(shorter);
    lemma_lines_length(text);
    let before = lines(shorter);
    let now = lines(text);
    assert(line_lengths(shorter).last() == before.last().len());
    if text.last() == LINE_FEED {
        assert forall|i: int| 0 <= i < now.len() implies line_lengths(text)[i] == line_lengths(
            shorter,
        ).push(0usize)[i] by {
            if i < now.len() - 1 {
                assert(now[i] == before[i]);
            }
        }
        assert(line_lengths(text) =~= line_lengths(shorter).push(0usize));
    } else {
        let expected = line_lengths(shorter).drop_last().push(
            (line_lengths(shorter).last() + 1) as usize,
        );
        assert forall|i: int| 0 <= i < now.len() implies line_lengths(text)[i] == expected[i] by {
            if i < now.len() - 1 {
                assert(now[i] == before[i]);
            }
        }
        assert(line_lengths(text) =~= expected);
    }
}

/// `text` with `inserted` placed before the byte at `position`.
pub fn insert_bytes(text: &Vec<u8>, position: usize, inserted: &[u8]) -> (result: Vec<u8>)
    requires
        position <= text@.len(),
    ensures
        result@ == with_insertion(text@, position as int, inserted@),
{
    let mut result: Vec<u8> = Vec::new();
    push_bytes(&mut result, text.as_slice(), 0, position);
    push_bytes(&mut result, inserted, 0, inserted.len());
    push_bytes(&mut result, text.as_slice(), position, text.len());
    assert(inserted@.subrange(0, inserted@.len() as int) =~= inserted@);
    result
}

/// `text` without the bytes of the half-open range `[start, end)`.
pub fn remove_bytes(text: &Vec<u8>, start: usize, end: usize) -> (result: Vec<u8>)
    requires
        start <= end <= text@.len(),
    ensures
        result@ == without_range(text@, start as int, end as int),
{
    let mut result: Vec<u8> = Vec::new();
    push_bytes(&mut result, text.as_slice(), 0, start);
    push_bytes(&mut result, text.as_slice(), end, text.len());
    result
}

/// Copies the bytes `from..to` of `bytes` to the end of `result`.
fn push_bytes(result: &mut Vec<u8>, bytes: &[u8], from: usize, to: usize)
    requires
        from <= to <= bytes@.len(),
    ensures
        final(result)@ == old(result)@ + bytes@.subrange(from as int, to as int),
{
    let mut index = from;
    while index < to
        invariant
            from <= index <= to <= bytes@.len(),
            result@ == old(result)@ + bytes@.subrange(from as int, index as int),
        decreases to - index,
    {
        result.push(bytes[index]);
        index += 1;
        assert(bytes@.subrange(from as int, index as int) =~= bytes@.subrange(
            from as int,
            index - 1,
        ).push(bytes@[index - 1]));
    }
    assert(result@ =~= old(result)@ + bytes@.subrange(from as int, to as int));
}

/// The lines of `text`.
pub fn split_lines(text: &Vec<u8>) -> (result: Vec<Vec<u8>>)
    ensures
        result@.len() == lines(text@).len(),
        forall|i: int| 0 <= i < result@.len() ==> (#[trigger] result@[i])@ == lines(text@)[i],
{
    let mut result: Vec<Vec<u8>> = Vec::new();
    let mut current: Vec<u8> = Vec::new();
    let mut index: usize = 0;
    while index < text.len()
        invariant
            index <= text@.len(),
            result@.len() + 1 == lines(text@.take(index as int)).len(),
            forall|i: int|
                0 <= i < result@.len() ==> (#[trigger] result@[i])@ == lines(
                    text@.take(index as int),
                )[i],
            current@ == lines(text@.take(index as int)).last(),
        decreases text@.len() - index,
    {
        proof {
            assert(text@.take(index + 1).drop_last() =~= text@.take(index as int));
        }
        let byte = text[index];
        if byte == LINE_FEED {
            result.push(current);
            current = Vec::new();
        } else {
            current.push(byte);
        }
        index += 1;
    }
    proof {
        assert(text@.take(index as int) =~= text@);
    }
    result.push(current);
    result
}

/// The length of each line of `text`.
pub fn line_lengths_of(text: &Vec<u8>) -> (lengths: Vec<usize>)
    ensures
        lengths@ == line_lengths(text@),
{
    let mut lengths: Vec<usize> = Vec::new();
    let mut current: usize = 0;
    let mut index: usize = 0;
    while index < text.len()
        invariant
            index <= text@.len(),
            lengths@.push(current) == line_lengths(text@.take(index as int)),
            current <= index,
        decreases text@.len() - index,
    {
        proof {
            let shorter = text@.take(index as int);
            let longer = text@.take(index + 1);
            assert(longer.drop_last() =~= shorter);
            lemma_line_lengths_push(longer);
            assert(lengths@.push(current).last() == current);
            assert(lengths@.push(current).drop_last() =~= lengths@);
        }
        if text[index] == LINE_FEED {
            lengths.push(current);
            current = 0;
        } else {
            current += 1;
        }
        index += 1;
    }
    proof {
        assert(text@.take(index as int) =~= text@);
    }
    lengths.push(current);
    lengths
}

/// The offset in the text of column `column` of row `row`, by a table of
/// line lengths: at most the largest `usize`.
pub fn offset_in_lines(lengths: &Vec<usize>, row: usize, column: usize) -> (offset: usize)
    ensures
        offset == saturate(offset_of(lengths@, row as int, column as int)),
{
    let rows = if row < lengths.len() {
        row
    } else {
        lengths.len()
    };
    let mut offset: usize = 0;
    let mut index: usize = 0;
    while index < rows
        invariant
            index <= rows <= lengths@.len(),
            offset == saturate(rows_length(lengths@.take(index as int)) as int),
        decreases rows - index,
    {
        proof {
            assert(lengths@.take(index + 1).drop_last() =~= lengths@.take(index as int));
        }
        offset = offset.saturating_add(lengths[index]).saturating_add(1);
        index += 1;
    }
    offset.saturating_add(column)
}

/// The row that the offset `position` lies in, by a table of line lengths:
/// the last row that begins at or before the position.
pub open spec fn row_of(lengths: Seq<usize>, position: int) -> int
    decreases lengths.len(),
{
    if lengths.len() <= 1 {
        0
    } else if rows_length(lengths.drop_last()) <= position {
        lengths.len() - 1
    } else {
        row_of(lengths.drop_last(), position)
    }
}

/// The column that the offset `position` lies in: its distance from the
/// start of its row.
pub open spec fn column_of(lengths: Seq<usize>, position: int) -> int {
    position - rows_length(lengths.take(row_of(lengths, position)))
}

/// The rows above take more bytes the more rows there are.
pub proof fn lemma_rows_length_monotone(lengths: Seq<usize>, i: int, j: int)
    requires
        0 <= i <= j <= lengths.len(),
    ensures
        rows_length(lengths.take(i)) <= rows_length(lengths.take(j)),
    decreases j - i,
{
    if i < j {
        lemma_rows_length_monotone(lengths, i, j - 1);
        assert(lengths.take(j).drop_last() =~= lengths.take(j - 1));
    }
}

/// The row of a position begins at or before it, and the next row, if
/// there is one, begins behind it.
pub proof fn lemma_row_of_bounds(lengths: Seq<usize>, position: int)
    requires
        0 <= position,
    ensures
        0 <= row_of(lengths, position),
        lengths.len() > 0 ==> row_of(lengths, position) < lengths.len(),
        lengths.len() == 0 ==> row_of(lengths, position) == 0,
        rows_length(lengths.take(row_of(lengths, position))) <= position,
        row_of(lengths, position) + 1 < lengths.len() ==> position < rows_length(
            lengths.take(row_of(lengths, position) + 1),
        ),
    decreases lengths.len(),
{
    let row = row_of(lengths, position);
    if lengths.len() <= 1 {
        assert(lengths.take(0) =~= Seq::<usize>::empty());
    } else {
        let shorter = lengths.drop_last();
        assert(lengths.take(lengths.len() - 1) =~= shorter);
        if rows_length(shorter) <= position {
        } else {
            lemma_row_of_bounds(shorter, position);
            assert(shorter.take(row) =~= lengths.take(row));
            if row + 1 < shorter.len() {
                assert(shorter.take(row + 1) =~= lengths.take(row + 1));
            }
        }
    }
}

/// In the line lengths of a text, every offset of the text lies in a row
/// of the table and in a column of that row, and row and column lead back
/// to the offset.
pub proof fn lemma_row_and_column(text: Seq<u8>, position: int)
    requires
        0 <= position <= text.len() <= usize::MAX,
    ensures
        0 <= row_of(line_lengths(text), position) < line_lengths(text).len(),
        0 <= column_of(line_lengths(text), position) <= line_lengths(text)[row_of(
            line_lengths(text),
            position,
        )],
        offset_of(
            line_lengths(text),
            row_of(line_lengths(text), position),
            column_of(line_lengths(text), position),
        ) == position,
{
    let lengths = line_lengths(text);
    let row = row_of(lengths, position);
    lemma_lines_length(text);
    lemma_row_of_bounds(lengths, position);
    assert(lengths.take(row + 1).drop_last() =~= lengths.take(row));
    if row + 1 == lengths.len() {
        assert(lengths.take(row + 1) =~= lengths);
    }
}

/// The row and the column that the offset `position` lies in, by a table
/// of line lengths.
pub fn row_and_column(lengths: &Vec<usize>, position: usize) -> (place: (usize, usize))
    ensures
        place.0 == row_of(lengths@, position as int),
        place.1 == column_of(lengths@, position as int),
{
    if lengths.len() == 0 {
        proof {
            assert(lengths@.take(0) =~= Seq::<usize>::empty());
        }
        return (0, position);
    }
    let count = lengths.len();
    let mut row: usize = 0;
    let mut start: usize = 0;
    let mut next: Option<usize> = Some(0);
    let mut index: usize = 0;
    proof {
        assert(lengths@.take(0) =~= Seq::<usize>::empty());
    }
    while index < count - 1
        invariant
            index < count == lengths@.len(),
            row <= index,
            row == row_of(lengths@.take(index + 1), position as int),
            start == rows_length(lengths@.take(row as int)),
            start <= position,
            next == if rows_length(lengths@.take(index as int)) <= usize::MAX {
                Some(rows_length(lengths@.take(index as int)) as usize)
            } else {
                None::<usize>
            },
        decreases lengths@.len() - index,
    {
        proof {
            assert(lengths@.take(index + 1).drop_last() =~= lengths@.take(index as int));
            assert(lengths@.take(index + 2).drop_last() =~= lengths@.take(index + 1));
        }
        next = match next {
            Some(begin) => match begin.checked_add(lengths[index]) {
                Some(end) => end.checked_add(1),
                None => None,
            },
            None => None,
        };
        match next {
            Some(begin) => {
                if begin <= position {
                    row = index + 1;
                    start = begin;
                }
            },
            None => {},
        }
        index += 1;
    }
    proof {
        assert(lengths@.take(index + 1) =~= lengths@);
    }
    (row, position - start)
}

/// Bytes placed behind bytes that were placed into a text make one
/// insertion of both.
pub proof fn lemma_insert_behind(text: Seq<u8>, position: int, first: Seq<u8>, second: Seq<u8>)
    requires
        0 <= position <= text.len(),
    ensures
        with_insertion(text, position, first + second) == with_insertion(
            with_insertion(text, position, first),
            position + first.len(),
            second,
        ),
{
    assert(with_insertion(text, position, first + second) =~= with_insertion(
        with_insertion(text, position, first),
        position + first.len(),
        second,
    ));
}

/// A range that grows by one byte at its start, or at its end, removes
/// from the text without the range the byte before its start, or the byte
/// behind it.
pub proof fn lemma_delete_next_to(text: Seq<u8>, start: int, end: int)
    requires
        0 <= start <= end <= text.len(),
    ensures
        start > 0 ==> without_range(text, start - 1, end) == without_range(
            without_range(text, start, end),
            start - 1,
            start,
        ),
        end < text.len() ==> without_range(text, start, end + 1) == without_range(
            without_range(text, start, end),
            start,
            start + 1,
        ),
{
    if start > 0 {
        assert(without_range(text, start - 1, end) =~= without_range(
            without_range(text, start, end),
            start - 1,
            start,
        ));
    }
    if end < text.len() {
        assert(without_range(text, start, end + 1) =~= without_range(
            without_range(text, start, end),
            start,
            start + 1,
        ));
    }
}

/// The offset of a column of a row lies in that row and in that column.
pub proof fn lemma_offset_lies_in_row(lengths: Seq<usize>, row: int, column: int)
    requires
        0 <= row < lengths.len(),
        0 <= column <= lengths[row],
    ensures
        row_of(lengths, offset_of(lengths, row, column)) == row,
        column_of(lengths, offset_of(lengths, row, column)) == column,
        offset_of(lengths, row, column) < rows_length(lengths),
{
    let position = offset_of(lengths, row, column);
    let found = row_of(lengths, position);
    lemma_row_of_bounds(lengths, position);
    assert(lengths.take(row + 1).drop_last() =~= lengths.take(row));
    lemma_rows_length_monotone(lengths, row + 1, lengths.len() as int);
    assert(lengths.take(lengths.len() as int) =~= lengths);
    if found < row {
        lemma_rows_length_monotone(lengths, found + 1, row);
    } else if found > row {
        lemma_rows_length_monotone(lengths, row + 1, found);
    }
}

} // verus!
