use text_editor::piece_table::PieceTable;
use text_editor::pieces::{delete_range, insert_piece, BufferType, Piece};
use text_editor::text_trait::{InvalidPosition, RangeError, TextTrait};

fn piece(buffer_type: BufferType, start: usize, length: usize) -> Piece {
    Piece { buffer_type, start, length }
}

fn total_of_pieces(table: &PieceTable) -> usize {
    table.pieces().iter().map(|p| p.length).sum()
}

#[test]
fn insert_in_the_middle_of_hello_world() {
    let mut table = PieceTable::new("Hello world");
    assert_eq!(table.add_text("beautiful ", 5), Ok(()));
    assert_eq!(table.get_text(), "Hellobeautiful  world");
    assert_eq!(table.total_length(), 21);
    let mut table = PieceTable::new("Hello world");
    assert_eq!(table.add_text("beautiful ", 6), Ok(()));
    assert_eq!(table.get_text(), "Hello beautiful world");
    assert_eq!(table.total_length(), 21);
}

#[test]
fn delete_inside_a_single_piece() {
    let mut table = PieceTable::new("ABCXXXXDEF");
    assert_eq!(table.delete_text(3, 7), Ok(()));
    assert_eq!(table.get_text(), "ABCDEF");
    assert_eq!(
        table.pieces().to_vec(),
        vec![piece(BufferType::Original, 0, 3), piece(BufferType::Original, 7, 3)]
    );
}

#[test]
fn two_inserts_then_delete_across_pieces() {
    let mut table = PieceTable::new("ABCDEFGHIJ");
    table.add_text("123", 2).unwrap();
    table.add_text("XYZ", 8).unwrap();
    assert_eq!(table.get_text(), "AB123CDEXYZFGHIJ");
    assert_eq!(table.delete_text(3, 11), Ok(()));
    assert_eq!(table.get_text(), "AB1FGHIJ");
    assert_eq!(
        table.pieces().to_vec(),
        vec![
            piece(BufferType::Original, 0, 2),
            piece(BufferType::Added, 0, 1),
            piece(BufferType::Original, 5, 5),
        ]
    );
}

#[test]
fn delete_range_excludes_its_end() {
    let mut table = PieceTable::new("ABCXXXXDEF");
    assert_eq!(table.delete_text(3, 6), Ok(()));
    assert_eq!(table.get_text(), "ABCXDEF");
    let mut table = PieceTable::new("XXXXABCDEF");
    assert_eq!(table.delete_text(0, 3), Ok(()));
    assert_eq!(table.get_text(), "XABCDEF");
    let mut table = PieceTable::new("DEFGHIXXXX");
    table.add_text("ABC", 0).unwrap();
    assert_eq!(table.delete_text(9, 12), Ok(()));
    assert_eq!(table.get_text(), "ABCDEFGHIX");
}

#[test]
fn delete_that_ends_on_a_piece_boundary_keeps_the_next_piece() {
    let mut table = PieceTable::new("ABCDEFGHIJ");
    table.add_text("123", 2).unwrap();
    table.add_text("XYZ", 8).unwrap();
    assert_eq!(table.delete_text(3, 10), Ok(()));
    assert_eq!(table.get_text(), "AB1ZFGHIJ");
    assert_eq!(
        table.pieces().to_vec(),
        vec![
            piece(BufferType::Original, 0, 2),
            piece(BufferType::Added, 0, 1),
            piece(BufferType::Added, 5, 1),
            piece(BufferType::Original, 5, 5),
        ]
    );
}

#[test]
fn insert_beyond_the_end_is_refused() {
    let mut table = PieceTable::new("abc");
    assert_eq!(
        table.add_text("x", 4),
        Err(InvalidPosition { position: 4, length: 3 })
    );
    assert_eq!(table.get_text(), "abc");
    assert_eq!(table.add_buffer(), "");
    assert_eq!(table.pieces().len(), 1);
    assert_eq!(table.add_text("x", 3), Ok(()));
    assert_eq!(table.get_text(), "abcx");
}

#[test]
fn empty_insert_succeeds_even_beyond_the_end() {
    let mut table = PieceTable::new("abc");
    table.add_text("Z", 1).unwrap();
    let pieces = table.pieces().to_vec();
    for position in [0usize, 1, 4, 5, 100] {
        assert_eq!(table.add_text("", position), Ok(()));
        assert_eq!(table.get_text(), "aZbc");
        assert_eq!(table.add_buffer(), "Z");
        assert_eq!(table.pieces().to_vec(), pieces);
    }
}

#[test]
fn empty_delete_leaves_everything_as_it_was() {
    let mut table = PieceTable::new("abc");
    table.add_text("Z", 1).unwrap();
    let pieces = table.pieces().to_vec();
    for position in 0..=4usize {
        assert_eq!(table.delete_text(position, position), Ok(()));
        assert_eq!(table.get_text(), "aZbc");
        assert_eq!(table.pieces().to_vec(), pieces);
    }
}

#[test]
fn delete_reports_each_kind_of_bad_range() {
    let mut table = PieceTable::new("abcdef");
    assert_eq!(
        table.delete_text(7, 8),
        Err(RangeError::StartBeyondLength { start: 7, length: 6 })
    );
    assert_eq!(
        table.delete_text(7, 2),
        Err(RangeError::StartBeyondLength { start: 7, length: 6 })
    );
    assert_eq!(
        table.delete_text(2, 7),
        Err(RangeError::EndBeyondLength { end: 7, length: 6 })
    );
    assert_eq!(
        table.delete_text(4, 2),
        Err(RangeError::StartAfterEnd { start: 4, end: 2 })
    );
    assert_eq!(table.get_text(), "abcdef");
    assert_eq!(table.delete_text(6, 6), Ok(()));
    assert_eq!(table.delete_text(0, 6), Ok(()));
    assert_eq!(table.get_text(), "");
    assert_eq!(table.pieces().len(), 0);
}

#[test]
fn insert_at_start_and_end_keeps_the_other_pieces() {
    let mut table = PieceTable::new("middle");
    table.add_text("-", 3).unwrap();
    let before = table.pieces().to_vec();
    table.add_text("<<", 0).unwrap();
    let mut expected = vec![piece(BufferType::Added, 1, 2)];
    expected.extend(before.iter().cloned());
    assert_eq!(table.pieces().to_vec(), expected);
    assert_eq!(table.get_text(), "<<mid-dle");
    let total = table.total_length();
    table.add_text(">>", total).unwrap();
    expected.push(piece(BufferType::Added, 3, 2));
    assert_eq!(table.pieces().to_vec(), expected);
    assert_eq!(table.get_text(), "<<mid-dle>>");
    assert_eq!(table.add_buffer(), "-<<>>");
    assert_eq!(table.original_buffer(), "middle");
}

#[test]
fn insert_on_a_piece_boundary_splits_nothing() {
    let mut table = PieceTable::new("abcdef");
    table.add_text("12", 3).unwrap();
    assert_eq!(table.pieces().len(), 3);
    table.add_text("X", 3).unwrap();
    assert_eq!(table.get_text(), "abcX12def");
    assert_eq!(
        table.pieces().to_vec(),
        vec![
            piece(BufferType::Original, 0, 3),
            piece(BufferType::Added, 2, 1),
            piece(BufferType::Added, 0, 2),
            piece(BufferType::Original, 3, 3),
        ]
    );
    table.add_text("Y", 6).unwrap();
    assert_eq!(table.get_text(), "abcX12Ydef");
    assert_eq!(table.pieces().len(), 5);
}

#[test]
fn table_of_the_empty_text() {
    let mut table = PieceTable::new("");
    assert_eq!(table.total_length(), 0);
    assert_eq!(table.get_text(), "");
    assert_eq!(table.pieces().to_vec(), vec![piece(BufferType::Original, 0, 0)]);
    assert_eq!(table.delete_text(0, 0), Ok(()));
    assert_eq!(
        table.delete_text(0, 1),
        Err(RangeError::EndBeyondLength { end: 1, length: 0 })
    );
    table.add_text("abc", 0).unwrap();
    assert_eq!(table.pieces().to_vec(), vec![piece(BufferType::Added, 0, 3)]);
    assert_eq!(table.get_text(), "abc");
}

#[test]
fn lengths_agree_after_every_edit() {
    let mut table = PieceTable::new("The quick brown fox");
    let mut model = String::from("The quick brown fox");
    let mut seed: u64 = 12345;
    for step in 0..400 {
        seed = seed.wrapping_mul(6364136223846793005).wrapping_add(1442695040888963407);
        let length = model.len();
        let a = ((seed >> 33) as usize) % (length + 1);
        let b = ((seed >> 17) as usize) % (length + 1);
        if step % 3 == 0 && length > 0 {
            let (start, end) = if a <= b { (a, b) } else { (b, a) };
            assert_eq!(table.delete_text(start, end), Ok(()));
            model.replace_range(start..end, "");
            if start < end {
                assert!(table.pieces().iter().all(|p| p.length > 0));
            }
        } else {
            let text = format!("<{}>", step);
            assert_eq!(table.add_text(&text, a), Ok(()));
            model.insert_str(a, &text);
            assert!(table.pieces().iter().all(|p| p.length > 0));
        }
        assert_eq!(table.get_text(), model);
        assert_eq!(table.total_length(), model.len());
        assert_eq!(total_of_pieces(&table), model.len());
        assert_eq!(table.to_bytes(), model.as_bytes().to_vec());
    }
}

#[test]
fn text_of_more_than_one_byte_per_character() {
    let mut table = PieceTable::new("héllo");
    assert_eq!(table.total_length(), 6);
    table.add_text("ß", 3).unwrap();
    assert_eq!(table.get_text(), "héßllo");
    assert_eq!(table.total_length(), 8);
    table.delete_text(1, 3).unwrap();
    assert_eq!(table.get_text(), "hßllo");
}

#[test]
fn a_cut_inside_a_character_is_read_lossily() {
    let mut table = PieceTable::new("é");
    assert_eq!(table.delete_text(0, 1), Ok(()));
    assert_eq!(table.total_length(), 1);
    assert_eq!(table.to_bytes(), vec![0xa9u8]);
    assert_eq!(table.get_text(), "\u{fffd}");
    let mut table = PieceTable::new("é");
    table.add_text("x", 1).unwrap();
    assert_eq!(table.to_bytes(), vec![0xc3u8, b'x', 0xa9]);
    assert_eq!(table.get_text(), "\u{fffd}x\u{fffd}");
}

#[test]
fn piece_lists_are_rebuilt_by_plain_functions() {
    let pieces = vec![
        piece(BufferType::Original, 0, 4),
        piece(BufferType::Added, 0, 2),
        piece(BufferType::Original, 4, 4),
    ];
    let new_piece = piece(BufferType::Added, 2, 3);
    assert_eq!(
        insert_piece(&pieces, 5, new_piece),
        vec![
            piece(BufferType::Original, 0, 4),
            piece(BufferType::Added, 0, 1),
            new_piece,
            piece(BufferType::Added, 1, 1),
            piece(BufferType::Original, 4, 4),
        ]
    );
    assert_eq!(
        insert_piece(&pieces, 4, new_piece),
        vec![pieces[0], new_piece, pieces[1], pieces[2]]
    );
    assert_eq!(insert_piece(&Vec::new(), 0, new_piece), vec![new_piece]);
    assert_eq!(
        delete_range(&pieces, 1, 9),
        vec![piece(BufferType::Original, 0, 1), piece(BufferType::Original, 7, 1)]
    );
    assert_eq!(delete_range(&pieces, 0, 10), Vec::<Piece>::new());
    assert_eq!(delete_range(&pieces, 4, 6), vec![pieces[0], pieces[2]]);
}

#[test]
fn bytes_of_a_piece_are_copied_out() {
    let mut result = vec![b'>'];
    let span = piece(BufferType::Original, 2, 3);
    PieceTable::get_text_from_buffer("abcdefg", &mut result, &span);
    assert_eq!(result, b">cde".to_vec());
}
