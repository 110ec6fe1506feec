use text_editor::text::{
    insert_bytes, line_lengths_of, offset_in_lines, remove_bytes, row_and_column, split_lines,
};
use text_editor::utf8::utf8_length;
use text_editor::words::{find_whitespace, word_end, word_start};

#[test]
fn bytes_are_inserted_and_removed() {
    let text = b"Hello world".to_vec();
    assert_eq!(insert_bytes(&text, 5, b", big"), b"Hello, big world".to_vec());
    assert_eq!(insert_bytes(&text, 0, b">"), b">Hello world".to_vec());
    assert_eq!(insert_bytes(&text, 11, b"!"), b"Hello world!".to_vec());
    assert_eq!(insert_bytes(&text, 3, b""), text);
    assert_eq!(remove_bytes(&text, 5, 11), b"Hello".to_vec());
    assert_eq!(remove_bytes(&text, 0, 6), b"world".to_vec());
    assert_eq!(remove_bytes(&text, 4, 4), text);
    assert_eq!(remove_bytes(&text, 0, 11), Vec::<u8>::new());
}

#[test]
fn lines_are_split_at_line_feeds() {
    assert_eq!(split_lines(&b"".to_vec()), vec![Vec::<u8>::new()]);
    assert_eq!(split_lines(&b"abc".to_vec()), vec![b"abc".to_vec()]);
    assert_eq!(
        split_lines(&b"ab\n\ncde\n".to_vec()),
        vec![b"ab".to_vec(), b"".to_vec(), b"cde".to_vec(), b"".to_vec()]
    );
    assert_eq!(line_lengths_of(&b"".to_vec()), vec![0]);
    assert_eq!(line_lengths_of(&b"abc".to_vec()), vec![3]);
    assert_eq!(line_lengths_of(&b"ab\n\ncde\n".to_vec()), vec![2, 0, 3, 0]);
    assert_eq!(line_lengths_of(&b"\n".to_vec()), vec![0, 0]);
}

#[test]
fn offsets_are_read_off_the_line_lengths() {
    let lengths = vec![2usize, 0, 3, 0];
    assert_eq!(offset_in_lines(&lengths, 0, 0), 0);
    assert_eq!(offset_in_lines(&lengths, 0, 2), 2);
    assert_eq!(offset_in_lines(&lengths, 1, 0), 3);
    assert_eq!(offset_in_lines(&lengths, 2, 1), 5);
    assert_eq!(offset_in_lines(&lengths, 3, 0), 8);
    assert_eq!(offset_in_lines(&lengths, 4, 0), 9);
    assert_eq!(offset_in_lines(&lengths, 9, 2), 11);
    assert_eq!(offset_in_lines(&vec![usize::MAX, 5], 2, 7), usize::MAX);
    assert_eq!(offset_in_lines(&Vec::new(), 3, 4), 4);
}

#[test]
fn characters_take_one_to_four_bytes() {
    assert_eq!(utf8_length('a'), 1);
    assert_eq!(utf8_length('\u{7f}'), 1);
    assert_eq!(utf8_length('\u{80}'), 2);
    assert_eq!(utf8_length('é'), 2);
    assert_eq!(utf8_length('\u{7ff}'), 2);
    assert_eq!(utf8_length('\u{800}'), 3);
    assert_eq!(utf8_length('€'), 3);
    assert_eq!(utf8_length('\u{ffff}'), 3);
    assert_eq!(utf8_length('\u{10000}'), 4);
    assert_eq!(utf8_length('😀'), 4);
    for c in ['a', 'é', '€', '😀', '\u{2003}'] {
        assert_eq!(utf8_length(c), c.len_utf8());
    }
}

#[test]
fn whitespace_is_found_by_byte_offset() {
    assert_eq!(find_whitespace(""), Vec::<usize>::new());
    assert_eq!(find_whitespace("abc"), Vec::<usize>::new());
    assert_eq!(find_whitespace("ab cd\tef\n"), vec![2, 5, 8]);
    assert_eq!(find_whitespace("é é\u{2003}x y"), vec![2, 5, 9]);
    assert_eq!(find_whitespace("   "), vec![0, 1, 2]);
}

#[test]
fn words_begin_at_the_last_whitespace_before() {
    let offsets = vec![2usize, 5, 8];
    assert_eq!(word_start(&offsets, 0), 0);
    assert_eq!(word_start(&offsets, 2), 0);
    assert_eq!(word_start(&offsets, 3), 2);
    assert_eq!(word_start(&offsets, 5), 2);
    assert_eq!(word_start(&offsets, 6), 5);
    assert_eq!(word_start(&offsets, 100), 8);
    assert_eq!(word_start(&Vec::new(), 7), 0);
}

#[test]
fn words_end_behind_the_first_whitespace_after() {
    let offsets = vec![2usize, 5, 8];
    assert_eq!(word_end(&offsets, 0, 12), 3);
    assert_eq!(word_end(&offsets, 2, 12), 3);
    assert_eq!(word_end(&offsets, 3, 12), 6);
    assert_eq!(word_end(&offsets, 8, 12), 9);
    assert_eq!(word_end(&offsets, 9, 12), 12);
    assert_eq!(word_end(&Vec::new(), 4, 12), 12);
}

#[test]
fn rows_and_columns_are_read_off_the_line_lengths() {
    let lengths = vec![2usize, 0, 3, 0];
    assert_eq!(row_and_column(&lengths, 0), (0, 0));
    assert_eq!(row_and_column(&lengths, 2), (0, 2));
    assert_eq!(row_and_column(&lengths, 3), (1, 0));
    assert_eq!(row_and_column(&lengths, 4), (2, 0));
    assert_eq!(row_and_column(&lengths, 7), (2, 3));
    assert_eq!(row_and_column(&lengths, 8), (3, 0));
    assert_eq!(row_and_column(&lengths, 12), (3, 4));
    assert_eq!(row_and_column(&Vec::new(), 5), (0, 5));
    assert_eq!(row_and_column(&vec![usize::MAX, 4], 9), (0, 9));
    for position in 0..=8usize {
        let (row, column) = row_and_column(&lengths, position);
        assert_eq!(offset_in_lines(&lengths, row, column), position);
        assert!(column <= lengths[row]);
    }
}
