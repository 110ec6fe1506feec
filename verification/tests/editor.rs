use text_editor::editor::Editor;
use text_editor::pieces::BufferType;
use text_editor::temporary_buffer_deletion::EditKey;
use text_editor::text_trait::TextTrait;

fn line_lengths(text: &str) -> Vec<usize> {
    text.split('\n').map(|line| line.len()).collect()
}

fn type_text(editor: &mut Editor, text: &str) {
    for c in text.chars() {
        editor.add_char(c);
    }
}

#[test]
fn new_editor_stands_at_the_end_of_the_text() {
    let editor = Editor::new(String::from("Hello World"), 5);
    assert_eq!(editor.text_position, 11);
    assert_eq!((editor.cursor.x, editor.cursor.y), (11, 0));
    assert_eq!(editor.lines_map, vec![11]);
    assert_eq!(editor.right_most_column, 0);
    assert_eq!(editor.get_text(), "Hello World");
    assert_eq!(editor.temporary_add_buffer.position, 11);
    assert_eq!(editor.temporary_add_buffer.max_length, 5);
    assert_eq!(editor.temporary_add_buffer.buffer, "");
    assert!(editor.temporary_delete_buffer.is_empty());

    let editor = Editor::new(String::from("ab\ncde\n"), 5);
    assert_eq!(editor.text_position, 7);
    assert_eq!((editor.cursor.x, editor.cursor.y), (0, 2));
    assert_eq!(editor.lines_map, vec![2, 3, 0]);
    assert_eq!(editor.get_text_lines(), vec!["ab", "cde", ""]);

    let editor = Editor::new(String::new(), 5);
    assert_eq!(editor.text_position, 0);
    assert_eq!((editor.cursor.x, editor.cursor.y), (0, 0));
    assert_eq!(editor.lines_map, vec![0]);
    assert_eq!(editor.get_text_lines(), vec![""]);
}

#[test]
fn five_characters_make_one_insert() {
    let mut editor = Editor::new(String::from("Hello World"), 5);
    for (typed, c) in "abcd".chars().enumerate() {
        editor.add_char(c);
        assert_eq!(editor.content.pieces().len(), 1);
        assert_eq!(editor.content.add_buffer(), "");
        assert_eq!(editor.temporary_add_buffer.buffer.len(), typed + 1);
        assert_eq!(editor.temporary_add_buffer.position, 11);
    }
    assert_eq!(editor.get_text(), "Hello Worldabcd");
    assert_eq!(editor.content.get_text(), "Hello World");
    editor.add_char('e');
    assert_eq!(editor.content.add_buffer(), "abcde");
    assert_eq!(editor.content.pieces().len(), 2);
    assert_eq!(editor.content.pieces()[1].buffer_type, BufferType::Added);
    assert_eq!(editor.content.pieces()[1].start, 0);
    assert_eq!(editor.content.pieces()[1].length, 5);
    assert_eq!(editor.temporary_add_buffer.buffer, "");
    assert_eq!(editor.temporary_add_buffer.position, 16);
    assert_eq!(editor.get_text(), "Hello Worldabcde");
    assert_eq!(editor.content.get_text(), "Hello Worldabcde");
    assert_eq!(editor.text_position, 16);
    assert_eq!((editor.cursor.x, editor.cursor.y), (16, 0));
    assert_eq!(editor.lines_map, vec![16]);
    editor.add_char('f');
    assert_eq!(editor.content.pieces().len(), 2);
    assert_eq!(editor.get_text(), "Hello Worldabcdef");
}

#[test]
fn backspace_behind_typed_text_writes_it_out_first() {
    let mut editor = Editor::new(String::from("Hello"), 5);
    editor.add_char('!');
    assert_eq!(editor.get_text(), "Hello!");
    assert_eq!(editor.content.get_text(), "Hello");
    assert_eq!(editor.lines_map, vec![6]);
    editor.delete_char(EditKey::Backspace);
    assert_eq!(editor.content.get_text(), "Hello!");
    assert_eq!(editor.temporary_add_buffer.buffer, "");
    assert_eq!(editor.temporary_delete_buffer.get_deletion_range(), Some((5, 6)));
    assert_eq!(editor.text_position, 5);
    assert_eq!(editor.cursor.x, 5);
    assert_eq!(editor.get_text(), "Hello");
    assert_eq!(editor.lines_map, vec![5]);
    editor.add_char('x');
    assert!(editor.temporary_delete_buffer.is_empty());
    assert_eq!(editor.content.get_text(), "Hello");
    assert_eq!(editor.temporary_add_buffer.buffer, "x");
    assert_eq!(editor.temporary_add_buffer.position, 5);
    assert_eq!(editor.get_text(), "Hellox");
}

#[test]
fn delete_key_removes_what_stands_behind_the_cursor() {
    let mut editor = Editor::new(String::from("abcdef"), 5);
    editor.move_cursor_left();
    editor.move_cursor_left();
    editor.move_cursor_left();
    assert_eq!(editor.text_position, 3);
    editor.delete_char(EditKey::Delete);
    assert_eq!(editor.temporary_delete_buffer.get_deletion_range(), Some((3, 4)));
    assert_eq!(editor.text_position, 3);
    assert_eq!(editor.get_text(), "abcef");
    editor.delete_char(EditKey::Delete);
    assert_eq!(editor.temporary_delete_buffer.get_deletion_range(), Some((3, 5)));
    assert_eq!(editor.get_text(), "abcf");
    assert_eq!(editor.content.get_text(), "abcdef");
    editor.delete_char(EditKey::Backspace);
    assert_eq!(editor.temporary_delete_buffer.get_deletion_range(), Some((2, 5)));
    assert_eq!(editor.text_position, 2);
    assert_eq!(editor.get_text(), "abf");
    editor.add_char('Z');
    assert_eq!(editor.content.get_text(), "abf");
    assert_eq!(editor.get_text(), "abZf");
    editor.delete_char(EditKey::Other);
    assert_eq!(editor.get_text(), "abZf");
    assert!(editor.temporary_delete_buffer.is_empty());
}

#[test]
fn full_delete_buffer_is_written_out() {
    let mut editor = Editor::new(String::from("abcdef"), 2);
    editor.delete_char(EditKey::Backspace);
    assert_eq!(editor.temporary_delete_buffer.get_deletion_range(), Some((5, 6)));
    assert_eq!(editor.content.get_text(), "abcdef");
    editor.delete_char(EditKey::Backspace);
    assert!(editor.temporary_delete_buffer.is_empty());
    assert_eq!(editor.content.get_text(), "abcd");
    assert_eq!(editor.get_text(), "abcd");
    assert_eq!(editor.text_position, 4);
    assert_eq!(editor.lines_map, vec![4]);
}

#[test]
fn nothing_is_deleted_at_the_start_of_the_text() {
    let mut editor = Editor::new(String::from("abc"), 5);
    editor.move_cursor_left();
    editor.move_cursor_left();
    editor.move_cursor_left();
    editor.move_cursor_left();
    assert_eq!(editor.text_position, 0);
    assert_eq!(editor.cursor.x, 0);
    editor.delete_char(EditKey::Backspace);
    editor.delete_char(EditKey::Delete);
    assert_eq!(editor.get_text(), "abc");
    assert!(editor.temporary_delete_buffer.is_empty());
    assert_eq!(editor.text_position, 0);
}

#[test]
fn backspace_on_a_waiting_character_of_two_bytes_takes_it_back() {
    let mut editor = Editor::new(String::new(), 10);
    editor.add_char('é');
    assert_eq!(editor.text_position, 1);
    assert_eq!(editor.get_text(), "é");
    editor.delete_char(EditKey::Backspace);
    assert_eq!(editor.temporary_add_buffer.buffer, "");
    assert!(editor.temporary_delete_buffer.is_empty());
    assert_eq!(editor.get_text(), "");
    assert_eq!(editor.text_position, 0);
    assert_eq!(editor.content.get_text(), "");
}

#[test]
fn words_are_deleted_in_either_direction() {
    let mut editor = Editor::new(String::from("alpha beta gamma"), 5);
    editor.delete_word(EditKey::Backspace);
    assert_eq!(editor.temporary_delete_buffer.get_deletion_range(), Some((10, 16)));
    assert_eq!(editor.text_position, 10);
    assert_eq!(editor.temporary_add_buffer.position, 10);
    assert_eq!(editor.get_text(), "alpha beta");
    assert_eq!(editor.lines_map, vec![10]);
    editor.move_cursor_left();
    assert_eq!(editor.content.get_text(), "alpha beta");
    assert_eq!(editor.text_position, 9);
    editor.delete_word(EditKey::Delete);
    assert_eq!(editor.temporary_delete_buffer.get_deletion_range(), Some((9, 10)));
    assert_eq!(editor.text_position, 9);
    assert_eq!(editor.get_text(), "alpha bet");
    editor.delete_word(EditKey::Other);
    assert_eq!(editor.get_text(), "alpha bet");

    let mut editor = Editor::new(String::from("one two"), 5);
    type_text(&mut editor, " thr");
    editor.delete_word(EditKey::Backspace);
    assert_eq!(editor.content.get_text(), "one two thr");
    assert_eq!(editor.temporary_delete_buffer.get_deletion_range(), Some((7, 11)));
    assert_eq!(editor.get_text(), "one two");
    assert_eq!(editor.text_position, 7);
}

#[test]
fn cursor_moves_left_and_right_within_the_text() {
    let mut editor = Editor::new(String::from("abc"), 5);
    editor.move_cursor_right();
    assert_eq!(editor.text_position, 3);
    assert_eq!(editor.cursor.x, 3);
    editor.move_cursor_left();
    assert_eq!(editor.text_position, 2);
    assert_eq!(editor.cursor.x, 2);
    assert_eq!(editor.right_most_column, 2);
    assert_eq!(editor.temporary_add_buffer.position, 2);
    editor.add_char('X');
    assert_eq!(editor.get_text(), "abXc");
    assert_eq!(editor.content.get_text(), "abc");
    editor.move_cursor_left();
    assert_eq!(editor.content.get_text(), "abXc");
    assert_eq!(editor.temporary_add_buffer.buffer, "");
    assert_eq!(editor.temporary_add_buffer.position, 2);
    assert_eq!(editor.text_position, 2);
    editor.move_cursor_right();
    editor.move_cursor_right();
    editor.move_cursor_right();
    assert_eq!(editor.text_position, 4);
}

#[test]
fn cursor_moves_between_rows_and_keeps_its_column() {
    let mut editor = Editor::new(String::from("abcdef\nxy\nlonger line"), 5);
    assert_eq!(editor.lines_map, vec![6, 2, 11]);
    assert_eq!((editor.cursor.x, editor.cursor.y), (11, 2));
    editor.move_cursor_left();
    editor.move_cursor_left();
    assert_eq!(editor.right_most_column, 9);
    editor.move_cursor_up();
    assert_eq!((editor.cursor.x, editor.cursor.y), (2, 1));
    assert_eq!(editor.text_position, 9);
    assert_eq!(editor.right_most_column, 9);
    editor.move_cursor_up();
    assert_eq!((editor.cursor.x, editor.cursor.y), (6, 0));
    assert_eq!(editor.text_position, 6);
    editor.move_cursor_up();
    assert_eq!((editor.cursor.x, editor.cursor.y), (6, 0));
    editor.move_cursor_down();
    editor.move_cursor_down();
    assert_eq!((editor.cursor.x, editor.cursor.y), (9, 2));
    assert_eq!(editor.text_position, 19);
    editor.add_char('!');
    assert_eq!(editor.get_text(), "abcdef\nxy\nlonger li!ne");
    editor.move_cursor_down();
    assert_eq!((editor.cursor.x, editor.cursor.y), (10, 2));
    assert_eq!(editor.text_position, 20);
    assert_eq!(editor.content.get_text(), "abcdef\nxy\nlonger li!ne");
    assert_eq!(editor.temporary_add_buffer.buffer, "");
}

#[test]
fn a_new_line_breaks_the_text_at_the_cursor() {
    let mut editor = Editor::new(String::from("abcd"), 5);
    editor.move_cursor_left();
    editor.move_cursor_left();
    editor.add_char('X');
    editor.add_new_line();
    assert_eq!(editor.content.get_text(), "abX\ncd");
    assert_eq!(editor.get_text(), "abX\ncd");
    assert_eq!(editor.text_position, 4);
    assert_eq!((editor.cursor.x, editor.cursor.y), (0, 1));
    assert_eq!(editor.right_most_column, 0);
    assert_eq!(editor.lines_map, vec![3, 2]);
    assert_eq!(editor.temporary_add_buffer.position, 4);
    assert_eq!(editor.get_text_lines(), vec!["abX", "cd"]);
    editor.add_char('Y');
    assert_eq!(editor.get_text(), "abX\nYcd");
    assert_eq!(editor.lines_map, vec![3, 3]);
}

#[test]
fn buffers_are_written_out_only_when_due() {
    let mut editor = Editor::new(String::from("0123456789"), 8);
    type_text(&mut editor, "abcd");
    editor.persist_add_buffer(false);
    assert_eq!(editor.content.get_text(), "0123456789");
    assert_eq!(editor.temporary_add_buffer.buffer, "abcd");
    editor.add_char('e');
    editor.persist_add_buffer(false);
    assert_eq!(editor.content.get_text(), "0123456789abcde");
    assert_eq!(editor.temporary_add_buffer.buffer, "");
    assert_eq!(editor.temporary_add_buffer.position, 15);
    editor.add_char('f');
    editor.persist_add_buffer(true);
    assert_eq!(editor.content.get_text(), "0123456789abcdef");
    editor.persist_add_buffer(true);
    assert_eq!(editor.content.get_text(), "0123456789abcdef");
    editor.delete_char(EditKey::Backspace);
    assert_eq!(editor.content.get_text(), "0123456789abcdef");
    editor.move_cursor_left();
    assert_eq!(editor.content.get_text(), "0123456789abcde");
    assert!(editor.temporary_delete_buffer.is_empty());
}

#[test]
fn an_insert_that_cannot_be_made_is_dropped() {
    let mut editor = Editor::new(String::from("abc"), 5);
    editor.text_position = 50;
    editor.add_char('x');
    assert_eq!(editor.temporary_add_buffer.position, 50);
    assert_eq!(editor.text_position, 3);
    assert_eq!(editor.get_text(), "abc");
    editor.persist_add_buffer(true);
    assert_eq!(editor.content.get_text(), "abc");
    assert_eq!(editor.temporary_add_buffer.buffer, "");
}

#[test]
fn typing_and_deleting_agree_with_a_plain_string() {
    let mut editor = Editor::new(String::from("start\nof text"), 5);
    let mut model = String::from("start\nof text");
    let mut cursor = model.len();
    let mut seed: u64 = 99;
    for step in 0..600 {
        seed = seed.wrapping_mul(6364136223846793005).wrapping_add(1442695040888963407);
        match (seed >> 40) % 6 {
            0 | 1 | 2 => {
                let c = (b'a' + (step % 26) as u8) as char;
                editor.add_char(c);
                model.insert(cursor, c);
                cursor += 1;
            }
            3 => {
                editor.delete_char(EditKey::Backspace);
                if cursor > 0 {
                    model.remove(cursor - 1);
                    cursor -= 1;
                }
            }
            4 => {
                if cursor > 0 && cursor < model.len() {
                    editor.delete_char(EditKey::Delete);
                    model.remove(cursor);
                }
            }
            _ => {
                editor.move_cursor_left();
                if cursor > 0 {
                    cursor -= 1;
                }
            }
        }
        assert_eq!(editor.get_text(), model);
        assert_eq!(editor.text_position, cursor);
        assert_eq!(editor.lines_map, line_lengths(&model));
        assert!(
            editor.temporary_add_buffer.buffer.is_empty()
                || editor.temporary_delete_buffer.is_empty()
        );
        if let Some((start, end)) = editor.temporary_delete_buffer.get_deletion_range() {
            assert!(start < end);
            assert_eq!(start, cursor);
        }
    }
    editor.move_cursor_right();
    editor.move_cursor_left();
    editor.move_cursor_left();
    assert_eq!(editor.content.get_text(), model);
}

#[test]
fn cursor_follows_the_deletion_of_a_word() {
    let mut editor = Editor::new(String::from("hello world"), 5);
    editor.delete_word(EditKey::Backspace);
    assert_eq!(editor.get_text(), "hello");
    assert_eq!(editor.text_position, 5);
    assert_eq!(editor.temporary_add_buffer.buffer, "");
    assert_eq!((editor.cursor.x, editor.cursor.y), (5, 0));
    assert_eq!(editor.right_most_column, 5);
    assert_eq!(editor.lines_map, vec![5]);
}

#[test]
fn cursor_moves_left_onto_the_end_of_the_row_above() {
    let mut editor = Editor::new(String::from("abc\nde"), 5);
    editor.move_cursor_left();
    editor.move_cursor_left();
    assert_eq!(editor.text_position, 4);
    assert_eq!((editor.cursor.x, editor.cursor.y), (0, 1));
    editor.move_cursor_left();
    assert_eq!(editor.text_position, 3);
    assert_eq!((editor.cursor.x, editor.cursor.y), (3, 0));
    assert_eq!(editor.right_most_column, 3);
    editor.move_cursor_right();
    assert_eq!(editor.text_position, 4);
    assert_eq!((editor.cursor.x, editor.cursor.y), (0, 1));
}

#[test]
fn cursor_moves_right_while_text_lies_to_the_right() {
    let mut editor = Editor::new(String::from("abc"), 5);
    editor.move_cursor_left();
    editor.move_cursor_left();
    type_text(&mut editor, "XY");
    assert_eq!(editor.get_text(), "aXYbc");
    assert_eq!(editor.text_position, 3);
    assert_eq!(editor.content.get_text(), "abc");
    editor.move_cursor_right();
    assert_eq!(editor.text_position, 4);
    assert_eq!(editor.content.get_text(), "aXYbc");
    assert_eq!(editor.get_text(), "aXYbc");
    assert_eq!(editor.temporary_add_buffer.buffer, "");
    assert_eq!(editor.temporary_add_buffer.position, 4);
    assert!(editor.temporary_delete_buffer.is_empty());
    assert_eq!((editor.cursor.x, editor.cursor.y), (4, 0));
    editor.move_cursor_right();
    editor.move_cursor_right();
    assert_eq!(editor.text_position, 5);

    let mut editor = Editor::new(String::from("Hello"), 5);
    editor.delete_char(EditKey::Backspace);
    editor.delete_char(EditKey::Backspace);
    assert_eq!(editor.get_text(), "Hel");
    editor.move_cursor_right();
    assert_eq!(editor.text_position, 3);
    assert_eq!(editor.get_text(), "Hel");
}

#[test]
fn cursor_stays_on_the_last_row() {
    let mut editor = Editor::new(String::from("ab\ncd"), 5);
    assert_eq!((editor.cursor.x, editor.cursor.y), (2, 1));
    editor.move_cursor_down();
    assert_eq!((editor.cursor.x, editor.cursor.y), (2, 1));
    assert_eq!(editor.text_position, 5);
    editor.add_char('e');
    editor.move_cursor_down();
    assert_eq!(editor.content.get_text(), "ab\ncde");
    assert_eq!(editor.text_position, 6);
    assert_eq!((editor.cursor.x, editor.cursor.y), (3, 1));
    editor.move_cursor_up();
    assert_eq!((editor.cursor.x, editor.cursor.y), (2, 0));
    assert_eq!(editor.text_position, 2);
    editor.move_cursor_up();
    assert_eq!((editor.cursor.x, editor.cursor.y), (2, 0));
    assert_eq!(editor.text_position, 2);
}

#[test]
fn delete_at_the_end_of_the_text_keeps_what_is_waiting() {
    let mut editor = Editor::new(String::from("ab"), 5);
    editor.move_cursor_left();
    editor.delete_char(EditKey::Delete);
    assert_eq!(editor.temporary_delete_buffer.get_deletion_range(), Some((1, 2)));
    assert_eq!(editor.get_text(), "a");
    editor.delete_char(EditKey::Delete);
    assert_eq!(editor.temporary_delete_buffer.get_deletion_range(), Some((1, 2)));
    assert_eq!(editor.get_text(), "a");
    assert_eq!(editor.text_position, 1);
    editor.add_char('c');
    assert_eq!(editor.content.get_text(), "a");
    assert_eq!(editor.get_text(), "ac");

    let mut editor = Editor::new(String::from("ab"), 5);
    editor.delete_char(EditKey::Delete);
    assert!(editor.temporary_delete_buffer.is_empty());
    assert_eq!(editor.get_text(), "ab");
    editor.delete_word(EditKey::Delete);
    assert!(editor.temporary_delete_buffer.is_empty());
    assert_eq!(editor.get_text(), "ab");
}

#[test]
fn a_character_that_is_not_taken_moves_nothing() {
    let mut editor = Editor::new(String::from("ab"), 0);
    editor.add_char('x');
    assert_eq!(editor.get_text(), "ab");
    assert_eq!(editor.text_position, 2);
    assert_eq!((editor.cursor.x, editor.cursor.y), (2, 0));
    assert_eq!(editor.temporary_add_buffer.buffer, "");
}

#[test]
fn text_position_is_brought_back_into_the_text() {
    let mut editor = Editor::new(String::from("abc"), 5);
    editor.text_position = 50;
    editor.move_cursor_left();
    assert_eq!(editor.text_position, 3);
    assert_eq!((editor.cursor.x, editor.cursor.y), (3, 0));
}
