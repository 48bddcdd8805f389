use reasonix_render::editor::{
    char_to_byte, cursor_on_first_line, cursor_on_last_line, insert_char_at, line_col_to_cursor,
    locate_cursor_in, move_cursor_line, next_word_boundary, prev_word_boundary, remove_char_at,
};

#[test]
fn insert_places_the_char_at_a_char_index() {
    let mut s = String::from("héllo");
    insert_char_at(&mut s, 2, 'X');
    assert_eq!(s, "héXllo");
    insert_char_at(&mut s, 100, '!');
    assert_eq!(s, "héXllo!");
    insert_char_at(&mut s, 0, '>');
    assert_eq!(s, ">héXllo!");
}

#[test]
fn remove_takes_out_one_char_and_ignores_past_the_end() {
    let mut s = String::from("aé→b");
    remove_char_at(&mut s, 1);
    assert_eq!(s, "a→b");
    remove_char_at(&mut s, 9);
    assert_eq!(s, "a→b");
}

#[test]
fn removing_what_was_inserted_gives_the_text_back() {
    let mut s = String::from("one two");
    insert_char_at(&mut s, 3, 'Z');
    remove_char_at(&mut s, 3);
    assert_eq!(s, "one two");
}

#[test]
fn char_to_byte_counts_utf8_bytes_and_saturates_at_the_end() {
    assert_eq!(char_to_byte("aé→b", 0), 0);
    assert_eq!(char_to_byte("aé→b", 2), 3);
    assert_eq!(char_to_byte("aé→b", 3), 6);
    assert_eq!(char_to_byte("aé→b", 4), 7);
    assert_eq!(char_to_byte("aé→b", 50), 7);
}

#[test]
fn word_boundaries_skip_spaces_then_a_word() {
    assert_eq!(prev_word_boundary("hello big world", 15), 10);
    assert_eq!(prev_word_boundary("hello big world", 10), 6);
    assert_eq!(prev_word_boundary("hello   ", 8), 0);
    assert_eq!(prev_word_boundary("abc", 99), 0);
    assert_eq!(next_word_boundary("hello big world", 0), 6);
    assert_eq!(next_word_boundary("hello big world", 6), 10);
    assert_eq!(next_word_boundary("hello big world", 10), 15);
    assert_eq!(next_word_boundary("x", 99), 1);
}

#[test]
fn locate_gives_line_and_column() {
    assert_eq!(locate_cursor_in("ab\ncd", 0), (0, 0));
    assert_eq!(locate_cursor_in("ab\ncd", 2), (0, 2));
    assert_eq!(locate_cursor_in("ab\ncd", 3), (1, 0));
    assert_eq!(locate_cursor_in("ab\ncd", 4), (1, 1));
    assert_eq!(locate_cursor_in("ab\ncd", 5), (1, 2));
    assert_eq!(locate_cursor_in("ab\ncd", 40), (1, 2));
}

#[test]
fn line_col_to_cursor_stops_at_the_end_of_a_short_line() {
    assert_eq!(line_col_to_cursor("ab\ncd", 1, 1), 4);
    assert_eq!(line_col_to_cursor("abcd\nx\nyz", 1, 3), 6);
    assert_eq!(line_col_to_cursor("ab\ncd", 5, 0), 5);
}

#[test]
fn locating_a_cursor_and_going_back_gives_the_cursor() {
    let text = "first\nsecond line\n\nend";
    for c in 0..=text.chars().count() {
        let (l, col) = locate_cursor_in(text, c);
        assert_eq!(line_col_to_cursor(text, l, col), c);
    }
}

#[test]
fn moving_a_line_keeps_the_column_where_it_can() {
    assert_eq!(move_cursor_line("abcd\nxy\nlong line", 3, 1), 7);
    assert_eq!(move_cursor_line("abcd\nxy\nlong line", 7, 1), 10);
    assert_eq!(move_cursor_line("abcd\nxy\nlong line", 10, -2), 2);
    assert_eq!(move_cursor_line("abcd\nxy", 6, 5), 7);
    assert_eq!(move_cursor_line("abcd\nxy", 2, -3), 2);
    assert_eq!(move_cursor_line("abcd\nxy", 6, 0), 6);
}

#[test]
fn first_and_last_line_checks() {
    assert!(cursor_on_first_line("ab\ncd", 2));
    assert!(!cursor_on_first_line("ab\ncd", 3));
    assert!(cursor_on_last_line("ab\ncd", 3));
    assert!(!cursor_on_last_line("ab\ncd", 1));
    assert!(cursor_on_last_line("", 0));
}

#[test]
fn down_then_up_returns_to_the_same_cursor() {
    let text = "abcd\nxyz\n12345";
    for cursor in 0..=3usize {
        let down = move_cursor_line(text, cursor, 1);
        assert_eq!(move_cursor_line(text, down, -1), cursor, "cursor {cursor}");
    }
    for cursor in 5..=8usize {
        let down = move_cursor_line(text, cursor, 1);
        assert_eq!(move_cursor_line(text, down, -1), cursor, "cursor {cursor}");
    }
    // column 4 does not fit on the shorter next line: the cursor comes back at its end
    assert_eq!(move_cursor_line(text, move_cursor_line(text, 4, 1), -1), 3);
}
