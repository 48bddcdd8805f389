//! The editor's cursor arithmetic checked against direct loops over the
//! characters, on every short text over a small alphabet.
use reasonix_render::editor::{
    char_to_byte, cursor_on_first_line, cursor_on_last_line, insert_char_at, line_col_to_cursor, locate_cursor_in,
    move_cursor_line, next_word_boundary, prev_word_boundary, remove_char_at,
};

fn texts() -> Vec<String> {
    let alphabet = ['a', ' ', '\n', 'é', '語'];
    let mut out = vec![String::new()];
    let mut layer = vec![String::new()];
    for _ in 0..5 {
        let mut next = Vec::new();
        for s in &layer {
            for c in alphabet {
                let mut t = s.clone();
                t.push(c);
                next.push(t);
            }
        }
        out.extend(next.iter().cloned());
        layer = next;
    }
    out
}

fn locate(buffer: &str, cursor: usize) -> (usize, usize) {
    let (mut line, mut col) = (0usize, 0usize);
    for (idx, ch) in buffer.chars().enumerate() {
        if idx == cursor {
            return (line, col);
        }
        if ch == '\n' {
            line += 1;
            col = 0;
        } else {
            col += 1;
        }
    }
    (line, col)
}

fn to_cursor(buffer: &str, target_line: usize, target_col: usize) -> usize {
    let (mut line, mut col, mut idx) = (0usize, 0usize, 0usize);
    for ch in buffer.chars() {
        if line == target_line && col == target_col {
            return idx;
        }
        if ch == '\n' {
            if line == target_line {
                return idx;
            }
            line += 1;
            col = 0;
        } else {
            col += 1;
        }
        idx += 1;
    }
    idx
}

fn moved(buffer: &str, cursor: usize, delta: isize) -> usize {
    let (line, col) = locate(buffer, cursor);
    let new_line = if delta < 0 { line.saturating_sub(delta.unsigned_abs()) } else { line + delta as usize };
    let max_line = buffer.chars().filter(|c| *c == '\n').count();
    if new_line > max_line {
        return buffer.chars().count();
    }
    if new_line == line {
        return cursor;
    }
    to_cursor(buffer, new_line, col)
}

#[test]
fn cursor_arithmetic_matches_the_direct_loops() {
    for s in texts() {
        let chars: Vec<char> = s.chars().collect();
        let n = chars.len();
        let lines = s.chars().filter(|c| *c == '\n').count();
        for cursor in 0..n + 3 {
            assert_eq!(locate_cursor_in(&s, cursor), locate(&s, cursor), "{s:?} {cursor}");
            assert_eq!(cursor_on_first_line(&s, cursor), locate(&s, cursor).0 == 0);
            assert_eq!(cursor_on_last_line(&s, cursor), locate(&s, cursor).0 >= lines);
            assert_eq!(char_to_byte(&s, cursor), s.char_indices().nth(cursor).map(|(b, _)| b).unwrap_or(s.len()));
            for delta in -3isize..=3 {
                assert_eq!(move_cursor_line(&s, cursor, delta), moved(&s, cursor, delta), "{s:?} {cursor} {delta}");
            }
            let mut i = cursor.min(n);
            while i > 0 && chars[i - 1].is_whitespace() {
                i -= 1;
            }
            while i > 0 && !chars[i - 1].is_whitespace() {
                i -= 1;
            }
            assert_eq!(prev_word_boundary(&s, cursor), i);
            let mut j = cursor.min(n);
            while j < n && !chars[j].is_whitespace() {
                j += 1;
            }
            while j < n && chars[j].is_whitespace() {
                j += 1;
            }
            assert_eq!(next_word_boundary(&s, cursor), j);
            if cursor <= n {
                let mut t = s.clone();
                insert_char_at(&mut t, cursor, 'x');
                let mut u = s.clone();
                u.insert(char_to_byte(&s, cursor), 'x');
                assert_eq!(t, u);
            }
            let mut t = s.clone();
            remove_char_at(&mut t, cursor);
            let mut u = s.clone();
            if let Some((b, _)) = s.char_indices().nth(cursor) {
                u.remove(b);
            }
            assert_eq!(t, u);
        }
        for line in 0..lines + 2 {
            for col in 0..5 {
                assert_eq!(line_col_to_cursor(&s, line, col), to_cursor(&s, line, col), "{s:?} {line} {col}");
            }
        }
    }
}
