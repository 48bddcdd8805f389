use reasonix_render::composer::{
    build_composer_visual_lines, composer_view, dock_height_for, preset_label,
    split_main_sidebar, wrap_visual_chars, PromptKind,
};
use reasonix_render::state::{PromptInput, SceneState};

fn composer(text: &str, cursor: Option<usize>) -> SceneState {
    SceneState { composer_text: Some(text.to_string()), composer_cursor: cursor, ..Default::default() }
}

#[test]
fn visual_chars_wrap_by_width() {
    assert_eq!(wrap_visual_chars("abcdef", 4), vec!["abcd", "ef"]);
    assert_eq!(wrap_visual_chars("", 4), vec![""]);
    assert_eq!(wrap_visual_chars("\u{4f60}\u{597d}\u{554a}", 4), vec!["\u{4f60}\u{597d}", "\u{554a}"]);
}

#[test]
fn cursor_lands_on_its_visual_line() {
    assert_eq!(build_composer_visual_lines("", 0, 10), (vec![String::new()], 0, 0));
    let (lines, row, col) = build_composer_visual_lines("abcdef\nxy", 8, 4);
    assert_eq!(lines, vec!["abcd", "ef", "xy"]);
    assert_eq!((row, col), (2, 1));
    let (_, row, col) = build_composer_visual_lines("abcdef\nxy", 4, 4);
    assert_eq!((row, col), (1, 0));
    let (lines, row, col) = build_composer_visual_lines("a\n\nb", 2, 10);
    assert_eq!(lines, vec!["a", "", "b"]);
    assert_eq!((row, col), (1, 0));
}

#[test]
fn composer_view_of_plain_text() {
    let v = composer_view(&composer("hello", None), 20, 5, 0);
    assert_eq!(v.prompt, PromptKind::Plain);
    assert_eq!(v.text, "hello");
    assert_eq!(v.lines, vec!["hello"]);
    assert_eq!((v.cursor_row, v.cursor_col, v.scroll_off), (0, 5, 0));
    assert!(!v.more_above && !v.more_below);
    assert!(v.show_caret);
    assert!(!composer_view(&composer("hello", None), 20, 5, 6).show_caret);
    assert!(composer_view(&composer("hello", None), 20, 5, 12).show_caret);
    assert_eq!(composer_view(&composer("!ls", Some(1)), 20, 5, 0).prompt, PromptKind::Shell);
    assert_eq!(composer_view(&composer("/help", Some(99)), 20, 5, 0).cursor_col, 5);
    assert_eq!(composer_view(&composer("@src", None), 20, 5, 0).prompt, PromptKind::File);
}

#[test]
fn secret_input_is_masked() {
    let mut st = composer("abc", None);
    st.prompt_input = Some(PromptInput {
        id: "k".to_string(),
        label: "API key".to_string(),
        default_value: None,
        secret: true,
    });
    let v = composer_view(&st, 20, 5, 0);
    assert_eq!(v.prompt, PromptKind::Input);
    assert_eq!(v.text, "\u{2022}\u{2022}\u{2022}");
}

#[test]
fn composer_scrolls_to_the_cursor_line() {
    let v = composer_view(&composer("a\nb\nc\nd\ne", None), 20, 4, 0);
    assert_eq!(v.cursor_row, 4);
    assert_eq!(v.scroll_off, 3);
    assert!(v.more_above);
    assert!(!v.more_below);
    let top = composer_view(&composer("a\nb\nc\nd\ne", Some(0)), 20, 4, 0);
    assert_eq!(top.scroll_off, 0);
    assert!(top.more_below);
}

#[test]
fn status_and_layout_helpers() {
    assert_eq!(preset_label("flash"), "FLASH");
    assert_eq!(preset_label("custom-x"), "CUSTOM-X");
    assert_eq!(dock_height_for("", 6, 8), 6);
    assert_eq!(dock_height_for("a\nb\nc", 6, 8), 8);
    assert_eq!(dock_height_for("a\nb\nc\nd\ne", 6, 3), 8);
    assert_eq!(split_main_sidebar(120, true, 32), (88, 32));
    assert_eq!(split_main_sidebar(60, true, 32), (60, 0));
    assert_eq!(split_main_sidebar(120, false, 32), (120, 0));
}

#[test]
fn composer_lines_put_back_together_are_the_text_without_breaks() {
    let text = "first line\nsecond\n\nlast one here";
    for w in [1usize, 3, 8, 40] {
        let (lines, _, _) = build_composer_visual_lines(text, 0, w);
        assert_eq!(lines.concat(), text.replace('\n', ""));
    }
}
