use reasonix_render::cards::{
    await_option, body_lines_height, body_width_for, card_height, classify_line, count_done,
    diff_rows, exit_tone, fmt_lineno, is_trace_line, job_label, lines, option_token,
    output_tone, parse_hunk_header, parse_todo_items, plan_body, recent_tools, spinner_frame,
    split_first_colon, total_cards_height, wrap_visual, DiffKind, DiffRow, TodoState, Tone,
};
use reasonix_render::state::SceneCard;

fn card(kind: &str, body: Option<&str>) -> SceneCard {
    SceneCard { kind: kind.to_string(), body: body.map(|b| b.to_string()), ..Default::default() }
}

#[test]
fn wrap_visual_breaks_by_display_width() {
    assert_eq!(wrap_visual("abcdef", 4), vec!["abcd", "ef"]);
    assert_eq!(wrap_visual("abc", 4), vec!["abc"]);
    assert_eq!(wrap_visual("", 4), vec![""]);
    assert_eq!(wrap_visual("abc", 0), vec![""]);
    assert_eq!(wrap_visual("日本語", 4), vec!["日本", "語"]);
}

#[test]
fn wrapped_lines_put_back_together_are_the_line() {
    let line = "the quick brown fox jumps over the lazy dog";
    assert_eq!(wrap_visual(line, 7).concat(), line);
    for l in wrap_visual(line, 7) {
        assert!(l.chars().count() <= 7);
    }
}

#[test]
fn lines_drop_carriage_returns_and_the_final_empty_line() {
    assert_eq!(lines("a\r\nb\n"), vec!["a", "b"]);
    assert_eq!(lines(""), Vec::<String>::new());
    assert_eq!(lines("x\n\ny"), vec!["x", "", "y"]);
}

#[test]
fn body_height_counts_wrapped_rows() {
    assert_eq!(body_lines_height("abcdef\n\nxy", 4), 4);
    assert_eq!(body_width_for(10), 6);
    assert_eq!(body_width_for(3), 0);
}

#[test]
fn todo_items_are_parsed_and_counted() {
    let items = parse_todo_items("  [x] read it\n[~]   write\nnot an item\n[ ] ship\n[?] no");
    assert_eq!(
        items,
        vec![
            (TodoState::Done, "read it".to_string()),
            (TodoState::Active, "write".to_string()),
            (TodoState::Pending, "ship".to_string()),
        ]
    );
    assert_eq!(count_done(&items), 1);
}

#[test]
fn card_heights_by_kind() {
    assert_eq!(card_height(&card("user", Some("hello")), 20), 3);
    assert_eq!(card_height(&card("info", Some("abcdefgh")), 4), 4);
    assert_eq!(card_height(&card("todo", Some("[x] a\n[ ] b")), 20), 4);
    assert_eq!(card_height(&card("tool", None), 20), 1);
    assert_eq!(card_height(&card("mystery", Some("x")), 20), 0);
    assert_eq!(card_height(&card("user", None), 20), 2);
    let cards = vec![card("user", Some("hi")), card("tool", None)];
    assert_eq!(total_cards_height(&cards, 20), 4);
}

#[test]
fn diff_lines_are_classified() {
    assert_eq!(classify_line("+added"), (DiffKind::Add, "added".to_string()));
    assert_eq!(classify_line("-gone"), (DiffKind::Del, "gone".to_string()));
    assert_eq!(classify_line(" same"), (DiffKind::Ctx, "same".to_string()));
    assert_eq!(classify_line("raw"), (DiffKind::Ctx, "raw".to_string()));
}

#[test]
fn line_numbers_are_right_aligned() {
    assert_eq!(fmt_lineno(Some(7)), "  7");
    assert_eq!(fmt_lineno(Some(1234)), "1234");
    assert_eq!(fmt_lineno(None), "   ");
}

#[test]
fn hunk_headers_give_the_start_lines() {
    assert_eq!(parse_hunk_header("@@ -16,4 +16,7 @@ formatToken"), Some((16, 16)));
    assert_eq!(parse_hunk_header("@@ -1 +2 @@"), Some((1, 2)));
    assert_eq!(parse_hunk_header("@@ -3,2 +x @@"), None);
    assert_eq!(parse_hunk_header("@@ -99999999999 +1 @@"), None);
    assert_eq!(parse_hunk_header("not a header"), None);
}

#[test]
fn diff_rows_number_both_sides() {
    let rows = diff_rows("@@ -10,2 +20,3 @@\n ctx\n-old\n+new\n+more");
    let nums: Vec<(Option<u32>, Option<u32>)> = rows
        .iter()
        .filter_map(|r| match r {
            DiffRow::Line { old, new, .. } => Some((*old, *new)),
            DiffRow::Hunk(_) => None,
        })
        .collect();
    assert_eq!(nums, vec![(Some(10), Some(20)), (Some(11), None), (None, Some(21)), (None, Some(22))]);
    assert!(matches!(&rows[0], DiffRow::Hunk(h) if h == "@@ -10,2 +20,3 @@"));
}

#[test]
fn first_colon_splits_location_from_code() {
    assert_eq!(split_first_colon("12: let x = 1;"), ("12".to_string(), " let x = 1;".to_string()));
    assert_eq!(split_first_colon("no colon"), ("no colon".to_string(), String::new()));
}

#[test]
fn spinner_cycles_every_ten_ticks() {
    assert_eq!(spinner_frame(0), '⠋');
    assert_eq!(spinner_frame(1), '⠙');
    assert_eq!(spinner_frame(13), spinner_frame(3));
}

#[test]
fn output_lines_and_exit_meta_are_toned() {
    assert_eq!(output_tone("  ✓ parses"), Tone::Good);
    assert_eq!(output_tone("3 passed"), Tone::Good);
    assert_eq!(output_tone("1 failed"), Tone::Bad);
    assert_eq!(output_tone("stderr:"), Tone::Muted);
    assert_eq!(output_tone("plain"), Tone::Plain);
    assert_eq!(exit_tone("exit 0 · 1.2s"), Tone::Good);
    assert_eq!(exit_tone("exit 2"), Tone::Bad);
    assert_eq!(exit_tone("1.2s"), Tone::Muted);
    assert!(is_trace_line("    at main (x.ts:1)"));
    assert!(!is_trace_line("Error: boom"));
}

#[test]
fn option_tokens_and_await_options_split() {
    assert_eq!(option_token("[y]es"), ("y".to_string(), "es".to_string()));
    assert_eq!(option_token("plain"), (String::new(), "plain".to_string()));
    assert_eq!(await_option("a)   first"), Some(("a".to_string(), "first".to_string())));
    assert_eq!(await_option("no paren"), None);
}

#[test]
fn sidebar_finds_the_newest_plan_and_tools() {
    let mut t1 = card("tool", None);
    t1.summary = "Read".to_string();
    t1.args = Some("a.rs".to_string());
    let cards = vec![
        card("todo", Some("[x] old")),
        t1,
        card("user", Some("hi")),
        card("plan", Some("[ ] new")),
        card("tool", None),
        card("tool", None),
        card("tool", None),
        card("tool", None),
    ];
    assert_eq!(plan_body(&cards), "[ ] new");
    assert_eq!(recent_tools(&cards), vec![7, 6, 5, 4]);
    assert_eq!(job_label(&cards[1]), "Read a.rs");
    assert_eq!(plan_body(&vec![card("user", None)]), "");
}
