use reasonix_render::slash_menu::{
    arg_header, arg_popup, arg_suffix, clip_with_ellipsis, collect_rows, column_budgets,
    compute_columns, description_with_aliases, group_label, no_match_message, no_match_popup,
    options_count_text, position_text, row_visual_height, slash_popup, slash_window,
    typed_suffix, widest_value_width, wrap_desc, ArgPopup, ColumnLayout, SlashPopup, SlashRow,
};
use reasonix_render::state::{SceneState, SlashMatch};

fn row(name: &str, desc: &str, args_hint: Option<&str>, aliases: &[&str]) -> SlashRow {
    SlashRow {
        name: name.to_string(),
        desc: desc.to_string(),
        args_hint: args_hint.map(|s| s.to_string()),
        aliases: aliases.iter().map(|a| a.to_string()).collect(),
        group: None,
        header_above: false,
    }
}

fn command(cmd: &str, summary: &str, group: &str) -> SlashMatch {
    SlashMatch {
        cmd: cmd.to_string(),
        summary: summary.to_string(),
        group: Some(group.to_string()),
        args_hint: None,
        aliases: Vec::new(),
        arg_completer: None,
    }
}

#[test]
fn group_labels() {
    assert_eq!(group_label("code"), "CODE");
    assert_eq!(group_label("setup"), "SETUP");
    assert_eq!(group_label("weird"), "OTHER");
}

#[test]
fn clipping_with_an_ellipsis() {
    assert_eq!(clip_with_ellipsis("hello world", 5), "hell\u{2026}");
    assert_eq!(clip_with_ellipsis("hi", 5), "hi");
    assert_eq!(clip_with_ellipsis("abc", 0), "\u{2026}");
}

#[test]
fn typed_and_argument_suffixes() {
    assert_eq!(typed_suffix("/compact", "/co"), Some("mpact".to_string()));
    assert_eq!(typed_suffix("/comp\u{2026}", "/co"), None);
    assert_eq!(typed_suffix("/help", "/co"), None);
    assert_eq!(arg_suffix("High", "hi"), Some("gh".to_string()));
    assert_eq!(arg_suffix("low", ""), None);
    assert_eq!(arg_suffix("low", "x"), None);
}

#[test]
fn headers_and_counts() {
    assert_eq!(arg_header("model"), "/model <arg>");
    assert_eq!(options_count_text(1), "1 option");
    assert_eq!(options_count_text(3), "3 options");
    assert_eq!(widest_value_width(&vec!["ab".to_string(), "abcd".to_string()]), 4);
    assert_eq!(widest_value_width(&Vec::new()), 8);
    assert_eq!(position_text(5, 0, 10, "commands"), "  5 commands");
    assert_eq!(position_text(30, 4, 10, "commands"), "  5-14/30");
    assert_eq!(no_match_message("/zz"), "no command matches '/zz'");
}

#[test]
fn no_match_popup_needs_room() {
    assert_eq!(no_match_popup(0, 10, 100), Some((2, 7, 80, 3)));
    assert_eq!(no_match_popup(0, 2, 100), None);
    assert_eq!(no_match_popup(0, 10, 30), None);
}

#[test]
fn descriptions_wrap_after_spaces() {
    assert_eq!(wrap_desc("hello world foo", 11), vec!["hello ", "world foo"]);
    assert_eq!(wrap_desc("", 5), vec![""]);
    assert_eq!(wrap_desc("abcdefgh", 3), vec!["abc", "def", "gh"]);
    let r = row("/help", "show help", None, &["h", "?"]);
    assert_eq!(description_with_aliases(&r), "show help  \u{b7} /h /?");
    assert_eq!(description_with_aliases(&row("/x", "plain", None, &[])), "plain");
}

#[test]
fn row_heights() {
    let mut r = row("/help", "hello world foo", None, &[]);
    r.header_above = true;
    assert_eq!(row_visual_height(&r, 11, false), 2);
    r.header_above = false;
    assert_eq!(row_visual_height(&r, 11, true), 2);
    assert_eq!(row_visual_height(&r, 80, true), 1);
}

#[test]
fn columns_fit_or_share_the_budget() {
    let wide = compute_columns(&[row("/help", "", None, &[])], 60);
    assert_eq!(wide, ColumnLayout { name_col_off: 4, args_col_off: 11, desc_col_off: 11, desc_w: 47 });
    let narrow = compute_columns(&[row("/abcdefghijklmnopqrstu", "", Some("0123456789"), &[])], 40);
    assert_eq!(narrow, ColumnLayout { name_col_off: 4, args_col_off: 9, desc_col_off: 13, desc_w: 25 });
    assert_eq!(column_budgets(narrow), (4, 3));
}

#[test]
fn window_grows_below_then_above() {
    assert_eq!(slash_window(&[1, 1, 1, 1, 1], 2, 3), (2, 5, 3));
    assert_eq!(slash_window(&[1, 1, 1, 1, 1], 4, 3), (2, 5, 3));
    assert_eq!(slash_window(&[5, 1], 0, 3), (0, 1, 5));
}

#[test]
fn popup_over_the_dock() {
    let rows = vec![row("/help", "show help", None, &[])];
    assert_eq!(
        slash_popup(0, 20, 100, &rows, 0),
        Some(SlashPopup {
            x: 2,
            y: 16,
            w: 96,
            h: 4,
            layout: ColumnLayout { name_col_off: 4, args_col_off: 11, desc_col_off: 11, desc_w: 83 },
            selected: 0,
            start: 0,
            end: 1,
        })
    );
    assert_eq!(slash_popup(0, 20, 40, &rows, 0), None);
    assert_eq!(slash_popup(0, 20, 100, &[], 0), None);
    assert_eq!(
        arg_popup(0, 20, 100, 12, 5, 3, 7),
        Some(ArgPopup { x: 2, y: 14, w: 16, h: 6, selected: 2, start: 0, visible: 3 })
    );
    assert_eq!(arg_popup(0, 20, 100, 12, 5, 0, 0), None);
}

#[test]
fn rows_get_group_headers_on_a_bare_slash() {
    let state = SceneState {
        slash_catalog: Some(vec![
            command("help", "show help", "info"),
            command("cost", "show cost", "info"),
            command("mcp", "servers", "extend"),
        ]),
        ..Default::default()
    };
    let all = collect_rows("/", &state);
    let heads: Vec<bool> = all.iter().map(|r| r.header_above).collect();
    assert_eq!(heads, vec![true, false, true]);
    assert_eq!(all[0].name, "/help");
    let some = collect_rows("/he", &state);
    assert_eq!(some.len(), 1);
    assert_eq!(some[0].name, "/help");
    assert!(!some[0].header_above);
    let fallback = collect_rows("/c", &SceneState::default());
    let names: Vec<&str> = fallback.iter().map(|r| r.name.as_str()).collect();
    assert_eq!(names, vec!["/clear", "/compact"]);
}

#[test]
fn wrapped_descriptions_put_back_together_are_the_description() {
    let text = "reset the conversation context and free up tokens for the next turn";
    for w in [1usize, 5, 11, 30, 200] {
        assert_eq!(wrap_desc(text, w).concat(), text);
    }
}
