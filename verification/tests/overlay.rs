use reasonix_render::overlay::{
    slash_arg_completion, slash_arg_match_count, slash_completion, slash_is_exact,
    slash_match_count,
};
use reasonix_render::overlay_at::{at_completion, at_match_count, has_at_token};
use reasonix_render::state::{AtPickerEntry, AtState, SceneState, SlashArgState, SlashMatch};

fn catalog_state() -> SceneState {
    let entries = ["clear", "compact", "commit", "undo", "diff", "help"];
    SceneState {
        slash_catalog: Some(
            entries
                .iter()
                .map(|cmd| SlashMatch {
                    cmd: (*cmd).to_string(),
                    summary: String::new(),
                    group: None,
                    args_hint: None,
                    aliases: Vec::new(),
                    arg_completer: None,
                })
                .collect(),
        ),
        ..Default::default()
    }
}

fn at_state_state() -> SceneState {
    SceneState {
        at_state: Some(AtState::Browse {
            base_dir: String::new(),
            entries: vec![
                AtPickerEntry {
                    label: "src/parser.ts".to_string(),
                    insert_path: "src/parser.ts".to_string(),
                    dir_suffix: String::new(),
                    is_dir: false,
                },
                AtPickerEntry {
                    label: "tests/parser.test.ts".to_string(),
                    insert_path: "tests/parser.test.ts".to_string(),
                    dir_suffix: String::new(),
                    is_dir: false,
                },
            ],
            loading: false,
        }),
        ..Default::default()
    }
}

#[test]
fn double_slash_does_not_match_anything() {
    let state = catalog_state();
    assert_eq!(slash_match_count("/", &state), 6, "bare slash shows all");
    assert_eq!(
        slash_match_count("//", &state),
        0,
        "double slash matches nothing"
    );
    assert_eq!(
        slash_match_count("///c", &state),
        0,
        "triple slash also matches nothing"
    );
}

#[test]
fn slash_arg_picker_static_completer() {
    let state = SceneState {
        slash_catalog: Some(vec![
            SlashMatch {
                cmd: "preset".to_string(),
                summary: String::new(),
                group: Some("setup".to_string()),
                args_hint: Some("<auto|flash|pro>".to_string()),
                aliases: Vec::new(),
                arg_completer: Some(vec![
                    "auto".to_string(),
                    "flash".to_string(),
                    "pro".to_string(),
                ]),
            },
            SlashMatch {
                cmd: "language".to_string(),
                summary: String::new(),
                group: Some("setup".to_string()),
                args_hint: Some("<EN|zh-CN>".to_string()),
                aliases: Vec::new(),
                arg_completer: Some(vec!["EN".to_string(), "zh-CN".to_string()]),
            },
            SlashMatch {
                cmd: "help".to_string(),
                summary: String::new(),
                group: Some("chat".to_string()),
                args_hint: None,
                aliases: Vec::new(),
                arg_completer: None,
            },
        ]),
        ..Default::default()
    };
    assert_eq!(
        slash_arg_match_count("/preset ", &state),
        3,
        "bare arg shows all"
    );
    assert_eq!(
        slash_arg_match_count("/preset fl", &state),
        1,
        "prefix filters"
    );
    assert_eq!(
        slash_arg_match_count("/preset flash", &state),
        0,
        "exact dismisses"
    );
    assert_eq!(slash_arg_match_count("/help ", &state), 0, "no completer");
    assert_eq!(
        slash_arg_match_count("/preset auto x", &state),
        0,
        "past first arg"
    );
    assert_eq!(slash_arg_match_count("/zzz ", &state), 0, "unknown cmd");
    assert_eq!(
        slash_arg_completion("/preset fl", 0, &state).as_deref(),
        Some("/preset flash"),
    );
    assert_eq!(
        slash_arg_completion("/language ", 1, &state).as_deref(),
        Some("/language zh-CN"),
    );
}

#[test]
fn slash_arg_state_overrides_catalog_for_dynamic_completers() {
    let state = SceneState {
        slash_catalog: Some(vec![SlashMatch {
            cmd: "model".to_string(),
            summary: String::new(),
            group: Some("setup".to_string()),
            args_hint: Some("<id>".to_string()),
            aliases: Vec::new(),
            arg_completer: None,
        }]),
        slash_arg_state: Some(SlashArgState {
            cmd: "model".to_string(),
            partial: "ds".to_string(),
            matches: vec!["deepseek-v3.2-coder".to_string(), "deepseek-r1".to_string()],
        }),
        ..Default::default()
    };
    assert_eq!(
        slash_arg_match_count("/model ds", &state),
        2,
        "scene picks up dynamic matches"
    );
    assert_eq!(
        slash_arg_completion("/model ds", 0, &state).as_deref(),
        Some("/model deepseek-v3.2-coder"),
    );
    let no_match = SceneState {
        slash_catalog: state.slash_catalog.clone(),
        slash_arg_state: Some(SlashArgState {
            cmd: "model".to_string(),
            partial: "old".to_string(),
            matches: vec!["irrelevant".to_string()],
        }),
        ..Default::default()
    };
    assert_eq!(
        slash_arg_match_count("/model ds", &no_match),
        0,
        "stale scene partial does not leak in",
    );
}

#[test]
fn slash_is_exact_matches_full_command_only() {
    let state = catalog_state();
    assert!(slash_is_exact("/clear", &state), "full name matches");
    assert!(slash_is_exact("/CLEAR", &state), "case-insensitive");
    assert!(!slash_is_exact("/cl", &state), "prefix is not exact");
    assert!(
        !slash_is_exact("/clear ", &state),
        "trailing space is not exact"
    );
    assert!(
        !slash_is_exact("/clear foo", &state),
        "with args is not exact"
    );
    assert!(!slash_is_exact("clear", &state), "no leading slash");
    assert!(!slash_is_exact("/zzz", &state), "unknown command");
    assert!(!slash_is_exact("/", &state), "empty cmd");
}

#[test]
fn slash_match_count_filters_by_prefix() {
    let state = catalog_state();
    assert_eq!(slash_match_count("/c", &state), 3);
    assert_eq!(slash_match_count("/u", &state), 1);
    assert_eq!(slash_match_count("/", &state), 6);
    assert_eq!(slash_match_count("", &state), 0);
    assert_eq!(slash_match_count("/zzz", &state), 0);
}

#[test]
fn slash_completion_appends_trailing_space() {
    let state = catalog_state();
    assert_eq!(
        slash_completion("/c", 0, &state).as_deref(),
        Some("/clear ")
    );
    assert_eq!(
        slash_completion("/c", 1, &state).as_deref(),
        Some("/compact ")
    );
    assert_eq!(
        slash_completion("/c", 2, &state).as_deref(),
        Some("/commit ")
    );
    assert_eq!(slash_completion("/c", 3, &state), None);
    assert_eq!(slash_completion("abc", 0, &state), None);
}

#[test]
fn at_match_count_requires_at_at_end() {
    let state = at_state_state();
    assert_eq!(at_match_count("@", &state), 2);
    assert_eq!(at_match_count("@par", &state), 2);
    assert_eq!(at_match_count("check @par", &state), 2);
    assert_eq!(at_match_count("@par this", &state), 0);
    assert_eq!(at_match_count("nopath", &state), 0);
    assert_eq!(at_match_count("foo@bar", &state), 0);
}

#[test]
fn at_completion_replaces_only_the_at_token() {
    let state = at_state_state();
    assert_eq!(
        at_completion("@par", 0, &state).as_deref(),
        Some("@src/parser.ts ")
    );
    assert_eq!(
        at_completion("check @par", 0, &state).as_deref(),
        Some("check @src/parser.ts ")
    );
    assert_eq!(at_completion("no at", 0, &state), None);
}

#[test]
fn fallback_catalog_is_used_without_host_catalog() {
    let state = SceneState::default();
    assert_eq!(slash_match_count("/", &state), 3);
    assert_eq!(slash_match_count("/c", &state), 2);
    assert_eq!(slash_completion("/h", 0, &state).as_deref(), Some("/help "));
    assert!(slash_is_exact("/Help", &state));
    assert!(!slash_is_exact("/commit", &state));
}

#[test]
fn at_completion_of_a_directory_keeps_one_trailing_slash() {
    let state = SceneState {
        at_state: Some(AtState::Search {
            filter: "sr".to_string(),
            entries: vec![AtPickerEntry {
                label: "src".to_string(),
                insert_path: "src//".to_string(),
                dir_suffix: String::new(),
                is_dir: true,
            }],
            scanned: 3,
            searching: false,
        }),
        ..Default::default()
    };
    assert_eq!(at_completion("see @sr", 0, &state).as_deref(), Some("see @src/"));
    assert_eq!(at_completion("see @sr", 1, &state), None);
    assert_eq!(at_match_count("see\t@sr", &state), 1);
    assert_eq!(at_match_count("see @sr", &SceneState::default()), 0);
}

#[test]
fn a_host_list_for_another_command_is_not_offered() {
    let state = SceneState {
        slash_catalog: Some(vec![SlashMatch {
            cmd: "theme".to_string(),
            summary: String::new(),
            group: None,
            args_hint: None,
            aliases: Vec::new(),
            arg_completer: Some(vec!["dark".to_string(), "light".to_string()]),
        }]),
        slash_arg_state: Some(SlashArgState {
            cmd: "model".to_string(),
            partial: "d".to_string(),
            matches: vec!["deepseek".to_string()],
        }),
        ..Default::default()
    };
    assert_eq!(slash_arg_match_count("/theme d", &state), 1);
    assert_eq!(slash_arg_completion("/theme d", 0, &state).as_deref(), Some("/theme dark"));
}

#[test]
fn picking_a_file_closes_the_reference_and_a_directory_keeps_it() {
    let entry = |path: &str, is_dir: bool| AtPickerEntry {
        label: path.to_string(),
        insert_path: path.to_string(),
        dir_suffix: String::new(),
        is_dir,
    };
    let state = SceneState {
        at_state: Some(AtState::Browse {
            base_dir: String::new(),
            entries: vec![entry("src/lib/", true), entry("src/main.rs", false)],
            loading: false,
        }),
        ..Default::default()
    };
    let dir = at_completion("see @sr", 0, &state).unwrap();
    assert_eq!(dir, "see @src/lib/");
    assert!(has_at_token(&dir));
    assert_eq!(at_match_count(&dir, &state), 2);
    let file = at_completion("see @sr", 1, &state).unwrap();
    assert_eq!(file, "see @src/main.rs ");
    assert!(!has_at_token(&file));
    assert_eq!(at_match_count(&file, &state), 0);
}
