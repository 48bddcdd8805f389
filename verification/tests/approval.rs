use reasonix_render::approval::{
    action_cells, body_lines, first_chunk, popup_rect, title_parts, wrap_inline, MAX_BODY_ROWS,
};
use reasonix_render::state::{Approval, ApprovalChoiceOption, PlanStepItem};

fn step(title: &str, status: &str) -> PlanStepItem {
    PlanStepItem { title: title.to_string(), status: status.to_string() }
}

fn option(id: &str, title: &str, summary: Option<&str>) -> ApprovalChoiceOption {
    ApprovalChoiceOption {
        id: id.to_string(),
        title: title.to_string(),
        summary: summary.map(|s| s.to_string()),
    }
}

#[test]
fn first_chunk_marks_a_cut_with_an_ellipsis() {
    assert_eq!(first_chunk("abcdef", 3), "abc\u{2026}");
    assert_eq!(first_chunk("abc", 3), "abc");
    assert_eq!(first_chunk("", 3), "");
    assert_eq!(first_chunk("日本語", 4), "日本\u{2026}");
}

#[test]
fn wrap_inline_keeps_at_least_ten_columns() {
    assert_eq!(wrap_inline("", 5), vec![""]);
    assert_eq!(wrap_inline("abcdefghijkl", 5), vec!["abcdefghij", "kl"]);
    assert_eq!(wrap_inline("abcdef", 3), vec!["abcdef"]);
}

#[test]
fn titles_count_steps_and_options() {
    let plan = Approval::Plan { body: "a\n\n b\n".to_string(), steps: Vec::new() };
    let (glyph, kind, subtitle, dismiss) = title_parts(&plan);
    assert_eq!((glyph, kind, subtitle.as_str(), dismiss), ("\u{25c7}", "REVIEW PLAN", "2 steps", "skip"));
    let one = Approval::Plan { body: String::new(), steps: vec![step("x", "done")] };
    assert_eq!(title_parts(&one).2, "1 step");
    let shell = Approval::Shell { command: "ls -la".to_string(), cwd: None, timeout_sec: None };
    let (_, kind, subtitle, dismiss) = title_parts(&shell);
    assert_eq!((kind, subtitle.as_str(), dismiss), ("SHELL EXEC", "ls -la", "dismiss"));
    let path = Approval::Path {
        path: "/etc/hosts".to_string(),
        intent: "read".to_string(),
        tool_name: "fs".to_string(),
    };
    let (_, kind, subtitle, dismiss) = title_parts(&path);
    assert_eq!((kind, subtitle.as_str(), dismiss), ("PATH ACCESS", "read /etc/hosts", "deny"));
    let cp = Approval::Checkpoint { title: None, completed: 2, total: 5 };
    let (_, kind, subtitle, dismiss) = title_parts(&cp);
    assert_eq!((kind, subtitle.as_str(), dismiss), ("STEP CHECKPOINT", "2/5", "stop"));
    let choice = Approval::Choice {
        question: "q".to_string(),
        options: vec![option("a", "A", None)],
        allow_custom: false,
    };
    assert_eq!(title_parts(&choice).2, "1 option");
}

#[test]
fn shell_body_shows_the_command_and_its_settings() {
    let shell = Approval::Shell {
        command: "echo hi".to_string(),
        cwd: Some("/tmp".to_string()),
        timeout_sec: Some(30),
    };
    assert_eq!(body_lines(&shell, 40, 0), vec!["$ echo hi", "", "cwd /tmp   timeout 30s"]);
    let bare = Approval::Shell { command: "echo hi".to_string(), cwd: None, timeout_sec: None };
    assert_eq!(body_lines(&bare, 40, 0), vec!["$ echo hi"]);
}

#[test]
fn path_and_edit_bodies() {
    let path = Approval::Path {
        path: "/a/b".to_string(),
        intent: "read".to_string(),
        tool_name: "fs".to_string(),
    };
    assert_eq!(body_lines(&path, 40, 0), vec!["intent  read", "tool    fs", "path    /a/b"]);
    let edit = Approval::Edit {
        path: "f.rs".to_string(),
        search: "a\nb".to_string(),
        replace: "c".to_string(),
    };
    assert_eq!(body_lines(&edit, 40, 0), vec!["f.rs   -2  +1", "", "- a", "- b", "+ c"]);
}

#[test]
fn checkpoint_body_reports_progress() {
    let cp = Approval::Checkpoint { title: Some("step one".to_string()), completed: 1, total: 3 };
    assert_eq!(
        body_lines(&cp, 40, 0),
        vec![
            "just finished: step one",
            "",
            "progress: 1 of 3 step(s) done",
            "",
            "continue executing, type a refinement, or stop here?",
        ]
    );
}

#[test]
fn choice_body_marks_the_selected_option() {
    let choice = Approval::Choice {
        question: "Pick?".to_string(),
        options: vec![option("a", "A", Some("first")), option("b", "B", None)],
        allow_custom: true,
    };
    assert_eq!(
        body_lines(&choice, 40, 5),
        vec!["Pick?", "", "a)  \u{25cb}  A", "        first", "b)  \u{25cf}  B"]
    );
}

#[test]
fn plan_body_lists_steps_or_the_text() {
    let plan = Approval::Plan { body: String::new(), steps: vec![step("one", "done"), step("two", "x")] };
    assert_eq!(body_lines(&plan, 40, 0), vec!["\u{2713} [1] one", "\u{25cb} [2] two"]);
    let empty = Approval::Plan { body: String::new(), steps: Vec::new() };
    assert_eq!(body_lines(&empty, 40, 0), vec!["(plan body is empty)"]);
    let long: String = (0..20).map(|i| format!("line {i}\n")).collect();
    let text = Approval::Plan { body: long, steps: Vec::new() };
    assert_eq!(body_lines(&text, 40, 0).len(), MAX_BODY_ROWS);
}

#[test]
fn action_cells_by_kind() {
    let choice = Approval::Choice { question: String::new(), options: Vec::new(), allow_custom: true };
    assert_eq!(
        action_cells(&choice),
        vec![("\u{2191}\u{2193}", "move"), ("\u{21b5}", "pick"), ("1-9", "jump"), ("c", "custom"), ("esc", "cancel")]
    );
    let cp = Approval::Checkpoint { title: None, completed: 0, total: 0 };
    assert_eq!(action_cells(&cp), vec![("\u{21b5}", "continue"), ("r", "revise"), ("s", "stop")]);
}

#[test]
fn popup_sits_above_the_dock() {
    assert_eq!(popup_rect(0, 0, 80, 40, 3, 4), Some((2, 26, 72, 8)));
    assert_eq!(popup_rect(0, 0, 50, 40, 3, 4), None);
    assert_eq!(popup_rect(0, 0, 80, 10, 3, 4), None);
    assert_eq!(popup_rect(0, 0, 200, 60, 30, 10), Some((2, 32, 110, 17)));
}

#[test]
fn a_head_that_fits_is_the_whole_text() {
    for max in 6..10usize {
        assert_eq!(first_chunk("日本語", max), "日本語", "max {max}");
        assert_eq!(first_chunk("ab\tcd", max), "ab\tcd", "max {max}");
    }
    assert_eq!(first_chunk("ab\tcd", 3), "ab\tc\u{2026}");
}
