use reasonix_render::controller::{
    handle_approval_key, handle_key, history_next, history_prev, should_echo_composer, sync_ui, ApprovalChoice,
    HostEvent, UiAction, UiState,
};
use reasonix_render::keys::{Key, KeyCode};
use reasonix_render::state::{Approval, ApprovalChoiceOption, EditMode, PromptInput, SceneState, SlashMatch};

fn key(code: KeyCode) -> Key {
    Key { code, ctrl: false, shift: false, quit: false }
}

fn ctrl(code: KeyCode) -> Key {
    Key { code, ctrl: true, shift: false, quit: false }
}

fn quit() -> Key {
    Key { code: KeyCode::Char('c'), ctrl: true, shift: false, quit: true }
}

fn catalog(names: &[&str]) -> SceneState {
    SceneState {
        slash_catalog: Some(
            names
                .iter()
                .map(|n| SlashMatch {
                    cmd: n.to_string(),
                    summary: String::new(),
                    group: None,
                    args_hint: None,
                    aliases: Vec::new(),
                    arg_completer: None,
                })
                .collect(),
        ),
        ..Default::default()
    }
}

fn type_text(st: &mut UiState, scene: &SceneState, text: &str) {
    for c in text.chars() {
        sync_ui(st, scene);
        assert_eq!(handle_key(st, &key(KeyCode::Char(c)), scene), UiAction::Nothing);
    }
}

#[test]
fn typing_then_enter_submits_the_trimmed_text() {
    let scene = SceneState::default();
    let mut st = UiState::new();
    type_text(&mut st, &scene, "  hi  ");
    assert_eq!(st.buffer, "  hi  ");
    assert_eq!(st.cursor, 6);
    let r = handle_key(&mut st, &key(KeyCode::Enter), &scene);
    assert_eq!(r, UiAction::Emit(HostEvent::Submit("hi".to_string())));
    assert_eq!(st.buffer, "");
    assert_eq!(st.cursor, 0);
}

#[test]
fn enter_on_blank_text_sends_nothing() {
    let scene = SceneState::default();
    let mut st = UiState::new();
    type_text(&mut st, &scene, "   ");
    assert_eq!(handle_key(&mut st, &key(KeyCode::Enter), &scene), UiAction::Nothing);
    assert_eq!(st.buffer, "");
}

#[test]
fn backspace_after_typing_restores_the_text() {
    let scene = SceneState::default();
    let mut st = UiState::new();
    type_text(&mut st, &scene, "ab");
    handle_key(&mut st, &key(KeyCode::Left), &scene);
    handle_key(&mut st, &key(KeyCode::Char('X')), &scene);
    assert_eq!(st.buffer, "aXb");
    handle_key(&mut st, &key(KeyCode::Backspace), &scene);
    assert_eq!(st.buffer, "ab");
    assert_eq!(st.cursor, 1);
}

#[test]
fn quit_chord_copies_a_selection_interrupts_a_busy_turn_or_quits() {
    let mut st = UiState::new();
    st.selection_active = true;
    let scene = SceneState::default();
    assert_eq!(handle_key(&mut st, &quit(), &scene), UiAction::CopySelection);
    assert!(!st.selection_active);
    let busy = SceneState { busy: true, ..Default::default() };
    assert_eq!(handle_key(&mut st, &quit(), &busy), UiAction::Emit(HostEvent::Interrupt));
    assert_eq!(handle_key(&mut st, &quit(), &scene), UiAction::Quit);
}

#[test]
fn ctrl_b_toggles_the_sidebar_and_ctrl_d_quits() {
    let scene = SceneState::default();
    let mut st = UiState::new();
    assert!(st.sidebar_visible);
    handle_key(&mut st, &ctrl(KeyCode::Char('b')), &scene);
    assert!(!st.sidebar_visible);
    assert_eq!(handle_key(&mut st, &ctrl(KeyCode::Char('d')), &scene), UiAction::Quit);
}

#[test]
fn slash_popup_moves_and_completes() {
    let scene = catalog(&["clear", "compact", "commit", "undo"]);
    let mut st = UiState::new();
    type_text(&mut st, &scene, "/c");
    sync_ui(&mut st, &scene);
    handle_key(&mut st, &key(KeyCode::Down), &scene);
    assert_eq!(st.slash_idx, 1);
    handle_key(&mut st, &key(KeyCode::Tab), &scene);
    assert_eq!(st.buffer, "/compact");
    assert_eq!(st.cursor, 8);
}

#[test]
fn backtab_without_a_popup_cycles_the_mode() {
    let scene = SceneState { edit_mode: Some(EditMode::Review), ..Default::default() };
    let mut st = UiState::new();
    assert_eq!(
        handle_key(&mut st, &key(KeyCode::BackTab), &scene),
        UiAction::Emit(HostEvent::ModeSet("auto"))
    );
    let yolo = SceneState { edit_mode: Some(EditMode::Yolo), ..Default::default() };
    assert_eq!(
        handle_key(&mut st, &key(KeyCode::BackTab), &yolo),
        UiAction::Emit(HostEvent::ModeSet("review"))
    );
}

#[test]
fn history_steps_back_and_forward() {
    let scene = SceneState {
        prompt_history: Some(vec!["first".to_string(), "second".to_string()]),
        ..Default::default()
    };
    let mut c: i64 = -1;
    assert_eq!(history_prev(&scene, &mut c), Some("second".to_string()));
    assert_eq!(c, 0);
    assert_eq!(history_prev(&scene, &mut c), Some("first".to_string()));
    assert_eq!(history_prev(&scene, &mut c), Some("first".to_string()));
    assert_eq!(c, 1);
    assert_eq!(history_next(&scene, &mut c), Some("second".to_string()));
    assert_eq!(history_next(&scene, &mut c), Some(String::new()));
    assert_eq!(c, -1);
}

#[test]
fn up_on_the_first_line_recalls_history() {
    let scene = SceneState {
        prompt_history: Some(vec!["old prompt".to_string()]),
        ..Default::default()
    };
    let mut st = UiState::new();
    handle_key(&mut st, &key(KeyCode::Up), &scene);
    assert_eq!(st.buffer, "old prompt");
    assert_eq!(st.cursor, 10);
}

#[test]
fn approval_keys_answer_by_kind() {
    let plan = Approval::Plan { body: String::new(), steps: Vec::new() };
    let mut idx = 0usize;
    assert_eq!(handle_approval_key(&key(KeyCode::Enter), &plan, &mut idx), Some(ApprovalChoice::Word("approve")));
    assert_eq!(handle_approval_key(&key(KeyCode::Char('V')), &plan, &mut idx), Some(ApprovalChoice::Word("revise")));
    assert_eq!(handle_approval_key(&key(KeyCode::Esc), &plan, &mut idx), Some(ApprovalChoice::Word("cancel")));
    let shell = Approval::Shell { command: "ls".to_string(), cwd: None, timeout_sec: None };
    assert_eq!(handle_approval_key(&key(KeyCode::Enter), &shell, &mut idx), Some(ApprovalChoice::Word("run_once")));
    assert_eq!(handle_approval_key(&key(KeyCode::Char('a')), &shell, &mut idx), Some(ApprovalChoice::Word("always_allow")));
    let edit = Approval::Edit { path: "p".to_string(), search: String::new(), replace: String::new() };
    assert_eq!(handle_approval_key(&key(KeyCode::Char('t')), &edit, &mut idx), Some(ApprovalChoice::Word("apply-rest-of-turn")));
    assert_eq!(handle_approval_key(&key(KeyCode::Char('x')), &edit, &mut idx), None);
}

#[test]
fn choice_approval_moves_picks_and_jumps() {
    let options = vec![
        ApprovalChoiceOption { id: "a".to_string(), title: "A".to_string(), summary: None },
        ApprovalChoiceOption { id: "b".to_string(), title: "B".to_string(), summary: None },
        ApprovalChoiceOption { id: "c".to_string(), title: "C".to_string(), summary: None },
    ];
    let choice = Approval::Choice { question: "?".to_string(), options, allow_custom: true };
    let mut idx = 0usize;
    assert_eq!(handle_approval_key(&key(KeyCode::Up), &choice, &mut idx), None);
    assert_eq!(idx, 2);
    assert_eq!(handle_approval_key(&key(KeyCode::Down), &choice, &mut idx), None);
    assert_eq!(idx, 0);
    assert_eq!(handle_approval_key(&key(KeyCode::Enter), &choice, &mut idx), Some(ApprovalChoice::Pick("a".to_string())));
    assert_eq!(handle_approval_key(&key(KeyCode::Char('2')), &choice, &mut idx), Some(ApprovalChoice::Pick("b".to_string())));
    assert_eq!(idx, 1);
    assert_eq!(handle_approval_key(&key(KeyCode::Char('9')), &choice, &mut idx), None);
    assert_eq!(handle_approval_key(&key(KeyCode::Char('c')), &choice, &mut idx), Some(ApprovalChoice::Custom));
    assert_eq!(handle_approval_key(&key(KeyCode::Esc), &choice, &mut idx), Some(ApprovalChoice::Cancel));
}

#[test]
fn prompt_input_answers_with_the_default_when_empty() {
    let scene = SceneState {
        prompt_input: Some(PromptInput {
            id: "p1".to_string(),
            label: "Name".to_string(),
            default_value: Some("anon".to_string()),
            secret: false,
        }),
        ..Default::default()
    };
    let mut st = UiState::new();
    let r = handle_key(&mut st, &key(KeyCode::Enter), &scene);
    assert_eq!(
        r,
        UiAction::Emit(HostEvent::PromptResponse { id: "p1".to_string(), text: "anon".to_string() })
    );
    let r = handle_key(&mut st, &key(KeyCode::Esc), &scene);
    assert_eq!(r, UiAction::Emit(HostEvent::PromptCancelled { id: "p1".to_string() }));
}

#[test]
fn mode_picker_moves_and_picks() {
    let scene = SceneState::default();
    let mut st = UiState::new();
    st.mode_picker = Some(0);
    handle_key(&mut st, &key(KeyCode::Down), &scene);
    assert_eq!(st.mode_picker, Some(1));
    let r = handle_key(&mut st, &key(KeyCode::Enter), &scene);
    assert_eq!(r, UiAction::Emit(HostEvent::ModeSet("auto")));
    assert_eq!(st.mode_picker, None);
}

#[test]
fn enter_on_an_exact_command_submits_it() {
    let scene = catalog(&["cost", "costs"]);
    let mut st = UiState::new();
    type_text(&mut st, &scene, "/cost");
    sync_ui(&mut st, &scene);
    let r = handle_key(&mut st, &key(KeyCode::Enter), &scene);
    assert_eq!(r, UiAction::Emit(HostEvent::Submit("/cost".to_string())));
    assert_eq!(st.buffer, "");
}

#[test]
fn enter_on_a_prefix_completes_it() {
    let scene = catalog(&["cost", "costs"]);
    let mut st = UiState::new();
    type_text(&mut st, &scene, "/co");
    sync_ui(&mut st, &scene);
    assert_eq!(handle_key(&mut st, &key(KeyCode::Enter), &scene), UiAction::Nothing);
    assert_eq!(st.buffer, "/cost ");
}

#[test]
fn up_then_down_comes_back_to_the_same_history_entry() {
    let scene = SceneState {
        prompt_history: Some(vec!["one".to_string(), "two".to_string(), "three".to_string()]),
        ..Default::default()
    };
    let mut st = UiState::new();
    sync_ui(&mut st, &scene);
    handle_key(&mut st, &key(KeyCode::Up), &scene);
    assert_eq!((st.buffer.as_str(), st.history_cursor), ("three", 0));
    handle_key(&mut st, &key(KeyCode::Up), &scene);
    assert_eq!((st.buffer.as_str(), st.history_cursor), ("two", 1));
    handle_key(&mut st, &key(KeyCode::Down), &scene);
    assert_eq!((st.buffer.as_str(), st.history_cursor), ("three", 0));
    handle_key(&mut st, &key(KeyCode::Down), &scene);
    assert_eq!((st.buffer.as_str(), st.history_cursor), ("", -1));
}

#[test]
fn a_private_answer_is_never_echoed_and_leaves_only_on_enter() {
    let scene = SceneState {
        prompt_input: Some(PromptInput {
            id: "key".to_string(),
            label: "API key".to_string(),
            default_value: None,
            secret: true,
        }),
        ..Default::default()
    };
    let mut st = UiState::new();
    let last_sent = String::new();
    for c in "s3cret".chars() {
        sync_ui(&mut st, &scene);
        assert!(!should_echo_composer(&scene, &st.buffer, &last_sent));
        assert_eq!(handle_key(&mut st, &key(KeyCode::Char(c)), &scene), UiAction::Nothing);
    }
    sync_ui(&mut st, &scene);
    assert!(!should_echo_composer(&scene, &st.buffer, &last_sent));
    let r = handle_key(&mut st, &key(KeyCode::Enter), &scene);
    assert_eq!(r, UiAction::Emit(HostEvent::PromptResponse { id: "key".to_string(), text: "s3cret".to_string() }));
    assert_eq!(st.buffer, "");
    assert!(should_echo_composer(&SceneState::default(), "s3cret", ""));
}
