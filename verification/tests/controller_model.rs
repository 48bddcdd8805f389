//! The key handling checked against a direct model of the interactive
//! loop, written here with plain Rust, over long random key sequences in
//! many scenes.
use reasonix_render::controller::{handle_key, sync_ui, ApprovalChoice, HostEvent, UiAction, UiState};
use reasonix_render::editor::{
    char_to_byte, cursor_on_first_line, cursor_on_last_line, insert_char_at, move_cursor_line, next_word_boundary,
    prev_word_boundary, remove_char_at,
};
use reasonix_render::keys::{Key, KeyCode};
use reasonix_render::overlay::{
    slash_arg_completion, slash_arg_match_count, slash_completion, slash_is_exact, slash_match_count,
};
use reasonix_render::overlay_at::{at_completion, at_match_count};
use reasonix_render::state::{
    Approval, ApprovalChoiceOption, AtPickerEntry, AtState, EditMode, PromptInput, SceneState, SlashArgState, SlashMatch,
};

#[derive(Clone, Debug, PartialEq)]
struct M {
    buffer: String,
    cursor: usize,
    scroll: u16,
    selection: bool,
    slash_idx: usize,
    slash_arg_idx: usize,
    at_idx: usize,
    history: i64,
    approval_idx: usize,
    mode_picker: Option<usize>,
    preset_picker: Option<usize>,
    sidebar: bool,
}

fn of(st: &UiState) -> M {
    M {
        buffer: st.buffer.clone(),
        cursor: st.cursor,
        scroll: st.scroll_offset,
        selection: st.selection_active,
        slash_idx: st.slash_idx,
        slash_arg_idx: st.slash_arg_idx,
        at_idx: st.at_idx,
        history: st.history_cursor,
        approval_idx: st.approval_idx,
        mode_picker: st.mode_picker,
        preset_picker: st.preset_picker,
        sidebar: st.sidebar_visible,
    }
}

fn sync(m: &mut M, scene: &SceneState) {
    let n = m.buffer.chars().count();
    if m.cursor > n {
        m.cursor = n;
    }
    let sc = slash_match_count(&m.buffer, scene);
    if sc == 0 {
        m.slash_idx = 0;
    } else if m.slash_idx >= sc {
        m.slash_idx = sc - 1;
    }
    let sac = if sc > 0 { 0 } else { slash_arg_match_count(&m.buffer, scene) };
    if sac == 0 {
        m.slash_arg_idx = 0;
    } else if m.slash_arg_idx >= sac {
        m.slash_arg_idx = sac - 1;
    }
    let ac = if sc > 0 || sac > 0 { 0 } else { at_match_count(&m.buffer, scene) };
    if ac == 0 {
        m.at_idx = 0;
    } else if m.at_idx >= ac {
        m.at_idx = ac - 1;
    }
}

const MODES: [&str; 3] = ["review", "auto", "yolo"];
const PRESETS: [&str; 3] = ["auto", "flash", "pro"];

fn cycle(code: KeyCode, slot: &mut Option<usize>, values: &[&'static str]) -> Option<&'static str> {
    let n = values.len();
    let idx = slot.as_mut()?;
    match code {
        KeyCode::Up | KeyCode::Char('k') => {
            *idx = if *idx == 0 { n - 1 } else { *idx - 1 };
            None
        }
        KeyCode::Down | KeyCode::Char('j') | KeyCode::Tab | KeyCode::BackTab => {
            *idx = (*idx + 1) % n;
            None
        }
        KeyCode::Char(d) if d.is_ascii_digit() => {
            let pick = d.to_digit(10).unwrap_or(0) as usize;
            if pick >= 1 && pick <= n {
                *idx = pick - 1;
            }
            None
        }
        KeyCode::Enter => {
            let v = values[*idx];
            *slot = None;
            Some(v)
        }
        KeyCode::Esc => {
            *slot = None;
            None
        }
        _ => None,
    }
}

fn approval_answer(k: &Key, a: &Approval, idx: &mut usize) -> Option<ApprovalChoice> {
    let word = |w: &'static str| Some(ApprovalChoice::Word(w));
    match a {
        Approval::Plan { .. } => match k.code {
            KeyCode::Enter => word("approve"),
            KeyCode::Char('r') | KeyCode::Char('R') => word("refine"),
            KeyCode::Char('v') | KeyCode::Char('V') => word("revise"),
            KeyCode::Char('n') | KeyCode::Char('N') | KeyCode::Esc => word("cancel"),
            _ => None,
        },
        Approval::Shell { .. } | Approval::Path { .. } => match k.code {
            KeyCode::Enter => word("run_once"),
            KeyCode::Char('a') | KeyCode::Char('A') => word("always_allow"),
            KeyCode::Char('n') | KeyCode::Char('N') | KeyCode::Esc => word("deny"),
            _ => None,
        },
        Approval::Edit { .. } => match k.code {
            KeyCode::Enter => word("apply"),
            KeyCode::Char('r') | KeyCode::Char('R') | KeyCode::Esc => word("reject"),
            KeyCode::Char('t') | KeyCode::Char('T') => word("apply-rest-of-turn"),
            KeyCode::Char('y') | KeyCode::Char('Y') => word("flip-to-auto"),
            _ => None,
        },
        Approval::Checkpoint { .. } => match k.code {
            KeyCode::Enter => word("continue"),
            KeyCode::Char('r') | KeyCode::Char('R') => word("revise"),
            KeyCode::Char('s') | KeyCode::Char('S') | KeyCode::Esc => word("stop"),
            _ => None,
        },
        Approval::Choice { options, allow_custom, .. } => {
            let n = options.len();
            if *idx >= n && n > 0 {
                *idx = n - 1;
            }
            match k.code {
                KeyCode::Esc => Some(ApprovalChoice::Cancel),
                KeyCode::Up | KeyCode::Char('k') if n > 0 => {
                    *idx = if *idx == 0 { n - 1 } else { *idx - 1 };
                    None
                }
                KeyCode::Down | KeyCode::Char('j') if n > 0 => {
                    *idx = (*idx + 1) % n;
                    None
                }
                KeyCode::Enter if n > 0 => Some(ApprovalChoice::Pick(options[*idx].id.clone())),
                KeyCode::Char('c') | KeyCode::Char('C') if *allow_custom => Some(ApprovalChoice::Custom),
                KeyCode::Char(d) if d.is_ascii_digit() => {
                    let pick = d.to_digit(10).unwrap_or(0) as usize;
                    if pick >= 1 && pick <= n {
                        *idx = pick - 1;
                        Some(ApprovalChoice::Pick(options[pick - 1].id.clone()))
                    } else {
                        None
                    }
                }
                _ => None,
            }
        }
    }
}

fn kind_of(a: &Approval) -> &'static str {
    match a {
        Approval::Plan { .. } => "plan",
        Approval::Shell { .. } => "shell",
        Approval::Path { .. } => "path",
        Approval::Edit { .. } => "edit",
        Approval::Choice { .. } => "choice",
        Approval::Checkpoint { .. } => "checkpoint",
    }
}

fn hist_prev(scene: &SceneState, cursor: &mut i64) -> Option<String> {
    let hist = scene.prompt_history.as_ref()?;
    if hist.is_empty() {
        return None;
    }
    let next = (*cursor + 1).min(hist.len() as i64 - 1);
    *cursor = next;
    hist.get(hist.len() - 1 - next as usize).cloned()
}

fn hist_next(scene: &SceneState, cursor: &mut i64) -> Option<String> {
    if *cursor < 0 {
        return None;
    }
    let hist = scene.prompt_history.as_ref()?;
    let next = *cursor - 1;
    *cursor = next;
    if next < 0 {
        return Some(String::new());
    }
    hist.get(hist.len() - 1 - next as usize).cloned()
}

fn step(m: &mut M, k: &Key, scene: &SceneState) -> UiAction {
    if k.quit {
        if m.selection {
            m.selection = false;
            return UiAction::CopySelection;
        }
        if scene.busy {
            return UiAction::Emit(HostEvent::Interrupt);
        }
        return UiAction::Quit;
    }
    if k.code == KeyCode::Char('d') && k.ctrl {
        return UiAction::Quit;
    }
    if k.code == KeyCode::Char('b') && k.ctrl {
        m.sidebar = !m.sidebar;
        return UiAction::Nothing;
    }
    if m.mode_picker.is_some() || m.preset_picker.is_some() {
        if m.mode_picker.is_some() {
            return match cycle(k.code, &mut m.mode_picker, &MODES) {
                Some(v) => UiAction::Emit(HostEvent::ModeSet(v)),
                None => UiAction::Nothing,
            };
        }
        return match cycle(k.code, &mut m.preset_picker, &PRESETS) {
            Some(v) => UiAction::Emit(HostEvent::PresetSet(v)),
            None => UiAction::Nothing,
        };
    }
    if let Some(p) = scene.prompt_input.as_ref() {
        match k.code {
            KeyCode::Enter => {
                let answer = if m.buffer.is_empty() {
                    p.default_value.clone().unwrap_or_default()
                } else {
                    std::mem::take(&mut m.buffer)
                };
                m.cursor = 0;
                return UiAction::Emit(HostEvent::PromptResponse { id: p.id.clone(), text: answer });
            }
            KeyCode::Esc => {
                m.buffer.clear();
                m.cursor = 0;
                return UiAction::Emit(HostEvent::PromptCancelled { id: p.id.clone() });
            }
            KeyCode::Backspace if m.cursor > 0 => {
                remove_char_at(&mut m.buffer, m.cursor - 1);
                m.cursor -= 1;
            }
            KeyCode::Left => m.cursor = m.cursor.saturating_sub(1),
            KeyCode::Right => m.cursor = (m.cursor + 1).min(m.buffer.chars().count()),
            KeyCode::Home => m.cursor = 0,
            KeyCode::End => m.cursor = m.buffer.chars().count(),
            KeyCode::Char(c) if !k.ctrl => {
                insert_char_at(&mut m.buffer, m.cursor, c);
                m.cursor += 1;
            }
            _ => {}
        }
        return UiAction::Nothing;
    }
    if let Some(a) = scene.approval.as_ref() {
        return match approval_answer(k, a, &mut m.approval_idx) {
            Some(c) => UiAction::Emit(HostEvent::ApprovalResponse { kind: kind_of(a), choice: c }),
            None => UiAction::Nothing,
        };
    }
    let sc = slash_match_count(&m.buffer, scene);
    let sac = if sc > 0 { 0 } else { slash_arg_match_count(&m.buffer, scene) };
    let ac = if sc > 0 || sac > 0 { 0 } else { at_match_count(&m.buffer, scene) };
    let sa = sc > 0;
    let saa = !sa && sac > 0;
    let aa = !sa && !saa && ac > 0;
    let complete_only = sa && !slash_is_exact(&m.buffer, scene);
    let n = m.buffer.chars().count();
    match k.code {
        KeyCode::Up if sa => m.slash_idx = m.slash_idx.saturating_sub(1),
        KeyCode::Down if sa => m.slash_idx = (m.slash_idx + 1).min(sc - 1),
        KeyCode::Tab if sa => {
            if let Some(c) = slash_completion(&m.buffer, m.slash_idx, scene) {
                m.buffer = c.trim_end().to_string();
                m.cursor = m.buffer.chars().count();
            }
        }
        KeyCode::BackTab if sa => m.slash_idx = if m.slash_idx == 0 { sc - 1 } else { m.slash_idx - 1 },
        KeyCode::Enter if complete_only => {
            if let Some(c) = slash_completion(&m.buffer, m.slash_idx, scene) {
                m.cursor = c.chars().count();
                m.buffer = c;
            }
        }
        KeyCode::Up if saa => m.slash_arg_idx = m.slash_arg_idx.saturating_sub(1),
        KeyCode::Down if saa => m.slash_arg_idx = (m.slash_arg_idx + 1).min(sac - 1),
        KeyCode::Tab | KeyCode::Enter if saa => {
            if let Some(c) = slash_arg_completion(&m.buffer, m.slash_arg_idx, scene) {
                m.cursor = c.chars().count();
                m.buffer = c;
            }
        }
        KeyCode::BackTab if saa => m.slash_arg_idx = if m.slash_arg_idx == 0 { sac - 1 } else { m.slash_arg_idx - 1 },
        KeyCode::Up if aa => m.at_idx = m.at_idx.saturating_sub(1),
        KeyCode::Down if aa => m.at_idx = (m.at_idx + 1).min(ac - 1),
        KeyCode::Tab | KeyCode::Enter if aa => {
            if let Some(c) = at_completion(&m.buffer, m.at_idx, scene) {
                m.cursor = c.chars().count();
                m.buffer = c;
            }
        }
        KeyCode::BackTab if aa => m.at_idx = if m.at_idx == 0 { ac - 1 } else { m.at_idx - 1 },
        KeyCode::BackTab => {
            let next = match scene.edit_mode {
                Some(EditMode::Review) => "auto",
                Some(EditMode::Auto) => "yolo",
                Some(EditMode::Yolo) | None => "review",
            };
            return UiAction::Emit(HostEvent::ModeSet(next));
        }
        KeyCode::Up => {
            if cursor_on_first_line(&m.buffer, m.cursor) {
                if let Some(t) = hist_prev(scene, &mut m.history) {
                    m.buffer = t;
                    m.cursor = m.buffer.chars().count();
                    m.scroll = 0;
                }
            } else {
                m.cursor = move_cursor_line(&m.buffer, m.cursor, -1);
            }
        }
        KeyCode::Down => {
            if cursor_on_last_line(&m.buffer, m.cursor) {
                if let Some(t) = hist_next(scene, &mut m.history) {
                    m.cursor = t.chars().count();
                    m.buffer = t;
                    m.scroll = 0;
                }
            } else {
                m.cursor = move_cursor_line(&m.buffer, m.cursor, 1);
            }
        }
        KeyCode::Esc => {
            if m.selection {
                m.selection = false;
            } else {
                m.buffer.clear();
                m.cursor = 0;
                m.slash_idx = 0;
                m.at_idx = 0;
                m.history = -1;
            }
        }
        KeyCode::PageUp => m.scroll = m.scroll.saturating_add(10),
        KeyCode::PageDown => m.scroll = m.scroll.saturating_sub(10),
        KeyCode::Left if k.ctrl => m.cursor = prev_word_boundary(&m.buffer, m.cursor),
        KeyCode::Right if k.ctrl => m.cursor = next_word_boundary(&m.buffer, m.cursor),
        KeyCode::Left => m.cursor = m.cursor.saturating_sub(1),
        KeyCode::Right => m.cursor = (m.cursor + 1).min(n),
        KeyCode::Home => m.cursor = 0,
        KeyCode::End => m.cursor = n,
        KeyCode::Char(c) if !k.ctrl => {
            m.selection = false;
            insert_char_at(&mut m.buffer, m.cursor, c);
            m.cursor += 1;
            m.slash_idx = 0;
            m.at_idx = 0;
            m.scroll = 0;
        }
        KeyCode::Backspace if k.ctrl => {
            m.selection = false;
            let nc = prev_word_boundary(&m.buffer, m.cursor);
            let from = char_to_byte(&m.buffer, nc);
            let to = char_to_byte(&m.buffer, m.cursor);
            m.buffer.drain(from..to);
            m.cursor = nc;
            m.slash_idx = 0;
            m.at_idx = 0;
        }
        KeyCode::Backspace => {
            m.selection = false;
            if m.cursor > 0 {
                remove_char_at(&mut m.buffer, m.cursor - 1);
                m.cursor -= 1;
            }
            m.slash_idx = 0;
            m.at_idx = 0;
        }
        KeyCode::Delete => {
            if m.cursor < n {
                remove_char_at(&mut m.buffer, m.cursor);
            }
            m.slash_idx = 0;
            m.at_idx = 0;
        }
        KeyCode::Enter if k.shift => {
            m.selection = false;
            insert_char_at(&mut m.buffer, m.cursor, '\n');
            m.cursor += 1;
            m.slash_idx = 0;
            m.at_idx = 0;
        }
        KeyCode::Enter => {
            m.selection = false;
            let text = m.buffer.trim().to_string();
            m.buffer.clear();
            m.cursor = 0;
            m.slash_idx = 0;
            m.at_idx = 0;
            m.scroll = 0;
            m.history = -1;
            if !text.is_empty() {
                return UiAction::Emit(HostEvent::Submit(text));
            }
        }
        _ => {}
    }
    UiAction::Nothing
}

fn command(cmd: &str, completer: Option<&[&str]>) -> SlashMatch {
    SlashMatch {
        cmd: cmd.to_string(),
        summary: format!("{cmd} summary"),
        group: Some("chat".to_string()),
        args_hint: None,
        aliases: Vec::new(),
        arg_completer: completer.map(|c| c.iter().map(|s| s.to_string()).collect()),
    }
}

fn entry(label: &str, is_dir: bool) -> AtPickerEntry {
    AtPickerEntry { label: label.to_string(), insert_path: label.to_string(), dir_suffix: String::new(), is_dir }
}

fn scenes() -> Vec<SceneState> {
    let catalog = Some(vec![
        command("clear", None),
        command("compact", None),
        command("cost", None),
        command("theme", Some(&["dark", "light", "dim"])),
        command("model", Some(&["flash", "pro"])),
    ]);
    let options = vec![
        ApprovalChoiceOption { id: "x".to_string(), title: "X".to_string(), summary: None },
        ApprovalChoiceOption { id: "y".to_string(), title: "Y".to_string(), summary: None },
        ApprovalChoiceOption { id: "z".to_string(), title: "Z".to_string(), summary: None },
    ];
    let mut out = vec![
        SceneState::default(),
        SceneState { slash_catalog: catalog.clone(), edit_mode: Some(EditMode::Auto), ..Default::default() },
        SceneState {
            slash_catalog: catalog.clone(),
            slash_arg_state: Some(SlashArgState { cmd: "model".to_string(), partial: "f".to_string(), matches: vec!["fast-1".to_string(), "fast-2".to_string()] }),
            ..Default::default()
        },
        SceneState {
            at_state: Some(AtState::Browse { base_dir: String::new(), entries: vec![entry("src/", true), entry("a.rs", false), entry("b.rs", false)], loading: false }),
            busy: true,
            ..Default::default()
        },
        SceneState {
            prompt_history: Some(vec!["first".to_string(), "second\nline".to_string(), "third".to_string()]),
            edit_mode: Some(EditMode::Yolo),
            ..Default::default()
        },
        SceneState {
            prompt_input: Some(PromptInput { id: "key".to_string(), label: "API key".to_string(), default_value: Some("dflt".to_string()), secret: true }),
            ..Default::default()
        },
        SceneState { prompt_input: Some(PromptInput::default()), ..Default::default() },
    ];
    for a in [
        Approval::Plan { body: "p".to_string(), steps: vec![] },
        Approval::Shell { command: "ls".to_string(), cwd: None, timeout_sec: None },
        Approval::Path { path: "/p".to_string(), intent: "read".to_string(), tool_name: "fs".to_string() },
        Approval::Edit { path: "e".to_string(), search: String::new(), replace: String::new() },
        Approval::Checkpoint { title: None, completed: 1, total: 2 },
        Approval::Choice { question: "q".to_string(), options: options.clone(), allow_custom: true },
        Approval::Choice { question: "q".to_string(), options: vec![], allow_custom: false },
    ] {
        out.push(SceneState { approval: Some(a), slash_catalog: catalog.clone(), ..Default::default() });
    }
    out
}

fn keys() -> Vec<Key> {
    let plain = |code| Key { code, ctrl: false, shift: false, quit: false };
    let ctrl = |code| Key { code, ctrl: true, shift: false, quit: false };
    let mut v: Vec<Key> = "a /chtekj12@rnysvxmd \u{e9}".chars().map(|c| plain(KeyCode::Char(c))).collect();
    for code in [
        KeyCode::Enter,
        KeyCode::Esc,
        KeyCode::Backspace,
        KeyCode::Delete,
        KeyCode::Left,
        KeyCode::Right,
        KeyCode::Up,
        KeyCode::Down,
        KeyCode::Home,
        KeyCode::End,
        KeyCode::Tab,
        KeyCode::BackTab,
        KeyCode::PageUp,
        KeyCode::PageDown,
        KeyCode::Other,
    ] {
        v.push(plain(code));
    }
    v.push(Key { code: KeyCode::Enter, ctrl: false, shift: true, quit: false });
    v.push(ctrl(KeyCode::Backspace));
    v.push(ctrl(KeyCode::Left));
    v.push(ctrl(KeyCode::Right));
    v.push(ctrl(KeyCode::Char('b')));
    v.push(ctrl(KeyCode::Char('d')));
    v.push(Key { code: KeyCode::Char('c'), ctrl: true, shift: false, quit: true });
    v
}

#[test]
fn random_key_sequences_match_the_model() {
    let keys = keys();
    let mut seed: u64 = 0x9E37_79B9_7F4A_7C15;
    let mut next = move || {
        seed ^= seed << 13;
        seed ^= seed >> 7;
        seed ^= seed << 17;
        seed
    };
    for (si, scene) in scenes().iter().enumerate() {
        for run in 0..40 {
            let mut st = UiState::new();
            let mut m = of(&st);
            for step_no in 0..120 {
                let r = next();
                if r % 23 == 0 {
                    st.selection_active = true;
                    m.selection = true;
                }
                if r % 37 == 0 && st.mode_picker.is_none() && st.preset_picker.is_none() {
                    let which = (r >> 8) % 3;
                    if r % 2 == 0 {
                        st.mode_picker = Some(which as usize);
                        m.mode_picker = Some(which as usize);
                    } else {
                        st.preset_picker = Some(which as usize);
                        m.preset_picker = Some(which as usize);
                    }
                }
                sync_ui(&mut st, scene);
                sync(&mut m, scene);
                assert_eq!(of(&st), m, "scene {si} run {run} step {step_no} after sync");
                let k = keys[(next() % keys.len() as u64) as usize];
                let got = handle_key(&mut st, &k, scene);
                let want = step(&mut m, &k, scene);
                assert_eq!(got, want, "scene {si} run {run} step {step_no} key {k:?}");
                assert_eq!(of(&st), m, "scene {si} run {run} step {step_no} key {k:?}");
            }
        }
    }
}
