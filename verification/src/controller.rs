//! The decisions of the interactive loop: what a key press does to the
//! composer, the pickers and the pending approval, and which event is
//! sent back to the host. The loop itself (terminal and pipe I/O) runs in
//! the application; it hands each key to `handle_key` and performs the
//! returned action.
use crate::editor::{
    cursor_on_first_line, cursor_on_last_line, inserted, insert_char_at, line_of, locate,
    move_cursor_line, moved_cursor, next_word, next_word_boundary, prev_word,
    prev_word_boundary, remove_char_at, removed,
};
use crate::keys::{digit_value, is_digit, Key, KeyCode};
use crate::overlay::{
    arg_matches, completion_text, exact_command, is_slash_query, slash_arg_completion,
    slash_arg_match_count, slash_completion, slash_is_exact, slash_match_count, slash_matches,
    split_arg, views,
};
use crate::overlay_at::{at_completion, at_entries, at_match_count, at_token, entry_insert_text};
use crate::state::{Approval, ApprovalChoiceOption, EditMode, PromptInput, SceneState};
use crate::text::{
    chars_of, decimal, push_decimal, str_width, str_width_of, string_from_chars, upper_all,
    uppercase_each, string_from_range, string_lit, string_of, trim, trim_end,
    trim_end_ws, trim_ws, is_ws,
};
use vstd::prelude::*;

verus! {

/// What a picker key does: move the highlight, pick, or close.
pub open spec fn picker_step(code: KeyCode, idx: int, n: int) -> (Option<int>, Option<int>) {
    match code {
        KeyCode::Up => (Some(if idx == 0 { n - 1 } else { idx - 1 }), None),
        KeyCode::Char(c) if c == 'k' => (Some(if idx == 0 { n - 1 } else { idx - 1 }), None),
        KeyCode::Down | KeyCode::Tab | KeyCode::BackTab => (Some((idx + 1) % n), None),
        KeyCode::Char(c) if c == 'j' => (Some((idx + 1) % n), None),
        KeyCode::Char(d) if is_digit(d) => (
            Some(if 1 <= digit_value(d) <= n { digit_value(d) - 1 } else { idx }),
            None,
        ),
        KeyCode::Enter => (None, Some(idx)),
        KeyCode::Esc => (None, None),
        _ => (Some(idx), None),
    }
}

/// Moves or closes an open picker over `values`; returns the picked value
/// when Enter closes it. A closed picker is left alone.
pub fn cycle_or_pick(key: &Key, slot: &mut Option<usize>, values: &[&'static str]) -> (r: Option<
    &'static str,
>)
    requires
        values@.len() > 0,
        *old(slot) matches Some(i) ==> i < values@.len(),
    ensures
        match *old(slot) {
            None => r is None && *final(slot) is None,
            Some(i) => {
                let (next, picked) = picker_step(key.code, i as int, values@.len() as int);
                &&& (match next {
                    Some(j) => *final(slot) == Some(j as usize),
                    None => *final(slot) is None,
                })
                &&& (match picked {
                    Some(j) => r == Some(values@[j]),
                    None => r is None,
                })
            },
        },
        *final(slot) matches Some(i) ==> i < values@.len(),
{
    let n = values.len();
    let idx = match *slot {
        Some(i) => i,
        None => return None,
    };
    match key.code {
        KeyCode::Up => {
            *slot = Some(
                if idx == 0 {
                    n - 1
                } else {
                    idx - 1
                },
            );
            None
        },
        KeyCode::Char('k') => {
            *slot = Some(
                if idx == 0 {
                    n - 1
                } else {
                    idx - 1
                },
            );
            None
        },
        KeyCode::Down | KeyCode::Tab | KeyCode::BackTab | KeyCode::Char('j') => {
            *slot = Some((idx + 1) % n);
            None
        },
        KeyCode::Char(d) if '0' <= d && d <= '9' => {
            let pick = ((d as u32) - ('0' as u32)) as usize;
            if pick >= 1 && pick <= n {
                *slot = Some(pick - 1);
            }
            None
        },
        KeyCode::Enter => {
            let value = values[idx];
            *slot = None;
            Some(value)
        },
        KeyCode::Esc => {
            *slot = None;
            None
        },
        _ => None,
    }
}

/// The protocol values of the autonomy modes, in picker order.
pub fn mode_values() -> (r: Vec<&'static str>)
    ensures
        r@.len() == 3,
        r@[0]@ == "review"@,
        r@[1]@ == "auto"@,
        r@[2]@ == "yolo"@,
{
    let mut v: Vec<&'static str> = Vec::new();
    v.push("review");
    v.push("auto");
    v.push("yolo");
    v
}

/// The protocol values of the model presets, in picker order.
pub fn preset_values() -> (r: Vec<&'static str>)
    ensures
        r@.len() == 3,
        r@[0]@ == "auto"@,
        r@[1]@ == "flash"@,
        r@[2]@ == "pro"@,
{
    let mut v: Vec<&'static str> = Vec::new();
    v.push("auto");
    v.push("flash");
    v.push("pro");
    v
}

/// Index of the scene's mode in the mode picker (review when unset).
pub fn current_mode_idx(scene: &SceneState) -> (r: usize)
    ensures
        r == match scene.edit_mode {
            Some(EditMode::Review) => 0usize,
            Some(EditMode::Auto) => 1,
            Some(EditMode::Yolo) => 2,
            None => 0,
        },
{
    match scene.edit_mode {
        Some(EditMode::Review) => 0,
        Some(EditMode::Auto) => 1,
        Some(EditMode::Yolo) => 2,
        None => 0,
    }
}

/// Index of the scene's preset in the preset picker (auto when unset or
/// unknown).
pub fn current_preset_idx(scene: &SceneState) -> (r: usize)
    ensures
        r == match scene.preset {
            Some(p) => if p@ == "flash"@ {
                1usize
            } else if p@ == "pro"@ {
                2
            } else {
                0
            },
            None => 0,
        },
{
    match &scene.preset {
        Some(p) => {
            if crate::text::str_eq(p.as_str(), "flash") {
                1
            } else if crate::text::str_eq(p.as_str(), "pro") {
                2
            } else {
                0
            }
        },
        None => 0,
    }
}

/// The history entry `k` places back from the newest, if any.
pub open spec fn history_entry(hist: Seq<Seq<char>>, k: int) -> Option<Seq<char>> {
    if 0 <= k < hist.len() {
        Some(hist[hist.len() - 1 - k])
    } else {
        None
    }
}

/// Steps back in the prompt history: the position moves one entry older
/// (stopping at the oldest) and that entry is returned; nothing happens
/// without a history or with an empty one.
pub fn history_prev(scene: &SceneState, cursor: &mut i64) -> (r: Option<String>)
    requires
        *old(cursor) < i64::MAX,
        scene.prompt_history matches Some(h) ==> h@.len() <= i64::MAX,
    ensures
        *final(cursor) < i64::MAX,
        match scene.prompt_history {
            Some(h) if h@.len() > 0 => {
                let next = if *old(cursor) + 1 < h@.len() - 1 {
                    *old(cursor) + 1
                } else {
                    h@.len() - 1
                };
                &&& *final(cursor) == next
                &&& (match r {
                    Some(s) => history_entry(views(h@), next as int) == Some(s@),
                    None => history_entry(views(h@), next as int) is None,
                })
            },
            _ => r is None && *final(cursor) == *old(cursor),
        },
{
    let hist = match &scene.prompt_history {
        Some(h) => h,
        None => return None,
    };
    let n = hist.len();
    if n == 0 {
        return None;
    }
    let up = *cursor + 1;
    let last = (n - 1) as i64;
    let next: i64 = if up < last {
        up
    } else {
        last
    };
    *cursor = next;
    if next < 0 || (next as u64) >= (n as u64) {
        return None;
    }
    let k = next as usize;
    Some(hist[n - 1 - k].clone())
}

/// Steps forward in the prompt history: past the newest entry the
/// composer is cleared (the empty text is returned); without a position in
/// the history nothing happens.
pub fn history_next(scene: &SceneState, cursor: &mut i64) -> (r: Option<String>)
    ensures
        *old(cursor) < 0 ==> r is None && *final(cursor) == *old(cursor),
        *old(cursor) >= 0 ==> match scene.prompt_history {
            None => r is None && *final(cursor) == *old(cursor),
            Some(h) => {
                &&& *final(cursor) == *old(cursor) - 1
                &&& (if *final(cursor) < 0 {
                    r matches Some(s) && s@.len() == 0
                } else {
                    match r {
                        Some(s) => history_entry(views(h@), *final(cursor) as int) == Some(s@),
                        None => history_entry(views(h@), *final(cursor) as int) is None,
                    }
                })
            },
        },
{
    if *cursor < 0 {
        return None;
    }
    let hist = match &scene.prompt_history {
        Some(h) => h,
        None => return None,
    };
    let next = *cursor - 1;
    *cursor = next;
    if next < 0 {
        return Some(String::new());
    }
    let n = hist.len();
    if (next as u64) >= (n as u64) {
        return None;
    }
    let k = next as usize;
    Some(hist[n - 1 - k].clone())
}

/// The kind name of an approval, as sent back to the host.
pub open spec fn approval_kind(a: Approval) -> Seq<char> {
    match a {
        Approval::Plan { .. } => "plan"@,
        Approval::Shell { .. } => "shell"@,
        Approval::Path { .. } => "path"@,
        Approval::Edit { .. } => "edit"@,
        Approval::Choice { .. } => "choice"@,
        Approval::Checkpoint { .. } => "checkpoint"@,
    }
}

/// The kind name of an approval.
pub fn approval_kind_label(approval: &Approval) -> (r: &'static str)
    ensures
        r@ == approval_kind(*approval),
{
    match approval {
        Approval::Plan { .. } => "plan",
        Approval::Shell { .. } => "shell",
        Approval::Path { .. } => "path",
        Approval::Edit { .. } => "edit",
        Approval::Choice { .. } => "choice",
        Approval::Checkpoint { .. } => "checkpoint",
    }
}

/// The answer to an approval request.
#[derive(Debug, Clone, PartialEq, Eq)]
pub enum ApprovalChoice {
    /// A plain answer such as `approve` or `deny`.
    Word(&'static str),
    /// The choice request is cancelled.
    Cancel,
    /// The option with this id is picked.
    Pick(String),
    /// The user wants to type a custom answer.
    Custom,
}

/// Whether `code` is the character `c` in either case.
pub open spec fn is_letter(code: KeyCode, lower: char, upper: char) -> bool {
    code == KeyCode::Char(lower) || code == KeyCode::Char(upper)
}

/// The plain answer a key gives to a non-choice approval, if any.
pub open spec fn approval_word(a: Approval, code: KeyCode) -> Option<Seq<char>> {
    match a {
        Approval::Plan { .. } => if code == KeyCode::Enter {
            Some("approve"@)
        } else if is_letter(code, 'r', 'R') {
            Some("refine"@)
        } else if is_letter(code, 'v', 'V') {
            Some("revise"@)
        } else if is_letter(code, 'n', 'N') || code == KeyCode::Esc {
            Some("cancel"@)
        } else {
            None
        },
        Approval::Shell { .. } | Approval::Path { .. } => if code == KeyCode::Enter {
            Some("run_once"@)
        } else if is_letter(code, 'a', 'A') {
            Some("always_allow"@)
        } else if is_letter(code, 'n', 'N') || code == KeyCode::Esc {
            Some("deny"@)
        } else {
            None
        },
        Approval::Edit { .. } => if code == KeyCode::Enter {
            Some("apply"@)
        } else if is_letter(code, 'r', 'R') || code == KeyCode::Esc {
            Some("reject"@)
        } else if is_letter(code, 't', 'T') {
            Some("apply-rest-of-turn"@)
        } else if is_letter(code, 'y', 'Y') {
            Some("flip-to-auto"@)
        } else {
            None
        },
        Approval::Checkpoint { .. } => if code == KeyCode::Enter {
            Some("continue"@)
        } else if is_letter(code, 'r', 'R') {
            Some("revise"@)
        } else if is_letter(code, 's', 'S') || code == KeyCode::Esc {
            Some("stop"@)
        } else {
            None
        },
        Approval::Choice { .. } => None,
    }
}

/// What a key does to a choice request with `n` options, the highlight at
/// `idx` (already clamped to the last option): the new highlight and the
/// answer, if any. Up/`k` and Down/`j` move the highlight with wrap-around,
/// Enter picks it, a digit `1..=n` picks that option, `c` asks for a custom
/// answer when allowed, Esc cancels.
pub open spec fn choice_step(code: KeyCode, idx: int, n: int, allow_custom: bool) -> (
    int,
    Option<Option<int>>,
) {
    if code == KeyCode::Esc {
        (idx, Some(None))
    } else if (code == KeyCode::Up || code == KeyCode::Char('k')) && n > 0 {
        (if idx == 0 { n - 1 } else { idx - 1 }, None)
    } else if (code == KeyCode::Down || code == KeyCode::Char('j')) && n > 0 {
        ((idx + 1) % n, None)
    } else if code == KeyCode::Enter && n > 0 {
        (idx, Some(Some(idx)))
    } else if is_letter(code, 'c', 'C') && allow_custom {
        (idx, Some(Some(-1)))
    } else if code matches KeyCode::Char(d) && is_digit(d) {
        let d = code->Char_0;
        if 1 <= digit_value(d) <= n {
            (digit_value(d) - 1, Some(Some(digit_value(d) - 1)))
        } else {
            (idx, None)
        }
    } else {
        (idx, None)
    }
}

/// `choice_step` on machine integers; the custom answer is `usize::MAX`.
fn choice_key(code: KeyCode, idx: usize, n: usize, allow_custom: bool) -> (r: (
    usize,
    Option<Option<usize>>,
))
    requires
        n > 0 ==> idx < n,
    ensures
        ({
            let (next, answer) = choice_step(code, idx as int, n as int, allow_custom);
            &&& r.0 == next
            &&& match answer {
                None => r.1 is None,
                Some(None) => r.1 == Some(None::<usize>),
                Some(Some(k)) => if k == -1 {
                    r.1 == Some(Some(usize::MAX))
                } else {
                    r.1 == Some(Some(k as usize)) && 0 <= k < n
                },
            }
        }),
{
    match code {
        KeyCode::Esc => (idx, Some(None)),
        KeyCode::Up if n > 0 => (
            if idx == 0 {
                n - 1
            } else {
                idx - 1
            },
            None,
        ),
        KeyCode::Char('k') if n > 0 => (
            if idx == 0 {
                n - 1
            } else {
                idx - 1
            },
            None,
        ),
        KeyCode::Down if n > 0 => ((idx + 1) % n, None),
        KeyCode::Char('j') if n > 0 => ((idx + 1) % n, None),
        KeyCode::Enter if n > 0 => (idx, Some(Some(idx))),
        KeyCode::Char('c') if allow_custom => (idx, Some(Some(usize::MAX))),
        KeyCode::Char('C') if allow_custom => (idx, Some(Some(usize::MAX))),
        KeyCode::Char(d) if '0' <= d && d <= '9' => {
            let pick = ((d as u32) - ('0' as u32)) as usize;
            if pick >= 1 && pick <= n {
                (pick - 1, Some(Some(pick - 1)))
            } else {
                (idx, None)
            }
        },
        _ => (idx, None),
    }
}

/// The answer, if any, that a key gives to the pending approval. For a
/// choice request the highlight `choice_idx` is first clamped to the last
/// option and then moved as `choice_step` says; a pick answers with the
/// option's id, and `Some(Some(-1))` of `choice_step` is the custom answer.
pub fn handle_approval_key(key: &Key, approval: &Approval, choice_idx: &mut usize) -> (r: Option<
    ApprovalChoice,
>)
    ensures
        match approval {
            Approval::Choice { options, allow_custom, .. } => {
                let n = options@.len() as int;
                let start = if *old(choice_idx) >= n && n > 0 {
                    n - 1
                } else {
                    *old(choice_idx) as int
                };
                let (next, answer) = choice_step(key.code, start, n, *allow_custom);
                &&& *final(choice_idx) == next
                &&& match answer {
                    None => r is None,
                    Some(None) => r == Some(ApprovalChoice::Cancel),
                    Some(Some(k)) => if k == -1 {
                        r == Some(ApprovalChoice::Custom)
                    } else {
                        r matches Some(ApprovalChoice::Pick(id)) && id@ == options@[k].id@
                    },
                }
            },
            _ => *final(choice_idx) == *old(choice_idx) && match approval_word(*approval, key.code) {
                Some(w) => r matches Some(ApprovalChoice::Word(x)) && x@ == w,
                None => r is None,
            },
        },
{
    match approval {
        Approval::Plan { .. } => match key.code {
            KeyCode::Enter => Some(ApprovalChoice::Word("approve")),
            KeyCode::Char('r') | KeyCode::Char('R') => Some(ApprovalChoice::Word("refine")),
            KeyCode::Char('v') | KeyCode::Char('V') => Some(ApprovalChoice::Word("revise")),
            KeyCode::Char('n') | KeyCode::Char('N') | KeyCode::Esc => Some(
                ApprovalChoice::Word("cancel"),
            ),
            _ => None,
        },
        Approval::Shell { .. } | Approval::Path { .. } => match key.code {
            KeyCode::Enter => Some(ApprovalChoice::Word("run_once")),
            KeyCode::Char('a') | KeyCode::Char('A') => Some(ApprovalChoice::Word("always_allow")),
            KeyCode::Char('n') | KeyCode::Char('N') | KeyCode::Esc => Some(
                ApprovalChoice::Word("deny"),
            ),
            _ => None,
        },
        Approval::Edit { .. } => match key.code {
            KeyCode::Enter => Some(ApprovalChoice::Word("apply")),
            KeyCode::Char('r') | KeyCode::Char('R') | KeyCode::Esc => Some(
                ApprovalChoice::Word("reject"),
            ),
            KeyCode::Char('t') | KeyCode::Char('T') => Some(
                ApprovalChoice::Word("apply-rest-of-turn"),
            ),
            KeyCode::Char('y') | KeyCode::Char('Y') => Some(ApprovalChoice::Word("flip-to-auto")),
            _ => None,
        },
        Approval::Checkpoint { .. } => match key.code {
            KeyCode::Enter => Some(ApprovalChoice::Word("continue")),
            KeyCode::Char('r') | KeyCode::Char('R') => Some(ApprovalChoice::Word("revise")),
            KeyCode::Char('s') | KeyCode::Char('S') | KeyCode::Esc => Some(
                ApprovalChoice::Word("stop"),
            ),
            _ => None,
        },
        Approval::Choice { options, allow_custom, .. } => {
            let n = options.len();
            let mut idx = *choice_idx;
            if idx >= n && n > 0 {
                idx = n - 1;
            }
            let (next, answer) = choice_key(key.code, idx, n, *allow_custom);
            *choice_idx = next;
            match answer {
                None => None,
                Some(None) => Some(ApprovalChoice::Cancel),
                Some(Some(k)) => if k == usize::MAX {
                    Some(ApprovalChoice::Custom)
                } else {
                    Some(ApprovalChoice::Pick(string_of(options[k].id.as_str())))
                },
            }
        },
    }
}

/// The approval answer as a value of the model.
#[verifier::ext_equal]
pub enum ChoiceView {
    Word(Seq<char>),
    Cancel,
    Pick(Seq<char>),
    Custom,
}

impl View for ApprovalChoice {
    type V = ChoiceView;

    open spec fn view(&self) -> ChoiceView {
        match self {
            ApprovalChoice::Word(w) => ChoiceView::Word(w@),
            ApprovalChoice::Cancel => ChoiceView::Cancel,
            ApprovalChoice::Pick(id) => ChoiceView::Pick(id@),
            ApprovalChoice::Custom => ChoiceView::Custom,
        }
    }
}

/// An event sent back to the host.
#[derive(Debug, Clone, PartialEq, Eq)]
pub enum HostEvent {
    /// The composer text is submitted.
    Submit(String),
    /// The running turn is interrupted.
    Interrupt,
    /// The autonomy mode is set.
    ModeSet(&'static str),
    /// The model preset is set.
    PresetSet(&'static str),
    /// The answer to the host's prompt.
    PromptResponse { id: String, text: String },
    /// The host's prompt is cancelled.
    PromptCancelled { id: String },
    /// The answer to the pending approval.
    ApprovalResponse { kind: &'static str, choice: ApprovalChoice },
}

/// What the loop does after a key.
#[derive(Debug, Clone, PartialEq, Eq)]
pub enum UiAction {
    /// Nothing beyond redrawing.
    Nothing,
    /// Send this event to the host.
    Emit(HostEvent),
    /// Copy the selected text to the clipboard (the selection is cleared).
    CopySelection,
    /// Send the exit event and leave the loop.
    Quit,
}

/// Host events as values of the model.
#[verifier::ext_equal]
pub enum EventView {
    Submit(Seq<char>),
    Interrupt,
    ModeSet(Seq<char>),
    PresetSet(Seq<char>),
    PromptResponse(Seq<char>, Seq<char>),
    PromptCancelled(Seq<char>),
    ApprovalResponse(Seq<char>, ChoiceView),
}

/// Loop actions as values of the model.
#[verifier::ext_equal]
pub enum ActionView {
    Nothing,
    Emit(EventView),
    CopySelection,
    Quit,
}

impl View for HostEvent {
    type V = EventView;

    open spec fn view(&self) -> EventView {
        match self {
            HostEvent::Submit(t) => EventView::Submit(t@),
            HostEvent::Interrupt => EventView::Interrupt,
            HostEvent::ModeSet(v) => EventView::ModeSet(v@),
            HostEvent::PresetSet(v) => EventView::PresetSet(v@),
            HostEvent::PromptResponse { id, text } => EventView::PromptResponse(id@, text@),
            HostEvent::PromptCancelled { id } => EventView::PromptCancelled(id@),
            HostEvent::ApprovalResponse { kind, choice } => EventView::ApprovalResponse(
                kind@,
                choice@,
            ),
        }
    }
}

impl View for UiAction {
    type V = ActionView;

    open spec fn view(&self) -> ActionView {
        match self {
            UiAction::Nothing => ActionView::Nothing,
            UiAction::Emit(e) => ActionView::Emit(e@),
            UiAction::CopySelection => ActionView::CopySelection,
            UiAction::Quit => ActionView::Quit,
        }
    }
}

/// The interactive state of the screen that keys change.
#[derive(Debug, Clone)]
pub struct UiState {
    /// The composer text.
    pub buffer: String,
    /// The composer cursor, a character index.
    pub cursor: usize,
    /// How far the transcript is scrolled up.
    pub scroll_offset: u16,
    /// Whether a mouse selection is active.
    pub selection_active: bool,
    pub slash_idx: usize,
    pub slash_arg_idx: usize,
    pub at_idx: usize,
    /// Position in the prompt history: -1 is the draft, 0 the newest entry.
    pub history_cursor: i64,
    pub approval_idx: usize,
    pub mode_picker: Option<usize>,
    pub preset_picker: Option<usize>,
    pub sidebar_visible: bool,
}

/// The interactive state as a value of the model.
#[verifier::ext_equal]
pub struct UiView {
    pub buffer: Seq<char>,
    pub cursor: int,
    pub scroll: int,
    pub selection: bool,
    pub slash_idx: int,
    pub slash_arg_idx: int,
    pub at_idx: int,
    pub history_cursor: int,
    pub approval_idx: int,
    pub mode_picker: Option<int>,
    pub preset_picker: Option<int>,
    pub sidebar: bool,
}

/// An optional index as a value of the model.
pub open spec fn opt_int(o: Option<usize>) -> Option<int> {
    match o {
        Some(i) => Some(i as int),
        None => None,
    }
}

impl View for UiState {
    type V = UiView;

    open spec fn view(&self) -> UiView {
        UiView {
            buffer: self.buffer@,
            cursor: self.cursor as int,
            scroll: self.scroll_offset as int,
            selection: self.selection_active,
            slash_idx: self.slash_idx as int,
            slash_arg_idx: self.slash_arg_idx as int,
            at_idx: self.at_idx as int,
            history_cursor: self.history_cursor as int,
            approval_idx: self.approval_idx as int,
            mode_picker: opt_int(self.mode_picker),
            preset_picker: opt_int(self.preset_picker),
            sidebar: self.sidebar_visible,
        }
    }
}

impl UiState {
    /// The state the loop starts with.
    pub fn new() -> (r: Self)
        ensures
            r@.buffer.len() == 0,
            r@.cursor == 0,
            r@.scroll == 0,
            !r@.selection,
            r@.slash_idx == 0,
            r@.slash_arg_idx == 0,
            r@.at_idx == 0,
            r@.history_cursor == -1,
            r@.approval_idx == 0,
            r@.mode_picker is None,
            r@.preset_picker is None,
            r@.sidebar,
    {
        UiState {
            buffer: String::new(),
            cursor: 0,
            scroll_offset: 0,
            selection_active: false,
            slash_idx: 0,
            slash_arg_idx: 0,
            at_idx: 0,
            history_cursor: -1,
            approval_idx: 0,
            mode_picker: None,
            preset_picker: None,
            sidebar_visible: true,
        }
    }

    /// The conditions under which a key can be handled: the cursor is
    /// within the text, the text can grow by one character, the pickers
    /// highlight one of their three entries, and the history position can
    /// step back.
    pub open spec fn wf(&self) -> bool {
        &&& self.cursor <= self.buffer@.len()
        &&& self.buffer@.len() < usize::MAX
        &&& (self.mode_picker matches Some(i) ==> i < 3)
        &&& (self.preset_picker matches Some(i) ==> i < 3)
        &&& self.history_cursor < i64::MAX
    }
}

/// The text after picking slash match `i`, if there is one.
pub open spec fn slash_pick(buf: Seq<char>, i: int, scene: SceneState) -> Option<Seq<char>> {
    if is_slash_query(buf) && 0 <= i < slash_matches(buf, scene).len() {
        Some(completion_text(slash_matches(buf, scene)[i]))
    } else {
        None
    }
}

/// The text after picking argument value `i`, if there is one.
pub open spec fn arg_pick(buf: Seq<char>, i: int, scene: SceneState) -> Option<Seq<char>> {
    match arg_matches(buf, scene) {
        Some(m) => if 0 <= i < m.len() {
            Some(seq!['/'] + split_arg(buf).unwrap().0 + seq![' '] + m[i])
        } else {
            None
        },
        None => None,
    }
}

/// The text after picking file entry `i`, if there is one.
pub open spec fn at_pick(buf: Seq<char>, i: int, scene: SceneState) -> Option<Seq<char>> {
    match (at_token(buf), at_entries(scene)) {
        (Some(p), Some(e)) => if 0 <= i < e.len() {
            Some(buf.take(p) + seq!['@'] + entry_insert_text(e[i]))
        } else {
            None
        },
        _ => None,
    }
}

/// Number of slash matches shown (0 unless the text starts with `/`).
pub open spec fn slash_count(buf: Seq<char>, scene: SceneState) -> int {
    if is_slash_query(buf) {
        slash_matches(buf, scene).len() as int
    } else {
        0
    }
}

/// Number of argument values shown (0 while slash matches are shown).
pub open spec fn arg_count(buf: Seq<char>, scene: SceneState) -> int {
    if slash_count(buf, scene) > 0 {
        0
    } else {
        match arg_matches(buf, scene) {
            Some(m) => m.len() as int,
            None => 0,
        }
    }
}

/// Number of file entries shown (0 while another popup is shown).
pub open spec fn at_count(buf: Seq<char>, scene: SceneState) -> int {
    if slash_count(buf, scene) > 0 || arg_count(buf, scene) > 0 {
        0
    } else if at_token(buf) is Some {
        match at_entries(scene) {
            Some(e) => e.len() as int,
            None => 0,
        }
    } else {
        0
    }
}

/// The state with new composer text and the cursor at its end.
pub open spec fn with_text(v: UiView, t: Seq<char>) -> UiView {
    UiView { buffer: t, cursor: t.len() as int, ..v }
}

/// One step back in a popup list of `n` entries, wrapping to the last.
pub open spec fn wrap_back(i: int, n: int) -> int {
    if i == 0 {
        n - 1
    } else {
        i - 1
    }
}

/// One step up in a popup list, stopping at the first entry.
pub open spec fn step_up(i: int) -> int {
    if i > 0 {
        i - 1
    } else {
        0
    }
}

/// One step down in a popup list of `n` entries, stopping at the last.
pub open spec fn step_down(i: int, n: int) -> int {
    if i + 1 < n - 1 {
        i + 1
    } else {
        n - 1
    }
}

/// The mode that BackTab switches to.
pub open spec fn next_mode(m: Option<EditMode>) -> Seq<char> {
    match m {
        Some(EditMode::Review) => "auto"@,
        Some(EditMode::Auto) => "yolo"@,
        _ => "review"@,
    }
}

/// Up in the composer: on the first line it recalls the previous history
/// entry, otherwise it moves the cursor one line up.
pub open spec fn compose_up(v: UiView, scene: SceneState) -> UiView {
    if locate(v.buffer, v.cursor).0 == 0 {
        match scene.prompt_history {
            Some(h) if h@.len() > 0 => {
                let next = if v.history_cursor + 1 < h@.len() - 1 {
                    v.history_cursor + 1
                } else {
                    h@.len() - 1
                };
                let v1 = UiView { history_cursor: next, ..v };
                match history_entry(views(h@), next) {
                    Some(t) => UiView { scroll: 0, ..with_text(v1, t) },
                    None => v1,
                }
            },
            _ => v,
        }
    } else {
        UiView { cursor: moved_cursor(v.buffer, v.cursor, -1), ..v }
    }
}

/// Down in the composer: on the last line it steps forward in the history
/// (the empty text past the newest entry), otherwise it moves the cursor
/// one line down.
pub open spec fn compose_down(v: UiView, scene: SceneState) -> UiView {
    if locate(v.buffer, v.cursor).0 >= line_of(v.buffer) {
        if v.history_cursor < 0 {
            v
        } else {
            match scene.prompt_history {
                None => v,
                Some(h) => {
                    let next = v.history_cursor - 1;
                    let v1 = UiView { history_cursor: next, ..v };
                    if next < 0 {
                        UiView { scroll: 0, ..with_text(v1, Seq::empty()) }
                    } else {
                        match history_entry(views(h@), next) {
                            Some(t) => UiView { scroll: 0, ..with_text(v1, t) },
                            None => v1,
                        }
                    }
                },
            }
        }
    } else {
        UiView { cursor: moved_cursor(v.buffer, v.cursor, 1), ..v }
    }
}

/// The state after an edit that resets the popups' highlights.
pub open spec fn edited(v: UiView, t: Seq<char>, cursor: int) -> UiView {
    UiView { buffer: t, cursor: cursor, selection: false, slash_idx: 0, at_idx: 0, ..v }
}

/// What a key does in the composer when no picker, prompt or approval is
/// open: popup navigation and completion first (slash commands, then
/// argument values, then files), then history, cursor movement, editing
/// and submitting.
pub open spec fn compose_step(v: UiView, k: Key, scene: SceneState) -> (UiView, ActionView) {
    let buf = v.buffer;
    let sc = slash_count(buf, scene);
    let sac = arg_count(buf, scene);
    let ac = at_count(buf, scene);
    let sa = sc > 0;
    let saa = !sa && sac > 0;
    let aa = !sa && !saa && ac > 0;
    let complete_only = sa && !exact_command(buf, scene);
    let code = k.code;
    let n = buf.len() as int;
    if code == KeyCode::Up && sa {
        (UiView { slash_idx: step_up(v.slash_idx), ..v }, ActionView::Nothing)
    } else if code == KeyCode::Down && sa {
        (UiView { slash_idx: step_down(v.slash_idx, sc), ..v }, ActionView::Nothing)
    } else if code == KeyCode::Tab && sa {
        (
            match slash_pick(buf, v.slash_idx, scene) {
                Some(c) => with_text(v, trim_end_ws(c)),
                None => v,
            },
            ActionView::Nothing,
        )
    } else if code == KeyCode::BackTab && sa {
        (UiView { slash_idx: wrap_back(v.slash_idx, sc), ..v }, ActionView::Nothing)
    } else if code == KeyCode::Enter && complete_only {
        (
            match slash_pick(buf, v.slash_idx, scene) {
                Some(c) => with_text(v, c),
                None => v,
            },
            ActionView::Nothing,
        )
    } else if code == KeyCode::Up && saa {
        (UiView { slash_arg_idx: step_up(v.slash_arg_idx), ..v }, ActionView::Nothing)
    } else if code == KeyCode::Down && saa {
        (UiView { slash_arg_idx: step_down(v.slash_arg_idx, sac), ..v }, ActionView::Nothing)
    } else if (code == KeyCode::Tab || code == KeyCode::Enter) && saa {
        (
            match arg_pick(buf, v.slash_arg_idx, scene) {
                Some(c) => with_text(v, c),
                None => v,
            },
            ActionView::Nothing,
        )
    } else if code == KeyCode::BackTab && saa {
        (UiView { slash_arg_idx: wrap_back(v.slash_arg_idx, sac), ..v }, ActionView::Nothing)
    } else if code == KeyCode::Up && aa {
        (UiView { at_idx: step_up(v.at_idx), ..v }, ActionView::Nothing)
    } else if code == KeyCode::Down && aa {
        (UiView { at_idx: step_down(v.at_idx, ac), ..v }, ActionView::Nothing)
    } else if (code == KeyCode::Tab || code == KeyCode::Enter) && aa {
        (
            match at_pick(buf, v.at_idx, scene) {
                Some(c) => with_text(v, c),
                None => v,
            },
            ActionView::Nothing,
        )
    } else if code == KeyCode::BackTab && aa {
        (UiView { at_idx: wrap_back(v.at_idx, ac), ..v }, ActionView::Nothing)
    } else if code == KeyCode::BackTab {
        (v, ActionView::Emit(EventView::ModeSet(next_mode(scene.edit_mode))))
    } else if code == KeyCode::Up {
        (compose_up(v, scene), ActionView::Nothing)
    } else if code == KeyCode::Down {
        (compose_down(v, scene), ActionView::Nothing)
    } else if code == KeyCode::Esc {
        if v.selection {
            (UiView { selection: false, ..v }, ActionView::Nothing)
        } else {
            (
                UiView {
                    buffer: Seq::empty(),
                    cursor: 0,
                    slash_idx: 0,
                    at_idx: 0,
                    history_cursor: -1,
                    ..v
                },
                ActionView::Nothing,
            )
        }
    } else if code == KeyCode::PageUp {
        (
            UiView { scroll: if v.scroll + 10 > u16::MAX { u16::MAX as int } else { v.scroll + 10 }, ..v },
            ActionView::Nothing,
        )
    } else if code == KeyCode::PageDown {
        (UiView { scroll: if v.scroll < 10 { 0 } else { v.scroll - 10 }, ..v }, ActionView::Nothing)
    } else if code == KeyCode::Left && k.ctrl {
        (UiView { cursor: prev_word(buf, v.cursor), ..v }, ActionView::Nothing)
    } else if code == KeyCode::Right && k.ctrl {
        (UiView { cursor: next_word(buf, v.cursor), ..v }, ActionView::Nothing)
    } else if code == KeyCode::Left {
        (UiView { cursor: step_up(v.cursor), ..v }, ActionView::Nothing)
    } else if code == KeyCode::Right {
        (UiView { cursor: if v.cursor + 1 < n { v.cursor + 1 } else { n }, ..v }, ActionView::Nothing)
    } else if code == KeyCode::Home {
        (UiView { cursor: 0, ..v }, ActionView::Nothing)
    } else if code == KeyCode::End {
        (UiView { cursor: n, ..v }, ActionView::Nothing)
    } else if code matches KeyCode::Char(_) && !k.ctrl {
        (
            UiView { scroll: 0, ..edited(v, inserted(buf, v.cursor, code->Char_0), v.cursor + 1) },
            ActionView::Nothing,
        )
    } else if code == KeyCode::Backspace && k.ctrl {
        let nc = prev_word(buf, v.cursor);
        (edited(v, buf.take(nc) + buf.skip(v.cursor), nc), ActionView::Nothing)
    } else if code == KeyCode::Backspace {
        if v.cursor > 0 {
            (edited(v, removed(buf, v.cursor - 1), v.cursor - 1), ActionView::Nothing)
        } else {
            (edited(v, buf, v.cursor), ActionView::Nothing)
        }
    } else if code == KeyCode::Delete {
        (
            UiView { buffer: removed(buf, v.cursor), slash_idx: 0, at_idx: 0, ..v },
            ActionView::Nothing,
        )
    } else if code == KeyCode::Enter && k.shift {
        (edited(v, inserted(buf, v.cursor, '\n'), v.cursor + 1), ActionView::Nothing)
    } else if code == KeyCode::Enter {
        let t = trim_ws(buf);
        (
            UiView {
                scroll: 0,
                history_cursor: -1,
                ..edited(v, Seq::empty(), 0)
            },
            if t.len() > 0 {
                ActionView::Emit(EventView::Submit(t))
            } else {
                ActionView::Nothing
            },
        )
    } else {
        (v, ActionView::Nothing)
    }
}

/// What a key does while the host's prompt is open: Enter answers with
/// the typed text (the default value, or the empty text, when nothing is
/// typed), Esc cancels; both clear the composer. The other keys edit the
/// answer.
pub open spec fn prompt_step(v: UiView, k: Key, p: PromptInput) -> (UiView, ActionView) {
    let buf = v.buffer;
    let n = buf.len() as int;
    let code = k.code;
    if code == KeyCode::Enter {
        let answer = if n == 0 {
            match p.default_value {
                Some(d) => d@,
                None => Seq::empty(),
            }
        } else {
            buf
        };
        (
            UiView { buffer: Seq::empty(), cursor: 0, ..v },
            ActionView::Emit(EventView::PromptResponse(p.id@, answer)),
        )
    } else if code == KeyCode::Esc {
        (
            UiView { buffer: Seq::empty(), cursor: 0, ..v },
            ActionView::Emit(EventView::PromptCancelled(p.id@)),
        )
    } else if code == KeyCode::Backspace && v.cursor > 0 {
        (UiView { buffer: removed(buf, v.cursor - 1), cursor: v.cursor - 1, ..v }, ActionView::Nothing)
    } else if code == KeyCode::Left {
        (UiView { cursor: step_up(v.cursor), ..v }, ActionView::Nothing)
    } else if code == KeyCode::Right {
        (UiView { cursor: if v.cursor + 1 < n { v.cursor + 1 } else { n }, ..v }, ActionView::Nothing)
    } else if code == KeyCode::Home {
        (UiView { cursor: 0, ..v }, ActionView::Nothing)
    } else if code == KeyCode::End {
        (UiView { cursor: n, ..v }, ActionView::Nothing)
    } else if code matches KeyCode::Char(_) && !k.ctrl {
        (
            UiView { buffer: inserted(buf, v.cursor, code->Char_0), cursor: v.cursor + 1, ..v },
            ActionView::Nothing,
        )
    } else {
        (v, ActionView::Nothing)
    }
}

/// The protocol value at a picker index.
pub open spec fn mode_value(i: int) -> Seq<char> {
    if i == 0 {
        "review"@
    } else if i == 1 {
        "auto"@
    } else {
        "yolo"@
    }
}

/// The protocol value at a preset picker index.
pub open spec fn preset_value(i: int) -> Seq<char> {
    if i == 0 {
        "auto"@
    } else if i == 1 {
        "flash"@
    } else {
        "pro"@
    }
}

/// What a key does while the mode picker (or else the preset picker) is
/// open; a pick sets the mode (or preset).
pub open spec fn picker_key_step(v: UiView, k: Key) -> (UiView, ActionView) {
    match v.mode_picker {
        Some(i) => {
            let (next, picked) = picker_step(k.code, i, 3);
            (
                UiView { mode_picker: next, ..v },
                match picked {
                    Some(j) => ActionView::Emit(EventView::ModeSet(mode_value(j))),
                    None => ActionView::Nothing,
                },
            )
        },
        None => match v.preset_picker {
            Some(i) => {
                let (next, picked) = picker_step(k.code, i, 3);
                (
                    UiView { preset_picker: next, ..v },
                    match picked {
                        Some(j) => ActionView::Emit(EventView::PresetSet(preset_value(j))),
                        None => ActionView::Nothing,
                    },
                )
            },
            None => (v, ActionView::Nothing),
        },
    }
}

/// The new highlight and the answer that a key gives to an approval.
pub open spec fn approval_step(a: Approval, code: KeyCode, idx: int) -> (int, Option<ChoiceView>) {
    match a {
        Approval::Choice { options, allow_custom, .. } => {
            let n = options@.len() as int;
            let start = if idx >= n && n > 0 {
                n - 1
            } else {
                idx
            };
            let (next, answer) = choice_step(code, start, n, allow_custom);
            (
                next,
                match answer {
                    None => None,
                    Some(None) => Some(ChoiceView::Cancel),
                    Some(Some(k)) => if k == -1 {
                        Some(ChoiceView::Custom)
                    } else {
                        Some(ChoiceView::Pick(options@[k].id@))
                    },
                },
            )
        },
        _ => (
            idx,
            match approval_word(a, code) {
                Some(w) => Some(ChoiceView::Word(w)),
                None => None,
            },
        ),
    }
}

/// What a key does: the quit chord copies an active selection, interrupts
/// a busy turn, or quits; Ctrl+D quits; Ctrl+B toggles the sidebar; then
/// an open picker, the host's prompt, a pending approval and finally the
/// composer get the key, in that order.
pub open spec fn key_step(v: UiView, k: Key, scene: SceneState) -> (UiView, ActionView) {
    if k.quit {
        if v.selection {
            (UiView { selection: false, ..v }, ActionView::CopySelection)
        } else if scene.busy {
            (v, ActionView::Emit(EventView::Interrupt))
        } else {
            (v, ActionView::Quit)
        }
    } else if k.code == KeyCode::Char('d') && k.ctrl {
        (v, ActionView::Quit)
    } else if k.code == KeyCode::Char('b') && k.ctrl {
        (UiView { sidebar: !v.sidebar, ..v }, ActionView::Nothing)
    } else if v.mode_picker is Some || v.preset_picker is Some {
        picker_key_step(v, k)
    } else if scene.prompt_input is Some {
        prompt_step(v, k, scene.prompt_input.unwrap())
    } else if scene.approval is Some {
        let a = scene.approval.unwrap();
        let (idx, answer) = approval_step(a, k.code, v.approval_idx);
        (
            UiView { approval_idx: idx, ..v },
            match answer {
                Some(c) => ActionView::Emit(EventView::ApprovalResponse(approval_kind(a), c)),
                None => ActionView::Nothing,
            },
        )
    } else {
        compose_step(v, k, scene)
    }
}

pub(crate) fn char_count(s: &String) -> (r: usize)
    ensures
        r == s@.len(),
{
    chars_of(s.as_str()).len()
}

/// Handles a key while the host's prompt is open.
pub fn handle_prompt_input_key(key: &Key, prompt: &PromptInput, st: &mut UiState) -> (r: UiAction)
    requires
        old(st).wf(),
    ensures
        final(st)@ == prompt_step(old(st)@, *key, *prompt).0,
        r@ == prompt_step(old(st)@, *key, *prompt).1,
{
    let ghost expect = prompt_step(st@, *key, *prompt);
    match key.code {
        KeyCode::Enter => {
            let answer = if char_count(&st.buffer) == 0 {
                match &prompt.default_value {
                    Some(d) => string_of(d.as_str()),
                    None => String::new(),
                }
            } else {
                string_of(st.buffer.as_str())
            };
            st.buffer = String::new();
            st.cursor = 0;
            let r = UiAction::Emit(
                HostEvent::PromptResponse { id: string_of(prompt.id.as_str()), text: answer },
            );
            assert(st@ =~= expect.0);
            assert(r@ =~= expect.1);
            r
        },
        KeyCode::Esc => {
            st.buffer = String::new();
            st.cursor = 0;
            assert(st@ =~= expect.0);
            UiAction::Emit(HostEvent::PromptCancelled { id: string_of(prompt.id.as_str()) })
        },
        KeyCode::Backspace => {
            if st.cursor > 0 {
                remove_char_at(&mut st.buffer, st.cursor - 1);
                st.cursor = st.cursor - 1;
            }
            assert(st@ =~= expect.0);
            UiAction::Nothing
        },
        KeyCode::Left => {
            st.cursor = if st.cursor > 0 {
                st.cursor - 1
            } else {
                0
            };
            assert(st@ =~= expect.0);
            UiAction::Nothing
        },
        KeyCode::Right => {
            let n = char_count(&st.buffer);
            st.cursor = if st.cursor + 1 < n {
                st.cursor + 1
            } else {
                n
            };
            assert(st@ =~= expect.0);
            UiAction::Nothing
        },
        KeyCode::Home => {
            st.cursor = 0;
            assert(st@ =~= expect.0);
            UiAction::Nothing
        },
        KeyCode::End => {
            st.cursor = char_count(&st.buffer);
            assert(st@ =~= expect.0);
            UiAction::Nothing
        },
        KeyCode::Char(c) => {
            if !key.ctrl {
                insert_char_at(&mut st.buffer, st.cursor, c);
                st.cursor = st.cursor + 1;
            }
            assert(st@ =~= expect.0);
            UiAction::Nothing
        },
        _ => {
            assert(st@ =~= expect.0);
            UiAction::Nothing
        },
    }
}

/// Handles a key while the mode picker or the preset picker is open.
pub fn handle_mode_picker_key(key: &Key, st: &mut UiState) -> (r: UiAction)
    requires
        old(st).wf(),
        old(st).mode_picker is Some || old(st).preset_picker is Some,
    ensures
        final(st)@ == picker_key_step(old(st)@, *key).0,
        r@ == picker_key_step(old(st)@, *key).1,
        final(st).wf(),
{
    if st.mode_picker.is_some() {
        let values = mode_values();
        let mut slot = st.mode_picker;
        let picked = cycle_or_pick(key, &mut slot, values.as_slice());
        st.mode_picker = slot;
        return match picked {
            Some(v) => UiAction::Emit(HostEvent::ModeSet(v)),
            None => UiAction::Nothing,
        };
    }
    let values = preset_values();
    let mut slot = st.preset_picker;
    let picked = cycle_or_pick(key, &mut slot, values.as_slice());
    st.preset_picker = slot;
    match picked {
        Some(v) => UiAction::Emit(HostEvent::PresetSet(v)),
        None => UiAction::Nothing,
    }
}

/// Handles a key in the composer (no picker, prompt or approval open).
#[verifier::rlimit(50)]
pub fn handle_composer_key(key: &Key, scene: &SceneState, st: &mut UiState) -> (r: UiAction)
    requires
        old(st).wf(),
        scene.prompt_history matches Some(h) ==> h@.len() <= i64::MAX,
    ensures
        final(st)@ == compose_step(old(st)@, *key, *scene).0,
        r@ == compose_step(old(st)@, *key, *scene).1,
{
    let ghost expect = compose_step(st@, *key, *scene);
    let sc = slash_match_count(st.buffer.as_str(), scene);
    let sac = if sc > 0 {
        0
    } else {
        slash_arg_match_count(st.buffer.as_str(), scene)
    };
    let ac = if sc > 0 || sac > 0 {
        0
    } else {
        at_match_count(st.buffer.as_str(), scene)
    };
    let sa = sc > 0;
    let saa = !sa && sac > 0;
    let aa = !sa && !saa && ac > 0;
    let complete_only = sa && !slash_is_exact(st.buffer.as_str(), scene);
    let code = key.code;
    let n = char_count(&st.buffer);
    if code == KeyCode::Up && sa {
        st.slash_idx = if st.slash_idx > 0 {
            st.slash_idx - 1
        } else {
            0
        };
    } else if code == KeyCode::Down && sa {
        st.slash_idx = if sc >= 2 && st.slash_idx < sc - 2 {
            st.slash_idx + 1
        } else {
            sc - 1
        };
    } else if code == KeyCode::Tab && sa {
        if let Some(c) = slash_completion(st.buffer.as_str(), st.slash_idx, scene) {
            st.buffer = trim_end(c.as_str());
            st.cursor = char_count(&st.buffer);
        }
    } else if code == KeyCode::BackTab && sa {
        st.slash_idx = if st.slash_idx == 0 {
            sc - 1
        } else {
            st.slash_idx - 1
        };
    } else if code == KeyCode::Enter && complete_only {
        if let Some(c) = slash_completion(st.buffer.as_str(), st.slash_idx, scene) {
            st.cursor = char_count(&c);
            st.buffer = c;
        }
    } else if code == KeyCode::Up && saa {
        st.slash_arg_idx = if st.slash_arg_idx > 0 {
            st.slash_arg_idx - 1
        } else {
            0
        };
    } else if code == KeyCode::Down && saa {
        st.slash_arg_idx = if sac >= 2 && st.slash_arg_idx < sac - 2 {
            st.slash_arg_idx + 1
        } else {
            sac - 1
        };
    } else if (code == KeyCode::Tab || code == KeyCode::Enter) && saa {
        if let Some(c) = slash_arg_completion(st.buffer.as_str(), st.slash_arg_idx, scene) {
            st.cursor = char_count(&c);
            st.buffer = c;
        }
    } else if code == KeyCode::BackTab && saa {
        st.slash_arg_idx = if st.slash_arg_idx == 0 {
            sac - 1
        } else {
            st.slash_arg_idx - 1
        };
    } else if code == KeyCode::Up && aa {
        st.at_idx = if st.at_idx > 0 {
            st.at_idx - 1
        } else {
            0
        };
    } else if code == KeyCode::Down && aa {
        st.at_idx = if ac >= 2 && st.at_idx < ac - 2 {
            st.at_idx + 1
        } else {
            ac - 1
        };
    } else if (code == KeyCode::Tab || code == KeyCode::Enter) && aa {
        if let Some(c) = at_completion(st.buffer.as_str(), st.at_idx, scene) {
            st.cursor = char_count(&c);
            st.buffer = c;
        }
    } else if code == KeyCode::BackTab && aa {
        st.at_idx = if st.at_idx == 0 {
            ac - 1
        } else {
            st.at_idx - 1
        };
    } else if code == KeyCode::BackTab {
        let next = match scene.edit_mode {
            Some(EditMode::Review) => "auto",
            Some(EditMode::Auto) => "yolo",
            _ => "review",
        };
        return UiAction::Emit(HostEvent::ModeSet(next));
    } else if code == KeyCode::Up {
        if cursor_on_first_line(st.buffer.as_str(), st.cursor) {
            let mut hc = st.history_cursor;
            let t = history_prev(scene, &mut hc);
            st.history_cursor = hc;
            if let Some(text) = t {
                st.buffer = text;
                st.cursor = char_count(&st.buffer);
                st.scroll_offset = 0;
            }
        } else {
            st.cursor = move_cursor_line(st.buffer.as_str(), st.cursor, -1);
        }
    } else if code == KeyCode::Down {
        if cursor_on_last_line(st.buffer.as_str(), st.cursor) {
            let mut hc = st.history_cursor;
            let t = history_next(scene, &mut hc);
            st.history_cursor = hc;
            if let Some(text) = t {
                st.cursor = char_count(&text);
                st.buffer = text;
                st.scroll_offset = 0;
            }
        } else {
            st.cursor = move_cursor_line(st.buffer.as_str(), st.cursor, 1);
        }
    } else if code == KeyCode::Esc {
        if st.selection_active {
            st.selection_active = false;
        } else {
            st.buffer = String::new();
            st.cursor = 0;
            st.slash_idx = 0;
            st.at_idx = 0;
            st.history_cursor = -1;
        }
    } else if code == KeyCode::PageUp {
        st.scroll_offset = st.scroll_offset.saturating_add(10);
    } else if code == KeyCode::PageDown {
        st.scroll_offset = st.scroll_offset.saturating_sub(10);
    } else if code == KeyCode::Left && key.ctrl {
        st.cursor = prev_word_boundary(st.buffer.as_str(), st.cursor);
    } else if code == KeyCode::Right && key.ctrl {
        st.cursor = next_word_boundary(st.buffer.as_str(), st.cursor);
    } else if code == KeyCode::Left {
        st.cursor = if st.cursor > 0 {
            st.cursor - 1
        } else {
            0
        };
    } else if code == KeyCode::Right {
        st.cursor = if st.cursor + 1 < n {
            st.cursor + 1
        } else {
            n
        };
    } else if code == KeyCode::Home {
        st.cursor = 0;
    } else if code == KeyCode::End {
        st.cursor = n;
    } else if is_char_code(code) && !key.ctrl {
        let c = char_of(code);
        st.selection_active = false;
        insert_char_at(&mut st.buffer, st.cursor, c);
        st.cursor = st.cursor + 1;
        st.slash_idx = 0;
        st.at_idx = 0;
        st.scroll_offset = 0;
    } else if code == KeyCode::Backspace && key.ctrl {
        st.selection_active = false;
        let nc = prev_word_boundary(st.buffer.as_str(), st.cursor);
        let cs = chars_of(st.buffer.as_str());
        let mut t = string_from_range(cs.as_slice(), 0, nc);
        let rest = string_from_range(cs.as_slice(), st.cursor, cs.len());
        crate::text::push_str(&mut t, rest.as_str());
        assert(t@ =~= cs@.take(nc as int) + cs@.skip(st.cursor as int));
        st.buffer = t;
        st.cursor = nc;
        st.slash_idx = 0;
        st.at_idx = 0;
    } else if code == KeyCode::Backspace {
        st.selection_active = false;
        if st.cursor > 0 {
            remove_char_at(&mut st.buffer, st.cursor - 1);
            st.cursor = st.cursor - 1;
        }
        st.slash_idx = 0;
        st.at_idx = 0;
    } else if code == KeyCode::Delete {
        if st.cursor < n {
            remove_char_at(&mut st.buffer, st.cursor);
        }
        st.slash_idx = 0;
        st.at_idx = 0;
    } else if code == KeyCode::Enter && key.shift {
        st.selection_active = false;
        insert_char_at(&mut st.buffer, st.cursor, '\n');
        st.cursor = st.cursor + 1;
        st.slash_idx = 0;
        st.at_idx = 0;
    } else if code == KeyCode::Enter {
        st.selection_active = false;
        let text = trim(st.buffer.as_str());
        st.buffer = String::new();
        st.cursor = 0;
        st.slash_idx = 0;
        st.at_idx = 0;
        st.scroll_offset = 0;
        st.history_cursor = -1;
        if char_count(&text) > 0 {
            return UiAction::Emit(HostEvent::Submit(text));
        }
    }
    UiAction::Nothing
}

pub(crate) fn is_char_code(code: KeyCode) -> (r: bool)
    ensures
        r == code matches KeyCode::Char(_),
{
    match code {
        KeyCode::Char(_) => true,
        _ => false,
    }
}

pub(crate) fn char_of(code: KeyCode) -> (r: char)
    requires
        code matches KeyCode::Char(_),
    ensures
        r == code->Char_0,
{
    match code {
        KeyCode::Char(c) => c,
        _ => ' ',
    }
}

/// A popup highlight kept within a list of `n` entries (0 when empty).
pub open spec fn clamp_idx(i: int, n: int) -> int {
    if n == 0 {
        0
    } else if i >= n {
        n - 1
    } else {
        i
    }
}

/// The state after the per-frame clean-up: the cursor is clamped to the
/// text and each popup's highlight to its list.
pub open spec fn synced(v: UiView, scene: SceneState) -> UiView {
    UiView {
        cursor: if v.cursor > v.buffer.len() { v.buffer.len() as int } else { v.cursor },
        slash_idx: clamp_idx(v.slash_idx, slash_count(v.buffer, scene)),
        slash_arg_idx: clamp_idx(v.slash_arg_idx, arg_count(v.buffer, scene)),
        at_idx: clamp_idx(v.at_idx, at_count(v.buffer, scene)),
        ..v
    }
}

/// Clamps the cursor to the text and each popup highlight to its list.
pub fn sync_ui(st: &mut UiState, scene: &SceneState)
    ensures
        final(st)@ == synced(old(st)@, *scene),
{
    let n = char_count(&st.buffer);
    if st.cursor > n {
        st.cursor = n;
    }
    let sc = slash_match_count(st.buffer.as_str(), scene);
    if sc == 0 {
        st.slash_idx = 0;
    } else if st.slash_idx >= sc {
        st.slash_idx = sc - 1;
    }
    let sac = if sc > 0 {
        0
    } else {
        slash_arg_match_count(st.buffer.as_str(), scene)
    };
    if sac == 0 {
        st.slash_arg_idx = 0;
    } else if st.slash_arg_idx >= sac {
        st.slash_arg_idx = sac - 1;
    }
    let ac = if sc > 0 || sac > 0 {
        0
    } else {
        at_match_count(st.buffer.as_str(), scene)
    };
    if ac == 0 {
        st.at_idx = 0;
    } else if st.at_idx >= ac {
        st.at_idx = ac - 1;
    }
}

/// Handles one key press: updates the state and says what the loop does.
pub fn handle_key(st: &mut UiState, key: &Key, scene: &SceneState) -> (r: UiAction)
    requires
        old(st).wf(),
        scene.prompt_history matches Some(h) ==> h@.len() <= i64::MAX,
    ensures
        final(st)@ == key_step(old(st)@, *key, *scene).0,
        r@ == key_step(old(st)@, *key, *scene).1,
{
    if key.quit {
        if st.selection_active {
            st.selection_active = false;
            return UiAction::CopySelection;
        }
        if scene.busy {
            return UiAction::Emit(HostEvent::Interrupt);
        }
        return UiAction::Quit;
    }
    if key.code == KeyCode::Char('d') && key.ctrl {
        return UiAction::Quit;
    }
    if key.code == KeyCode::Char('b') && key.ctrl {
        st.sidebar_visible = !st.sidebar_visible;
        return UiAction::Nothing;
    }
    if st.mode_picker.is_some() || st.preset_picker.is_some() {
        return handle_mode_picker_key(key, st);
    }
    if let Some(prompt) = &scene.prompt_input {
        return handle_prompt_input_key(key, prompt, st);
    }
    if let Some(approval) = &scene.approval {
        let mut idx = st.approval_idx;
        let answer = handle_approval_key(key, approval, &mut idx);
        st.approval_idx = idx;
        return match answer {
            Some(c) => UiAction::Emit(
                HostEvent::ApprovalResponse { kind: approval_kind_label(approval), choice: c },
            ),
            None => UiAction::Nothing,
        };
    }
    handle_composer_key(key, scene, st)
}

/// Typing a character and then pressing Backspace in the composer gives
/// back the text and the cursor from before.
pub proof fn law_backspace_undoes_typing(v: UiView, c: char, scene: SceneState)
    requires
        0 <= v.cursor <= v.buffer.len(),
    ensures
        ({
            let typed = compose_step(v, Key { code: KeyCode::Char(c), ctrl: false, shift: false, quit: false }, scene).0;
            let back = compose_step(typed, Key { code: KeyCode::Backspace, ctrl: false, shift: false, quit: false }, scene).0;
            back.buffer == v.buffer && back.cursor == v.cursor
        }),
{
    crate::editor::law_remove_undoes_insert(v.buffer, v.cursor, c);
}

/// Whether no popup (commands, argument values or files) is offered for
/// the composer text `buf`.
pub open spec fn popups_closed(buf: Seq<char>, scene: SceneState) -> bool {
    slash_count(buf, scene) == 0 && arg_count(buf, scene) == 0 && at_count(buf, scene) == 0
}

/// With no popup open, Up on the composer's first line and then Down come
/// back to the same place in the prompt history and to the same text: the
/// entry shown there, or the empty composer when the walk started from
/// the draft, provided there was an older entry to step to.
pub proof fn law_history_up_then_down(v: UiView, scene: SceneState)
    requires
        scene.prompt_history matches Some(h) && -1 <= v.history_cursor < h@.len() - 1,
        v.history_cursor >= 0 ==> history_entry(views(scene.prompt_history.unwrap()@), v.history_cursor)
            == Some(v.buffer),
        v.history_cursor < 0 ==> v.buffer.len() == 0,
        locate(v.buffer, v.cursor).0 == 0,
        popups_closed(v.buffer, scene),
        popups_closed(
            history_entry(views(scene.prompt_history.unwrap()@), v.history_cursor + 1).unwrap(),
            scene,
        ),
    ensures
        ({
            let up = compose_step(v, Key { code: KeyCode::Up, ctrl: false, shift: false, quit: false }, scene).0;
            let down = compose_step(up, Key { code: KeyCode::Down, ctrl: false, shift: false, quit: false }, scene).0;
            down.buffer == v.buffer && down.history_cursor == v.history_cursor
        }),
{
    let h = scene.prompt_history.unwrap();
    let c = v.history_cursor;
    let t = history_entry(views(h@), c + 1).unwrap();
    let up = compose_step(v, Key { code: KeyCode::Up, ctrl: false, shift: false, quit: false }, scene).0;
    assert(up == compose_up(v, scene));
    assert(up.buffer == t && up.cursor == t.len() && up.history_cursor == c + 1);
    assert(t.take(t.len() as int) =~= t);
    assert(locate(t, t.len() as int).0 == line_of(t));
    let down = compose_step(up, Key { code: KeyCode::Down, ctrl: false, shift: false, quit: false }, scene).0;
    assert(down == compose_down(up, scene));
    if c < 0 {
        assert(v.buffer =~= Seq::<char>::empty());
    }
}

/// One turn of the interactive loop while the scene stays `scene`: the
/// clean-up (`sync_ui`), the composer text sent back when it is due
/// (`should_echo_composer`), then the key (`handle_key`). Gives the new
/// state, the text last sent, what was sent back this turn, and the
/// action.
pub open spec fn loop_turn(v: UiView, last_sent: Seq<char>, k: Key, scene: SceneState) -> (
    UiView,
    Seq<char>,
    Option<Seq<char>>,
    ActionView,
) {
    let v1 = synced(v, scene);
    let echo = if echo_due(scene, v1.buffer, last_sent) {
        Some(v1.buffer)
    } else {
        None
    };
    let (v2, a) = key_step(v1, k, scene);
    (v2, if echo_due(scene, v1.buffer, last_sent) { v1.buffer } else { last_sent }, echo, a)
}

/// The turns of the loop over the keys `keys`: the final state, the text
/// last sent, every composer text sent back, and the actions in order.
pub open spec fn loop_run(v: UiView, last_sent: Seq<char>, keys: Seq<Key>, scene: SceneState) -> (
    UiView,
    Seq<char>,
    Seq<Seq<char>>,
    Seq<ActionView>,
)
    decreases keys.len(),
{
    if keys.len() == 0 {
        (v, last_sent, Seq::empty(), Seq::empty())
    } else {
        let (v1, ls1, echoes, acts) = loop_run(v, last_sent, keys.drop_last(), scene);
        let (v2, ls2, e, a) = loop_turn(v1, ls1, keys.last(), scene);
        (
            v2,
            ls2,
            match e {
                Some(t) => echoes.push(t),
                None => echoes,
            },
            acts.push(a),
        )
    }
}

/// What may be sent while the host waits for the private answer with id
/// `id`: no submitted text and no approval answer; an answer or a
/// cancellation only for that prompt.
pub open spec fn allowed_while_private(a: ActionView, id: Seq<char>) -> bool {
    match a {
        ActionView::Emit(EventView::Submit(_)) => false,
        ActionView::Emit(EventView::ApprovalResponse(_, _)) => false,
        ActionView::Emit(EventView::PromptResponse(i, _)) => i == id,
        ActionView::Emit(EventView::PromptCancelled(i)) => i == id,
        _ => true,
    }
}

proof fn lemma_turn_while_private(v: UiView, last_sent: Seq<char>, k: Key, scene: SceneState)
    requires
        scene.prompt_input is Some,
    ensures
        loop_turn(v, last_sent, k, scene).1 == last_sent,
        loop_turn(v, last_sent, k, scene).2 is None,
        allowed_while_private(loop_turn(v, last_sent, k, scene).3, scene.prompt_input.unwrap().id@),
{
    let v1 = synced(v, scene);
    let p = scene.prompt_input.unwrap();
    if !k.quit && !(k.code == KeyCode::Char('d') && k.ctrl) && !(k.code == KeyCode::Char('b') && k.ctrl) {
        if v1.mode_picker is Some || v1.preset_picker is Some {
            assert(key_step(v1, k, scene) == picker_key_step(v1, k));
        } else {
            assert(key_step(v1, k, scene) == prompt_step(v1, k, p));
        }
    }
}

/// While the host asks for a private answer, whatever keys are typed, the
/// composer text is never sent back as composer text; nothing is
/// submitted and no approval is answered; the text leaves only in an
/// answer to that prompt (or its cancellation).
pub proof fn law_private_prompt_is_not_echoed(v: UiView, last_sent: Seq<char>, keys: Seq<Key>, scene: SceneState)
    requires
        scene.prompt_input is Some,
    ensures
        loop_run(v, last_sent, keys, scene).2.len() == 0,
        loop_run(v, last_sent, keys, scene).1 == last_sent,
        loop_run(v, last_sent, keys, scene).3.len() == keys.len(),
        forall|i: int|
            0 <= i < keys.len() ==> allowed_while_private(
                #[trigger] loop_run(v, last_sent, keys, scene).3[i],
                scene.prompt_input.unwrap().id@,
            ),
    decreases keys.len(),
{
    if keys.len() > 0 {
        let d = keys.drop_last();
        law_private_prompt_is_not_echoed(v, last_sent, d, scene);
        let (v1, ls1, echoes, acts) = loop_run(v, last_sent, d, scene);
        lemma_turn_while_private(v1, ls1, keys.last(), scene);
        let all = loop_run(v, last_sent, keys, scene).3;
        assert(all == acts.push(loop_turn(v1, ls1, keys.last(), scene).3));
        assert forall|i: int| 0 <= i < keys.len() implies allowed_while_private(
            #[trigger] loop_run(v, last_sent, keys, scene).3[i],
            scene.prompt_input.unwrap().id@,
        ) by {
            if i < d.len() {
                assert(all[i] == acts[i]);
            }
        }
    }
}

/// While a private answer is asked for (and no picker is open), Enter
/// sends the typed text, or the prompt's default when nothing was typed,
/// as the answer to that prompt, and empties the composer.
pub proof fn law_enter_answers_private_prompt(v: UiView, last_sent: Seq<char>, scene: SceneState)
    requires
        scene.prompt_input is Some,
        v.mode_picker is None,
        v.preset_picker is None,
    ensures
        ({
            let p = scene.prompt_input.unwrap();
            let (v2, ls, echo, a) = loop_turn(
                v,
                last_sent,
                Key { code: KeyCode::Enter, ctrl: false, shift: false, quit: false },
                scene,
            );
            &&& echo is None
            &&& v2.buffer.len() == 0
            &&& a == ActionView::Emit(EventView::PromptResponse(
                p.id@,
                if v.buffer.len() == 0 {
                    match p.default_value {
                        Some(d) => d@,
                        None => Seq::<char>::empty(),
                    }
                } else {
                    v.buffer
                },
            ))
        }),
{
}

/// In a choice request with `n` options, the digit key `d` with
/// `1 <= d <= n` (the last option included) answers with the id of option
/// `d` and moves the highlight to it, wherever the highlight was.
pub proof fn law_digit_picks_that_option(a: Approval, d: char, idx: int)
    requires
        a matches Approval::Choice { options, .. } && '1' <= d <= '9' && (d as u32) - ('0' as u32)
            <= options@.len(),
    ensures
        ({
            let options = a->options;
            let k = (d as u32) - ('0' as u32);
            approval_step(a, KeyCode::Char(d), idx) == (k - 1, Some(ChoiceView::Pick(options@[k - 1].id@)))
        }),
{
}

/// In a choice request, Enter answers with the id of the highlighted
/// option (the highlight kept within the options), and Esc cancels; the
/// highlight stays.
pub proof fn law_enter_picks_highlight(a: Approval, idx: int)
    requires
        a matches Approval::Choice { options, .. } && 0 <= idx && options@.len() > 0,
    ensures
        ({
            let options = a->options;
            let i = if idx >= options@.len() { options@.len() - 1 } else { idx };
            &&& approval_step(a, KeyCode::Enter, idx) == (i, Some(ChoiceView::Pick(options@[i].id@)))
            &&& approval_step(a, KeyCode::Esc, idx) == (i, Some(ChoiceView::Cancel))
        }),
{
}

/// In an open picker of `n` entries, the digit key `d` with `1 <= d <= n`
/// moves the highlight to entry `d`, and picks nothing yet.
pub proof fn law_digit_moves_picker(d: char, idx: int, n: int)
    requires
        '1' <= d <= '9',
        (d as u32) - ('0' as u32) <= n,
    ensures
        picker_step(KeyCode::Char(d), idx, n) == (Some((d as u32) - ('0' as u32) - 1), None::<int>),
{
}

/// The column where the mode pill starts on the status row: after a dot,
/// a space, `reasonix` and two spaces, from column 1.
pub open spec fn mode_pill_start() -> int {
    1 + 2 + pill_width("reasonix"@) + 2
}

/// A click on the status row inside the mode pill (`◇ MODE <MODE>`, from
/// `mode_pill_start()`) hits the mode pill, which opens the mode picker,
/// whatever the preset; a click that hits the preset pill is never inside
/// the mode pill, and with no mode shown nothing hits the mode pill.
pub proof fn law_mode_pill_click(col: int, row: int, scene: SceneState, height: int)
    requires
        height > 0,
        row == height - 1,
    ensures
        (scene.edit_mode matches Some(m) && mode_pill_start() <= col < mode_pill_start() + pill_width(
            "◇ MODE "@ + mode_label(m),
        )) ==> pill_at(col, row, scene, height) == Some("mode-cycle"@),
        pill_at(col, row, scene, height) == Some("preset-cycle"@) ==> !(scene.edit_mode matches Some(m)
            && mode_pill_start() <= col < mode_pill_start() + pill_width("◇ MODE "@ + mode_label(m))),
        scene.edit_mode is None ==> pill_at(col, row, scene, height) != Some("mode-cycle"@),
        ({
            let c1 = match scene.edit_mode {
                Some(m) => mode_pill_start() + pill_width("◇ MODE "@ + mode_label(m)) + 1,
                None => mode_pill_start(),
            };
            scene.preset matches Some(p) && c1 <= col < c1 + pill_width("◇ MODEL "@ + upper_all(p@))
        }) ==> pill_at(col, row, scene, height) == Some("preset-cycle"@),
{
    reveal_strlit("mode-cycle");
    reveal_strlit("preset-cycle");
    assert("mode-cycle"@[0] == 'm');
    assert("preset-cycle"@[0] == 'p');
    assert("mode-cycle"@ != "preset-cycle"@);
}

/// Moving a picker's highlight down and then up (or up and then down)
/// returns it to where it was.
pub proof fn law_picker_down_up(idx: int, n: int)
    requires
        0 <= idx < n,
    ensures
        picker_step(KeyCode::Up, picker_step(KeyCode::Down, idx, n).0.unwrap(), n).0 == Some(idx),
        picker_step(KeyCode::Down, picker_step(KeyCode::Up, idx, n).0.unwrap(), n).0 == Some(idx),
{
    if idx + 1 < n {
        assert((idx + 1) % n == idx + 1) by (nonlinear_arith)
            requires
                0 <= idx + 1 < n,
        ;
    } else {
        assert((idx + 1) % n == 0) by (nonlinear_arith)
            requires
                idx + 1 == n,
                n > 0,
        ;
    }
    if idx == 0 {
        assert((n - 1 + 1) % n == 0) by (nonlinear_arith)
            requires
                n > 0,
        ;
    } else {
        assert((idx - 1 + 1) % n == idx) by (nonlinear_arith)
            requires
                0 < idx < n,
        ;
    }
}

/// In a choice request, Down and then Up returns the highlight to where it
/// was.
pub proof fn law_choice_down_up(idx: int, n: int, allow_custom: bool)
    requires
        0 <= idx < n,
    ensures
        choice_step(KeyCode::Up, choice_step(KeyCode::Down, idx, n, allow_custom).0, n, allow_custom).0
            == idx,
{
    law_picker_down_up(idx, n);
}

/// Enter in the composer (no popup open, Shift not held) sends the text
/// without surrounding whitespace when any remains, and always clears the
/// composer.
pub proof fn law_enter_submits_trimmed(v: UiView, scene: SceneState)
    requires
        slash_count(v.buffer, scene) == 0,
        arg_count(v.buffer, scene) == 0,
        at_count(v.buffer, scene) == 0,
    ensures
        ({
            let (after, act) = compose_step(v, Key { code: KeyCode::Enter, ctrl: false, shift: false, quit: false }, scene);
            &&& after.buffer.len() == 0
            &&& after.cursor == 0
            &&& (trim_ws(v.buffer).len() > 0 ==> act == ActionView::Emit(EventView::Submit(trim_ws(v.buffer))))
            &&& (trim_ws(v.buffer).len() == 0 ==> act == ActionView::Nothing)
        }),
{
}

/// A text that starts with a character other than whitespace keeps that
/// character first when trimmed.
proof fn lemma_trim_keeps_first(s: Seq<char>)
    requires
        s.len() > 0,
        !is_ws(s[0]),
    ensures
        trim_end_ws(s).len() > 0,
        trim_end_ws(s)[0] == s[0],
        trim_ws(s) == trim_end_ws(s),
        trim_ws(s).len() > 0,
    decreases s.len(),
{
    if s.len() > 1 && is_ws(s.last()) {
        lemma_trim_keeps_first(s.drop_last());
    }
}

/// When the typed text names a command exactly (`/cost`), Enter sends it
/// as typed, trimmed, instead of completing it to `/cost `; the composer
/// is cleared.
pub proof fn law_enter_on_exact_command_submits(v: UiView, scene: SceneState)
    requires
        slash_count(v.buffer, scene) > 0,
        exact_command(v.buffer, scene),
    ensures
        ({
            let (after, act) = compose_step(v, Key { code: KeyCode::Enter, ctrl: false, shift: false, quit: false }, scene);
            &&& act == ActionView::Emit(EventView::Submit(trim_ws(v.buffer)))
            &&& trim_ws(v.buffer)[0] == '/'
            &&& after.buffer.len() == 0
            &&& after.cursor == 0
        }),
{
    lemma_trim_keeps_first(v.buffer);
}

/// The per-frame clean-up leaves every popup highlight inside its list and
/// changes nothing when applied a second time.
pub proof fn law_sync_bounds_and_idempotent(v: UiView, scene: SceneState)
    requires
        0 <= v.slash_idx,
        0 <= v.slash_arg_idx,
        0 <= v.at_idx,
    ensures
        ({
            let s = synced(v, scene);
            &&& (slash_count(v.buffer, scene) > 0 ==> s.slash_idx < slash_count(v.buffer, scene))
            &&& (arg_count(v.buffer, scene) > 0 ==> s.slash_arg_idx < arg_count(v.buffer, scene))
            &&& (at_count(v.buffer, scene) > 0 ==> s.at_idx < at_count(v.buffer, scene))
            &&& s.cursor <= v.buffer.len()
            &&& synced(s, scene) == s
        }),
{
}

/// Number of UTF-8 bytes of a string's text.
pub open spec fn nbytes(s: Seq<char>) -> nat {
    (vstd::utf8::encode_utf8(s).len() as usize) as nat
}

/// A short fingerprint of the pending approval; the highlight is reset
/// when it changes.
pub open spec fn approval_sig(scene: SceneState) -> Option<Seq<char>> {
    match scene.approval {
        None => None,
        Some(Approval::Plan { body, steps }) => Some(
            "plan:"@ + decimal(nbytes(body@)) + ":"@ + decimal(steps@.len()),
        ),
        Some(Approval::Shell { command, .. }) => Some("shell:"@ + command@),
        Some(Approval::Path { path, intent, .. }) => Some("path:"@ + intent@ + ":"@ + path@),
        Some(Approval::Edit { path, search, replace }) => Some(
            "edit:"@ + path@ + ":"@ + decimal(nbytes(search@)) + ":"@ + decimal(nbytes(replace@)),
        ),
        Some(Approval::Choice { question, options, .. }) => Some(
            "choice:"@ + decimal(nbytes(question@)) + ":"@ + decimal(options@.len()),
        ),
        Some(Approval::Checkpoint { completed, total, .. }) => Some(
            "checkpoint:"@ + decimal(completed as nat) + "/"@ + decimal(total as nat),
        ),
    }
}

fn push_lit(s: &mut String, t: &'static str)
    ensures
        final(s)@ == old(s)@ + t@,
{
    crate::text::push_str(s, t);
}

/// The fingerprint of the pending approval, if any.
pub fn approval_signature(scene: &SceneState) -> (r: Option<String>)
    ensures
        match r {
            Some(x) => approval_sig(*scene) == Some(x@),
            None => approval_sig(*scene) is None,
        },
{
    let a = match &scene.approval {
        Some(a) => a,
        None => return None,
    };
    let mut out = String::new();
    match a {
        Approval::Plan { body, steps } => {
            push_lit(&mut out, "plan:");
            push_decimal(&mut out, crate::text::byte_len(body.as_str()) as u64);
            push_lit(&mut out, ":");
            push_decimal(&mut out, steps.len() as u64);
        },
        Approval::Shell { command, .. } => {
            push_lit(&mut out, "shell:");
            crate::text::push_str(&mut out, command.as_str());
        },
        Approval::Path { path, intent, .. } => {
            push_lit(&mut out, "path:");
            crate::text::push_str(&mut out, intent.as_str());
            push_lit(&mut out, ":");
            crate::text::push_str(&mut out, path.as_str());
        },
        Approval::Edit { path, search, replace } => {
            push_lit(&mut out, "edit:");
            crate::text::push_str(&mut out, path.as_str());
            push_lit(&mut out, ":");
            push_decimal(&mut out, crate::text::byte_len(search.as_str()) as u64);
            push_lit(&mut out, ":");
            push_decimal(&mut out, crate::text::byte_len(replace.as_str()) as u64);
        },
        Approval::Choice { question, options, .. } => {
            push_lit(&mut out, "choice:");
            push_decimal(&mut out, crate::text::byte_len(question.as_str()) as u64);
            push_lit(&mut out, ":");
            push_decimal(&mut out, options.len() as u64);
        },
        Approval::Checkpoint { completed, total, .. } => {
            push_lit(&mut out, "checkpoint:");
            push_decimal(&mut out, *completed as u64);
            push_lit(&mut out, "/");
            push_decimal(&mut out, *total as u64);
        },
    }
    assert(approval_sig(*scene) =~= Some(out@));
    Some(out)
}

fn opt_string_eq(a: &Option<String>, b: &Option<String>) -> (r: bool)
    ensures
        r == (match (a, b) {
            (Some(x), Some(y)) => x@ == y@,
            (None, None) => true,
            _ => false,
        }),
{
    match (a, b) {
        (Some(x), Some(y)) => crate::text::str_eq(x.as_str(), y.as_str()),
        (None, None) => true,
        _ => false,
    }
}

/// An optional string as a value of the model.
pub open spec fn opt_view(o: Option<String>) -> Option<Seq<char>> {
    match o {
        Some(s) => Some(s@),
        None => None,
    }
}

/// Resets the choice highlight when a different approval arrives.
pub fn reset_approval_if_changed(
    scene: &SceneState,
    last_sig: &mut Option<String>,
    choice_idx: &mut usize,
)
    ensures
        opt_view(*final(last_sig)) == approval_sig(*scene),
        *final(choice_idx) == if opt_view(*old(last_sig)) == approval_sig(*scene) {
            *old(choice_idx)
        } else {
            0
        },
{
    let sig = approval_signature(scene);
    if !opt_string_eq(&sig, last_sig) {
        *choice_idx = 0;
        *last_sig = sig;
    }
}

/// Animation frames keep being drawn unless the setup screen is shown or
/// a selection is being made.
pub fn needs_animation(scene: &SceneState, setup_pending: bool, has_selection: bool) -> (r: bool)
    ensures
        r == (!setup_pending && !has_selection),
{
    !setup_pending && !has_selection
}

/// Whether the composer text `buffer` is due to be sent back to the host:
/// it changed since `last_sent`, and the host is not asking for a private
/// answer.
pub open spec fn echo_due(scene: SceneState, buffer: Seq<char>, last_sent: Seq<char>) -> bool {
    scene.prompt_input is None && buffer != last_sent
}

/// Whether the composer text is sent back to the host: when it changed
/// since it was last sent, unless the host is asking for a private answer.
pub fn should_echo_composer(scene: &SceneState, buffer: &str, last_sent: &str) -> (r: bool)
    ensures
        r == echo_due(*scene, buffer@, last_sent@),
{
    scene.prompt_input.is_none() && !crate::text::str_eq(buffer, last_sent)
}

/// The label of the mode pill.
pub open spec fn mode_label(m: EditMode) -> Seq<char> {
    match m {
        EditMode::Review => "REVIEW"@,
        EditMode::Auto => "AUTO"@,
        EditMode::Yolo => "YOLO"@,
    }
}

/// A pill's width as the status bar uses it (truncated to 16 bits).
pub open spec fn pill_width(text: Seq<char>) -> int {
    (str_width_of(text) as u16) as int
}

/// Which status-bar pill, if any, is at (`col`, `row`) on a screen of
/// `height` rows: the bar is the last row; it starts at column 1 with a
/// dot, a space, `reasonix` and two spaces, then the mode pill
/// `◇ MODE <MODE>` and a space, then the preset pill `◇ MODEL <PRESET>`.
pub open spec fn pill_at(col: int, row: int, scene: SceneState, height: int) -> Option<Seq<char>> {
    if height == 0 || row != height - 1 {
        None
    } else {
        let c0 = 1 + 2 + pill_width("reasonix"@) + 2;
        let mode_w = match scene.edit_mode {
            Some(m) => pill_width("◇ MODE "@ + mode_label(m)),
            None => 0,
        };
        if scene.edit_mode is Some && c0 <= col < c0 + mode_w {
            Some("mode-cycle"@)
        } else {
            let c1 = if scene.edit_mode is Some {
                c0 + mode_w + 1
            } else {
                c0
            };
            match scene.preset {
                Some(p) => {
                    let w = pill_width("◇ MODEL "@ + upper_all(p@));
                    if c1 <= col < c1 + w {
                        Some("preset-cycle"@)
                    } else {
                        None
                    }
                },
                None => None,
            }
        }
    }
}

/// Which status-bar pill, if any, was clicked.
pub fn pill_hit_test(col: u16, row: u16, scene: &SceneState, height: u16) -> (r: Option<&'static str>)
    ensures
        match r {
            Some(x) => pill_at(col as int, row as int, *scene, height as int) == Some(x@),
            None => pill_at(col as int, row as int, *scene, height as int) is None,
        },
{
    if height == 0 {
        return None;
    }
    if row != height - 1 {
        return None;
    }
    let mut c: u64 = 1 + 2;
    c = c + (str_width("reasonix") as u16) as u64;
    c = c + 2;
    if let Some(mode) = &scene.edit_mode {
        let label = match mode {
            EditMode::Review => "REVIEW",
            EditMode::Auto => "AUTO",
            EditMode::Yolo => "YOLO",
        };
        let mut pill = string_lit("◇ MODE ");
        crate::text::push_str(&mut pill, label);
        let w = (str_width(pill.as_str()) as u16) as u64;
        if (col as u64) >= c && (col as u64) < c + w {
            return Some("mode-cycle");
        }
        c = c + w + 1;
    }
    if let Some(preset) = &scene.preset {
        let value = uppercase_each(preset.as_str());
        let mut pill = string_lit("◇ MODEL ");
        crate::text::push_str(&mut pill, value.as_str());
        let w = (str_width(pill.as_str()) as u16) as u64;
        if (col as u64) >= c && (col as u64) < c + w {
            return Some("preset-cycle");
        }
    }
    None
}

/// A click on the status bar: the mode pill opens the mode picker at the
/// current mode, the preset pill opens the preset picker at the current
/// preset (each closes the other). Returns whether a pill was hit.
pub fn click_status_bar(st: &mut UiState, col: u16, row: u16, scene: &SceneState, height: u16) -> (r:
    bool)
    ensures
        match pill_at(col as int, row as int, *scene, height as int) {
            Some(hit) => r && if hit == "mode-cycle"@ {
                final(st)@ == UiView {
                    preset_picker: None,
                    mode_picker: Some(
                        match scene.edit_mode {
                            Some(EditMode::Auto) => 1int,
                            Some(EditMode::Yolo) => 2,
                            _ => 0,
                        },
                    ),
                    ..old(st)@
                }
            } else {
                final(st)@ == UiView {
                    mode_picker: None,
                    preset_picker: Some(
                        match scene.preset {
                            Some(p) => if p@ == "flash"@ {
                                1int
                            } else if p@ == "pro"@ {
                                2
                            } else {
                                0
                            },
                            None => 0,
                        },
                    ),
                    ..old(st)@
                }
            },
            None => !r && final(st)@ == old(st)@,
        },
{
    match pill_hit_test(col, row, scene, height) {
        Some(hit) => {
            let is_mode = crate::text::str_eq(hit, "mode-cycle");
            if is_mode {
                st.preset_picker = None;
                st.mode_picker = Some(current_mode_idx(scene));
            } else {
                st.mode_picker = None;
                st.preset_picker = Some(current_preset_idx(scene));
            }
            true
        },
        None => false,
    }
}

} // verus!
