//! The state that the host pushes for each screen: the transcript cards,
//! the composer, the pickers and the pending approval. Money amounts and
//! ratios are floating-point values on the wire; they are kept by the
//! application beside this state, not in it.
use vstd::prelude::*;

verus! {

/// One trace frame of the host's state.
#[derive(Debug, Clone, Default)]
pub struct SceneState {
    pub model: Option<String>,
    pub card_count: u32,
    pub cards: Vec<SceneCard>,
    pub busy: bool,
    pub activity: Option<String>,
    pub composer_text: Option<String>,
    pub composer_cursor: Option<usize>,
    pub slash_matches: Option<Vec<SlashMatch>>,
    pub slash_selected_index: Option<usize>,
    pub approval_kind: Option<String>,
    pub approval_prompt: Option<String>,
    pub sessions: Option<Vec<SessionItem>>,
    pub sessions_focused_index: Option<usize>,
    pub wallet_currency: Option<String>,
    pub mcp_server_count: Option<u32>,
    pub edit_mode: Option<EditMode>,
    pub preset: Option<String>,
    pub cwd: Option<String>,
    pub dashboard_url: Option<String>,
    pub ctx_tokens: Option<u32>,
    pub ctx_cap: Option<u32>,
    pub last_turn_ms: Option<u64>,
    pub session_input_tokens: Option<u32>,
    pub session_output_tokens: Option<u32>,
    pub slash_catalog: Option<Vec<SlashMatch>>,
    pub slash_arg_state: Option<SlashArgState>,
    pub prompt_history: Option<Vec<String>>,
    pub approval: Option<Approval>,
    pub at_state: Option<AtState>,
    pub prompt_input: Option<PromptInput>,
}

/// A question the host asks through the composer.
#[derive(Debug, Clone, Default)]
pub struct PromptInput {
    pub id: String,
    pub label: String,
    pub default_value: Option<String>,
    pub secret: bool,
}

/// Argument completions the host resolved for `/<cmd> <partial>`.
#[derive(Debug, Clone, Default)]
pub struct SlashArgState {
    pub cmd: String,
    pub partial: String,
    pub matches: Vec<String>,
}

/// A pending approval request.
#[derive(Debug, Clone)]
pub enum Approval {
    Plan { body: String, steps: Vec<PlanStepItem> },
    Shell { command: String, cwd: Option<String>, timeout_sec: Option<u32> },
    Path { path: String, intent: String, tool_name: String },
    Edit { path: String, search: String, replace: String },
    Choice { question: String, options: Vec<ApprovalChoiceOption>, allow_custom: bool },
    Checkpoint { title: Option<String>, completed: u32, total: u32 },
}

/// One option of a choice approval.
#[derive(Debug, Clone)]
pub struct ApprovalChoiceOption {
    pub id: String,
    pub title: String,
    pub summary: Option<String>,
}

/// One step of a plan approval.
#[derive(Debug, Clone)]
pub struct PlanStepItem {
    pub title: String,
    pub status: String,
}

/// One card of the transcript.
#[derive(Debug, Clone, Default)]
pub struct SceneCard {
    pub kind: String,
    pub summary: String,
    pub args: Option<String>,
    pub status: Option<ToolStatus>,
    pub elapsed: Option<String>,
    pub id: Option<String>,
    pub body: Option<String>,
    pub ts: Option<i64>,
    pub meta: Option<String>,
}

/// Status of a tool call.
#[derive(Debug, Clone, Copy, PartialEq, Eq)]
pub enum ToolStatus {
    /// The call succeeded (`"ok"` in the protocol).
    Success,
    /// The call failed (`"err"` in the protocol).
    Failure,
    Running,
}

/// How much the agent may do without asking.
#[derive(Debug, Clone, PartialEq, Eq)]
pub enum EditMode {
    Review,
    Auto,
    Yolo,
}

impl EditMode {
    /// The protocol name of the mode.
    pub fn as_str(&self) -> (r: &'static str)
        ensures
            r@ == match self {
                EditMode::Review => "review"@,
                EditMode::Auto => "auto"@,
                EditMode::Yolo => "yolo"@,
            },
    {
        match self {
            EditMode::Review => "review",
            EditMode::Auto => "auto",
            EditMode::Yolo => "yolo",
        }
    }
}

/// One slash command of the catalog.
#[derive(Debug, Clone)]
pub struct SlashMatch {
    pub cmd: String,
    pub summary: String,
    pub group: Option<String>,
    pub args_hint: Option<String>,
    pub aliases: Vec<String>,
    pub arg_completer: Option<Vec<String>>,
}

/// One entry of the `@` file picker.
#[derive(Debug, Clone)]
pub struct AtPickerEntry {
    pub label: String,
    pub insert_path: String,
    pub dir_suffix: String,
    pub is_dir: bool,
}

/// The `@` file picker: browsing a directory or searching.
#[derive(Debug, Clone)]
pub enum AtState {
    Browse { base_dir: String, entries: Vec<AtPickerEntry>, loading: bool },
    Search { filter: String, entries: Vec<AtPickerEntry>, scanned: u32, searching: bool },
}

/// One saved session.
#[derive(Debug, Clone)]
pub struct SessionItem {
    pub title: String,
    pub meta: Option<String>,
}

/// The API-key setup screen.
#[derive(Debug, Clone, Default)]
pub struct SetupState {
    pub buffer_length: usize,
    pub error: Option<String>,
}

/// A decoded host message.
#[derive(Debug, Clone)]
pub enum Payload {
    Trace(SceneState),
    Setup(SetupState),
}

} // verus!
