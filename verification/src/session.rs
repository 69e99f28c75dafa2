//! The interface's decisions: what a key press does to the palette, the
//! history search, the submitted-cell history and the editor buffer, and
//! what it asks of the application; the kernel status as the interface
//! tracks it; the footer line.
use vstd::prelude::*;

use crate::chars::{chars_of, extend_str, owned, string_from, strs_of};
use crate::editor::{
    ghost_spec, history_down_index, history_up_index, status_label, status_label_spec, EditorHistory, HistoryMove,
    PendingStdin,
};
use crate::history::{HistoryEntry, HistoryOutcome};
use crate::history_search::{
    history_search_layout_for_popup, history_search_scroll_for_selection, layout_spec, ranked_results, scroll_spec,
    search_entry_of, HistorySearchEntry, HistorySearchState,
};
use crate::input::{
    classify_global_key, classify_history_search_key, classify_palette_key, global_key_spec,
    history_search_key_spec, palette_key_spec, GlobalKey, GlobalKeyContext, HistorySearchKey,
    KeyEvent, PaletteKey,
};
use crate::kernel::KernelStatus;
use crate::lines::{trim, trim_chars};
use crate::prompt::{input_prompt_label, input_prompt_label_spec, palette_order, PaletteAction};
use crate::ui::{EditorMode, UiAction};

verus! {

broadcast use vstd::string::group_string_axioms;

/// What the interface needs to know of the editor buffer.
#[derive(Debug)]
pub struct EditorFacts {
    /// The buffer's text.
    pub text: String,
    /// Whether the cursor is at the end of the text.
    pub cursor_at_end: bool,
    /// Whether the buffer has at most one line.
    pub single_line: bool,
    pub mode: EditorMode,
}

/// What the editor buffer should do after a key.
#[derive(Debug)]
pub enum EditorCommand {
    /// Nothing.
    Keep,
    /// Clear the buffer.
    Reset,
    /// Replace the buffer, cursor at the end.
    SetText(String),
    /// Insert an indent.
    InsertIndent,
    /// Break the line.
    InsertLineBreak,
    /// Take the buffer's text and hand it to `submit_text`.
    TakeText,
    /// Let the extensions, then the editor widget, handle the key.
    Edit,
}

/// The answer to a key press.
#[derive(Debug)]
pub struct KeyOutcome {
    pub action: Option<UiAction>,
    pub editor: EditorCommand,
}

/// The interface state behind the key handling.
#[derive(Debug)]
pub struct UiState {
    pub status: KernelStatus,
    pub session_ready: bool,
    pub exit_confirmation_pending: bool,
    pub palette_open: bool,
    pub palette_index: usize,
    pub search: HistorySearchState,
    pub history_entries: Vec<HistorySearchEntry>,
    pub history: EditorHistory,
    /// The stdin request the editor is answering.
    pub editor_stdin: Option<PendingStdin>,
    /// The stdin request whose reply is echoed to the transcript.
    pub reply_stdin: Option<PendingStdin>,
    pub last_execution_count: Option<u32>,
    /// The height of the terminal, in rows.
    pub pane_height: u16,
}

/// The history-search preview shows at most this many rows.
pub open spec fn max_preview_rows() -> nat {
    8
}

/// The kind of action, for contracts.
pub enum ActionKind {
    Submit(Seq<char>),
    ReplyInput(Seq<char>),
    Interrupt,
    ClearScreen,
    Exit,
    Restart,
    ShowConnectionInfo,
}

pub open spec fn action_kind(a: Option<UiAction>) -> Option<ActionKind> {
    match a {
        Some(UiAction::Submit(t)) => Some(ActionKind::Submit(t@)),
        Some(UiAction::ReplyInput { value }) => Some(ActionKind::ReplyInput(value@)),
        Some(UiAction::Interrupt) => Some(ActionKind::Interrupt),
        Some(UiAction::ClearScreen) => Some(ActionKind::ClearScreen),
        Some(UiAction::Exit) => Some(ActionKind::Exit),
        Some(UiAction::Restart) => Some(ActionKind::Restart),
        Some(UiAction::ShowConnectionInfo) => Some(ActionKind::ShowConnectionInfo),
        None => None,
    }
}

/// The editor command, with its text as characters.
pub enum CommandKind {
    Keep,
    Reset,
    SetText(Seq<char>),
    InsertIndent,
    InsertLineBreak,
    TakeText,
    Edit,
}

pub open spec fn command_kind(c: EditorCommand) -> CommandKind {
    match c {
        EditorCommand::Keep => CommandKind::Keep,
        EditorCommand::Reset => CommandKind::Reset,
        EditorCommand::SetText(t) => CommandKind::SetText(t@),
        EditorCommand::InsertIndent => CommandKind::InsertIndent,
        EditorCommand::InsertLineBreak => CommandKind::InsertLineBreak,
        EditorCommand::TakeText => CommandKind::TakeText,
        EditorCommand::Edit => CommandKind::Edit,
    }
}

/// The action a palette entry triggers (clearing the input is done on the
/// editor and asks nothing of the application).
pub open spec fn palette_action_kind(action: PaletteAction) -> Option<ActionKind> {
    match action {
        PaletteAction::Quit => Some(ActionKind::Exit),
        PaletteAction::InterruptKernel => Some(ActionKind::Interrupt),
        PaletteAction::RestartKernel => Some(ActionKind::Restart),
        PaletteAction::ClearInput => None,
        PaletteAction::ShowConnectionInfo => Some(ActionKind::ShowConnectionInfo),
    }
}

/// The state with the history search's selection at `sel` and its scroll
/// following the selection.
pub open spec fn with_search_selection(s: UiState, sel: usize) -> UiState {
    let mid = UiState { search: HistorySearchState { selected: sel, ..s.search }, ..s };
    UiState {
        search: HistorySearchState {
            scroll: scroll_spec(s.search.results.len() as nat, mid.visible_result_rows(), sel as nat) as usize,
            ..mid.search
        },
        ..s
    }
}

/// The state with the history search closed.
pub open spec fn with_search_closed(s: UiState) -> UiState {
    UiState { search: HistorySearchState { open: false, ..s.search }, ..s }
}

/// The state with the history search's query `query` and its results
/// ranked afresh, selection and scroll at the top; the rest of `s` kept.
pub open spec fn search_requeried(s: UiState, t: UiState, query: Seq<char>) -> bool {
    &&& t == UiState { search: t.search, ..s }
    &&& t.search.open == s.search.open
    &&& t.search.query@ == query
    &&& ranked_results(query, s.history_entries@, t.search.results@)
    &&& t.search.selected == 0
    &&& t.search.scroll == 0
}

/// What a key does while the history search is open: from `s` to `t`,
/// answering `r`.
pub open spec fn search_key_post(s: UiState, t: UiState, key: KeyEvent, r: KeyOutcome) -> bool {
    let sel = s.search.selected;
    let results = s.search.results@;
    &&& r.action is None
    &&& match history_search_key_spec(key) {
        HistorySearchKey::Close => t == with_search_closed(s) && command_kind(r.editor) is Keep,
        HistorySearchKey::Up => {
            &&& t == with_search_selection(s, if sel > 0 { (sel - 1) as usize } else { 0 })
            &&& command_kind(r.editor) is Keep
        },
        HistorySearchKey::Down | HistorySearchKey::Cycle => {
            let last: int = if results.len() > 0 { results.len() - 1 } else { 0 };
            &&& t == with_search_selection(s, if sel + 1 < last { (sel + 1) as usize } else { last as usize })
            &&& command_kind(r.editor) is Keep
        },
        HistorySearchKey::Load => if sel < results.len() && results[sel as int] < s.history.entries.len() {
            &&& t == UiState {
                history: EditorHistory { index: Some(results[sel as int]), ..s.history },
                ..with_search_closed(s)
            }
            &&& command_kind(r.editor) == CommandKind::SetText(s.history.entries@[results[sel as int] as int]@)
        } else {
            t == with_search_closed(s) && command_kind(r.editor) is Keep
        },
        HistorySearchKey::Backspace => {
            &&& search_requeried(
                s,
                t,
                if s.search.query@.len() > 0 { s.search.query@.drop_last() } else { s.search.query@ },
            )
            &&& command_kind(r.editor) is Keep
        },
        HistorySearchKey::Insert(c) => search_requeried(s, t, s.search.query@.push(c)) && command_kind(r.editor) is Keep,
        HistorySearchKey::Ignored => t == s && command_kind(r.editor) is Keep,
    }
}

/// What a key does while the palette is open: from `s` to `t`, answering
/// `r`.
pub open spec fn palette_key_post(s: UiState, t: UiState, key: KeyEvent, r: KeyOutcome) -> bool {
    match palette_key_spec(key) {
        PaletteKey::Close => {
            &&& t == UiState { palette_open: false, ..s }
            &&& r.action is None && command_kind(r.editor) is Keep
        },
        PaletteKey::Up => {
            &&& t == UiState { palette_index: if s.palette_index > 0 { (s.palette_index - 1) as usize } else { 0 }, ..s }
            &&& r.action is None && command_kind(r.editor) is Keep
        },
        PaletteKey::Down => {
            &&& t == UiState { palette_index: if s.palette_index < 4 { (s.palette_index + 1) as usize } else { 4 }, ..s }
            &&& r.action is None && command_kind(r.editor) is Keep
        },
        PaletteKey::Select => {
            &&& t == UiState { palette_open: false, ..s }
            &&& action_kind(r.action) == palette_action_kind(palette_order()[s.palette_index as int])
            &&& if palette_order()[s.palette_index as int] == PaletteAction::ClearInput {
                command_kind(r.editor) is Reset
            } else {
                command_kind(r.editor) is Keep
            }
        },
        PaletteKey::Ignored => t == s && r.action is None && command_kind(r.editor) is Keep,
    }
}

/// What a key does outside the overlays (see `global_key_spec`): from `s`
/// to `t`, answering `r`, with the editor buffer described by `facts`.
pub open spec fn global_key_post(s: UiState, t: UiState, key: KeyEvent, facts: EditorFacts, r: KeyOutcome) -> bool {
    let n = s.history.entries.len() as nat;
    match global_key_spec(key, s.context_spec(facts)) {
        GlobalKey::OpenHistorySearch => {
            &&& t == UiState { palette_open: false, search: t.search, ..s }
            &&& t.search.open
            &&& t.search.query@.len() == 0
            &&& ranked_results(Seq::empty(), s.history_entries@, t.search.results@)
            &&& t.search.selected == 0 && t.search.scroll == 0
            &&& r.action is None && command_kind(r.editor) is Keep
        },
        GlobalKey::OpenPalette => t == UiState { palette_open: true, ..s } && r.action is None && command_kind(r.editor) is Keep,
        GlobalKey::InterruptOrClear => t == s && if s.editor_stdin is Some || s.status == KernelStatus::Busy {
            action_kind(r.action) == Some(ActionKind::Interrupt) && command_kind(r.editor) is Keep
        } else if s.editor_enabled_spec() && facts.text@.len() > 0 {
            r.action is None && command_kind(r.editor) is Reset
        } else {
            r.action is None && command_kind(r.editor) is Keep
        },
        GlobalKey::ExitOrConfirm => command_kind(r.editor) is Keep && if s.exit_confirmation_pending {
            t == s && action_kind(r.action) == Some(ActionKind::Exit)
        } else {
            t == UiState { exit_confirmation_pending: true, ..s } && r.action is None
        },
        GlobalKey::ClearScreen => t == s && action_kind(r.action) == Some(ActionKind::ClearScreen) && command_kind(r.editor) is Keep,
        GlobalKey::HistoryUp => {
            let i = history_up_index(s.history.index, n);
            &&& t == UiState { history: EditorHistory { index: Some(i), ..s.history }, ..s }
            &&& r.action is None
            &&& command_kind(r.editor) == CommandKind::SetText(s.history.entries@[i as int]@)
        },
        GlobalKey::HistoryDown => {
            &&& t == UiState { history: EditorHistory { index: history_down_index(s.history.index, n), ..s.history }, ..s }
            &&& r.action is None
            &&& match s.history.index {
                Some(i) => if i + 1 < n {
                    command_kind(r.editor) == CommandKind::SetText(s.history.entries@[i + 1]@)
                } else {
                    command_kind(r.editor) is Reset
                },
                None => command_kind(r.editor) is Keep,
            }
        },
        GlobalKey::InsertIndent => t == s && r.action is None && command_kind(r.editor) is InsertIndent,
        GlobalKey::AcceptGhostSuggestion => t == s && r.action is None && command_kind(r.editor) == CommandKind::SetText(
            facts.text@ + ghost_spec(facts.mode == EditorMode::Insert, facts.text@, facts.cursor_at_end, strs_of(s.history.entries@))->0,
        ),
        GlobalKey::InsertLineBreak => t == s && r.action is None && command_kind(r.editor) is InsertLineBreak,
        GlobalKey::Submit => t == s && r.action is None && command_kind(r.editor) is TakeText,
        GlobalKey::Editor => t == s && r.action is None && command_kind(r.editor) is Edit,
        GlobalKey::Ignored => t == s && r.action is None && command_kind(r.editor) is Keep,
    }
}

/// A key press: a pending exit confirmation lapses unless the key confirms
/// it; then the open history search takes the key, else the open palette,
/// else the global bindings.
pub open spec fn key_post(s: UiState, t: UiState, key: KeyEvent, facts: EditorFacts, r: KeyOutcome) -> bool {
    let confirming = global_key_spec(key, s.context_spec(facts)) == GlobalKey::ExitOrConfirm;
    let s1 = UiState { exit_confirmation_pending: confirming && s.exit_confirmation_pending, ..s };
    if s.search.open {
        search_key_post(s1, t, key, r)
    } else if s.palette_open {
        palette_key_post(s1, t, key, r)
    } else {
        global_key_post(s1, t, key, facts, r)
    }
}

impl UiState {
    /// The indices the interface keeps are in range.
    pub open spec fn wf(&self) -> bool {
        &&& self.palette_index < 5
        &&& self.history.wf()
    }

    /// Whether the editor accepts input: not after the kernel disconnected.
    pub open spec fn editor_enabled_spec(&self) -> bool {
        self.status != KernelStatus::Disconnected
    }

    /// Whether Enter submits: the session is ready and the kernel neither
    /// busy nor gone.
    pub open spec fn submit_ready_spec(&self) -> bool {
        self.session_ready && self.status != KernelStatus::Busy && self.status != KernelStatus::Disconnected
    }

    /// The key context of the current state and buffer.
    pub open spec fn context_spec(&self, facts: EditorFacts) -> GlobalKeyContext {
        GlobalKeyContext {
            editor_enabled: self.editor_enabled_spec(),
            awaiting_input: self.editor_stdin is Some,
            editor_empty: facts.text@.len() == 0,
            editor_single_line: facts.single_line,
            editor_has_history: self.history.entries.len() > 0,
            editor_insert_mode: facts.mode == EditorMode::Insert,
            submit_ready: self.submit_ready_spec(),
            ghost_suggestion_available: self.editor_enabled_spec() && ghost_spec(
                facts.mode == EditorMode::Insert,
                facts.text@,
                facts.cursor_at_end,
                strs_of(self.history.entries@),
            ) is Some,
        }
    }

    /// The rows of the preview of the selected result, at most eight.
    pub open spec fn selected_preview_rows(&self) -> nat {
        let n: nat = if self.search.selected < self.search.results.len() && self.search.results[self.search.selected as int]
            < self.history_entries.len() {
            self.history_entries[self.search.results[self.search.selected as int] as int].line_count as nat
        } else {
            1
        };
        if n < max_preview_rows() { n } else { max_preview_rows() }
    }

    /// The number of result rows visible in the search popup.
    pub open spec fn visible_result_rows(&self) -> nat {
        layout_spec(
            if self.pane_height >= 1 { (self.pane_height - 1) as nat } else { 0 },
            self.search.results.len() as nat,
            self.selected_preview_rows(),
        ).0
    }

    pub fn new(connection_ready: bool) -> (r: Self)
        ensures
            r.wf(),
            r.status == KernelStatus::Connecting,
            r.session_ready == connection_ready,
            !r.palette_open,
            !r.search.open,
            r.history.entries.len() == 0,
            r.history_entries.len() == 0,
            r.editor_stdin is None,
            r.reply_stdin is None,
            !r.exit_confirmation_pending,
            r.palette_index == 0,
            r.last_execution_count is None,
            r.pane_height == 0,
            r.search.query@.len() == 0,
            r.search.results@.len() == 0,
            r.search.selected == 0,
            r.search.scroll == 0,
            r.history.index is None,
    {
        UiState {
            status: KernelStatus::Connecting,
            session_ready: connection_ready,
            exit_confirmation_pending: false,
            palette_open: false,
            palette_index: 0,
            search: HistorySearchState::new(),
            history_entries: Vec::new(),
            history: EditorHistory::new(),
            editor_stdin: None,
            reply_stdin: None,
            last_execution_count: None,
            pane_height: 0,
        }
    }

    pub fn editor_enabled(&self) -> (r: bool)
        ensures
            r == self.editor_enabled_spec(),
    {
        self.status != KernelStatus::Disconnected
    }

    pub fn submit_ready(&self) -> (r: bool)
        ensures
            r == self.submit_ready_spec(),
    {
        self.session_ready && self.status != KernelStatus::Busy && self.status != KernelStatus::Disconnected
    }

    /// The spinner runs while the kernel is busy or first connecting.
    pub fn needs_animation(&self) -> (r: bool)
        ensures
            r == (self.status == KernelStatus::Busy || (self.status == KernelStatus::Connecting
                && !self.session_ready)),
    {
        self.status == KernelStatus::Busy || (self.status == KernelStatus::Connecting && !self.session_ready)
    }

    /// The label of the next input, from the last execution count.
    pub fn prompt_label(&self) -> (r: String)
        ensures
            r@ == input_prompt_label_spec(self.last_execution_count),
    {
        input_prompt_label(self.last_execution_count)
    }

    /// The key context for the current buffer.
    pub fn global_key_context(&self, facts: &EditorFacts) -> (r: GlobalKeyContext)
        requires
            self.wf(),
        ensures
            r == self.context_spec(*facts),
    {
        let enabled = self.editor_enabled();
        let ghost_ok = if enabled {
            match self.history.ghost_suggestion_suffix(
                facts.mode == EditorMode::Insert,
                facts.text.as_str(),
                facts.cursor_at_end,
            ) {
                Some(_) => true,
                None => false,
            }
        } else {
            false
        };
        GlobalKeyContext {
            editor_enabled: enabled,
            awaiting_input: self.editor_stdin.is_some(),
            editor_empty: chars_of(facts.text.as_str()).len() == 0,
            editor_single_line: facts.single_line,
            editor_has_history: self.history.entries.len() > 0,
            editor_insert_mode: facts.mode == EditorMode::Insert,
            submit_ready: self.submit_ready(),
            ghost_suggestion_available: ghost_ok,
        }
    }

    /// Sets the kernel status. A `Connecting` report after the session is
    /// ready is ignored; a disconnect ends the session.
    pub fn set_status(&mut self, status: KernelStatus)
        requires
            old(self).wf(),
        ensures
            final(self).wf(),
            *final(self) == if old(self).session_ready && status == KernelStatus::Connecting {
                *old(self)
            } else {
                UiState {
                    status,
                    session_ready: old(self).session_ready && status != KernelStatus::Disconnected,
                    ..*old(self)
                }
            },
    {
        if self.session_ready && status == KernelStatus::Connecting {
            return;
        }
        self.status = status;
        if status == KernelStatus::Disconnected {
            self.session_ready = false;
        }
    }

    /// The session is connected: the kernel is idle.
    pub fn mark_session_ready(&mut self)
        requires
            old(self).wf(),
        ensures
            final(self).wf(),
            *final(self) == (UiState { session_ready: true, status: KernelStatus::Idle, ..*old(self) }),
    {
        self.session_ready = true;
        self.status = KernelStatus::Idle;
    }

    /// Remembers the last execution count the kernel reported.
    pub fn set_last_execution_count(&mut self, count: Option<u32>)
        requires
            old(self).wf(),
        ensures
            final(self).wf(),
            *final(self) == (UiState {
                last_execution_count: match count {
                    Some(c) => Some(c),
                    None => old(self).last_execution_count,
                },
                ..*old(self)
            }),
    {
        if let Some(c) = count {
            self.last_execution_count = Some(c);
        }
    }

    /// The kernel asks for input: the editor answers it.
    pub fn begin_input_request(&mut self, prompt: String, password: bool)
        requires
            old(self).wf(),
        ensures
            final(self).wf(),
            *final(self) == (UiState {
                status: KernelStatus::AwaitingInput,
                editor_stdin: final(self).editor_stdin,
                reply_stdin: final(self).reply_stdin,
                ..*old(self)
            }),
            final(self).editor_stdin matches Some(p) && p.prompt@ == prompt@ && p.password == password,
            final(self).reply_stdin matches Some(p) && p.prompt@ == prompt@ && p.password == password,
    {
        self.reply_stdin = Some(PendingStdin::new(prompt.clone(), password));
        self.editor_stdin = Some(PendingStdin::new(prompt, password));
        self.status = KernelStatus::AwaitingInput;
    }

    /// The input request is over.
    pub fn clear_input_request(&mut self)
        requires
            old(self).wf(),
        ensures
            final(self).wf(),
            *final(self) == (UiState { editor_stdin: None, reply_stdin: None, ..*old(self) }),
    {
        self.editor_stdin = None;
        self.reply_stdin = None;
    }

    /// The transcript echo of a stdin reply: the prompt and the value, not
    /// for passwords; the request is consumed.
    pub fn record_input_reply(&mut self, value: &str) -> (r: Option<(String, String)>)
        requires
            old(self).wf(),
        ensures
            final(self).wf(),
            *final(self) == (UiState { reply_stdin: None, ..*old(self) }),
            match old(self).reply_stdin {
                Some(p) => if p.password { r is None } else {
                    r matches Some((a, b)) && a@ == p.prompt@ && b@ == value@
                },
                None => r is None,
            },
    {
        match self.reply_stdin.take() {
            Some(stdin) => {
                if stdin.password {
                    None
                } else {
                    Some((stdin.prompt, owned(value)))
                }
            },
            None => None,
        }
    }

    /// The cells loaded from the history files become the editor's history
    /// and the search's entries.
    pub fn load_history(&mut self, history: Vec<HistoryEntry>)
        requires
            old(self).wf(),
        ensures
            final(self).wf(),
            *final(self) == (UiState {
                history: EditorHistory {
                    entries: final(self).history.entries,
                    index: if history.len() == 0 { old(self).history.index } else { None },
                },
                history_entries: final(self).history_entries,
                ..*old(self)
            }),
            final(self).history.entries.len() == old(self).history.entries.len() + history.len(),
            forall|k: int| 0 <= k < old(self).history.entries.len() ==> #[trigger] final(self).history.entries@[k]
                == old(self).history.entries@[k],
            forall|i: int| 0 <= i < history.len() ==> #[trigger] final(self).history.entries@[old(
                self,
            ).history.entries.len() + i]@ == history@[i].code@,
            final(self).history_entries.len() == history.len(),
            forall|i: int| 0 <= i < history.len() ==> search_entry_of(
                #[trigger] final(self).history_entries@[i],
                history@[i].code@,
                history@[i].duration_ns,
                Some(history@[i].ts_unix_ns),
                history@[i].outcome,
            ),
    {
        let mut entries: Vec<HistorySearchEntry> = Vec::new();
        let mut rest = history;
        let ghost orig = rest@;
        let ghost s0 = *self;
        let ghost start = self.history.entries@;
        let mut i: usize = 0;
        assert(orig.len() == rest.len());
        while rest.len() > 0
            invariant
                self.wf(),
                i + rest.len() == orig.len(),
                orig.len() <= usize::MAX,
                forall|k: int| 0 <= k < rest.len() ==> #[trigger] rest@[k] == orig[i + k],
                entries.len() == i,
                *self == (UiState {
                    history: EditorHistory {
                        entries: self.history.entries,
                        index: if i == 0 { s0.history.index } else { None },
                    },
                    ..s0
                }),
                start == s0.history.entries@,
                self.history.entries.len() == start.len() + i,
                forall|k: int| 0 <= k < start.len() ==> #[trigger] self.history.entries@[k] == start[k],
                forall|k: int| 0 <= k < i ==> #[trigger] self.history.entries@[start.len() + k]@ == orig[k].code@,
                forall|k: int| 0 <= k < i ==> search_entry_of(
                    #[trigger] entries@[k],
                    orig[k].code@,
                    orig[k].duration_ns,
                    Some(orig[k].ts_unix_ns),
                    orig[k].outcome,
                ),
            decreases rest.len(),
        {
            let entry = rest.remove(0);
            let code = entry.code.clone();
            self.history.push_history(code);
            entries.push(HistorySearchEntry::from_history_entry(entry));
            i += 1;
        }
        self.history_entries = entries;
    }

    /// A submitted cell joins the search entries; its index is returned.
    pub fn record_history_submission(&mut self, code: &str) -> (r: usize)
        requires
            old(self).wf(),
            old(self).history_entries.len() < usize::MAX,
        ensures
            final(self).wf(),
            *final(self) == (UiState { history_entries: final(self).history_entries, ..*old(self) }),
            final(self).history_entries.len() == old(self).history_entries.len() + 1,
            r == old(self).history_entries.len(),
            final(self).history_entries@.drop_last() == old(self).history_entries@,
            search_entry_of(final(self).history_entries@[r as int], code@, None, None, None),
    {
        self.history_entries.push(HistorySearchEntry::new(owned(code)));
        self.history_entries.len() - 1
    }

    /// A cell finished: its search entry gets the run time and outcome.
    pub fn record_history_completion(&mut self, index: usize, duration_ns: u64, outcome: HistoryOutcome)
        requires
            old(self).wf(),
        ensures
            final(self).wf(),
            *final(self) == (UiState { history_entries: final(self).history_entries, ..*old(self) }),
            final(self).history_entries@ == if index < old(self).history_entries.len() {
                old(self).history_entries@.update(
                    index as int,
                    HistorySearchEntry {
                        duration_ns: Some(duration_ns),
                        outcome: Some(outcome),
                        ..old(self).history_entries@[index as int]
                    },
                )
            } else {
                old(self).history_entries@
            },
    {
        if index < self.history_entries.len() {
            let mut entry = self.history_entries.remove(index);
            entry.duration_ns = Some(duration_ns);
            entry.outcome = Some(outcome);
            self.history_entries.insert(index, entry);
        }
    }

    /// The search scroll follows the selection.
    fn adjust_search_scroll(&mut self)
        requires
            old(self).wf(),
        ensures
            final(self).wf(),
            *final(self) == with_search_selection(*old(self), old(self).search.selected),
    {
        let sel = self.search.selected;
        let rows: usize = if sel < self.search.results.len() && self.search.results[sel] < self.history_entries.len() {
            self.history_entries[self.search.results[sel]].line_count
        } else {
            1
        };
        let rows = if rows < 8 { rows } else { 8 };
        let popup: u16 = if self.pane_height >= 1 { self.pane_height - 1 } else { 0 };
        let (visible, _) = history_search_layout_for_popup(popup, self.search.results.len(), rows);
        self.search.scroll = history_search_scroll_for_selection(
            self.search.results.len(),
            visible as usize,
            self.search.selected,
        );
    }

    /// A key while the history search is open.
    pub fn handle_search_key(&mut self, key: KeyEvent) -> (r: KeyOutcome)
        requires
            old(self).wf(),
        ensures
            final(self).wf(),
            search_key_post(*old(self), *final(self), key, r),
    {
        let keep = KeyOutcome { action: None, editor: EditorCommand::Keep };
        match classify_history_search_key(key) {
            HistorySearchKey::Close => {
                self.search.open = false;
                keep
            },
            HistorySearchKey::Up => {
                self.search.selected = if self.search.selected > 0 { self.search.selected - 1 } else { 0 };
                self.adjust_search_scroll();
                keep
            },
            HistorySearchKey::Down | HistorySearchKey::Cycle => {
                let last = if self.search.results.len() > 0 { self.search.results.len() - 1 } else { 0 };
                self.search.selected = if self.search.selected < last { self.search.selected + 1 } else { last };
                self.adjust_search_scroll();
                keep
            },
            HistorySearchKey::Load => {
                let sel = self.search.selected;
                let editor = if sel < self.search.results.len() {
                    match self.history.select_history(self.search.results[sel]) {
                        Some(text) => EditorCommand::SetText(text),
                        None => EditorCommand::Keep,
                    }
                } else {
                    EditorCommand::Keep
                };
                self.search.open = false;
                KeyOutcome { action: None, editor }
            },
            HistorySearchKey::Backspace => {
                let q = chars_of(self.search.query.as_str());
                if q.len() > 0 {
                    self.search.query = string_from(crate::chars::slice_chars(q.as_slice(), 0, q.len() - 1).as_slice());
                    assert(q@.subrange(0, q.len() - 1) =~= q@.drop_last());
                }
                let entries = &self.history_entries;
                self.search.refresh_results(entries);
                keep
            },
            HistorySearchKey::Insert(c) => {
                let mut q = chars_of(self.search.query.as_str());
                q.push(c);
                self.search.query = string_from(q.as_slice());
                let entries = &self.history_entries;
                self.search.refresh_results(entries);
                keep
            },
            HistorySearchKey::Ignored => keep,
        }
    }

    /// A key while the palette is open.
    pub fn handle_palette_key(&mut self, key: KeyEvent) -> (r: KeyOutcome)
        requires
            old(self).wf(),
        ensures
            final(self).wf(),
            palette_key_post(*old(self), *final(self), key, r),
    {
        match classify_palette_key(key) {
            PaletteKey::Close => {
                self.palette_open = false;
                KeyOutcome { action: None, editor: EditorCommand::Keep }
            },
            PaletteKey::Up => {
                self.palette_index = if self.palette_index > 0 { self.palette_index - 1 } else { 0 };
                KeyOutcome { action: None, editor: EditorCommand::Keep }
            },
            PaletteKey::Down => {
                self.palette_index = if self.palette_index < 4 { self.palette_index + 1 } else { 4 };
                KeyOutcome { action: None, editor: EditorCommand::Keep }
            },
            PaletteKey::Select => {
                self.palette_open = false;
                let items = crate::prompt::palette_items();
                match items[self.palette_index] {
                    PaletteAction::Quit => KeyOutcome { action: Some(UiAction::Exit), editor: EditorCommand::Keep },
                    PaletteAction::InterruptKernel => KeyOutcome { action: Some(UiAction::Interrupt), editor: EditorCommand::Keep },
                    PaletteAction::RestartKernel => KeyOutcome { action: Some(UiAction::Restart), editor: EditorCommand::Keep },
                    PaletteAction::ClearInput => KeyOutcome { action: None, editor: EditorCommand::Reset },
                    PaletteAction::ShowConnectionInfo => KeyOutcome {
                        action: Some(UiAction::ShowConnectionInfo),
                        editor: EditorCommand::Keep,
                    },
                }
            },
            PaletteKey::Ignored => KeyOutcome { action: None, editor: EditorCommand::Keep },
        }
    }

    /// A key outside the overlays (see `global_key_spec`).
    pub fn handle_global_key(&mut self, key: KeyEvent, facts: &EditorFacts) -> (r: KeyOutcome)
        requires
            old(self).wf(),
        ensures
            final(self).wf(),
            global_key_post(*old(self), *final(self), key, *facts, r),
    {
        let ctx = self.global_key_context(facts);
        let keep = KeyOutcome { action: None, editor: EditorCommand::Keep };
        match classify_global_key(key, ctx) {
            GlobalKey::OpenHistorySearch => {
                self.palette_open = false;
                self.search.open = true;
                self.search.query = String::new();
                let entries = &self.history_entries;
                self.search.refresh_results(entries);
                proof {
                    assert(trim(Seq::<char>::empty()) =~= Seq::<char>::empty()) by {
                        reveal_with_fuel(crate::lines::trim_start, 1);
                        reveal_with_fuel(crate::lines::trim_end, 1);
                    }
                }
                keep
            },
            GlobalKey::OpenPalette => {
                self.palette_open = true;
                keep
            },
            GlobalKey::InterruptOrClear => {
                if self.editor_stdin.is_some() || self.status == KernelStatus::Busy {
                    KeyOutcome { action: Some(UiAction::Interrupt), editor: EditorCommand::Keep }
                } else if self.editor_enabled() && chars_of(facts.text.as_str()).len() > 0 {
                    KeyOutcome { action: None, editor: EditorCommand::Reset }
                } else {
                    keep
                }
            },
            GlobalKey::ExitOrConfirm => {
                if self.exit_confirmation_pending {
                    KeyOutcome { action: Some(UiAction::Exit), editor: EditorCommand::Keep }
                } else {
                    self.exit_confirmation_pending = true;
                    keep
                }
            },
            GlobalKey::ClearScreen => KeyOutcome { action: Some(UiAction::ClearScreen), editor: EditorCommand::Keep },
            GlobalKey::HistoryUp => {
                let text = self.history.history_up();
                KeyOutcome { action: None, editor: EditorCommand::SetText(text) }
            },
            GlobalKey::HistoryDown => {
                let editor = match self.history.history_down() {
                    HistoryMove::Show(text) => EditorCommand::SetText(text),
                    HistoryMove::Clear => EditorCommand::Reset,
                    HistoryMove::Keep => EditorCommand::Keep,
                };
                KeyOutcome { action: None, editor }
            },
            GlobalKey::InsertIndent => KeyOutcome { action: None, editor: EditorCommand::InsertIndent },
            GlobalKey::AcceptGhostSuggestion => {
                match self.history.ghost_suggestion_suffix(
                    facts.mode == EditorMode::Insert,
                    facts.text.as_str(),
                    facts.cursor_at_end,
                ) {
                    Some(suffix) => {
                        let mut t = chars_of(facts.text.as_str());
                        crate::chars::extend_str(&mut t, suffix.as_str());
                        KeyOutcome { action: None, editor: EditorCommand::SetText(string_from(t.as_slice())) }
                    },
                    None => keep,
                }
            },
            GlobalKey::InsertLineBreak => KeyOutcome { action: None, editor: EditorCommand::InsertLineBreak },
            GlobalKey::Submit => KeyOutcome { action: None, editor: EditorCommand::TakeText },
            GlobalKey::Editor => KeyOutcome { action: None, editor: EditorCommand::Edit },
            GlobalKey::Ignored => keep,
        }
    }

    /// A key press: a pending exit confirmation lapses unless the key
    /// confirms it; the open history search takes the key first, then the
    /// open palette, else the global bindings.
    pub fn handle_key(&mut self, key: KeyEvent, facts: &EditorFacts) -> (r: KeyOutcome)
        requires
            old(self).wf(),
        ensures
            final(self).wf(),
            key_post(*old(self), *final(self), key, *facts, r),
    {
        let ctx = self.global_key_context(facts);
        let confirming = crate::input::is_exit_confirmation_key(key, ctx);
        if !confirming {
            self.exit_confirmation_pending = false;
        }
        if self.search.open {
            return self.handle_search_key(key);
        }
        if self.palette_open {
            return self.handle_palette_key(key);
        }
        self.handle_global_key(key, facts)
    }

    /// The text taken from the editor after Enter: the reply to a pending
    /// stdin request, else a submission (remembered in the history) unless
    /// it is blank.
    pub fn submit_text(&mut self, text: String) -> (r: Option<UiAction>)
        requires
            old(self).wf(),
        ensures
            final(self).wf(),
            *final(self) == (UiState { editor_stdin: None, history: final(self).history, ..*old(self) }),
            old(self).editor_stdin is Some ==> action_kind(r) == Some(ActionKind::ReplyInput(text@))
                && final(self).history == old(self).history,
            old(self).editor_stdin is None && trim(text@).len() == 0 ==> r is None && final(self).history
                == old(self).history,
            old(self).editor_stdin is None && trim(text@).len() > 0 ==> action_kind(r) == Some(ActionKind::Submit(text@))
                && final(self).history.entries@ == old(self).history.entries@.push(text)
                && final(self).history.index is None,
    {
        if self.editor_stdin.take().is_some() {
            return Some(UiAction::ReplyInput { value: text });
        }
        let c = chars_of(text.as_str());
        if trim_chars(c.as_slice()).len() == 0 {
            return None;
        }
        self.history.push_history(text.clone());
        Some(UiAction::Submit(text))
    }
}

/// The footer's detail: the exit confirmation hint, else the editor's
/// status label.
pub open spec fn footer_detail_spec(state: UiState) -> Option<Seq<char>> {
    if state.exit_confirmation_pending {
        Some("press Ctrl-D again to exit"@)
    } else {
        status_label_spec(
            state.editor_stdin is Some,
            input_prompt_label_spec(state.last_execution_count),
            match state.history.index {
                Some(i) => Some(((i + 1) as usize, state.history.entries.len())),
                None => None,
            },
        )
    }
}

/// The footer's activity: the busy indicator (with the run time so far),
/// the disconnect notice, or the transient status (none while the session
/// is ready).
pub open spec fn footer_activity_spec(state: UiState, busy_label: Option<Seq<char>>) -> Option<Seq<char>> {
    if state.status == KernelStatus::Busy {
        Some(
            match busy_label {
                Some(l) => l + " Kernel busy. Ctrl-C to interrupt"@,
                None => "Kernel busy. Ctrl-C to interrupt"@,
            },
        )
    } else if state.status == KernelStatus::Disconnected {
        Some("Kernel disconnected"@)
    } else if state.session_ready && state.status == KernelStatus::Connecting {
        None
    } else {
        crate::prompt::transient_status_spec(state.status)
    }
}

/// The footer line: the mode badge, detail, activity and the palette hint,
/// separated by spaces.
pub open spec fn footer_spec(state: UiState, mode: EditorMode, busy_label: Option<Seq<char>>) -> Seq<char> {
    crate::history_search::join_spaced(
        seq![crate::ui::mode_badge_spec(mode)] + crate::history_search::part(footer_detail_spec(state))
            + crate::history_search::part(footer_activity_spec(state, busy_label)) + seq!["Ctrl-P palette"@],
    )
}

impl UiState {
    /// The footer line for the editor mode and the busy label (the current
    /// run time, with the last run time of the same code where known).
    pub fn footer_text(&self, mode: EditorMode, busy_label: Option<String>) -> (r: String)
        requires
            self.wf(),
        ensures
            r@ == footer_spec(*self, mode, crate::history_search::opt_view(busy_label)),
    {
        let mut parts: Vec<String> = Vec::new();
        parts.push(owned(crate::ui::editor_mode_badge(mode)));
        let ghost p0 = strs_of(parts@);
        assert(p0 =~= seq![crate::ui::mode_badge_spec(mode)]);
        let detail = if self.exit_confirmation_pending {
            Some(owned("press Ctrl-D again to exit"))
        } else {
            let label = self.prompt_label();
            let position = self.history.history_position();
            status_label(self.editor_stdin.as_ref(), label.as_str(), position)
        };
        let ghost dv = crate::history_search::opt_view(detail);
        assert(dv == footer_detail_spec(*self));
        match detail {
            Some(d) => parts.push(d),
            None => {},
        }
        let ghost p1 = strs_of(parts@);
        assert(p1 =~= p0 + crate::history_search::part(dv));
        let ghost bv = crate::history_search::opt_view(busy_label);
        let activity: Option<String> = if self.status == KernelStatus::Busy {
            let mut a: Vec<char> = Vec::new();
            match &busy_label {
                Some(l) => {
                    extend_str(&mut a, l.as_str());
                    extend_str(&mut a, " Kernel busy. Ctrl-C to interrupt");
                },
                None => extend_str(&mut a, "Kernel busy. Ctrl-C to interrupt"),
            }
            Some(string_from(a.as_slice()))
        } else if self.status == KernelStatus::Disconnected {
            Some(owned("Kernel disconnected"))
        } else if self.session_ready && self.status == KernelStatus::Connecting {
            None
        } else {
            match crate::prompt::transient_status_label(self.status) {
                Some(t) => Some(owned(t)),
                None => None,
            }
        };
        let ghost av = crate::history_search::opt_view(activity);
        assert(av == footer_activity_spec(*self, bv));
        match activity {
            Some(a) => parts.push(a),
            None => {},
        }
        let ghost p2 = strs_of(parts@);
        assert(p2 =~= p1 + crate::history_search::part(av));
        parts.push(owned("Ctrl-P palette"));
        assert(strs_of(parts@) =~= p2 + seq!["Ctrl-P palette"@]);
        crate::history_search::join_with_spaces(&parts)
    }
}

/// Ctrl-D on an empty editor exits only when pressed twice: the first press
/// (with no overlay open, the editor enabled and no input request pending)
/// only arms the confirmation and asks for nothing; the second exits.
pub proof fn law_exit_needs_confirmation(
    s: UiState,
    t: UiState,
    u: UiState,
    key: KeyEvent,
    facts: EditorFacts,
    r1: KeyOutcome,
    r2: KeyOutcome,
)
    requires
        key.code == crate::input::KeyCode::Char('d') && key.modifiers.control,
        !s.search.open && !s.palette_open,
        !s.exit_confirmation_pending,
        s.status != KernelStatus::Disconnected,
        s.editor_stdin is None,
        facts.text@.len() == 0,
        key_post(s, t, key, facts, r1),
        key_post(t, u, key, facts, r2),
    ensures
        r1.action is None,
        t.exit_confirmation_pending,
        action_kind(r2.action) == Some(ActionKind::Exit),
{
    crate::input::law_global_keys(key, s.context_spec(facts));
    assert(t == UiState { exit_confirmation_pending: true, ..s });
    assert(t.context_spec(facts) == s.context_spec(facts));
}

/// Any key that does not confirm the exit drops a pending confirmation, in
/// the overlays and outside them.
pub proof fn law_other_keys_cancel_exit(s: UiState, t: UiState, key: KeyEvent, facts: EditorFacts, r: KeyOutcome)
    requires
        global_key_spec(key, s.context_spec(facts)) != GlobalKey::ExitOrConfirm,
        key_post(s, t, key, facts, r),
    ensures
        !t.exit_confirmation_pending,
{
}

/// Ctrl-C outside the overlays interrupts the kernel while it is busy or
/// while an input request is pending, and leaves the state as it was.
pub proof fn law_ctrl_c_interrupts_busy_kernel(s: UiState, t: UiState, key: KeyEvent, facts: EditorFacts, r: KeyOutcome)
    requires
        key.code == crate::input::KeyCode::Char('c') && key.modifiers.control,
        !s.search.open && !s.palette_open,
        s.status == KernelStatus::Busy || s.editor_stdin is Some,
        key_post(s, t, key, facts, r),
    ensures
        action_kind(r.action) == Some(ActionKind::Interrupt),
        command_kind(r.editor) is Keep,
        t == (UiState { exit_confirmation_pending: false, ..s }),
{
    crate::input::law_global_keys(key, s.context_spec(facts));
}

/// In the history search, Esc closes the overlay and keeps the query, the
/// results, the history and everything else; it asks for nothing.
pub proof fn law_search_escape_closes(s: UiState, t: UiState, key: KeyEvent, facts: EditorFacts, r: KeyOutcome)
    requires
        key.code == crate::input::KeyCode::Esc,
        s.search.open,
        key_post(s, t, key, facts, r),
    ensures
        !t.search.open,
        t.search.query == s.search.query && t.search.results == s.search.results,
        t.search.selected == s.search.selected && t.search.scroll == s.search.scroll,
        t.history == s.history && t.history_entries == s.history_entries,
        t.palette_open == s.palette_open && t.status == s.status,
        r.action is None && command_kind(r.editor) is Keep,
{
    crate::input::law_history_search_keys(key);
}

/// In the history search, a character typed without Ctrl or Alt and then
/// Backspace give the query back as it was, with the results ranked for it
/// again and the selection at the top; the rest of the state is kept.
pub proof fn law_search_type_then_backspace(
    s: UiState,
    t: UiState,
    u: UiState,
    typed: KeyEvent,
    backspace: KeyEvent,
    facts: EditorFacts,
    r1: KeyOutcome,
    r2: KeyOutcome,
)
    requires
        s.search.open,
        typed.code is Char && !typed.modifiers.control && !typed.modifiers.alt,
        backspace.code == crate::input::KeyCode::Backspace,
        key_post(s, t, typed, facts, r1),
        key_post(t, u, backspace, facts, r2),
    ensures
        u.search.open,
        u.search.query@ == s.search.query@,
        ranked_results(s.search.query@, s.history_entries@, u.search.results@),
        u.search.selected == 0 && u.search.scroll == 0,
        u == (UiState { search: u.search, exit_confirmation_pending: false, ..s }),
        r1.action is None && command_kind(r1.editor) is Keep,
        r2.action is None && command_kind(r2.editor) is Keep,
{
    crate::input::law_history_search_keys(typed);
    crate::input::law_history_search_keys(backspace);
    crate::input::law_global_keys(typed, s.context_spec(facts));
    crate::input::law_global_keys(backspace, t.context_spec(facts));
    assert(t.search.query@.drop_last() =~= s.search.query@);
}

/// In the palette, Down moves the selection one entry down and stops at the
/// last of the five entries, Up moves it back and stops at the first, so
/// Down then Up returns to where the selection was unless it was already
/// at the bottom; neither asks for anything.
pub proof fn law_palette_navigation(
    s: UiState,
    t: UiState,
    u: UiState,
    down: KeyEvent,
    up: KeyEvent,
    facts: EditorFacts,
    r1: KeyOutcome,
    r2: KeyOutcome,
)
    requires
        s.wf(),
        !s.search.open && s.palette_open,
        down.code == crate::input::KeyCode::Down,
        up.code == crate::input::KeyCode::Up,
        key_post(s, t, down, facts, r1),
        key_post(t, u, up, facts, r2),
    ensures
        t.palette_index == if s.palette_index < 4 { s.palette_index + 1 } else { 4 },
        s.palette_index < 4 ==> u.palette_index == s.palette_index,
        u.palette_open && u.search == s.search && u.history == s.history,
        r1.action is None && r2.action is None,
{
    crate::input::law_palette_keys(down);
    crate::input::law_palette_keys(up);
    crate::input::law_global_keys(down, s.context_spec(facts));
    crate::input::law_global_keys(up, t.context_spec(facts));
}

/// In the history search, Up and Down (and Ctrl-R) move the selection one
/// result at a time within the results, and the list scrolls so that the
/// selected result stays among the rows shown.
pub proof fn law_search_selection_stays_visible(s: UiState, t: UiState, key: KeyEvent, facts: EditorFacts, r: KeyOutcome)
    requires
        s.search.open,
        key.code == crate::input::KeyCode::Up || key.code == crate::input::KeyCode::Down,
        s.search.results.len() > 0,
        s.search.selected < s.search.results.len(),
        key_post(s, t, key, facts, r),
    ensures
        key.code == crate::input::KeyCode::Down ==> t.search.selected == if s.search.selected + 1
            < s.search.results.len() { s.search.selected + 1 } else { s.search.selected as int },
        key.code == crate::input::KeyCode::Up ==> t.search.selected == if s.search.selected > 0 {
            s.search.selected - 1
        } else {
            0int
        },
        t.search.selected < t.search.results.len(),
        t.visible_result_rows() > 0 ==> t.search.scroll <= t.search.selected < t.search.scroll
            + t.visible_result_rows(),
        t.search.open && t.search.query == s.search.query && t.search.results == s.search.results,
        r.action is None && command_kind(r.editor) is Keep,
{
    crate::input::law_history_search_keys(key);
    crate::input::law_global_keys(key, s.context_spec(facts));
    let s1 = UiState { exit_confirmation_pending: false, ..s };
    let sel: usize = if key.code == crate::input::KeyCode::Up {
        if s.search.selected > 0 { (s.search.selected - 1) as usize } else { 0 }
    } else {
        let last: int = s.search.results.len() - 1;
        if s.search.selected + 1 < last { (s.search.selected + 1) as usize } else { last as usize }
    };
    let mid = UiState { search: HistorySearchState { selected: sel, ..s1.search }, ..s1 };
    assert(t == with_search_selection(s1, sel));
    assert(t.visible_result_rows() == mid.visible_result_rows());
    if mid.visible_result_rows() > 0 {
        crate::history_search::law_scroll_keeps_selection_visible(
            s.search.results.len() as nat,
            mid.visible_result_rows(),
            sel as nat,
        );
    }
}

proof fn lemma_join_spaced_ends(parts: Seq<Seq<char>>)
    requires
        parts.len() >= 2,
    ensures
        ({
            let j = crate::history_search::join_spaced(parts);
            &&& j.len() >= parts[0].len() + 1 + parts.last().len()
            &&& j.take(parts[0].len() as int + 1) == parts[0] + " "@
            &&& j.skip(j.len() - parts.last().len() - 1) == " "@ + parts.last()
        }),
    decreases parts.len(),
{
    reveal_strlit(" ");
    let j = crate::history_search::join_spaced(parts);
    let init = parts.drop_last();
    let ji = crate::history_search::join_spaced(init);
    assert(j == ji + " "@ + parts.last());
    if parts.len() == 2 {
        assert(ji == parts[0]);
    } else {
        lemma_join_spaced_ends(init);
        assert(init[0] == parts[0]);
        assert(j.take(parts[0].len() as int + 1) =~= ji.take(parts[0].len() as int + 1));
    }
    assert(j.skip(j.len() - parts.last().len() - 1) =~= " "@ + parts.last());
    if parts.len() == 2 {
        assert(j.take(parts[0].len() as int + 1) =~= parts[0] + " "@);
    }
}

/// The footer starts with the editor mode's badge and ends with the palette
/// hint; while the kernel is busy or gone, what it is doing stands right
/// before the hint: the run-time label and `Kernel busy. Ctrl-C to
/// interrupt`, or `Kernel disconnected`.
pub proof fn law_footer_layout(state: UiState, mode: EditorMode, busy_label: Option<Seq<char>>)
    ensures
        ({
            let f = footer_spec(state, mode, busy_label);
            let badge = crate::ui::mode_badge_spec(mode);
            let hint = " Ctrl-P palette"@;
            let busy = "Kernel busy. Ctrl-C to interrupt"@;
            &&& f.len() >= badge.len() + hint.len()
            &&& f.take(badge.len() as int + 1) == badge + " "@
            &&& f.skip(f.len() - hint.len()) == hint
            &&& state.status == KernelStatus::Busy && busy_label is None ==> f.skip(
                f.len() - hint.len() - busy.len() - 1,
            ) == " "@ + busy + hint
            &&& state.status == KernelStatus::Busy && busy_label is Some ==> f.skip(
                f.len() - hint.len() - busy.len() - busy_label->0.len() - 2,
            ) == " "@ + busy_label->0 + " "@ + busy + hint
            &&& state.status == KernelStatus::Disconnected ==> f.skip(
                f.len() - hint.len() - "Kernel disconnected"@.len() - 1,
            ) == " "@ + "Kernel disconnected"@ + hint
        }),
{
    reveal_strlit(" ");
    reveal_strlit(" Ctrl-P palette");
    reveal_strlit("Ctrl-P palette");
    reveal_strlit("Kernel busy. Ctrl-C to interrupt");
    reveal_strlit(" Kernel busy. Ctrl-C to interrupt");
    reveal_strlit("Kernel disconnected");
    let badge = crate::ui::mode_badge_spec(mode);
    let detail = crate::history_search::part(footer_detail_spec(state));
    let act = crate::history_search::part(footer_activity_spec(state, busy_label));
    let tail: Seq<Seq<char>> = seq!["Ctrl-P palette"@];
    let parts = seq![badge] + detail + act + tail;
    assert(parts[0] == badge);
    assert(parts.last() == "Ctrl-P palette"@);
    lemma_join_spaced_ends(parts);
    let f = footer_spec(state, mode, busy_label);
    assert(" "@ + "Ctrl-P palette"@ =~= " Ctrl-P palette"@);
    if state.status == KernelStatus::Busy || state.status == KernelStatus::Disconnected {
        let a = footer_activity_spec(state, busy_label)->0;
        assert(act == seq![a]);
        let init = parts.drop_last();
        assert(init =~= seq![badge] + detail + seq![a]);
        assert(init.len() >= 2);
        lemma_join_spaced_ends(init);
        let ji = crate::history_search::join_spaced(init);
        assert(f == ji + " "@ + "Ctrl-P palette"@);
        assert(init.last() == a);
        let hint = " Ctrl-P palette"@;
        assert(f.skip(f.len() - hint.len() - a.len() - 1) =~= ji.skip(ji.len() - a.len() - 1) + hint);
        if state.status == KernelStatus::Busy {
            let busy = "Kernel busy. Ctrl-C to interrupt"@;
            if busy_label is Some {
                assert(a == busy_label->0 + " Kernel busy. Ctrl-C to interrupt"@);
                assert(" Kernel busy. Ctrl-C to interrupt"@ =~= " "@ + busy);
                assert(" "@ + a + hint =~= " "@ + busy_label->0 + " "@ + busy + hint);
            }
        }
    }
}

} // verus!
