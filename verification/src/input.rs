//! Key classification: which frontend action a key press stands for, given
//! what the editor and kernel currently allow; and paste normalisation.
use vstd::prelude::*;

use crate::chars::{chars_of, string_from};
use crate::lines::{lemma_no_cr_normalized, lemma_normalized_has_no_cr, normalize_newlines, normalize_newline_chars};

verus! {

/// The keys the frontend distinguishes; every other key is `Other`.
#[derive(Debug, Clone, Copy, PartialEq, Eq, Structural)]
pub enum KeyCode {
    Char(char),
    Tab,
    Enter,
    Esc,
    Backspace,
    Up,
    Down,
    Left,
    Right,
    Other,
}

/// Modifier keys held with a key.
#[derive(Debug, Clone, Copy, PartialEq, Eq, Structural)]
pub struct KeyModifiers {
    pub shift: bool,
    pub control: bool,
    pub alt: bool,
    pub super_key: bool,
    pub hyper: bool,
    pub meta: bool,
}

impl KeyModifiers {
    pub open spec fn spec_is_empty(self) -> bool {
        !self.shift && !self.control && !self.alt && !self.super_key && !self.hyper && !self.meta
    }

    /// No modifier held.
    pub fn is_empty(&self) -> (r: bool)
        ensures
            r == self.spec_is_empty(),
    {
        !self.shift && !self.control && !self.alt && !self.super_key && !self.hyper && !self.meta
    }

    /// No modifiers.
    pub fn none() -> (m: KeyModifiers)
        ensures
            m.spec_is_empty(),
    {
        KeyModifiers { shift: false, control: false, alt: false, super_key: false, hyper: false, meta: false }
    }

    /// Only Control.
    pub fn ctrl() -> (m: KeyModifiers)
        ensures
            m.control && !m.shift && !m.alt && !m.super_key && !m.hyper && !m.meta,
    {
        KeyModifiers { shift: false, control: true, alt: false, super_key: false, hyper: false, meta: false }
    }

    /// Only Shift.
    pub fn shift_only() -> (m: KeyModifiers)
        ensures
            m.shift && !m.control && !m.alt && !m.super_key && !m.hyper && !m.meta,
    {
        KeyModifiers { shift: true, control: false, alt: false, super_key: false, hyper: false, meta: false }
    }
}

/// A key press.
#[derive(Debug, Clone, Copy, PartialEq, Eq, Structural)]
pub struct KeyEvent {
    pub code: KeyCode,
    pub modifiers: KeyModifiers,
}

impl KeyEvent {
    pub fn new(code: KeyCode, modifiers: KeyModifiers) -> (k: KeyEvent)
        ensures
            k.code == code,
            k.modifiers == modifiers,
    {
        KeyEvent { code, modifiers }
    }
}

/// What a key does outside overlays.
#[derive(Debug, Clone, Copy, PartialEq, Eq, Structural)]
pub enum GlobalKey {
    OpenHistorySearch,
    OpenPalette,
    InterruptOrClear,
    ExitOrConfirm,
    ClearScreen,
    HistoryUp,
    HistoryDown,
    InsertIndent,
    AcceptGhostSuggestion,
    InsertLineBreak,
    Submit,
    Editor,
    Ignored,
}

/// What a key does in the history-search overlay.
#[derive(Debug, Clone, Copy, PartialEq, Eq, Structural)]
pub enum HistorySearchKey {
    Close,
    Up,
    Down,
    Load,
    Backspace,
    Cycle,
    Insert(char),
    Ignored,
}

/// What a key does in the command palette.
#[derive(Debug, Clone, Copy, PartialEq, Eq, Structural)]
pub enum PaletteKey {
    Close,
    Up,
    Down,
    Select,
    Ignored,
}

/// What the frontend currently allows.
#[derive(Debug, Clone, Copy, PartialEq, Eq, Structural)]
pub struct GlobalKeyContext {
    pub editor_enabled: bool,
    pub awaiting_input: bool,
    pub editor_empty: bool,
    pub editor_single_line: bool,
    pub editor_has_history: bool,
    pub editor_insert_mode: bool,
    pub submit_ready: bool,
    pub ghost_suggestion_available: bool,
}

pub open spec fn ctrl_char(key: KeyEvent, c: char) -> bool {
    key.code == KeyCode::Char(c) && key.modifiers.control
}

/// The action of a key outside overlays; the first matching rule wins.
pub open spec fn global_key_spec(key: KeyEvent, ctx: GlobalKeyContext) -> GlobalKey {
    if ctrl_char(key, 'r') {
        GlobalKey::OpenHistorySearch
    } else if ctrl_char(key, 'p') {
        GlobalKey::OpenPalette
    } else if ctrl_char(key, 'c') {
        GlobalKey::InterruptOrClear
    } else if ctrl_char(key, 'd') && ctx.editor_enabled && !ctx.awaiting_input && ctx.editor_empty {
        GlobalKey::ExitOrConfirm
    } else if ctrl_char(key, 'l') {
        GlobalKey::ClearScreen
    } else if ctrl_char(key, 'k') && ctx.editor_enabled && ctx.editor_has_history {
        GlobalKey::HistoryUp
    } else if ctrl_char(key, 'j') && ctx.editor_enabled && ctx.editor_has_history {
        GlobalKey::HistoryDown
    } else if key.code == KeyCode::Tab && ctx.editor_enabled && ctx.editor_insert_mode {
        GlobalKey::InsertIndent
    } else if key.code == KeyCode::Right && ctx.editor_enabled && key.modifiers.spec_is_empty()
        && ctx.ghost_suggestion_available {
        GlobalKey::AcceptGhostSuggestion
    } else if ctrl_char(key, 'f') && ctx.editor_enabled && ctx.ghost_suggestion_available {
        GlobalKey::AcceptGhostSuggestion
    } else if key.code == KeyCode::Enter && ctx.editor_enabled && key.modifiers.shift {
        GlobalKey::InsertLineBreak
    } else if key.code == KeyCode::Enter && ctx.submit_ready {
        GlobalKey::Submit
    } else if key.code == KeyCode::Up && ctx.editor_enabled && ctx.editor_single_line
        && ctx.editor_has_history {
        GlobalKey::HistoryUp
    } else if key.code == KeyCode::Down && ctx.editor_enabled && ctx.editor_single_line
        && ctx.editor_has_history {
        GlobalKey::HistoryDown
    } else if ctx.editor_enabled {
        GlobalKey::Editor
    } else {
        GlobalKey::Ignored
    }
}

fn is_ctrl_char(key: &KeyEvent, c: char) -> (r: bool)
    ensures
        r == ctrl_char(*key, c),
{
    match key.code {
        KeyCode::Char(k) => k == c && key.modifiers.control,
        _ => false,
    }
}

/// Classifies a key press outside overlays. With the editor disabled only
/// the search, palette, interrupt, clear-screen and submit keys act.
pub fn classify_global_key(key: KeyEvent, ctx: GlobalKeyContext) -> (r: GlobalKey)
    ensures
        r == global_key_spec(key, ctx),
        !ctx.editor_enabled ==> (r == GlobalKey::OpenHistorySearch || r == GlobalKey::OpenPalette
            || r == GlobalKey::InterruptOrClear || r == GlobalKey::ClearScreen || r
            == GlobalKey::Submit || r == GlobalKey::Ignored),
        r == GlobalKey::Submit ==> ctx.submit_ready,
        r == GlobalKey::ExitOrConfirm ==> ctx.editor_empty && !ctx.awaiting_input,
{
    if is_ctrl_char(&key, 'r') {
        GlobalKey::OpenHistorySearch
    } else if is_ctrl_char(&key, 'p') {
        GlobalKey::OpenPalette
    } else if is_ctrl_char(&key, 'c') {
        GlobalKey::InterruptOrClear
    } else if is_ctrl_char(&key, 'd') && ctx.editor_enabled && !ctx.awaiting_input
        && ctx.editor_empty {
        GlobalKey::ExitOrConfirm
    } else if is_ctrl_char(&key, 'l') {
        GlobalKey::ClearScreen
    } else if is_ctrl_char(&key, 'k') && ctx.editor_enabled && ctx.editor_has_history {
        GlobalKey::HistoryUp
    } else if is_ctrl_char(&key, 'j') && ctx.editor_enabled && ctx.editor_has_history {
        GlobalKey::HistoryDown
    } else if key.code == KeyCode::Tab && ctx.editor_enabled && ctx.editor_insert_mode {
        GlobalKey::InsertIndent
    } else if key.code == KeyCode::Right && ctx.editor_enabled && key.modifiers.is_empty()
        && ctx.ghost_suggestion_available {
        GlobalKey::AcceptGhostSuggestion
    } else if is_ctrl_char(&key, 'f') && ctx.editor_enabled && ctx.ghost_suggestion_available {
        GlobalKey::AcceptGhostSuggestion
    } else if key.code == KeyCode::Enter && ctx.editor_enabled && key.modifiers.shift {
        GlobalKey::InsertLineBreak
    } else if key.code == KeyCode::Enter && ctx.submit_ready {
        GlobalKey::Submit
    } else if key.code == KeyCode::Up && ctx.editor_enabled && ctx.editor_single_line
        && ctx.editor_has_history {
        GlobalKey::HistoryUp
    } else if key.code == KeyCode::Down && ctx.editor_enabled && ctx.editor_single_line
        && ctx.editor_has_history {
        GlobalKey::HistoryDown
    } else if ctx.editor_enabled {
        GlobalKey::Editor
    } else {
        GlobalKey::Ignored
    }
}

/// Whether the key asks to exit (Ctrl-D on an empty editor).
pub fn is_exit_confirmation_key(key: KeyEvent, ctx: GlobalKeyContext) -> (r: bool)
    ensures
        r == (global_key_spec(key, ctx) == GlobalKey::ExitOrConfirm),
{
    classify_global_key(key, ctx) == GlobalKey::ExitOrConfirm
}

pub open spec fn history_search_key_spec(key: KeyEvent) -> HistorySearchKey {
    match key.code {
        KeyCode::Esc => HistorySearchKey::Close,
        KeyCode::Char(c) => {
            if c == 'c' && key.modifiers.control {
                HistorySearchKey::Close
            } else if c == 'r' && key.modifiers.control {
                HistorySearchKey::Cycle
            } else if !key.modifiers.control && !key.modifiers.alt {
                HistorySearchKey::Insert(c)
            } else {
                HistorySearchKey::Ignored
            }
        },
        KeyCode::Up => HistorySearchKey::Up,
        KeyCode::Down => HistorySearchKey::Down,
        KeyCode::Enter => HistorySearchKey::Load,
        KeyCode::Backspace => HistorySearchKey::Backspace,
        _ => HistorySearchKey::Ignored,
    }
}

/// Classifies a key press in the history-search overlay.
pub fn classify_history_search_key(key: KeyEvent) -> (r: HistorySearchKey)
    ensures
        r == history_search_key_spec(key),
{
    match key.code {
        KeyCode::Esc => HistorySearchKey::Close,
        KeyCode::Char(c) => {
            if c == 'c' && key.modifiers.control {
                HistorySearchKey::Close
            } else if c == 'r' && key.modifiers.control {
                HistorySearchKey::Cycle
            } else if !key.modifiers.control && !key.modifiers.alt {
                HistorySearchKey::Insert(c)
            } else {
                HistorySearchKey::Ignored
            }
        },
        KeyCode::Up => HistorySearchKey::Up,
        KeyCode::Down => HistorySearchKey::Down,
        KeyCode::Enter => HistorySearchKey::Load,
        KeyCode::Backspace => HistorySearchKey::Backspace,
        _ => HistorySearchKey::Ignored,
    }
}

pub open spec fn palette_key_spec(key: KeyEvent) -> PaletteKey {
    match key.code {
        KeyCode::Esc => PaletteKey::Close,
        KeyCode::Up => PaletteKey::Up,
        KeyCode::Down => PaletteKey::Down,
        KeyCode::Enter => PaletteKey::Select,
        _ => PaletteKey::Ignored,
    }
}

/// Classifies a key press in the command palette.
pub fn classify_palette_key(key: KeyEvent) -> (r: PaletteKey)
    ensures
        r == palette_key_spec(key),
{
    match key.code {
        KeyCode::Esc => PaletteKey::Close,
        KeyCode::Up => PaletteKey::Up,
        KeyCode::Down => PaletteKey::Down,
        KeyCode::Enter => PaletteKey::Select,
        _ => PaletteKey::Ignored,
    }
}

/// Pasted text with `"\r\n"` and `'\r'` turned into `'\n'`.
pub fn normalize_paste_text(text: &str) -> (r: String)
    ensures
        r@ == normalize_newlines(text@),
{
    let t = chars_of(text);
    string_from(normalize_newline_chars(t.as_slice()).as_slice())
}

/// Pasted text for the one-line search query: newlines become spaces.
pub open spec fn flatten_newlines(s: Seq<char>) -> Seq<char> {
    s.map_values(|c: char| if c == '\n' { ' ' } else { c })
}

pub fn history_search_paste_text(text: &str) -> (r: String)
    ensures
        r@ == flatten_newlines(text@),
{
    let t = chars_of(text);
    let mut out: Vec<char> = Vec::new();
    let mut i: usize = 0;
    while i < t.len()
        invariant
            i <= t.len(),
            out@ == flatten_newlines(t@.take(i as int)),
        decreases t.len() - i,
    {
        out.push(if t[i] == '\n' { ' ' } else { t[i] });
        i += 1;
        assert(out@ =~= flatten_newlines(t@.take(i as int)));
    }
    assert(t@.take(t.len() as int) =~= t@);
    string_from(out.as_slice())
}

/// Pasted text comes out without carriage returns; normalising it again
/// changes nothing; and text without carriage returns comes out as it was.
pub proof fn law_paste_normalization(text: Seq<char>)
    ensures
        forall|k: int| 0 <= k < normalize_newlines(text).len() ==> normalize_newlines(text)[k] != '\r',
        normalize_newlines(normalize_newlines(text)) == normalize_newlines(text),
        (forall|k: int| 0 <= k < text.len() ==> text[k] != '\r') ==> normalize_newlines(text) == text,
{
    lemma_normalized_has_no_cr(text);
    lemma_no_cr_normalized(normalize_newlines(text));
    if forall|k: int| 0 <= k < text.len() ==> text[k] != '\r' {
        lemma_no_cr_normalized(text);
    }
}

/// In the history-search overlay, whatever modifiers are held: Backspace
/// deletes a query character, Esc closes, Up and Down move the selection and
/// Enter loads the selected entry; Ctrl-C closes and Ctrl-R cycles; a character
/// typed without Ctrl or Alt goes into the query; every other key is ignored.
pub proof fn law_history_search_keys(key: KeyEvent)
    ensures
        key.code == KeyCode::Backspace ==> history_search_key_spec(key) == HistorySearchKey::Backspace,
        key.code == KeyCode::Esc ==> history_search_key_spec(key) == HistorySearchKey::Close,
        key.code == KeyCode::Up ==> history_search_key_spec(key) == HistorySearchKey::Up,
        key.code == KeyCode::Down ==> history_search_key_spec(key) == HistorySearchKey::Down,
        key.code == KeyCode::Enter ==> history_search_key_spec(key) == HistorySearchKey::Load,
        key.code == KeyCode::Char('c') && key.modifiers.control
            ==> history_search_key_spec(key) == HistorySearchKey::Close,
        key.code == KeyCode::Char('r') && key.modifiers.control
            ==> history_search_key_spec(key) == HistorySearchKey::Cycle,
        key.code is Char && !key.modifiers.control && !key.modifiers.alt
            ==> history_search_key_spec(key) == HistorySearchKey::Insert(key.code->Char_0),
        key.code == KeyCode::Tab || key.code == KeyCode::Left || key.code == KeyCode::Right
            || key.code == KeyCode::Other ==> history_search_key_spec(key) == HistorySearchKey::Ignored,
{
}

/// In the command palette, whatever modifiers are held: Esc closes, Up and
/// Down move the selection, Enter runs the selected command, and every other
/// key is ignored.
pub proof fn law_palette_keys(key: KeyEvent)
    ensures
        key.code == KeyCode::Esc ==> palette_key_spec(key) == PaletteKey::Close,
        key.code == KeyCode::Up ==> palette_key_spec(key) == PaletteKey::Up,
        key.code == KeyCode::Down ==> palette_key_spec(key) == PaletteKey::Down,
        key.code == KeyCode::Enter ==> palette_key_spec(key) == PaletteKey::Select,
        key.code != KeyCode::Esc && key.code != KeyCode::Up && key.code != KeyCode::Down
            && key.code != KeyCode::Enter ==> palette_key_spec(key) == PaletteKey::Ignored,
{
}

/// Outside the overlays, in every context: Ctrl-R opens the history search,
/// Ctrl-P the palette, Ctrl-C interrupts or clears and Ctrl-L clears the
/// screen; Ctrl-D asks to exit exactly when the editor is enabled, empty and
/// not answering an input request; a plain Enter submits when the input is
/// ready to submit; and with the editor disabled no other key does anything.
pub proof fn law_global_keys(key: KeyEvent, ctx: GlobalKeyContext)
    ensures
        key.code == KeyCode::Char('r') && key.modifiers.control
            ==> global_key_spec(key, ctx) == GlobalKey::OpenHistorySearch,
        key.code == KeyCode::Char('p') && key.modifiers.control
            ==> global_key_spec(key, ctx) == GlobalKey::OpenPalette,
        key.code == KeyCode::Char('c') && key.modifiers.control
            ==> global_key_spec(key, ctx) == GlobalKey::InterruptOrClear,
        key.code == KeyCode::Char('l') && key.modifiers.control
            ==> global_key_spec(key, ctx) == GlobalKey::ClearScreen,
        key.code == KeyCode::Char('d') && key.modifiers.control ==> (global_key_spec(key, ctx)
            == GlobalKey::ExitOrConfirm <==> (ctx.editor_enabled && !ctx.awaiting_input
            && ctx.editor_empty)),
        key.code == KeyCode::Enter && !key.modifiers.shift && ctx.submit_ready
            ==> global_key_spec(key, ctx) == GlobalKey::Submit,
        key.code == KeyCode::Enter && key.modifiers.shift && ctx.editor_enabled
            ==> global_key_spec(key, ctx) == GlobalKey::InsertLineBreak,
        !ctx.editor_enabled && !key.modifiers.control && !(key.code == KeyCode::Enter
            && ctx.submit_ready) ==> global_key_spec(key, ctx) == GlobalKey::Ignored,
{
}

} // verus!
