use fpy::input::{KeyCode, KeyEvent, KeyModifiers};
use fpy::kernel::KernelStatus;
use fpy::session::{EditorCommand, EditorFacts, UiState};
use fpy::ui::{EditorMode, UiAction};

fn facts(text: &str) -> EditorFacts {
    EditorFacts {
        text: text.to_string(),
        cursor_at_end: true,
        single_line: !text.contains('\n'),
        mode: EditorMode::Insert,
    }
}

fn ctrl(c: char) -> KeyEvent {
    KeyEvent::new(KeyCode::Char(c), KeyModifiers::ctrl())
}

fn ready_state() -> UiState {
    let mut state = UiState::new(true);
    state.mark_session_ready();
    state
}

#[test]
fn ctrl_d_on_empty_input_asks_for_confirmation_then_exits() {
    let mut state = ready_state();
    let first = state.handle_key(ctrl('d'), &facts(""));
    assert!(first.action.is_none());
    assert!(state.exit_confirmation_pending);
    let second = state.handle_key(ctrl('d'), &facts(""));
    assert!(matches!(second.action, Some(UiAction::Exit)));
}

#[test]
fn another_key_cancels_a_pending_exit_confirmation() {
    let mut state = ready_state();
    state.handle_key(ctrl('d'), &facts(""));
    assert!(state.exit_confirmation_pending);
    let other = state.handle_key(KeyEvent::new(KeyCode::Char('x'), KeyModifiers::none()), &facts(""));
    assert!(matches!(other.editor, EditorCommand::Edit));
    assert!(!state.exit_confirmation_pending);
    let again = state.handle_key(ctrl('d'), &facts(""));
    assert!(again.action.is_none());
}

#[test]
fn ctrl_c_clears_input_when_idle_and_interrupts_when_busy() {
    let mut state = ready_state();
    let clear = state.handle_key(ctrl('c'), &facts("print(1)"));
    assert!(clear.action.is_none());
    assert!(matches!(clear.editor, EditorCommand::Reset));
    state.set_status(KernelStatus::Busy);
    let interrupt = state.handle_key(ctrl('c'), &facts(""));
    assert!(matches!(interrupt.action, Some(UiAction::Interrupt)));
    // A busy kernel is interrupted even while the editor holds text, which stays.
    let busy_with_text = state.handle_key(ctrl('c'), &facts("draft"));
    assert!(matches!(busy_with_text.action, Some(UiAction::Interrupt)));
    assert!(matches!(busy_with_text.editor, EditorCommand::Keep));
}

#[test]
fn enter_takes_the_text_and_submission_is_remembered() {
    let mut state = ready_state();
    let key = KeyEvent::new(KeyCode::Enter, KeyModifiers::none());
    let outcome = state.handle_key(key, &facts("1 + 1"));
    assert!(matches!(outcome.editor, EditorCommand::TakeText));
    let action = state.submit_text("1 + 1".to_string());
    assert!(matches!(action, Some(UiAction::Submit(ref t)) if t == "1 + 1"));
    assert_eq!(state.history.entries, vec!["1 + 1".to_string()]);
    assert!(state.submit_text("   ".to_string()).is_none());
    assert_eq!(state.history.entries.len(), 1);
}

#[test]
fn up_recalls_the_previous_cell_on_a_single_line() {
    let mut state = ready_state();
    state.submit_text("a = 1".to_string());
    let up = KeyEvent::new(KeyCode::Up, KeyModifiers::none());
    let outcome = state.handle_key(up, &facts(""));
    assert!(matches!(outcome.editor, EditorCommand::SetText(ref t) if t == "a = 1"));
    let down = KeyEvent::new(KeyCode::Down, KeyModifiers::none());
    let back = state.handle_key(down, &facts("a = 1"));
    assert!(matches!(back.editor, EditorCommand::Reset));
}

#[test]
fn palette_opens_moves_and_selects_interrupt() {
    let mut state = ready_state();
    state.handle_key(ctrl('p'), &facts(""));
    assert!(state.palette_open);
    state.handle_key(KeyEvent::new(KeyCode::Down, KeyModifiers::none()), &facts(""));
    let chosen = state.handle_key(KeyEvent::new(KeyCode::Enter, KeyModifiers::none()), &facts(""));
    assert!(matches!(chosen.action, Some(UiAction::Interrupt)));
    assert!(!state.palette_open);
}
