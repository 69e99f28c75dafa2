use fpy::input::{
    classify_global_key, classify_history_search_key, classify_palette_key, is_exit_confirmation_key, GlobalKey,
    GlobalKeyContext, HistorySearchKey, KeyCode, KeyEvent, KeyModifiers, PaletteKey,
};

fn key(code: KeyCode, modifiers: KeyModifiers) -> KeyEvent {
    KeyEvent::new(code, modifiers)
}

fn context() -> GlobalKeyContext {
    GlobalKeyContext {
        editor_enabled: true,
        awaiting_input: false,
        editor_empty: true,
        editor_single_line: true,
        editor_has_history: true,
        editor_insert_mode: true,
        submit_ready: true,
        ghost_suggestion_available: true,
    }
}

#[test]
fn classifies_global_control_keys() {
    assert_eq!(classify_global_key(key(KeyCode::Char('p'), KeyModifiers::ctrl()), context()), GlobalKey::OpenPalette);
    assert_eq!(classify_global_key(key(KeyCode::Char('l'), KeyModifiers::ctrl()), context()), GlobalKey::ClearScreen);
    assert!(is_exit_confirmation_key(key(KeyCode::Char('d'), KeyModifiers::ctrl()), context()));
}

#[test]
fn classifies_global_editor_keys_from_context() {
    assert_eq!(classify_global_key(key(KeyCode::Tab, KeyModifiers::none()), context()), GlobalKey::InsertIndent);
    assert_eq!(classify_global_key(key(KeyCode::Right, KeyModifiers::none()), context()), GlobalKey::AcceptGhostSuggestion);
    assert_eq!(classify_global_key(key(KeyCode::Enter, KeyModifiers::none()), context()), GlobalKey::Submit);
}

#[test]
fn classifies_history_search_keys() {
    assert_eq!(classify_history_search_key(key(KeyCode::Char('x'), KeyModifiers::none())), HistorySearchKey::Insert('x'));
    assert_eq!(classify_history_search_key(key(KeyCode::Char('r'), KeyModifiers::ctrl())), HistorySearchKey::Cycle);
    assert_eq!(classify_history_search_key(key(KeyCode::Char('c'), KeyModifiers::ctrl())), HistorySearchKey::Close);
}

#[test]
fn classifies_palette_keys() {
    assert_eq!(classify_palette_key(key(KeyCode::Enter, KeyModifiers::none())), PaletteKey::Select);
}

#[test]
fn ctrl_d_is_not_exit_while_answering_input() {
    let mut ctx = context();
    ctx.awaiting_input = true;
    assert!(!is_exit_confirmation_key(key(KeyCode::Char('d'), KeyModifiers::ctrl()), ctx));
    assert_ne!(classify_global_key(key(KeyCode::Char('d'), KeyModifiers::ctrl()), ctx), GlobalKey::ExitOrConfirm);
}
