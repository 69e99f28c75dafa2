use fpy::display::highlighted_execute_input;
use fpy::ui::{
    editor_gutter_lines, editor_mode_badge, line_number_gutter_lines, prompt_gutter_lines, prompt_prefixes,
    rendered_line_count, status_label, strip_ansi, EditorMode,
};

#[test]
fn ui_strips_basic_ansi_sequences() {
    assert_eq!(strip_ansi("\u{1b}[31mred\u{1b}[0m"), "red");
}

#[test]
fn ui_counts_wrapped_rendered_lines() {
    assert_eq!(rendered_line_count("abcdef", 3), 2);
    assert_eq!(rendered_line_count("a\nbc", 10), 2);
    assert_eq!(rendered_line_count("a\n", 10), 1);
}

#[test]
fn builds_ipython_prompt_prefixes() {
    let (first, continuation) = prompt_prefixes(&Some(("stdin> ".to_string(), false))).unwrap();
    assert_eq!(first, "stdin> ");
    assert_eq!(continuation, "       ");
}

#[test]
fn builds_line_number_gutter_lines() {
    let lines = line_number_gutter_lines(3, 3);
    assert_eq!(lines.len(), 3);
}

#[test]
fn uses_line_numbers_for_normal_editor_gutter() {
    let lines = editor_gutter_lines(&None, 2, 2);
    assert_eq!(lines.len(), 2);
}

#[test]
fn uses_stdin_label_in_status_bar() {
    assert_eq!(status_label(&Some(("input".to_string(), false)), "In [3]"), Some("stdin"));
}

#[test]
fn ui_uses_prompt_label_in_status_bar() {
    assert_eq!(status_label(&None, "In [3]"), Some("In [3]"));
}

#[test]
fn builds_stdin_prompt_prefixes() {
    let (first, continuation) = prompt_prefixes(&Some(("In [3]: ".to_string(), false))).unwrap();
    assert_eq!(first, "In [3]: ");
    assert_eq!(continuation, "        ");
}

#[test]
fn builds_prompt_gutter_lines() {
    let lines = prompt_gutter_lines("In [1]: ", "   ...: ", 2);
    assert_eq!(lines.len(), 2);
}

#[test]
fn maps_editor_modes_to_badges() {
    assert_eq!(editor_mode_badge(EditorMode::Insert), "INS");
    assert_eq!(editor_mode_badge(EditorMode::Normal), "NAV");
}

#[test]
fn ui_highlights_execute_input_with_prompt_and_ansi() {
    let rendered = highlighted_execute_input(Some(2), "x = 1");
    assert!(rendered.contains("In [2]: "));
    assert!(rendered.contains("\u{1b}["));
}

#[test]
fn ui_highlights_multiline_execute_input_with_ipython_continuation_prompt() {
    let rendered = strip_ansi(&highlighted_execute_input(Some(2), "x = 1\ny = 2"));
    assert!(rendered.contains("In [2]: x = 1\n   ...: y = 2"));
}

#[test]
fn stdin_password_prompt_prefix_names_hidden_input() {
    let (first, continuation) = prompt_prefixes(&Some(("pw: ".to_string(), true))).unwrap();
    assert_eq!(first, "stdin (hidden) pw: ");
    assert_eq!(continuation.len(), first.len());
    assert_eq!(prompt_prefixes(&None), None);
}

#[test]
fn rendered_line_count_ignores_csi_sequences_and_never_returns_zero() {
    assert_eq!(rendered_line_count("\u{1b}[31mabc\u{1b}[0m", 3), 1);
    assert_eq!(rendered_line_count("", 10), 1);
    assert_eq!(rendered_line_count("abcd", 0), 4);
}
