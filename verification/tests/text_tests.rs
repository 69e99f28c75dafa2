use fpy::duration::{format_duration_ns, format_runtime};
use fpy::insert_history::{rendered_line_count as rows_of_lines, transcript_lines, visible_width};
use fpy::input::{history_search_paste_text, normalize_paste_text};
use fpy::prompt::{continuation_prompt, input_prompt, input_prompt_label, output_prompt};
use fpy::transcript::{display_width, rendered_line_count, runtime_line, strip_ansi, wrap_ansi_to_width};

#[test]
fn duration_format_formats_sub_millisecond_runtime_in_microseconds() {
    assert_eq!(format_duration_ns(999), "1.00µs");
    assert_eq!(format_duration_ns(12_300), "12.3µs");
    assert_eq!(format_duration_ns(123_000), "123µs");
}

#[test]
fn duration_format_formats_sub_second_runtime_in_milliseconds() {
    assert_eq!(format_duration_ns(1_230_000), "1.23ms");
    assert_eq!(format_duration_ns(12_300_000), "12.3ms");
    assert_eq!(format_duration_ns(123_000_000), "123ms");
}

#[test]
fn formats_seconds_and_minutes() {
    assert_eq!(format_duration_ns(1_230_000_000), "1.23s");
    assert_eq!(format_duration_ns(12_300_000_000), "12.3s");
    assert_eq!(format_duration_ns(61_000_000_000), "1m01s");
}

#[test]
fn transcript_formats_sub_millisecond_runtime_in_microseconds() {
    assert_eq!(format_runtime(456_000), "456µs");
    assert_eq!(format_runtime(12_340), "12.3µs");
    assert_eq!(format_runtime(1_230), "1.23µs");
}

#[test]
fn transcript_formats_sub_second_runtime_in_milliseconds() {
    assert_eq!(format_runtime(456_000_000), "456ms");
    assert_eq!(format_runtime(12_340_000), "12.3ms");
    assert_eq!(format_runtime(1_230_000), "1.23ms");
}

#[test]
fn formats_seconds_minutes_hours_and_days_like_zsh_prompt() {
    assert_eq!(format_runtime(1_500_000_000), "1.50s");
    assert_eq!(format_runtime(12_000_000_000), "12.0s");
    assert_eq!(format_runtime(125_000_000_000), "2m05s");
    assert_eq!(format_runtime(3_720_000_000_000), "1h02m");
    assert_eq!(format_runtime(176_400_000_000_000), "2d01h");
}

#[test]
fn duration_rounds_carry_into_next_digit() {
    assert_eq!(format_duration_ns(9_995), "10.00µs");
    assert_eq!(format_duration_ns(999_999), "1000µs");
    assert_eq!(format_duration_ns(0), "0.00µs");
    assert_eq!(format_duration_ns(59_999_999_999), "60.0s");
    assert_eq!(format_duration_ns(3_600_000_000_000), "60m00s");
}

#[test]
fn renders_runtime_line_with_ansi() {
    let rendered = runtime_line(42_000_000);
    assert!(rendered.contains("[42.0ms]"));
    assert!(rendered.contains("\u{1b}["));
    assert_eq!(rendered, "\u{1b}[38;5;244m[42.0ms]\u{1b}[0m");
}

#[test]
fn transcript_strips_basic_ansi_sequences() {
    assert_eq!(strip_ansi("\u{1b}[31mred\u{1b}[0m"), "red");
}

#[test]
fn strips_osc_hyperlink_sequences() {
    assert_eq!(
        strip_ansi("\u{1b}]8;;https://example.com\u{7}link\u{1b}]8;;\u{7}"),
        "link"
    );
}

#[test]
fn strips_osc_sequences_terminated_by_string_terminator() {
    assert_eq!(strip_ansi("a\u{1b}]0;title\u{1b}\\b"), "ab");
    assert_eq!(strip_ansi("x\u{1b}y"), "x\u{1b}y");
}

#[test]
fn display_width_counts_wide_characters_as_terminal_columns() {
    assert_eq!(display_width("λ語"), 3);
}

#[test]
fn wraps_ansi_text_by_terminal_display_width() {
    let rows = wrap_ansi_to_width("\u{1b}[31mab語c\u{1b}[0m", 3);
    assert_eq!(
        rows.iter().map(|row| strip_ansi(row)).collect::<Vec<_>>(),
        vec!["ab", "語c"]
    );
}

#[test]
fn wrapped_ansi_rows_replay_and_reset_active_sgr_styles() {
    let rows = wrap_ansi_to_width("\u{1b}[31mabcdef\u{1b}[0m", 3);
    assert_eq!(
        rows.iter().map(|row| strip_ansi(row)).collect::<Vec<_>>(),
        vec!["abc", "def"]
    );
    assert!(rows[0].starts_with("\u{1b}[31m"));
    assert!(rows[0].ends_with("\u{1b}[0m"));
    assert!(rows[1].starts_with("\u{1b}[31m"));
    assert!(rows[1].ends_with("\u{1b}[0m"));
}

#[test]
fn wrapping_empty_text_gives_one_empty_row() {
    assert_eq!(wrap_ansi_to_width("", 5), vec![String::new()]);
    assert_eq!(wrap_ansi_to_width("a\r\nb", 0), vec!["a".to_string(), "b".to_string()]);
}

#[test]
fn transcript_counts_wrapped_rendered_lines() {
    assert_eq!(rendered_line_count("abcdef", 3), 2);
    assert_eq!(rendered_line_count("a\nbc", 10), 2);
    assert_eq!(rendered_line_count("a\n", 10), 1);
    assert_eq!(rendered_line_count("語語", 3), 2);
}

#[test]
fn insert_history_preserves_real_blank_lines_but_not_trailing_line_terminator() {
    assert_eq!(transcript_lines("a\n\nb\n"), vec!["a", "", "b"]);
}

#[test]
fn text_preserves_real_blank_lines_but_not_trailing_line_terminator() {
    assert_eq!(transcript_lines("a\n\nb\n"), vec!["a", "", "b"]);
}

#[test]
fn normalizes_crlf_and_preserves_empty_input_as_one_line() {
    assert_eq!(transcript_lines("a\r\nb\r"), vec!["a", "b"]);
    assert_eq!(transcript_lines(""), vec![""]);
}

#[test]
fn counts_wrapped_rows_using_visible_width_without_ansi() {
    let lines = vec!["\u{1b}[31mabcd\u{1b}[0m".to_string(), "".to_string()];
    assert_eq!(visible_width(&lines[0]), 4);
    assert_eq!(rows_of_lines(&lines, 3), 3);
}

#[test]
fn splits_transcript_lines_without_extra_trailing_blank_line() {
    assert_eq!(transcript_lines("a\nb"), vec!["a", "b"]);
    assert_eq!(transcript_lines("a\r\nb\r\n"), vec!["a", "b"]);
}

#[test]
fn paste_normalization_converts_crlf_and_cr_to_lf() {
    assert_eq!(normalize_paste_text("a\r\nb\rc"), "a\nb\nc");
}

#[test]
fn history_search_paste_flattens_lines_to_spaces() {
    let normalized = normalize_paste_text("a\r\nb\rc");
    assert_eq!(history_search_paste_text(&normalized), "a b c");
}

#[test]
fn builds_input_prompt_label_from_last_execution_count() {
    assert_eq!(input_prompt_label(None), "In [1]");
    assert_eq!(input_prompt_label(Some(2)), "In [3]");
    assert_eq!(input_prompt_label(Some(u32::MAX)), format!("In [{}]", u32::MAX));
}

#[test]
fn builds_input_and_continuation_prompts() {
    let prompt = input_prompt(Some(12));
    assert_eq!(prompt, "In [12]: ");
    assert_eq!(continuation_prompt(&prompt), "    ...: ");
}

#[test]
fn builds_output_prompts() {
    assert_eq!(output_prompt(Some(3)), "Out[3]");
    assert_eq!(output_prompt(None), "Out[?]");
}
