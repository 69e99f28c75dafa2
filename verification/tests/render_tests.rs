use fpy::display::{render_transcript, MimeBundle, StdinEntry, InputEntry, TranscriptEntry, TranscriptModel};
use fpy::frame::{CursorState, FrameUpdateKind, Position, RecordingBackend, RowKind, Size, TerminalFrame, TerminalRow};
use fpy::kernel::StreamName;
use fpy::render::{
    editor_plan_request, editor_rows, footer_rows, overlay_rows, DisplayModel, DisplayRenderer,
    EditorModel, EditorPlan, FooterModel, HistorySearchOverlayModel, HistorySearchResultModel, OverlayModel,
    PaletteOverlayModel, PlanRow, RenderedLine,
};
use fpy::screen::{DrawError, PiStyleMainScreenBackend};
use fpy::style::{Color, Style, StyledSegment};
use fpy::transcript::{display_width, strip_ansi};
use fpy::ui::{CursorStyle, EditorMode};

const SYNC_OUTPUT_ENABLE: &str = "\x1b[?2026h";
const CSI_CLEAR_LINE: &str = "\x1b[2K";
const CSI_CLEAR_SCREEN: &str = "\x1b[2J";
const CSI_CLEAR_SCROLLBACK: &str = "\x1b[3J";
const CSI_HOME: &str = "\x1b[H";
const CSI_SHOW_CURSOR: &str = "\x1b[?25h";

fn stripped(rows: &[String]) -> Vec<String> {
    rows.iter().map(|row| strip_ansi(row)).collect()
}

fn plain(text: &str) -> RenderedLine {
    RenderedLine { text: text.to_string(), cursor_marker: None }
}

fn span(text: &str) -> StyledSegment {
    StyledSegment::raw(text.to_string(), Style::plain())
}

/// The layout the editor widget gives a text that fits on one row per
/// line: each line numbered (when asked for) with the cursor after the last
/// character, insert mode.
fn simple_plan(editor: &EditorModel, width: u16) -> EditorPlan {
    let numbers = editor_plan_request(editor, width).map(|(_, numbers)| numbers).unwrap_or(false);
    let lines: Vec<&str> = if editor.text.is_empty() { vec![""] } else { editor.text.split('\n').collect() };
    let number_width = if numbers { lines.len().to_string().len() as u16 + 1 } else { 0 };
    let rows = lines
        .iter()
        .enumerate()
        .map(|(index, line)| PlanRow {
            gutter: if numbers { Some((index + 1).to_string()) } else { None },
            spans: vec![span(line)],
        })
        .collect::<Vec<_>>();
    let last = lines.len() - 1;
    EditorPlan {
        rows,
        cursor: Some(Position { x: number_width + lines[last].chars().count() as u16, y: last as u16 }),
        mode: EditorMode::Insert,
    }
}

fn render(model: &DisplayModel, size: Size) -> TerminalFrame {
    let plan = simple_plan(&model.editor, size.width.max(1));
    DisplayRenderer {}.render(model, size, &plan)
}

fn render_into(backend: &mut RecordingBackend, model: &DisplayModel, size: Size) {
    backend.draw_frame(render(model, size));
}

fn editor(text: &str, prompt: &str) -> EditorModel {
    EditorModel { text: text.to_string(), prompt: prompt.to_string() }
}

#[test]
fn transcript_component_renders_structured_entries() {
    let mut transcript = TranscriptModel::new();
    transcript.push_input(Some(1), "x = 1".to_string());
    transcript.push_execute_result(Some(1), MimeBundle::plain("1".to_string()));

    let rows = render_transcript(&transcript, 80);

    assert_eq!(stripped(&rows), vec!["In [1]: x = 1", "Out[1]: 1"]);
    assert!(rows[1].starts_with("\u{1b}[31mOut[1]\u{1b}[0m: "), "Out prompt was not styled: {:?}", rows[1]);
}

#[test]
fn transcript_component_coalesces_stream_rows_from_model() {
    let mut transcript = TranscriptModel::new();
    transcript.push_stream(StreamName::Stdout, "a".to_string());
    transcript.push_stream(StreamName::Stdout, "b".to_string());

    assert_eq!(render_transcript(&transcript, 80), vec!["ab".to_string()]);
}

#[test]
fn transcript_component_preserves_raw_stream_ansi() {
    let mut transcript = TranscriptModel::new();
    transcript.push_stream(StreamName::Stdout, "\u{1b}[31mred\u{1b}[0m".to_string());

    let rows = render_transcript(&transcript, 80);

    assert_eq!(strip_ansi(&rows[0]), "red");
    assert!(rows[0].contains("\u{1b}[31mred\u{1b}[0m"));
}

#[test]
fn transcript_component_hides_password_stdin_values() {
    let mut transcript = TranscriptModel::new();
    let index = transcript.push_stdin("Password: ".to_string(), true);
    transcript.fill_stdin_value(index, "secret".to_string());

    let text = stripped(&render_transcript(&transcript, 80)).join("\n");

    assert!(text.contains("Password: "), "missing password prompt:\n{text}");
    assert!(!text.contains("secret"), "password leaked into transcript:\n{text}");
}

#[test]
fn editor_component_marks_cursor_on_last_rendered_row() {
    let editor = editor("abcdef", "In [1]: ");
    assert_eq!(editor_plan_request(&editor, 5), None);
    let unused = EditorPlan { rows: Vec::new(), cursor: None, mode: EditorMode::Insert };

    let rows = editor_rows(&editor, 5, &unused);

    assert_eq!(rows.iter().map(|row| strip_ansi(&row.text)).collect::<Vec<_>>(), vec!["In [1", "]: ab", "cdef"]);
    assert_eq!(rows.last().and_then(|row| row.cursor_marker).map(|marker| marker.position), Some(Position { x: 4, y: 2 }));
}

#[test]
fn editor_component_styles_live_ipython_prompt() {
    let editor = editor("x = 1", "In [3]: ");

    let rows = editor_rows(&editor, 80, &simple_plan(&editor, 80));

    assert_eq!(strip_ansi(&rows[0].text), "      1 x = 1");
    assert!(rows[0].text.starts_with("\u{1b}[90m      1 \u{1b}[0m"));
}

#[test]
fn editor_component_cursor_position_ignores_prompt_and_syntax_ansi() {
    let editor = editor("time.sleep(1)", "In [1]: ");
    let mut plan = simple_plan(&editor, 80);
    plan.rows[0].spans = vec![
        StyledSegment::raw("time".to_string(), Style::plain().fg(Color::Rgb(1, 2, 3))),
        span(".sleep(1)"),
    ];

    let rows = editor_rows(&editor, 80, &plan);

    assert!(rows[0].text.contains("\u{1b}[38;2;"));
    assert_eq!(
        rows[0].cursor_marker.map(|marker| marker.position),
        Some(Position { x: "      1 time.sleep(1)".len() as u16, y: 0 })
    );
}

#[test]
fn editor_component_uses_edtui_render_plan_for_normal_widths() {
    let editor = editor("abcdef", "In [1]: ");
    assert_eq!(editor_plan_request(&editor, 12), Some((6, true)));
    let plan = EditorPlan {
        rows: vec![
            PlanRow { gutter: Some("1".to_string()), spans: vec![span("abcd")] },
            PlanRow { gutter: None, spans: vec![span("ef")] },
        ],
        cursor: Some(Position { x: 4, y: 1 }),
        mode: EditorMode::Insert,
    };

    let rows = editor_rows(&editor, 12, &plan);

    assert_eq!(rows.iter().map(|row| strip_ansi(&row.text)).collect::<Vec<_>>(), vec!["      1 abcd", "        ef"]);
    assert_eq!(rows.last().and_then(|row| row.cursor_marker).map(|marker| marker.position), Some(Position { x: 10, y: 1 }));
}

#[test]
fn editor_component_renders_multiline_prompt_continuation_padding() {
    let editor = editor("abc\ndef", "In [3]: ");

    let rows = editor_rows(&editor, 80, &simple_plan(&editor, 80));

    assert_eq!(rows.iter().map(|row| strip_ansi(&row.text)).collect::<Vec<_>>(), vec!["      1 abc", "      2 def"]);
}

#[test]
fn editor_component_preserves_trailing_blank_line() {
    let editor = editor("abc\n", "In [3]: ");

    let rows = editor_rows(&editor, 80, &simple_plan(&editor, 80));

    assert_eq!(rows.iter().map(|row| strip_ansi(&row.text)).collect::<Vec<_>>(), vec!["      1 abc", "      2 "]);
}

#[test]
fn editor_component_renders_stdin_prompt_without_line_number_gutter() {
    let editor = editor("Ada", "Name: ");
    assert_eq!(editor_plan_request(&editor, 80), Some((74, false)));

    let rows = editor_rows(&editor, 80, &simple_plan(&editor, 80));

    assert_eq!(strip_ansi(&rows[0].text), "Name: Ada");
    assert!(!rows[0].text.starts_with("\u{1b}[36m"));
}

#[test]
fn editor_component_renders_password_prompt_without_extra_gutter() {
    let editor = editor("secret", "Password: ");

    let rows = editor_rows(&editor, 80, &simple_plan(&editor, 80));

    assert_eq!(strip_ansi(&rows[0].text), "Password: secret");
}

#[test]
fn editor_component_preserves_render_state_cursor_and_mode() {
    let editor = editor("abcdef", "In [1]: ");
    let mut plan = simple_plan(&editor, 20);
    plan.cursor = Some(Position { x: 3, y: 0 });
    plan.mode = EditorMode::Normal;

    let rows = editor_rows(&editor, 20, &plan);

    assert_eq!(rows.first().and_then(|row| row.cursor_marker).map(|marker| marker.position), Some(Position { x: 9, y: 0 }));
    assert_eq!(rows.first().and_then(|row| row.cursor_marker).map(|marker| marker.style), Some(CursorStyle::Block));
}

#[test]
fn editor_cursor_column_is_clamped_to_the_last_column() {
    let editor = editor("abc", "In [1]: ");
    let mut plan = simple_plan(&editor, 10);
    plan.cursor = Some(Position { x: 40, y: 7 });

    let rows = editor_rows(&editor, 10, &plan);

    assert_eq!(rows.len(), 1);
    assert_eq!(rows[0].cursor_marker.map(|marker| marker.position), Some(Position { x: 9, y: 0 }));
}

#[test]
fn footer_component_renders_optional_footer_text() {
    let footer = FooterModel { text: Some("busy".to_string()) };

    assert_eq!(footer_rows(&footer, 80), vec![plain("busy")]);
    assert!(footer_rows(&FooterModel { text: None }, 80).is_empty());
}

#[test]
fn footer_component_styles_mode_badge_and_palette_hint() {
    let footer = FooterModel { text: Some("INS In [2] Ctrl-P palette".to_string()) };

    let rows = footer_rows(&footer, 80);

    assert_eq!(strip_ansi(&rows[0].text), " INS  In [2] Ctrl-P palette");
    assert!(rows[0].text.contains("\u{1b}[30m\u{1b}[46m INS \u{1b}[0m"));
    assert!(rows[0].text.contains("\u{1b}[90mCtrl-P palette\u{1b}[0m"));
}

#[test]
fn footer_component_wraps_before_rendering_style_ansi() {
    let footer = FooterModel { text: Some("INS In [123] Ctrl-P palette".to_string()) };

    let rows = footer_rows(&footer, 15);

    assert_eq!(rows.iter().map(|row| strip_ansi(&row.text)).collect::<Vec<_>>(), vec![" INS  In [123] ", "Ctrl-P palette"]);
    assert!(rows[0].text.starts_with("\u{1b}[30m\u{1b}[46m INS \u{1b}[0m"));
    assert!(rows[1].text.starts_with("\u{1b}[90mCtrl-P palette\u{1b}[0m"));
}

#[test]
fn footer_without_known_mode_stays_plain() {
    let rows = footer_rows(&FooterModel { text: Some("Kernel busy".to_string()) }, 80);
    assert_eq!(rows, vec![plain("Kernel busy")]);
}

#[test]
fn overlay_component_renders_palette_selection() {
    let overlay = OverlayModel::Palette(PaletteOverlayModel {
        items: vec!["Quit".to_string(), "Restart".to_string()],
        selected: 1,
    });

    assert_eq!(overlay_rows(&overlay, 80), vec![plain("Command Palette"), plain("  Quit"), plain("> Restart")]);
}

#[test]
fn overlay_component_renders_history_search_summary_and_preview() {
    let overlay = OverlayModel::HistorySearch(HistorySearchOverlayModel {
        query: "fib".to_string(),
        results: vec![HistorySearchResultModel { summary: "def fibonacci(n): ...".to_string(), selected: true }],
        selected: 0,
        preview_lines: vec!["def fibonacci(n):".to_string(), "    return n".to_string()],
    });

    assert_eq!(
        overlay_rows(&overlay, 80),
        vec![
            plain("History Search"),
            plain("query: fib"),
            plain("> def fibonacci(n): ..."),
            plain("preview"),
            plain("def fibonacci(n):"),
            plain("    return n"),
        ]
    );
}

#[test]
fn overlay_without_results_says_so() {
    let overlay = OverlayModel::HistorySearch(HistorySearchOverlayModel {
        query: "zz".to_string(),
        results: Vec::new(),
        selected: 0,
        preview_lines: Vec::new(),
    });

    assert_eq!(overlay_rows(&overlay, 80), vec![plain("History Search"), plain("query: zz"), plain("no history matches")]);
}

#[test]
fn overlay_component_preserves_history_result_ansi_highlighting() {
    let overlay = OverlayModel::HistorySearch(HistorySearchOverlayModel {
        query: "x".to_string(),
        results: vec![HistorySearchResultModel { summary: "\u{1b}[38;2;1;2;3mx\u{1b}[0m = 1".to_string(), selected: true }],
        selected: 0,
        preview_lines: Vec::new(),
    });

    let rows = overlay_rows(&overlay, 80);
    let result = rows.iter().find(|row| strip_ansi(&row.text) == "> x = 1").expect("highlighted result row");

    assert!(result.text.contains("\u{1b}[38;2;1;2;3m"));
}

#[test]
fn overlay_component_preserves_history_preview_ansi_highlighting() {
    let overlay = OverlayModel::HistorySearch(HistorySearchOverlayModel {
        query: "x".to_string(),
        results: vec![HistorySearchResultModel { summary: "x = 1".to_string(), selected: true }],
        selected: 0,
        preview_lines: vec!["\u{1b}[38;2;1;2;3mx\u{1b}[0m = 1".to_string()],
    });

    let rows = overlay_rows(&overlay, 80);
    let preview = rows.iter().find(|row| strip_ansi(&row.text) == "x = 1").expect("highlighted preview row");

    assert!(preview.text.contains("\u{1b}[38;2;1;2;3m"));
}

#[test]
fn transcript_model_keeps_structured_input_entries() {
    let mut model = DisplayModel::new();
    model.transcript.push_input(Some(7), "x = 1\ny = 2".to_string());

    assert_eq!(model.transcript.entries.len(), 1);
    assert!(matches!(
        &model.transcript.entries[0],
        TranscriptEntry::Input(InputEntry { execution_count: Some(7), code, .. }) if code == "x = 1\ny = 2"
    ));
}

#[test]
fn transcript_model_records_stdin_prompt_and_reply() {
    let mut model = DisplayModel::new();
    let index = model.transcript.push_stdin("Name: ".to_string(), false);
    model.transcript.fill_stdin_value(index, "Ada".to_string());

    assert!(matches!(
        &model.transcript.entries[index],
        TranscriptEntry::Stdin(StdinEntry { prompt, password: false, value: Some(value), .. })
            if prompt == "Name: " && value == "Ada"
    ));
}

#[test]
fn transcript_model_can_clear_visible_rows_without_dropping_entries() {
    let mut model = DisplayModel::new();
    model.transcript.push_input(Some(1), "1 + 1".to_string());
    model.transcript.push_execute_result(Some(1), MimeBundle::plain("2".to_string()));

    model.transcript.clear_visible();
    model.transcript.push_input(Some(2), "2 + 2".to_string());

    assert_eq!(model.transcript.entries.len(), 3);
    assert_eq!(model.transcript.visible_entries().len(), 1);
    assert!(matches!(
        &model.transcript.visible_entries()[0],
        TranscriptEntry::Input(InputEntry { execution_count: Some(2), code, .. }) if code == "2 + 2"
    ));
}

#[test]
fn renderer_marks_transcript_and_live_ui_rows() {
    let mut model = DisplayModel::new();
    model.transcript.push_system("ready".to_string());
    model.editor.text = "2 + 2".to_string();

    let frame = render(&model, Size { width: 80, height: 24 });

    assert_eq!(frame.full_rows[0].kind, RowKind::CommittedTranscript);
    assert_eq!(frame.full_rows[1].kind, RowKind::LiveUi);
    assert_eq!(stripped(&frame.visible_rows()), vec!["ready", "      1 2 + 2"]);
    assert_eq!(frame.cursor.position, Some(Position { x: "      1 2 + 2".len() as u16, y: 1 }));
}

#[test]
fn renderer_omits_transcript_entries_before_visible_start() {
    let mut model = DisplayModel::new();
    model.transcript.push_input(Some(1), "1 + 1".to_string());
    model.transcript.push_execute_result(Some(1), MimeBundle::plain("2".to_string()));
    model.transcript.clear_visible();
    model.editor.text.clear();

    let frame = render(&model, Size { width: 80, height: 24 });

    assert_eq!(stripped(&frame.visible_rows()), vec!["      1 "]);
    assert!(frame.full_rows.iter().all(|row| row.kind == RowKind::LiveUi));
}

#[test]
fn renderer_resolves_cursor_marker_before_footer_rows() {
    let mut model = DisplayModel::new();
    model.editor.prompt = "In [1]: ".to_string();
    model.editor.text = "x".to_string();
    model.footer.text = Some("Kernel busy".to_string());

    let frame = render(&model, Size { width: 80, height: 24 });

    assert_eq!(stripped(&frame.visible_rows()), vec!["      1 x", "Kernel busy"]);
    assert_eq!(frame.cursor.position, Some(Position { x: "      1 x".len() as u16, y: 0 }));
    assert_eq!(frame.cursor.style, CursorStyle::Bar);
}

#[test]
fn renderer_cursor_position_uses_full_frame_rows_when_clipped() {
    let mut model = DisplayModel::new();
    model.transcript.push_system("one".to_string());
    model.transcript.push_system("two".to_string());
    model.transcript.push_system("three".to_string());
    model.editor.prompt = "In [1]: ".to_string();
    model.editor.text = "x".to_string();

    let frame = render(&model, Size { width: 80, height: 2 });

    assert_eq!(stripped(&frame.visible_rows()), vec!["three", "      1 x"]);
    assert_eq!(frame.cursor.position, Some(Position { x: "      1 x".len() as u16, y: 3 }));
}

#[test]
fn renderer_hides_cursor_scrolled_above_the_screen() {
    let mut model = DisplayModel::new();
    model.editor.prompt = "In [1]: ".to_string();
    model.editor.text = "x".to_string();
    model.footer.text = Some("a\nb\nc".to_string());

    let frame = render(&model, Size { width: 80, height: 2 });

    assert_eq!(frame.cursor, CursorState::hidden());
}

#[test]
fn renderer_uses_overlay_rows_instead_of_editor_rows() {
    let mut model = DisplayModel::new();
    model.editor.prompt = "In [1]: ".to_string();
    model.editor.text = "hidden".to_string();
    model.overlay = OverlayModel::Palette(PaletteOverlayModel {
        items: vec!["Quit".to_string(), "Restart".to_string()],
        selected: 1,
    });

    let frame = render(&model, Size { width: 80, height: 24 });

    assert_eq!(stripped(&frame.visible_rows()), vec!["Command Palette", "  Quit", "> Restart"]);
    assert_eq!(frame.cursor.position, None);
    assert!(!frame.cursor.visible);
    assert!(!frame.transcript_append_safe);
}

#[test]
fn renderer_marks_only_editor_projection_as_transcript_append_safe() {
    let mut model = DisplayModel::new();
    model.editor.prompt = "In [1]: ".to_string();
    model.editor.text = "x".to_string();

    let editor_frame = render(&model, Size { width: 80, height: 24 });
    assert!(editor_frame.transcript_append_safe);

    model.overlay = OverlayModel::HistorySearch(HistorySearchOverlayModel {
        query: "x".to_string(),
        results: vec![HistorySearchResultModel { summary: "x".to_string(), selected: true }],
        selected: 0,
        preview_lines: vec!["x".to_string()],
    });

    let overlay_frame = render(&model, Size { width: 80, height: 24 });
    assert!(!overlay_frame.transcript_append_safe);
}

#[test]
fn rendered_rows_do_not_exceed_width_after_ansi_stripping() {
    let mut model = DisplayModel::new();
    model.transcript.push_input(Some(1), "abcdef".to_string());
    model.transcript.push_stream(StreamName::Stdout, "ghijk語".to_string());

    let frame = render(&model, Size { width: 5, height: 10 });

    for row in frame.full_rows {
        assert!(display_width(&row.text) <= 5, "row too wide: {:?}", row);
    }
}

#[test]
fn recording_backend_appends_only_new_committed_rows() {
    let mut backend = RecordingBackend::default();
    let mut model = DisplayModel::new();

    model.transcript.push_system("first".to_string());
    render_into(&mut backend, &model, Size { width: 80, height: 3 });
    model.editor.text = "editing".to_string();
    render_into(&mut backend, &model, Size { width: 80, height: 3 });
    model.transcript.push_system("second".to_string());
    render_into(&mut backend, &model, Size { width: 80, height: 3 });

    let snapshot = backend.snapshot().expect("snapshot");
    assert_eq!(snapshot.expected_scrollback_rows, vec!["first".to_string(), "second".to_string()]);
    assert_eq!(backend.last_update_kind(), Some(FrameUpdateKind::TranscriptAppend));
}

#[test]
fn recording_backend_does_not_append_live_ui_edits() {
    let mut backend = RecordingBackend::default();
    let mut model = DisplayModel::new();

    model.transcript.push_system("first".to_string());
    render_into(&mut backend, &model, Size { width: 80, height: 3 });
    model.editor.text = "a".to_string();
    render_into(&mut backend, &model, Size { width: 80, height: 3 });
    model.editor.text = "ab".to_string();
    render_into(&mut backend, &model, Size { width: 80, height: 3 });

    let snapshot = backend.snapshot().expect("snapshot");
    assert_eq!(snapshot.expected_scrollback_rows, vec!["first".to_string()]);
    assert_eq!(stripped(&snapshot.visible_rows), vec!["first", "      1 ab"]);
    assert_eq!(backend.last_update_kind(), Some(FrameUpdateKind::LiveUiOnly));
}

#[test]
fn recording_backend_clears_expected_scrollback_on_resize() {
    let mut backend = RecordingBackend::default();
    let mut model = DisplayModel::new();

    model.transcript.push_system("abcdef".to_string());
    render_into(&mut backend, &model, Size { width: 80, height: 3 });
    render_into(&mut backend, &model, Size { width: 3, height: 3 });

    let snapshot = backend.snapshot().expect("snapshot");
    assert!(snapshot.expected_scrollback_rows.is_empty());
    assert_eq!(backend.last_update_kind(), Some(FrameUpdateKind::ResizeOrReflow));
}

#[test]
fn recording_backend_recovers_from_non_prefix_committed_change() {
    let mut backend = RecordingBackend::default();
    let mut model = DisplayModel::new();

    model.transcript.push_system("old".to_string());
    render_into(&mut backend, &model, Size { width: 80, height: 3 });
    model.transcript.entries.clear();
    model.transcript.push_system("new".to_string());
    render_into(&mut backend, &model, Size { width: 80, height: 3 });

    let snapshot = backend.snapshot().expect("snapshot");
    assert_eq!(snapshot.expected_scrollback_rows, vec!["new".to_string()]);
    assert_eq!(backend.last_update_kind(), Some(FrameUpdateKind::Recovery));
}

#[test]
fn recording_backend_recovers_after_overlay_blocks_transcript_append() {
    let mut backend = RecordingBackend::default();
    let mut model = DisplayModel::new();

    model.overlay = OverlayModel::Palette(PaletteOverlayModel {
        items: vec!["Quit".to_string(), "Interrupt Kernel".to_string(), "Restart Kernel".to_string()],
        selected: 1,
    });
    render_into(&mut backend, &model, Size { width: 80, height: 8 });

    model.transcript.push_system("kernel restarted".to_string());
    render_into(&mut backend, &model, Size { width: 80, height: 8 });

    let snapshot = backend.snapshot().expect("snapshot");
    assert!(snapshot.expected_scrollback_rows.is_empty());
    assert!(backend.previous_committed_rows.is_empty());
    assert_eq!(backend.last_update_kind(), Some(FrameUpdateKind::TranscriptAppend));

    model.overlay = OverlayModel::Absent;
    render_into(&mut backend, &model, Size { width: 80, height: 8 });

    let snapshot = backend.snapshot().expect("snapshot");
    assert_eq!(snapshot.expected_scrollback_rows, vec!["kernel restarted".to_string()]);
    assert_eq!(backend.last_update_kind(), Some(FrameUpdateKind::TranscriptAppend));
}

#[test]
fn recording_backend_classifies_first_frame_as_initial() {
    let mut backend = RecordingBackend::default();
    let mut model = DisplayModel::new();

    model.transcript.push_system("first".to_string());
    render_into(&mut backend, &model, Size { width: 80, height: 3 });

    assert_eq!(backend.last_update_kind(), Some(FrameUpdateKind::Initial));
}

fn frame(size: Size, rows: &[&str], cursor: CursorState) -> TerminalFrame {
    TerminalFrame {
        size,
        full_rows: rows
            .iter()
            .map(|text| TerminalRow { text: (*text).to_string(), kind: RowKind::CommittedTranscript })
            .collect(),
        cursor,
        transcript_append_safe: true,
    }
}

/// A main-screen renderer together with everything it asked to write.
struct Screen {
    backend: PiStyleMainScreenBackend,
    written: String,
}

impl Screen {
    fn new(width: u16, height: u16) -> Self {
        Screen { backend: PiStyleMainScreenBackend::new(Size { width, height }), written: String::new() }
    }

    fn draw(&mut self, frame: TerminalFrame) -> Result<(), DrawError> {
        let text = self.backend.draw_frame(frame)?;
        self.written.push_str(&text);
        Ok(())
    }
}

fn sz(width: u16, height: u16) -> Size {
    Size { width, height }
}

#[test]
fn pi_style_first_render_preserves_shell_context() {
    let mut screen = Screen::new(80, 3);

    screen.draw(frame(sz(80, 3), &["one", "two"], CursorState::hidden())).expect("draw frame");

    let output = &screen.written;
    assert!(output.starts_with(SYNC_OUTPUT_ENABLE));
    assert!(!output.contains(CSI_CLEAR_SCREEN));
    assert!(!output.contains(CSI_CLEAR_SCROLLBACK));
    assert!(!output.contains(CSI_HOME));
    assert!(output.contains("one\u{1b}[0m\r\ntwo\u{1b}[0m"));
    assert_eq!(*screen.backend.previous_lines(), vec!["one", "two"]);
    assert_eq!(screen.backend.previous_viewport_top(), 0);
    assert_eq!(screen.backend.last_update_kind(), Some(FrameUpdateKind::Initial));
}

#[test]
fn pi_style_unsafe_change_above_viewport_triggers_full_clear() {
    let mut screen = Screen::new(80, 3);
    screen.draw(frame(sz(80, 3), &["one", "two", "three", "four"], CursorState::hidden())).expect("initial draw");
    let before = screen.written.len();

    screen.draw(frame(sz(80, 3), &["ONE", "two", "three", "four"], CursorState::hidden())).expect("recovery draw");

    let output = &screen.written[before..];
    assert!(output.contains(CSI_CLEAR_SCREEN));
    assert!(output.contains(CSI_CLEAR_SCROLLBACK));
    assert_eq!(screen.backend.last_update_kind(), Some(FrameUpdateKind::Recovery));
}

#[test]
fn pi_style_append_scrolls_by_viewport_delta_and_repaints_tail() {
    let mut screen = Screen::new(80, 3);
    screen.draw(frame(sz(80, 3), &["one", "two"], CursorState::hidden())).expect("initial draw");
    let before = screen.written.len();

    screen.draw(frame(sz(80, 3), &["one", "two", "three", "four"], CursorState::hidden())).expect("append draw");

    let output = &screen.written[before..];
    assert!(output.contains("\r\n"));
    assert!(output.contains("\u{1b}[2Ktwo\u{1b}[0m"));
    assert!(output.contains("\u{1b}[2Kthree\u{1b}[0m"));
    assert!(output.contains("\u{1b}[2Kfour\u{1b}[0m"));
    assert!(!output.contains(CSI_CLEAR_SCREEN));
    assert_eq!(screen.backend.previous_viewport_top(), 1);
}

#[test]
fn pi_style_multi_row_tail_append_scrolls_by_full_viewport_delta() {
    let mut screen = Screen::new(80, 3);
    screen.draw(frame(sz(80, 3), &["one", "two", "three"], CursorState::hidden())).expect("initial draw");
    let before = screen.written.len();

    screen
        .draw(frame(sz(80, 3), &["one", "two", "three", "four", "five"], CursorState::hidden()))
        .expect("append draw");

    let output = &screen.written[before..];
    assert_eq!(output.matches("\r\n").count(), 2);
    assert!(output.contains("\u{1b}[2Kthree\u{1b}[0m"));
    assert!(output.contains("\u{1b}[2Kfour\u{1b}[0m"));
    assert!(output.contains("\u{1b}[2Kfive\u{1b}[0m"));
    assert_eq!(screen.backend.previous_viewport_top(), 2);
}

#[test]
fn pi_style_short_tail_append_creates_terminal_room_before_repaint() {
    let mut screen = Screen::new(80, 5);
    screen.draw(frame(sz(80, 5), &["one", "two"], CursorState::hidden())).expect("initial draw");
    let before = screen.written.len();

    screen.draw(frame(sz(80, 5), &["one", "two", "three"], CursorState::hidden())).expect("append draw");

    let output = &screen.written[before..];
    let scroll_index = output.find("\r\n").expect("append creates terminal room");
    let repaint_index = output.find("three").expect("tail row is repainted");
    assert!(scroll_index < repaint_index, "terminal room should be created before repainting the appended row: {output:?}");
    assert!(output.contains("\u{1b}[2Kone\u{1b}[0m"));
    assert!(output.contains("\u{1b}[2Ktwo\u{1b}[0m"));
    assert!(output.contains("\u{1b}[2Kthree\u{1b}[0m"));
    assert!(!output.contains(CSI_CLEAR_SCREEN));
    assert_eq!(screen.backend.previous_viewport_top(), 0);
}

#[test]
fn pi_style_safe_shrink_clears_stale_visible_rows_without_full_clear() {
    let mut screen = Screen::new(80, 5);
    screen
        .draw(frame(sz(80, 5), &["one", "two", "three", "four", "five"], CursorState::hidden()))
        .expect("initial draw");
    let before = screen.written.len();

    screen.draw(frame(sz(80, 5), &["one", "two", "THREE"], CursorState::hidden())).expect("shrink draw");

    let output = &screen.written[before..];
    assert!(!output.contains(CSI_CLEAR_SCREEN));
    assert!(output.matches(CSI_CLEAR_LINE).count() >= 3);
    assert!(output.contains("THREE"));
    assert_eq!(*screen.backend.previous_lines(), vec!["one".to_string(), "two".to_string(), "THREE".to_string()]);
}

#[test]
fn pi_style_cursor_positioning_uses_relative_moves() {
    let mut screen = Screen::new(80, 3);
    screen.draw(frame(sz(80, 3), &["one", "two", "three"], CursorState::hidden())).expect("initial draw");
    let before = screen.written.len();

    let cursor = CursorState { position: Some(Position { x: 2, y: 1 }), style: CursorStyle::Bar, visible: true };
    screen.draw(frame(sz(80, 3), &["one", "TWO", "three"], cursor)).expect("cursor draw");

    let output = &screen.written[before..];
    assert!(!output.contains("\u{1b}[2;3H"));
    assert!(output.contains("\u{1b}[2G") || output.contains("\u{1b}[3G"));
    assert!(output.contains(CSI_SHOW_CURSOR));
}

#[test]
fn pi_style_unchanged_frame_only_places_the_cursor() {
    let mut screen = Screen::new(80, 3);
    screen.draw(frame(sz(80, 3), &["one", "two"], CursorState::hidden())).expect("initial draw");
    let before = screen.written.len();

    screen.draw(frame(sz(80, 3), &["one", "two"], CursorState::hidden())).expect("same draw");

    assert_eq!(&screen.written[before..], "\u{1b}[?2026h\u{1b}[?25l\u{1b}[?2026l");
    assert_eq!(screen.backend.last_update_kind(), Some(FrameUpdateKind::LiveUiOnly));
}

#[test]
fn pi_style_resize_clears_and_reprints() {
    let mut screen = Screen::new(80, 3);
    screen.draw(frame(sz(80, 3), &["one"], CursorState::hidden())).expect("initial draw");
    let before = screen.written.len();

    screen.draw(frame(sz(40, 3), &["one"], CursorState::hidden())).expect("resized draw");

    let output = &screen.written[before..];
    assert!(output.contains(CSI_CLEAR_SCREEN));
    assert!(output.contains("one\u{1b}[0m"));
    assert_eq!(screen.backend.last_update_kind(), Some(FrameUpdateKind::ResizeOrReflow));
    assert_eq!(screen.backend.previous_width(), 40);
}

#[test]
fn pi_style_zero_sized_terminal_does_not_mutate_state() {
    let mut screen = Screen::new(80, 3);
    screen.draw(frame(sz(0, 0), &["one"], CursorState::hidden())).expect("zero draw");

    assert!(screen.written.is_empty());
    assert!(screen.backend.previous_lines().is_empty());
    assert_eq!(screen.backend.previous_width(), 80);
    assert_eq!(screen.backend.previous_height(), 3);
}

#[test]
fn pi_style_rejects_rows_wider_than_terminal_width() {
    let mut screen = Screen::new(3, 3);

    let error = screen.draw(frame(sz(3, 3), &["abcd"], CursorState::hidden())).expect_err("over-wide row should fail");

    assert_eq!(error, DrawError::RowTooWide { row: 0, width: 4, limit: 3 });
    assert!(error.message().contains("exceeds terminal width"));
    assert_eq!(error.message(), "rendered row 0 exceeds terminal width: 4 > 3");
    assert!(screen.written.is_empty());
    assert!(screen.backend.previous_lines().is_empty());
}

#[test]
fn pi_style_shutdown_moves_below_the_last_row() {
    let mut screen = Screen::new(80, 5);
    screen.draw(frame(sz(80, 5), &["one", "two"], CursorState::hidden())).expect("initial draw");

    let (text, row) = screen.backend.prepare_shutdown();

    assert_eq!(text, "\u{1b}[0m\u{1b}[?25h\r\r\n");
    assert_eq!(row, 4);
}

#[test]
fn pi_style_clear_screen_forgets_the_previous_frame() {
    let mut screen = Screen::new(80, 5);
    screen.draw(frame(sz(80, 5), &["one", "two"], CursorState::hidden())).expect("initial draw");

    assert_eq!(screen.backend.clear_screen(), "\u{1b}[?25l\u{1b}[H\u{1b}[2J");
    assert!(screen.backend.previous_lines().is_empty());
    assert_eq!(screen.backend.last_update_kind(), Some(FrameUpdateKind::Recovery));
}

#[test]
fn fixture_sequence_records_backend_update_kinds() {
    let steps = fpy::fixture::fixture_sequence("append-edit-resize", 80, 6).expect("sequence");
    let mut backend = RecordingBackend::new(Size { width: 80, height: 6 });
    let mut kinds = Vec::new();
    for step in &steps {
        render_into(&mut backend, &step.model, step.size);
        kinds.push(backend.last_update_kind().expect("update kind"));
    }

    assert_eq!(
        kinds,
        vec![
            FrameUpdateKind::Initial,
            FrameUpdateKind::LiveUiOnly,
            FrameUpdateKind::TranscriptAppend,
            FrameUpdateKind::ResizeOrReflow
        ]
    );
}

#[test]
fn fixture_scenarios_render_through_the_recording_backend() {
    let model = fpy::fixture::fixture_model("stdin-reply").expect("scenario");
    let mut backend = RecordingBackend::new(Size { width: 80, height: 24 });
    render_into(&mut backend, &model, Size { width: 80, height: 24 });

    let snapshot = backend.snapshot().expect("snapshot");
    assert_eq!(stripped(&snapshot.expected_scrollback_rows), vec!["In [1]: name = input('Name: ')", "Name: Ada"]);
    assert_eq!(backend.last_update_kind(), Some(FrameUpdateKind::Initial));
}

#[test]
fn pi_style_live_updates_never_clear_and_refusals_change_nothing() {
    let mut screen = Screen::new(10, 4);
    screen.draw(frame(sz(10, 4), &["a", "b", "c"], CursorState::hidden())).expect("initial draw");
    let cursor = CursorState { position: Some(Position { x: 3, y: 2 }), style: CursorStyle::Block, visible: true };
    for rows in [&["a", "b", "c", "d"][..], &["a", "b", "c", "D"][..], &["a", "b", "c", "D", "e"][..], &["a", "b", "c", "D", "E"][..]] {
        let before = screen.written.len();
        screen.draw(frame(sz(10, 4), rows, cursor)).expect("live draw");
        let output = &screen.written[before..];
        assert!(output.starts_with(SYNC_OUTPUT_ENABLE));
        assert!(output.ends_with("\x1b[?2026l"));
        assert_eq!(screen.backend.last_update_kind(), Some(FrameUpdateKind::LiveUiOnly));
        assert!(!output.contains(CSI_CLEAR_SCREEN) && !output.contains(CSI_CLEAR_SCROLLBACK), "{output:?}");
        assert_eq!(screen.backend.previous_viewport_top(), rows.len().saturating_sub(4));
    }
    let lines = screen.backend.previous_lines().clone();
    let top = screen.backend.previous_viewport_top();
    let refused = screen.draw(frame(sz(10, 4), &["far too wide for ten"], cursor));
    assert!(matches!(refused, Err(DrawError::RowTooWide { row: 0, .. })));
    assert_eq!(*screen.backend.previous_lines(), lines);
    assert_eq!(screen.backend.previous_viewport_top(), top);
}
