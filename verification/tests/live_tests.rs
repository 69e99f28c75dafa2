use fpy::history::HistoryOutcome;
use fpy::live::busy_runtime_label;
use fpy::control::ExecutionTimer;
use fpy::editor::PendingStdin;
use fpy::fixture::{fixture_model, fixture_sequence};
use fpy::history_search::HistorySearchEntry;
use fpy::kernel::KernelStatus;
use fpy::live::sync_display_model_live_state;
use fpy::render::{DisplayKernelStatus, DisplayModel, OverlayModel};
use fpy::session::UiState;
use fpy::transcript::strip_ansi;
use fpy::ui::EditorMode;

#[test]
fn execution_timer_finishes_only_once() {
    let mut timer = ExecutionTimer::new();
    timer.start(10);
    assert!(timer.finish(25).is_some());
    assert!(timer.finish(30).is_none());
}

#[test]
fn execution_timer_clear_discards_pending_runtime() {
    let mut timer = ExecutionTimer::new();
    timer.start(10);
    timer.clear();
    assert!(timer.finish(25).is_none());
}

#[test]
fn execution_timer_measures_elapsed_time() {
    let mut timer = ExecutionTimer::new();
    timer.start(10);
    assert_eq!(timer.finish(25), Some(15));
    timer.start(40);
    assert_eq!(timer.finish(30), Some(0));
}

#[test]
fn live_state_shows_prompt_footer_and_status() {
    let mut state = UiState::new(true);
    state.status = KernelStatus::Idle;
    let mut model = DisplayModel::new();
    model.transcript.push_system("kept".to_string());

    sync_display_model_live_state(&mut model, &state, "x = 1".to_string(), EditorMode::Insert, None, 80);

    assert_eq!(model.editor.text, "x = 1");
    assert_eq!(model.editor.prompt, "In [1]: ");
    assert_eq!(model.kernel_status, DisplayKernelStatus::Idle);
    assert_eq!(model.footer.text.as_deref(), Some("INS In [1] Ctrl-P palette"));
    assert_eq!(model.overlay, OverlayModel::Absent);
    assert_eq!(model.transcript.entries.len(), 1);
}

#[test]
fn live_state_uses_stdin_prompt_while_answering_input() {
    let mut state = UiState::new(true);
    state.status = KernelStatus::AwaitingInput;
    state.editor_stdin = Some(PendingStdin::new("Name: ".to_string(), false));
    let mut model = DisplayModel::new();

    sync_display_model_live_state(&mut model, &state, String::new(), EditorMode::Insert, None, 80);

    assert_eq!(model.editor.prompt, "Name: ");
    assert_eq!(model.kernel_status, DisplayKernelStatus::AwaitingInput);
}

#[test]
fn live_state_shows_busy_runtime_in_footer() {
    let mut state = UiState::new(true);
    state.status = KernelStatus::Busy;
    let mut model = DisplayModel::new();

    sync_display_model_live_state(&mut model, &state, String::new(), EditorMode::Normal, Some("1.00s".to_string()), 80);

    assert_eq!(model.footer.text.as_deref(), Some("NAV In [1] 1.00s Kernel busy. Ctrl-C to interrupt Ctrl-P palette"));
}

#[test]
fn live_state_lists_palette_actions() {
    let mut state = UiState::new(true);
    state.palette_open = true;
    state.palette_index = 2;

    match state.overlay_model(80) {
        OverlayModel::Palette(palette) => {
            assert_eq!(palette.selected, 2);
            assert_eq!(palette.items.len(), 5);
            assert_eq!(palette.items[0], "Quit");
        }
        other => panic!("expected palette, got {other:?}"),
    }
}

#[test]
fn live_state_windows_history_search_results_and_preview() {
    let mut state = UiState::new(true);
    state.pane_height = 20;
    state.history_entries = vec![
        HistorySearchEntry::new("a = 1".to_string()),
        HistorySearchEntry::new("b = 2\nc = 3".to_string()),
    ];
    state.search.open = true;
    state.search.query = "b".to_string();
    state.search.results = vec![1, 0, 7];
    state.search.selected = 0;

    match state.overlay_model(40) {
        OverlayModel::HistorySearch(search) => {
            assert_eq!(search.query, "b");
            assert_eq!(search.results.len(), 2);
            assert!(search.results[0].selected);
            assert!(!search.results[1].selected);
            assert!(strip_ansi(&search.results[0].summary).starts_with("b = 2 …"));
            let preview = search.preview_lines.iter().map(|line| strip_ansi(line)).collect::<Vec<_>>();
            assert_eq!(preview, vec!["b = 2", "c = 3"]);
        }
        other => panic!("expected history search, got {other:?}"),
    }
}

#[test]
fn fixture_models_cover_known_scenarios() {
    assert!(fixture_model("unknown").is_none());
    let model = fixture_model("stdin-reply").expect("scenario");
    assert_eq!(model.transcript.entries.len(), 2);
    let model = fixture_model("palette").expect("scenario");
    assert!(matches!(model.overlay, OverlayModel::Palette(_)));
    assert_eq!(model.footer.text.as_deref(), Some("Ctrl-P palette"));
    let model = fixture_model("resize-reflow").expect("scenario");
    assert_eq!(model.editor.text, "2 + 2");
}

#[test]
fn fixture_sequence_halves_the_width_for_the_last_frame() {
    assert!(fixture_sequence("other", 80, 6).is_none());
    let steps = fixture_sequence("append-edit-resize", 80, 6).expect("sequence");
    let names = steps.iter().map(|step| step.name.as_str()).collect::<Vec<_>>();
    assert_eq!(names, vec!["initial", "live-ui-edit", "transcript-append", "resize-reflow"]);
    assert_eq!(steps[3].size.width, 40);
    assert_eq!(steps[2].model.transcript.entries.len(), 3);
    let narrow = fixture_sequence("append-edit-resize", 1, 6).expect("sequence");
    assert_eq!(narrow[3].size.width, 1);
}

#[test]
fn busy_label_shows_the_last_run_time_of_the_same_code() {
    let mut state = UiState::new(true);
    let first = state.record_history_submission("sleep(1)");
    state.record_history_completion(first, 2_000_000_000, HistoryOutcome::Success);
    state.record_history_submission("x = 1");
    let entries = &state.history_entries;
    assert_eq!(busy_runtime_label(1_000_000_000, Some("sleep(1)"), entries), "1.00s (2.00s last)");
    assert_eq!(busy_runtime_label(1_000_000_000, Some("x = 1"), entries), "1.00s");
    assert_eq!(busy_runtime_label(1_000_000_000, None, entries), "1.00s");
}

#[test]
fn unknown_fixture_names_get_their_messages() {
    assert!(fixture_model("no-such").is_none());
    assert_eq!(
        fpy::fixture::unknown_scenario_message("no-such"),
        "unknown display fixture scenario: no-such"
    );
    assert!(fixture_sequence("nope", 10, 4).is_none());
    assert_eq!(
        fpy::fixture::unknown_sequence_message("nope"),
        "unknown display fixture sequence: nope"
    );
    let model = fixture_model("palette").expect("known scenario");
    assert_eq!(model.kernel_status, DisplayKernelStatus::Connecting);
}
