use fpy::editor::{
    history_suggestion_suffix_for_line_prefix, status_label, EditorHistory, HistoryMove,
    PendingStdin,
};
use fpy::extensions::{extension_on_key, normalize_cell_indentation};
use fpy::history::{
    host_name_from, merge_history, record_lines, sanitize_host_name, HistoryOutcome,
    HistoryRecord,
};
use fpy::history_search::{
    format_history_timestamp, history_search_layout_for_popup, history_search_scroll_for_selection,
    normalize_history_search_text, HistorySearchEntry, HistorySearchState,
};
use fpy::input::{KeyCode, KeyEvent, KeyModifiers};
use fpy::jupyter::{CodecError, MessageCodec, MessageFrames};
use fpy::syntax::syntax_highlighted_history_preview;
use fpy::transcript::strip_ansi;

#[test]
fn format_cell_trims_blank_edges_and_dedents() {
    assert_eq!(
        normalize_cell_indentation("\n    x = 1  \n    if x:\n        print(x)\n\n"),
        "x = 1\nif x:\n    print(x)"
    );
}

#[test]
fn format_cell_preserves_relative_indent() {
    assert_eq!(
        normalize_cell_indentation("  def f():\n      return 1"),
        "def f():\n    return 1"
    );
}

#[test]
fn format_cell_strips_repl_prompts() {
    assert_eq!(
        normalize_cell_indentation(">>> def f():\n...     return 1\n>>> f()"),
        "def f():\n    return 1\nf()"
    );
}

#[test]
fn format_cell_strips_ipython_prompts() {
    assert_eq!(
        normalize_cell_indentation("In [12]: x = 1\n[ins] In [13]: y = 2\n[nav] In [14]: z = 3"),
        "x = 1\ny = 2\nz = 3"
    );
}

#[test]
fn format_cell_strips_multiline_ipython_prompts_before_dedent() {
    assert_eq!(
        normalize_cell_indentation(
            "In [12]:     def f():\n   ...:         return 1\n[nav] In [13]:     f()"
        ),
        "def f():\n    return 1\nf()"
    );
}

#[test]
fn format_cell_keeps_lines_without_prompts_and_blank_cells() {
    assert_eq!(normalize_cell_indentation(""), "");
    assert_eq!(normalize_cell_indentation("   \n\t\n"), "");
    assert_eq!(normalize_cell_indentation("In [x]: y"), "In [x]: y");
    assert_eq!(normalize_cell_indentation(">>>\nx"), "x");
}

#[test]
fn ctrl_g_formats_the_cell_and_clamps_the_cursor() {
    let ctrl_g = KeyEvent::new(KeyCode::Char('g'), KeyModifiers::ctrl());
    let edit = extension_on_key(ctrl_g, "  x = 1  ", 9).expect("format edit");
    assert_eq!(edit.text, "x = 1");
    assert_eq!(edit.cursor_byte, 5);
    let edit = extension_on_key(ctrl_g, "  x = 1", 2).expect("format edit");
    assert_eq!(edit.cursor_byte, 2);
    let plain_g = KeyEvent::new(KeyCode::Char('g'), KeyModifiers::none());
    assert!(extension_on_key(plain_g, "x", 0).is_none());
}

#[test]
fn sanitizes_host_names_for_directory_use() {
    assert_eq!(sanitize_host_name("host/name"), "host_name");
    assert_eq!(sanitize_host_name(""), "unknown-host");
}

#[test]
fn sanitizes_control_characters_and_backslashes() {
    assert_eq!(sanitize_host_name("a\\b\tc\u{7f}d\u{85}"), "a_b_c_d_");
    assert_eq!(host_name_from(Some(String::new()), Some("box".into())), "box");
    assert_eq!(host_name_from(Some("h/1".into()), Some("box".into())), "h_1");
    assert_eq!(host_name_from(None, None), "unknown-host");
}

fn cell(session: u128, seq: u64, ts: u64, code: &str) -> HistoryRecord {
    HistoryRecord::Cell {
        v: 1,
        session_id: session,
        entry_seq: seq,
        ts_unix_ns: ts,
        host: "host-a".to_string(),
        pid: 7,
        code: code.to_string(),
    }
}

fn done(session: u128, seq: u64, duration: u64, outcome: HistoryOutcome) -> HistoryRecord {
    HistoryRecord::CellDone {
        v: 1,
        session_id: session,
        entry_seq: seq,
        ts_unix_ns: 0,
        duration_ns: duration,
        outcome,
    }
}

#[test]
fn loads_cells_and_merges_runtime_metadata() {
    let records = vec![
        cell(9, 1, 10, "1+1"),
        done(9, 1, 3000, HistoryOutcome::Success),
        cell(9, 2, 30, "2+2"),
    ];
    let entries = merge_history(&records);
    assert_eq!(entries.len(), 2);
    assert_eq!(entries[0].code, "1+1");
    assert_eq!(entries[0].duration_ns, Some(3000));
    assert_eq!(entries[0].outcome, Some(HistoryOutcome::Success));
    assert_eq!(entries[1].code, "2+2");
    assert_eq!(entries[1].duration_ns, None);
}

#[test]
fn ignores_truncated_trailing_records() {
    let lines = record_lines("{\"type\":\"cell\"}\n\n  \n{\"v\":1,\"type\":\"cell");
    assert_eq!(lines, vec!["{\"type\":\"cell\"}"]);
    assert_eq!(record_lines(" a \r\nb\n"), vec!["a", "b"]);
}

#[test]
fn merge_orders_by_time_host_session_and_sequence() {
    let records = vec![
        cell(2, 1, 50, "late"),
        done(1, 1, 5, HistoryOutcome::Error),
        cell(1, 1, 20, "early"),
        cell(1, 2, 20, "same time"),
        done(2, 1, 7, HistoryOutcome::Interrupted),
        done(2, 1, 8, HistoryOutcome::Success),
    ];
    let entries = merge_history(&records);
    let codes: Vec<&str> = entries.iter().map(|e| e.code.as_str()).collect();
    assert_eq!(codes, vec!["early", "same time", "late"]);
    assert_eq!(entries[0].duration_ns, Some(5));
    assert_eq!(entries[0].outcome, Some(HistoryOutcome::Error));
    assert_eq!(entries[2].duration_ns, Some(8));
    assert_eq!(entries[2].outcome, Some(HistoryOutcome::Success));
}

#[test]
fn hides_stdin_label_in_status_bar() {
    let stdin = PendingStdin::new("input".to_string(), false);
    assert_eq!(status_label(Some(&stdin), "In [3]", None), None);
}

#[test]
fn editor_uses_prompt_label_in_status_bar() {
    assert_eq!(status_label(None, "In [3]", None), Some("In [3]".to_string()));
}

#[test]
fn appends_history_position_in_status_bar() {
    assert_eq!(
        status_label(None, "In [3]", Some((2, 10))),
        Some("In [3] [2/10]".to_string())
    );
}

#[test]
fn ghost_suggestion_matches_line_suffixes_only() {
    assert_eq!(
        history_suggestion_suffix_for_line_prefix("print('hello')", "pri").as_deref(),
        Some("nt('hello')")
    );
    assert_eq!(
        history_suggestion_suffix_for_line_prefix("def foo():\n    pass", "def foo").as_deref(),
        Some("():")
    );
    assert_eq!(
        history_suggestion_suffix_for_line_prefix("x = 1\nprint(x)", "pri").as_deref(),
        Some("nt(x)")
    );
    assert_eq!(history_suggestion_suffix_for_line_prefix("print('hello')", ""), None);
    assert_eq!(history_suggestion_suffix_for_line_prefix("print('hello')", "zzz"), None);
}

#[test]
fn history_navigation_walks_back_and_returns_to_blank_input() {
    let mut history = EditorHistory::new();
    history.push_history("a".to_string());
    history.push_history("b".to_string());
    assert_eq!(history.history_up(), "b");
    assert_eq!(history.history_position(), Some((2, 2)));
    assert_eq!(history.history_up(), "a");
    assert_eq!(history.history_up(), "a");
    assert!(matches!(history.history_down(), HistoryMove::Show(ref t) if t == "b"));
    assert!(matches!(history.history_down(), HistoryMove::Clear));
    assert!(matches!(history.history_down(), HistoryMove::Keep));
    assert_eq!(history.history_position(), None);
    history.pop_history_if_last("b");
    assert_eq!(history.entries, vec!["a".to_string()]);
    assert_eq!(
        history.ghost_suggestion_suffix(true, "x = 1\npri", true),
        None
    );
    history.push_history("print(1)".to_string());
    assert_eq!(
        history.ghost_suggestion_suffix(true, "x = 1\npri", true).as_deref(),
        Some("nt(1)")
    );
    assert_eq!(history.ghost_suggestion_suffix(false, "pri", true), None);
}

#[test]
fn history_search_metadata_includes_non_ok_outcome() {
    let mut entry = HistorySearchEntry::new("x = 1".to_string());
    entry.outcome = Some(HistoryOutcome::Interrupted);

    assert_eq!(entry.metadata(), "interrupted");
}

#[test]
fn history_search_metadata_includes_runtime_then_timestamp() {
    let mut entry = HistorySearchEntry::new("x = 1".to_string());
    entry.duration_ns = Some(1_500_000);
    entry.timestamp_unix_ns = Some(1_700_000_000_000_000_000);

    let metadata = entry.metadata();
    assert!(metadata.starts_with("1.50ms "));
    assert_eq!(
        entry.metadata_with(Some("20231114 22:13".to_string())),
        "1.50ms 20231114 22:13"
    );
}

#[test]
fn history_search_refreshes_empty_query_in_reverse_order() {
    let entries = vec![
        HistorySearchEntry::new("a".to_string()),
        HistorySearchEntry::new("b".to_string()),
    ];
    let mut state = HistorySearchState::new();

    state.refresh_results(&entries);

    assert_eq!(state.results, vec![1, 0]);
    assert_eq!(state.selected, 0);
    assert_eq!(state.scroll, 0);
}

#[test]
fn history_search_ranks_fuzzy_matches_newest_first_among_ties() {
    let entries = vec![
        HistorySearchEntry::new("print(1)".to_string()),
        HistorySearchEntry::new("x = 2".to_string()),
        HistorySearchEntry::new("print(1)".to_string()),
    ];
    let mut state = HistorySearchState::new();
    state.query = "  print ".to_string();
    state.refresh_results(&entries);
    assert_eq!(state.results, vec![2, 0]);
}

#[test]
fn history_search_layout_expands_preview_when_space_allows() {
    assert_eq!(history_search_layout_for_popup(39, 1, 7), (1, 7));
}

#[test]
fn history_search_layout_shrinks_results_before_preview() {
    assert_eq!(history_search_layout_for_popup(10, 20, 3), (3, 3));
    assert_eq!(history_search_layout_for_popup(3, 0, 0), (1, 1));
}

#[test]
fn history_search_scroll_recenters_before_selection_hits_bottom() {
    assert_eq!(history_search_scroll_for_selection(20, 10, 5), 1);
}

#[test]
fn history_search_scroll_keeps_selected_result_visible_near_bottom() {
    assert_eq!(history_search_scroll_for_selection(12, 10, 8), 2);
}

#[test]
fn history_search_preview_uses_python_syntax_highlighting() {
    let lines = syntax_highlighted_history_preview("x = 1\nprint(x)");

    assert_eq!(lines.len(), 2);
    assert_eq!(
        lines.iter().map(|line| strip_ansi(line)).collect::<Vec<_>>().join(""),
        "x = 1print(x)"
    );
    assert!(lines.iter().any(|line| line.contains("\u{1b}[")));
}

#[test]
fn history_search_summary_uses_highlighting_without_wrapping_long_entries() {
    let entry = HistorySearchEntry::new("very_long_variable_name = 123".to_string());
    let summary = entry.highlighted_summary(10);

    assert_eq!(strip_ansi(&summary).chars().count(), 10);
    assert_eq!(strip_ansi(&summary), "very_long_");
}

#[test]
fn history_search_highlighted_summary_resets_before_metadata_padding() {
    let mut entry = HistorySearchEntry::new("import os".to_string());
    entry.duration_ns = Some(5_000_000);
    let summary = entry.highlighted_summary(30);

    assert_eq!(strip_ansi(&summary), "import os               5.00ms");
    let reset_index = summary.find("\u{1b}[39m").expect("foreground reset");
    let metadata_index = summary.find("5.00ms").expect("metadata");
    assert!(
        reset_index < metadata_index,
        "metadata should not inherit syntax color: {summary:?}"
    );
}

fn ansi_prefix(line: &str) -> Option<&str> {
    let end = line.find('m')?;
    Some(&line[..=end])
}

#[test]
fn history_search_preview_resets_line_comments() {
    let lines = syntax_highlighted_history_preview("# comment\nx = 1");

    assert_ne!(ansi_prefix(&lines[0]), ansi_prefix(&lines[1]));
}

#[test]
fn search_text_collapses_whitespace() {
    assert_eq!(normalize_history_search_text("  for i in x:\n\t print(i)  "), "for i in x: print(i)");
    let entry = HistorySearchEntry::new("a\nb\n".to_string());
    assert_eq!(entry.first_line, "a");
    assert_eq!(entry.line_count, 2);
    assert_eq!(entry.plain_summary_left(), "a …");
}

#[test]
fn signs_with_hmac_sha256_as_lowercase_hex() {
    let codec = MessageCodec {
        key: b"key".to_vec(),
        username: "u".to_string(),
        session_id: "s".to_string(),
    };
    let parts = vec![
        b"The quick brown fox ".to_vec(),
        b"jumps over the lazy dog".to_vec(),
    ];
    assert_eq!(
        String::from_utf8(codec.sign(&parts)).unwrap(),
        "f7bc83f430538424b13298e6aa6fb143ef4d59a14946175997479dbc2d1a3cd8"
    );
    let unsigned = MessageCodec { key: Vec::new(), username: "u".into(), session_id: "s".into() };
    assert!(unsigned.sign(&parts).is_empty());
}

fn sample_message() -> MessageFrames {
    MessageFrames {
        ids: vec![b"client-a".to_vec(), b"client-b".to_vec()],
        header: br#"{"msg_type":"execute_request"}"#.to_vec(),
        parent_header: b"{}".to_vec(),
        metadata: b"{}".to_vec(),
        content: br#"{"code":"1 + 1"}"#.to_vec(),
        buffers: vec![b"buffer".to_vec()],
    }
}

#[test]
fn round_trips_jupyter_frames_with_ids_and_buffers() {
    let codec = MessageCodec::new("secret".into(), None);
    assert_eq!(codec.username, "fpy");
    assert_eq!(codec.session_id.len(), 36);
    let message = sample_message();
    let frames = codec.encode_frames(&message);
    assert_eq!(frames.len(), 9);
    assert_eq!(frames[2], b"<IDS|MSG>".to_vec());
    let decoded = codec.decode_frames(&frames).expect("decode");

    assert_eq!(decoded.ids, message.ids);
    assert_eq!(decoded.buffers, message.buffers);
    assert_eq!(decoded.header, message.header);
    assert_eq!(decoded.content, message.content);
}

#[test]
fn rejects_messages_with_invalid_signatures() {
    let codec = MessageCodec::new("secret".into(), Some("ada".into()));
    let mut message = sample_message();
    message.ids = Vec::new();
    message.buffers = Vec::new();
    let mut frames = codec.encode_frames(&message);
    frames[5] = br#"{"code":"1 + 2"}"#.to_vec();

    assert_eq!(codec.decode_frames(&frames).err(), Some(CodecError::InvalidSignature));
    frames[1] = vec![0xff, 0xfe];
    assert_eq!(codec.decode_frames(&frames).err(), Some(CodecError::SignatureNotUtf8));
    assert_eq!(
        codec.decode_frames(&vec![b"x".to_vec()]).err(),
        Some(CodecError::MissingDelimiter)
    );
    assert_eq!(
        codec.decode_frames(&vec![b"<IDS|MSG>".to_vec(), b"sig".to_vec()]).err(),
        Some(CodecError::MissingHeaderFrames)
    );
}

#[test]
fn headers_carry_session_identity_and_protocol_version() {
    let codec = MessageCodec::new(String::new(), Some("ada".into()));
    let header = codec.header("kernel_info_request");
    assert_eq!(header.username, "ada");
    assert_eq!(header.session, codec.session_id);
    assert_eq!(header.msg_type, "kernel_info_request");
    assert_eq!(header.version, "5.3");
    assert_eq!(header.msg_id.len(), 36);
    assert_ne!(header.msg_id, codec.header("x").msg_id);
}

#[test]
fn history_up_then_down_comes_back() {
    let mut history = EditorHistory::new();
    for text in ["x = 1", "y = 2", "z = 3"] {
        history.push_history(text.to_string());
    }
    // From a blank buffer: up shows the newest cell, down clears again.
    assert_eq!(history.history_up(), "z = 3");
    assert!(matches!(history.history_down(), HistoryMove::Clear));
    assert_eq!(history.history_position(), None);
    // From the middle cell: up then down lands on it again.
    history.history_up();
    history.history_up();
    assert_eq!(history.history_position(), Some((2, 3)));
    assert_eq!(history.history_up(), "x = 1");
    assert!(matches!(history.history_down(), HistoryMove::Show(ref t) if t == "y = 2"));
    assert_eq!(history.history_position(), Some((2, 3)));
}

#[test]
fn history_timestamps_always_format_as_local_date_and_minute() {
    for ts in [0u64, 1_700_000_000_123_456_789, u64::MAX] {
        let text = format_history_timestamp(ts).expect("every timestamp formats");
        let chars: Vec<char> = text.chars().collect();
        assert_eq!(chars.len(), 14, "{text}");
        assert_eq!(chars[8], ' ');
        assert_eq!(chars[11], ':');
        for (i, c) in chars.iter().enumerate() {
            if i != 8 && i != 11 {
                assert!(c.is_ascii_digit(), "{text}");
            }
        }
    }
}

#[test]
fn message_headers_carry_a_utc_rfc3339_date() {
    let codec = MessageCodec::new("secret".into(), Some("ada".into()));
    let header = codec.header("execute_request");
    assert!(header.date.len() >= 25, "{}", header.date);
    assert!(header.date.ends_with("+00:00"), "{}", header.date);
    assert_eq!(&header.date[4..5], "-");
    assert_eq!(&header.date[10..11], "T");
    assert_eq!(header.msg_type, "execute_request");
    assert_eq!(header.version, "5.3");
}

#[test]
fn history_search_layout_takes_preview_rows_as_u16() {
    assert_eq!(history_search_layout_for_popup(20, 1, 65_536), (1, 0));
    assert_eq!(history_search_layout_for_popup(20, 1, 65_539), (1, 3));
}

#[test]
fn merged_entries_with_equal_keys_keep_their_read_order() {
    let records = vec![
        cell(2, 1, 50, "later"),
        cell(1, 1, 10, "first copy"),
        cell(1, 1, 10, "second copy"),
        cell(1, 1, 10, "third copy"),
    ];
    let merged = merge_history(&records);
    let codes: Vec<&str> = merged.iter().map(|e| e.code.as_str()).collect();
    assert_eq!(codes, vec!["first copy", "second copy", "third copy", "later"]);
}

#[test]
fn formats_history_timestamp_as_local_yyyymmdd_24h_time() {
    assert_eq!(
        format_history_timestamp(1_700_000_000_000_000_000),
        Some(
            chrono::DateTime::<chrono::Utc>::from_timestamp(1_700_000_000, 0)
                .unwrap()
                .with_timezone(&chrono::Local)
                .format("%Y%m%d %H:%M")
                .to_string()
        )
    );
}

/// `YYYYmmdd HH:MM` of `secs` seconds after the epoch, in UTC.
fn utc_minute_text(secs: i64) -> String {
    let days = secs.div_euclid(86_400);
    let in_day = secs.rem_euclid(86_400);
    let z = days + 719_468;
    let era = z.div_euclid(146_097);
    let doe = z - era * 146_097;
    let yoe = (doe - doe / 1460 + doe / 36_524 - doe / 146_096) / 365;
    let doy = doe - (365 * yoe + yoe / 4 - yoe / 100);
    let mp = (5 * doy + 2) / 153;
    let day = doy - (153 * mp + 2) / 5 + 1;
    let month = if mp < 10 { mp + 3 } else { mp - 9 };
    let year = yoe + era * 400 + i64::from(month <= 2);
    format!("{year:04}{month:02}{day:02} {:02}:{:02}", in_day / 3600, (in_day % 3600) / 60)
}

#[test]
fn history_timestamp_is_the_entry_time_moved_by_less_than_a_day() {
    for ts in [0u64, 1_700_000_000_123_456_789, 951_782_400_000_000_000, u64::MAX] {
        let text = format_history_timestamp(ts).expect("every timestamp formats");
        let secs = (ts / 1_000_000_000) as i64;
        assert!(
            (-86_399..=86_399).any(|offset| utc_minute_text(secs + offset) == text),
            "{ts}: {text}"
        );
    }
    assert_eq!(utc_minute_text(1_700_000_000), "20231114 22:13");
    assert_eq!(utc_minute_text(951_782_400), "20000229 00:00");
}
