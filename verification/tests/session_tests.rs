use fpy::connection::{default_signature_scheme, Channel, ConnectionFile};
use fpy::frontend_magic::{
    parse_frontend_magic, resolve_error_message, CellOutputCapture, FrontendMagic,
    FrontendMagicParse, OutputCaptureStore, OutputTarget, ResolveOutputError,
};
use fpy::kernel::{
    format_diagnostic, indent_detail, iopub_message_to_events, local_exit_message,
    pick_text_payload, shell_message_to_events, startup_failure_message, startup_timeout_message,
    stdin_message_to_events, KernelEvent, KernelStatus, MessageContent, StreamName,
};

fn sample_connection() -> ConnectionFile {
    ConnectionFile {
        ip: "127.0.0.1".into(),
        transport: "tcp".into(),
        shell_port: 1,
        iopub_port: 2,
        stdin_port: 3,
        control_port: 4,
        hb_port: 5,
        key: "secret".into(),
        signature_scheme: "hmac-sha256".into(),
        kernel_name: String::new(),
    }
}

#[test]
fn builds_channel_endpoints_for_each_socket() {
    let connection = sample_connection();

    assert_eq!(connection.endpoint(Channel::Shell), "tcp://127.0.0.1:1");
    assert_eq!(connection.endpoint(Channel::Iopub), "tcp://127.0.0.1:2");
    assert_eq!(connection.endpoint(Channel::Stdin), "tcp://127.0.0.1:3");
    assert_eq!(connection.endpoint(Channel::Control), "tcp://127.0.0.1:4");
    assert_eq!(connection.endpoint(Channel::Heartbeat), "tcp://127.0.0.1:5");
}

#[test]
fn summarizes_transport_and_ports() {
    let summary = sample_connection().summary();
    assert_eq!(
        summary,
        "transport=tcp ip=127.0.0.1 shell=1 iopub=2 stdin=3 control=4 hb=5"
    );
}

#[test]
fn endpoint_uses_full_port_range() {
    let mut connection = sample_connection();
    connection.transport = "ipc".into();
    connection.ip = "/tmp/kernel".into();
    connection.hb_port = 65535;
    connection.shell_port = 0;
    assert_eq!(connection.endpoint(Channel::Heartbeat), "ipc:///tmp/kernel:65535");
    assert_eq!(connection.endpoint(Channel::Shell), "ipc:///tmp/kernel:0");
}

#[test]
fn default_signature_scheme_is_hmac_sha256() {
    assert_eq!(default_signature_scheme(), "hmac-sha256");
}

fn empty_content() -> MessageContent {
    MessageContent {
        banner: None,
        execution_state: None,
        execution_count: None,
        code: None,
        name: None,
        text: None,
        data_text_plain: None,
        data_text_markdown: None,
        traceback: None,
        prompt: None,
        password: None,
    }
}

#[test]
fn maps_status_messages_to_kernel_status() {
    let mut content = empty_content();
    content.execution_state = Some("busy".into());
    let events = iopub_message_to_events("status", &content);
    assert!(matches!(events.as_slice(), [KernelEvent::Status(KernelStatus::Busy)]));

    content.execution_state = Some("idle".into());
    let events = iopub_message_to_events("status", &content);
    assert!(matches!(events.as_slice(), [KernelEvent::Status(KernelStatus::Idle)]));

    content.execution_state = Some("starting".into());
    let events = iopub_message_to_events("status", &content);
    assert!(matches!(events.as_slice(), [KernelEvent::Status(KernelStatus::Connecting)]));
}

#[test]
fn maps_markdown_display_payloads_to_execute_results() {
    let mut content = empty_content();
    content.data_text_markdown = Some("**hi**".into());
    content.execution_count = Some(7);
    let events = iopub_message_to_events("display_data", &content);

    match events.as_slice() {
        [KernelEvent::ExecuteResult { execution_count, text }] => {
            assert_eq!(*execution_count, Some(7));
            assert_eq!(text, "**hi**");
        }
        _ => panic!("unexpected events: {events:?}"),
    }
}

#[test]
fn maps_stdin_requests_to_input_events() {
    let mut content = empty_content();
    content.prompt = Some("Name: ".into());
    content.password = Some(true);
    let events = stdin_message_to_events("input_request", &content);

    match events.as_slice() {
        [KernelEvent::InputRequest { prompt, password }] => {
            assert_eq!(prompt, "Name: ");
            assert!(*password);
        }
        _ => panic!("unexpected events: {events:?}"),
    }
}

#[test]
fn maps_shutdown_reply_to_disconnected_status() {
    let events = shell_message_to_events("shutdown_reply", &empty_content());
    assert!(matches!(
        events.as_slice(),
        [KernelEvent::Status(KernelStatus::Disconnected)]
    ));
}

#[test]
fn kernel_info_reply_falls_back_to_connected_banner() {
    let events = shell_message_to_events("kernel_info_reply", &empty_content());
    match events.as_slice() {
        [KernelEvent::Info(text)] => assert_eq!(text, "connected"),
        _ => panic!("unexpected events: {events:?}"),
    }
    assert!(shell_message_to_events("execute_reply", &empty_content()).is_empty());
}

#[test]
fn stream_and_error_messages_keep_their_text() {
    let mut content = empty_content();
    content.text = Some("out\n".into());
    match iopub_message_to_events("stream", &content).as_slice() {
        [KernelEvent::Stream { name, text }] => {
            assert_eq!(name, "stdout");
            assert_eq!(text, "out\n");
        }
        other => panic!("unexpected events: {other:?}"),
    }

    let mut content = empty_content();
    content.traceback = Some(vec![Some("line 1".into()), None, Some("line 2".into())]);
    match iopub_message_to_events("error", &content).as_slice() {
        [KernelEvent::Error { traceback }] => assert_eq!(traceback, &vec!["line 1", "line 2"]),
        other => panic!("unexpected events: {other:?}"),
    }

    let mut content = empty_content();
    content.execution_count = Some(u64::from(u32::MAX) + 1);
    content.code = Some("x".into());
    match iopub_message_to_events("execute_input", &content).as_slice() {
        [KernelEvent::ExecuteInput { execution_count, code }] => {
            assert_eq!(*execution_count, None);
            assert_eq!(code, "x");
        }
        other => panic!("unexpected events: {other:?}"),
    }
    assert!(iopub_message_to_events("execute_result", &empty_content()).is_empty());
    assert!(iopub_message_to_events("comm_msg", &empty_content()).is_empty());
}

#[test]
fn kernel_prefers_plain_text_payloads() {
    let mut content = empty_content();
    content.data_text_plain = Some("hello".into());
    content.data_text_markdown = Some("**hello**".into());
    assert_eq!(pick_text_payload(&content).as_deref(), Some("hello"));
}

#[test]
fn mod_prefers_plain_text_payloads() {
    let mut content = empty_content();
    content.data_text_plain = Some("hello".into());
    assert_eq!(pick_text_payload(&content).as_deref(), Some("hello"));
    assert_eq!(pick_text_payload(&empty_content()), None);
}

#[test]
fn formats_diagnostics_with_indented_details() {
    let details = vec!["Python: python3".to_string(), "Kernel stderr:\nline one\nline two".to_string()];
    assert_eq!(
        format_diagnostic("Kernel startup failed", &details),
        "Kernel startup failed\n  Python: python3\n  Kernel stderr:\n    line one\n    line two"
    );
    assert_eq!(indent_detail(""), "  ");
}

#[test]
fn kernel_appends_startup_log_output_to_errors() {
    let message = startup_failure_message(
        "python3",
        "exit status: 1",
        &None,
        &Some("  No module named ipykernel\n".to_string()),
    );
    assert!(message.contains("No module named ipykernel"));
    assert_eq!(
        message,
        "Kernel startup failed\n  Python: python3\n  Status: exit status: 1\n  Kernel stderr:\n    No module named ipykernel"
    );
}

#[test]
fn mod_appends_startup_log_output_to_errors() {
    let message = startup_timeout_message(
        "python3",
        &Some("missing field `ip`".to_string()),
        &Some("No module named ipykernel".to_string()),
    );
    assert!(message.contains("No module named ipykernel"));
    assert!(message.contains("Reason: timed out waiting for the connection file"));
    assert!(message.contains("Connection file: missing field `ip`"));
}

#[test]
fn includes_stderr_in_local_exit_message() {
    let message = local_exit_message(
        "python3",
        "exit status: 139",
        &Some("Segmentation fault: 11".to_string()),
    );
    assert!(message.contains("Kernel exited unexpectedly"));
    assert!(message.contains("Status:"));
    assert!(message.contains("Segmentation fault: 11"));
    let quiet = local_exit_message("python3", "exit status: 0", &Some("   \n".to_string()));
    assert_eq!(quiet, "Kernel exited unexpectedly\n  Python: python3\n  Status: exit status: 0");
}

#[test]
fn parser_accepts_output_magics() {
    assert_eq!(
        parse_frontend_magic("%fpy_out"),
        FrontendMagicParse::Magic(FrontendMagic::PrintOutput {
            target: OutputTarget::Previous,
        })
    );
    assert_eq!(
        parse_frontend_magic("  %fpy_out 3  "),
        FrontendMagicParse::Magic(FrontendMagic::PrintOutput {
            target: OutputTarget::ExecutionCount(3),
        })
    );
    assert_eq!(
        parse_frontend_magic("%fpy_out -1"),
        FrontendMagicParse::Magic(FrontendMagic::PrintOutput {
            target: OutputTarget::RelativePrevious(1),
        })
    );
    assert_eq!(
        parse_frontend_magic("%fpy_clipout"),
        FrontendMagicParse::Magic(FrontendMagic::ClipOutput {
            target: OutputTarget::Previous,
        })
    );
}

#[test]
fn parser_ignores_multiline_and_unknown_magics() {
    assert_eq!(
        parse_frontend_magic("%fpy_out\nprint('x')"),
        FrontendMagicParse::NotFrontendMagic
    );
    assert_eq!(
        parse_frontend_magic("%time print('x')"),
        FrontendMagicParse::NotFrontendMagic
    );
    assert_eq!(parse_frontend_magic("x = 1"), FrontendMagicParse::NotFrontendMagic);
}

#[test]
fn parser_reports_invalid_frontend_magic_arguments() {
    assert!(matches!(
        parse_frontend_magic("%fpy_out abc"),
        FrontendMagicParse::Error(_)
    ));
    assert!(matches!(
        parse_frontend_magic("%fpy_clipout 1 2"),
        FrontendMagicParse::Error(_)
    ));
    assert!(matches!(
        parse_frontend_magic("%fpy_out 0"),
        FrontendMagicParse::Error(_)
    ));
}

#[test]
fn capture_store_records_stdout_stream_for_execution_count() {
    let mut store = OutputCaptureStore::default();
    store.begin_cell(Some(1), "print('hello')");
    store.append_stream(StreamName::Stdout, "hello\n");

    assert_eq!(
        store.cells,
        vec![CellOutputCapture {
            execution_count: 1,
            code: "print('hello')".to_string(),
            output: "hello\n".to_string(),
        }]
    );
}

#[test]
fn capture_store_appends_multiple_stdout_stream_chunks() {
    let mut store = OutputCaptureStore::default();
    store.begin_cell(Some(1), "print('hello')");
    store.append_stream(StreamName::Stdout, "hel");
    store.append_stream(StreamName::Stdout, "lo\n");

    assert_eq!(
        store.resolve_output(OutputTarget::Previous).expect("output").output,
        "hello\n"
    );
}

#[test]
fn capture_store_records_execute_result_text() {
    let mut store = OutputCaptureStore::default();
    store.begin_cell(Some(1), "1");
    store.append_execute_result(Some(1), "1");

    assert_eq!(
        store.resolve_output(OutputTarget::Previous).expect("result").output,
        "1"
    );
}

#[test]
fn capture_store_combines_stdout_stream_and_execute_result_text() {
    let mut store = OutputCaptureStore::default();
    store.begin_cell(Some(1), "print('hello')\n2");
    store.append_stream(StreamName::Stdout, "hello\n");
    store.append_execute_result(Some(1), "2");

    assert_eq!(
        store
            .resolve_output(OutputTarget::Previous)
            .expect("combined output")
            .output,
        "hello\n2"
    );
}

#[test]
fn capture_store_ignores_stderr() {
    let mut store = OutputCaptureStore::default();
    store.begin_cell(Some(1), "import sys");
    store.append_stream(StreamName::Stderr, "error\n");

    assert_eq!(
        store.resolve_output(OutputTarget::Previous),
        Err(ResolveOutputError::EmptyOutput(1))
    );
}

#[test]
fn capture_store_resolves_positive_and_negative_targets() {
    let mut store = OutputCaptureStore::default();
    store.begin_cell(Some(1), "print('one')");
    store.append_stream(StreamName::Stdout, "one\n");
    store.finish_active();
    store.begin_cell(Some(2), "print('two')");
    store.append_stream(StreamName::Stdout, "two\n");

    assert_eq!(
        store
            .resolve_output(OutputTarget::ExecutionCount(1))
            .expect("count")
            .output,
        "one\n"
    );
    assert_eq!(
        store
            .resolve_output(OutputTarget::RelativePrevious(2))
            .expect("relative")
            .output,
        "one\n"
    );
}

#[test]
fn duplicate_execution_count_resolves_to_most_recent_capture() {
    let mut store = OutputCaptureStore::default();
    store.begin_cell(Some(1), "print('old')");
    store.append_stream(StreamName::Stdout, "old\n");
    store.finish_active();
    store.begin_cell(Some(1), "print('new')");
    store.append_stream(StreamName::Stdout, "new\n");

    assert_eq!(
        store
            .resolve_output(OutputTarget::ExecutionCount(1))
            .expect("count")
            .output,
        "new\n"
    );
}

#[test]
fn empty_output_is_distinguishable_from_missing_cell() {
    let mut store = OutputCaptureStore::default();
    assert_eq!(
        store.resolve_output(OutputTarget::Previous),
        Err(ResolveOutputError::MissingPrevious)
    );

    store.begin_cell(Some(12), "1 + 1");
    assert_eq!(
        store.resolve_output(OutputTarget::ExecutionCount(12)),
        Err(ResolveOutputError::EmptyOutput(12))
    );
    assert_eq!(
        store.resolve_output(OutputTarget::ExecutionCount(13)),
        Err(ResolveOutputError::MissingExecutionCount(13))
    );
    assert_eq!(
        resolve_error_message(ResolveOutputError::EmptyOutput(12)),
        "fpy: In [12] produced no captured output"
    );
}
