//! Kernel status and the events the kernel connection reports, the mapping
//! from decoded Jupyter messages to those events, and the diagnostics shown
//! when a local kernel fails.
use vstd::prelude::*;

use crate::chars::{chars_of, extend_chars, extend_str, owned, str_eq, string_from};
use crate::lines::{lines_chars, lines_of, trim, trim_chars};

verus! {

broadcast use vstd::string::group_string_axioms;

/// The kernel's execution state as the frontend tracks it.
#[derive(Debug, Clone, Copy, PartialEq, Eq, Structural)]
pub enum KernelStatus {
    Connecting,
    Idle,
    Busy,
    AwaitingInput,
    Disconnected,
}

/// The output stream a stream message belongs to.
#[derive(Debug, Clone, Copy, PartialEq, Eq, Structural)]
pub enum StreamName {
    Stdout,
    Stderr,
}

/// What the kernel connection reports to the frontend.
#[derive(Debug)]
pub enum KernelEvent {
    Connected(String),
    Status(KernelStatus),
    ExecuteInput { execution_count: Option<u32>, code: String },
    ExecuteResult { execution_count: Option<u32>, text: String },
    Stream { name: String, text: String },
    Error { traceback: Vec<String> },
    InputRequest { prompt: String, password: bool },
    Info(String),
    Warning(String),
    Fatal(String),
}

/// How a local kernel is launched: the interpreter and extra arguments.
#[derive(Debug, Clone)]
pub struct LaunchConfig {
    pub python: String,
    pub kernel_args: Vec<String>,
}

/// The fields of a message's JSON content that the event mapping reads,
/// each as found there: `Some` only where the field is present and has the
/// JSON type the mapping expects (a string, an unsigned integer, a boolean,
/// an array).
#[derive(Debug, Clone)]
pub struct MessageContent {
    /// `banner` (a string).
    pub banner: Option<String>,
    /// `execution_state` (a string).
    pub execution_state: Option<String>,
    /// `execution_count` (an unsigned integer).
    pub execution_count: Option<u64>,
    /// `code` (a string).
    pub code: Option<String>,
    /// `name` (a string).
    pub name: Option<String>,
    /// `text` (a string).
    pub text: Option<String>,
    /// `data["text/plain"]` (a string).
    pub data_text_plain: Option<String>,
    /// `data["text/markdown"]` (a string).
    pub data_text_markdown: Option<String>,
    /// `traceback` (an array); each item `Some` where it is a string.
    pub traceback: Option<Vec<Option<String>>>,
    /// `prompt` (a string).
    pub prompt: Option<String>,
    /// `password` (a boolean).
    pub password: Option<bool>,
}

/// A string field's characters, or `default` where it is absent.
pub open spec fn field_or(field: Option<String>, default: Seq<char>) -> Seq<char> {
    match field {
        Some(s) => s@,
        None => default,
    }
}

/// An execution count that fits in `u32`.
pub open spec fn count_spec(count: Option<u64>) -> Option<u32> {
    match count {
        Some(c) => if c <= u32::MAX { Some(c as u32) } else { None },
        None => None,
    }
}

/// The strings among the traceback items, in order.
pub open spec fn string_items(items: Seq<Option<String>>) -> Seq<Seq<char>>
    decreases items.len(),
{
    if items.len() == 0 {
        Seq::empty()
    } else {
        let rest = string_items(items.drop_last());
        match items.last() {
            Some(s) => rest.push(s@),
            None => rest,
        }
    }
}

/// The traceback lines of an error message.
pub open spec fn traceback_spec(traceback: Option<Vec<Option<String>>>) -> Seq<Seq<char>> {
    match traceback {
        Some(items) => string_items(items@),
        None => Seq::empty(),
    }
}

/// The text of a rich output: plain text first, then markdown.
pub open spec fn text_payload_spec(content: MessageContent) -> Option<Seq<char>> {
    match content.data_text_plain {
        Some(t) => Some(t@),
        None => match content.data_text_markdown {
            Some(t) => Some(t@),
            None => None,
        },
    }
}

/// The character content of the string payloads of an event, for contracts.
pub open spec fn strs(v: Seq<String>) -> Seq<Seq<char>> {
    v.map_values(|s: String| s@)
}

/// The status an IOPub `status` message reports.
pub open spec fn execution_state_spec(state: Option<String>) -> KernelStatus {
    match state {
        Some(s) => if s@ == "busy"@ {
            KernelStatus::Busy
        } else if s@ == "idle"@ {
            KernelStatus::Idle
        } else {
            KernelStatus::Connecting
        },
        None => KernelStatus::Connecting,
    }
}

fn string_or(field: &Option<String>, default: &str) -> (r: String)
    ensures
        r@ == field_or(*field, default@),
{
    match field {
        Some(s) => s.clone(),
        None => owned(default),
    }
}

fn string_or_empty(field: &Option<String>) -> (r: String)
    ensures
        r@ == field_or(*field, Seq::empty()),
{
    match field {
        Some(s) => s.clone(),
        None => String::new(),
    }
}

fn count_of(count: Option<u64>) -> (r: Option<u32>)
    ensures
        r == count_spec(count),
{
    match count {
        Some(c) => if c <= u32::MAX as u64 { Some(c as u32) } else { None },
        None => None,
    }
}

/// The text of a rich output's data: `text/plain` if it is a string, else
/// `text/markdown` if that is, else nothing.
pub fn pick_text_payload(content: &MessageContent) -> (r: Option<String>)
    ensures
        match r {
            Some(t) => text_payload_spec(*content) == Some(t@),
            None => text_payload_spec(*content) is None,
        },
{
    match &content.data_text_plain {
        Some(t) => Some(t.clone()),
        None => match &content.data_text_markdown {
            Some(t) => Some(t.clone()),
            None => None,
        },
    }
}

/// The strings of a traceback array, in order, skipping other items.
pub fn traceback_lines(traceback: &Option<Vec<Option<String>>>) -> (r: Vec<String>)
    ensures
        strs(r@) == traceback_spec(*traceback),
{
    let mut r: Vec<String> = Vec::new();
    match traceback {
        None => {},
        Some(items) => {
            let mut i: usize = 0;
            while i < items.len()
                invariant
                    i <= items.len(),
                    strs(r@) == string_items(items@.take(i as int)),
                decreases items.len() - i,
            {
                let ghost before = r@;
                assert(items@.take(i + 1).drop_last() =~= items@.take(i as int));
                match &items[i] {
                    Some(s) => {
                        r.push(s.clone());
                        assert(strs(r@) =~= strs(before).push(s@));
                    },
                    None => {},
                }
                i += 1;
            }
            assert(items@.take(items.len() as int) =~= items@);
        },
    }
    r
}

/// The events a message on the shell channel produces.
pub open spec fn shell_events_spec(msg_type: Seq<char>, content: MessageContent) -> Seq<EventView> {
    if msg_type == "kernel_info_reply"@ {
        seq![EventView::Info(field_or(content.banner, "connected"@))]
    } else if msg_type == "shutdown_reply"@ {
        seq![EventView::Status(KernelStatus::Disconnected)]
    } else {
        Seq::empty()
    }
}

/// The events a message on the IOPub channel produces.
pub open spec fn iopub_events_spec(msg_type: Seq<char>, content: MessageContent) -> Seq<EventView> {
    if msg_type == "status"@ {
        seq![EventView::Status(execution_state_spec(content.execution_state))]
    } else if msg_type == "execute_input"@ {
        seq![EventView::ExecuteInput {
            execution_count: count_spec(content.execution_count),
            code: field_or(content.code, Seq::empty()),
        }]
    } else if msg_type == "stream"@ {
        seq![EventView::Stream {
            name: field_or(content.name, "stdout"@),
            text: field_or(content.text, Seq::empty()),
        }]
    } else if msg_type == "execute_result"@ || msg_type == "display_data"@
        || msg_type == "update_display_data"@ {
        match text_payload_spec(content) {
            Some(text) => seq![EventView::ExecuteResult {
                execution_count: count_spec(content.execution_count),
                text,
            }],
            None => Seq::empty(),
        }
    } else if msg_type == "error"@ {
        seq![EventView::Error { traceback: traceback_spec(content.traceback) }]
    } else {
        Seq::empty()
    }
}

/// The events a message on the stdin channel produces.
pub open spec fn stdin_events_spec(msg_type: Seq<char>, content: MessageContent) -> Seq<EventView> {
    if msg_type == "input_request"@ {
        seq![EventView::InputRequest {
            prompt: field_or(content.prompt, Seq::empty()),
            password: match content.password { Some(b) => b, None => false },
        }]
    } else {
        Seq::empty()
    }
}

/// A kernel event with its strings taken as character sequences.
pub enum EventView {
    Connected(Seq<char>),
    Status(KernelStatus),
    ExecuteInput { execution_count: Option<u32>, code: Seq<char> },
    ExecuteResult { execution_count: Option<u32>, text: Seq<char> },
    Stream { name: Seq<char>, text: Seq<char> },
    Error { traceback: Seq<Seq<char>> },
    InputRequest { prompt: Seq<char>, password: bool },
    Info(Seq<char>),
    Warning(Seq<char>),
    Fatal(Seq<char>),
}

impl KernelEvent {
    /// The event with its strings as character sequences.
    pub open spec fn view_event(&self) -> EventView {
        match self {
            KernelEvent::Connected(s) => EventView::Connected(s@),
            KernelEvent::Status(s) => EventView::Status(*s),
            KernelEvent::ExecuteInput { execution_count, code } => EventView::ExecuteInput {
                execution_count: *execution_count,
                code: code@,
            },
            KernelEvent::ExecuteResult { execution_count, text } => EventView::ExecuteResult {
                execution_count: *execution_count,
                text: text@,
            },
            KernelEvent::Stream { name, text } => EventView::Stream { name: name@, text: text@ },
            KernelEvent::Error { traceback } => EventView::Error { traceback: strs(traceback@) },
            KernelEvent::InputRequest { prompt, password } => EventView::InputRequest {
                prompt: prompt@,
                password: *password,
            },
            KernelEvent::Info(s) => EventView::Info(s@),
            KernelEvent::Warning(s) => EventView::Warning(s@),
            KernelEvent::Fatal(s) => EventView::Fatal(s@),
        }
    }
}

/// The views of a list of events.
pub open spec fn events_view(v: Seq<KernelEvent>) -> Seq<EventView> {
    v.map_values(|e: KernelEvent| e.view_event())
}

fn single(e: KernelEvent) -> (r: Vec<KernelEvent>)
    ensures
        events_view(r@) == seq![e.view_event()],
{
    let mut r: Vec<KernelEvent> = Vec::new();
    r.push(e);
    assert(events_view(r@) =~= seq![e.view_event()]);
    r
}

/// Maps a decoded shell-channel message to kernel events.
pub fn shell_message_to_events(msg_type: &str, content: &MessageContent) -> (r: Vec<KernelEvent>)
    ensures
        events_view(r@) == shell_events_spec(msg_type@, *content),
{
    if str_eq(msg_type, "kernel_info_reply") {
        single(KernelEvent::Info(string_or(&content.banner, "connected")))
    } else if str_eq(msg_type, "shutdown_reply") {
        single(KernelEvent::Status(KernelStatus::Disconnected))
    } else {
        let r: Vec<KernelEvent> = Vec::new();
        assert(events_view(r@) =~= Seq::<EventView>::empty());
        r
    }
}

/// Maps a decoded IOPub message to kernel events.
pub fn iopub_message_to_events(msg_type: &str, content: &MessageContent) -> (r: Vec<KernelEvent>)
    ensures
        events_view(r@) == iopub_events_spec(msg_type@, *content),
{
    let empty: Vec<KernelEvent> = Vec::new();
    assert(events_view(empty@) =~= Seq::<EventView>::empty());
    if str_eq(msg_type, "status") {
        let status = match &content.execution_state {
            Some(s) => if str_eq(s.as_str(), "busy") {
                KernelStatus::Busy
            } else if str_eq(s.as_str(), "idle") {
                KernelStatus::Idle
            } else {
                KernelStatus::Connecting
            },
            None => KernelStatus::Connecting,
        };
        single(KernelEvent::Status(status))
    } else if str_eq(msg_type, "execute_input") {
        single(KernelEvent::ExecuteInput {
            execution_count: count_of(content.execution_count),
            code: string_or_empty(&content.code),
        })
    } else if str_eq(msg_type, "stream") {
        single(KernelEvent::Stream {
            name: string_or(&content.name, "stdout"),
            text: string_or_empty(&content.text),
        })
    } else if str_eq(msg_type, "execute_result") || str_eq(msg_type, "display_data") || str_eq(
        msg_type,
        "update_display_data",
    ) {
        match pick_text_payload(content) {
            Some(text) => single(
                KernelEvent::ExecuteResult { execution_count: count_of(content.execution_count), text },
            ),
            None => empty,
        }
    } else if str_eq(msg_type, "error") {
        single(KernelEvent::Error { traceback: traceback_lines(&content.traceback) })
    } else {
        empty
    }
}

/// Maps a decoded stdin-channel message to kernel events.
pub fn stdin_message_to_events(msg_type: &str, content: &MessageContent) -> (r: Vec<KernelEvent>)
    ensures
        events_view(r@) == stdin_events_spec(msg_type@, *content),
{
    if str_eq(msg_type, "input_request") {
        single(KernelEvent::InputRequest {
            prompt: string_or_empty(&content.prompt),
            password: match content.password { Some(b) => b, None => false },
        })
    } else {
        let r: Vec<KernelEvent> = Vec::new();
        assert(events_view(r@) =~= Seq::<EventView>::empty());
        r
    }
}

/// Continuation lines of an indented detail: each on a new line, indented
/// by four spaces.
pub open spec fn indent_rest(lines: Seq<Seq<char>>) -> Seq<char>
    decreases lines.len(),
{
    if lines.len() == 0 {
        Seq::empty()
    } else {
        indent_rest(lines.drop_last()) + "\n    "@ + lines.last()
    }
}

/// A detail of a diagnostic: its first line indented by two spaces, the
/// others by four; a detail with no lines is two spaces.
pub open spec fn indent_detail_spec(detail: Seq<char>) -> Seq<char> {
    let ls = lines_of(detail);
    if ls.len() == 0 {
        "  "@
    } else {
        "  "@ + ls[0] + indent_rest(ls.skip(1))
    }
}

/// The details of a diagnostic, each indented on a line of its own.
pub open spec fn details_text(details: Seq<Seq<char>>) -> Seq<char>
    decreases details.len(),
{
    if details.len() == 0 {
        Seq::empty()
    } else {
        details_text(details.drop_last()) + "\n"@ + indent_detail_spec(details.last())
    }
}

/// A diagnostic: the title, then each detail indented below it.
pub open spec fn diagnostic_spec(title: Seq<char>, details: Seq<Seq<char>>) -> Seq<char> {
    title + details_text(details)
}

/// Indents one detail of a diagnostic.
pub fn indent_detail(detail: &str) -> (r: String)
    ensures
        r@ == indent_detail_spec(detail@),
{
    let chars = chars_of(detail);
    let ls = lines_chars(chars.as_slice());
    let mut out: Vec<char> = Vec::new();
    if ls.len() == 0 {
        extend_str(&mut out, "  ");
        return string_from(out.as_slice());
    }
    let ghost all = crate::chars::seqs_of(ls@);
    extend_str(&mut out, "  ");
    extend_chars(&mut out, ls[0].as_slice());
    let ghost head = out@;
    let mut i: usize = 1;
    while i < ls.len()
        invariant
            1 <= i <= ls.len(),
            all == crate::chars::seqs_of(ls@),
            head == "  "@ + all[0],
            out@ == head + indent_rest(all.skip(1).take(i - 1)),
        decreases ls.len() - i,
    {
        extend_str(&mut out, "\n    ");
        extend_chars(&mut out, ls[i].as_slice());
        assert(all.skip(1).take(i as int).drop_last() =~= all.skip(1).take(i - 1));
        assert(all.skip(1).take(i as int).last() == all[i as int]);
        i += 1;
    }
    assert(all.skip(1).take(ls.len() - 1) =~= all.skip(1));
    string_from(out.as_slice())
}

/// Formats a diagnostic: the title and the indented details, one per line.
pub fn format_diagnostic(title: &str, details: &[String]) -> (r: String)
    ensures
        r@ == diagnostic_spec(title@, strs(details@)),
{
    let mut out: Vec<char> = Vec::new();
    extend_str(&mut out, title);
    let mut i: usize = 0;
    while i < details.len()
        invariant
            i <= details.len(),
            out@ == title@ + details_text(strs(details@).take(i as int)),
        decreases details.len() - i,
    {
        extend_str(&mut out, "\n");
        let d = indent_detail(details[i].as_str());
        extend_str(&mut out, d.as_str());
        assert(strs(details@).take(i + 1).drop_last() =~= strs(details@).take(i as int));
        i += 1;
    }
    assert(strs(details@).take(details.len() as int) =~= strs(details@));
    string_from(out.as_slice())
}

/// The startup log excerpt worth showing: the log trimmed, if anything is
/// left.
pub open spec fn log_excerpt_spec(contents: Option<String>) -> Option<Seq<char>> {
    match contents {
        Some(c) => if trim(c@).len() == 0 { None } else { Some(trim(c@)) },
        None => None,
    }
}

/// The kernel's stderr log, trimmed, or nothing where it could not be read
/// or holds only whitespace.
pub fn log_excerpt(contents: &Option<String>) -> (r: Option<String>)
    ensures
        match r {
            Some(t) => log_excerpt_spec(*contents) == Some(t@),
            None => log_excerpt_spec(*contents) is None,
        },
{
    match contents {
        None => None,
        Some(c) => {
            let chars = chars_of(c.as_str());
            let t = trim_chars(chars.as_slice());
            if t.len() == 0 { None } else { Some(string_from(t.as_slice())) }
        },
    }
}

fn labelled(label: &str, value: &str) -> (r: String)
    ensures
        r@ == label@ + value@,
{
    let mut out: Vec<char> = Vec::new();
    extend_str(&mut out, label);
    extend_str(&mut out, value);
    string_from(out.as_slice())
}

/// The details that follow a failed start: the connection file error, then
/// the kernel's stderr.
pub open spec fn startup_context_spec(parse_error: Option<String>, log: Option<String>) -> Seq<Seq<char>> {
    let a: Seq<Seq<char>> = match parse_error {
        Some(e) => seq!["Connection file: "@ + e@],
        None => Seq::empty(),
    };
    match log_excerpt_spec(log) {
        Some(t) => a.push("Kernel stderr:\n"@ + t),
        None => a,
    }
}

/// Appends the startup context to the details of a diagnostic.
pub fn append_startup_context(details: &mut Vec<String>, parse_error: &Option<String>, log: &Option<String>)
    ensures
        strs(final(details)@) == strs(old(details)@) + startup_context_spec(*parse_error, *log),
{
    let ghost start = strs(details@);
    match parse_error {
        Some(e) => {
            details.push(labelled("Connection file: ", e.as_str()));
            assert(strs(details@) =~= start + seq!["Connection file: "@ + e@]);
        },
        None => {
            assert(strs(details@) =~= start + Seq::<Seq<char>>::empty());
        },
    }
    let ghost mid = strs(details@);
    match log_excerpt(log) {
        Some(t) => {
            details.push(labelled("Kernel stderr:\n", t.as_str()));
            assert(strs(details@) =~= mid.push("Kernel stderr:\n"@ + t@));
        },
        None => {},
    }
}

/// The message when a local kernel exits before its connection file could
/// be read.
pub open spec fn startup_failure_spec(python: Seq<char>, status: Seq<char>, parse_error: Option<String>, log: Option<String>) -> Seq<char> {
    diagnostic_spec(
        "Kernel startup failed"@,
        seq!["Python: "@ + python, "Status: "@ + status] + startup_context_spec(parse_error, log),
    )
}

/// The message when a local kernel does not write its connection file in
/// time.
pub open spec fn startup_timeout_spec(python: Seq<char>, parse_error: Option<String>, log: Option<String>) -> Seq<char> {
    diagnostic_spec(
        "Kernel startup timed out"@,
        seq!["Python: "@ + python, "Reason: timed out waiting for the connection file"@]
            + startup_context_spec(parse_error, log),
    )
}

/// The message when a running local kernel exits.
pub open spec fn local_exit_spec(python: Seq<char>, status: Seq<char>, log: Option<String>) -> Seq<char> {
    diagnostic_spec(
        "Kernel exited unexpectedly"@,
        seq!["Python: "@ + python, "Status: "@ + status] + match log_excerpt_spec(log) {
            Some(t) => seq!["Kernel stderr:\n"@ + t],
            None => Seq::empty(),
        },
    )
}

/// Diagnostic for a kernel that exited during startup; `status` is the exit
/// status as text, `log` the contents of its stderr log where it could be
/// read.
pub fn startup_failure_message(python: &str, status: &str, parse_error: &Option<String>, log: &Option<String>) -> (r: String)
    ensures
        r@ == startup_failure_spec(python@, status@, *parse_error, *log),
{
    let mut details: Vec<String> = Vec::new();
    details.push(labelled("Python: ", python));
    details.push(labelled("Status: ", status));
    assert(strs(details@) =~= seq!["Python: "@ + python@, "Status: "@ + status@]);
    append_startup_context(&mut details, parse_error, log);
    format_diagnostic("Kernel startup failed", details.as_slice())
}

/// Diagnostic for a kernel whose connection file did not appear in time.
pub fn startup_timeout_message(python: &str, parse_error: &Option<String>, log: &Option<String>) -> (r: String)
    ensures
        r@ == startup_timeout_spec(python@, *parse_error, *log),
{
    let mut details: Vec<String> = Vec::new();
    details.push(labelled("Python: ", python));
    details.push(owned("Reason: timed out waiting for the connection file"));
    assert(strs(details@) =~= seq!["Python: "@ + python@, "Reason: timed out waiting for the connection file"@]);
    append_startup_context(&mut details, parse_error, log);
    format_diagnostic("Kernel startup timed out", details.as_slice())
}

/// Diagnostic for a running kernel that exited.
pub fn local_exit_message(python: &str, status: &str, log: &Option<String>) -> (r: String)
    ensures
        r@ == local_exit_spec(python@, status@, *log),
{
    let mut details: Vec<String> = Vec::new();
    details.push(labelled("Python: ", python));
    details.push(labelled("Status: ", status));
    let ghost first = strs(details@);
    assert(first =~= seq!["Python: "@ + python@, "Status: "@ + status@]);
    match log_excerpt(log) {
        Some(t) => {
            details.push(labelled("Kernel stderr:\n", t.as_str()));
            assert(strs(details@) =~= first + seq!["Kernel stderr:\n"@ + t@]);
        },
        None => {
            assert(strs(details@) =~= first + Seq::<Seq<char>>::empty());
        },
    }
    format_diagnostic("Kernel exited unexpectedly", details.as_slice())
}

/// A rich output (`execute_result`, `display_data` or `update_display_data`)
/// that carries a `text/plain` payload, or else a `text/markdown` one, yields
/// exactly one result event with that text and the message's execution count
/// (where it fits in `u32`); one with neither payload yields no event.
pub proof fn law_rich_output_yields_one_result(msg_type: Seq<char>, content: MessageContent)
    requires
        msg_type == "execute_result"@ || msg_type == "display_data"@
            || msg_type == "update_display_data"@,
    ensures
        ({
            let count: Option<u32> = match content.execution_count {
                Some(c) => if c <= u32::MAX { Some(c as u32) } else { None },
                None => None,
            };
            &&& content.data_text_plain is Some ==> iopub_events_spec(msg_type, content) == seq![
                EventView::ExecuteResult { execution_count: count, text: content.data_text_plain->0@ },
            ]
            &&& content.data_text_plain is None && content.data_text_markdown is Some
                ==> iopub_events_spec(msg_type, content) == seq![
                EventView::ExecuteResult { execution_count: count, text: content.data_text_markdown->0@ },
            ]
            &&& content.data_text_plain is None && content.data_text_markdown is None
                ==> iopub_events_spec(msg_type, content) == Seq::<EventView>::empty()
        }),
{
    reveal_strlit("status");
    reveal_strlit("execute_input");
    reveal_strlit("stream");
    reveal_strlit("execute_result");
    reveal_strlit("display_data");
    reveal_strlit("update_display_data");
    assert(msg_type != "status"@ && msg_type != "execute_input"@ && msg_type != "stream"@) by {
        if msg_type == "execute_result"@ {
            assert(msg_type.len() != 6 && msg_type.len() != 13);
        } else if msg_type == "display_data"@ {
            assert(msg_type[0] != 's' && msg_type.len() != 13);
        } else {
            assert(msg_type.len() != 6 && msg_type.len() != 13);
        }
    }
}

/// A `stream` message yields one stream event with the message's name
/// (`stdout` where it has none) and its text; a `status` message reports
/// busy for `busy` and idle for `idle`; an `execute_input` message echoes its
/// code; and a message of any type the frontend does not know yields nothing.
pub proof fn law_iopub_messages(msg_type: Seq<char>, content: MessageContent)
    ensures
        content.name is Some && content.text is Some ==> iopub_events_spec("stream"@, content) == seq![
            EventView::Stream { name: content.name->0@, text: content.text->0@ },
        ],
        content.name is None && content.text is Some ==> iopub_events_spec("stream"@, content) == seq![
            EventView::Stream { name: "stdout"@, text: content.text->0@ },
        ],
        content.execution_state is Some && content.execution_state->0@ == "busy"@
            ==> iopub_events_spec("status"@, content) == seq![EventView::Status(KernelStatus::Busy)],
        content.execution_state is Some && content.execution_state->0@ == "idle"@
            ==> iopub_events_spec("status"@, content) == seq![EventView::Status(KernelStatus::Idle)],
        content.code is Some ==> iopub_events_spec("execute_input"@, content) == seq![
            EventView::ExecuteInput {
                execution_count: if content.execution_count is Some && content.execution_count->0 <= u32::MAX {
                    Some(content.execution_count->0 as u32)
                } else {
                    None
                },
                code: content.code->0@,
            },
        ],
        msg_type != "status"@ && msg_type != "execute_input"@ && msg_type != "stream"@
            && msg_type != "execute_result"@ && msg_type != "display_data"@
            && msg_type != "update_display_data"@ && msg_type != "error"@
            ==> iopub_events_spec(msg_type, content) == Seq::<EventView>::empty(),
{
    reveal_strlit("status");
    reveal_strlit("execute_input");
    reveal_strlit("stream");
    reveal_strlit("busy");
    reveal_strlit("idle");
    assert("execute_input"@ != "status"@ && "stream"@ != "status"@ && "stream"@ != "execute_input"@) by {
        assert("execute_input"@.len() != "status"@.len());
        assert("stream"@[2] != "status"@[2]);
        assert("stream"@.len() != "execute_input"@.len());
    }
    assert("busy"@ != "idle"@) by {
        assert("busy"@[0] != "idle"@[0]);
    }
}

/// The shell channel's `kernel_info_reply` reports the kernel's banner (or
/// `connected` without one), `shutdown_reply` reports the kernel gone, and
/// every other reply yields nothing.
pub proof fn law_shell_replies(msg_type: Seq<char>, content: MessageContent)
    ensures
        content.banner is Some ==> shell_events_spec("kernel_info_reply"@, content)
            == seq![EventView::Info(content.banner->0@)],
        content.banner is None ==> shell_events_spec("kernel_info_reply"@, content)
            == seq![EventView::Info("connected"@)],
        shell_events_spec("shutdown_reply"@, content) == seq![EventView::Status(KernelStatus::Disconnected)],
        msg_type != "kernel_info_reply"@ && msg_type != "shutdown_reply"@
            ==> shell_events_spec(msg_type, content) == Seq::<EventView>::empty(),
{
    reveal_strlit("kernel_info_reply");
    reveal_strlit("shutdown_reply");
    assert("kernel_info_reply"@ != "shutdown_reply"@) by {
        assert("kernel_info_reply"@[0] != "shutdown_reply"@[0]);
    }
}

} // verus!
