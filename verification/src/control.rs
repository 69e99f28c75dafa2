//! The application's decisions between the kernel and the interface: what
//! each kernel event does to the run timer, the pending history entry and
//! the screen, and what an action taken before the kernel is ready gets.
//! The application performs the effects in order.
use vstd::prelude::*;

use crate::chars::{chars_of, decimal, extend_str, owned, push_decimal, string_from, strs_of};
use crate::extensions::find;
use crate::history::HistoryOutcome;
use crate::kernel::{EventView, KernelEvent, KernelStatus};
use crate::ui::UiAction;

verus! {

broadcast use vstd::string::group_string_axioms;

/// When the running cell started, in nanoseconds of a monotonic clock.
#[derive(Debug, Clone, Copy, Default)]
pub struct ExecutionTimer {
    pub started_at_ns: Option<u64>,
}

impl ExecutionTimer {
    pub fn new() -> (r: Self)
        ensures
            r.started_at_ns is None,
    {
        ExecutionTimer { started_at_ns: None }
    }

    /// Starts timing at `now_ns`.
    pub fn start(&mut self, now_ns: u64)
        ensures
            final(self).started_at_ns == Some(now_ns),
    {
        self.started_at_ns = Some(now_ns);
    }

    /// Stops timing: the time since the start (zero if the clock went
    /// back), once; nothing where not started.
    pub fn finish(&mut self, now_ns: u64) -> (r: Option<u64>)
        ensures
            final(self).started_at_ns is None,
            match old(self).started_at_ns {
                Some(s) => r == Some(if now_ns >= s { (now_ns - s) as u64 } else { 0u64 }),
                None => r is None,
            },
    {
        match self.started_at_ns.take() {
            Some(s) => Some(if now_ns >= s { now_ns - s } else { 0 }),
            None => None,
        }
    }

    /// Forgets a pending run.
    pub fn clear(&mut self)
        ensures
            final(self).started_at_ns is None,
    {
        self.started_at_ns = None;
    }
}

/// A submitted cell waiting for its run to end: its record in the history
/// file (where history is on), its index among the interface's entries,
/// and its outcome so far.
#[derive(Debug, Clone, Copy)]
pub struct PendingHistoryEntry {
    pub entry_seq: Option<u64>,
    pub ui_history_index: usize,
    pub outcome: HistoryOutcome,
}

/// What the application does in response to a kernel event.
#[derive(Debug)]
pub enum Effect {
    SetConnectionSummary(String),
    SetStatus(KernelStatus),
    /// Append a `cell_done` record for the entry.
    PersistDone { entry_seq: u64, duration_ns: u64, outcome: HistoryOutcome },
    /// Give the interface's entry its run time and outcome.
    RecordCompletion { ui_history_index: usize, duration_ns: u64, outcome: HistoryOutcome },
    /// Show the run time of the finished cell.
    InsertRuntime(u64),
    SetLastExecutionCount(Option<u32>),
    InsertExecuteInput { execution_count: Option<u32>, code: String },
    InsertTranscript(String),
    ClearInputRequest,
    BeginInputRequest { prompt: String, password: bool },
}

/// An effect with its strings as characters.
pub enum EffectView {
    SetConnectionSummary(Seq<char>),
    SetStatus(KernelStatus),
    PersistDone { entry_seq: u64, duration_ns: u64, outcome: HistoryOutcome },
    RecordCompletion { ui_history_index: usize, duration_ns: u64, outcome: HistoryOutcome },
    InsertRuntime(u64),
    SetLastExecutionCount(Option<u32>),
    InsertExecuteInput { execution_count: Option<u32>, code: Seq<char> },
    InsertTranscript(Seq<char>),
    ClearInputRequest,
    BeginInputRequest { prompt: Seq<char>, password: bool },
}

impl Effect {
    pub open spec fn view_effect(&self) -> EffectView {
        match self {
            Effect::SetConnectionSummary(s) => EffectView::SetConnectionSummary(s@),
            Effect::SetStatus(s) => EffectView::SetStatus(*s),
            Effect::PersistDone { entry_seq, duration_ns, outcome } => EffectView::PersistDone {
                entry_seq: *entry_seq,
                duration_ns: *duration_ns,
                outcome: *outcome,
            },
            Effect::RecordCompletion { ui_history_index, duration_ns, outcome } => EffectView::RecordCompletion {
                ui_history_index: *ui_history_index,
                duration_ns: *duration_ns,
                outcome: *outcome,
            },
            Effect::InsertRuntime(d) => EffectView::InsertRuntime(*d),
            Effect::SetLastExecutionCount(c) => EffectView::SetLastExecutionCount(*c),
            Effect::InsertExecuteInput { execution_count, code } => EffectView::InsertExecuteInput {
                execution_count: *execution_count,
                code: code@,
            },
            Effect::InsertTranscript(s) => EffectView::InsertTranscript(s@),
            Effect::ClearInputRequest => EffectView::ClearInputRequest,
            Effect::BeginInputRequest { prompt, password } => EffectView::BeginInputRequest {
                prompt: prompt@,
                password: *password,
            },
        }
    }
}

pub open spec fn effects_view(v: Seq<Effect>) -> Seq<EffectView> {
    v.map_values(|e: Effect| e.view_effect())
}

/// The state the application keeps between kernel events.
#[derive(Debug)]
pub struct SessionControl {
    pub timer: ExecutionTimer,
    pub pending_history: Option<PendingHistoryEntry>,
}

/// The transcript line of a result: `Out[n]: text`, or `Out[?]: text`.
pub open spec fn result_line_spec(execution_count: Option<u32>, text: Seq<char>) -> Seq<char> {
    match execution_count {
        Some(c) => "Out["@ + decimal(c as nat) + "]: "@ + text,
        None => "Out[?]: "@ + text,
    }
}

/// The transcript text of a stream: stderr is marked.
pub open spec fn stream_line_spec(name: Seq<char>, text: Seq<char>) -> Seq<char> {
    if name == "stderr"@ { "stderr: "@ + text } else { text }
}

/// The lines joined with `'\n'`.
pub open spec fn joined(lines: Seq<Seq<char>>) -> Seq<char> {
    crate::extensions::join_lines(lines)
}

/// A traceback that reports a keyboard interrupt ends the cell as
/// interrupted; any other as an error.
pub open spec fn traceback_outcome_spec(traceback: Seq<Seq<char>>) -> HistoryOutcome {
    if exists|i: int| 0 <= i < traceback.len() && find(#[trigger] traceback[i], "KeyboardInterrupt"@) >= 0 {
        HistoryOutcome::Interrupted
    } else {
        HistoryOutcome::Error
    }
}

/// The effects of a kernel event and whether the session ends, given the
/// state before it and the run time the timer gives where it is stopped.
pub open spec fn event_effects(state: SessionControl, event: EventView, now_ns: u64) -> Seq<EffectView> {
    match event {
        EventView::Connected(s) => seq![EffectView::SetConnectionSummary(s)],
        EventView::Status(status) => {
            let set = seq![EffectView::SetStatus(status)];
            if status == KernelStatus::Idle {
                match state.timer.started_at_ns {
                    Some(s) => {
                        let d: u64 = if now_ns >= s { (now_ns - s) as u64 } else { 0 };
                        let done = match state.pending_history {
                            Some(p) => {
                                let persist = match p.entry_seq {
                                    Some(seq) => seq![EffectView::PersistDone { entry_seq: seq, duration_ns: d, outcome: p.outcome }],
                                    None => Seq::empty(),
                                };
                                persist + seq![EffectView::RecordCompletion { ui_history_index: p.ui_history_index, duration_ns: d, outcome: p.outcome }]
                            },
                            None => Seq::empty(),
                        };
                        set + done + seq![EffectView::InsertRuntime(d)]
                    },
                    None => set,
                }
            } else {
                set
            }
        },
        EventView::ExecuteInput { execution_count, code } => seq![
            EffectView::SetLastExecutionCount(execution_count),
            EffectView::InsertExecuteInput { execution_count, code },
        ],
        EventView::ExecuteResult { execution_count, text } => seq![
            EffectView::SetLastExecutionCount(execution_count),
            EffectView::InsertTranscript(result_line_spec(execution_count, text)),
        ],
        EventView::Stream { name, text } => seq![EffectView::InsertTranscript(stream_line_spec(name, text))],
        EventView::Error { traceback } => seq![EffectView::ClearInputRequest, EffectView::InsertTranscript(joined(traceback))],
        EventView::InputRequest { prompt, password } => seq![EffectView::BeginInputRequest { prompt, password }],
        EventView::Info(text) => seq![EffectView::ClearInputRequest, EffectView::InsertTranscript(text)],
        EventView::Warning(text) => seq![EffectView::InsertTranscript("warning: "@ + text)],
        EventView::Fatal(text) => seq![
            EffectView::SetStatus(KernelStatus::Disconnected),
            EffectView::InsertTranscript("fatal: "@ + text),
        ],
    }
}

/// Whether a kernel event ends the session: a disconnect or a fatal error.
pub open spec fn event_ends_session(event: EventView) -> bool {
    match event {
        EventView::Status(s) => s == KernelStatus::Disconnected,
        EventView::Fatal(_) => true,
        _ => false,
    }
}

fn push_effect(v: &mut Vec<Effect>, e: Effect)
    ensures
        effects_view(final(v)@) == effects_view(old(v)@).push(e.view_effect()),
{
    let ghost before = effects_view(v@);
    v.push(e);
    assert(effects_view(v@) =~= before.push(e.view_effect()));
}

fn concat_text(a: &str, b: &str) -> (r: String)
    ensures
        r@ == a@ + b@,
{
    let mut out: Vec<char> = Vec::new();
    extend_str(&mut out, a);
    extend_str(&mut out, b);
    string_from(out.as_slice())
}

/// The outcome a traceback gives the pending cell.
pub fn traceback_outcome(traceback: &Vec<String>) -> (r: HistoryOutcome)
    ensures
        r == traceback_outcome_spec(strs_of(traceback@)),
{
    let needle = chars_of("KeyboardInterrupt");
    let ghost t = strs_of(traceback@);
    let mut i: usize = 0;
    while i < traceback.len()
        invariant
            i <= traceback.len(),
            t == strs_of(traceback@),
            needle@ == "KeyboardInterrupt"@,
            forall|k: int| 0 <= k < i ==> find(#[trigger] t[k], "KeyboardInterrupt"@) < 0,
        decreases traceback.len() - i,
    {
        let line = chars_of(traceback[i].as_str());
        match crate::extensions::find_chars(line.as_slice(), needle.as_slice()) {
            Some(_) => {
                assert(find(t[i as int], "KeyboardInterrupt"@) >= 0);
                return HistoryOutcome::Interrupted;
            },
            None => {},
        }
        i += 1;
    }
    HistoryOutcome::Error
}

/// The lines joined with `'\n'`.
pub fn join_newlines(lines: &Vec<String>) -> (r: String)
    ensures
        r@ == joined(strs_of(lines@)),
{
    let mut out: Vec<char> = Vec::new();
    let mut i: usize = 0;
    while i < lines.len()
        invariant
            i <= lines.len(),
            out@ == joined(strs_of(lines@).take(i as int)),
        decreases lines.len() - i,
    {
        if i > 0 {
            extend_str(&mut out, "\n");
        }
        extend_str(&mut out, lines[i].as_str());
        assert(strs_of(lines@).take(i + 1).drop_last() =~= strs_of(lines@).take(i as int));
        proof {
            if i == 0 {
                assert(strs_of(lines@).take(1) =~= seq![lines@[0]@]);
            }
        }
        i += 1;
    }
    assert(strs_of(lines@).take(lines.len() as int) =~= strs_of(lines@));
    string_from(out.as_slice())
}

impl SessionControl {
    pub fn new() -> (r: Self)
        ensures
            r.timer.started_at_ns is None,
            r.pending_history is None,
    {
        SessionControl { timer: ExecutionTimer::new(), pending_history: None }
    }

    /// A submitted cell starts waiting for its run to end.
    pub fn begin_submission(&mut self, entry_seq: Option<u64>, ui_history_index: usize)
        ensures
            final(self).timer == old(self).timer,
            final(self).pending_history == Some(
                PendingHistoryEntry { entry_seq, ui_history_index, outcome: HistoryOutcome::Success },
            ),
    {
        self.pending_history = Some(
            PendingHistoryEntry { entry_seq, ui_history_index, outcome: HistoryOutcome::Success },
        );
    }

    /// The history file could not be written: the pending cell keeps only
    /// its interface entry.
    pub fn forget_history_record(&mut self)
        ensures
            final(self).timer == old(self).timer,
            match old(self).pending_history {
                Some(p) => final(self).pending_history == Some(PendingHistoryEntry { entry_seq: None, ..p }),
                None => final(self).pending_history is None,
            },
    {
        if let Some(p) = self.pending_history {
            self.pending_history = Some(PendingHistoryEntry { entry_seq: None, ..p });
        }
    }

    /// A restart was asked for: the run being timed is forgotten.
    pub fn begin_restart(&mut self)
        ensures
            final(self).timer.started_at_ns is None,
            final(self).pending_history == old(self).pending_history,
    {
        self.timer.clear();
    }

    /// The kernel restarted: the cell waiting for its run to end is dropped.
    pub fn restarted(&mut self)
        ensures
            final(self).timer == old(self).timer,
            final(self).pending_history is None,
    {
        self.pending_history = None;
    }

    /// The local kernel process exited: the run and the pending cell are
    /// dropped, and the session ends.
    pub fn on_local_exit(&mut self, message: String) -> (r: Vec<Effect>)
        ensures
            final(self).timer.started_at_ns is None,
            final(self).pending_history is None,
            effects_view(r@) == seq![
                EffectView::SetStatus(KernelStatus::Disconnected),
                EffectView::InsertTranscript(message@),
            ],
    {
        self.timer.clear();
        self.pending_history = None;
        let mut v: Vec<Effect> = Vec::new();
        push_effect(&mut v, Effect::SetStatus(KernelStatus::Disconnected));
        push_effect(&mut v, Effect::InsertTranscript(message));
        v
    }

    /// Handles a kernel event at time `now_ns`: updates the run timer and
    /// the pending cell and returns the effects, and whether the session
    /// ends.
    pub fn on_kernel_event(&mut self, event: KernelEvent, now_ns: u64) -> (r: (Vec<Effect>, bool))
        ensures
            effects_view(r.0@) == event_effects(*old(self), event.view_event(), now_ns),
            r.1 == event_ends_session(event.view_event()),
            match event.view_event() {
                EventView::Status(s) => if s == KernelStatus::Idle {
                    final(self).timer.started_at_ns is None && (old(self).timer.started_at_ns is Some
                        ==> final(self).pending_history is None) && (old(self).timer.started_at_ns is None
                        ==> final(self).pending_history == old(self).pending_history)
                } else if s == KernelStatus::Disconnected {
                    final(self).timer.started_at_ns is None && final(self).pending_history is None
                } else {
                    *final(self) == *old(self)
                },
                EventView::ExecuteInput { .. } => final(self).timer.started_at_ns == Some(now_ns)
                    && final(self).pending_history == old(self).pending_history,
                EventView::Error { traceback } => final(self).timer == old(self).timer && match old(self).pending_history {
                    Some(p) => final(self).pending_history == Some(PendingHistoryEntry { outcome: traceback_outcome_spec(traceback), ..p }),
                    None => final(self).pending_history is None,
                },
                EventView::Fatal(_) => final(self).timer.started_at_ns is None && final(self).pending_history is None,
                _ => *final(self) == *old(self),
            },
    {
        let mut v: Vec<Effect> = Vec::new();
        match event {
            KernelEvent::Connected(summary) => {
                push_effect(&mut v, Effect::SetConnectionSummary(summary));
                (v, false)
            },
            KernelEvent::Status(status) => {
                push_effect(&mut v, Effect::SetStatus(status));
                let ghost set = effects_view(v@);
                if status == KernelStatus::Idle {
                    match self.timer.finish(now_ns) {
                        Some(d) => {
                            match self.pending_history.take() {
                                Some(p) => {
                                    match p.entry_seq {
                                        Some(seq) => push_effect(&mut v, Effect::PersistDone { entry_seq: seq, duration_ns: d, outcome: p.outcome }),
                                        None => {},
                                    }
                                    push_effect(&mut v, Effect::RecordCompletion { ui_history_index: p.ui_history_index, duration_ns: d, outcome: p.outcome });
                                },
                                None => {},
                            }
                            push_effect(&mut v, Effect::InsertRuntime(d));
                        },
                        None => {},
                    }
                    (v, false)
                } else if status == KernelStatus::Disconnected {
                    self.timer.clear();
                    self.pending_history = None;
                    (v, true)
                } else {
                    (v, false)
                }
            },
            KernelEvent::ExecuteInput { execution_count, code } => {
                self.timer.start(now_ns);
                push_effect(&mut v, Effect::SetLastExecutionCount(execution_count));
                push_effect(&mut v, Effect::InsertExecuteInput { execution_count, code });
                (v, false)
            },
            KernelEvent::ExecuteResult { execution_count, text } => {
                push_effect(&mut v, Effect::SetLastExecutionCount(execution_count));
                let mut line: Vec<char> = Vec::new();
                match execution_count {
                    Some(c) => {
                        extend_str(&mut line, "Out[");
                        push_decimal(&mut line, c as u64);
                        extend_str(&mut line, "]: ");
                    },
                    None => extend_str(&mut line, "Out[?]: "),
                }
                extend_str(&mut line, text.as_str());
                push_effect(&mut v, Effect::InsertTranscript(string_from(line.as_slice())));
                (v, false)
            },
            KernelEvent::Stream { name, text } => {
                let line = if crate::chars::str_eq(name.as_str(), "stderr") {
                    concat_text("stderr: ", text.as_str())
                } else {
                    text
                };
                push_effect(&mut v, Effect::InsertTranscript(line));
                (v, false)
            },
            KernelEvent::Error { traceback } => {
                match self.pending_history {
                    Some(p) => {
                        self.pending_history = Some(PendingHistoryEntry { outcome: traceback_outcome(&traceback), ..p });
                    },
                    None => {},
                }
                push_effect(&mut v, Effect::ClearInputRequest);
                push_effect(&mut v, Effect::InsertTranscript(join_newlines(&traceback)));
                (v, false)
            },
            KernelEvent::InputRequest { prompt, password } => {
                push_effect(&mut v, Effect::BeginInputRequest { prompt, password });
                (v, false)
            },
            KernelEvent::Info(text) => {
                push_effect(&mut v, Effect::ClearInputRequest);
                push_effect(&mut v, Effect::InsertTranscript(text));
                (v, false)
            },
            KernelEvent::Warning(text) => {
                push_effect(&mut v, Effect::InsertTranscript(concat_text("warning: ", text.as_str())));
                (v, false)
            },
            KernelEvent::Fatal(text) => {
                self.timer.clear();
                self.pending_history = None;
                push_effect(&mut v, Effect::SetStatus(KernelStatus::Disconnected));
                push_effect(&mut v, Effect::InsertTranscript(concat_text("fatal: ", text.as_str())));
                (v, true)
            },
        }
    }
}

/// The transcript notice when the history files can no longer be written.
pub fn history_disabled_notice(error: &str) -> (r: String)
    ensures
        r@ == "warning: persistent history disabled: "@ + error@,
{
    concat_text("warning: persistent history disabled: ", error)
}

/// What an action gets while the kernel is still starting.
#[derive(Debug)]
pub enum PendingDecision {
    Exit,
    ClearScreen,
    Notice(String),
}

/// Before the kernel is ready only exiting and clearing the screen work;
/// anything else is answered with a notice.
pub fn pending_ui_decision(action: &UiAction) -> (r: PendingDecision)
    ensures
        match action {
            UiAction::Exit => r is Exit,
            UiAction::ClearScreen => r is ClearScreen,
            _ => r matches PendingDecision::Notice(t) && t@ == "kernel is still starting"@,
        },
{
    match action {
        UiAction::Exit => PendingDecision::Exit,
        UiAction::ClearScreen => PendingDecision::ClearScreen,
        _ => PendingDecision::Notice(owned("kernel is still starting")),
    }
}

/// A stream's text goes into the transcript as one insertion: unchanged for
/// `stdout` and for every stream not named `stderr`, and behind `"stderr: "`
/// for `stderr`. Nothing else happens, whatever the state.
pub proof fn law_stream_text_reaches_transcript(state: SessionControl, name: Seq<char>, text: Seq<char>, now_ns: u64)
    ensures
        event_effects(state, EventView::Stream { name: "stdout"@, text }, now_ns)
            == seq![EffectView::InsertTranscript(text)],
        event_effects(state, EventView::Stream { name: "stderr"@, text }, now_ns)
            == seq![EffectView::InsertTranscript("stderr: "@ + text)],
        name != "stderr"@ ==> event_effects(state, EventView::Stream { name, text }, now_ns)
            == seq![EffectView::InsertTranscript(text)],
        !event_ends_session(EventView::Stream { name, text }),
{
    reveal_strlit("stdout");
    reveal_strlit("stderr");
    assert("stdout"@ != "stderr"@ ) by {
        assert("stdout"@[3] != "stderr"@[3]);
    }
}

/// What the other kernel events show, whatever the state: a result is shown
/// behind `Out[n]: ` (or `Out[?]: ` without a count) after its count is
/// recorded; a warning behind `warning: `; a fatal error marks the kernel
/// disconnected, is shown behind `fatal: ` and ends the session; information
/// clears a pending input request and is shown as it is; and a status other
/// than idle only sets the status, ending the session exactly on a disconnect.
pub proof fn law_kernel_event_effects(state: SessionControl, count: Option<u32>, text: Seq<char>, status: KernelStatus, now_ns: u64)
    ensures
        event_effects(state, EventView::ExecuteResult { execution_count: count, text }, now_ns) == seq![
            EffectView::SetLastExecutionCount(count),
            EffectView::InsertTranscript(match count {
                Some(c) => "Out["@ + decimal(c as nat) + "]: "@ + text,
                None => "Out[?]: "@ + text,
            }),
        ],
        event_effects(state, EventView::Warning(text), now_ns)
            == seq![EffectView::InsertTranscript("warning: "@ + text)],
        event_effects(state, EventView::Fatal(text), now_ns) == seq![
            EffectView::SetStatus(KernelStatus::Disconnected),
            EffectView::InsertTranscript("fatal: "@ + text),
        ],
        event_ends_session(EventView::Fatal(text)),
        event_effects(state, EventView::Info(text), now_ns)
            == seq![EffectView::ClearInputRequest, EffectView::InsertTranscript(text)],
        !event_ends_session(EventView::Info(text)) && !event_ends_session(EventView::Warning(text))
            && !event_ends_session(EventView::ExecuteResult { execution_count: count, text }),
        status != KernelStatus::Idle ==> event_effects(state, EventView::Status(status), now_ns)
            == seq![EffectView::SetStatus(status)],
        event_ends_session(EventView::Status(status)) <==> status == KernelStatus::Disconnected,
{
}

/// When the kernel goes idle after a cell started at `start` (its input was
/// echoed), the run time is `now - start` (zero if the clock went back): it
/// is recorded for the pending cell, with its outcome, in the history file
/// (where the cell has a record there) and in the interface, and shown in
/// the transcript, after the status is set.
pub proof fn law_idle_reports_time_since_start(state: SessionControl, start: u64, now_ns: u64, p: PendingHistoryEntry)
    requires
        state.timer.started_at_ns == Some(start),
        state.pending_history == Some(p),
    ensures
        ({
            let d: u64 = if now_ns >= start { (now_ns - start) as u64 } else { 0 };
            let done = seq![
                EffectView::RecordCompletion { ui_history_index: p.ui_history_index, duration_ns: d, outcome: p.outcome },
                EffectView::InsertRuntime(d),
            ];
            &&& p.entry_seq is Some ==> event_effects(state, EventView::Status(KernelStatus::Idle), now_ns) == seq![
                EffectView::SetStatus(KernelStatus::Idle),
                EffectView::PersistDone { entry_seq: p.entry_seq->0, duration_ns: d, outcome: p.outcome },
            ] + done
            &&& p.entry_seq is None ==> event_effects(state, EventView::Status(KernelStatus::Idle), now_ns) == seq![
                EffectView::SetStatus(KernelStatus::Idle),
            ] + done
        }),
{
    let d: u64 = if now_ns >= start { (now_ns - start) as u64 } else { 0 };
    let e = event_effects(state, EventView::Status(KernelStatus::Idle), now_ns);
    if p.entry_seq is Some {
        assert(e =~= seq![
            EffectView::SetStatus(KernelStatus::Idle),
            EffectView::PersistDone { entry_seq: p.entry_seq->0, duration_ns: d, outcome: p.outcome },
        ] + seq![
            EffectView::RecordCompletion { ui_history_index: p.ui_history_index, duration_ns: d, outcome: p.outcome },
            EffectView::InsertRuntime(d),
        ]);
    } else {
        assert(e =~= seq![EffectView::SetStatus(KernelStatus::Idle)] + seq![
            EffectView::RecordCompletion { ui_history_index: p.ui_history_index, duration_ns: d, outcome: p.outcome },
            EffectView::InsertRuntime(d),
        ]);
    }
}

/// Going idle with no cell running only sets the status.
pub proof fn law_idle_without_run_only_sets_status(state: SessionControl, now_ns: u64)
    requires
        state.timer.started_at_ns is None,
    ensures
        event_effects(state, EventView::Status(KernelStatus::Idle), now_ns)
            == seq![EffectView::SetStatus(KernelStatus::Idle)],
{
}

/// A traceback any line of which mentions `KeyboardInterrupt` marks the cell
/// interrupted; any other traceback marks it failed.
pub proof fn law_traceback_outcome(traceback: Seq<Seq<char>>, i: int)
    ensures
        0 <= i < traceback.len() && crate::extensions::find(traceback[i], "KeyboardInterrupt"@) >= 0
            ==> traceback_outcome_spec(traceback) == HistoryOutcome::Interrupted,
        (forall|j: int| 0 <= j < traceback.len() ==> crate::extensions::find(#[trigger] traceback[j],
            "KeyboardInterrupt"@) < 0) ==> traceback_outcome_spec(traceback) == HistoryOutcome::Error,
{
}

} // verus!
