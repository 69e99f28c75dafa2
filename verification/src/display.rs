//! The display model (the transcript's structured entries, the editor, the
//! overlay, the footer), its rendering into terminal rows, and the frames a
//! terminal backend draws.
use vstd::prelude::*;

use crate::chars::{chars_of, extend_str, owned, seqs_of, string_from, strs_of, utf8_len};
use crate::ansi::wrap_ansi;
use crate::kernel::{KernelStatus, StreamName};
use crate::lines::split_on;
use crate::prompt::{
    continuation_prompt, continuation_prompt_spec, input_prompt, input_prompt_spec, output_prompt,
    output_prompt_spec, styled_input_prompt, styled_output_prompt,
};
use crate::style::{styled_segment_text, TextStyle, UiStyle};
use crate::syntax::{highlighted_python_lines, python_lines_spec};
use crate::transcript::wrap_ansi_to_width;
use crate::ui::CursorStyle;

verus! {

broadcast use vstd::string::group_string_axioms;

/// The plain-text form of a rich output, where it has one.
#[derive(Debug, Clone, PartialEq, Eq)]
pub struct MimeBundle {
    pub text_plain: Option<String>,
}

impl MimeBundle {
    pub fn plain(text: String) -> (r: Self)
        ensures
            r.text_plain matches Some(t) && t@ == text@,
    {
        MimeBundle { text_plain: Some(text) }
    }
}

/// A cell's code as it was executed. Timestamps are Unix nanoseconds.
#[derive(Debug, Clone, PartialEq, Eq)]
pub struct InputEntry {
    pub execution_count: Option<u32>,
    pub code: String,
    pub timestamp: Option<i64>,
}

/// Consecutive output of one stream.
#[derive(Debug, Clone, PartialEq, Eq)]
pub struct StreamEntry {
    pub name: StreamName,
    pub text: String,
    pub timestamp: Option<i64>,
}

/// A result or displayed value.
#[derive(Debug, Clone, PartialEq, Eq)]
pub struct OutputEntry {
    pub execution_count: Option<u32>,
    pub mime: MimeBundle,
    pub timestamp: Option<i64>,
}

/// A traceback.
#[derive(Debug, Clone, PartialEq, Eq)]
pub struct ErrorEntry {
    pub ename: Option<String>,
    pub evalue: Option<String>,
    pub traceback: Vec<String>,
    pub timestamp: Option<i64>,
}

/// A stdin request and, once given, the reply.
#[derive(Debug, Clone, PartialEq, Eq)]
pub struct StdinEntry {
    pub prompt: String,
    pub password: bool,
    pub value: Option<String>,
    pub timestamp: Option<i64>,
}

/// A message of the frontend itself.
#[derive(Debug, Clone, PartialEq, Eq)]
pub struct SystemEntry {
    pub text: String,
    pub timestamp: Option<i64>,
}

#[derive(Debug, Clone, PartialEq, Eq)]
pub enum TranscriptEntry {
    Input(InputEntry),
    Stream(StreamEntry),
    ExecuteResult(OutputEntry),
    DisplayData(OutputEntry),
    Error(ErrorEntry),
    Stdin(StdinEntry),
    System(SystemEntry),
}

/// The transcript: all entries, and where the visible part starts.
#[derive(Debug, Clone, PartialEq, Eq)]
pub struct TranscriptModel {
    pub entries: Vec<TranscriptEntry>,
    pub visible_start: usize,
}

/// `chrono::Utc::now()` as Unix nanoseconds (`timestamp_nanos_opt`): the
/// current time, of which nothing is stated.
#[verifier::external_body]
fn utc_now_ns() -> (r: Option<i64>) {
    chrono::Utc::now().timestamp_nanos_opt()
}

impl TranscriptModel {
    pub fn new() -> (r: Self)
        ensures
            r.entries@.len() == 0,
            r.visible_start == 0,
    {
        TranscriptModel { entries: Vec::new(), visible_start: 0 }
    }

    /// Hides everything written so far; later entries show.
    pub fn clear_visible(&mut self)
        ensures
            final(self).entries@ == old(self).entries@,
            final(self).visible_start == old(self).entries.len(),
    {
        self.visible_start = self.entries.len();
    }

    /// The index of the first visible entry.
    pub open spec fn visible_from(&self) -> int {
        if self.visible_start < self.entries.len() { self.visible_start as int } else { self.entries.len() as int }
    }

    /// The entries shown.
    pub fn visible_entries(&self) -> (r: &[TranscriptEntry])
        ensures
            r@ == self.entries@.skip(self.visible_from()),
    {
        let start = if self.visible_start < self.entries.len() { self.visible_start } else { self.entries.len() };
        let s = self.entries.as_slice();
        let r = vstd::slice::slice_subrange(s, start, s.len());
        assert(r@ =~= self.entries@.skip(start as int));
        r
    }

    /// Adds an executed cell.
    pub fn push_input(&mut self, execution_count: Option<u32>, code: String)
        ensures
            final(self).visible_start == old(self).visible_start,
            final(self).entries@.len() == old(self).entries@.len() + 1,
            final(self).entries@.drop_last() == old(self).entries@,
            final(self).entries@.last() matches TranscriptEntry::Input(e) && e.execution_count
                == execution_count && e.code@ == code@,
    {
        let timestamp = utc_now_ns();
        self.entries.push(TranscriptEntry::Input(InputEntry { execution_count, code, timestamp }));
        assert(self.entries@.drop_last() =~= old(self).entries@);
    }

    /// Adds a message of the frontend.
    pub fn push_system(&mut self, text: String)
        ensures
            final(self).visible_start == old(self).visible_start,
            final(self).entries@.len() == old(self).entries@.len() + 1,
            final(self).entries@.drop_last() == old(self).entries@,
            final(self).entries@.last() matches TranscriptEntry::System(e) && e.text@ == text@,
    {
        let timestamp = utc_now_ns();
        self.entries.push(TranscriptEntry::System(SystemEntry { text, timestamp }));
        assert(self.entries@.drop_last() =~= old(self).entries@);
    }

    /// Adds stream output; output that continues the last entry's stream
    /// is appended to it.
    pub fn push_stream(&mut self, name: StreamName, text: String)
        ensures
            final(self).visible_start == old(self).visible_start,
            match (if old(self).entries@.len() > 0 { Some(old(self).entries@.last()) } else { None }) {
                Some(TranscriptEntry::Stream(prev)) if prev.name == name => {
                    &&& final(self).entries@.len() == old(self).entries@.len()
                    &&& final(self).entries@.drop_last() == old(self).entries@.drop_last()
                    &&& final(self).entries@.last() matches TranscriptEntry::Stream(e) && e.name == name
                        && e.text@ == prev.text@ + text@ && e.timestamp == prev.timestamp
                },
                _ => {
                    &&& final(self).entries@.len() == old(self).entries@.len() + 1
                    &&& final(self).entries@.drop_last() == old(self).entries@
                    &&& final(self).entries@.last() matches TranscriptEntry::Stream(e) && e.name == name
                        && e.text@ == text@
                },
            },
    {
        let n = self.entries.len();
        if n > 0 {
            let same = match &self.entries[n - 1] {
                TranscriptEntry::Stream(prev) => prev.name == name,
                _ => false,
            };
            if same {
                let last = self.entries.pop().unwrap();
                match last {
                    TranscriptEntry::Stream(prev) => {
                        let mut t = chars_of(prev.text.as_str());
                        extend_str(&mut t, text.as_str());
                        self.entries.push(
                            TranscriptEntry::Stream(
                                StreamEntry { name, text: string_from(t.as_slice()), timestamp: prev.timestamp },
                            ),
                        );
                        assert(self.entries@.drop_last() =~= old(self).entries@.drop_last());
                        return;
                    },
                    _ => {
                        proof {
                            assert(false);
                        }
                        return;
                    },
                }
            }
        }
        let timestamp = utc_now_ns();
        self.entries.push(TranscriptEntry::Stream(StreamEntry { name, text, timestamp }));
        assert(self.entries@.drop_last() =~= old(self).entries@);
    }

    /// Adds a result.
    pub fn push_execute_result(&mut self, execution_count: Option<u32>, mime: MimeBundle)
        ensures
            final(self).visible_start == old(self).visible_start,
            final(self).entries@.len() == old(self).entries@.len() + 1,
            final(self).entries@.drop_last() == old(self).entries@,
            final(self).entries@.last() matches TranscriptEntry::ExecuteResult(e) && e.execution_count
                == execution_count && e.mime == mime,
    {
        let timestamp = utc_now_ns();
        self.entries.push(TranscriptEntry::ExecuteResult(OutputEntry { execution_count, mime, timestamp }));
        assert(self.entries@.drop_last() =~= old(self).entries@);
    }

    /// Adds a traceback.
    pub fn push_error(&mut self, traceback: Vec<String>)
        ensures
            final(self).visible_start == old(self).visible_start,
            final(self).entries@.len() == old(self).entries@.len() + 1,
            final(self).entries@.drop_last() == old(self).entries@,
            final(self).entries@.last() matches TranscriptEntry::Error(e) && e.traceback@ == traceback@
                && e.ename is None && e.evalue is None,
    {
        let timestamp = utc_now_ns();
        self.entries.push(TranscriptEntry::Error(ErrorEntry { ename: None, evalue: None, traceback, timestamp }));
        assert(self.entries@.drop_last() =~= old(self).entries@);
    }

    /// Adds a stdin request; returns its index for the reply.
    pub fn push_stdin(&mut self, prompt: String, password: bool) -> (r: usize)
        ensures
            final(self).visible_start == old(self).visible_start,
            r == old(self).entries.len(),
            final(self).entries@.len() == old(self).entries@.len() + 1,
            final(self).entries@.drop_last() == old(self).entries@,
            final(self).entries@.last() matches TranscriptEntry::Stdin(e) && e.prompt@ == prompt@
                && e.password == password && e.value is None,
    {
        let index = self.entries.len();
        let timestamp = utc_now_ns();
        self.entries.push(TranscriptEntry::Stdin(StdinEntry { prompt, password, value: None, timestamp }));
        assert(self.entries@.drop_last() =~= old(self).entries@);
        index
    }

    /// Records the reply of the stdin request at `index`, where there is one.
    pub fn fill_stdin_value(&mut self, index: usize, value: String)
        ensures
            final(self).visible_start == old(self).visible_start,
            final(self).entries@.len() == old(self).entries@.len(),
            forall|i: int| 0 <= i < old(self).entries@.len() && i != index ==> #[trigger] final(self).entries@[i]
                == old(self).entries@[i],
            index < old(self).entries@.len() ==> match old(self).entries@[index as int] {
                TranscriptEntry::Stdin(s) => final(self).entries@[index as int] matches TranscriptEntry::Stdin(t)
                    && t.prompt == s.prompt && t.password == s.password && t.timestamp == s.timestamp
                    && (t.value matches Some(v) && v@ == value@),
                _ => final(self).entries@[index as int] == old(self).entries@[index as int],
            },
    {
        if index < self.entries.len() {
            let is_stdin = match &self.entries[index] {
                TranscriptEntry::Stdin(_) => true,
                _ => false,
            };
            if is_stdin {
                let entry = self.entries.remove(index);
                match entry {
                    TranscriptEntry::Stdin(s) => {
                        self.entries.insert(
                            index,
                            TranscriptEntry::Stdin(
                                StdinEntry { prompt: s.prompt, password: s.password, value: Some(value), timestamp: s.timestamp },
                            ),
                        );
                    },
                    other => {
                        self.entries.insert(index, other);
                    },
                }
            }
        }
    }
}

/// The lines of `code` with their line endings, as `LinesWithEndings`
/// yields them.
pub open spec fn lines_with_endings(code: Seq<char>) -> Seq<Seq<char>> {
    let p = split_on(code, '\n');
    let init = p.drop_last().map_values(|l: Seq<char>| l.push('\n'));
    if p.last().len() == 0 { init } else { init.push(p.last()) }
}

/// An executed cell as the transcript shows it: each line after the input
/// prompt (the first) or the continuation prompt (the others), highlighted
/// where highlighting works; the prompt alone for empty code.
pub open spec fn highlighted_input_spec(execution_count: Option<u32>, code: Seq<char>) -> Seq<char> {
    let prompt = input_prompt_spec(execution_count);
    let lines = lines_with_endings(code);
    if lines.len() == 0 {
        styled_segment_text(prompt, TextStyle::Semantic(UiStyle::InputPrompt))
    } else {
        highlighted_rows(prompt, python_lines_spec(code, false), lines, lines.len() as int)
    }
}

/// The first `n` lines of a highlighted cell.
pub open spec fn highlighted_rows(prompt: Seq<char>, highlighted: Option<Seq<Seq<char>>>, lines: Seq<Seq<char>>, n: int) -> Seq<char>
    decreases n,
{
    if n <= 0 {
        Seq::empty()
    } else {
        let i = n - 1;
        let p = if i == 0 { prompt } else { continuation_prompt_spec(prompt) };
        let body = match highlighted {
            Some(h) => if i < h.len() { h[i] } else { lines[i] },
            None => lines[i],
        };
        highlighted_rows(prompt, highlighted, lines, i) + styled_segment_text(p, TextStyle::Semantic(UiStyle::InputPrompt)) + body
    }
}

proof fn lemma_prompt_utf8(execution_count: Option<u32>)
    ensures
        utf8_len(input_prompt_spec(execution_count)) <= 4 * 20,
{
    let p = input_prompt_spec(execution_count);
    crate::chars::lemma_utf8_len_bounds(p);
    match execution_count {
        Some(c) => {
            crate::ui::lemma_decimal_len_u32(c as nat);
            reveal_strlit("In [");
            reveal_strlit("]: ");
        },
        None => {
            reveal_strlit("In [?]: ");
        },
    }
}

fn lines_with_endings_of(code: &[char]) -> (r: Vec<Vec<char>>)
    ensures
        seqs_of(r@) == lines_with_endings(code@),
{
    let parts = crate::lines::split_chars(code, '\n');
    let ghost p = seqs_of(parts@);
    let mut r: Vec<Vec<char>> = Vec::new();
    let mut i: usize = 0;
    while i + 1 < parts.len()
        invariant
            parts.len() >= 1,
            i + 1 <= parts.len(),
            p == seqs_of(parts@),
            seqs_of(r@) == p.drop_last().take(i as int).map_values(|l: Seq<char>| l.push('\n')),
        decreases parts.len() - i,
    {
        let mut line = crate::chars::slice_chars(parts[i].as_slice(), 0, parts[i].len());
        assert(line@ =~= p[i as int]);
        line.push('\n');
        let ghost before = seqs_of(r@);
        r.push(line);
        assert(seqs_of(r@) =~= before.push(p[i as int].push('\n')));
        assert(p.drop_last().take(i + 1).map_values(|l: Seq<char>| l.push('\n')) =~= p.drop_last().take(
            i as int,
        ).map_values(|l: Seq<char>| l.push('\n')).push(p[i as int].push('\n')));
        i += 1;
    }
    assert(p.drop_last().take(i as int) =~= p.drop_last());
    let last = &parts[parts.len() - 1];
    if last.len() > 0 {
        let l = crate::chars::slice_chars(last.as_slice(), 0, last.len());
        assert(l@ =~= last@);
        let ghost before = seqs_of(r@);
        r.push(l);
        assert(seqs_of(r@) =~= before.push(last@));
    }
    r
}

/// The character sequences of an optional list of strings.
pub open spec fn opt_strs(o: Option<Vec<String>>) -> Option<Seq<Seq<char>>> {
    match o {
        Some(v) => Some(strs_of(v@)),
        None => None,
    }
}

/// Renders an executed cell with prompts and highlighting.
pub fn highlighted_execute_input(execution_count: Option<u32>, code: &str) -> (r: String)
    ensures
        r@ == highlighted_input_spec(execution_count, code@),
{
    let prompt = input_prompt(execution_count);
    proof {
        lemma_prompt_utf8(execution_count);
    }
    let continuation = continuation_prompt(prompt.as_str());
    let highlighted = highlighted_python_lines(code, false);
    let ghost hv: Option<Seq<Seq<char>>> = opt_strs(highlighted);
    assert(hv == python_lines_spec(code@, false));
    let c = chars_of(code);
    let lines = lines_with_endings_of(c.as_slice());
    let ghost ls = seqs_of(lines@);
    let mut out: Vec<char> = Vec::new();
    let first = styled_input_prompt(prompt.as_str());
    let rest = styled_input_prompt(continuation.as_str());
    let mut i: usize = 0;
    while i < lines.len()
        invariant
            i <= lines.len(),
            ls == seqs_of(lines@),
            ls == lines_with_endings(code@),
            prompt@ == input_prompt_spec(execution_count),
            first@ == styled_segment_text(prompt@, TextStyle::Semantic(UiStyle::InputPrompt)),
            rest@ == styled_segment_text(continuation_prompt_spec(prompt@), TextStyle::Semantic(UiStyle::InputPrompt)),
            hv == python_lines_spec(code@, false),
            hv == opt_strs(highlighted),
            out@ == highlighted_rows(prompt@, hv, ls, i as int),
        decreases lines.len() - i,
    {
        if i == 0 {
            extend_str(&mut out, first.as_str());
        } else {
            extend_str(&mut out, rest.as_str());
        }
        match &highlighted {
            Some(h) => {
                if i < h.len() {
                    extend_str(&mut out, h[i].as_str());
                } else {
                    crate::chars::extend_chars(&mut out, lines[i].as_slice());
                }
            },
            None => crate::chars::extend_chars(&mut out, lines[i].as_slice()),
        }
        i += 1;
    }
    if lines.len() == 0 {
        extend_str(&mut out, first.as_str());
    }
    string_from(out.as_slice())
}

/// The rows of a transcript entry at `width` columns.
pub open spec fn entry_rows(entry: TranscriptEntry, width: u16) -> Seq<Seq<char>> {
    match entry {
        TranscriptEntry::Input(i) => wrap_ansi(highlighted_input_spec(i.execution_count, i.code@), width as nat),
        TranscriptEntry::Stream(s) => wrap_ansi(s.text@, width as nat),
        TranscriptEntry::ExecuteResult(o) | TranscriptEntry::DisplayData(o) => match o.mime.text_plain {
            Some(t) => wrap_ansi(
                styled_segment_text(output_prompt_spec(o.execution_count), TextStyle::Semantic(UiStyle::OutputPrompt))
                    + ": "@ + t@,
                width as nat,
            ),
            None => seq![Seq::empty()],
        },
        TranscriptEntry::Error(e) => wrap_ansi(crate::control::joined(strs_of(e.traceback@)), width as nat),
        TranscriptEntry::Stdin(s) => wrap_ansi(
            s.prompt@ + if s.password { Seq::empty() } else {
                match s.value {
                    Some(v) => v@,
                    None => Seq::empty(),
                }
            },
            width as nat,
        ),
        TranscriptEntry::System(s) => wrap_ansi(s.text@, width as nat),
    }
}

/// Renders one transcript entry.
pub fn render_transcript_entry(entry: &TranscriptEntry, width: u16) -> (r: Vec<String>)
    ensures
        strs_of(r@) == entry_rows(*entry, width),
{
    match entry {
        TranscriptEntry::Input(i) => {
            let h = highlighted_execute_input(i.execution_count, i.code.as_str());
            wrap_ansi_to_width(h.as_str(), width)
        },
        TranscriptEntry::Stream(s) => wrap_ansi_to_width(s.text.as_str(), width),
        TranscriptEntry::ExecuteResult(o) | TranscriptEntry::DisplayData(o) => match &o.mime.text_plain {
            Some(t) => {
                let p = styled_output_prompt(output_prompt(o.execution_count).as_str());
                let mut line = chars_of(p.as_str());
                extend_str(&mut line, ": ");
                extend_str(&mut line, t.as_str());
                let s = string_from(line.as_slice());
                wrap_ansi_to_width(s.as_str(), width)
            },
            None => {
                let mut v: Vec<String> = Vec::new();
                v.push(String::new());
                assert(strs_of(v@) =~= seq![Seq::<char>::empty()]);
                v
            },
        },
        TranscriptEntry::Error(e) => {
            let t = crate::control::join_newlines(&e.traceback);
            wrap_ansi_to_width(t.as_str(), width)
        },
        TranscriptEntry::Stdin(s) => {
            let mut line = chars_of(s.prompt.as_str());
            if !s.password {
                match &s.value {
                    Some(v) => extend_str(&mut line, v.as_str()),
                    None => {},
                }
            }
            let t = string_from(line.as_slice());
            wrap_ansi_to_width(t.as_str(), width)
        },
        TranscriptEntry::System(s) => wrap_ansi_to_width(s.text.as_str(), width),
    }
}

/// The rows of the visible transcript entries, in order.
pub open spec fn transcript_rows(entries: Seq<TranscriptEntry>, width: u16) -> Seq<Seq<char>>
    decreases entries.len(),
{
    if entries.len() == 0 {
        Seq::empty()
    } else {
        transcript_rows(entries.drop_last(), width) + entry_rows(entries.last(), width)
    }
}

/// Renders the visible transcript.
pub fn render_transcript(model: &TranscriptModel, width: u16) -> (r: Vec<String>)
    ensures
        strs_of(r@) == transcript_rows(model.entries@.skip(model.visible_from()), width),
{
    let visible = model.visible_entries();
    let mut rows: Vec<String> = Vec::new();
    let mut i: usize = 0;
    while i < visible.len()
        invariant
            i <= visible.len(),
            visible@ == model.entries@.skip(model.visible_from()),
            strs_of(rows@) == transcript_rows(visible@.take(i as int), width),
        decreases visible.len() - i,
    {
        let entry_rows_v = render_transcript_entry(&visible[i], width);
        let ghost before = strs_of(rows@);
        let mut k: usize = 0;
        let mut more = entry_rows_v;
        let ghost er = strs_of(more@);
        assert(er.len() == more.len());
        while more.len() > 0
            invariant
                er.len() <= usize::MAX,
                strs_of(rows@) == before + er.take(k as int),
                er.len() == k + more.len(),
                forall|j: int| 0 <= j < more.len() ==> #[trigger] more@[j]@ == er[k + j],
            decreases more.len(),
        {
            let row = more.remove(0);
            let ghost prev = strs_of(rows@);
            rows.push(row);
            assert(strs_of(rows@) =~= prev.push(row@));
            assert(er.take(k + 1) =~= er.take(k as int).push(er[k as int]));
            k += 1;
        }
        assert(er.take(k as int) =~= er);
        assert(visible@.take(i + 1).drop_last() =~= visible@.take(i as int));
        i += 1;
    }
    assert(visible@.take(visible.len() as int) =~= visible@);
    rows
}

proof fn lemma_ended_lines_rejoin(parts: Seq<Seq<char>>)
    requires
        parts.len() >= 1,
    ensures
        parts.drop_last().map_values(|l: Seq<char>| l.push('\n')).flatten_alt() + parts.last()
            == crate::extensions::join_lines(parts),
    decreases parts.len(),
{
    let init = parts.drop_last().map_values(|l: Seq<char>| l.push('\n'));
    if parts.len() == 1 {
        assert(init.len() == 0);
        assert(init.flatten_alt() + parts.last() =~= parts.last());
    } else {
        let prev = parts.drop_last();
        lemma_ended_lines_rejoin(prev);
        let prev_init = prev.drop_last().map_values(|l: Seq<char>| l.push('\n'));
        assert(init.drop_last() =~= prev_init);
        assert(init.last() == prev.last().push('\n'));
        assert(init.flatten_alt() + parts.last() =~= prev_init.flatten_alt() + prev.last() + "\n"@
            + parts.last()) by {
            reveal_strlit("\n");
        }
    }
}

/// The lines of a cell, as the transcript prefixes them, put back together
/// give the cell's code: none is empty, each but the last ends with its
/// `'\n'`, and no line holds a `'\n'` before its end.
pub proof fn law_lines_with_endings_rejoin(code: Seq<char>)
    ensures
        lines_with_endings(code).flatten_alt() == code,
        forall|i: int| 0 <= i < lines_with_endings(code).len() ==> (#[trigger] lines_with_endings(code)[i]).len() > 0,
        forall|i: int| 0 <= i < lines_with_endings(code).len() - 1 ==> (#[trigger] lines_with_endings(code)[i]).last()
            == '\n',
        forall|i: int, j: int| 0 <= i < lines_with_endings(code).len() && 0 <= j < lines_with_endings(code)[i].len() - 1
            ==> #[trigger] lines_with_endings(code)[i][j] != '\n',
{
    let p = split_on(code, '\n');
    crate::insert_history::lemma_split_rejoins(code);
    lemma_split_parts_have_no_newline(code);
    lemma_ended_lines_rejoin(p);
    let init = p.drop_last().map_values(|l: Seq<char>| l.push('\n'));
    let lines = lines_with_endings(code);
    if p.last().len() == 0 {
        assert(init.flatten_alt() + p.last() =~= init.flatten_alt());
    } else {
        assert(lines.drop_last() =~= init);
    }
    assert forall|i: int| 0 <= i < lines.len() implies (#[trigger] lines[i]).len() > 0 && (i < lines.len() - 1
        ==> lines[i].last() == '\n') && forall|j: int| 0 <= j < lines[i].len() - 1 ==> lines[i][j] != '\n' by {
        if i < init.len() {
            assert(lines[i] == p[i].push('\n'));
            assert forall|j: int| 0 <= j < lines[i].len() - 1 implies lines[i][j] != '\n' by {
                assert(lines[i][j] == p[i][j]);
            }
        } else {
            assert(lines[i] == p.last());
            assert(p.last() == p[p.len() - 1]);
        }
    }
}

proof fn lemma_split_parts_have_no_newline(s: Seq<char>)
    ensures
        forall|i: int, j: int| 0 <= i < split_on(s, '\n').len() && 0 <= j < split_on(s, '\n')[i].len()
            ==> #[trigger] split_on(s, '\n')[i][j] != '\n',
    decreases s.len(),
{
    if s.len() > 0 {
        lemma_split_parts_have_no_newline(s.drop_last());
        crate::lines::lemma_split_on_nonempty(s.drop_last(), '\n');
        let prev = split_on(s.drop_last(), '\n');
        let cur = split_on(s, '\n');
        if s.last() != '\n' {
            assert forall|i: int, j: int| 0 <= i < cur.len() && 0 <= j < cur[i].len() implies #[trigger] cur[i][j]
                != '\n' by {
                if i < prev.len() - 1 {
                    assert(cur[i] == prev[i]);
                } else {
                    assert(cur[i] == prev.last().push(s.last()));
                    if j < prev.last().len() {
                        assert(prev.last() == prev[prev.len() - 1]);
                    }
                }
            }
        } else {
            assert forall|i: int, j: int| 0 <= i < cur.len() && 0 <= j < cur[i].len() implies #[trigger] cur[i][j]
                != '\n' by {
                assert(i < prev.len());
                assert(cur[i] == prev[i]);
            }
        }
    }
}

/// The reply to a password request is never shown: such an entry shows its
/// prompt alone, whatever was typed, while the reply to any other request
/// is shown after the prompt.
pub proof fn law_password_reply_is_never_shown(entry: StdinEntry, width: u16)
    ensures
        entry.password ==> entry_rows(TranscriptEntry::Stdin(entry), width) == wrap_ansi(entry.prompt@, width as nat),
        !entry.password && entry.value is Some ==> entry_rows(TranscriptEntry::Stdin(entry), width) == wrap_ansi(
            entry.prompt@ + entry.value->0@,
            width as nat,
        ),
        entry.value is None ==> entry_rows(TranscriptEntry::Stdin(entry), width) == wrap_ansi(
            entry.prompt@,
            width as nat,
        ),
{
    assert(entry.prompt@ + Seq::<char>::empty() =~= entry.prompt@);
}

/// The transcript's rows are the rows of its entries, one entry after the
/// other: adding an entry adds its rows after those already there.
pub proof fn law_transcript_rows_append(entries: Seq<TranscriptEntry>, entry: TranscriptEntry, width: u16)
    ensures
        transcript_rows(entries.push(entry), width) == transcript_rows(entries, width) + entry_rows(entry, width),
{
    assert(entries.push(entry).drop_last() =~= entries);
}

} // verus!
