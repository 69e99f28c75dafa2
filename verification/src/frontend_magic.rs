//! Frontend magics (`%fpy_out [target]`, `%fpy_clipout [target]`) and the
//! per-cell capture of stdout and execute results they read back.
use vstd::prelude::*;

use crate::chars::{
    chars_eq, chars_of, decimal, extend_chars, extend_str, push_decimal, string_from,
};
use crate::kernel::StreamName;
use crate::lines::{is_ascii_ws, trim, trim_chars};

verus! {

broadcast use vstd::string::group_string_axioms;

/// One captured cell: its execution count, code and captured output.
#[derive(Debug, Clone, PartialEq, Eq)]
pub struct CellOutputCapture {
    pub execution_count: u32,
    pub code: String,
    pub output: String,
}

/// The abstract content of a captured cell.
pub struct CellView {
    pub count: u32,
    pub code: Seq<char>,
    pub output: Seq<char>,
}

pub open spec fn cell_view(c: CellOutputCapture) -> CellView {
    CellView { count: c.execution_count, code: c.code@, output: c.output@ }
}

/// The abstract state of the capture store.
pub struct CaptureView {
    pub active: Option<u32>,
    pub cells: Seq<CellView>,
}

/// The outputs captured per executed cell, in submission order.
#[derive(Debug, Default)]
pub struct OutputCaptureStore {
    pub active_execution_count: Option<u32>,
    pub cells: Vec<CellOutputCapture>,
}

impl View for OutputCaptureStore {
    type V = CaptureView;

    open spec fn view(&self) -> CaptureView {
        CaptureView {
            active: self.active_execution_count,
            cells: self.cells@.map_values(|c: CellOutputCapture| cell_view(c)),
        }
    }
}

/// The index of the most recent cell with execution count `count`.
pub open spec fn last_index_of(cells: Seq<CellView>, count: u32) -> Option<int>
    decreases cells.len(),
{
    if cells.len() == 0 {
        None
    } else if cells.last().count == count {
        Some(cells.len() - 1)
    } else {
        last_index_of(cells.drop_last(), count)
    }
}

pub proof fn lemma_last_index_of(cells: Seq<CellView>, count: u32)
    ensures
        last_index_of(cells, count) matches Some(i) ==> 0 <= i < cells.len() && cells[i].count
            == count && forall|j: int| i < j < cells.len() ==> cells[j].count != count,
        last_index_of(cells, count) is None ==> forall|j: int|
            0 <= j < cells.len() ==> cells[j].count != count,
    decreases cells.len(),
{
    if cells.len() > 0 && cells.last().count != count {
        lemma_last_index_of(cells.drop_last(), count);
        assert forall|j: int| 0 <= j < cells.len() - 1 implies cells[j] == cells.drop_last()[j] by {}
    }
}

/// Output appended to a capture: joined with `'\n'` unless the capture is
/// empty or already ends with one.
pub open spec fn captured_join(captured: Seq<char>, text: Seq<char>) -> Seq<char> {
    if captured.len() > 0 && captured.last() != '\n' {
        captured + seq!['\n'] + text
    } else {
        captured + text
    }
}

/// The state after a cell starts.
pub open spec fn begin_spec(s: CaptureView, count: Option<u32>, code: Seq<char>) -> CaptureView {
    CaptureView {
        active: count,
        cells: match count {
            Some(c) => s.cells.push(CellView { count: c, code, output: seq![] }),
            None => s.cells,
        },
    }
}

/// `cells` with the output of the most recent cell counted `count` changed by `f`.
pub open spec fn update_last(cells: Seq<CellView>, count: u32, out: Seq<char>) -> Seq<CellView> {
    match last_index_of(cells, count) {
        Some(i) => cells.update(i, CellView { output: out, ..cells[i] }),
        None => cells,
    }
}

/// The state after stream output arrives: stdout goes to the active cell.
pub open spec fn append_stream_spec(s: CaptureView, name: StreamName, text: Seq<char>) -> CaptureView {
    if name != StreamName::Stdout {
        s
    } else {
        match s.active {
            None => s,
            Some(a) => match last_index_of(s.cells, a) {
                Some(i) => CaptureView {
                    cells: update_last(s.cells, a, s.cells[i].output + text),
                    ..s
                },
                None => s,
            },
        }
    }
}

/// The state after an execute result arrives for `count` (or the active cell).
pub open spec fn append_result_spec(s: CaptureView, count: Option<u32>, text: Seq<char>) -> CaptureView {
    let target = match count {
        Some(c) => Some(c),
        None => s.active,
    };
    match target {
        None => s,
        Some(a) => match last_index_of(s.cells, a) {
            Some(i) => CaptureView {
                cells: update_last(s.cells, a, captured_join(s.cells[i].output, text)),
                ..s
            },
            None => s,
        },
    }
}

/// Which captured cell a magic refers to.
#[derive(Debug, Clone, Copy, PartialEq, Eq, Structural)]
pub enum OutputTarget {
    Previous,
    ExecutionCount(u32),
    RelativePrevious(usize),
}

/// Why a target could not be resolved.
#[derive(Debug, Clone, PartialEq, Eq, Structural)]
pub enum ResolveOutputError {
    MissingPrevious,
    MissingExecutionCount(u32),
    MissingRelativePrevious(usize),
    EmptyOutput(u32),
}

/// A resolved capture.
#[derive(Debug, Clone, Copy, PartialEq, Eq)]
pub struct ResolvedOutput<'a> {
    pub execution_count: u32,
    pub output: &'a str,
}

/// The cell a target refers to, or why there is none.
pub open spec fn target_cell(s: CaptureView, target: OutputTarget) -> Result<int, ResolveOutputError> {
    match target {
        OutputTarget::Previous => if s.cells.len() == 0 {
            Err(ResolveOutputError::MissingPrevious)
        } else {
            Ok(s.cells.len() - 1)
        },
        OutputTarget::ExecutionCount(c) => match last_index_of(s.cells, c) {
            Some(i) => Ok(i),
            None => Err(ResolveOutputError::MissingExecutionCount(c)),
        },
        OutputTarget::RelativePrevious(k) => if 1 <= k <= s.cells.len() {
            Ok(s.cells.len() - k)
        } else {
            Err(ResolveOutputError::MissingRelativePrevious(k))
        },
    }
}

/// What resolving a target yields: the cell's count and non-empty output.
pub open spec fn resolve_spec(s: CaptureView, target: OutputTarget) -> Result<(u32, Seq<char>), ResolveOutputError> {
    match target_cell(s, target) {
        Err(e) => Err(e),
        Ok(i) => if s.cells[i].output.len() == 0 {
            Err(ResolveOutputError::EmptyOutput(s.cells[i].count))
        } else {
            Ok((s.cells[i].count, s.cells[i].output))
        },
    }
}

fn push_text(dst: &mut String, text: &str)
    ensures
        final(dst)@ == old(dst)@ + text@,
{
    dst.append(text);
}

impl OutputCaptureStore {
    /// An empty store with no active cell.
    pub fn new() -> (s: OutputCaptureStore)
        ensures
            s@.active is None,
            s@.cells.len() == 0,
    {
        OutputCaptureStore { active_execution_count: None, cells: Vec::new() }
    }

    fn last_index(&self, count: u32) -> (r: Option<usize>)
        ensures
            r matches Some(i) ==> last_index_of(self@.cells, count) == Some(i as int) && i
                < self.cells.len(),
            r is None ==> last_index_of(self@.cells, count) is None,
    {
        let mut i = self.cells.len();
        assert(self@.cells.take(i as int) =~= self@.cells);
        while i > 0
            invariant
                i <= self.cells.len(),
                last_index_of(self@.cells, count) == last_index_of(self@.cells.take(i as int), count),
            decreases i,
        {
            assert(self@.cells.take(i as int).drop_last() =~= self@.cells.take(i - 1));
            if self.cells[i - 1].execution_count == count {
                return Some(i - 1);
            }
            i -= 1;
        }
        None
    }

    /// Starts a cell: it becomes the active one and, when it has an
    /// execution count, gets an empty capture.
    pub fn begin_cell(&mut self, execution_count: Option<u32>, code: &str)
        ensures
            final(self)@ == begin_spec(old(self)@, execution_count, code@),
    {
        self.active_execution_count = execution_count;
        if let Some(count) = execution_count {
            let mut c = String::new();
            push_text(&mut c, code);
            self.cells.push(CellOutputCapture { execution_count: count, code: c, output: String::new() });
        }
        assert(self@.cells =~= begin_spec(old(self)@, execution_count, code@).cells);
    }

    /// Records stream output; only stdout of the active cell is captured.
    pub fn append_stream(&mut self, name: StreamName, text: &str)
        ensures
            final(self)@ == append_stream_spec(old(self)@, name, text@),
    {
        if name != StreamName::Stdout {
            return;
        }
        let active = match self.active_execution_count {
            Some(a) => a,
            None => return,
        };
        match self.last_index(active) {
            Some(i) => {
                let mut out = String::new();
                push_text(&mut out, self.cells[i].output.as_str());
                push_text(&mut out, text);
                let code = self.cells[i].code.clone();
                let ec = old_cell_count(&self.cells[i]);
                self.cells.set(i, CellOutputCapture { execution_count: ec, code, output: out });
                assert(self@.cells =~= append_stream_spec(old(self)@, name, text@).cells);
            },
            None => {},
        }
    }

    /// Records an execute result for `execution_count` (or the active cell).
    pub fn append_execute_result(&mut self, execution_count: Option<u32>, text: &str)
        ensures
            final(self)@ == append_result_spec(old(self)@, execution_count, text@),
    {
        let target = match execution_count {
            Some(c) => Some(c),
            None => self.active_execution_count,
        };
        let count = match target {
            Some(c) => c,
            None => return,
        };
        match self.last_index(count) {
            Some(i) => {
                let mut out = String::new();
                push_text(&mut out, self.cells[i].output.as_str());
                append_captured_text(&mut out, text);
                let code = self.cells[i].code.clone();
                let ec = old_cell_count(&self.cells[i]);
                self.cells.set(i, CellOutputCapture { execution_count: ec, code, output: out });
                assert(self@.cells =~= append_result_spec(old(self)@, execution_count, text@).cells);
            },
            None => {},
        }
    }

    /// Ends the active cell.
    pub fn finish_active(&mut self)
        ensures
            final(self)@ == (CaptureView { active: None, ..old(self)@ }),
    {
        self.active_execution_count = None;
    }

    /// The capture a target refers to.
    pub fn resolve_output(&self, target: OutputTarget) -> (r: Result<ResolvedOutput<'_>, ResolveOutputError>)
        ensures
            match (r, resolve_spec(self@, target)) {
                (Ok(o), Ok((c, text))) => o.execution_count == c && o.output@ == text,
                (Err(e1), Err(e2)) => e1 == e2,
                _ => false,
            },
    {
        let index: usize = match target {
            OutputTarget::Previous => {
                if self.cells.len() == 0 {
                    return Err(ResolveOutputError::MissingPrevious);
                }
                self.cells.len() - 1
            },
            OutputTarget::ExecutionCount(c) => match self.last_index(c) {
                Some(i) => i,
                None => return Err(ResolveOutputError::MissingExecutionCount(c)),
            },
            OutputTarget::RelativePrevious(k) => {
                if k == 0 || k > self.cells.len() {
                    return Err(ResolveOutputError::MissingRelativePrevious(k));
                }
                self.cells.len() - k
            },
        };
        let cell = &self.cells[index];
        assert(self@.cells[index as int] == cell_view(*cell));
        if cell.output.as_str().is_empty() {
            return Err(ResolveOutputError::EmptyOutput(cell.execution_count));
        }
        Ok(ResolvedOutput { execution_count: cell.execution_count, output: cell.output.as_str() })
    }
}

fn old_cell_count(c: &CellOutputCapture) -> (r: u32)
    ensures
        r == c.execution_count,
{
    c.execution_count
}

/// Appends `text` to a capture, starting a new line first when the capture
/// is non-empty and does not end with one.
pub fn append_captured_text(captured: &mut String, text: &str)
    ensures
        final(captured)@ == captured_join(old(captured)@, text@),
{
    let cur = chars_of(captured.as_str());
    if cur.len() > 0 && cur[cur.len() - 1] != '\n' {
        push_text(captured, "\n");
        proof {
            reveal_strlit("\n");
        }
    }
    push_text(captured, text);
}

/// The outcome of reading a cell as a frontend magic.
#[derive(Debug, Clone, PartialEq, Eq)]
pub enum FrontendMagicParse {
    NotFrontendMagic,
    Magic(FrontendMagic),
    Error(String),
}

#[derive(Debug, Clone, Copy, PartialEq, Eq, Structural)]
pub enum FrontendMagic {
    PrintOutput { target: OutputTarget },
    ClipOutput { target: OutputTarget },
}

/// The tokens of `s` between ASCII whitespace (`split_ascii_whitespace`),
/// as completed tokens plus the token still being read.
pub open spec fn ws_split(s: Seq<char>) -> (Seq<Seq<char>>, Seq<char>)
    decreases s.len(),
{
    if s.len() == 0 {
        (seq![], seq![])
    } else {
        let (t, c) = ws_split(s.drop_last());
        if is_ascii_ws(s.last()) {
            if c.len() > 0 { (t.push(c), seq![]) } else { (t, seq![]) }
        } else {
            (t, c.push(s.last()))
        }
    }
}

/// `split_ascii_whitespace`.
pub open spec fn ascii_tokens(s: Seq<char>) -> Seq<Seq<char>> {
    let (t, c) = ws_split(s);
    if c.len() > 0 { t.push(c) } else { t }
}

fn ascii_tokens_exec(s: &[char]) -> (r: Vec<Vec<char>>)
    ensures
        r@.map_values(|v: Vec<char>| v@) == ascii_tokens(s@),
{
    let mut t: Vec<Vec<char>> = Vec::new();
    let mut c: Vec<char> = Vec::new();
    let mut i: usize = 0;
    while i < s.len()
        invariant
            i <= s.len(),
            (t@.map_values(|v: Vec<char>| v@), c@) == ws_split(s@.take(i as int)),
        decreases s.len() - i,
    {
        assert(s@.take(i + 1).drop_last() =~= s@.take(i as int));
        let ch = s[i];
        if ch == ' ' || ch == '\t' || ch == '\n' || ch == '\u{c}' || ch == '\r' {
            if c.len() > 0 {
                let ghost old_t = t@;
                let done = c;
                t.push(done);
                assert(t@.map_values(|v: Vec<char>| v@) =~= old_t.map_values(|v: Vec<char>| v@).push(done@));
                c = Vec::new();
            }
        } else {
            c.push(ch);
        }
        i += 1;
    }
    assert(s@.take(s.len() as int) =~= s@);
    if c.len() > 0 {
        let ghost old_t = t@;
        let done = c;
        t.push(done);
        assert(t@.map_values(|v: Vec<char>| v@) =~= old_t.map_values(|v: Vec<char>| v@).push(done@));
    }
    t
}

pub open spec fn is_digit(c: char) -> bool {
    '0' <= c && c <= '9'
}

/// The value of a string of decimal digits.
pub open spec fn digits_value(d: Seq<char>) -> nat
    decreases d.len(),
{
    if d.len() == 0 {
        0
    } else {
        10 * digits_value(d.drop_last()) + ((d.last() as nat) - ('0' as nat)) as nat
    }
}

/// Whether every character of `d` is a decimal digit.
pub open spec fn all_digits(d: Seq<char>) -> bool {
    forall|i: int| 0 <= i < d.len() ==> is_digit(#[trigger] d[i])
}

/// How many sign characters lead `s` (0 or 1).
pub open spec fn sign_len(s: Seq<char>) -> int {
    if s.len() > 0 && (s[0] == '-' || s[0] == '+') { 1 } else { 0 }
}

/// `str::parse::<i64>`: an optional sign, then one or more digits, in range.
pub open spec fn parse_i64(s: Seq<char>) -> Option<int> {
    let d = s.skip(sign_len(s));
    if d.len() == 0 || !all_digits(d) {
        None
    } else {
        let v: int = if s[0] == '-' { -(digits_value(d) as int) } else { digits_value(d) as int };
        if i64::MIN <= v <= i64::MAX { Some(v) } else { None }
    }
}

fn parse_i64_exec(s: &[char]) -> (r: Option<i64>)
    ensures
        r matches Some(v) ==> parse_i64(s@) == Some(v as int),
        r is None ==> parse_i64(s@) is None,
{
    let neg = s.len() > 0 && s[0] == '-';
    let start: usize = if s.len() > 0 && (s[0] == '-' || s[0] == '+') { 1 } else { 0 };
    let ghost d = s@.skip(start as int);
    if start == s.len() {
        assert(d.len() == 0);
        return None;
    }
    let mut i = start;
    while i < s.len()
        invariant
            start <= i <= s.len(),
            start as int == sign_len(s@),
            neg == (s@.len() > 0 && s@[0] == '-'),
            d == s@.skip(start as int),
            forall|j: int| 0 <= j < i - start ==> is_digit(d[j]),
        decreases s.len() - i,
    {
        assert(d[i - start] == s@[i as int]);
        if !('0' <= s[i] && s[i] <= '9') {
            assert(!is_digit(d[i - start]));
            assert(!all_digits(d));
            return None;
        }
        i += 1;
    }
    let limit: u128 = if neg { 9223372036854775808 } else { 9223372036854775807 };
    let mut m: u128 = 0;
    let mut k = start;
    assert(d.take(0) =~= Seq::<char>::empty());
    while k < s.len()
        invariant
            start <= k <= s.len(),
            start as int == sign_len(s@),
            neg == (s@.len() > 0 && s@[0] == '-'),
            limit == (if neg { 9223372036854775808u128 } else { 9223372036854775807u128 }),
            d == s@.skip(start as int),
            limit <= 9223372036854775808,
            forall|j: int| 0 <= j < d.len() ==> is_digit(d[j]),
            m as int == (if digits_value(d.take(k - start)) > limit { limit + 1 } else { digits_value(
                d.take(k - start),
            ) as int }),
        decreases s.len() - k,
    {
        assert(d.take(k - start + 1).drop_last() =~= d.take(k - start));
        assert(d.take(k - start + 1).last() == s@[k as int]);
        let dv = (s[k] as u32 - '0' as u32) as u128;
        proof {
            lemma_digits_value_monotone(d.take(k - start + 1));
        }
        if m > limit {
            m = limit + 1;
        } else {
            let next = 10 * m + dv;
            m = if next > limit { limit + 1 } else { next };
        }
        k += 1;
    }
    assert(d.take(s.len() - start) =~= d);
    if m > limit {
        return None;
    }
    if neg {
        if m == 9223372036854775808 {
            Some(i64::MIN)
        } else {
            Some(-(m as i64))
        }
    } else {
        Some(m as i64)
    }
}

proof fn lemma_digits_value_monotone(d: Seq<char>)
    requires
        d.len() > 0,
    ensures
        digits_value(d) >= 10 * digits_value(d.drop_last()),
{
}

/// The magics' target argument: a positive execution count, or a negative
/// offset counted back from the latest capture.
pub open spec fn parse_target_spec(raw: Seq<char>) -> Result<OutputTarget, Seq<char>> {
    match parse_i64(raw) {
        None => Err("invalid output target: "@ + raw),
        Some(v) => if v > 0 {
            if v <= u32::MAX { Ok(OutputTarget::ExecutionCount(v as u32)) }
            else { Err("output target is too large: "@ + raw) }
        } else if v < 0 {
            if -v <= usize::MAX { Ok(OutputTarget::RelativePrevious((-v) as usize)) }
            else { Err("output target is too large: "@ + raw) }
        } else {
            Err("output target must be a positive execution count or negative relative offset"@)
        },
    }
}

pub fn parse_output_target(raw: &str) -> (r: Result<OutputTarget, String>)
    ensures
        match (r, parse_target_spec(raw@)) {
            (Ok(t1), Ok(t2)) => t1 == t2,
            (Err(m1), Err(m2)) => m1@ == m2,
            _ => false,
        },
{
    let chars = chars_of(raw);
    match parse_i64_exec(chars.as_slice()) {
        None => {
            let mut out: Vec<char> = Vec::new();
            extend_str(&mut out, "invalid output target: ");
            extend_chars(&mut out, chars.as_slice());
            Err(string_from(out.as_slice()))
        },
        Some(v) => {
            if v > 0 {
                if v <= 4294967295 {
                    Ok(OutputTarget::ExecutionCount(v as u32))
                } else {
                    let mut out: Vec<char> = Vec::new();
                    extend_str(&mut out, "output target is too large: ");
                    extend_chars(&mut out, chars.as_slice());
                    Err(string_from(out.as_slice()))
                }
            } else if v < 0 {
                let magnitude: u64 = if v == i64::MIN { 9223372036854775808 } else { (-v) as u64 };
                if magnitude as u128 <= usize::MAX as u128 {
                    Ok(OutputTarget::RelativePrevious(magnitude as usize))
                } else {
                    let mut out: Vec<char> = Vec::new();
                    extend_str(&mut out, "output target is too large: ");
                    extend_chars(&mut out, chars.as_slice());
                    Err(string_from(out.as_slice()))
                }
            } else {
                let mut out: Vec<char> = Vec::new();
                extend_str(
                    &mut out,
                    "output target must be a positive execution count or negative relative offset",
                );
                Err(string_from(out.as_slice()))
            }
        },
    }
}

pub open spec fn magic_of(kind: bool, target: OutputTarget) -> FrontendMagic {
    if kind { FrontendMagic::PrintOutput { target } } else { FrontendMagic::ClipOutput { target } }
}

/// The abstract outcome of reading a cell as a frontend magic.
pub enum MagicParseView {
    NotFrontendMagic,
    Magic(FrontendMagic),
    Error(Seq<char>),
}

impl View for FrontendMagicParse {
    type V = MagicParseView;

    open spec fn view(&self) -> MagicParseView {
        match self {
            FrontendMagicParse::NotFrontendMagic => MagicParseView::NotFrontendMagic,
            FrontendMagicParse::Magic(m) => MagicParseView::Magic(*m),
            FrontendMagicParse::Error(e) => MagicParseView::Error(e@),
        }
    }
}

/// How a submitted cell reads as a frontend magic: a single line whose first
/// token is `%fpy_out` or `%fpy_clipout`, with at most one target argument.
pub open spec fn parse_magic_spec(code: Seq<char>) -> MagicParseView {
    let trimmed = trim(code);
    let toks = ascii_tokens(trimmed);
    if trimmed.contains('\n') || toks.len() == 0 {
        MagicParseView::NotFrontendMagic
    } else if toks[0] != "%fpy_out"@ && toks[0] != "%fpy_clipout"@ {
        MagicParseView::NotFrontendMagic
    } else {
        let print = toks[0] == "%fpy_out"@;
        if toks.len() == 1 {
            MagicParseView::Magic(magic_of(print, OutputTarget::Previous))
        } else if toks.len() == 2 {
            match parse_target_spec(toks[1]) {
                Ok(t) => MagicParseView::Magic(magic_of(print, t)),
                Err(m) => MagicParseView::Error(m),
            }
        } else {
            MagicParseView::Error(toks[0] + " accepts at most one argument"@)
        }
    }
}

/// Reads a submitted cell as a frontend magic.
pub fn parse_frontend_magic(code: &str) -> (r: FrontendMagicParse)
    ensures
        r@ == parse_magic_spec(code@),
{
    let chars = chars_of(code);
    let trimmed = trim_chars(chars.as_slice());
    let mut k: usize = 0;
    while k < trimmed.len()
        invariant
            k <= trimmed.len(),
            trimmed@ == trim(code@),
            forall|j: int| 0 <= j < k ==> trimmed@[j] != '\n',
        decreases trimmed.len() - k,
    {
        if trimmed[k] == '\n' {
            assert(trimmed@[k as int] == '\n');
            assert(trimmed@.contains('\n'));
            return FrontendMagicParse::NotFrontendMagic;
        }
        k += 1;
    }
    assert(!trimmed@.contains('\n'));
    let toks = ascii_tokens_exec(trimmed.as_slice());
    let ghost tv = toks@.map_values(|v: Vec<char>| v@);
    if toks.len() == 0 {
        return FrontendMagicParse::NotFrontendMagic;
    }
    assert(tv[0] == toks@[0]@);
    let out_cmd = chars_of("%fpy_out");
    let clip_cmd = chars_of("%fpy_clipout");
    let print = chars_eq(toks[0].as_slice(), out_cmd.as_slice());
    let clip = chars_eq(toks[0].as_slice(), clip_cmd.as_slice());
    if !print && !clip {
        return FrontendMagicParse::NotFrontendMagic;
    }
    if toks.len() == 1 {
        return FrontendMagicParse::Magic(
            if print { FrontendMagic::PrintOutput { target: OutputTarget::Previous } }
            else { FrontendMagic::ClipOutput { target: OutputTarget::Previous } },
        );
    }
    if toks.len() == 2 {
        assert(tv[1] == toks@[1]@);
        let raw = string_from(toks[1].as_slice());
        return match parse_output_target(raw.as_str()) {
            Ok(t) => FrontendMagicParse::Magic(
                if print { FrontendMagic::PrintOutput { target: t } }
                else { FrontendMagic::ClipOutput { target: t } },
            ),
            Err(m) => FrontendMagicParse::Error(m),
        };
    }
    let mut msg: Vec<char> = Vec::new();
    extend_chars(&mut msg, toks[0].as_slice());
    extend_str(&mut msg, " accepts at most one argument");
    FrontendMagicParse::Error(string_from(msg.as_slice()))
}

/// The message shown when a magic's target cannot be resolved.
pub open spec fn resolve_error_text(error: ResolveOutputError) -> Seq<char> {
    match error {
        ResolveOutputError::MissingPrevious => "fpy: no captured output for previous cell"@,
        ResolveOutputError::MissingExecutionCount(c) => "fpy: no captured output for In ["@ + decimal(
            c as nat,
        ) + "]"@,
        ResolveOutputError::MissingRelativePrevious(k) => "fpy: no captured output for previous cell -"@
            + decimal(k as nat),
        ResolveOutputError::EmptyOutput(c) => "fpy: In ["@ + decimal(c as nat)
            + "] produced no captured output"@,
    }
}

pub fn resolve_error_message(error: ResolveOutputError) -> (r: String)
    ensures
        r@ == resolve_error_text(error),
{
    let mut out: Vec<char> = Vec::new();
    match error {
        ResolveOutputError::MissingPrevious => {
            extend_str(&mut out, "fpy: no captured output for previous cell");
        },
        ResolveOutputError::MissingExecutionCount(c) => {
            extend_str(&mut out, "fpy: no captured output for In [");
            push_decimal(&mut out, c as u64);
            extend_str(&mut out, "]");
        },
        ResolveOutputError::MissingRelativePrevious(k) => {
            extend_str(&mut out, "fpy: no captured output for previous cell -");
            push_decimal(&mut out, k as u64);
        },
        ResolveOutputError::EmptyOutput(c) => {
            extend_str(&mut out, "fpy: In [");
            push_decimal(&mut out, c as u64);
            extend_str(&mut out, "] produced no captured output");
        },
    }
    string_from(out.as_slice())
}

/// A clipboard program and its arguments.
#[derive(Debug, Clone, PartialEq, Eq)]
pub struct ClipboardCommand {
    pub program: &'static str,
    pub args: Vec<&'static str>,
}

/// The clipboard programs tried in order: pbcopy, wl-copy, xclip, xsel.
pub fn clipboard_commands() -> (r: Vec<ClipboardCommand>)
    ensures
        r.len() == 4,
        r[0].program@ == "pbcopy"@ && r[0].args.len() == 0,
        r[1].program@ == "wl-copy"@ && r[1].args.len() == 0,
        r[2].program@ == "xclip"@ && r[2].args.len() == 2 && r[2].args[0]@ == "-selection"@
            && r[2].args[1]@ == "clipboard"@,
        r[3].program@ == "xsel"@ && r[3].args.len() == 2 && r[3].args[0]@ == "--clipboard"@
            && r[3].args[1]@ == "--input"@,
{
    let mut r: Vec<ClipboardCommand> = Vec::new();
    r.push(ClipboardCommand { program: "pbcopy", args: Vec::new() });
    r.push(ClipboardCommand { program: "wl-copy", args: Vec::new() });
    let mut xclip: Vec<&'static str> = Vec::new();
    xclip.push("-selection");
    xclip.push("clipboard");
    r.push(ClipboardCommand { program: "xclip", args: xclip });
    let mut xsel: Vec<&'static str> = Vec::new();
    xsel.push("--clipboard");
    xsel.push("--input");
    r.push(ClipboardCommand { program: "xsel", args: xsel });
    r
}

/// The state after the active cell is finished.
pub open spec fn finish_spec(s: CaptureView) -> CaptureView {
    CaptureView { active: None, ..s }
}

/// A cell's stdout reads back as it was written: after a cell counted `n`
/// starts and prints non-empty `text`, `%fpy_out n` and `%fpy_out` both
/// resolve to `(n, text)`.
pub proof fn law_capture_round_trip(s: CaptureView, n: u32, code: Seq<char>, text: Seq<char>)
    requires
        text.len() > 0,
    ensures
        resolve_spec(
            append_stream_spec(begin_spec(s, Some(n), code), StreamName::Stdout, text),
            OutputTarget::ExecutionCount(n),
        ) == Ok::<(u32, Seq<char>), ResolveOutputError>((n, text)),
        resolve_spec(
            append_stream_spec(begin_spec(s, Some(n), code), StreamName::Stdout, text),
            OutputTarget::Previous,
        ) == Ok::<(u32, Seq<char>), ResolveOutputError>((n, text)),
{
    let b = begin_spec(s, Some(n), code);
    let cell = CellView { count: n, code, output: seq![] };
    assert(b.cells.drop_last() =~= s.cells);
    assert(last_index_of(b.cells, n) == Some(s.cells.len() as int));
    let a = append_stream_spec(b, StreamName::Stdout, text);
    assert(b.cells[s.cells.len() as int].output + text =~= text);
    assert(a.cells.last().count == n);
    assert(a.cells.len() == b.cells.len());
    assert(last_index_of(a.cells, n) == Some(s.cells.len() as int));
}

/// Stderr output is never captured.
pub proof fn law_stderr_not_captured(s: CaptureView, text: Seq<char>)
    ensures
        append_stream_spec(s, StreamName::Stderr, text) == s,
{
}

/// Once the active cell is finished, stream output is no longer captured.
pub proof fn law_finished_cell_ignores_stream(s: CaptureView, text: Seq<char>)
    ensures
        append_stream_spec(finish_spec(s), StreamName::Stdout, text) == finish_spec(s),
{
}

/// `-1` names the same capture as no argument.
pub proof fn law_relative_one_is_previous(s: CaptureView)
    ensures
        resolve_spec(s, OutputTarget::RelativePrevious(1)) == resolve_spec(s, OutputTarget::Previous)
            || (s.cells.len() == 0 && resolve_spec(s, OutputTarget::RelativePrevious(1)) == Err::<
            (u32, Seq<char>),
            ResolveOutputError,
        >(ResolveOutputError::MissingRelativePrevious(1)) && resolve_spec(s, OutputTarget::Previous)
            == Err::<(u32, Seq<char>), ResolveOutputError>(ResolveOutputError::MissingPrevious)),
{
}

/// A cell that prints `out` and then returns `res` captures both, the
/// result on its own line.
pub proof fn law_stream_then_result(s: CaptureView, n: u32, code: Seq<char>, out: Seq<char>, res: Seq<char>)
    requires
        out.len() > 0 || res.len() > 0,
    ensures
        resolve_spec(
            append_result_spec(
                append_stream_spec(begin_spec(s, Some(n), code), StreamName::Stdout, out),
                Some(n),
                res,
            ),
            OutputTarget::ExecutionCount(n),
        ) == Ok::<(u32, Seq<char>), ResolveOutputError>((n, captured_join(out, res))),
{
    let b = begin_spec(s, Some(n), code);
    let k = s.cells.len() as int;
    assert(b.cells.drop_last() =~= s.cells);
    assert(last_index_of(b.cells, n) == Some(k));
    let a = append_stream_spec(b, StreamName::Stdout, out);
    assert(b.cells[k].output + out =~= out);
    assert(a.cells.len() == b.cells.len() && a.cells.last().count == n);
    assert(last_index_of(a.cells, n) == Some(k));
    let r = append_result_spec(a, Some(n), res);
    assert(r.cells.len() == a.cells.len() && r.cells.last().count == n);
    assert(last_index_of(r.cells, n) == Some(k));
    assert(captured_join(out, res).len() > 0);
}

proof fn lemma_digit_char_value(k: nat)
    requires
        k < 10,
    ensures
        (crate::chars::digit_char(k) as nat) - ('0' as nat) == k,
        is_digit(crate::chars::digit_char(k)),
{
    assert(('0' as nat) == 48 && ('1' as nat) == 49 && ('2' as nat) == 50 && ('3' as nat) == 51);
    assert(('4' as nat) == 52 && ('5' as nat) == 53 && ('6' as nat) == 54 && ('7' as nat) == 55);
    assert(('8' as nat) == 56 && ('9' as nat) == 57);
}

proof fn lemma_decimal_digits_value(n: nat)
    ensures
        decimal(n).len() >= 1,
        all_digits(decimal(n)),
        digits_value(decimal(n)) == n,
    decreases n,
{
    let d = decimal(n);
    lemma_digit_char_value(n % 10);
    assert(digits_value(Seq::<char>::empty()) == 0);
    if n < 10 {
        lemma_digit_char_value(n);
        assert(d.drop_last() =~= Seq::<char>::empty());
        assert(d.last() == crate::chars::digit_char(n));
        assert(digits_value(d) == 10 * digits_value(d.drop_last()) + ((d.last() as nat) - ('0' as nat)) as nat);
    }
    if n >= 10 {
        lemma_decimal_digits_value(n / 10);
        assert(d.drop_last() == decimal(n / 10));
        assert(d.last() == crate::chars::digit_char(n % 10));
        assert(digits_value(d) == 10 * digits_value(d.drop_last()) + ((d.last() as nat) - ('0' as nat)) as nat);
        assert forall|i: int| 0 <= i < d.len() implies is_digit(#[trigger] d[i]) by {
            if i < d.len() - 1 {
                assert(d[i] == decimal(n / 10)[i]);
            }
        }
    }
}

/// A target written as a positive execution count, or as a minus sign and
/// an offset, reads back as that count or offset; `0` is refused.
pub proof fn law_output_target_reads_back(n: nat)
    ensures
        1 <= n <= u32::MAX ==> parse_target_spec(decimal(n)) == Ok::<OutputTarget, Seq<char>>(
            OutputTarget::ExecutionCount(n as u32),
        ),
        1 <= n <= i64::MAX && n <= usize::MAX ==> parse_target_spec(seq!['-'] + decimal(n)) == Ok::<
            OutputTarget,
            Seq<char>,
        >(OutputTarget::RelativePrevious(n as usize)),
        parse_target_spec(seq!['0']) is Err,
{
    lemma_decimal_digits_value(n);
    let d = decimal(n);
    assert(is_digit(d[0]));
    assert(sign_len(d) == 0);
    assert(d.skip(0) =~= d);
    let m = seq!['-'] + d;
    assert(sign_len(m) == 1);
    assert(m.skip(1) =~= d);
    let z = seq!['0'];
    assert(z.skip(0) =~= z);
    assert(digits_value(z) == 0) by {
        assert(z.drop_last() =~= Seq::<char>::empty());
        assert(digits_value(Seq::<char>::empty()) == 0);
        assert(z.last() == '0');
        assert(digits_value(z) == 10 * digits_value(z.drop_last()) + ((z.last() as nat) - ('0' as nat)) as nat);
    }
}

} // verus!
