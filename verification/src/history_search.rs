//! Reverse history search: the entries it lists (first line, run time,
//! timestamp, outcome), their one-row summaries, fuzzy ranking of entries
//! against the query, and the popup's layout and scrolling.
use vstd::prelude::*;

use nucleo::pattern::{CaseMatching, Normalization, Pattern};
use nucleo::{Config, Matcher, Utf32Str};

use crate::chars::{
    chars_of, decimal, ends_with, extend_chars, extend_str, has_suffix, push_spaces, slice_chars, spaces,
    string_from, strs_of,
};
use crate::duration::{duration_text, format_duration_ns, zero_pad};
use crate::extensions::find;
use crate::history::{HistoryEntry, HistoryOutcome};
use crate::lines::{is_ws, is_whitespace, lines_chars, lines_of, trim, trim_chars};
use crate::syntax::{preview_spec, syntax_highlighted_history_preview};
use crate::transcript::{display_width, display_width_spec};

verus! {

broadcast use vstd::string::group_string_axioms;

/// At most this many results are shown at once.
pub open spec fn result_limit() -> nat {
    10
}

/// A history entry as the search lists it.
#[derive(Debug, Clone)]
pub struct HistorySearchEntry {
    pub code: String,
    /// The code with whitespace runs collapsed to single spaces, trimmed.
    pub search_text: String,
    pub first_line: String,
    pub line_count: usize,
    pub duration_ns: Option<u64>,
    pub timestamp_unix_ns: Option<u64>,
    pub outcome: Option<HistoryOutcome>,
}

/// The text with each run of whitespace collapsed to one space and leading
/// whitespace dropped (a trailing space may remain).
pub open spec fn squeeze_ws(s: Seq<char>) -> Seq<char>
    decreases s.len(),
{
    if s.len() == 0 {
        Seq::empty()
    } else {
        let p = squeeze_ws(s.drop_last());
        if is_ws(s.last()) {
            if p.len() == 0 || p.last() == ' ' { p } else { p.push(' ') }
        } else {
            p.push(s.last())
        }
    }
}

/// The words of the text joined by single spaces
/// (`split_whitespace().join(" ")`).
pub open spec fn search_text_spec(code: Seq<char>) -> Seq<char> {
    let q = squeeze_ws(code);
    if q.len() > 0 && q.last() == ' ' { q.drop_last() } else { q }
}

/// The first line of the code (empty for empty code).
pub open spec fn first_line_spec(code: Seq<char>) -> Seq<char> {
    if lines_of(code).len() > 0 { lines_of(code)[0] } else { Seq::empty() }
}

/// The number of lines, at least one.
pub open spec fn line_count_spec(code: Seq<char>) -> nat {
    if lines_of(code).len() > 1 { lines_of(code).len() } else { 1 }
}

/// The words of a text, without its whitespace, joined by spaces.
pub fn normalize_history_search_text(text: &str) -> (r: String)
    ensures
        r@ == search_text_spec(text@),
{
    let c = chars_of(text);
    let mut out: Vec<char> = Vec::new();
    let mut i: usize = 0;
    while i < c.len()
        invariant
            i <= c.len(),
            c@ == text@,
            out@ == squeeze_ws(text@.take(i as int)),
        decreases c.len() - i,
    {
        assert(text@.take(i + 1).drop_last() =~= text@.take(i as int));
        let ch = c[i];
        if is_whitespace(ch) {
            if out.len() > 0 && out[out.len() - 1] != ' ' {
                out.push(' ');
            }
        } else {
            out.push(ch);
        }
        i += 1;
    }
    assert(text@.take(c.len() as int) =~= text@);
    if out.len() > 0 && out[out.len() - 1] == ' ' {
        out.pop();
    }
    string_from(out.as_slice())
}

/// The metadata word for an outcome: nothing for success.
pub open spec fn outcome_text(outcome: Option<HistoryOutcome>) -> Option<Seq<char>> {
    match outcome {
        Some(HistoryOutcome::Error) => Some("error"@),
        Some(HistoryOutcome::Interrupted) => Some("interrupted"@),
        _ => None,
    }
}

/// An optional part as a list of zero or one parts.
pub open spec fn part(p: Option<Seq<char>>) -> Seq<Seq<char>> {
    match p {
        Some(x) => seq![x],
        None => Seq::empty(),
    }
}

/// The parts joined by single spaces.
pub open spec fn join_spaced(parts: Seq<Seq<char>>) -> Seq<char>
    decreases parts.len(),
{
    if parts.len() == 0 {
        Seq::empty()
    } else if parts.len() == 1 {
        parts[0]
    } else {
        join_spaced(parts.drop_last()) + " "@ + parts.last()
    }
}

/// The right-hand metadata of a summary: run time, timestamp and a
/// non-success outcome, separated by spaces.
pub open spec fn metadata_spec(
    duration_ns: Option<u64>,
    timestamp: Option<Seq<char>>,
    outcome: Option<HistoryOutcome>,
) -> Seq<char> {
    join_spaced(
        part(
            match duration_ns {
                Some(d) => Some(duration_text(d as nat)),
                None => None,
            },
        ) + part(timestamp) + part(outcome_text(outcome)),
    )
}

/// The characters of an optional string.
pub open spec fn opt_view(o: Option<String>) -> Option<Seq<char>> {
    match o {
        Some(s) => Some(s@),
        None => None,
    }
}

/// The first `width` characters of `s`.
pub open spec fn truncate_spec(s: Seq<char>, width: nat) -> Seq<char> {
    if width < s.len() { s.take(width as int) } else { s }
}

/// A result row of `width` columns: the left text (or, where it is too
/// wide, the plain left text truncated), padded, then a space and the
/// metadata; metadata that leaves no room is truncated alone.
pub open spec fn summary_spec(width: nat, left: Seq<char>, plain_left: Seq<char>, right: Seq<char>) -> Seq<char> {
    if width == 0 {
        Seq::empty()
    } else if right.len() == 0 {
        if display_width_spec(left) <= width { left } else { truncate_spec(plain_left, width) }
    } else if right.len() >= width {
        truncate_spec(right, width)
    } else {
        let lw = (width - (right.len() + 1)) as nat;
        let rendered = if display_width_spec(left) <= lw { left } else { truncate_spec(plain_left, lw) };
        let pad: nat = if display_width_spec(rendered) < lw { (lw - display_width_spec(rendered)) as nat } else { 0 };
        rendered + spaces(pad) + " "@ + right
    }
}

/// The first line, with ` …` where the cell has more lines.
pub open spec fn plain_left_spec(first_line: Seq<char>, line_count: nat) -> Seq<char> {
    if line_count > 1 { first_line + " …"@ } else { first_line }
}

/// A foreground reset (`ESC [39m`).
pub open spec fn fg_reset() -> Seq<char> {
    seq!['\u{1b}', '[', '3', '9', 'm']
}

/// The highlighted first line, closed with a foreground reset where it is
/// coloured and not already reset, with ` …` where the cell has more lines.
pub open spec fn highlighted_left_spec(first_line: Seq<char>, line_count: nat) -> Seq<char> {
    let line = preview_spec(first_line)[0];
    let closed = if find(line, seq!['\u{1b}', '[']) >= 0 && !has_suffix(line, fg_reset())
        && !has_suffix(line, seq!['\u{1b}', '[', '0', 'm']) {
        line + fg_reset()
    } else {
        line
    };
    if line_count > 1 { closed + " …"@ } else { closed }
}

/// Text in the shape `YYYYmmdd HH:MM`: eight digits, a space, two digits,
/// a colon, two digits.
pub open spec fn timestamp_text_shaped(s: Seq<char>) -> bool {
    &&& s.len() == 14
    &&& s[8] == ' '
    &&& s[11] == ':'
    &&& forall|i: int| 0 <= i < 14 && i != 8 && i != 11 ==> '0' <= #[trigger] s[i] <= '9'
}

/// The proleptic Gregorian date `(year, month, day)` of the day `days`
/// after 1970-01-01.
pub open spec fn civil_from_days(days: int) -> (int, int, int) {
    let z = days + 719468;
    let era = z / 146097;
    let doe = z - era * 146097;
    let yoe = (doe - doe / 1460 + doe / 36524 - doe / 146096) / 365;
    let doy = doe - (365 * yoe + yoe / 4 - yoe / 100);
    let mp = (5 * doy + 2) / 153;
    let day = doy - (153 * mp + 2) / 5 + 1;
    let month = if mp < 10 { mp + 3 } else { mp - 9 };
    let year = yoe + era * 400 + if month <= 2 { 1int } else { 0int };
    (year, month, day)
}

/// `YYYYmmdd HH:MM` of the date and time `secs` seconds after the epoch.
pub open spec fn minute_text(secs: int) -> Seq<char> {
    let date = civil_from_days(secs / 86400);
    let in_day = secs % 86400;
    zero_pad(decimal(date.0 as nat), 4) + zero_pad(decimal(date.1 as nat), 2) + zero_pad(decimal(date.2 as nat), 2)
        + seq![' '] + zero_pad(decimal((in_day / 3600) as nat), 2) + seq![':'] + zero_pad(
        decimal(((in_day % 3600) / 60) as nat),
        2,
    )
}

/// `minute_text` of `secs` moved by the offset `offset` (in seconds).
pub open spec fn minute_text_at(secs: int, offset: int) -> Seq<char> {
    minute_text(secs + offset)
}

/// `s` is the date and time of `secs` seconds after the epoch in some time
/// zone: moved by an offset of less than a day either way.
pub open spec fn local_minute_text(secs: int, s: Seq<char>) -> bool {
    exists|offset: int| -86400 < offset < 86400 && s == #[trigger] minute_text_at(secs, offset)
}

/// The timestamp text `t` belongs to the timestamp `ts` (Unix
/// nanoseconds): none without one, else its local date and time.
pub open spec fn timestamp_text_ok(ts: Option<u64>, t: Option<Seq<char>>) -> bool {
    match ts {
        None => t is None,
        Some(x) => t matches Some(s) && local_minute_text((x / 1_000_000_000) as int, s) && timestamp_text_shaped(s),
    }
}

/// `chrono`: the local date and time of a Unix timestamp as
/// `YYYYmmdd HH:MM` (`DateTime::<Utc>::from_timestamp`, `with_timezone(&Local)`,
/// `format("%Y%m%d %H:%M")`), or nothing out of range. The local time is
/// the timestamp moved by the machine's UTC offset, a `FixedOffset` of less
/// than a day either way (`FixedOffset::east_opt` accepts no more), so the
/// text is that of `seconds` plus some such offset; which offset is not
/// stated. For seconds from the epoch up to 18446744073 (the reach of a
/// `u64` of nanoseconds) `from_timestamp` succeeds, the local year lies
/// between 1969 and 2554 and `%Y` writes it as four digits; `%m`, `%d`,
/// `%H` and `%M` write two digits each. The nanoseconds do not reach the
/// minute.
#[verifier::external_body]
fn local_time_text(seconds: i64, nanos: u32) -> (r: Option<String>)
    ensures
        r is Some && timestamp_text_shaped(r->0@) || !(0 <= seconds <= 18446744073 && nanos < 1000000000),
        r is Some && local_minute_text(seconds as int, r->0@) || !(0 <= seconds <= 18446744073 && nanos
            < 1000000000),
{
    let utc = chrono::DateTime::<chrono::Utc>::from_timestamp(seconds, nanos)?;
    Some(utc.with_timezone(&chrono::Local).format("%Y%m%d %H:%M").to_string())
}

/// A history timestamp (Unix nanoseconds) as local `YYYYmmdd HH:MM`: the
/// date and time of its whole seconds in the machine's time zone; every
/// `u64` timestamp has one.
pub fn format_history_timestamp(timestamp_unix_ns: u64) -> (r: Option<String>)
    ensures
        r matches Some(s) && timestamp_text_shaped(s@),
        r matches Some(s) && local_minute_text((timestamp_unix_ns / 1_000_000_000) as int, s@),
        timestamp_text_ok(Some(timestamp_unix_ns), opt_view(r)),
{
    let secs: u64 = timestamp_unix_ns / 1_000_000_000;
    assert(secs <= 18_446_744_073) by (nonlinear_arith)
        requires
            secs == timestamp_unix_ns / 1_000_000_000,
            timestamp_unix_ns <= u64::MAX,
    ;
    let seconds = secs as i64;
    let nanos = (timestamp_unix_ns % 1_000_000_000) as u32;
    local_time_text(seconds, nanos)
}

fn truncate_chars(text: &[char], width: usize) -> (r: Vec<char>)
    ensures
        r@ == truncate_spec(text@, width as nat),
{
    if width < text.len() {
        let r = slice_chars(text, 0, width);
        assert(r@ =~= text@.take(width as int));
        r
    } else {
        let r = slice_chars(text, 0, text.len());
        assert(r@ =~= text@);
        r
    }
}

impl HistorySearchEntry {
    /// The entry for a freshly submitted cell.
    pub fn new(code: String) -> (r: Self)
        ensures
            r.code@ == code@,
            r.search_text@ == search_text_spec(code@),
            r.first_line@ == first_line_spec(code@),
            r.line_count == line_count_spec(code@),
            r.duration_ns is None,
            r.timestamp_unix_ns is None,
            r.outcome is None,
            search_entry_of(r, code@, None, None, None),
    {
        let c = chars_of(code.as_str());
        let ls = lines_chars(c.as_slice());
        let first_line = if ls.len() > 0 {
            string_from(ls[0].as_slice())
        } else {
            String::new()
        };
        let line_count = if ls.len() > 1 { ls.len() } else { 1 };
        HistorySearchEntry {
            search_text: normalize_history_search_text(code.as_str()),
            code,
            first_line,
            line_count,
            duration_ns: None,
            timestamp_unix_ns: None,
            outcome: None,
        }
    }

    /// The entry for a cell loaded from the history files.
    pub fn from_history_entry(entry: HistoryEntry) -> (r: Self)
        ensures
            r.code@ == entry.code@,
            r.search_text@ == search_text_spec(entry.code@),
            r.first_line@ == first_line_spec(entry.code@),
            r.line_count == line_count_spec(entry.code@),
            r.duration_ns == entry.duration_ns,
            r.timestamp_unix_ns == Some(entry.ts_unix_ns),
            r.outcome == entry.outcome,
            search_entry_of(r, entry.code@, entry.duration_ns, Some(entry.ts_unix_ns), entry.outcome),
    {
        let duration_ns = entry.duration_ns;
        let ts = entry.ts_unix_ns;
        let outcome = entry.outcome;
        let mut search = Self::new(entry.code);
        search.duration_ns = duration_ns;
        search.timestamp_unix_ns = Some(ts);
        search.outcome = outcome;
        search
    }

    /// The first line, marked with ` …` for multi-line cells.
    pub fn plain_summary_left(&self) -> (r: String)
        ensures
            r@ == plain_left_spec(self.first_line@, self.line_count as nat),
    {
        let mut out: Vec<char> = Vec::new();
        extend_str(&mut out, self.first_line.as_str());
        if self.line_count > 1 {
            extend_str(&mut out, " …");
        }
        string_from(out.as_slice())
    }

    /// The metadata, given the timestamp already formatted.
    pub fn metadata_with(&self, timestamp: Option<String>) -> (r: String)
        ensures
            r@ == metadata_spec(self.duration_ns, opt_view(timestamp), self.outcome),
    {
        let mut parts: Vec<String> = Vec::new();
        let ghost d = part(
            match self.duration_ns {
                Some(d) => Some(duration_text(d as nat)),
                None => None,
            },
        );
        match self.duration_ns {
            Some(d) => parts.push(format_duration_ns(d)),
            None => {},
        }
        assert(strs_of(parts@) =~= d);
        let ghost t = part(opt_view(timestamp));
        match timestamp {
            Some(ts) => parts.push(ts),
            None => {},
        }
        assert(strs_of(parts@) =~= d + t);
        match self.outcome {
            Some(HistoryOutcome::Error) => parts.push(string_from(chars_of("error").as_slice())),
            Some(HistoryOutcome::Interrupted) => parts.push(
                string_from(chars_of("interrupted").as_slice()),
            ),
            _ => {},
        }
        assert(strs_of(parts@) =~= d + t + part(outcome_text(self.outcome)));
        join_with_spaces(&parts)
    }

    /// The metadata shown right of a result: run time, local timestamp and
    /// outcome. The timestamp's text is its date and time in the machine's
    /// time zone (see `timestamp_text_ok`).
    pub fn metadata(&self) -> (r: String)
        ensures
            self.timestamp_unix_ns is None ==> r@ == metadata_spec(self.duration_ns, None, self.outcome),
            exists|t: Option<Seq<char>>|
                #[trigger] timestamp_text_ok(self.timestamp_unix_ns, t) && r@ == metadata_spec(
                    self.duration_ns,
                    t,
                    self.outcome,
                ),
    {
        let ts = match self.timestamp_unix_ns {
            Some(ts) => format_history_timestamp(ts),
            None => None,
        };
        let ghost tv = opt_view(ts);
        let r = self.metadata_with(ts);
        assert(r@ == metadata_spec(self.duration_ns, tv, self.outcome));
        assert(timestamp_text_ok(self.timestamp_unix_ns, tv));
        r
    }

    /// A result row of `width` columns with `left` as its left text and
    /// `right` as its metadata.
    pub fn summary_with_left(&self, width: usize, left: &str, right: &str) -> (r: String)
        ensures
            r@ == summary_spec(
                width as nat,
                left@,
                plain_left_spec(self.first_line@, self.line_count as nat),
                right@,
            ),
    {
        let mut out: Vec<char> = Vec::new();
        if width == 0 {
            return String::new();
        }
        let rc = chars_of(right);
        let plain = self.plain_summary_left();
        let pc = chars_of(plain.as_str());
        let lw_full = display_width(left);
        if rc.len() == 0 {
            if lw_full <= width {
                extend_str(&mut out, left);
            } else {
                extend_chars(&mut out, truncate_chars(pc.as_slice(), width).as_slice());
            }
            return string_from(out.as_slice());
        }
        if rc.len() >= width {
            return string_from(truncate_chars(rc.as_slice(), width).as_slice());
        }
        let lw = width - (rc.len() + 1);
        let rendered: Vec<char> = if lw_full <= lw {
            chars_of(left)
        } else {
            truncate_chars(pc.as_slice(), lw)
        };
        let rendered_s = string_from(rendered.as_slice());
        let rw = display_width(rendered_s.as_str());
        let pad = if rw < lw { lw - rw } else { 0 };
        extend_chars(&mut out, rendered.as_slice());
        push_spaces(&mut out, pad);
        extend_str(&mut out, " ");
        extend_chars(&mut out, rc.as_slice());
        string_from(out.as_slice())
    }

    /// The highlighted first line used as a result's left text.
    pub fn highlighted_left(&self) -> (r: String)
        ensures
            r@ == highlighted_left_spec(self.first_line@, self.line_count as nat),
    {
        let lines = syntax_highlighted_history_preview(self.first_line.as_str());
        let line = chars_of(lines[0].as_str());
        assert(line@ == preview_spec(self.first_line@)[0]);
        let mut out: Vec<char> = Vec::new();
        extend_chars(&mut out, line.as_slice());
        let csi = chars_of("\u{1b}[");
        let reset_fg = chars_of("\u{1b}[39m");
        let reset_all = chars_of("\u{1b}[0m");
        proof {
            reveal_strlit("\u{1b}[");
            reveal_strlit("\u{1b}[39m");
            reveal_strlit("\u{1b}[0m");
            assert(csi@ =~= seq!['\u{1b}', '[']);
            assert(reset_fg@ =~= fg_reset());
            assert(reset_all@ =~= seq!['\u{1b}', '[', '0', 'm']);
        }
        let has_csi = match crate::extensions::find_chars(line.as_slice(), csi.as_slice()) {
            Some(_) => true,
            None => false,
        };
        if has_csi && !ends_with(line.as_slice(), reset_fg.as_slice()) && !ends_with(
            line.as_slice(),
            reset_all.as_slice(),
        ) {
            extend_chars(&mut out, reset_fg.as_slice());
        }
        if self.line_count > 1 {
            extend_str(&mut out, " …");
        }
        string_from(out.as_slice())
    }

    /// The result row for this entry: the highlighted first line and the
    /// metadata, fitted to `width` columns.
    pub fn highlighted_summary(&self, width: usize) -> (r: String)
        ensures
            self.timestamp_unix_ns is None ==> r@ == summary_spec(
                width as nat,
                highlighted_left_spec(self.first_line@, self.line_count as nat),
                plain_left_spec(self.first_line@, self.line_count as nat),
                metadata_spec(self.duration_ns, None, self.outcome),
            ),
            exists|t: Option<Seq<char>>|
                #[trigger] timestamp_text_ok(self.timestamp_unix_ns, t) && r@ == summary_for(*self, width as nat, t),
    {
        let left = self.highlighted_left();
        let right = self.metadata();
        self.summary_with_left(width, left.as_str(), right.as_str())
    }
}

/// A result row of `width` columns for `e`, with `t` as its timestamp text.
pub open spec fn summary_for(e: HistorySearchEntry, width: nat, t: Option<Seq<char>>) -> Seq<char> {
    summary_spec(
        width,
        highlighted_left_spec(e.first_line@, e.line_count as nat),
        plain_left_spec(e.first_line@, e.line_count as nat),
        metadata_spec(e.duration_ns, t, e.outcome),
    )
}

/// Joins strings with single spaces.
pub fn join_with_spaces(parts: &Vec<String>) -> (r: String)
    ensures
        r@ == join_spaced(strs_of(parts@)),
{
    let mut out: Vec<char> = Vec::new();
    let mut i: usize = 0;
    while i < parts.len()
        invariant
            i <= parts.len(),
            out@ == join_spaced(strs_of(parts@).take(i as int)),
        decreases parts.len() - i,
    {
        if i > 0 {
            extend_str(&mut out, " ");
        }
        extend_str(&mut out, parts[i].as_str());
        assert(strs_of(parts@).take(i + 1).drop_last() =~= strs_of(parts@).take(i as int));
        proof {
            if i == 0 {
                assert(strs_of(parts@).take(1) =~= seq![parts@[0]@]);
            }
        }
        i += 1;
    }
    assert(strs_of(parts@).take(parts.len() as int) =~= strs_of(parts@));
    string_from(out.as_slice())
}

/// How well `text` matches the fuzzy query (higher is better), or nothing
/// where it does not match.
pub uninterp spec fn fuzzy_score(query: Seq<char>, text: Seq<char>) -> Option<u32>;

/// `nucleo`: `Pattern::parse(query, CaseMatching::Smart, Normalization::Smart)`
/// scored against `text` with a matcher of the default configuration. The
/// score is a function of the query and the text (the matcher only lends
/// scratch space).
#[verifier::external_body]
fn nucleo_score(query: &str, text: &str) -> (r: Option<u32>)
    ensures
        r == fuzzy_score(query@, text@),
{
    let pattern = Pattern::parse(query, CaseMatching::Smart, Normalization::Smart);
    let mut matcher = Matcher::new(Config::DEFAULT);
    let mut buf = Vec::new();
    pattern.score(Utf32Str::new(text, &mut buf), &mut matcher)
}

/// Whether result `a` (score, index) ranks before result `b`: the higher
/// score first, the newer entry first among equal scores.
pub open spec fn ranks_before(a: (u32, usize), b: (u32, usize)) -> bool {
    a.0 > b.0 || (a.0 == b.0 && a.1 > b.1)
}

/// The results of a search for `query` among `entries`: with a blank query
/// every entry, newest first; otherwise exactly the matching entries, best
/// score first and newest first among equal scores.
pub open spec fn ranked_results(query: Seq<char>, entries: Seq<HistorySearchEntry>, results: Seq<usize>) -> bool {
    if trim(query).len() == 0 {
        &&& results.len() == entries.len()
        &&& forall|k: int| 0 <= k < entries.len() ==> #[trigger] results[k] == entries.len() - 1 - k
    } else {
        &&& forall|i: int| 0 <= i < entries.len() ==> (entry_score(query, entries, i) is Some <==> results.contains(
            i as usize,
        ))
        &&& forall|k: int| 0 <= k < results.len() ==> (#[trigger] results[k]) < entries.len()
            && entry_score(query, entries, results[k] as int) is Some
        &&& forall|a: int, b: int| 0 <= a < b < results.len() ==> ranks_before(
            (entry_score(query, entries, results[a] as int)->0, results[a]),
            (entry_score(query, entries, results[b] as int)->0, results[b]),
        )
    }
}

/// The search entry of a cell: its code with the texts derived from it,
/// and the run's metadata.
pub open spec fn search_entry_of(
    e: HistorySearchEntry,
    code: Seq<char>,
    duration_ns: Option<u64>,
    timestamp_unix_ns: Option<u64>,
    outcome: Option<HistoryOutcome>,
) -> bool {
    &&& e.code@ == code
    &&& e.search_text@ == search_text_spec(code)
    &&& e.first_line@ == first_line_spec(code)
    &&& e.line_count == line_count_spec(code)
    &&& e.duration_ns == duration_ns
    &&& e.timestamp_unix_ns == timestamp_unix_ns
    &&& e.outcome == outcome
}

/// The state of the open search: query, ranked entry indices, the
/// selected result and the first result shown.
#[derive(Debug)]
pub struct HistorySearchState {
    pub open: bool,
    pub query: String,
    pub results: Vec<usize>,
    pub selected: usize,
    pub scroll: usize,
}

/// The score of entry `i` against the trimmed query.
pub open spec fn entry_score(query: Seq<char>, entries: Seq<HistorySearchEntry>, i: int) -> Option<u32> {
    fuzzy_score(trim(query), entries[i].search_text@)
}

impl HistorySearchState {
    pub fn new() -> (r: Self)
        ensures
            !r.open,
            r.query@.len() == 0,
            r.results@.len() == 0,
            r.selected == 0,
            r.scroll == 0,
    {
        HistorySearchState { open: false, query: String::new(), results: Vec::new(), selected: 0, scroll: 0 }
    }

    /// Ranks the entries against the query. With a blank query every entry
    /// is listed, newest first; otherwise the matching entries, best score
    /// first and newest first among equal scores. The selection and scroll
    /// go back to the top.
    pub fn refresh_results(&mut self, entries: &Vec<HistorySearchEntry>)
        ensures
            final(self).query@ == old(self).query@,
            final(self).open == old(self).open,
            final(self).selected == 0,
            final(self).scroll == 0,
            ranked_results(old(self).query@, entries@, final(self).results@),
            trim(old(self).query@).len() == 0 ==> (final(self).results@.len() == entries.len()
                && forall|k: int| 0 <= k < entries.len() ==> #[trigger] final(self).results@[k]
                == entries.len() - 1 - k),
            trim(old(self).query@).len() > 0 ==> {
                &&& forall|i: int| 0 <= i < entries.len() ==> (entry_score(old(self).query@, entries@, i) is Some
                    <==> final(self).results@.contains(i as usize))
                &&& forall|a: int, b: int| 0 <= a < b < final(self).results@.len() ==> ranks_before(
                    (entry_score(old(self).query@, entries@, final(self).results@[a] as int)->0,
                        final(self).results@[a]),
                    (entry_score(old(self).query@, entries@, final(self).results@[b] as int)->0,
                        final(self).results@[b]),
                )
            },
    {
        let qc = chars_of(self.query.as_str());
        let q = trim_chars(qc.as_slice());
        self.selected = 0;
        self.scroll = 0;
        if q.len() == 0 {
            let mut r: Vec<usize> = Vec::new();
            let mut k: usize = 0;
            while k < entries.len()
                invariant
                    k <= entries.len(),
                    r@.len() == k,
                    forall|j: int| 0 <= j < k ==> #[trigger] r@[j] == entries.len() - 1 - j,
                decreases entries.len() - k,
            {
                r.push(entries.len() - 1 - k);
                k += 1;
            }
            self.results = r;
            return;
        }
        let query = string_from(q.as_slice());
        let ghost qs = trim(old(self).query@);
        let mut keys: Vec<(u32, usize)> = Vec::new();
        let mut i: usize = 0;
        while i < entries.len()
            invariant
                i <= entries.len(),
                query@ == qs,
                qs == trim(old(self).query@),
                forall|a: int, b: int| 0 <= a < b < keys@.len() ==> ranks_before(#[trigger] keys@[a], #[trigger] keys@[b]),
                forall|a: int| 0 <= a < keys@.len() ==> (#[trigger] keys@[a]).1 < i && fuzzy_score(qs, entries@[keys@[a].1 as int].search_text@) == Some(keys@[a].0),
                forall|j: int| 0 <= j < i ==> (fuzzy_score(qs, entries@[j].search_text@) is Some <==> exists|a: int| 0 <= a < keys@.len() && (#[trigger] keys@[a]).1 == j),
            decreases entries.len() - i,
        {
            match nucleo_score(query.as_str(), entries[i].search_text.as_str()) {
                Some(score) => {
                    let key = (score, i);
                    let mut p: usize = keys.len();
                    while p > 0 && (score > keys[p - 1].0 || (score == keys[p - 1].0 && i > keys[p - 1].1))
                        invariant
                            p <= keys.len(),
                            key == (score, i),
                            forall|a: int| p <= a < keys@.len() ==> ranks_before(key, #[trigger] keys@[a]),
                        decreases p,
                    {
                        p -= 1;
                    }
                    let ghost old_keys = keys@;
                    proof {
                        assert forall|a: int| 0 <= a < p implies ranks_before(#[trigger] old_keys[a], key) by {
                            assert(old_keys[a].1 < i);
                            if a < p - 1 {
                                assert(ranks_before(old_keys[a], old_keys[p - 1]));
                            }
                        }
                    }
                    keys.insert(p, key);
                    assert(keys@ =~= old_keys.insert(p as int, key));
                    proof {
                        assert forall|a: int, b: int| 0 <= a < b < keys@.len() implies ranks_before(#[trigger] keys@[a], #[trigger] keys@[b]) by {
                            if a < p && b == p {
                            } else if a == p {
                                assert(keys@[b] == old_keys[b - 1]);
                            } else {
                                let oa = if a < p { a } else { a - 1 };
                                let ob = if b < p { b } else { b - 1 };
                                assert(keys@[a] == old_keys[oa]);
                                assert(keys@[b] == old_keys[ob]);
                            }
                        }
                        assert forall|a: int| 0 <= a < keys@.len() implies (#[trigger] keys@[a]).1 < i + 1 && fuzzy_score(qs, entries@[keys@[a].1 as int].search_text@) == Some(keys@[a].0) by {
                            if a < p {
                                assert(keys@[a] == old_keys[a]);
                            } else if a > p {
                                assert(keys@[a] == old_keys[a - 1]);
                            }
                        }
                        assert forall|j: int| 0 <= j < i + 1 implies (fuzzy_score(qs, entries@[j].search_text@) is Some <==> exists|a: int| 0 <= a < keys@.len() && (#[trigger] keys@[a]).1 == j) by {
                            if j < i {
                                if exists|a: int| 0 <= a < old_keys.len() && (#[trigger] old_keys[a]).1 == j {
                                    let a = choose|a: int| 0 <= a < old_keys.len() && (#[trigger] old_keys[a]).1 == j;
                                    let na = if a < p { a } else { a + 1 };
                                    assert(keys@[na] == old_keys[a]);
                                }
                                if exists|a: int| 0 <= a < keys@.len() && (#[trigger] keys@[a]).1 == j {
                                    let a = choose|a: int| 0 <= a < keys@.len() && (#[trigger] keys@[a]).1 == j;
                                    assert(a != p);
                                    let oa = if a < p { a } else { a - 1 };
                                    assert(keys@[a] == old_keys[oa]);
                                }
                            } else {
                                assert(keys@[p as int].1 == j);
                            }
                        }
                    }
                },
                None => {
                    proof {
                        assert forall|j: int| 0 <= j < i + 1 implies (fuzzy_score(qs, entries@[j].search_text@) is Some <==> exists|a: int| 0 <= a < keys@.len() && (#[trigger] keys@[a]).1 == j) by {
                            if j == i {
                                if exists|a: int| 0 <= a < keys@.len() && (#[trigger] keys@[a]).1 == j {
                                    let a = choose|a: int| 0 <= a < keys@.len() && (#[trigger] keys@[a]).1 == j;
                                    assert(keys@[a].1 < i);
                                }
                            }
                        }
                    }
                },
            }
            i += 1;
        }
        let mut r: Vec<usize> = Vec::new();
        let mut k: usize = 0;
        while k < keys.len()
            invariant
                k <= keys.len(),
                r@.len() == k,
                forall|a: int| 0 <= a < k ==> #[trigger] r@[a] == keys@[a].1,
            decreases keys.len() - k,
        {
            r.push(keys[k].1);
            k += 1;
        }
        self.results = r;
        proof {
            let rs = self.results@;
            assert forall|j: int| 0 <= j < entries.len() implies (entry_score(old(self).query@, entries@, j) is Some
                <==> rs.contains(j as usize)) by {
                if entry_score(old(self).query@, entries@, j) is Some {
                    let a = choose|a: int| 0 <= a < keys@.len() && (#[trigger] keys@[a]).1 == j;
                    assert(rs[a] == j);
                }
                if rs.contains(j as usize) {
                    let a = choose|a: int| 0 <= a < rs.len() && rs[a] == j as usize;
                    assert(keys@[a].1 == j);
                }
            }
            assert forall|k: int| 0 <= k < rs.len() implies (#[trigger] rs[k]) < entries.len()
                && entry_score(old(self).query@, entries@, rs[k] as int) is Some by {
                assert(rs[k] == keys@[k].1);
            }
            assert forall|a: int, b: int| 0 <= a < b < rs.len() implies ranks_before(
                (entry_score(old(self).query@, entries@, rs[a] as int)->0, rs[a]),
                (entry_score(old(self).query@, entries@, rs[b] as int)->0, rs[b]),
            ) by {
                assert(ranks_before(keys@[a], keys@[b]));
            }
        }
    }
}

/// Heights of the result list and the preview inside a popup of
/// `popup_height` rows: both fit where they can (the results capped at the
/// limit, at least one row each; the preview's rows taken as a `u16`, that
/// is modulo 65536); otherwise the preview keeps its rows and
/// the results take what is left, at least one row.
pub open spec fn layout_spec(popup_height: nat, result_count: nat, preview_rows: nat) -> (nat, nat) {
    let available: nat = if popup_height >= 6 { (popup_height - 4) as nat } else { 2 };
    let desired_results: nat = if result_count < 1 { 1 } else if result_count > result_limit() { result_limit() } else { result_count };
    let desired_preview: nat = (if preview_rows < 1 { 1 } else { preview_rows }) % 65536;
    if desired_results + desired_preview <= available {
        (desired_results, desired_preview)
    } else {
        let room: nat = if available > desired_preview + 1 { (available - desired_preview) as nat } else { 1 };
        let results: nat = if desired_results < room { desired_results } else { room };
        let preview: nat = if available > results + 1 { (available - results) as nat } else { 1 };
        (results, preview)
    }
}

/// The result-list and preview heights of the search popup.
pub fn history_search_layout_for_popup(popup_height: u16, result_count: usize, preview_rows: usize) -> (r: (u16, u16))
    ensures
        r.0 as nat == layout_spec(popup_height as nat, result_count as nat, preview_rows as nat).0,
        r.1 as nat == layout_spec(popup_height as nat, result_count as nat, preview_rows as nat).1,
{
    let available: u16 = if popup_height >= 6 { popup_height - 4 } else { 2 };
    let desired_results: u16 = if result_count < 1 { 1 } else if result_count > 10 { 10 } else { result_count as u16 };
    let desired_preview: u16 = if preview_rows < 1 { 1 } else { (preview_rows % 65536) as u16 };
    if (desired_results as u32) + (desired_preview as u32) <= available as u32 {
        return (desired_results, desired_preview);
    }
    let room: u16 = if available > desired_preview && available - desired_preview > 1 { available - desired_preview } else { 1 };
    let results: u16 = if desired_results < room { desired_results } else { room };
    let preview: u16 = if available > results && available - results > 1 { available - results } else { 1 };
    (results, preview)
}

/// The first result shown so that the selection stays visible, kept up to
/// five rows from the bottom of the list where the results allow.
pub open spec fn scroll_spec(result_count: nat, visible_rows: nat, selected: nat) -> nat {
    if visible_rows == 0 {
        0
    } else {
        let max_scroll: nat = if result_count > visible_rows { (result_count - visible_rows) as nat } else { 0 };
        let preferred: nat = if visible_rows - 1 < 4 { (visible_rows - 1) as nat } else { 4 };
        let s: nat = if selected > preferred { (selected - preferred) as nat } else { 0 };
        if s < max_scroll { s } else { max_scroll }
    }
}

/// The scroll offset of the result list for a selection.
pub fn history_search_scroll_for_selection(result_count: usize, visible_rows: usize, selected: usize) -> (r: usize)
    ensures
        r == scroll_spec(result_count as nat, visible_rows as nat, selected as nat),
{
    if visible_rows == 0 {
        return 0;
    }
    let max_scroll = if result_count > visible_rows { result_count - visible_rows } else { 0 };
    let preferred = if visible_rows - 1 < 4 { visible_rows - 1 } else { 4 };
    let s = if selected > preferred { selected - preferred } else { 0 };
    if s < max_scroll { s } else { max_scroll }
}

/// With room for at least one row and a selection among the results, the
/// scroll offset keeps the selection visible (`s <= selected < s + visible_rows`)
/// and never scrolls past the end of the list: the offset is 0 where all the
/// results fit, and at most `result_count - visible_rows` otherwise. The list
/// scrolls only to bring the selection four rows below the top (fewer where the
/// popup is smaller), or as far as the list goes.
pub proof fn law_scroll_keeps_selection_visible(result_count: nat, visible_rows: nat, selected: nat)
    requires
        visible_rows > 0,
        selected < result_count,
    ensures
        ({
            let s = scroll_spec(result_count, visible_rows, selected);
            &&& s <= selected < s + visible_rows
            &&& result_count <= visible_rows ==> s == 0
            &&& result_count > visible_rows ==> s + visible_rows <= result_count
            &&& s > 0 ==> (selected - s == if visible_rows - 1 < 4 { visible_rows - 1 } else { 4 }
                || s + visible_rows == result_count)
        }),
{
}

/// The popup's rows above its frame (`popup_height - 4`, at least 2) are
/// shared between the result list and the preview: each gets at least one
/// row and no more than it asks for (the results up to the result limit,
/// the preview at least one row); where both fit they get what they ask
/// for, and otherwise they fill the available rows exactly.
pub proof fn law_layout_shares_the_popup(popup_height: nat, result_count: nat, preview_rows: nat)
    requires
        preview_rows < 65536,
    ensures
        ({
            let (results, preview) = layout_spec(popup_height, result_count, preview_rows);
            let available: nat = if popup_height >= 6 { (popup_height - 4) as nat } else { 2 };
            let want_results: nat = if result_count == 0 { 1 } else if result_count > result_limit() {
                result_limit()
            } else {
                result_count
            };
            let want_preview: nat = if preview_rows == 0 { 1 } else { preview_rows };
            &&& 1 <= results <= want_results
            &&& 1 <= preview <= want_preview
            &&& results + preview <= available
            &&& want_results + want_preview <= available ==> results == want_results && preview == want_preview
            &&& want_results + want_preview > available ==> results + preview == available
        }),
{
}

/// A search with a non-blank query lists each matching entry exactly once
/// and nothing else, best score first, and among equal scores the newer
/// (higher-indexed) entry first. A blank query lists every entry once,
/// newest first.
pub proof fn law_ranking_is_best_first(query: Seq<char>, entries: Seq<HistorySearchEntry>, results: Seq<usize>)
    requires
        ranked_results(query, entries, results),
    ensures
        forall|a: int, b: int| #![trigger results[a], results[b]]
            0 <= a < b < results.len() ==> results[a] != results[b],
        forall|k: int| 0 <= k < results.len() ==> (#[trigger] results[k]) < entries.len(),
        trim(query).len() > 0 ==> forall|i: int| 0 <= i < entries.len() ==> (
            fuzzy_score(trim(query), entries[i].search_text@) is Some <==> results.contains(i as usize)),
        trim(query).len() > 0 ==> forall|a: int, b: int| #![trigger results[a], results[b]]
            0 <= a < b < results.len() ==> ({
                let sa = fuzzy_score(trim(query), entries[results[a] as int].search_text@)->0;
                let sb = fuzzy_score(trim(query), entries[results[b] as int].search_text@)->0;
                sa > sb || (sa == sb && results[a] > results[b])
            }),
        trim(query).len() == 0 ==> results.len() == entries.len() && forall|k: int| 0 <= k < results.len()
            ==> #[trigger] results[k] == entries.len() - 1 - k,
{
    if trim(query).len() > 0 {
        assert forall|a: int, b: int| #![trigger results[a], results[b]]
            0 <= a < b < results.len() implies results[a] != results[b] by {
            assert(ranks_before(
                (entry_score(query, entries, results[a] as int)->0, results[a]),
                (entry_score(query, entries, results[b] as int)->0, results[b]),
            ));
        }
        assert forall|i: int| 0 <= i < entries.len() implies (fuzzy_score(trim(query), entries[i].search_text@)
            is Some <==> results.contains(i as usize)) by {
            assert(entry_score(query, entries, i) == fuzzy_score(trim(query), entries[i].search_text@));
        }
        assert forall|a: int, b: int| #![trigger results[a], results[b]] 0 <= a < b < results.len() implies ({
            let sa = fuzzy_score(trim(query), entries[results[a] as int].search_text@)->0;
            let sb = fuzzy_score(trim(query), entries[results[b] as int].search_text@)->0;
            sa > sb || (sa == sb && results[a] > results[b])
        }) by {
            assert(ranks_before(
                (entry_score(query, entries, results[a] as int)->0, results[a]),
                (entry_score(query, entries, results[b] as int)->0, results[b]),
            ));
        }
    }
}

/// A result row ends with a space and the metadata where the metadata
/// leaves room for more; metadata as wide as the row or wider is cut to the
/// row's width and shown alone; without metadata the row is the left text,
/// or the plain left text cut to the width where the left text is too wide.
/// A row of no columns is empty.
pub proof fn law_summary_ends_with_metadata(width: nat, left: Seq<char>, plain_left: Seq<char>, right: Seq<char>)
    ensures
        ({
            let row = summary_spec(width, left, plain_left, right);
            &&& width == 0 ==> row.len() == 0
            &&& 0 < right.len() < width ==> row.len() > right.len() && row.skip(row.len() - right.len() - 1)
                == " "@ + right
            &&& 0 < width <= right.len() ==> row == right.take(width as int)
            &&& width > 0 && right.len() == 0 && display_width_spec(left) <= width ==> row == left
            &&& width > 0 && right.len() == 0 && display_width_spec(left) > width ==> row == plain_left.take(
                if width < plain_left.len() { width as int } else { plain_left.len() as int },
            )
        }),
{
    reveal_strlit(" ");
    let row = summary_spec(width, left, plain_left, right);
    if 0 < right.len() < width {
        let lw = (width - (right.len() + 1)) as nat;
        let rendered = if display_width_spec(left) <= lw { left } else { truncate_spec(plain_left, lw) };
        let pad: nat = if display_width_spec(rendered) < lw { (lw - display_width_spec(rendered)) as nat } else { 0 };
        let head = rendered + spaces(pad);
        assert(row == head + (" "@ + right));
        assert(row.skip(row.len() - right.len() - 1) =~= " "@ + right);
    }
    if width > 0 && right.len() == 0 && display_width_spec(left) > width {
        if width >= plain_left.len() {
            assert(plain_left.take(plain_left.len() as int) =~= plain_left);
        }
    }
}

/// The characters that are not whitespace.
pub open spec fn non_ws() -> spec_fn(char) -> bool {
    |c: char| !is_ws(c)
}

proof fn lemma_squeeze_ws_shape(s: Seq<char>)
    ensures
        ({
            let p = squeeze_ws(s);
            &&& forall|i: int| 0 <= i < p.len() ==> #[trigger] p[i] == ' ' || !crate::lines::is_ws(p[i])
            &&& p.len() > 0 ==> p[0] != ' '
            &&& forall|i: int| 0 <= i < p.len() - 1 ==> !(#[trigger] p[i] == ' ' && p[i + 1] == ' ')
            &&& p.filter(non_ws()) == s.filter(non_ws())
        }),
    decreases s.len(),
{
    reveal(Seq::filter);
    if s.len() > 0 {
        let prev = s.drop_last();
        lemma_squeeze_ws_shape(prev);
        let q = squeeze_ws(prev);
        let p = squeeze_ws(s);
        let c = s.last();
        let nonws = non_ws();
        if crate::lines::is_ws(c) {
            if q.len() == 0 || q.last() == ' ' {
                assert(p == q);
            } else {
                assert(p == q.push(' '));
                assert(p.drop_last() =~= q);
                assert forall|i: int| 0 <= i < p.len() implies #[trigger] p[i] == ' ' || !crate::lines::is_ws(p[i]) by {
                    if i < q.len() {
                        assert(p[i] == q[i]);
                    }
                }
                assert forall|i: int| 0 <= i < p.len() - 1 implies !(#[trigger] p[i] == ' ' && p[i + 1] == ' ') by {
                    assert(p[i] == q[i]);
                    if i + 1 < q.len() {
                        assert(p[i + 1] == q[i + 1]);
                    }
                }
                assert(p.filter(nonws) == p.drop_last().filter(nonws));
            }
        } else {
            assert(p == q.push(c));
            assert(p.drop_last() =~= q);
            assert forall|i: int| 0 <= i < p.len() implies #[trigger] p[i] == ' ' || !crate::lines::is_ws(p[i]) by {
                if i < q.len() {
                    assert(p[i] == q[i]);
                }
            }
            assert forall|i: int| 0 <= i < p.len() - 1 implies !(#[trigger] p[i] == ' ' && p[i + 1] == ' ') by {
                assert(p[i] == q[i]);
                if i + 1 < q.len() {
                    assert(p[i + 1] == q[i + 1]);
                }
            }
            assert(nonws(c));
            assert(p.filter(nonws) == p.drop_last().filter(nonws).push(p.last()));
        }
    }
}

/// The search text of a cell is its words, in order, joined by single
/// spaces: it holds exactly the cell's non-whitespace characters in order,
/// and besides them only spaces, never two together, never at either end.
pub proof fn law_search_text_is_the_words(code: Seq<char>)
    ensures
        ({
            let t = search_text_spec(code);
            &&& t.filter(non_ws()) == code.filter(non_ws())
            &&& forall|i: int| 0 <= i < t.len() ==> #[trigger] t[i] == ' ' || !crate::lines::is_ws(t[i])
            &&& forall|i: int| 0 <= i < t.len() - 1 ==> !(#[trigger] t[i] == ' ' && t[i + 1] == ' ')
            &&& t.len() > 0 ==> t[0] != ' ' && t.last() != ' '
        }),
{
    reveal(Seq::filter);
    lemma_squeeze_ws_shape(code);
    let q = squeeze_ws(code);
    let t = search_text_spec(code);
    let nonws = non_ws();
    if q.len() > 0 && q.last() == ' ' {
        assert(t == q.drop_last());
        assert(q.drop_last().push(q.last()) =~= q);
        assert(!nonws(q.last()));
        assert(q.filter(nonws) == q.drop_last().filter(nonws));
        assert forall|i: int| 0 <= i < t.len() implies #[trigger] t[i] == ' ' || !crate::lines::is_ws(t[i]) by {
            assert(t[i] == q[i]);
        }
        assert forall|i: int| 0 <= i < t.len() - 1 implies !(#[trigger] t[i] == ' ' && t[i + 1] == ' ') by {
            assert(t[i] == q[i]);
            assert(t[i + 1] == q[i + 1]);
        }
        if t.len() > 0 {
            assert(t[0] == q[0]);
            assert(t.last() == q[q.len() - 2]);
            assert(!(q[q.len() - 2] == ' ' && q[q.len() - 1] == ' '));
        }
    }
}

} // verus!
