//! Persistent input history: the records sessions append (`cell` when a
//! cell is submitted, `cell_done` when it finishes), and the merge that
//! turns every session's records back into one list of entries ordered by
//! time.
use vstd::prelude::*;

use crate::chars::{chars_of, extend_str, owned, string_from};
use crate::lines::{split_chars, split_on, trim, trim_chars};

verus! {

broadcast use vstd::string::group_string_axioms;

/// How an executed cell ended.
#[derive(Debug, Clone, Copy, PartialEq, Eq, Structural)]
pub enum HistoryOutcome {
    Success,
    Error,
    Interrupted,
}

/// One submitted cell, with its run time and outcome once known.
#[derive(Debug, Clone)]
pub struct HistoryEntry {
    /// The session's UUID as a 128-bit integer (big-endian, so integer
    /// order is UUID order).
    pub session_id: u128,
    pub entry_seq: u64,
    pub ts_unix_ns: u64,
    pub host: String,
    pub pid: u32,
    pub code: String,
    pub duration_ns: Option<u64>,
    pub outcome: Option<HistoryOutcome>,
}

/// One line of a session's history file.
#[derive(Debug, Clone)]
pub enum HistoryRecord {
    Cell {
        v: u8,
        session_id: u128,
        entry_seq: u64,
        ts_unix_ns: u64,
        host: String,
        pid: u32,
        code: String,
    },
    CellDone {
        v: u8,
        session_id: u128,
        entry_seq: u64,
        ts_unix_ns: u64,
        duration_ns: u64,
        outcome: HistoryOutcome,
    },
}

/// A history entry with its strings as character sequences.
pub struct EntryView {
    pub session_id: u128,
    pub entry_seq: u64,
    pub ts_unix_ns: u64,
    pub host: Seq<char>,
    pub pid: u32,
    pub code: Seq<char>,
    pub duration_ns: Option<u64>,
    pub outcome: Option<HistoryOutcome>,
}

impl View for HistoryEntry {
    type V = EntryView;

    open spec fn view(&self) -> EntryView {
        EntryView {
            session_id: self.session_id,
            entry_seq: self.entry_seq,
            ts_unix_ns: self.ts_unix_ns,
            host: self.host@,
            pid: self.pid,
            code: self.code@,
            duration_ns: self.duration_ns,
            outcome: self.outcome,
        }
    }
}

/// The views of a list of entries.
pub open spec fn entries_view(v: Seq<HistoryEntry>) -> Seq<EntryView> {
    v.map_values(|e: HistoryEntry| e@)
}

/// Whether record `r` is the `cell` record of entry `(sid, seq)`.
pub open spec fn is_cell_of(r: HistoryRecord, sid: u128, seq: u64) -> bool {
    match r {
        HistoryRecord::Cell { session_id, entry_seq, .. } => session_id == sid && entry_seq == seq,
        _ => false,
    }
}

/// Whether a `cell` record of `(sid, seq)` comes before position `i`.
pub open spec fn cell_before(rs: Seq<HistoryRecord>, i: int, sid: u128, seq: u64) -> bool
    decreases i,
{
    if i <= 0 {
        false
    } else {
        is_cell_of(rs[i - 1], sid, seq) || cell_before(rs, i - 1, sid, seq)
    }
}

/// The position of the first `cell` record of `(sid, seq)` at or after
/// `from`, or the number of records.
pub open spec fn next_cell(rs: Seq<HistoryRecord>, from: int, sid: u128, seq: u64) -> int
    decreases rs.len() - from,
{
    if from >= rs.len() {
        rs.len() as int
    } else if from >= 0 && is_cell_of(rs[from], sid, seq) {
        from
    } else {
        next_cell(rs, from + 1, sid, seq)
    }
}

/// The run time and outcome of the last `cell_done` record of `(sid, seq)`
/// at a position in `lo..hi`.
pub open spec fn last_done(rs: Seq<HistoryRecord>, lo: int, hi: int, sid: u128, seq: u64) -> Option<(u64, HistoryOutcome)>
    decreases hi - lo,
{
    if hi <= lo {
        None
    } else {
        match rs[hi - 1] {
            HistoryRecord::CellDone { session_id, entry_seq, duration_ns, outcome, .. } => {
                if session_id == sid && entry_seq == seq {
                    Some((duration_ns, outcome))
                } else {
                    last_done(rs, lo, hi - 1, sid, seq)
                }
            },
            _ => last_done(rs, lo, hi - 1, sid, seq),
        }
    }
}

/// The completion that belongs to the `cell` record at `i`: the last
/// matching `cell_done` record before the next `cell` record of the same
/// entry, counting records before `i` too when no earlier `cell` record of
/// that entry claimed them.
pub open spec fn done_for(rs: Seq<HistoryRecord>, i: int, sid: u128, seq: u64) -> Option<(u64, HistoryOutcome)> {
    let lo = if cell_before(rs, i, sid, seq) { i + 1 } else { 0 };
    last_done(rs, lo, next_cell(rs, i + 1, sid, seq), sid, seq)
}

/// The entry the `cell` record at `i` stands for.
pub open spec fn entry_at(rs: Seq<HistoryRecord>, i: int) -> EntryView {
    match rs[i] {
        HistoryRecord::Cell { session_id, entry_seq, ts_unix_ns, host, pid, code, .. } => {
            let done = done_for(rs, i, session_id, entry_seq);
            EntryView {
                session_id,
                entry_seq,
                ts_unix_ns,
                host: host@,
                pid,
                code: code@,
                duration_ns: match done { Some(d) => Some(d.0), None => None },
                outcome: match done { Some(d) => Some(d.1), None => None },
            }
        },
        _ => arbitrary(),
    }
}

/// The entries of the `cell` records among the first `n` records, in file
/// order.
pub open spec fn entries_upto(rs: Seq<HistoryRecord>, n: int) -> Seq<EntryView>
    decreases n,
{
    if n <= 0 {
        Seq::empty()
    } else {
        let prev = entries_upto(rs, n - 1);
        if rs[n - 1] is Cell {
            prev.push(entry_at(rs, n - 1))
        } else {
            prev
        }
    }
}

/// Strict order of strings, as `String`'s `Ord` (byte order of UTF-8,
/// which is code point order).
pub open spec fn str_lt(a: Seq<char>, b: Seq<char>) -> bool
    decreases a.len(),
{
    if a.len() == 0 {
        b.len() > 0
    } else if b.len() == 0 {
        false
    } else if a[0] == b[0] {
        str_lt(a.skip(1), b.skip(1))
    } else {
        (a[0] as u32) < (b[0] as u32)
    }
}

/// Strict order of entries: by timestamp, then host, session and sequence
/// number.
pub open spec fn entry_lt(a: EntryView, b: EntryView) -> bool {
    if a.ts_unix_ns != b.ts_unix_ns {
        a.ts_unix_ns < b.ts_unix_ns
    } else if a.host != b.host {
        str_lt(a.host, b.host)
    } else if a.session_id != b.session_id {
        a.session_id < b.session_id
    } else {
        a.entry_seq < b.entry_seq
    }
}

/// Entries in non-decreasing order.
pub open spec fn entries_sorted(v: Seq<EntryView>) -> bool {
    forall|i: int, j: int| 0 <= i < j < v.len() ==> !entry_lt(v[j], v[i])
}

/// `e` inserted into `s` after every entry not after it: before the
/// trailing entries that sort after `e`, so that entries with equal keys
/// keep the order they came in.
pub open spec fn insert_stable(s: Seq<EntryView>, e: EntryView) -> Seq<EntryView>
    decreases s.len(),
{
    if s.len() > 0 && entry_lt(e, s.last()) {
        insert_stable(s.drop_last(), e).push(s.last())
    } else {
        s.push(e)
    }
}

/// The entries sorted by `entry_lt`, entries with equal keys in the order
/// they came in (a stable sort).
pub open spec fn stable_sorted(v: Seq<EntryView>) -> Seq<EntryView>
    decreases v.len(),
{
    if v.len() == 0 {
        Seq::empty()
    } else {
        insert_stable(stable_sorted(v.drop_last()), v.last())
    }
}

proof fn lemma_insert_stable_at(s: Seq<EntryView>, e: EntryView, p: int)
    requires
        0 <= p <= s.len(),
        forall|q: int| p <= q < s.len() ==> entry_lt(e, #[trigger] s[q]),
        p > 0 ==> !entry_lt(e, s[p - 1]),
    ensures
        insert_stable(s, e) == s.insert(p, e),
    decreases s.len(),
{
    if s.len() > 0 && entry_lt(e, s.last()) {
        assert(p < s.len()) by {
            if p == s.len() {
                assert(!entry_lt(e, s[p - 1]));
            }
        }
        let d = s.drop_last();
        assert forall|q: int| p <= q < d.len() implies entry_lt(e, #[trigger] d[q]) by {
            assert(d[q] == s[q]);
        }
        if p > 0 {
            assert(d[p - 1] == s[p - 1]);
        }
        lemma_insert_stable_at(d, e, p);
        assert(d.insert(p, e).push(s.last()) =~= s.insert(p, e));
    } else {
        assert(p == s.len()) by {
            if p < s.len() {
                assert(entry_lt(e, s[s.len() - 1]));
            }
        }
        assert(s.push(e) =~= s.insert(p, e));
    }
}

proof fn lemma_char_cast_injective(x: char, y: char)
    ensures
        (x as u32) == (y as u32) ==> x == y,
{
    assert((x as u32) as char == x);
    assert((y as u32) as char == y);
}

/// `str_lt` is irreflexive, asymmetric and total.
pub proof fn lemma_str_lt_pair(a: Seq<char>, b: Seq<char>)
    ensures
        !str_lt(a, a),
        str_lt(a, b) ==> !str_lt(b, a),
        a != b ==> str_lt(a, b) || str_lt(b, a),
    decreases a.len(),
{
    if a.len() > 0 {
        lemma_str_lt_pair(a.skip(1), a.skip(1));
    }
    if a.len() > 0 && b.len() > 0 {
        lemma_str_lt_pair(a.skip(1), b.skip(1));
        lemma_char_cast_injective(a[0], b[0]);
        if a[0] == b[0] && a.skip(1) == b.skip(1) {
            assert forall|i: int| 0 <= i < a.len() implies a[i] == b[i] by {
                if i > 0 {
                    assert(a[i] == a.skip(1)[i - 1]);
                    assert(b[i] == b.skip(1)[i - 1]);
                }
            }
            assert(a =~= b);
        }
    }
    if a.len() == 0 && b.len() == 0 {
        assert(a =~= b);
    }
}

/// `str_lt` is transitive.
pub proof fn lemma_str_lt_trans(a: Seq<char>, b: Seq<char>, c: Seq<char>)
    ensures
        str_lt(a, b) && str_lt(b, c) ==> str_lt(a, c),
    decreases a.len(),
{
    if a.len() > 0 && b.len() > 0 && c.len() > 0 {
        lemma_str_lt_trans(a.skip(1), b.skip(1), c.skip(1));
    }
}

pub proof fn lemma_entry_lt_order(a: EntryView, b: EntryView, c: EntryView)
    ensures
        !entry_lt(a, a),
        entry_lt(a, b) ==> !entry_lt(b, a),
        !entry_lt(a, b) && !entry_lt(b, c) ==> !entry_lt(a, c),
{
    lemma_str_lt_pair(a.host, b.host);
    lemma_str_lt_pair(b.host, c.host);
    lemma_str_lt_pair(a.host, c.host);
    lemma_str_lt_pair(b.host, a.host);
    lemma_str_lt_pair(c.host, b.host);
    lemma_str_lt_pair(c.host, a.host);
    lemma_str_lt_trans(a.host, b.host, c.host);
    lemma_str_lt_trans(a.host, c.host, b.host);
    lemma_str_lt_trans(b.host, a.host, c.host);
    lemma_str_lt_trans(b.host, c.host, a.host);
    lemma_str_lt_trans(c.host, a.host, b.host);
    lemma_str_lt_trans(c.host, b.host, a.host);
}

fn record_is_cell_of(r: &HistoryRecord, sid: u128, seq: u64) -> (b: bool)
    ensures
        b == is_cell_of(*r, sid, seq),
{
    match r {
        HistoryRecord::Cell { session_id, entry_seq, .. } => *session_id == sid && *entry_seq == seq,
        _ => false,
    }
}

fn has_cell_before(rs: &Vec<HistoryRecord>, i: usize, sid: u128, seq: u64) -> (b: bool)
    requires
        i <= rs.len(),
    ensures
        b == cell_before(rs@, i as int, sid, seq),
{
    let mut j: usize = 0;
    let mut found = false;
    while j < i
        invariant
            j <= i <= rs.len(),
            found == cell_before(rs@, j as int, sid, seq),
        decreases i - j,
    {
        found = found || record_is_cell_of(&rs[j], sid, seq);
        j += 1;
    }
    found
}

fn next_cell_from(rs: &Vec<HistoryRecord>, from: usize, sid: u128, seq: u64) -> (n: usize)
    requires
        from <= rs.len(),
    ensures
        n == next_cell(rs@, from as int, sid, seq),
{
    let mut j: usize = rs.len();
    let mut n: usize = rs.len();
    while j > from
        invariant
            from <= j <= rs.len(),
            n == next_cell(rs@, j as int, sid, seq),
        decreases j - from,
    {
        j -= 1;
        if record_is_cell_of(&rs[j], sid, seq) {
            n = j;
        }
    }
    n
}

fn last_done_in(rs: &Vec<HistoryRecord>, lo: usize, hi: usize, sid: u128, seq: u64) -> (d: Option<(u64, HistoryOutcome)>)
    requires
        lo <= hi <= rs.len(),
    ensures
        d == last_done(rs@, lo as int, hi as int, sid, seq),
{
    let mut k: usize = hi;
    while k > lo
        invariant
            lo <= k <= hi <= rs.len(),
            last_done(rs@, lo as int, hi as int, sid, seq) == last_done(rs@, lo as int, k as int, sid, seq),
        decreases k - lo,
    {
        match &rs[k - 1] {
            HistoryRecord::CellDone { session_id, entry_seq, duration_ns, outcome, .. } => {
                if *session_id == sid && *entry_seq == seq {
                    return Some((*duration_ns, *outcome));
                }
            },
            _ => {},
        }
        k -= 1;
    }
    None
}

/// Merges the records of every history file, in the order they were read,
/// into one entry per `cell` record, and orders the entries by timestamp,
/// host, session and sequence number; entries equal in all four keep the
/// order they were read in.
///
/// A `cell_done` record completes the most recent `cell` record of the same
/// entry before it; one read before any such `cell` record is held until
/// that record is read. Where several complete the same cell, the last one
/// read wins.
pub fn merge_history(records: &Vec<HistoryRecord>) -> (r: Vec<HistoryEntry>)
    ensures
        entries_view(r@) == stable_sorted(entries_upto(records@, records@.len() as int)),
        entries_sorted(entries_view(r@)),
        entries_view(r@).to_multiset() == entries_upto(records@, records@.len() as int).to_multiset(),
{
    let mut merged: Vec<HistoryEntry> = Vec::new();
    let mut i: usize = 0;
    while i < records.len()
        invariant
            i <= records.len(),
            entries_view(merged@) == entries_upto(records@, i as int),
        decreases records.len() - i,
    {
        match &records[i] {
            HistoryRecord::Cell { session_id, entry_seq, ts_unix_ns, host, pid, code, .. } => {
                let before = has_cell_before(records, i, *session_id, *entry_seq);
                let next = next_cell_from(records, i + 1, *session_id, *entry_seq);
                let lo = if before { i + 1 } else { 0 };
                proof {
                    lemma_next_cell_bounds(records@, (i + 1) as int, *session_id, *entry_seq);
                }
                let done = last_done_in(records, lo, next, *session_id, *entry_seq);
                let entry = HistoryEntry {
                    session_id: *session_id,
                    entry_seq: *entry_seq,
                    ts_unix_ns: *ts_unix_ns,
                    host: host.clone(),
                    pid: *pid,
                    code: code.clone(),
                    duration_ns: match done { Some(d) => Some(d.0), None => None },
                    outcome: match done { Some(d) => Some(d.1), None => None },
                };
                let ghost prev = entries_view(merged@);
                merged.push(entry);
                assert(entries_view(merged@) =~= prev.push(entry_at(records@, i as int)));
            },
            _ => {},
        }
        i += 1;
    }
    sort_entries(merged)
}

proof fn lemma_next_cell_bounds(rs: Seq<HistoryRecord>, from: int, sid: u128, seq: u64)
    requires
        0 <= from <= rs.len(),
    ensures
        from <= next_cell(rs, from, sid, seq) <= rs.len(),
    decreases rs.len() - from,
{
    if from < rs.len() && !is_cell_of(rs[from], sid, seq) {
        lemma_next_cell_bounds(rs, from + 1, sid, seq);
    }
}

fn str_less(a: &String, b: &String) -> (r: bool)
    ensures
        r == str_lt(a@, b@),
{
    let va = chars_of(a.as_str());
    let vb = chars_of(b.as_str());
    let mut i: usize = 0;
    assert(a@.skip(0) =~= a@);
    assert(b@.skip(0) =~= b@);
    while i < va.len() && i < vb.len()
        invariant
            i <= va.len(),
            i <= vb.len(),
            va@ == a@,
            vb@ == b@,
            va@.take(i as int) == vb@.take(i as int),
            str_lt(a@, b@) == str_lt(a@.skip(i as int), b@.skip(i as int)),
        decreases va.len() - i,
    {
        let x = va[i];
        let y = vb[i];
        if x != y {
            return (x as u32) < (y as u32);
        }
        assert(a@.skip(i as int).skip(1) =~= a@.skip(i + 1));
        assert(b@.skip(i as int).skip(1) =~= b@.skip(i + 1));
        assert(va@.take(i + 1) =~= va@.take(i as int).push(x));
        assert(vb@.take(i + 1) =~= vb@.take(i as int).push(y));
        i += 1;
    }
    i < vb.len()
}

fn entry_less(a: &HistoryEntry, b: &HistoryEntry) -> (r: bool)
    ensures
        r == entry_lt(a@, b@),
{
    if a.ts_unix_ns != b.ts_unix_ns {
        return a.ts_unix_ns < b.ts_unix_ns;
    }
    let ab = str_less(&a.host, &b.host);
    let ba = str_less(&b.host, &a.host);
    proof {
        lemma_str_lt_pair(a.host@, b.host@);
    }
    if ab || ba {
        return ab;
    }
    if a.session_id != b.session_id {
        return a.session_id < b.session_id;
    }
    a.entry_seq < b.entry_seq
}

/// Stable insertion sort of the entries by `entry_lt`.
fn sort_entries(v: Vec<HistoryEntry>) -> (r: Vec<HistoryEntry>)
    ensures
        entries_view(r@) == stable_sorted(entries_view(v@)),
        entries_sorted(entries_view(r@)),
        entries_view(r@).to_multiset() == entries_view(v@).to_multiset(),
{
    broadcast use vstd::seq_lib::group_to_multiset_ensures;
    let mut r: Vec<HistoryEntry> = Vec::new();
    let mut rest = v;
    let ghost mut taken: Seq<EntryView> = Seq::empty();
    let ghost orig = entries_view(rest@);
    while rest.len() > 0
        invariant
            entries_sorted(entries_view(r@)),
            orig == taken + entries_view(rest@),
            entries_view(r@).to_multiset() == taken.to_multiset(),
            entries_view(r@) == stable_sorted(taken),
        decreases rest.len(),
    {
        let ghost rest_before = entries_view(rest@);
        let e = rest.remove(0);
        assert(rest_before =~= seq![e@] + entries_view(rest@));
        let mut p: usize = r.len();
        while p > 0 && entry_less(&e, &r[p - 1])
            invariant
                p <= r.len(),
                forall|q: int| p <= q < r.len() ==> entry_lt(e@, #[trigger] entries_view(r@)[q]),
            decreases p,
        {
            p -= 1;
        }
        let ghost old_r = entries_view(r@);
        proof {
            assert forall|q: int| 0 <= q < p implies !entry_lt(e@, #[trigger] old_r[q]) by {
                if q < p - 1 {
                    assert(!entry_lt(old_r[p - 1], old_r[q]));
                    lemma_entry_lt_order(e@, old_r[p - 1], old_r[q]);
                }
            }
        }
        proof {
            if p > 0 {
                assert(!entry_lt(e@, old_r[p - 1]));
            }
            lemma_insert_stable_at(old_r, e@, p as int);
        }
        r.insert(p, e);
        let ghost new_r = entries_view(r@);
        assert(new_r =~= old_r.insert(p as int, e@));
        proof {
            assert forall|a: int, b: int| 0 <= a < b < new_r.len() implies !entry_lt(new_r[b], new_r[a]) by {
                if a < p && b == p {
                } else if a == p && b > p {
                    lemma_entry_lt_order(e@, new_r[b], e@);
                } else {
                    let oa = if a < p { a } else { a - 1 };
                    let ob = if b < p { b } else { b - 1 };
                    assert(new_r[a] == old_r[oa]);
                    assert(new_r[b] == old_r[ob]);
                }
            }
            assert(new_r.remove(p as int) =~= old_r);
            assert(new_r[p as int] == e@);
            new_r.to_multiset_ensures();
            assert(new_r.remove(p as int).to_multiset() =~= new_r.to_multiset().remove(new_r[p as int]));
            assert(old_r.to_multiset() =~= new_r.to_multiset().remove(e@));
            assert(new_r.contains(e@));
            assert(new_r.to_multiset().count(e@) > 0);
            assert(new_r.to_multiset() =~= old_r.to_multiset().insert(e@));
        }
        proof {
            let old_taken = taken;
            taken = taken.push(e@);
            assert(taken.drop_last() =~= old_taken);
            old_taken.to_multiset_ensures();
            assert(taken.to_multiset() =~= old_taken.to_multiset().insert(e@));
            assert(orig =~= taken + entries_view(rest@));
        }
    }
    assert(orig =~= taken);
    r
}

/// The lines of a history file worth parsing: every `'\n'`-terminated
/// line, trimmed, that is not blank. A last line without its terminator
/// (a record cut short by a crash) is left out.
pub open spec fn record_lines_spec(pieces: Seq<Seq<char>>) -> Seq<Seq<char>>
    decreases pieces.len(),
{
    if pieces.len() == 0 {
        Seq::empty()
    } else {
        let prev = record_lines_spec(pieces.drop_last());
        if trim(pieces.last()).len() == 0 { prev } else { prev.push(trim(pieces.last())) }
    }
}

/// The complete, non-blank lines of a history file's contents, trimmed.
pub fn record_lines(contents: &str) -> (r: Vec<String>)
    ensures
        crate::chars::strs_of(r@) == record_lines_spec(split_on(contents@, '\n').drop_last()),
{
    let chars = chars_of(contents);
    let pieces = split_chars(chars.as_slice(), '\n');
    let ghost ps = crate::chars::seqs_of(pieces@);
    let mut r: Vec<String> = Vec::new();
    let mut i: usize = 0;
    while i + 1 < pieces.len()
        invariant
            pieces.len() >= 1,
            i + 1 <= pieces.len(),
            ps == crate::chars::seqs_of(pieces@),
            crate::chars::strs_of(r@) == record_lines_spec(ps.drop_last().take(i as int)),
        decreases pieces.len() - i,
    {
        let t = trim_chars(pieces[i].as_slice());
        assert(ps.drop_last().take(i + 1).drop_last() =~= ps.drop_last().take(i as int));
        if t.len() > 0 {
            let ghost before = r@;
            r.push(string_from(t.as_slice()));
            assert(crate::chars::strs_of(r@) =~= crate::chars::strs_of(before).push(t@));
        }
        i += 1;
    }
    assert(ps.drop_last().take(i as int) =~= ps.drop_last());
    r
}

/// Whether `c` is a control character (general category Cc), as
/// `char::is_control`.
pub open spec fn is_control(c: char) -> bool {
    (c as u32) <= 0x1f || (0x7f <= (c as u32) && (c as u32) <= 0x9f)
}

/// A host name made safe as a directory name: path separators and control
/// characters become `_`; an empty name becomes `unknown-host`.
pub open spec fn sanitize_spec(name: Seq<char>) -> Seq<char> {
    if name.len() == 0 {
        "unknown-host"@
    } else {
        name.map_values(|c: char| if c == '/' || c == '\\' || is_control(c) { '_' } else { c })
    }
}

/// Makes a host name usable as a directory name.
pub fn sanitize_host_name(name: &str) -> (r: String)
    ensures
        r@ == sanitize_spec(name@),
{
    let chars = chars_of(name);
    if chars.len() == 0 {
        return owned("unknown-host");
    }
    let mut out: Vec<char> = Vec::new();
    let mut i: usize = 0;
    while i < chars.len()
        invariant
            i <= chars.len(),
            chars@ == name@,
            out@ == name@.take(i as int).map_values(
                |c: char| if c == '/' || c == '\\' || is_control(c) { '_' } else { c },
            ),
        decreases chars.len() - i,
    {
        let c = chars[i];
        let v = c as u32;
        let d = if c == '/' || c == '\\' || v <= 0x1f || (0x7f <= v && v <= 0x9f) { '_' } else { c };
        out.push(d);
        assert(name@.take(i + 1) =~= name@.take(i as int).push(c));
        i += 1;
    }
    assert(name@.take(chars.len() as int) =~= name@);
    string_from(out.as_slice())
}

/// The host name history files are filed under: `$HOSTNAME` where set and
/// not empty, else the system's host name where it has one, sanitized; else
/// `unknown-host`.
pub fn host_name_from(env_hostname: Option<String>, system_hostname: Option<String>) -> (r: String)
    ensures
        r@ == match env_hostname {
            Some(h) if h@.len() > 0 => sanitize_spec(h@),
            _ => match system_hostname {
                Some(s) if s@.len() > 0 => sanitize_spec(s@),
                _ => "unknown-host"@,
            },
        },
{
    match env_hostname {
        Some(h) => {
            if chars_of(h.as_str()).len() > 0 {
                return sanitize_host_name(h.as_str());
            }
        },
        None => {},
    }
    match system_hostname {
        Some(s) => {
            if chars_of(s.as_str()).len() > 0 {
                return sanitize_host_name(s.as_str());
            }
        },
        None => {},
    }
    owned("unknown-host")
}

/// Whether record `r` is a `cell_done` record of entry `(sid, seq)`.
pub open spec fn is_done_of(r: HistoryRecord, sid: u128, seq: u64) -> bool {
    match r {
        HistoryRecord::CellDone { session_id, entry_seq, .. } => session_id == sid && entry_seq == seq,
        _ => false,
    }
}

/// Whether `a` and `b` are `cell` records of the same entry.
pub open spec fn same_cell(a: HistoryRecord, b: HistoryRecord) -> bool {
    match a {
        HistoryRecord::Cell { session_id, entry_seq, .. } => is_cell_of(b, session_id, entry_seq),
        _ => false,
    }
}

/// No two `cell` records name the same entry.
pub open spec fn distinct_cells(rs: Seq<HistoryRecord>) -> bool {
    forall|i: int, j: int| 0 <= i < j < rs.len() ==> !same_cell(#[trigger] rs[i], #[trigger] rs[j])
}

proof fn lemma_cell_before(rs: Seq<HistoryRecord>, i: int, sid: u128, seq: u64)
    requires
        0 <= i <= rs.len(),
    ensures
        cell_before(rs, i, sid, seq) <==> exists|j: int| 0 <= j < i && is_cell_of(#[trigger] rs[j], sid, seq),
    decreases i,
{
    if i > 0 {
        lemma_cell_before(rs, i - 1, sid, seq);
        if exists|j: int| 0 <= j < i && is_cell_of(#[trigger] rs[j], sid, seq) {
            let j = choose|j: int| 0 <= j < i && is_cell_of(#[trigger] rs[j], sid, seq);
            if j < i - 1 {
                assert(0 <= j < i - 1);
            }
        }
    }
}

proof fn lemma_next_cell_none(rs: Seq<HistoryRecord>, from: int, sid: u128, seq: u64)
    requires
        0 <= from,
        forall|j: int| from <= j < rs.len() ==> !is_cell_of(#[trigger] rs[j], sid, seq),
    ensures
        next_cell(rs, from, sid, seq) == rs.len(),
    decreases rs.len() - from,
{
    if from < rs.len() {
        lemma_next_cell_none(rs, from + 1, sid, seq);
    }
}

proof fn lemma_last_done(rs: Seq<HistoryRecord>, lo: int, hi: int, sid: u128, seq: u64)
    requires
        0 <= lo,
        hi <= rs.len(),
    ensures
        last_done(rs, lo, hi, sid, seq) is Some <==> exists|k: int| lo <= k < hi && is_done_of(#[trigger] rs[k], sid, seq),
    decreases hi - lo,
{
    if hi > lo {
        lemma_last_done(rs, lo, hi - 1, sid, seq);
        if exists|k: int| lo <= k < hi && is_done_of(#[trigger] rs[k], sid, seq) {
            let k = choose|k: int| lo <= k < hi && is_done_of(#[trigger] rs[k], sid, seq);
            if k < hi - 1 {
                assert(lo <= k < hi - 1);
            }
        }
    }
}

/// With no entry logged twice, a loaded entry has a run time and an
/// outcome exactly when some `cell_done` record of the same session and
/// sequence number exists, wherever it stands among the records; the rest
/// of the entry is its `cell` record's.
pub proof fn law_history_completions_pair_by_key(rs: Seq<HistoryRecord>, i: int)
    requires
        distinct_cells(rs),
        0 <= i < rs.len(),
        rs[i] is Cell,
    ensures
        match rs[i] {
            HistoryRecord::Cell { session_id, entry_seq, ts_unix_ns, host, pid, code, .. } => {
                let e = entry_at(rs, i);
                let done = exists|k: int| 0 <= k < rs.len() && is_done_of(#[trigger] rs[k], session_id, entry_seq);
                &&& e.session_id == session_id && e.entry_seq == entry_seq && e.ts_unix_ns == ts_unix_ns
                &&& e.host == host@ && e.pid == pid && e.code == code@
                &&& (e.duration_ns is Some <==> done)
                &&& (e.outcome is Some <==> done)
            },
            _ => true,
        },
{
    match rs[i] {
        HistoryRecord::Cell { session_id, entry_seq, .. } => {
            lemma_cell_before(rs, i, session_id, entry_seq);
            assert forall|j: int| 0 <= j < i implies !is_cell_of(#[trigger] rs[j], session_id, entry_seq) by {
                assert(!same_cell(rs[j], rs[i]));
            }
            assert forall|j: int| i + 1 <= j < rs.len() implies !is_cell_of(#[trigger] rs[j], session_id, entry_seq) by {
                assert(!same_cell(rs[i], rs[j]));
            }
            lemma_next_cell_none(rs, i + 1, session_id, entry_seq);
            lemma_last_done(rs, 0, rs.len() as int, session_id, entry_seq);
        },
        _ => {},
    }
}

proof fn lemma_insert_stable_multiset(s: Seq<EntryView>, e: EntryView)
    ensures
        insert_stable(s, e).to_multiset() == s.to_multiset().insert(e),
    decreases s.len(),
{
    broadcast use vstd::seq_lib::group_to_multiset_ensures;
    if s.len() > 0 && entry_lt(e, s.last()) {
        let d = s.drop_last();
        lemma_insert_stable_multiset(d, e);
        assert(d.push(s.last()) =~= s);
        assert(insert_stable(s, e).to_multiset() =~= s.to_multiset().insert(e));
    }
}

proof fn lemma_stable_sorted_multiset(v: Seq<EntryView>)
    ensures
        stable_sorted(v).to_multiset() == v.to_multiset(),
        stable_sorted(v).len() == v.len(),
    decreases v.len(),
{
    broadcast use vstd::seq_lib::group_to_multiset_ensures;
    if v.len() > 0 {
        lemma_stable_sorted_multiset(v.drop_last());
        lemma_insert_stable_multiset(stable_sorted(v.drop_last()), v.last());
        assert(v.drop_last().push(v.last()) =~= v);
        assert(stable_sorted(v).to_multiset() =~= v.to_multiset());
        assert(stable_sorted(v).to_multiset().len() == v.to_multiset().len());
    }
}

proof fn lemma_entries_upto_members(rs: Seq<HistoryRecord>, n: int)
    requires
        0 <= n <= rs.len(),
    ensures
        forall|i: int|
            #![trigger entries_upto(rs, n)[i]]
            0 <= i < entries_upto(rs, n).len() ==> exists|k: int|
                0 <= k < n && rs[k] is Cell && entries_upto(rs, n)[i] == #[trigger] entry_at(rs, k),
        forall|k: int| 0 <= k < n && rs[k] is Cell ==> entries_upto(rs, n).contains(#[trigger] entry_at(rs, k)),
    decreases n,
{
    if n > 0 {
        lemma_entries_upto_members(rs, n - 1);
        let prev = entries_upto(rs, n - 1);
        let cur = entries_upto(rs, n);
        assert forall|i: int| #![trigger cur[i]] 0 <= i < cur.len() implies exists|k: int|
            0 <= k < n && rs[k] is Cell && cur[i] == #[trigger] entry_at(rs, k) by {
            if i < prev.len() {
                assert(cur[i] == prev[i]);
                let k = choose|k: int| 0 <= k < n - 1 && rs[k] is Cell && prev[i] == #[trigger] entry_at(rs, k);
                assert(0 <= k < n && rs[k] is Cell && cur[i] == entry_at(rs, k));
            } else {
                assert(cur[i] == entry_at(rs, n - 1));
            }
        }
        assert forall|k: int| 0 <= k < n && rs[k] is Cell implies cur.contains(#[trigger] entry_at(rs, k)) by {
            if k < n - 1 {
                let j = choose|j: int| 0 <= j < prev.len() && prev[j] == entry_at(rs, k);
                assert(cur[j] == prev[j]);
            } else {
                assert(cur[cur.len() - 1] == entry_at(rs, k));
            }
        }
    }
}

/// The loaded entries are exactly the `cell` records: one entry per
/// record, each entry that of some `cell` record and the entry of every
/// `cell` record among them.
pub proof fn law_loaded_entries_are_the_cell_records(rs: Seq<HistoryRecord>)
    ensures
        stable_sorted(entries_upto(rs, rs.len() as int)).len() == entries_upto(rs, rs.len() as int).len(),
        forall|i: int|
            #![trigger stable_sorted(entries_upto(rs, rs.len() as int))[i]]
            0 <= i < stable_sorted(entries_upto(rs, rs.len() as int)).len() ==> exists|k: int|
                0 <= k < rs.len() && rs[k] is Cell && stable_sorted(entries_upto(rs, rs.len() as int))[i]
                    == #[trigger] entry_at(rs, k),
        forall|k: int|
            0 <= k < rs.len() && rs[k] is Cell ==> stable_sorted(entries_upto(rs, rs.len() as int)).contains(
                #[trigger] entry_at(rs, k),
            ),
{
    broadcast use vstd::seq_lib::group_to_multiset_ensures;
    let u = entries_upto(rs, rs.len() as int);
    let v = stable_sorted(u);
    lemma_entries_upto_members(rs, rs.len() as int);
    lemma_stable_sorted_multiset(u);
    assert forall|i: int| #![trigger v[i]] 0 <= i < v.len() implies exists|k: int|
        0 <= k < rs.len() && rs[k] is Cell && v[i] == #[trigger] entry_at(rs, k) by {
        assert(v.contains(v[i]));
        assert(v.to_multiset().count(v[i]) > 0);
        assert(u.contains(v[i]));
        let j = choose|j: int| 0 <= j < u.len() && u[j] == v[i];
        let k = choose|k: int| 0 <= k < rs.len() && rs[k] is Cell && u[j] == #[trigger] entry_at(rs, k);
    }
    assert forall|k: int| 0 <= k < rs.len() && rs[k] is Cell implies v.contains(#[trigger] entry_at(rs, k)) by {
        assert(u.contains(entry_at(rs, k)));
        assert(u.to_multiset().count(entry_at(rs, k)) > 0);
    }
}

/// A sanitized host name is a safe directory name: never empty, with no
/// path separator and no control character; a non-empty name keeps its
/// length and every other character in place; sanitizing twice changes
/// nothing more.
pub proof fn law_sanitized_host_name_is_safe(name: Seq<char>)
    ensures
        sanitize_spec(name).len() > 0,
        forall|i: int| 0 <= i < sanitize_spec(name).len() ==> ({
            let c = #[trigger] sanitize_spec(name)[i];
            c != '/' && c != '\\' && !is_control(c)
        }),
        name.len() > 0 ==> sanitize_spec(name).len() == name.len(),
        name.len() > 0 ==> forall|i: int| 0 <= i < name.len() && name[i] != '/' && name[i] != '\\'
            && !is_control(name[i]) ==> #[trigger] sanitize_spec(name)[i] == name[i],
        sanitize_spec(sanitize_spec(name)) == sanitize_spec(name),
{
    reveal_strlit("unknown-host");
    let t = sanitize_spec(name);
    if name.len() == 0 {
        assert forall|i: int| 0 <= i < t.len() implies {
            let c = #[trigger] t[i];
            c != '/' && c != '\\' && !is_control(c)
        } by {
            assert(('u' as u32) == 117 && ('n' as u32) == 110 && ('k' as u32) == 107 && ('o' as u32) == 111);
            assert(('w' as u32) == 119 && ('-' as u32) == 45 && ('h' as u32) == 104 && ('s' as u32) == 115);
            assert(('t' as u32) == 116);
        }
    }
    assert(sanitize_spec(t) =~= t);
}

} // verus!
