//! Rendered frames (rows marked as committed transcript or live interface,
//! the cursor), and the recording backend that tracks, frame after frame,
//! which transcript rows a real terminal would have kept in its scrollback.
use vstd::prelude::*;

use crate::chars::{strs_of};
use crate::ui::CursorStyle;

verus! {

broadcast use vstd::string::group_string_axioms;

/// A terminal size in cells.
#[derive(Debug, Clone, Copy, PartialEq, Eq, Structural)]
pub struct Size {
    pub width: u16,
    pub height: u16,
}

/// Whether a row belongs to the transcript (it scrolls away into the
/// scrollback) or to the live interface below it.
#[derive(Debug, Clone, Copy, PartialEq, Eq, Structural)]
pub enum RowKind {
    CommittedTranscript,
    LiveUi,
}

#[derive(Debug, Clone, PartialEq, Eq)]
pub struct TerminalRow {
    pub text: String,
    pub kind: RowKind,
}

/// A cell: column `x`, row `y`.
#[derive(Debug, Clone, Copy, PartialEq, Eq, Structural)]
pub struct Position {
    pub x: u16,
    pub y: u16,
}

/// Where the cursor is shown (row counted from the top of the full frame),
/// and its shape.
#[derive(Debug, Clone, Copy, PartialEq, Eq, Structural)]
pub struct CursorState {
    pub position: Option<Position>,
    pub style: CursorStyle,
    pub visible: bool,
}

impl CursorState {
    /// A hidden cursor with the default shape.
    pub fn hidden() -> (r: Self)
        ensures
            r.position is None,
            r.style == CursorStyle::Default,
            !r.visible,
    {
        CursorState { position: None, style: CursorStyle::Default, visible: false }
    }
}

/// One frame: every row from the top of the transcript down, the cursor,
/// and whether transcript rows may be appended to the scrollback as they
/// are (not while an overlay hides the editor).
#[derive(Debug, Clone, PartialEq, Eq)]
pub struct TerminalFrame {
    pub size: Size,
    pub full_rows: Vec<TerminalRow>,
    pub cursor: CursorState,
    pub transcript_append_safe: bool,
}

/// How a frame relates to the one before.
#[derive(Debug, Clone, Copy, PartialEq, Eq, Structural)]
pub enum FrameUpdateKind {
    Initial,
    TranscriptAppend,
    LiveUiOnly,
    ResizeOrReflow,
    Recovery,
}

/// The texts of the rows.
pub open spec fn row_texts(rows: Seq<TerminalRow>) -> Seq<Seq<char>> {
    rows.map_values(|r: TerminalRow| r.text@)
}

/// The texts of the transcript rows, in order.
pub open spec fn committed_texts(rows: Seq<TerminalRow>) -> Seq<Seq<char>>
    decreases rows.len(),
{
    if rows.len() == 0 {
        Seq::empty()
    } else {
        let prev = committed_texts(rows.drop_last());
        if rows.last().kind == RowKind::CommittedTranscript { prev.push(rows.last().text@) } else { prev }
    }
}

/// The rows of the interface, in order.
pub open spec fn live_rows(rows: Seq<TerminalRow>) -> Seq<TerminalRow>
    decreases rows.len(),
{
    if rows.len() == 0 {
        Seq::empty()
    } else {
        let prev = live_rows(rows.drop_last());
        if rows.last().kind == RowKind::LiveUi { prev.push(rows.last()) } else { prev }
    }
}

impl TerminalFrame {
    /// The last `height` rows: what the screen shows.
    pub fn visible_rows(&self) -> (r: Vec<String>)
        ensures
            strs_of(r@) == row_texts(self.full_rows@).skip(
                if self.full_rows.len() > self.size.height { self.full_rows.len() - self.size.height } else { 0 },
            ),
    {
        let h = self.size.height as usize;
        let start = if self.full_rows.len() > h { self.full_rows.len() - h } else { 0 };
        let mut r: Vec<String> = Vec::new();
        let mut i = start;
        while i < self.full_rows.len()
            invariant
                start <= i <= self.full_rows.len(),
                strs_of(r@) == row_texts(self.full_rows@).subrange(start as int, i as int),
            decreases self.full_rows.len() - i,
        {
            let ghost before = strs_of(r@);
            r.push(self.full_rows[i].text.clone());
            assert(strs_of(r@) =~= before.push(self.full_rows@[i as int].text@));
            assert(row_texts(self.full_rows@).subrange(start as int, i + 1) =~= row_texts(self.full_rows@).subrange(
                start as int,
                i as int,
            ).push(self.full_rows@[i as int].text@));
            i += 1;
        }
        assert(row_texts(self.full_rows@).subrange(start as int, self.full_rows.len() as int) =~= row_texts(
            self.full_rows@,
        ).skip(start as int));
        r
    }
}

/// The transcript rows of a frame.
pub fn committed_rows(frame: &TerminalFrame) -> (r: Vec<String>)
    ensures
        strs_of(r@) == committed_texts(frame.full_rows@),
{
    let mut r: Vec<String> = Vec::new();
    let mut i: usize = 0;
    while i < frame.full_rows.len()
        invariant
            i <= frame.full_rows.len(),
            strs_of(r@) == committed_texts(frame.full_rows@.take(i as int)),
        decreases frame.full_rows.len() - i,
    {
        assert(frame.full_rows@.take(i + 1).drop_last() =~= frame.full_rows@.take(i as int));
        if frame.full_rows[i].kind == RowKind::CommittedTranscript {
            let ghost before = strs_of(r@);
            r.push(frame.full_rows[i].text.clone());
            assert(strs_of(r@) =~= before.push(frame.full_rows@[i as int].text@));
        }
        i += 1;
    }
    assert(frame.full_rows@.take(frame.full_rows.len() as int) =~= frame.full_rows@);
    r
}

/// Whether `p` is a prefix of `s`.
pub open spec fn is_prefix(p: Seq<Seq<char>>, s: Seq<Seq<char>>) -> bool {
    p.len() <= s.len() && s.take(p.len() as int) == p
}

/// How a frame's transcript rows relate to the previous frame's: the first
/// frame, a resize, no transcript change, rows appended, or anything else.
pub open spec fn classify_spec(
    previous_size: Option<Size>,
    previous_rows: Seq<Seq<char>>,
    new_size: Size,
    new_rows: Seq<Seq<char>>,
) -> FrameUpdateKind {
    match previous_size {
        None => FrameUpdateKind::Initial,
        Some(p) => if p != new_size {
            FrameUpdateKind::ResizeOrReflow
        } else if new_rows == previous_rows {
            FrameUpdateKind::LiveUiOnly
        } else if is_prefix(previous_rows, new_rows) && new_rows.len() > previous_rows.len() {
            FrameUpdateKind::TranscriptAppend
        } else {
            FrameUpdateKind::Recovery
        },
    }
}

pub fn strings_eq(a: &Vec<String>, b: &Vec<String>, n: usize) -> (r: bool)
    requires
        n <= a.len(),
        n <= b.len(),
    ensures
        r == (strs_of(a@).take(n as int) == strs_of(b@).take(n as int)),
{
    let mut i: usize = 0;
    while i < n
        invariant
            i <= n <= a.len(),
            n <= b.len(),
            strs_of(a@).take(i as int) == strs_of(b@).take(i as int),
        decreases n - i,
    {
        if !crate::chars::str_eq(a[i].as_str(), b[i].as_str()) {
            assert(strs_of(a@).take(n as int)[i as int] != strs_of(b@).take(n as int)[i as int]);
            return false;
        }
        assert(strs_of(a@).take(i + 1) =~= strs_of(a@).take(i as int).push(a@[i as int]@));
        assert(strs_of(b@).take(i + 1) =~= strs_of(b@).take(i as int).push(b@[i as int]@));
        i += 1;
    }
    true
}

/// Classifies a frame update.
pub fn classify_frame_update(
    previous_size: Option<Size>,
    previous_rows: &Vec<String>,
    new_size: Size,
    new_rows: &Vec<String>,
) -> (r: FrameUpdateKind)
    ensures
        r == classify_spec(previous_size, strs_of(previous_rows@), new_size, strs_of(new_rows@)),
{
    let p = match previous_size {
        None => {
            return FrameUpdateKind::Initial;
        },
        Some(p) => p,
    };
    if p != new_size {
        return FrameUpdateKind::ResizeOrReflow;
    }
    let ghost pr = strs_of(previous_rows@);
    let ghost nr = strs_of(new_rows@);
    if previous_rows.len() <= new_rows.len() && strings_eq(previous_rows, new_rows, previous_rows.len()) {
        assert(pr.take(pr.len() as int) =~= pr);
        if previous_rows.len() == new_rows.len() {
            assert(nr.take(nr.len() as int) =~= nr);
            return FrameUpdateKind::LiveUiOnly;
        }
        assert(nr != pr);
        return FrameUpdateKind::TranscriptAppend;
    }
    proof {
        if nr == pr {
            assert(pr.take(pr.len() as int) =~= pr);
            assert(nr.take(pr.len() as int) =~= nr);
        }
        if is_prefix(pr, nr) {
            assert(pr.take(pr.len() as int) =~= pr);
        }
    }
    FrameUpdateKind::Recovery
}

/// The frame a terminal would show while an append waits for the overlay
/// to close: the rows already committed, then the frame's interface rows,
/// the cursor moved up by the rows not yet committed.
pub open spec fn pending_frame_rows(frame: TerminalFrame, committed: Seq<Seq<char>>) -> Seq<Seq<char>> {
    committed + row_texts(live_rows(frame.full_rows@))
}

/// The cursor of the frame shown while an append waits: moved up by the
/// transcript rows held back (counted modulo 65536, as a `u16`), at least
/// to the top row.
pub open spec fn pending_cursor(frame: TerminalFrame, committed: Seq<Seq<char>>) -> CursorState {
    let dropped: int = if committed_texts(frame.full_rows@).len() > committed.len() {
        committed_texts(frame.full_rows@).len() - committed.len()
    } else {
        0
    };
    CursorState {
        position: match frame.cursor.position {
            Some(p) => Some(Position { x: p.x, y: if p.y < dropped % 65536 { 0u16 } else { (p.y - dropped % 65536) as u16 } }),
            None => None,
        },
        style: frame.cursor.style,
        visible: frame.cursor.visible,
    }
}

/// The last `height` rows: what a screen of that height shows.
pub open spec fn last_rows(rows: Seq<Seq<char>>, height: u16) -> Seq<Seq<char>> {
    rows.skip(if rows.len() > height { rows.len() - height } else { 0 })
}

/// What a test snapshot holds: rows of the whole frame and of the screen,
/// the rows expected in the scrollback, and the cursor.
#[derive(Debug, Clone, PartialEq, Eq)]
pub struct TestSnapshot {
    pub full_rows: Vec<String>,
    pub visible_rows: Vec<String>,
    pub expected_scrollback_rows: Vec<String>,
    pub cursor: CursorState,
}

/// A backend that draws nothing and records what the scrollback should
/// hold.
#[derive(Debug, Clone)]
pub struct RecordingBackend {
    pub size: Size,
    pub previous_committed_rows: Vec<String>,
    pub previous_size: Option<Size>,
    pub previous_append_safe: bool,
    pub pending_scrollback_recovery: bool,
    pub last_update_kind: Option<FrameUpdateKind>,
    pub expected_scrollback_rows: Vec<String>,
    pub snapshot: Option<TestSnapshot>,
}

fn copy_strings(v: &Vec<String>) -> (r: Vec<String>)
    ensures
        strs_of(r@) == strs_of(v@),
{
    let mut r: Vec<String> = Vec::new();
    let mut i: usize = 0;
    while i < v.len()
        invariant
            i <= v.len(),
            strs_of(r@) == strs_of(v@).take(i as int),
        decreases v.len() - i,
    {
        let ghost before = strs_of(r@);
        r.push(v[i].clone());
        assert(strs_of(r@) =~= before.push(v@[i as int]@));
        assert(strs_of(v@).take(i + 1) =~= strs_of(v@).take(i as int).push(v@[i as int]@));
        i += 1;
    }
    assert(strs_of(v@).take(v.len() as int) =~= strs_of(v@));
    r
}

/// The frame shown while an append waits: committed rows, then the
/// interface rows; the cursor moves up by the rows held back.
pub fn recovery_pending_frame(frame: &TerminalFrame, committed: &Vec<String>) -> (r: TerminalFrame)
    ensures
        row_texts(r.full_rows@) == pending_frame_rows(*frame, strs_of(committed@)),
        r.size == frame.size,
        r.transcript_append_safe == frame.transcript_append_safe,
        r.cursor == pending_cursor(*frame, strs_of(committed@)),
        r.cursor.style == frame.cursor.style,
        r.cursor.visible == frame.cursor.visible,
        r.cursor.position == match frame.cursor.position {
            Some(p) => {
                let dropped: int = if committed_texts(frame.full_rows@).len() > committed@.len() {
                    committed_texts(frame.full_rows@).len() - committed@.len()
                } else {
                    0
                };
                Some(Position { x: p.x, y: if p.y < dropped % 65536 { 0u16 } else { (p.y - dropped % 65536) as u16 } })
            },
            None => None,
        },
{
    let current = committed_rows(frame);
    let dropped = if current.len() > committed.len() { current.len() - committed.len() } else { 0 };
    let mut rows: Vec<TerminalRow> = Vec::new();
    let mut i: usize = 0;
    while i < committed.len()
        invariant
            i <= committed.len(),
            rows.len() == i,
            row_texts(rows@) == strs_of(committed@).take(i as int),
        decreases committed.len() - i,
    {
        let ghost before = row_texts(rows@);
        rows.push(TerminalRow { text: committed[i].clone(), kind: RowKind::CommittedTranscript });
        assert(row_texts(rows@) =~= before.push(committed@[i as int]@));
        assert(strs_of(committed@).take(i + 1) =~= strs_of(committed@).take(i as int).push(committed@[i as int]@));
        i += 1;
    }
    assert(strs_of(committed@).take(committed.len() as int) =~= strs_of(committed@));
    let ghost base = row_texts(rows@);
    let mut k: usize = 0;
    while k < frame.full_rows.len()
        invariant
            k <= frame.full_rows.len(),
            base == strs_of(committed@),
            row_texts(rows@) == base + row_texts(live_rows(frame.full_rows@.take(k as int))),
        decreases frame.full_rows.len() - k,
    {
        assert(frame.full_rows@.take(k + 1).drop_last() =~= frame.full_rows@.take(k as int));
        if frame.full_rows[k].kind == RowKind::LiveUi {
            let ghost before = row_texts(rows@);
            rows.push(TerminalRow { text: frame.full_rows[k].text.clone(), kind: RowKind::LiveUi });
            assert(row_texts(rows@) =~= before.push(frame.full_rows@[k as int].text@));
            assert(row_texts(live_rows(frame.full_rows@.take(k + 1))) =~= row_texts(live_rows(frame.full_rows@.take(k as int))).push(frame.full_rows@[k as int].text@));
        }
        k += 1;
    }
    assert(frame.full_rows@.take(frame.full_rows.len() as int) =~= frame.full_rows@);
    let position = match frame.cursor.position {
        Some(p) => {
            let shift = (dropped % 65536) as u16;
            Some(Position { x: p.x, y: if p.y < shift { 0u16 } else { p.y - shift } })
        },
        None => None,
    };
    TerminalFrame {
        size: frame.size,
        full_rows: rows,
        cursor: CursorState { position, style: frame.cursor.style, visible: frame.cursor.visible },
        transcript_append_safe: frame.transcript_append_safe,
    }
}

/// What the scrollback is expected to hold after a frame, and whether an
/// append still waits, from the update kind: the first frame and any
/// recovery (also of a waiting append once the editor shows again) take
/// the frame's transcript rows; a resize empties it; an append the terminal
/// could project adds the new rows; an append hidden by an overlay waits.
pub open spec fn expectation_after(
    kind: FrameUpdateKind,
    expected: Seq<Seq<char>>,
    pending: bool,
    previous_rows: Seq<Seq<char>>,
    previous_append_safe: bool,
    frame_safe: bool,
    rows: Seq<Seq<char>>,
) -> (Seq<Seq<char>>, bool) {
    let can_project = kind == FrameUpdateKind::TranscriptAppend && previous_append_safe && frame_safe;
    let needs_recovery = kind == FrameUpdateKind::TranscriptAppend && !can_project;
    let recover = kind == FrameUpdateKind::Recovery || ((pending || needs_recovery) && frame_safe);
    if kind == FrameUpdateKind::Initial || recover {
        (rows, false)
    } else if kind == FrameUpdateKind::ResizeOrReflow {
        (Seq::empty(), false)
    } else if can_project {
        (expected + rows.skip(previous_rows.len() as int), pending)
    } else if kind == FrameUpdateKind::TranscriptAppend {
        (expected, true)
    } else {
        (expected, pending)
    }
}

impl Default for RecordingBackend {
    /// A recording backend for an 80 by 24 terminal.
    fn default() -> (r: Self)
        ensures
            r.size == (Size { width: 80, height: 24 }),
            r.previous_committed_rows@.len() == 0,
            r.previous_size is None,
            r.last_update_kind is None,
            r.expected_scrollback_rows@.len() == 0,
            r.snapshot is None,
            !r.pending_scrollback_recovery,
    {
        RecordingBackend::new(Size { width: 80, height: 24 })
    }
}

impl RecordingBackend {
    /// The snapshot of the last frame.
    pub fn snapshot(&self) -> (r: Option<&TestSnapshot>)
        ensures
            r == match self.snapshot {
                Some(s) => Some(&s),
                None => None::<&TestSnapshot>,
            },
    {
        self.snapshot.as_ref()
    }

    /// How the last frame related to the one before.
    pub fn last_update_kind(&self) -> (r: Option<FrameUpdateKind>)
        ensures
            r == self.last_update_kind,
    {
        self.last_update_kind
    }

    pub fn new(size: Size) -> (r: Self)
        ensures
            r.size == size,
            r.previous_committed_rows@.len() == 0,
            r.previous_size is None,
            r.last_update_kind is None,
            r.expected_scrollback_rows@.len() == 0,
            r.snapshot is None,
            !r.pending_scrollback_recovery,
    {
        RecordingBackend {
            size,
            previous_committed_rows: Vec::new(),
            previous_size: None,
            previous_append_safe: false,
            pending_scrollback_recovery: false,
            last_update_kind: None,
            expected_scrollback_rows: Vec::new(),
            snapshot: None,
        }
    }

    /// Records a frame: classifies it against the previous one and updates
    /// the expected scrollback, the transcript rows it is compared with
    /// next (kept while an append waits), and the snapshot.
    pub fn draw_frame(&mut self, frame: TerminalFrame)
        ensures
            ({
                let rows = committed_texts(frame.full_rows@);
                let kind = classify_spec(old(self).previous_size, strs_of(old(self).previous_committed_rows@), frame.size, rows);
                let can_project = kind == FrameUpdateKind::TranscriptAppend && old(self).previous_append_safe && frame.transcript_append_safe;
                let needs_recovery = kind == FrameUpdateKind::TranscriptAppend && !can_project;
                let recover = kind == FrameUpdateKind::Recovery || ((old(self).pending_scrollback_recovery || needs_recovery) && frame.transcript_append_safe);
                let after = expectation_after(
                    kind,
                    strs_of(old(self).expected_scrollback_rows@),
                    old(self).pending_scrollback_recovery,
                    strs_of(old(self).previous_committed_rows@),
                    old(self).previous_append_safe,
                    frame.transcript_append_safe,
                    rows,
                );
                &&& final(self).size == frame.size
                &&& final(self).last_update_kind == Some(kind)
                &&& strs_of(final(self).expected_scrollback_rows@) == after.0
                &&& final(self).pending_scrollback_recovery == after.1
                &&& strs_of(final(self).previous_committed_rows@) == if !needs_recovery || recover { rows } else { strs_of(old(self).previous_committed_rows@) }
                &&& final(self).previous_size == Some(frame.size)
                &&& final(self).previous_append_safe == frame.transcript_append_safe
                &&& final(self).snapshot matches Some(s) && strs_of(s.expected_scrollback_rows@) == after.0
                    && strs_of(s.full_rows@) == if needs_recovery && !frame.transcript_append_safe {
                        pending_frame_rows(frame, strs_of(old(self).previous_committed_rows@))
                    } else {
                        row_texts(frame.full_rows@)
                    }
                &&& final(self).snapshot matches Some(s) && strs_of(s.visible_rows@) == last_rows(strs_of(s.full_rows@), frame.size.height)
                &&& final(self).snapshot matches Some(s) && s.cursor == if needs_recovery && !frame.transcript_append_safe {
                        pending_cursor(frame, strs_of(old(self).previous_committed_rows@))
                    } else {
                        frame.cursor
                    }
            }),
    {
        self.size = frame.size;
        let rows = committed_rows(&frame);
        let kind = classify_frame_update(self.previous_size, &self.previous_committed_rows, frame.size, &rows);
        let is_append = kind == FrameUpdateKind::TranscriptAppend;
        let can_project = is_append && self.previous_append_safe && frame.transcript_append_safe;
        let needs_recovery = is_append && !can_project;
        let recover = kind == FrameUpdateKind::Recovery || ((self.pending_scrollback_recovery || needs_recovery)
            && frame.transcript_append_safe);
        if kind == FrameUpdateKind::Initial || recover {
            self.expected_scrollback_rows = copy_strings(&rows);
            self.pending_scrollback_recovery = false;
        } else if kind == FrameUpdateKind::ResizeOrReflow {
            self.expected_scrollback_rows = Vec::new();
            self.pending_scrollback_recovery = false;
            assert(strs_of(self.expected_scrollback_rows@) =~= Seq::<Seq<char>>::empty());
        } else if can_project {
            let ghost before = strs_of(self.expected_scrollback_rows@);
            let start = self.previous_committed_rows.len();
            let mut i = start;
            while i < rows.len()
                invariant
                    start <= i <= rows.len(),
                    strs_of(self.expected_scrollback_rows@) == before + strs_of(rows@).subrange(start as int, i as int),
                    self.size == frame.size,
                    self.pending_scrollback_recovery == old(self).pending_scrollback_recovery,
                    self.previous_committed_rows == old(self).previous_committed_rows,
                    self.previous_size == old(self).previous_size,
                    self.previous_append_safe == old(self).previous_append_safe,
                decreases rows.len() - i,
            {
                let ghost b = strs_of(self.expected_scrollback_rows@);
                self.expected_scrollback_rows.push(rows[i].clone());
                assert(strs_of(self.expected_scrollback_rows@) =~= b.push(rows@[i as int]@));
                assert(strs_of(rows@).subrange(start as int, i + 1) =~= strs_of(rows@).subrange(start as int, i as int).push(rows@[i as int]@));
                i += 1;
            }
            assert(strs_of(rows@).subrange(start as int, rows.len() as int) =~= strs_of(rows@).skip(start as int));
        } else if is_append {
            self.pending_scrollback_recovery = true;
        }
        let snapshot_frame = if needs_recovery && !frame.transcript_append_safe {
            recovery_pending_frame(&frame, &self.previous_committed_rows)
        } else {
            frame.clone_frame()
        };
        if !needs_recovery || recover {
            self.previous_committed_rows = rows;
        }
        self.previous_size = Some(frame.size);
        self.previous_append_safe = frame.transcript_append_safe;
        self.last_update_kind = Some(kind);
        let mut full: Vec<String> = Vec::new();
        let mut k: usize = 0;
        while k < snapshot_frame.full_rows.len()
            invariant
                k <= snapshot_frame.full_rows.len(),
                strs_of(full@) == row_texts(snapshot_frame.full_rows@).take(k as int),
            decreases snapshot_frame.full_rows.len() - k,
        {
            let ghost b = strs_of(full@);
            full.push(snapshot_frame.full_rows[k].text.clone());
            assert(strs_of(full@) =~= b.push(snapshot_frame.full_rows@[k as int].text@));
            assert(row_texts(snapshot_frame.full_rows@).take(k + 1) =~= row_texts(snapshot_frame.full_rows@).take(k as int).push(snapshot_frame.full_rows@[k as int].text@));
            k += 1;
        }
        assert(row_texts(snapshot_frame.full_rows@).take(snapshot_frame.full_rows.len() as int) =~= row_texts(snapshot_frame.full_rows@));
        let visible = snapshot_frame.visible_rows();
        self.snapshot = Some(TestSnapshot {
            full_rows: full,
            visible_rows: visible,
            expected_scrollback_rows: copy_strings(&self.expected_scrollback_rows),
            cursor: snapshot_frame.cursor,
        });
    }
}

impl TerminalFrame {
    /// A copy of the frame.
    pub fn clone_frame(&self) -> (r: Self)
        ensures
            row_texts(r.full_rows@) == row_texts(self.full_rows@),
            r.full_rows@.len() == self.full_rows@.len(),
            forall|i: int| 0 <= i < self.full_rows@.len() ==> #[trigger] r.full_rows@[i].kind == self.full_rows@[i].kind,
            r.size == self.size,
            r.cursor == self.cursor,
            r.transcript_append_safe == self.transcript_append_safe,
    {
        let mut rows: Vec<TerminalRow> = Vec::new();
        let mut i: usize = 0;
        while i < self.full_rows.len()
            invariant
                i <= self.full_rows.len(),
                rows.len() == i,
                row_texts(rows@) == row_texts(self.full_rows@).take(i as int),
                forall|j: int| 0 <= j < i ==> #[trigger] rows@[j].kind == self.full_rows@[j].kind,
            decreases self.full_rows.len() - i,
        {
            let ghost b = row_texts(rows@);
            rows.push(TerminalRow { text: self.full_rows[i].text.clone(), kind: self.full_rows[i].kind });
            assert(row_texts(rows@) =~= b.push(self.full_rows@[i as int].text@));
            assert(row_texts(self.full_rows@).take(i + 1) =~= row_texts(self.full_rows@).take(i as int).push(self.full_rows@[i as int].text@));
            i += 1;
        }
        assert(row_texts(self.full_rows@).take(self.full_rows.len() as int) =~= row_texts(self.full_rows@));
        TerminalFrame { size: self.size, full_rows: rows, cursor: self.cursor, transcript_append_safe: self.transcript_append_safe }
    }
}

} // verus!

verus! {

/// A frame whose transcript rows are those of the previous frame, at the
/// same size, is a live-interface update: the expected scrollback and any
/// waiting append stay as they were.
pub proof fn law_live_ui_edit_keeps_scrollback(
    size: Size,
    rows: Seq<Seq<char>>,
    expected: Seq<Seq<char>>,
    pending: bool,
    previous_safe: bool,
    frame_safe: bool,
)
    requires
        !(pending && frame_safe),
    ensures
        classify_spec(Some(size), rows, size, rows) == FrameUpdateKind::LiveUiOnly,
        expectation_after(FrameUpdateKind::LiveUiOnly, expected, pending, rows, previous_safe, frame_safe, rows) == (
            expected,
            pending,
        ),
{
}

/// Rows appended to the transcript, with the editor showing before and
/// after, are appended to the expected scrollback: only the new rows.
pub proof fn law_append_extends_scrollback(
    size: Size,
    previous_rows: Seq<Seq<char>>,
    added: Seq<Seq<char>>,
    expected: Seq<Seq<char>>,
)
    requires
        added.len() > 0,
    ensures
        classify_spec(Some(size), previous_rows, size, previous_rows + added) == FrameUpdateKind::TranscriptAppend,
        expectation_after(
            FrameUpdateKind::TranscriptAppend,
            expected,
            false,
            previous_rows,
            true,
            true,
            previous_rows + added,
        ) == (expected + added, false),
{
    let rows = previous_rows + added;
    assert(rows.take(previous_rows.len() as int) =~= previous_rows);
    assert(rows != previous_rows) by {
        assert(rows.len() != previous_rows.len());
    }
    assert(rows.skip(previous_rows.len() as int) =~= added);
}

/// A resize starts the expected scrollback afresh (empty), unless an
/// append was waiting and the frame may show it, when it holds the frame's
/// rows.
pub proof fn law_resize_clears_scrollback(
    previous: Size,
    size: Size,
    previous_rows: Seq<Seq<char>>,
    rows: Seq<Seq<char>>,
    expected: Seq<Seq<char>>,
    pending: bool,
    previous_safe: bool,
    frame_safe: bool,
)
    requires
        previous != size,
    ensures
        classify_spec(Some(previous), previous_rows, size, rows) == FrameUpdateKind::ResizeOrReflow,
        expectation_after(FrameUpdateKind::ResizeOrReflow, expected, pending, previous_rows, previous_safe, frame_safe, rows)
            == (if pending && frame_safe { (rows, false) } else { (Seq::<Seq<char>>::empty(), false) }),
{
}

/// Transcript rows that changed other than by appending make the expected
/// scrollback the frame's rows.
pub proof fn law_rewrite_recovers_scrollback(
    size: Size,
    previous_rows: Seq<Seq<char>>,
    rows: Seq<Seq<char>>,
    expected: Seq<Seq<char>>,
    pending: bool,
    previous_safe: bool,
    frame_safe: bool,
)
    requires
        rows != previous_rows,
        !is_prefix(previous_rows, rows),
    ensures
        classify_spec(Some(size), previous_rows, size, rows) == FrameUpdateKind::Recovery,
        expectation_after(FrameUpdateKind::Recovery, expected, pending, previous_rows, previous_safe, frame_safe, rows)
            == (rows, false),
{
}

/// An append that happens while an overlay hides the editor waits: the
/// expected scrollback is kept and the append is marked as waiting; the
/// first frame that shows the editor again makes the expected scrollback
/// its rows, whatever kind of update it is.
pub proof fn law_hidden_append_waits_then_recovers(
    kind: FrameUpdateKind,
    previous_rows: Seq<Seq<char>>,
    rows: Seq<Seq<char>>,
    expected: Seq<Seq<char>>,
    previous_safe: bool,
)
    ensures
        expectation_after(FrameUpdateKind::TranscriptAppend, expected, false, previous_rows, previous_safe, false, rows)
            == (expected, true),
        expectation_after(kind, expected, true, previous_rows, previous_safe, true, rows) == (rows, false),
{
}

} // verus!
