//! Drawing frames on the terminal's main screen, so that rows that scroll
//! off the top stay in the terminal's own scrollback: the first frame is
//! printed where the cursor is, later frames repaint only the rows that
//! changed (scrolling the terminal by printing newlines when rows are
//! appended), and a change above the screen, or a resize, clears the
//! screen and scrollback and prints the frame again. The escape sequences
//! are computed here; writing them is the caller's.
use vstd::prelude::*;

use crate::chars::{decimal, extend_chars, extend_str, push_decimal, string_from, strs_of};
use crate::frame::{row_texts, strings_eq, CursorState, FrameUpdateKind, Size, TerminalFrame};
use crate::transcript::{display_width, display_width_spec};
use crate::ui::{cursor_style_sequence, cursor_style_spec, CursorStyle};

verus! {

broadcast use vstd::string::group_string_axioms;

pub open spec fn sync_on() -> Seq<char> {
    "\x1b[?2026h"@
}

pub open spec fn sync_off() -> Seq<char> {
    "\x1b[?2026l"@
}

pub open spec fn csi_reset() -> Seq<char> {
    "\x1b[0m"@
}

pub open spec fn csi_clear_line() -> Seq<char> {
    "\x1b[2K"@
}

pub open spec fn csi_clear_screen() -> Seq<char> {
    "\x1b[2J"@
}

pub open spec fn csi_clear_scrollback() -> Seq<char> {
    "\x1b[3J"@
}

pub open spec fn csi_home() -> Seq<char> {
    "\x1b[H"@
}

pub open spec fn csi_hide_cursor() -> Seq<char> {
    "\x1b[?25l"@
}

pub open spec fn csi_show_cursor() -> Seq<char> {
    "\x1b[?25h"@
}

pub open spec fn sat_sub(a: int, b: int) -> int {
    if a > b { a - b } else { 0 }
}

/// Addition saturating at `usize::MAX`.
pub open spec fn sat_add(a: int, b: int) -> int {
    if a + b > usize::MAX { usize::MAX as int } else { a + b }
}

pub open spec fn mn(a: int, b: int) -> int {
    if a < b { a } else { b }
}

pub open spec fn mx(a: int, b: int) -> int {
    if a > b { a } else { b }
}

/// Whether logical row `target` is on the screen when row `top` is at its
/// top.
pub open spec fn in_viewport(target: int, top: int, height: int) -> bool {
    top <= target && target < sat_add(top, height)
}

/// `ESC [ n c`.
pub open spec fn csi_count(n: int, c: char) -> Seq<char> {
    "\x1b["@ + decimal(n as nat) + seq![c]
}

/// The relative move from the cursor's row to `target` (both logical rows,
/// with `top` at the top of the screen), then a carriage return.
pub open spec fn move_text(hw: int, target: int, top: int) -> Seq<char> {
    let cur = sat_sub(hw, top);
    let tgt = sat_sub(target, top);
    (if tgt > cur {
        csi_count(tgt - cur, 'B')
    } else if cur > tgt {
        csi_count(cur - tgt, 'A')
    } else {
        seq![]
    }) + "\r"@
}

/// Output being built: the text so far, the row the terminal cursor is on,
/// and whether every move so far stayed on the screen (after a failed move
/// nothing more is added).
pub type Acc = (Seq<char>, int, bool);

pub open spec fn do_move(a: Acc, target: int, top: int, height: int) -> Acc {
    if !a.2 {
        a
    } else if !in_viewport(target, top, height) {
        (a.0, a.1, false)
    } else {
        (a.0 + move_text(a.1, target, top), target, true)
    }
}

pub open spec fn emit(a: Acc, t: Seq<char>) -> Acc {
    if a.2 { (a.0 + t, a.1, true) } else { a }
}

pub open spec fn set_hw(a: Acc, hw: int) -> Acc {
    if a.2 { (a.0, hw, true) } else { a }
}

pub open spec fn newlines(n: nat) -> Seq<char>
    decreases n,
{
    if n == 0 { seq![] } else { newlines((n - 1) as nat) + "\r\n"@ }
}

/// Clearing rows `row..=last`.
pub open spec fn clear_rows(a: Acc, row: int, last: int, top: int, height: int) -> Acc
    decreases last + 1 - row,
{
    if row > last {
        a
    } else {
        clear_rows(emit(do_move(a, row, top, height), csi_clear_line() + csi_reset()), row + 1, last, top, height)
    }
}

/// Repainting rows `row..=last` that exist.
pub open spec fn repaint_rows(a: Acc, row: int, last: int, top: int, height: int, lines: Seq<Seq<char>>) -> Acc
    decreases last + 1 - row,
{
    if row > last {
        a
    } else {
        let b = if 0 <= row < lines.len() {
            emit(do_move(a, row, top, height), csi_clear_line() + lines[row] + csi_reset())
        } else {
            a
        };
        repaint_rows(b, row + 1, last, top, height, lines)
    }
}

/// Placing the cursor: hidden unless it is visible and on the screen;
/// otherwise moved to its row, then to its column (clamped to the last
/// column), shaped and shown.
pub open spec fn position_text(hw: int, cursor: CursorState, top: int, size: Size) -> (Seq<char>, int) {
    match cursor.position {
        Some(p) => if !cursor.visible || !in_viewport(p.y as int, top, size.height as int) {
            (csi_hide_cursor(), hw)
        } else {
            (
                move_text(hw, p.y as int, top) + csi_count(mn(p.x as int, sat_sub(size.width as int, 1)) + 1, 'G')
                    + cursor_style_spec(cursor.style) + csi_show_cursor(),
                p.y as int,
            )
        },
        None => (csi_hide_cursor(), hw),
    }
}

/// The rows, each followed by a reset, separated by CR LF.
pub open spec fn joined_lines(lines: Seq<Seq<char>>) -> Seq<char>
    decreases lines.len(),
{
    if lines.len() == 0 {
        seq![]
    } else {
        joined_lines(lines.drop_last()) + (if lines.len() > 1 { "\r\n"@ } else { seq![] }) + lines.last() + csi_reset()
    }
}

/// The state the drawing depends on.
pub struct ScreenView {
    pub size: Size,
    pub lines: Seq<Seq<char>>,
    pub width: u16,
    pub height: u16,
    pub top: int,
    pub hw: int,
    pub kind: Option<FrameUpdateKind>,
}

/// Why a frame was not drawn.
#[derive(Debug, Clone, Copy, PartialEq, Eq, Structural)]
pub enum DrawError {
    /// A row is wider than the terminal.
    RowTooWide { row: usize, width: usize, limit: u16 },
    /// A row to move to was not on the screen.
    OutsideViewport,
}

impl DrawError {
    /// The error's description.
    pub fn message(&self) -> (r: String)
        ensures
            r@ == match *self {
                DrawError::RowTooWide { row, width, limit } => "rendered row "@ + decimal(row as nat)
                    + " exceeds terminal width: "@ + decimal(width as nat) + " > "@ + decimal(limit as nat),
                DrawError::OutsideViewport => "target row outside visible viewport"@,
            },
    {
        let mut out: Vec<char> = Vec::new();
        match *self {
            DrawError::RowTooWide { row, width, limit } => {
                extend_str(&mut out, "rendered row ");
                push_decimal(&mut out, row as u64);
                extend_str(&mut out, " exceeds terminal width: ");
                push_decimal(&mut out, width as u64);
                extend_str(&mut out, " > ");
                push_decimal(&mut out, limit as u64);
            },
            DrawError::OutsideViewport => {
                extend_str(&mut out, "target row outside visible viewport");
            },
        }
        string_from(out.as_slice())
    }
}

/// Printing the whole frame (after clearing screen and scrollback if
/// `clear`), the cursor then placed; the frame becomes the previous one.
pub open spec fn full_spec(v: ScreenView, rows: Seq<Seq<char>>, cursor: CursorState, clear: bool) -> (
    Result<Seq<char>, DrawError>,
    ScreenView,
) {
    let n = rows.len() as int;
    let top = sat_sub(n, v.size.height as int);
    let p = position_text(sat_sub(n, 1), cursor, top, v.size);
    let head = if clear {
        csi_hide_cursor() + csi_home() + csi_clear_screen() + csi_clear_scrollback() + csi_home()
    } else {
        seq![]
    };
    (
        Ok(sync_on() + head + joined_lines(rows) + p.0 + sync_off()),
        ScreenView { lines: rows, width: v.size.width, height: v.size.height, top, hw: p.1, ..v },
    )
}

pub open spec fn row_at(s: Seq<Seq<char>>, i: int) -> Option<Seq<char>> {
    if 0 <= i < s.len() { Some(s[i]) } else { None }
}

/// The first row index (below the longer length) where the frames differ,
/// searching from `i`.
pub open spec fn first_diff_from(a: Seq<Seq<char>>, b: Seq<Seq<char>>, i: int) -> Option<int>
    decreases mx(a.len() as int, b.len() as int) - i,
{
    if i < 0 || i >= mx(a.len() as int, b.len() as int) {
        None
    } else if row_at(a, i) != row_at(b, i) {
        Some(i)
    } else {
        first_diff_from(a, b, i + 1)
    }
}

/// Repainting what changed. Changes above the screen, a screen that would
/// move up, or rows appended after changed rows clear and reprint
/// everything (a recovery). Otherwise: when rows only grow on a screen not
/// yet full, newlines make room for them; when rows are appended past the
/// bottom, newlines scroll the screen by as many rows; rows no longer
/// present are cleared (a shrink by a screen or more is a recovery); the
/// changed rows (all rows on the screen after scrolling) are repainted and
/// the cursor placed. With no change, only the cursor is placed.
pub open spec fn diff_spec(v: ScreenView, rows: Seq<Seq<char>>, cursor: CursorState) -> (
    Result<Seq<char>, DrawError>,
    ScreenView,
) {
    let h = v.size.height as int;
    let old_len = v.lines.len() as int;
    let new_len = rows.len() as int;
    match first_diff_from(v.lines, rows, 0) {
        None => {
            let p = position_text(v.hw, cursor, v.top, v.size);
            (Ok(sync_on() + p.0 + sync_off()), ScreenView { hw: p.1, ..v })
        },
        Some(first) => {
            let old_top = v.top;
            let new_top = sat_sub(new_len, h);
            let tail = old_len <= new_len && rows.take(old_len) == v.lines;
            let recovery = ScreenView { kind: Some(FrameUpdateKind::Recovery), ..v };
            if first < old_top || new_top < old_top || (new_top > old_top && !tail) {
                full_spec(recovery, rows, cursor, true)
            } else {
                let vs = if tail { sat_sub(new_top, old_top) } else { 0 };
                let pre = if new_top == 0 && old_top == 0 && old_len < h && new_len > old_len {
                    mn(new_len - old_len, h - old_len)
                } else {
                    0
                };
                let a0: Acc = (seq![], v.hw, true);
                let a1 = if pre > 0 {
                    set_hw(
                        emit(if old_len > 0 { do_move(a0, old_len - 1, old_top, h) } else { a0 }, newlines(pre as nat)),
                        sat_add(sat_sub(old_len, 1), pre),
                    )
                } else {
                    a0
                };
                let ovb = mn(sat_add(old_top, sat_sub(h, 1)), sat_sub(old_len, 1));
                let a2 = if vs > 0 {
                    set_hw(emit(do_move(a1, ovb, old_top, h), newlines(vs as nat)), sat_add(ovb, vs))
                } else {
                    a1
                };
                let cur_top = if vs > 0 { new_top } else { old_top };
                let nvb = mn(sat_add(new_top, sat_sub(h, 1)), sat_sub(new_len, 1));
                let ovb2 = mn(sat_add(cur_top, sat_sub(h, 1)), sat_sub(old_len, 1));
                if !a2.2 {
                    (Err(DrawError::OutsideViewport), ScreenView { hw: a2.1, ..v })
                } else if new_len < old_len && sat_sub(ovb2, nvb) >= h {
                    full_spec(recovery, rows, cursor, true)
                } else {
                    let a3 = if new_len < old_len {
                        clear_rows(a2, mx(mx(first, cur_top), new_top), ovb2, cur_top, h)
                    } else {
                        a2
                    };
                    let start = if pre > 0 || vs > 0 { new_top } else { mx(first, new_top) };
                    let a4 = if new_len > 0 { repaint_rows(a3, start, nvb, new_top, h, rows) } else { a3 };
                    if !a4.2 {
                        (Err(DrawError::OutsideViewport), ScreenView { hw: a4.1, ..v })
                    } else {
                        let p = position_text(a4.1, cursor, new_top, v.size);
                        (
                            Ok(sync_on() + a4.0 + p.0 + sync_off()),
                            ScreenView {
                                lines: rows,
                                width: v.size.width,
                                height: v.size.height,
                                top: new_top,
                                hw: p.1,
                                ..v
                            },
                        )
                    }
                }
            }
        },
    }
}

/// The first row wider than `width` columns, searching from `i`.
pub open spec fn first_too_wide(rows: Seq<Seq<char>>, width: u16, i: int) -> Option<int>
    decreases rows.len() - i,
{
    if i < 0 || i >= rows.len() {
        None
    } else if display_width_spec(rows[i]) > width {
        Some(i)
    } else {
        first_too_wide(rows, width, i + 1)
    }
}

/// Drawing a frame: nothing on a zero-sized terminal; an error for a row
/// wider than the terminal; else the first frame printed as it is, a
/// resized one printed after clearing, any other repainted where it
/// changed.
pub open spec fn draw_spec(v: ScreenView, size: Size, rows: Seq<Seq<char>>, cursor: CursorState) -> (
    Result<Seq<char>, DrawError>,
    ScreenView,
) {
    if size.width == 0 || size.height == 0 {
        (Ok(seq![]), v)
    } else {
        match first_too_wide(rows, size.width, 0) {
            Some(i) => (
                Err(DrawError::RowTooWide { row: i as usize, width: display_width_spec(rows[i]) as usize, limit: size.width }),
                v,
            ),
            None => {
                let kind = if v.lines.len() == 0 {
                    FrameUpdateKind::Initial
                } else if v.width != size.width || v.height != size.height {
                    FrameUpdateKind::ResizeOrReflow
                } else {
                    FrameUpdateKind::LiveUiOnly
                };
                let v1 = ScreenView { size, kind: Some(kind), ..v };
                if v.lines.len() == 0 {
                    full_spec(v1, rows, cursor, false)
                } else if v.width != size.width || v.height != size.height {
                    full_spec(v1, rows, cursor, true)
                } else {
                    diff_spec(v1, rows, cursor)
                }
            },
        }
    }
}


fn sat_add_exec(a: usize, b: usize) -> (r: usize)
    ensures
        r == sat_add(a as int, b as int),
{
    if a > usize::MAX - b { usize::MAX } else { a + b }
}

fn push_csi_count(out: &mut Vec<char>, n: usize, c: char)
    ensures
        final(out)@ == old(out)@ + csi_count(n as int, c),
{
    out.push('\x1b');
    out.push('[');
    push_decimal(out, n as u64);
    out.push(c);
    proof {
        reveal_strlit("\x1b[");
    }
    assert(out@ =~= old(out)@ + csi_count(n as int, c));
}

fn push_move(out: &mut Vec<char>, hw: usize, target: usize, top: usize)
    ensures
        final(out)@ == old(out)@ + move_text(hw as int, target as int, top as int),
{
    let cur: usize = if hw > top { hw - top } else { 0 };
    let tgt: usize = if target > top { target - top } else { 0 };
    if tgt > cur {
        push_csi_count(out, tgt - cur, 'B');
    } else if cur > tgt {
        push_csi_count(out, cur - tgt, 'A');
    }
    let ghost mid = out@;
    out.push('\r');
    proof {
        reveal_strlit("\r");
    }
    assert(out@ =~= old(out)@ + move_text(hw as int, target as int, top as int));
}

/// Output being built (see `Acc`).
struct Emitter {
    out: Vec<char>,
    hw: usize,
    ok: bool,
}

impl Emitter {
    spec fn acc(&self) -> Acc {
        (self.out@, self.hw as int, self.ok)
    }

    fn start(hw: usize) -> (r: Emitter)
        ensures
            r.acc() == (Seq::<char>::empty(), hw as int, true),
    {
        Emitter { out: Vec::new(), hw, ok: true }
    }

    fn move_to(&mut self, target: usize, top: usize, height: usize)
        ensures
            final(self).acc() == do_move(old(self).acc(), target as int, top as int, height as int),
    {
        if self.ok {
            if target < top || target >= sat_add_exec(top, height) {
                self.ok = false;
            } else {
                push_move(&mut self.out, self.hw, target, top);
                self.hw = target;
            }
        }
    }

    fn put(&mut self, t: &str)
        ensures
            final(self).acc() == emit(old(self).acc(), t@),
    {
        if self.ok {
            extend_str(&mut self.out, t);
        }
    }

    fn put_newlines(&mut self, n: usize)
        ensures
            final(self).acc() == emit(old(self).acc(), newlines(n as nat)),
    {
        if self.ok {
            let ghost start = self.out@;
            let mut i: usize = 0;
            while i < n
                invariant
                    i <= n,
                    self.ok,
                    self.hw == old(self).hw,
                    start == old(self).out@,
                    self.out@ == start + newlines(i as nat),
                decreases n - i,
            {
                self.out.push('\r');
                self.out.push('\n');
                proof {
                    reveal_strlit("\r\n");
                }
                assert(newlines((i + 1) as nat) =~= newlines(i as nat) + "\r\n"@);
                i += 1;
            }
        }
    }

    fn set_row(&mut self, hw: usize)
        ensures
            final(self).acc() == set_hw(old(self).acc(), hw as int),
    {
        if self.ok {
            self.hw = hw;
        }
    }
}

/// Appends the cursor placement; returns the row the cursor is on after.
fn push_position(out: &mut Vec<char>, hw: usize, cursor: &CursorState, top: usize, size: Size) -> (r: usize)
    ensures
        final(out)@ == old(out)@ + position_text(hw as int, *cursor, top as int, size).0,
        r == position_text(hw as int, *cursor, top as int, size).1,
{
    proof {
        reveal_strlit("\x1b[?25l");
        reveal_strlit("\x1b[?25h");
    }
    match cursor.position {
        Some(p) => {
            let target = p.y as usize;
            if !cursor.visible || target < top || target >= sat_add_exec(top, size.height as usize) {
                extend_str(out, "\x1b[?25l");
                hw
            } else {
                push_move(out, hw, target, top);
                let last: u16 = if size.width >= 1 { size.width - 1 } else { 0 };
                let col: u16 = if p.x < last { p.x } else { last };
                push_csi_count(out, col as usize + 1, 'G');
                extend_str(out, cursor_style_sequence(cursor.style));
                extend_str(out, "\x1b[?25h");
                target
            }
        },
        None => {
            extend_str(out, "\x1b[?25l");
            hw
        },
    }
}


fn clear_range(e: &mut Emitter, from: usize, last: usize, top: usize, height: usize)
    ensures
        final(e).acc() == clear_rows(old(e).acc(), from as int, last as int, top as int, height as int),
{
    if from > last {
        return;
    }
    let ghost target = clear_rows(e.acc(), from as int, last as int, top as int, height as int);
    let mut row = from;
    loop
        invariant_except_break
            from <= row <= last,
            clear_rows(e.acc(), row as int, last as int, top as int, height as int) == target,
        ensures
            e.acc() == target,
        decreases last - row,
    {
        e.move_to(row, top, height);
        e.put("\x1b[2K\x1b[0m");
        proof {
            reveal_strlit("\x1b[2K\x1b[0m");
            reveal_strlit("\x1b[2K");
            reveal_strlit("\x1b[0m");
            assert("\x1b[2K\x1b[0m"@ =~= csi_clear_line() + csi_reset());
        }
        if row == last {
            assert(clear_rows(e.acc(), row + 1, last as int, top as int, height as int) == e.acc());
            break;
        }
        row += 1;
    }
}

fn repaint_range(e: &mut Emitter, from: usize, last: usize, top: usize, height: usize, rows: &Vec<String>)
    ensures
        final(e).acc() == repaint_rows(old(e).acc(), from as int, last as int, top as int, height as int, strs_of(rows@)),
{
    if from > last {
        return;
    }
    let ghost lines = strs_of(rows@);
    let ghost target = repaint_rows(e.acc(), from as int, last as int, top as int, height as int, lines);
    let mut row = from;
    loop
        invariant_except_break
            from <= row <= last,
            lines == strs_of(rows@),
            repaint_rows(e.acc(), row as int, last as int, top as int, height as int, lines) == target,
        ensures
            e.acc() == target,
        decreases last - row,
    {
        if row < rows.len() {
            let ghost a = e.acc();
            e.move_to(row, top, height);
            let ghost b = e.acc();
            e.put("\x1b[2K");
            e.put(rows[row].as_str());
            e.put("\x1b[0m");
            proof {
                reveal_strlit("\x1b[2K");
                reveal_strlit("\x1b[0m");
                if b.2 {
                    assert(e.acc().0 =~= b.0 + (csi_clear_line() + lines[row as int] + csi_reset()));
                }
            }
        }
        if row == last {
            assert(repaint_rows(e.acc(), row + 1, last as int, top as int, height as int, lines) == e.acc());
            break;
        }
        row += 1;
    }
}

pub open spec fn res_view(r: Result<String, DrawError>) -> Result<Seq<char>, DrawError> {
    match r {
        Ok(s) => Ok(s@),
        Err(e) => Err(e),
    }
}

/// The first index where the two row lists differ.
fn first_difference(a: &Vec<String>, b: &Vec<String>) -> (r: Option<usize>)
    ensures
        match r {
            Some(i) => first_diff_from(strs_of(a@), strs_of(b@), 0) == Some(i as int),
            None => first_diff_from(strs_of(a@), strs_of(b@), 0) is None,
        },
{
    let ghost x = strs_of(a@);
    let ghost y = strs_of(b@);
    let n: usize = if a.len() > b.len() { a.len() } else { b.len() };
    let mut i: usize = 0;
    while i < n
        invariant
            i <= n,
            n == mx(x.len() as int, y.len() as int),
            x == strs_of(a@),
            y == strs_of(b@),
            first_diff_from(x, y, 0) == first_diff_from(x, y, i as int),
        decreases n - i,
    {
        let same = if i < a.len() && i < b.len() {
            crate::chars::str_eq(a[i].as_str(), b[i].as_str())
        } else {
            i >= a.len() && i >= b.len()
        };
        assert(same == (row_at(x, i as int) == row_at(y, i as int)));
        if !same {
            return Some(i);
        }
        i += 1;
    }
    None
}

/// The main-screen renderer's state: the terminal size, the rows of the
/// previous frame and the size it was drawn at, the logical row at the top
/// of the screen, the row the terminal cursor is on, and how the last
/// frame was drawn.
#[derive(Debug)]
pub struct PiStyleMainScreenBackend {
    size: Size,
    previous_lines: Vec<String>,
    previous_width: u16,
    previous_height: u16,
    previous_viewport_top: usize,
    hardware_cursor_row: usize,
    last_update_kind: Option<FrameUpdateKind>,
}

impl PiStyleMainScreenBackend {
    /// The state stays consistent (see `screen_consistent`).
    #[verifier::type_invariant]
    spec fn consistent(self) -> bool {
        screen_consistent(self.view())
    }

    pub closed spec fn view(&self) -> ScreenView {
        ScreenView {
            size: self.size,
            lines: strs_of(self.previous_lines@),
            width: self.previous_width,
            height: self.previous_height,
            top: self.previous_viewport_top as int,
            hw: self.hardware_cursor_row as int,
            kind: self.last_update_kind,
        }
    }

    /// Nothing drawn yet, at `size`.
    pub fn new(size: Size) -> (r: Self)
        ensures
            r.view() == (ScreenView {
                size,
                lines: seq![],
                width: size.width,
                height: size.height,
                top: 0,
                hw: 0,
                kind: None,
            }),
    {
        let r = PiStyleMainScreenBackend {
            size,
            previous_lines: Vec::new(),
            previous_width: size.width,
            previous_height: size.height,
            previous_viewport_top: 0,
            hardware_cursor_row: 0,
            last_update_kind: None,
        };
        assert(strs_of(r.previous_lines@) =~= Seq::<Seq<char>>::empty());
        r
    }

    /// The terminal size.
    pub fn size(&self) -> (r: Size)
        ensures
            r == self.view().size,
    {
        self.size
    }

    /// The rows of the previous frame.
    pub fn previous_lines(&self) -> (r: &Vec<String>)
        ensures
            strs_of(r@) == self.view().lines,
    {
        &self.previous_lines
    }

    /// The width the previous frame was drawn at.
    pub fn previous_width(&self) -> (r: u16)
        ensures
            r == self.view().width,
    {
        self.previous_width
    }

    /// The height the previous frame was drawn at.
    pub fn previous_height(&self) -> (r: u16)
        ensures
            r == self.view().height,
    {
        self.previous_height
    }

    /// The logical row at the top of the screen.
    pub fn previous_viewport_top(&self) -> (r: usize)
        ensures
            r == self.view().top,
    {
        self.previous_viewport_top
    }

    /// The logical row the terminal cursor is on.
    pub fn hardware_cursor_row(&self) -> (r: usize)
        ensures
            r == self.view().hw,
    {
        self.hardware_cursor_row
    }

    /// How the last frame was drawn.
    pub fn last_update_kind(&self) -> (r: Option<FrameUpdateKind>)
        ensures
            r == self.view().kind,
    {
        self.last_update_kind
    }

    fn set_frame(&mut self, rows: Vec<String>, top: usize, hw: usize)
        requires
            top == sat_sub(rows.len() as int, old(self).size.height as int),
        ensures
            final(self).view() == (ScreenView {
                lines: strs_of(rows@),
                width: old(self).size.width,
                height: old(self).size.height,
                top: top as int,
                hw: hw as int,
                ..old(self).view()
            }),
    {
        *self = PiStyleMainScreenBackend {
            size: self.size,
            previous_lines: rows,
            previous_width: self.size.width,
            previous_height: self.size.height,
            previous_viewport_top: top,
            hardware_cursor_row: hw,
            last_update_kind: self.last_update_kind,
        };
    }

    /// Repaints what changed since the previous frame (see `diff_spec`).
    #[verifier::rlimit(80)]
    fn differential_render(&mut self, rows: Vec<String>, cursor: &CursorState) -> (r: Result<String, DrawError>)
        requires
            old(self).size.height >= 1,
        ensures
            (res_view(r), final(self).view()) == diff_spec(old(self).view(), strs_of(rows@), *cursor),
    {
        proof {
            use_type_invariant(&*self);
        }
        let ghost v = self.view();
        let ghost lines = strs_of(rows@);
        let h = self.size.height as usize;
        let old_len = self.previous_lines.len();
        let new_len = rows.len();
        proof {
            reveal_strlit("\x1b[?2026h");
            reveal_strlit("\x1b[?2026l");
        }
        let first = match first_difference(&self.previous_lines, &rows) {
            None => {
                let mut out: Vec<char> = Vec::new();
                extend_str(&mut out, "\x1b[?2026h");
                let hw = push_position(&mut out, self.hardware_cursor_row, cursor, self.previous_viewport_top, self.size);
                extend_str(&mut out, "\x1b[?2026l");
                self.hardware_cursor_row = hw;
                assert(out@ =~= sync_on() + position_text(v.hw, *cursor, v.top, v.size).0 + sync_off());
                return Ok(string_from(out.as_slice()));
            },
            Some(f) => f,
        };
        let old_top = self.previous_viewport_top;
        let new_top: usize = if new_len > h { new_len - h } else { 0 };
        let tail = old_len <= new_len && strings_eq(&self.previous_lines, &rows, old_len);
        proof {
            assert(strs_of(self.previous_lines@).take(old_len as int) =~= v.lines);
            if old_len <= new_len {
                assert(strs_of(rows@).take(old_len as int) =~= lines.take(old_len as int));
            }
        }
        if first < old_top || new_top < old_top || (new_top > old_top && !tail) {
            self.last_update_kind = Some(FrameUpdateKind::Recovery);
            return Ok(self.full_render(rows, cursor, true));
        }
        let vs: usize = if tail && new_top > old_top { new_top - old_top } else { 0 };
        let pre: usize = if new_top == 0 && old_top == 0 && old_len < h && new_len > old_len {
            if new_len - old_len < h - old_len { new_len - old_len } else { h - old_len }
        } else {
            0
        };
        let mut e = Emitter::start(self.hardware_cursor_row);
        let below_old: usize = if old_len >= 1 { old_len - 1 } else { 0 };
        if pre > 0 {
            if old_len > 0 {
                e.move_to(old_len - 1, old_top, h);
            }
            e.put_newlines(pre);
            e.set_row(sat_add_exec(below_old, pre));
        }
        let hm1: usize = h - 1;
        let ovb_a = sat_add_exec(old_top, hm1);
        let ovb: usize = if ovb_a < below_old { ovb_a } else { below_old };
        if vs > 0 {
            e.move_to(ovb, old_top, h);
            e.put_newlines(vs);
            e.set_row(sat_add_exec(ovb, vs));
        }
        let cur_top = if vs > 0 { new_top } else { old_top };
        let below_new: usize = if new_len >= 1 { new_len - 1 } else { 0 };
        let nvb_a = sat_add_exec(new_top, hm1);
        let nvb: usize = if nvb_a < below_new { nvb_a } else { below_new };
        let ovb2_a = sat_add_exec(cur_top, hm1);
        let ovb2: usize = if ovb2_a < below_old { ovb2_a } else { below_old };
        if !e.ok {
            self.hardware_cursor_row = e.hw;
            return Err(DrawError::OutsideViewport);
        }
        if new_len < old_len && (if ovb2 > nvb { ovb2 - nvb } else { 0 }) >= h {
            self.last_update_kind = Some(FrameUpdateKind::Recovery);
            return Ok(self.full_render(rows, cursor, true));
        }
        if new_len < old_len {
            let a = if first > cur_top { first } else { cur_top };
            let start = if a > new_top { a } else { new_top };
            clear_range(&mut e, start, ovb2, cur_top, h);
        }
        let start: usize = if pre > 0 || vs > 0 {
            new_top
        } else if first > new_top {
            first
        } else {
            new_top
        };
        if new_len > 0 {
            repaint_range(&mut e, start, nvb, new_top, h, &rows);
        }
        if !e.ok {
            self.hardware_cursor_row = e.hw;
            return Err(DrawError::OutsideViewport);
        }
        let mut out: Vec<char> = Vec::new();
        extend_str(&mut out, "\x1b[?2026h");
        extend_chars(&mut out, e.out.as_slice());
        let hw = push_position(&mut out, e.hw, cursor, new_top, self.size);
        extend_str(&mut out, "\x1b[?2026l");
        assert(out@ =~= sync_on() + e.out@ + position_text(e.hw as int, *cursor, new_top as int, v.size).0 + sync_off());
        self.set_frame(rows, new_top, hw);
        Ok(string_from(out.as_slice()))
    }

    /// Draws a frame: returns the text to write to the terminal, or why the
    /// frame was refused (see `draw_spec`).
    pub fn draw_frame(&mut self, frame: TerminalFrame) -> (r: Result<String, DrawError>)
        ensures
            (res_view(r), final(self).view()) == draw_spec(old(self).view(), frame.size, row_texts(frame.full_rows@), frame.cursor),
            frame.size.width > 0 && frame.size.height > 0 ==> (r is Err <==> exists|i: int|
                0 <= i < frame.full_rows.len() && display_width_spec(#[trigger] row_texts(frame.full_rows@)[i])
                    > frame.size.width),
            r is Err ==> final(self).view() == old(self).view() && r matches Err(DrawError::RowTooWide { .. }),
            r is Ok && frame.size.width > 0 && frame.size.height > 0 ==> framed_update(
                res_view(r),
                final(self).view(),
                row_texts(frame.full_rows@),
                frame.size,
            ),
    {
        proof {
            use_type_invariant(&*self);
            let v0 = self.view();
            let texts = row_texts(frame.full_rows@);
            if frame.size.width > 0 && frame.size.height > 0 {
                law_draw_fails_exactly_on_too_wide_rows(v0, frame.size, texts, frame.cursor);
                if draw_spec(v0, frame.size, texts, frame.cursor).0 is Ok {
                    law_draw_is_framed_and_keeps_the_screen_consistent(v0, frame.size, texts, frame.cursor);
                }
            }
        }
        let ghost texts = row_texts(frame.full_rows@);
        if frame.size.width == 0 || frame.size.height == 0 {
            return Ok(String::new());
        }
        let mut i: usize = 0;
        while i < frame.full_rows.len()
            invariant
                i <= frame.full_rows.len(),
                texts == row_texts(frame.full_rows@),
                frame.size.width > 0,
                frame.size.height > 0,
                self.view() == old(self).view(),
                first_too_wide(texts, frame.size.width, 0) == first_too_wide(texts, frame.size.width, i as int),
            decreases frame.full_rows.len() - i,
        {
            let w = display_width(frame.full_rows[i].text.as_str());
            assert(texts[i as int] == frame.full_rows@[i as int].text@);
            if w > frame.size.width as usize {
                assert(first_too_wide(texts, frame.size.width, i as int) == Some(i as int));
                return Err(DrawError::RowTooWide { row: i, width: w, limit: frame.size.width });
            }
            i += 1;
        }
        let mut rows: Vec<String> = Vec::new();
        let mut k: usize = 0;
        while k < frame.full_rows.len()
            invariant
                k <= frame.full_rows.len(),
                texts == row_texts(frame.full_rows@),
                strs_of(rows@) == texts.take(k as int),
            decreases frame.full_rows.len() - k,
        {
            let ghost b = strs_of(rows@);
            rows.push(frame.full_rows[k].text.clone());
            assert(strs_of(rows@) =~= b.push(texts[k as int]));
            assert(texts.take(k + 1) =~= texts.take(k as int).push(texts[k as int]));
            k += 1;
        }
        assert(texts.take(frame.full_rows.len() as int) =~= texts);
        self.size = frame.size;
        let first = self.previous_lines.len() == 0;
        let resized = self.previous_width != frame.size.width || self.previous_height != frame.size.height;
        let kind = if first {
            FrameUpdateKind::Initial
        } else if resized {
            FrameUpdateKind::ResizeOrReflow
        } else {
            FrameUpdateKind::LiveUiOnly
        };
        self.last_update_kind = Some(kind);
        if first {
            Ok(self.full_render(rows, &frame.cursor, false))
        } else if resized {
            Ok(self.full_render(rows, &frame.cursor, true))
        } else {
            self.differential_render(rows, &frame.cursor)
        }
    }

    /// Forgets the previous frame and clears the screen: returns the text
    /// to write.
    pub fn clear_screen(&mut self) -> (r: String)
        ensures
            r@ == csi_hide_cursor() + csi_home() + csi_clear_screen(),
            final(self).view() == (ScreenView {
                lines: seq![],
                top: 0,
                hw: 0,
                kind: Some(FrameUpdateKind::Recovery),
                ..old(self).view()
            }),
    {
        proof {
            use_type_invariant(&*self);
        }
        self.previous_lines = Vec::new();
        self.previous_viewport_top = 0;
        self.hardware_cursor_row = 0;
        self.last_update_kind = Some(FrameUpdateKind::Recovery);
        assert(strs_of(self.previous_lines@) =~= Seq::<Seq<char>>::empty());
        let mut out: Vec<char> = Vec::new();
        extend_str(&mut out, "\x1b[?25l");
        extend_str(&mut out, "\x1b[H");
        extend_str(&mut out, "\x1b[2J");
        proof {
            reveal_strlit("\x1b[?25l");
            reveal_strlit("\x1b[H");
            reveal_strlit("\x1b[2J");
        }
        assert(out@ =~= csi_hide_cursor() + csi_home() + csi_clear_screen());
        string_from(out.as_slice())
    }

    /// Before leaving: resets the style, shows the cursor, moves below the
    /// last row on the screen and starts a new line. Returns the text to
    /// write and the screen row the shell continues on (the last one).
    pub fn prepare_shutdown(&mut self) -> (r: (String, u16))
        ensures
            ({
                let v = old(self).view();
                let visible = mn(sat_sub(v.lines.len() as int, v.top), v.size.height as int);
                let bottom = sat_add(v.top, sat_sub(visible, 1));
                let a = if visible > 0 {
                    do_move((seq![], v.hw, true), bottom, v.top, v.size.height as int)
                } else {
                    (seq![], v.hw, true)
                };
                &&& r.0@ == csi_reset() + csi_show_cursor() + a.0 + "\r\n"@
                &&& r.1 == sat_sub(v.size.height as int, 1)
                &&& final(self).view() == (ScreenView { hw: a.1, ..v })
            }),
    {
        proof {
            use_type_invariant(&*self);
        }
        let top = self.previous_viewport_top;
        let n = self.previous_lines.len();
        let below: usize = if n > top { n - top } else { 0 };
        let h = self.size.height as usize;
        let visible: usize = if below < h { below } else { h };
        let bottom = sat_add_exec(top, if visible >= 1 { visible - 1 } else { 0 });
        let mut e = Emitter::start(self.hardware_cursor_row);
        if visible > 0 {
            e.move_to(bottom, top, h);
        }
        self.hardware_cursor_row = e.hw;
        let mut out: Vec<char> = Vec::new();
        extend_str(&mut out, "\x1b[0m");
        extend_str(&mut out, "\x1b[?25h");
        extend_chars(&mut out, e.out.as_slice());
        extend_str(&mut out, "\r\n");
        proof {
            reveal_strlit("\x1b[0m");
            reveal_strlit("\x1b[?25h");
            reveal_strlit("\r\n");
        }
        (string_from(out.as_slice()), if self.size.height >= 1 { self.size.height - 1 } else { 0 })
    }

    /// Prints the whole frame.
    fn full_render(&mut self, rows: Vec<String>, cursor: &CursorState, clear: bool) -> (r: String)
        ensures
            (Ok::<Seq<char>, DrawError>(r@), final(self).view()) == full_spec(old(self).view(), strs_of(rows@), *cursor, clear),
    {
        proof {
            use_type_invariant(&*self);
        }
        let ghost lines = strs_of(rows@);
        let mut out: Vec<char> = Vec::new();
        extend_str(&mut out, "\x1b[?2026h");
        if clear {
            extend_str(&mut out, "\x1b[?25l");
            extend_str(&mut out, "\x1b[H");
            extend_str(&mut out, "\x1b[2J");
            extend_str(&mut out, "\x1b[3J");
            extend_str(&mut out, "\x1b[H");
        }
        let ghost head = out@;
        let mut i: usize = 0;
        while i < rows.len()
            invariant
                i <= rows.len(),
                lines == strs_of(rows@),
                out@ == head + joined_lines(lines.take(i as int)),
            decreases rows.len() - i,
        {
            if i > 0 {
                extend_str(&mut out, "\r\n");
            }
            extend_str(&mut out, rows[i].as_str());
            extend_str(&mut out, "\x1b[0m");
            proof {
                reveal_strlit("\r\n");
                reveal_strlit("\x1b[0m");
            }
            assert(lines.take(i + 1).drop_last() =~= lines.take(i as int));
            assert(out@ =~= head + joined_lines(lines.take(i + 1)));
            i += 1;
        }
        assert(lines.take(rows.len() as int) =~= lines);
        let n = rows.len();
        let hw0: usize = if n >= 1 { n - 1 } else { 0 };
        let h = self.size.height as usize;
        let top: usize = if n > h { n - h } else { 0 };
        let hw = push_position(&mut out, hw0, cursor, top, self.size);
        extend_str(&mut out, "\x1b[?2026l");
        proof {
            reveal_strlit("\x1b[?2026h");
            reveal_strlit("\x1b[?2026l");
            reveal_strlit("\x1b[?25l");
            reveal_strlit("\x1b[H");
            reveal_strlit("\x1b[2J");
            reveal_strlit("\x1b[3J");
        }
        let ghost p = position_text(hw0 as int, *cursor, top as int, self.size);
        let ghost want_head = if clear {
            csi_hide_cursor() + csi_home() + csi_clear_screen() + csi_clear_scrollback() + csi_home()
        } else {
            seq![]
        };
        assert(head =~= sync_on() + want_head);
        assert(out@ =~= sync_on() + want_head + joined_lines(lines) + p.0 + sync_off());
        self.set_frame(rows, top, hw);
        string_from(out.as_slice())
    }
}

} // verus!

verus! {

/// On a terminal of no rows or no columns nothing is drawn and nothing
/// changes.
pub proof fn law_zero_size_draws_nothing(v: ScreenView, size: Size, rows: Seq<Seq<char>>, cursor: CursorState)
    requires
        size.width == 0 || size.height == 0,
    ensures
        draw_spec(v, size, rows, cursor) == (Ok::<Seq<char>, DrawError>(seq![]), v),
{
}

/// A frame with a row wider than the terminal is refused, and nothing
/// changes.
pub proof fn law_too_wide_frame_is_refused(v: ScreenView, size: Size, rows: Seq<Seq<char>>, cursor: CursorState)
    requires
        size.width > 0,
        size.height > 0,
        first_too_wide(rows, size.width, 0) is Some,
    ensures
        draw_spec(v, size, rows, cursor).0 is Err,
        draw_spec(v, size, rows, cursor).1 == v,
{
}

proof fn lemma_no_diff_with_itself(a: Seq<Seq<char>>, i: int)
    requires
        i >= 0,
    ensures
        first_diff_from(a, a, i) is None,
    decreases a.len() - i,
{
    if i < a.len() {
        lemma_no_diff_with_itself(a, i + 1);
    }
}

/// The first frame is printed where the cursor is, without clearing the
/// screen or the scrollback: the rows joined, then the cursor placed; the
/// frame becomes the previous one.
pub proof fn law_first_frame_is_printed_in_place(v: ScreenView, size: Size, rows: Seq<Seq<char>>, cursor: CursorState)
    requires
        size.width > 0,
        size.height > 0,
        first_too_wide(rows, size.width, 0) is None,
        v.lines.len() == 0,
    ensures
        ({
            let n = rows.len() as int;
            let top = sat_sub(n, size.height as int);
            let p = position_text(sat_sub(n, 1), cursor, top, size);
            &&& draw_spec(v, size, rows, cursor).0 == Ok::<Seq<char>, DrawError>(sync_on() + joined_lines(rows) + p.0 + sync_off())
            &&& draw_spec(v, size, rows, cursor).1.lines == rows
            &&& draw_spec(v, size, rows, cursor).1.top == top
            &&& draw_spec(v, size, rows, cursor).1.kind == Some(FrameUpdateKind::Initial)
        }),
{
    assert(sync_on() + Seq::<char>::empty() =~= sync_on());
}

/// Drawing the same rows again at the same size only places the cursor:
/// nothing is repainted and the previous frame stays.
pub proof fn law_unchanged_frame_only_places_cursor(v: ScreenView, size: Size, cursor: CursorState)
    requires
        size.width > 0,
        size.height > 0,
        first_too_wide(v.lines, size.width, 0) is None,
        v.lines.len() > 0,
        v.width == size.width,
        v.height == size.height,
    ensures
        draw_spec(v, size, v.lines, cursor).0 == Ok::<Seq<char>, DrawError>(
            sync_on() + position_text(v.hw, cursor, v.top, size).0 + sync_off(),
        ),
        draw_spec(v, size, v.lines, cursor).1.lines == v.lines,
        draw_spec(v, size, v.lines, cursor).1.top == v.top,
        draw_spec(v, size, v.lines, cursor).1.hw == position_text(v.hw, cursor, v.top, size).1,
        draw_spec(v, size, v.lines, cursor).1.kind == Some(FrameUpdateKind::LiveUiOnly),
{
    lemma_no_diff_with_itself(v.lines, 0);
}

/// The state a backend keeps between draws: as many rows as a `Vec` holds,
/// and, once a frame is drawn, its top row is where a screen of the drawn
/// height shows its last rows.
pub open spec fn screen_consistent(v: ScreenView) -> bool {
    &&& v.lines.len() <= usize::MAX
    &&& v.lines.len() > 0 ==> v.top == sat_sub(v.lines.len() as int, v.height as int)
}

/// The sequences that clear the screen and the scrollback before a frame
/// is printed again.
pub open spec fn clear_head() -> Seq<char> {
    csi_hide_cursor() + csi_home() + csi_clear_screen() + csi_clear_scrollback() + csi_home()
}

proof fn lemma_first_too_wide(rows: Seq<Seq<char>>, width: u16, i: int)
    requires
        i >= 0,
    ensures
        first_too_wide(rows, width, i) is Some <==> exists|j: int| i <= j < rows.len() && display_width_spec(
            #[trigger] rows[j],
        ) > width,
    decreases rows.len() - i,
{
    if i < rows.len() {
        lemma_first_too_wide(rows, width, i + 1);
        if exists|j: int| i <= j < rows.len() && display_width_spec(#[trigger] rows[j]) > width {
            let j = choose|j: int| i <= j < rows.len() && display_width_spec(#[trigger] rows[j]) > width;
            if j > i {
                assert(i + 1 <= j);
            }
        }
    }
}

proof fn lemma_clear_rows_ok(a: Acc, row: int, last: int, top: int, height: int)
    requires
        a.2,
        row >= top,
        last < sat_add(top, height),
    ensures
        clear_rows(a, row, last, top, height).2,
    decreases last + 1 - row,
{
    if row <= last {
        lemma_clear_rows_ok(emit(do_move(a, row, top, height), csi_clear_line() + csi_reset()), row + 1, last, top, height);
    }
}

proof fn lemma_repaint_rows_ok(a: Acc, row: int, last: int, top: int, height: int, lines: Seq<Seq<char>>)
    requires
        a.2,
        row >= top,
        last < sat_add(top, height),
    ensures
        repaint_rows(a, row, last, top, height, lines).2,
    decreases last + 1 - row,
{
    if row <= last {
        let b = if 0 <= row < lines.len() {
            emit(do_move(a, row, top, height), csi_clear_line() + lines[row] + csi_reset())
        } else {
            a
        };
        lemma_repaint_rows_ok(b, row + 1, last, top, height, lines);
    }
}

proof fn lemma_framed(a: Seq<char>, b: Seq<char>, c: Seq<char>)
    ensures
        (a + b + c).take(a.len() as int) == a,
        (a + b + c).skip((a + b + c).len() - c.len()) == c,
{
    assert((a + b + c).take(a.len() as int) =~= a);
    assert((a + b + c).skip((a + b + c).len() - c.len()) =~= c);
}

/// A successful draw's output and state: framed by the synchronized-update
/// markers, the frame kept as the previous one with its top row where a
/// screen of `size` shows its last rows.
pub open spec fn framed_update(r: Result<Seq<char>, DrawError>, w: ScreenView, rows: Seq<Seq<char>>, size: Size) -> bool {
    &&& r is Ok
    &&& r->Ok_0.take(sync_on().len() as int) == sync_on()
    &&& r->Ok_0.skip(r->Ok_0.len() - sync_off().len()) == sync_off()
    &&& w.lines == rows
    &&& w.top == sat_sub(rows.len() as int, size.height as int)
    &&& w.size == size && w.width == size.width && w.height == size.height
}

/// The output begins by clearing the screen and the scrollback.
pub open spec fn clears_first(r: Result<Seq<char>, DrawError>) -> bool {
    r->Ok_0.take((sync_on() + clear_head()).len() as int) == sync_on() + clear_head()
}

proof fn lemma_full_framed(v: ScreenView, rows: Seq<Seq<char>>, cursor: CursorState, clear: bool)
    ensures
        framed_update(full_spec(v, rows, cursor, clear).0, full_spec(v, rows, cursor, clear).1, rows, v.size),
        full_spec(v, rows, cursor, clear).1.kind == v.kind,
        clear ==> clears_first(full_spec(v, rows, cursor, clear).0),
{
    let n = rows.len() as int;
    let top = sat_sub(n, v.size.height as int);
    let p = position_text(sat_sub(n, 1), cursor, top, v.size);
    let body = joined_lines(rows) + p.0;
    if clear {
        assert(sync_on() + clear_head() + joined_lines(rows) + p.0 + sync_off() =~= sync_on() + (clear_head() + body)
            + sync_off());
        assert(sync_on() + clear_head() + joined_lines(rows) + p.0 + sync_off() =~= (sync_on() + clear_head()) + body
            + sync_off());
        lemma_framed(sync_on(), clear_head() + body, sync_off());
        lemma_framed(sync_on() + clear_head(), body, sync_off());
    } else {
        assert(sync_on() + Seq::<char>::empty() + joined_lines(rows) + p.0 + sync_off() =~= sync_on() + body + sync_off());
        lemma_framed(sync_on(), body, sync_off());
    }
}

proof fn lemma_diff_same(v: ScreenView, rows: Seq<Seq<char>>, cursor: CursorState)
    requires
        screen_consistent(v),
        v.lines.len() > 0,
        v.height == v.size.height,
        v.width == v.size.width,
        first_diff_from(v.lines, rows, 0) is None,
    ensures
        framed_update(diff_spec(v, rows, cursor).0, diff_spec(v, rows, cursor).1, rows, v.size),
        diff_spec(v, rows, cursor).1.kind == v.kind,
{
    lemma_no_diff_equal(v.lines, rows, 0);
    if v.lines.len() < rows.len() {
        assert(row_at(v.lines, v.lines.len() as int) == row_at(rows, v.lines.len() as int));
    }
    if rows.len() < v.lines.len() {
        assert(row_at(v.lines, rows.len() as int) == row_at(rows, rows.len() as int));
    }
    assert forall|k: int| 0 <= k < rows.len() implies #[trigger] rows[k] == v.lines[k] by {
        assert(row_at(v.lines, k) == row_at(rows, k));
    }
    assert(v.lines =~= rows);
    let p = position_text(v.hw, cursor, v.top, v.size);
    lemma_framed(sync_on(), p.0, sync_off());
}

proof fn lemma_diff_repaint_ok(v: ScreenView, rows: Seq<Seq<char>>, cursor: CursorState, first: int)
    requires
        screen_consistent(v),
        v.lines.len() > 0,
        v.height == v.size.height,
        v.width == v.size.width,
        v.size.height > 0,
        rows.len() <= usize::MAX,
        first_diff_from(v.lines, rows, 0) == Some(first),
        0 <= first,
        first >= v.top,
        sat_sub(rows.len() as int, v.size.height as int) >= v.top,
        sat_sub(rows.len() as int, v.size.height as int) > v.top ==> (v.lines.len() <= rows.len() && rows.take(
            v.lines.len() as int,
        ) == v.lines),
    ensures
        framed_update(diff_spec(v, rows, cursor).0, diff_spec(v, rows, cursor).1, rows, v.size),
        diff_spec(v, rows, cursor).1.kind == v.kind || (diff_spec(v, rows, cursor).1.kind == Some(
            FrameUpdateKind::Recovery,
        ) && clears_first(diff_spec(v, rows, cursor).0)),
{
    let h = v.size.height as int;
    let old_len = v.lines.len() as int;
    let new_len = rows.len() as int;
    let old_top = v.top;
    let new_top = sat_sub(new_len, h);
    let tail = old_len <= new_len && rows.take(old_len) == v.lines;
    let recovery = ScreenView { kind: Some(FrameUpdateKind::Recovery), ..v };
    lemma_full_framed(recovery, rows, cursor, true);
    let vs = if tail { sat_sub(new_top, old_top) } else { 0 };
    let pre = if new_top == 0 && old_top == 0 && old_len < h && new_len > old_len {
        mn(new_len - old_len, h - old_len)
    } else {
        0
    };
    let a0: Acc = (seq![], v.hw, true);
    let a1 = if pre > 0 {
        set_hw(
            emit(if old_len > 0 { do_move(a0, old_len - 1, old_top, h) } else { a0 }, newlines(pre as nat)),
            sat_add(sat_sub(old_len, 1), pre),
        )
    } else {
        a0
    };
    assert(a1.2);
    let ovb = mn(sat_add(old_top, sat_sub(h, 1)), sat_sub(old_len, 1));
    let a2 = if vs > 0 {
        set_hw(emit(do_move(a1, ovb, old_top, h), newlines(vs as nat)), sat_add(ovb, vs))
    } else {
        a1
    };
    assert(a2.2);
    let cur_top = if vs > 0 { new_top } else { old_top };
    let nvb = mn(sat_add(new_top, sat_sub(h, 1)), sat_sub(new_len, 1));
    let ovb2 = mn(sat_add(cur_top, sat_sub(h, 1)), sat_sub(old_len, 1));
    if new_len < old_len && sat_sub(ovb2, nvb) >= h {
    } else {
        let a3 = if new_len < old_len {
            lemma_clear_rows_ok(a2, mx(mx(first, cur_top), new_top), ovb2, cur_top, h);
            clear_rows(a2, mx(mx(first, cur_top), new_top), ovb2, cur_top, h)
        } else {
            a2
        };
        assert(a3.2);
        let start = if pre > 0 || vs > 0 { new_top } else { mx(first, new_top) };
        let a4 = if new_len > 0 {
            lemma_repaint_rows_ok(a3, start, nvb, new_top, h, rows);
            repaint_rows(a3, start, nvb, new_top, h, rows)
        } else {
            a3
        };
        assert(a4.2);
        let p = position_text(a4.1, cursor, new_top, v.size);
        lemma_framed(sync_on(), a4.0 + p.0, sync_off());
        assert(sync_on() + a4.0 + p.0 + sync_off() =~= sync_on() + (a4.0 + p.0) + sync_off());
    }
}

/// On a consistent state with a previous frame of the same size, repainting
/// what changed never needs a row off the screen: it succeeds, framed, with
/// the new rows kept; it either keeps the update kind or clears and
/// reprints everything as a recovery.
proof fn lemma_diff_ok(v: ScreenView, rows: Seq<Seq<char>>, cursor: CursorState)
    requires
        screen_consistent(v),
        v.lines.len() > 0,
        v.height == v.size.height,
        v.width == v.size.width,
        v.size.height > 0,
        rows.len() <= usize::MAX,
    ensures
        framed_update(diff_spec(v, rows, cursor).0, diff_spec(v, rows, cursor).1, rows, v.size),
        diff_spec(v, rows, cursor).1.kind == v.kind || (diff_spec(v, rows, cursor).1.kind == Some(
            FrameUpdateKind::Recovery,
        ) && clears_first(diff_spec(v, rows, cursor).0)),
{
    match first_diff_from(v.lines, rows, 0) {
        None => {
            lemma_diff_same(v, rows, cursor);
        },
        Some(first) => {
            lemma_first_diff_bounds(v.lines, rows, 0);
            let h = v.size.height as int;
            let new_top = sat_sub(rows.len() as int, h);
            let tail = v.lines.len() <= rows.len() && rows.take(v.lines.len() as int) == v.lines;
            if first < v.top || new_top < v.top || (new_top > v.top && !tail) {
                let recovery = ScreenView { kind: Some(FrameUpdateKind::Recovery), ..v };
                lemma_full_framed(recovery, rows, cursor, true);
            } else {
                lemma_diff_repaint_ok(v, rows, cursor, first);
            }
        },
    }
}

proof fn lemma_no_diff_equal(a: Seq<Seq<char>>, b: Seq<Seq<char>>, i: int)
    requires
        0 <= i,
        first_diff_from(a, b, i) is None,
        i <= mx(a.len() as int, b.len() as int),
    ensures
        forall|k: int| i <= k < mx(a.len() as int, b.len() as int) ==> #[trigger] row_at(a, k) == row_at(b, k),
    decreases mx(a.len() as int, b.len() as int) - i,
{
    if i < mx(a.len() as int, b.len() as int) {
        lemma_no_diff_equal(a, b, i + 1);
    }
}

proof fn lemma_first_diff_bounds(a: Seq<Seq<char>>, b: Seq<Seq<char>>, i: int)
    requires
        0 <= i,
    ensures
        first_diff_from(a, b, i) matches Some(f) ==> i <= f < mx(a.len() as int, b.len() as int),
    decreases mx(a.len() as int, b.len() as int) - i,
{
    if 0 <= i < mx(a.len() as int, b.len() as int) && row_at(a, i) == row_at(b, i) {
        lemma_first_diff_bounds(a, b, i + 1);
    }
}

/// On a non-empty terminal a draw fails exactly when some row is wider
/// than the terminal, and a refused draw changes nothing (on a consistent
/// state no repaint ever needs a row off the screen).
pub proof fn law_draw_fails_exactly_on_too_wide_rows(v: ScreenView, size: Size, rows: Seq<Seq<char>>, cursor: CursorState)
    requires
        size.width > 0,
        size.height > 0,
        screen_consistent(v),
        rows.len() <= usize::MAX,
    ensures
        draw_spec(v, size, rows, cursor).0 is Err <==> exists|i: int| 0 <= i < rows.len() && display_width_spec(
            #[trigger] rows[i],
        ) > size.width,
        draw_spec(v, size, rows, cursor).0 is Err ==> draw_spec(v, size, rows, cursor).1 == v && draw_spec(
            v,
            size,
            rows,
            cursor,
        ).0 matches Err(DrawError::RowTooWide { .. }),
{
    lemma_first_too_wide(rows, size.width, 0);
    if first_too_wide(rows, size.width, 0) is None && v.lines.len() > 0 && v.width == size.width && v.height
        == size.height {
        let v1 = ScreenView { size, kind: Some(FrameUpdateKind::LiveUiOnly), ..v };
        lemma_diff_ok(v1, rows, cursor);
    }
}

/// Every draw on a non-empty terminal with no row too wide succeeds: its
/// output is framed by the synchronized-update markers, the frame becomes
/// the previous one with its top row where the screen shows its last rows,
/// and the state stays consistent. The first frame is `Initial`; a frame at
/// a new size is `ResizeOrReflow` and clears the screen and scrollback
/// first; any other is `LiveUiOnly`, or `Recovery` when it had to clear and
/// reprint everything.
pub proof fn law_draw_is_framed_and_keeps_the_screen_consistent(
    v: ScreenView,
    size: Size,
    rows: Seq<Seq<char>>,
    cursor: CursorState,
)
    requires
        size.width > 0,
        size.height > 0,
        screen_consistent(v),
        rows.len() <= usize::MAX,
        forall|i: int| 0 <= i < rows.len() ==> display_width_spec(#[trigger] rows[i]) <= size.width,
    ensures
        framed_update(draw_spec(v, size, rows, cursor).0, draw_spec(v, size, rows, cursor).1, rows, size),
        screen_consistent(draw_spec(v, size, rows, cursor).1),
        if v.lines.len() == 0 {
            draw_spec(v, size, rows, cursor).1.kind == Some(FrameUpdateKind::Initial)
        } else if v.width != size.width || v.height != size.height {
            &&& draw_spec(v, size, rows, cursor).1.kind == Some(FrameUpdateKind::ResizeOrReflow)
            &&& clears_first(draw_spec(v, size, rows, cursor).0)
        } else {
            ||| draw_spec(v, size, rows, cursor).1.kind == Some(FrameUpdateKind::LiveUiOnly)
            ||| draw_spec(v, size, rows, cursor).1.kind == Some(FrameUpdateKind::Recovery) && clears_first(
                draw_spec(v, size, rows, cursor).0,
            )
        },
{
    lemma_first_too_wide(rows, size.width, 0);
    let kind = if v.lines.len() == 0 {
        FrameUpdateKind::Initial
    } else if v.width != size.width || v.height != size.height {
        FrameUpdateKind::ResizeOrReflow
    } else {
        FrameUpdateKind::LiveUiOnly
    };
    let v1 = ScreenView { size, kind: Some(kind), ..v };
    if v.lines.len() == 0 {
        lemma_full_framed(v1, rows, cursor, false);
    } else if v.width != size.width || v.height != size.height {
        lemma_full_framed(v1, rows, cursor, true);
    } else {
        lemma_diff_ok(v1, rows, cursor);
    }
}

/// Whether `ESC [ 2 J` (clear the screen) or `ESC [ 3 J` (clear the
/// scrollback) starts at `i` in `s`.
pub open spec fn clear_at(s: Seq<char>, i: int) -> bool {
    &&& 0 <= i
    &&& i + 3 < s.len()
    &&& s[i] == '\x1b'
    &&& s[i + 1] == '['
    &&& (s[i + 2] == '2' || s[i + 2] == '3')
    &&& s[i + 3] == 'J'
}

/// `s` holds no sequence that clears the screen or the scrollback.
pub open spec fn no_clear(s: Seq<char>) -> bool {
    forall|i: int| !#[trigger] clear_at(s, i)
}

/// A character that cannot end the start of a clearing sequence.
pub open spec fn safe_end(c: char) -> bool {
    c != '\x1b' && c != '[' && c != '2' && c != '3'
}

/// A character that cannot continue a clearing sequence.
pub open spec fn safe_start(c: char) -> bool {
    c != '[' && c != '2' && c != '3' && c != 'J'
}

/// No clearing sequence, and nothing at the end that one could grow from.
pub open spec fn clean(s: Seq<char>) -> bool {
    no_clear(s) && (s.len() == 0 || safe_end(s.last()))
}

proof fn lemma_no_clear_concat(a: Seq<char>, b: Seq<char>)
    requires
        no_clear(a),
        no_clear(b),
        a.len() == 0 || b.len() == 0 || safe_end(a.last()) || safe_start(b[0]),
    ensures
        no_clear(a + b),
{
    let s = a + b;
    assert forall|i: int| !#[trigger] clear_at(s, i) by {
        if clear_at(s, i) {
            if i + 3 < a.len() {
                assert(clear_at(a, i));
            } else if i >= a.len() {
                assert(clear_at(b, i - a.len()));
            } else {
                assert(s[a.len() as int] == b[0]);
                assert(s[a.len() - 1] == a.last());
            }
        }
    }
}

proof fn lemma_clean_concat(a: Seq<char>, b: Seq<char>)
    requires
        clean(a),
        clean(b),
    ensures
        clean(a + b),
{
    lemma_no_clear_concat(a, b);
    if b.len() > 0 {
        assert((a + b).last() == b.last());
    } else {
        assert(a + b =~= a);
    }
}

proof fn lemma_decimal_digits(n: nat)
    ensures
        forall|i: int| 0 <= i < decimal(n).len() ==> '0' <= #[trigger] decimal(n)[i] <= '9',
    decreases n,
{
    if n >= 10 {
        lemma_decimal_digits(n / 10);
        let d = decimal(n / 10);
        assert forall|i: int| 0 <= i < decimal(n).len() implies '0' <= #[trigger] decimal(n)[i] <= '9' by {
            if i < d.len() {
                assert(decimal(n)[i] == d[i]);
            }
        }
    }
}

proof fn lemma_csi_count_clean(n: int, c: char)
    requires
        c != 'J',
        c != '\x1b',
        safe_end(c),
    ensures
        clean(csi_count(n, c)),
{
    reveal_strlit("\x1b[");
    lemma_decimal_digits(n as nat);
    crate::chars::lemma_decimal_len_pos(n as nat);
    let d = decimal(n as nat);
    let s = csi_count(n, c);
    assert(s.len() == d.len() + 3);
    assert forall|k: int| 0 <= k < d.len() implies s[k + 2] == d[k] by {}
    assert forall|i: int| !#[trigger] clear_at(s, i) by {
        if clear_at(s, i) {
            if i == 0 {
                if d.len() == 1 {
                    assert(s[3] == c);
                } else {
                    assert(s[3] == d[1]);
                }
            } else if i - 2 < d.len() {
                assert(s[i] == d[i - 2]);
            } else {
                assert(s[i] == c);
            }
        }
    }
    assert(s.last() == c);
}

proof fn lemma_literals_clean()
    ensures
        clean(sync_on()),
        clean(sync_off()),
        clean(csi_clear_line()),
        clean(csi_reset()),
        clean(csi_hide_cursor()),
        clean(csi_show_cursor()),
        clean("\r"@),
        clean("\r\n"@),
        clean(cursor_style_spec(CursorStyle::Default)),
        clean(cursor_style_spec(CursorStyle::Block)),
        clean(cursor_style_spec(CursorStyle::Bar)),
{
    reveal_strlit("\x1b[?2026h");
    reveal_strlit("\x1b[?2026l");
    reveal_strlit("\x1b[2K");
    reveal_strlit("\x1b[0m");
    reveal_strlit("\x1b[?25l");
    reveal_strlit("\x1b[?25h");
    reveal_strlit("\r");
    reveal_strlit("\r\n");
    reveal_strlit("\x1b[0 q");
    reveal_strlit("\x1b[2 q");
    reveal_strlit("\x1b[6 q");
    assert forall|i: int| !#[trigger] clear_at(sync_on(), i) by {}
    assert forall|i: int| !#[trigger] clear_at(sync_off(), i) by {}
    assert forall|i: int| !#[trigger] clear_at(csi_clear_line(), i) by {}
    assert forall|i: int| !#[trigger] clear_at(csi_reset(), i) by {}
    assert forall|i: int| !#[trigger] clear_at(csi_hide_cursor(), i) by {}
    assert forall|i: int| !#[trigger] clear_at(csi_show_cursor(), i) by {}
    assert forall|i: int| !#[trigger] clear_at("\r"@, i) by {}
    assert forall|i: int| !#[trigger] clear_at("\r\n"@, i) by {}
    assert forall|i: int| !#[trigger] clear_at(cursor_style_spec(CursorStyle::Default), i) by {}
    assert forall|i: int| !#[trigger] clear_at(cursor_style_spec(CursorStyle::Block), i) by {}
    assert forall|i: int| !#[trigger] clear_at(cursor_style_spec(CursorStyle::Bar), i) by {}
}

proof fn lemma_move_text_clean(hw: int, target: int, top: int)
    ensures
        clean(move_text(hw, target, top)),
{
    lemma_literals_clean();
    let cur = sat_sub(hw, top);
    let tgt = sat_sub(target, top);
    let head = if tgt > cur {
        csi_count(tgt - cur, 'B')
    } else if cur > tgt {
        csi_count(cur - tgt, 'A')
    } else {
        seq![]
    };
    if tgt > cur {
        lemma_csi_count_clean(tgt - cur, 'B');
    } else if cur > tgt {
        lemma_csi_count_clean(cur - tgt, 'A');
    } else {
        assert(clean(head)) by {
            assert forall|i: int| !#[trigger] clear_at(head, i) by {}
        }
    }
    lemma_clean_concat(head, "\r"@);
}

proof fn lemma_newlines_clean(n: nat)
    ensures
        clean(newlines(n)),
    decreases n,
{
    lemma_literals_clean();
    if n == 0 {
        assert forall|i: int| !#[trigger] clear_at(newlines(0), i) by {}
    } else {
        lemma_newlines_clean((n - 1) as nat);
        lemma_clean_concat(newlines((n - 1) as nat), "\r\n"@);
    }
}

proof fn lemma_do_move_clean(a: Acc, target: int, top: int, height: int)
    requires
        clean(a.0),
    ensures
        clean(do_move(a, target, top, height).0),
{
    lemma_move_text_clean(a.1, target, top);
    lemma_clean_concat(a.0, move_text(a.1, target, top));
}

proof fn lemma_emit_clean(a: Acc, t: Seq<char>)
    requires
        clean(a.0),
        clean(t),
    ensures
        clean(emit(a, t).0),
{
    lemma_clean_concat(a.0, t);
}

/// A row between a line clear and a reset stays clean.
proof fn lemma_row_token_clean(row: Seq<char>)
    requires
        no_clear(row),
    ensures
        clean(csi_clear_line() + row + csi_reset()),
{
    lemma_literals_clean();
    reveal_strlit("\x1b[2K");
    reveal_strlit("\x1b[0m");
    lemma_no_clear_concat(csi_clear_line(), row);
    lemma_no_clear_concat(csi_clear_line() + row, csi_reset());
    assert((csi_clear_line() + row + csi_reset()).last() == csi_reset().last());
}

proof fn lemma_clear_rows_clean(a: Acc, row: int, last: int, top: int, height: int)
    requires
        clean(a.0),
    ensures
        clean(clear_rows(a, row, last, top, height).0),
    decreases last + 1 - row,
{
    if row <= last {
        lemma_literals_clean();
        lemma_clean_concat(csi_clear_line(), csi_reset());
        lemma_do_move_clean(a, row, top, height);
        lemma_emit_clean(do_move(a, row, top, height), csi_clear_line() + csi_reset());
        lemma_clear_rows_clean(emit(do_move(a, row, top, height), csi_clear_line() + csi_reset()), row + 1, last, top, height);
    }
}

proof fn lemma_repaint_rows_clean(a: Acc, row: int, last: int, top: int, height: int, lines: Seq<Seq<char>>)
    requires
        clean(a.0),
        forall|i: int| 0 <= i < lines.len() ==> no_clear(#[trigger] lines[i]),
    ensures
        clean(repaint_rows(a, row, last, top, height, lines).0),
    decreases last + 1 - row,
{
    if row <= last {
        let b = if 0 <= row < lines.len() {
            lemma_row_token_clean(lines[row]);
            lemma_do_move_clean(a, row, top, height);
            lemma_emit_clean(do_move(a, row, top, height), csi_clear_line() + lines[row] + csi_reset());
            emit(do_move(a, row, top, height), csi_clear_line() + lines[row] + csi_reset())
        } else {
            a
        };
        lemma_repaint_rows_clean(b, row + 1, last, top, height, lines);
    }
}

proof fn lemma_position_clean(hw: int, cursor: CursorState, top: int, size: Size)
    ensures
        clean(position_text(hw, cursor, top, size).0),
{
    lemma_literals_clean();
    match cursor.position {
        Some(p) => if !cursor.visible || !in_viewport(p.y as int, top, size.height as int) {
        } else {
            lemma_move_text_clean(hw, p.y as int, top);
            lemma_csi_count_clean(mn(p.x as int, sat_sub(size.width as int, 1)) + 1, 'G');
            let m = move_text(hw, p.y as int, top);
            let g = csi_count(mn(p.x as int, sat_sub(size.width as int, 1)) + 1, 'G');
            lemma_clean_concat(m, g);
            lemma_clean_concat(m + g, cursor_style_spec(cursor.style));
            lemma_clean_concat(m + g + cursor_style_spec(cursor.style), csi_show_cursor());
        },
        None => {},
    }
}

/// A repaint that does not recover clears neither the screen nor the
/// scrollback, where the rows hold no such sequence themselves.
proof fn lemma_diff_clean(v: ScreenView, rows: Seq<Seq<char>>, cursor: CursorState)
    requires
        v.kind != Some(FrameUpdateKind::Recovery),
        forall|i: int| 0 <= i < rows.len() ==> no_clear(#[trigger] rows[i]),
        diff_spec(v, rows, cursor).0 is Ok,
        diff_spec(v, rows, cursor).1.kind == v.kind,
    ensures
        no_clear(diff_spec(v, rows, cursor).0->Ok_0),
{
    lemma_literals_clean();
    let h = v.size.height as int;
    let old_len = v.lines.len() as int;
    let new_len = rows.len() as int;
    match first_diff_from(v.lines, rows, 0) {
        None => {
            let p = position_text(v.hw, cursor, v.top, v.size);
            lemma_position_clean(v.hw, cursor, v.top, v.size);
            lemma_clean_concat(sync_on(), p.0);
            lemma_clean_concat(sync_on() + p.0, sync_off());
        },
        Some(first) => {
            let old_top = v.top;
            let new_top = sat_sub(new_len, h);
            let tail = old_len <= new_len && rows.take(old_len) == v.lines;
            if first < old_top || new_top < old_top || (new_top > old_top && !tail) {
            } else {
                let vs = if tail { sat_sub(new_top, old_top) } else { 0 };
                let pre = if new_top == 0 && old_top == 0 && old_len < h && new_len > old_len {
                    mn(new_len - old_len, h - old_len)
                } else {
                    0
                };
                let a0: Acc = (seq![], v.hw, true);
                assert(clean(a0.0)) by {
                    assert forall|i: int| !#[trigger] clear_at(a0.0, i) by {}
                }
                let m0 = if old_len > 0 { do_move(a0, old_len - 1, old_top, h) } else { a0 };
                lemma_do_move_clean(a0, old_len - 1, old_top, h);
                lemma_newlines_clean(pre as nat);
                lemma_emit_clean(m0, newlines(pre as nat));
                let a1 = if pre > 0 {
                    set_hw(emit(m0, newlines(pre as nat)), sat_add(sat_sub(old_len, 1), pre))
                } else {
                    a0
                };
                let ovb = mn(sat_add(old_top, sat_sub(h, 1)), sat_sub(old_len, 1));
                lemma_do_move_clean(a1, ovb, old_top, h);
                lemma_newlines_clean(vs as nat);
                lemma_emit_clean(do_move(a1, ovb, old_top, h), newlines(vs as nat));
                let a2 = if vs > 0 {
                    set_hw(emit(do_move(a1, ovb, old_top, h), newlines(vs as nat)), sat_add(ovb, vs))
                } else {
                    a1
                };
                let cur_top = if vs > 0 { new_top } else { old_top };
                let nvb = mn(sat_add(new_top, sat_sub(h, 1)), sat_sub(new_len, 1));
                let ovb2 = mn(sat_add(cur_top, sat_sub(h, 1)), sat_sub(old_len, 1));
                if !a2.2 {
                } else if new_len < old_len && sat_sub(ovb2, nvb) >= h {
                } else {
                    lemma_clear_rows_clean(a2, mx(mx(first, cur_top), new_top), ovb2, cur_top, h);
                    let a3 = if new_len < old_len {
                        clear_rows(a2, mx(mx(first, cur_top), new_top), ovb2, cur_top, h)
                    } else {
                        a2
                    };
                    let start = if pre > 0 || vs > 0 { new_top } else { mx(first, new_top) };
                    lemma_repaint_rows_clean(a3, start, nvb, new_top, h, rows);
                    let a4 = if new_len > 0 { repaint_rows(a3, start, nvb, new_top, h, rows) } else { a3 };
                    if a4.2 {
                        let p = position_text(a4.1, cursor, new_top, v.size);
                        lemma_position_clean(a4.1, cursor, new_top, v.size);
                        lemma_clean_concat(sync_on(), a4.0);
                        lemma_clean_concat(sync_on() + a4.0, p.0);
                        lemma_clean_concat(sync_on() + a4.0 + p.0, sync_off());
                    }
                }
            }
        },
    }
}

/// A same-size update that is not a recovery writes no sequence that
/// clears the screen or the scrollback, where the rows hold none
/// themselves; a recovery starts by clearing both.
pub proof fn law_live_update_never_clears(v: ScreenView, size: Size, rows: Seq<Seq<char>>, cursor: CursorState)
    requires
        size.width > 0,
        size.height > 0,
        screen_consistent(v),
        rows.len() <= usize::MAX,
        v.lines.len() > 0,
        v.width == size.width,
        v.height == size.height,
        forall|i: int| 0 <= i < rows.len() ==> display_width_spec(#[trigger] rows[i]) <= size.width,
        forall|i: int| 0 <= i < rows.len() ==> no_clear(#[trigger] rows[i]),
    ensures
        draw_spec(v, size, rows, cursor).0 is Ok,
        draw_spec(v, size, rows, cursor).1.kind == Some(FrameUpdateKind::LiveUiOnly) ==> no_clear(
            draw_spec(v, size, rows, cursor).0->Ok_0,
        ),
        draw_spec(v, size, rows, cursor).1.kind == Some(FrameUpdateKind::Recovery) ==> clears_first(
            draw_spec(v, size, rows, cursor).0,
        ),
{
    law_draw_is_framed_and_keeps_the_screen_consistent(v, size, rows, cursor);
    lemma_first_too_wide(rows, size.width, 0);
    let v1 = ScreenView { size, kind: Some(FrameUpdateKind::LiveUiOnly), ..v };
    if draw_spec(v, size, rows, cursor).1.kind == Some(FrameUpdateKind::LiveUiOnly) {
        lemma_diff_clean(v1, rows, cursor);
    }
}

proof fn lemma_clears_first_has_clear(t: Seq<char>)
    requires
        t.len() >= (sync_on() + clear_head()).len(),
        t.take((sync_on() + clear_head()).len() as int) == sync_on() + clear_head(),
    ensures
        !no_clear(t),
{
    reveal_strlit("\x1b[?2026h");
    reveal_strlit("\x1b[?25l");
    reveal_strlit("\x1b[H");
    reveal_strlit("\x1b[2J");
    reveal_strlit("\x1b[3J");
    let p = sync_on() + clear_head();
    assert(p.len() == 28);
    assert(p[17] == '\x1b' && p[18] == '[' && p[19] == '2' && p[20] == 'J');
    assert(t[17] == p[17] && t[18] == p[18] && t[19] == p[19] && t[20] == p[20]);
    assert(clear_at(t, 17));
}

/// Repainting a frame of the same size over a consistent previous frame
/// succeeds, framed by the synchronized-update markers, with the new rows
/// kept and the top row where the screen shows their last rows. Where the
/// rows hold no clearing sequence themselves, its output clears the screen
/// exactly when the update becomes a recovery; otherwise the update kind
/// stays what it was.
pub proof fn law_repaint_clears_exactly_on_recovery(v: ScreenView, rows: Seq<Seq<char>>, cursor: CursorState)
    requires
        screen_consistent(v),
        v.lines.len() > 0,
        v.height == v.size.height,
        v.width == v.size.width,
        v.size.height > 0,
        rows.len() <= usize::MAX,
        v.kind != Some(FrameUpdateKind::Recovery),
        forall|i: int| 0 <= i < rows.len() ==> no_clear(#[trigger] rows[i]),
    ensures
        framed_update(diff_spec(v, rows, cursor).0, diff_spec(v, rows, cursor).1, rows, v.size),
        diff_spec(v, rows, cursor).1.kind == v.kind || diff_spec(v, rows, cursor).1.kind == Some(
            FrameUpdateKind::Recovery,
        ),
        no_clear(diff_spec(v, rows, cursor).0->Ok_0) <==> diff_spec(v, rows, cursor).1.kind == v.kind,
{
    lemma_diff_ok(v, rows, cursor);
    let r = diff_spec(v, rows, cursor);
    if r.1.kind == v.kind {
        lemma_diff_clean(v, rows, cursor);
    } else {
        assert(clears_first(r.0));
        let t = r.0->Ok_0;
        assert(t.len() >= (sync_on() + clear_head()).len()) by {
            assert(t.take((sync_on() + clear_head()).len() as int).len() == (sync_on() + clear_head()).len());
        }
        lemma_clears_first_has_clear(t);
    }
}

} // verus!
