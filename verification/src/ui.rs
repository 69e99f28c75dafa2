//! What the user interface hands the application, and the layout rules of
//! the inline pane: its height, position and gutters, the prompt prefixes
//! of stdin requests, editor modes and cursor shapes.
use vstd::prelude::*;

use crate::chars::{chars_of, decimal, extend_str, owned, pad_left, push_decimal, push_padded_left, push_spaces, spaces, string_from, strs_of};
use crate::insert_history::{lines_rows, transcript_lines, visible_width, visible_width_spec};
use crate::transcript::{clamp_rows, logical_lines};
use crate::ansi::strip_escapes;

verus! {

broadcast use vstd::string::group_string_axioms;

/// What a key or palette choice asks the application to do.
#[derive(Debug)]
pub enum UiAction {
    Submit(String),
    ReplyInput { value: String },
    Interrupt,
    ClearScreen,
    Exit,
    Restart,
    ShowConnectionInfo,
}

/// The shape of the terminal cursor.
#[derive(Debug, Clone, Copy, PartialEq, Eq, Structural)]
pub enum CursorStyle {
    Default,
    Block,
    Bar,
}

/// The editor's modal state.
#[derive(Debug, Clone, Copy, PartialEq, Eq, Structural)]
pub enum EditorMode {
    Insert,
    Normal,
    Visual,
    Search,
}

/// The DECSCUSR sequence that selects a cursor shape.
pub open spec fn cursor_style_spec(style: CursorStyle) -> Seq<char> {
    match style {
        CursorStyle::Default => "\x1b[0 q"@,
        CursorStyle::Block => "\x1b[2 q"@,
        CursorStyle::Bar => "\x1b[6 q"@,
    }
}

/// The escape sequence for a cursor shape.
pub fn cursor_style_sequence(style: CursorStyle) -> (r: &'static str)
    ensures
        r@ == cursor_style_spec(style),
{
    match style {
        CursorStyle::Default => "\x1b[0 q",
        CursorStyle::Block => "\x1b[2 q",
        CursorStyle::Bar => "\x1b[6 q",
    }
}

/// The cursor shape of an editor mode: a bar while typing, a block while
/// navigating.
pub fn cursor_style_for_mode(mode: EditorMode) -> (r: CursorStyle)
    ensures
        r == (match mode {
            EditorMode::Insert | EditorMode::Search => CursorStyle::Bar,
            EditorMode::Normal | EditorMode::Visual => CursorStyle::Block,
        }),
{
    match mode {
        EditorMode::Insert | EditorMode::Search => CursorStyle::Bar,
        EditorMode::Normal | EditorMode::Visual => CursorStyle::Block,
    }
}

/// The footer badge of an editor mode.
pub open spec fn mode_badge_spec(mode: EditorMode) -> Seq<char> {
    match mode {
        EditorMode::Insert => "INS"@,
        EditorMode::Normal => "NAV"@,
        EditorMode::Visual => "VIS"@,
        EditorMode::Search => "SRCH"@,
    }
}

pub fn editor_mode_badge(mode: EditorMode) -> (r: &'static str)
    ensures
        r@ == mode_badge_spec(mode),
{
    match mode {
        EditorMode::Insert => "INS",
        EditorMode::Normal => "NAV",
        EditorMode::Visual => "VIS",
        EditorMode::Search => "SRCH",
    }
}

/// A rectangle of terminal cells.
#[derive(Debug, Clone, Copy, PartialEq, Eq, Structural)]
pub struct Rect {
    pub x: u16,
    pub y: u16,
    pub width: u16,
    pub height: u16,
}

/// The most rows the inline pane takes, and its height while the palette
/// is open.
pub open spec fn max_viewport_height() -> u16 { 8 }

pub open spec fn palette_height() -> u16 { 6 }

/// The lowest top row at which a pane of `pane_height` rows still fits.
pub open spec fn max_pane_top_spec(height: u16, pane_height: u16) -> u16 {
    let h: u16 = if height >= 1 { height } else { 1 };
    let p: u16 = if pane_height < h { pane_height } else { h };
    if height >= p { (height - p) as u16 } else { 0 }
}

pub fn max_pane_top(height: u16, pane_height: u16) -> (r: u16)
    ensures
        r == max_pane_top_spec(height, pane_height),
{
    let h: u16 = if height >= 1 { height } else { 1 };
    let p: u16 = if pane_height < h { pane_height } else { h };
    if height >= p { height - p } else { 0 }
}

/// The pane's height for `pane_rows` rows of content: at least the
/// palette's height while it is open, within `1..=8`.
pub open spec fn viewport_height_spec(pane_rows: u16, palette_open: bool) -> u16 {
    let rows: u16 = if pane_rows >= 1 { pane_rows } else { 1 };
    let h: u16 = if palette_open && rows < palette_height() { palette_height() } else { rows };
    if h > max_viewport_height() { max_viewport_height() } else { h }
}

pub fn viewport_height_for_editor(pane_rows: u16, palette_open: bool) -> (r: u16)
    ensures
        r == viewport_height_spec(pane_rows, palette_open),
        1 <= r <= 8,
{
    let rows: u16 = if pane_rows >= 1 { pane_rows } else { 1 };
    let h: u16 = if palette_open && rows < 6 { 6 } else { rows };
    if h > 8 { 8 } else { h }
}

/// The pane: full width, its top kept on screen, its height cut to the rows
/// below the top (at least one).
pub open spec fn pane_rect_spec(width: u16, height: u16, pane_top: u16, pane_height: u16) -> Rect {
    let m = max_pane_top_spec(height, pane_height);
    let top: u16 = if pane_top < m { pane_top } else { m };
    let below: u16 = if height > top { (height - top) as u16 } else { 1 };
    Rect { x: 0, y: top, width, height: if pane_height < below { pane_height } else { below } }
}

pub fn pane_rect_at(width: u16, height: u16, pane_top: u16, pane_height: u16) -> (r: Rect)
    ensures
        r == pane_rect_spec(width, height, pane_top, pane_height),
{
    let m = max_pane_top(height, pane_height);
    let top: u16 = if pane_top < m { pane_top } else { m };
    let below: u16 = if height > top { height - top } else { 1 };
    Rect { x: 0, y: top, width, height: if pane_height < below { pane_height } else { below } }
}

/// The visible width of text as the inline pane measures it: characters
/// outside CSI sequences.
pub fn display_width(text: &str) -> (r: usize)
    ensures
        r == visible_width_spec(text@),
{
    visible_width(text)
}

/// The text without its CSI sequences, as the inline pane measures it.
pub fn strip_ansi(text: &str) -> (r: String)
    ensures
        r@ == strip_escapes(text@, false),
{
    crate::insert_history::strip_ansi(text)
}

/// How many terminal rows `text` takes at `width` columns (at least one):
/// each logical line takes its visible characters divided by the width,
/// rounded up, and at least one row; clamped to `1..=u16::MAX`.
pub fn rendered_line_count(text: &str, width: u16) -> (r: u16)
    ensures
        r == clamp_rows(lines_rows(logical_lines(text@), if width == 0 { 1 } else { width as nat })),
{
    let lines = transcript_lines(text);
    let w: usize = if width == 0 { 1 } else { width as usize };
    crate::insert_history::rendered_line_count(lines.as_slice(), w)
}

/// The first-line and continuation prefixes of the editor while answering
/// a stdin request: the prompt (after `stdin (hidden) ` for passwords),
/// and spaces as wide as it.
pub open spec fn prompt_prefixes_spec(prompt: Seq<char>, password: bool) -> (Seq<char>, Seq<char>) {
    let first = if password { "stdin (hidden) "@ + prompt } else { prompt };
    (first, spaces(visible_width_spec(first)))
}

pub fn prompt_prefixes(awaiting_input: &Option<(String, bool)>) -> (r: Option<(String, String)>)
    ensures
        match (awaiting_input, r) {
            (Some((p, pw)), Some((a, b))) => (a@, b@) == prompt_prefixes_spec(p@, *pw),
            (None, None) => true,
            _ => false,
        },
{
    match awaiting_input {
        Some((prompt, password)) => {
            let mut first: Vec<char> = Vec::new();
            if *password {
                extend_str(&mut first, "stdin (hidden) ");
            }
            extend_str(&mut first, prompt.as_str());
            let first_s = string_from(first.as_slice());
            let w = visible_width(first_s.as_str());
            let mut cont: Vec<char> = Vec::new();
            push_spaces(&mut cont, w);
            assert(cont@ =~= spaces(w as nat));
            Some((first_s, string_from(cont.as_slice())))
        },
        None => None,
    }
}

/// The status-bar label of the inline pane: `stdin` while answering an
/// input request, else the prompt label.
pub fn status_label<'a>(awaiting_input: &'a Option<(String, bool)>, prompt_label: &'a str) -> (r: Option<&'a str>)
    ensures
        match r {
            Some(s) => if awaiting_input is Some { s@ == "stdin"@ } else { s@ == prompt_label@ },
            None => false,
        },
{
    if awaiting_input.is_some() {
        Some("stdin")
    } else {
        Some(prompt_label)
    }
}

/// The width of a prompt gutter: the wider of the two prefixes, within
/// `1..=u16::MAX`.
pub open spec fn prompt_gutter_width_spec(first: Seq<char>, continuation: Seq<char>) -> u16 {
    let a = visible_width_spec(first);
    let b = visible_width_spec(continuation);
    let w = if a > b { a } else { b };
    if w > u16::MAX { u16::MAX } else if w < 1 { 1 } else { w as u16 }
}

pub fn prompt_gutter_width(first: &str, continuation: &str) -> (r: u16)
    ensures
        r == prompt_gutter_width_spec(first@, continuation@),
{
    let a = visible_width(first);
    let b = visible_width(continuation);
    let w = if a > b { a } else { b };
    if w > 65535 { 65535 } else if w < 1 { 1 } else { w as u16 }
}

/// The prompt gutter's rows: the first prefix, then the continuation
/// prefix, each left-aligned to the wider of the two (at least one row).
pub open spec fn prompt_gutter_row(first: Seq<char>, continuation: Seq<char>, index: int) -> Seq<char> {
    let a = visible_width_spec(first);
    let b = visible_width_spec(continuation);
    let w = if a > b { a } else { b };
    let p = if index == 0 { first } else { continuation };
    let pad: nat = if visible_width_spec(p) < w { (w - visible_width_spec(p)) as nat } else { 0 };
    p + spaces(pad)
}

pub fn prompt_gutter_lines(first: &str, continuation: &str, height: usize) -> (r: Vec<String>)
    ensures
        r.len() == if height < 1 { 1 } else { height },
        forall|i: int| 0 <= i < r.len() ==> #[trigger] r@[i]@ == prompt_gutter_row(first@, continuation@, i),
{
    let a = visible_width(first);
    let b = visible_width(continuation);
    let w = if a > b { a } else { b };
    let n = if height < 1 { 1 } else { height };
    let mut out: Vec<String> = Vec::new();
    let mut i: usize = 0;
    while i < n
        invariant
            i <= n,
            n == if height < 1 { 1 } else { height },
            a == visible_width_spec(first@),
            b == visible_width_spec(continuation@),
            w == if a > b { a } else { b },
            out.len() == i,
            forall|k: int| 0 <= k < i ==> #[trigger] out@[k]@ == prompt_gutter_row(first@, continuation@, k),
        decreases n - i,
    {
        let p = if i == 0 { first } else { continuation };
        let pw = if i == 0 { a } else { b };
        let mut row: Vec<char> = Vec::new();
        extend_str(&mut row, p);
        push_spaces(&mut row, if pw < w { w - pw } else { 0 });
        out.push(string_from(row.as_slice()));
        i += 1;
    }
    out
}

/// The number of decimal digits of `n`.
pub open spec fn digits(n: nat) -> nat {
    decimal(n).len()
}

/// The width of a line-number gutter: the digits of the last number plus
/// one, at least two.
pub open spec fn line_number_gutter_width_spec(visible_lines: usize) -> u16 {
    let d = digits(if visible_lines < 1 { 1 } else { visible_lines as nat }) + 1;
    if d < 2 { 2 } else { d as u16 }
}

pub fn line_number_gutter_width(visible_lines: usize) -> (r: u16)
    ensures
        r == line_number_gutter_width_spec(visible_lines),
        r >= 2,
{
    let n = if visible_lines < 1 { 1 } else { visible_lines };
    let d = crate::chars::decimal_chars(n as u64);
    proof {
        crate::chars::lemma_decimal_len_pos(n as nat);
        assert(crate::duration::pow10(20) == 100000000000000000000nat) by {
            reveal_with_fuel(crate::duration::pow10, 21);
        }
        lemma_decimal_len_pow(n as nat, 20);
    }
    let w = d.len() + 1;
    if w < 2 { 2 } else { w as u16 }
}

/// A `u32` has at most ten decimal digits.
pub proof fn lemma_decimal_len_u32(n: nat)
    requires
        n <= u32::MAX,
    ensures
        decimal(n).len() <= 10,
{
    assert(crate::duration::pow10(10) == 10000000000nat) by {
        reveal_with_fuel(crate::duration::pow10, 11);
    }
    lemma_decimal_len_pow(n, 10);
}

/// A `u64` has at most twenty decimal digits.
pub proof fn lemma_decimal_len_u64(n: nat)
    requires
        n <= u64::MAX,
    ensures
        decimal(n).len() <= 20,
{
    assert(crate::duration::pow10(20) == 100000000000000000000nat) by {
        reveal_with_fuel(crate::duration::pow10, 21);
    }
    lemma_decimal_len_pow(n, 20);
}

proof fn lemma_decimal_len_pow(n: nat, k: nat)
    requires
        k >= 1,
        n < crate::duration::pow10(k),
    ensures
        decimal(n).len() <= k,
    decreases k,
{
    if n >= 10 {
        assert(k >= 2) by {
            if k == 1 {
                reveal_with_fuel(crate::duration::pow10, 2);
            }
        }
        assert(n / 10 < crate::duration::pow10((k - 1) as nat)) by (nonlinear_arith)
            requires
                n < crate::duration::pow10(k),
                crate::duration::pow10(k) == 10 * crate::duration::pow10((k - 1) as nat),
        ;
        lemma_decimal_len_pow(n / 10, (k - 1) as nat);
    }
}

/// Row `index` of a line-number gutter: the number `index + 1`
/// right-aligned to the gutter width less one, then a space.
pub open spec fn line_number_row(visible_lines: usize, index: nat) -> Seq<char> {
    pad_left(decimal(index + 1), (line_number_gutter_width_spec(visible_lines) - 1) as nat) + " "@
}

pub fn line_number_gutter_lines(height: usize, visible_lines: usize) -> (r: Vec<String>)
    requires
        height < u64::MAX,
    ensures
        r.len() == if height < 1 { 1 } else { height },
        forall|i: int| 0 <= i < r.len() ==> #[trigger] r@[i]@ == line_number_row(visible_lines, i as nat),
{
    let w = line_number_gutter_width(visible_lines) as usize - 1;
    let n = if height < 1 { 1 } else { height };
    let mut out: Vec<String> = Vec::new();
    let mut i: usize = 0;
    while i < n
        invariant
            i <= n,
            n == if height < 1 { 1 } else { height },
            n < u64::MAX,
            w == line_number_gutter_width_spec(visible_lines) - 1,
            out.len() == i,
            forall|k: int| 0 <= k < i ==> #[trigger] out@[k]@ == line_number_row(visible_lines, k as nat),
        decreases n - i,
    {
        let number = crate::chars::decimal_chars((i + 1) as u64);
        let mut row: Vec<char> = Vec::new();
        push_padded_left(&mut row, number.as_slice(), w);
        extend_str(&mut row, " ");
        out.push(string_from(row.as_slice()));
        i += 1;
    }
    out
}

/// The editor gutter's width: the prompt gutter while answering stdin, else
/// the line-number gutter.
pub fn editor_gutter_width(awaiting_input: &Option<(String, bool)>, visible_lines: usize) -> (r: u16)
    ensures
        match awaiting_input {
            Some((p, pw)) => r == prompt_gutter_width_spec(prompt_prefixes_spec(p@, *pw).0, prompt_prefixes_spec(p@, *pw).1),
            None => r == line_number_gutter_width_spec(visible_lines),
        },
{
    match prompt_prefixes(awaiting_input) {
        Some((first, continuation)) => prompt_gutter_width(first.as_str(), continuation.as_str()),
        None => line_number_gutter_width(visible_lines),
    }
}

/// The editor gutter's rows.
pub fn editor_gutter_lines(awaiting_input: &Option<(String, bool)>, height: usize, visible_lines: usize) -> (r: Vec<String>)
    requires
        height < u64::MAX,
    ensures
        r.len() == if height < 1 { 1 } else { height },
        awaiting_input is None ==> forall|i: int| 0 <= i < r.len() ==> #[trigger] r@[i]@ == line_number_row(visible_lines, i as nat),
        match awaiting_input {
            Some((p, pw)) => forall|i: int| 0 <= i < r.len() ==> #[trigger] r@[i]@ == prompt_gutter_row(
                prompt_prefixes_spec(p@, *pw).0,
                prompt_prefixes_spec(p@, *pw).1,
                i,
            ),
            None => true,
        },
{
    match prompt_prefixes(awaiting_input) {
        Some((first, continuation)) => prompt_gutter_lines(first.as_str(), continuation.as_str(), height),
        None => line_number_gutter_lines(height, visible_lines),
    }
}

/// The pane always lies on the screen: full width from the left edge, at
/// least one row and no more than asked for, its top no lower than asked
/// and its bottom within the screen's height; where the asked-for rows fit
/// below the asked-for top, it is exactly there.
pub proof fn law_pane_stays_on_screen(width: u16, height: u16, pane_top: u16, pane_height: u16)
    requires
        height >= 1,
        pane_height >= 1,
    ensures
        ({
            let r = pane_rect_spec(width, height, pane_top, pane_height);
            &&& r.x == 0 && r.width == width
            &&& 1 <= r.height <= pane_height
            &&& r.y <= pane_top
            &&& r.y + r.height <= height
            &&& pane_top + pane_height <= height ==> r.y == pane_top && r.height == pane_height
        }),
{
}

/// The pane holds its content's rows between one and eight, and at least
/// the palette's six rows while the palette is open.
pub proof fn law_viewport_height_bounds(pane_rows: u16, palette_open: bool)
    ensures
        1 <= viewport_height_spec(pane_rows, palette_open) <= 8,
        palette_open ==> viewport_height_spec(pane_rows, palette_open) >= 6,
        !palette_open && 1 <= pane_rows <= 8 ==> viewport_height_spec(pane_rows, palette_open) == pane_rows,
        pane_rows >= 8 ==> viewport_height_spec(pane_rows, palette_open) == 8,
{
}

} // verus!
