//! The components of a frame: the footer (a styled line wrapped to the
//! width), the overlays (palette and history search), the editor rows
//! (from the editor's layout plan, or wrapped text when the gutter leaves
//! no room), the cursor marker, and the renderer that stacks transcript and
//! live rows into a frame.
use vstd::prelude::*;

use crate::ansi::wrap_ansi;
use crate::chars::{
    chars_eq, chars_of, decimal, decimal_chars, ends_with, extend_chars, extend_str, has_prefix, has_suffix, pad_left,
    push_padded_left, push_spaces, slice_chars, spaces, starts_with, string_from, strs_of,
};
use crate::lines::{lines_chars, lines_of};
use crate::prompt::{input_prompt, input_prompt_spec, styled_input_prompt};
use crate::style::{Color, Style};
use crate::transcript::{display_width, display_width_spec};
use crate::ui::{cursor_style_for_mode, EditorMode};
use crate::extensions::{find, find_chars, find_from};
use crate::display::{render_transcript, transcript_rows, TranscriptModel};
use crate::frame::{CursorState, Position, RowKind, Size, TerminalFrame, TerminalRow};
use crate::kernel::KernelStatus;
use crate::lines::{trim_end, trim_end_chars};
use crate::style::{push_styled_segment, render_styled_line, styled_line_text, styled_segment_text, StyledLine, StyledSegment, TextStyle, UiStyle};
use crate::transcript::wrap_ansi_to_width;
use crate::ui::CursorStyle;
use crate::width::{col_width, column_width};


verus! {

broadcast use vstd::string::group_string_axioms;

/// A segment as text and style.
pub type SegView = (Seq<char>, TextStyle);

pub open spec fn seg_views(segs: Seq<StyledSegment>) -> Seq<SegView> {
    segs.map_values(|s: StyledSegment| (s.text@, s.style))
}

pub open spec fn line_views(lines: Seq<StyledLine>) -> Seq<Seq<SegView>> {
    lines.map_values(|l: StyledLine| seg_views(l.segments@))
}

/// The current row with the pending chunk closed as a segment (if any).
pub open spec fn flush_chunk(current: Seq<SegView>, chunk: Seq<char>, style: TextStyle) -> Seq<SegView> {
    if chunk.len() > 0 { current.push((chunk, style)) } else { current }
}

/// Wrapping the characters of one segment: a newline ends the row; a
/// character of positive width that does not fit on a non-empty row starts
/// a new one. Yields the rows, the open row (the segment's last chunk
/// closed) and its width.
pub open spec fn wrap_chars(
    t: Seq<char>,
    style: TextStyle,
    width: nat,
    rows: Seq<Seq<SegView>>,
    current: Seq<SegView>,
    chunk: Seq<char>,
    cw: nat,
) -> (Seq<Seq<SegView>>, Seq<SegView>, nat)
    decreases t.len(),
{
    if t.len() == 0 {
        (rows, flush_chunk(current, chunk, style), cw)
    } else if t[0] == '\n' {
        wrap_chars(t.skip(1), style, width, rows.push(flush_chunk(current, chunk, style)), seq![], seq![], 0)
    } else {
        let w = col_width(t[0]);
        if w > 0 && cw > 0 && cw + w > width {
            wrap_chars(t.skip(1), style, width, rows.push(flush_chunk(current, chunk, style)), seq![], seq![t[0]], w)
        } else {
            wrap_chars(t.skip(1), style, width, rows, current, chunk.push(t[0]), cw + w)
        }
    }
}

/// Wrapping segment after segment.
pub open spec fn wrap_segs(segs: Seq<SegView>, width: nat, rows: Seq<Seq<SegView>>, current: Seq<SegView>, cw: nat) -> (
    Seq<Seq<SegView>>,
    Seq<SegView>,
    nat,
)
    decreases segs.len(),
{
    if segs.len() == 0 {
        (rows, current, cw)
    } else {
        let r = wrap_chars(segs[0].0, segs[0].1, width, rows, current, seq![], cw);
        wrap_segs(segs.skip(1), width, r.0, r.1, r.2)
    }
}

/// A styled line wrapped to `width` columns (at least one), each piece
/// keeping its segment's style; the last row is kept when it is not empty
/// or when it is the only one.
pub open spec fn wrap_styled(segs: Seq<SegView>, width: nat) -> Seq<Seq<SegView>> {
    let w: nat = if width == 0 { 1 } else { width };
    let r = wrap_segs(segs, w, seq![], seq![], 0);
    if r.1.len() > 0 || r.0.len() == 0 { r.0.push(r.1) } else { r.0 }
}

fn close_chunk(current: &mut Vec<StyledSegment>, chunk: &mut Vec<char>, style: TextStyle)
    ensures
        seg_views(final(current)@) == flush_chunk(seg_views(old(current)@), old(chunk)@, style),
        final(chunk)@.len() == 0,
{
    if chunk.len() > 0 {
        let ghost before = seg_views(current@);
        current.push(StyledSegment { text: string_from(chunk.as_slice()), style });
        assert(seg_views(current@) =~= before.push((old(chunk)@, style)));
        *chunk = Vec::new();
    }
}

fn close_row(rows: &mut Vec<StyledLine>, current: &mut Vec<StyledSegment>)
    ensures
        line_views(final(rows)@) == line_views(old(rows)@).push(seg_views(old(current)@)),
        final(current)@.len() == 0,
{
    let ghost before = line_views(rows@);
    let mut taken: Vec<StyledSegment> = Vec::new();
    std::mem::swap(&mut taken, current);
    rows.push(StyledLine { segments: taken });
    assert(line_views(rows@) =~= before.push(seg_views(old(current)@)));
}

/// Wraps a styled line to `width` columns.
pub fn wrap_styled_line(line: &StyledLine, width: u16) -> (r: Vec<StyledLine>)
    ensures
        line_views(r@) == wrap_styled(seg_views(line.segments@), width as nat),
{
    let w: usize = if width == 0 { 1 } else { width as usize };
    let ghost segs = seg_views(line.segments@);
    let mut rows: Vec<StyledLine> = Vec::new();
    let mut current: Vec<StyledSegment> = Vec::new();
    let mut cw: usize = 0;
    let mut i: usize = 0;
    assert(segs.skip(0) =~= segs);
    assert(line_views(rows@) =~= Seq::<Seq<SegView>>::empty());
    assert(seg_views(current@) =~= Seq::<SegView>::empty());
    while i < line.segments.len()
        invariant
            i <= line.segments.len(),
            segs == seg_views(line.segments@),
            w >= 1,
            w == (if width == 0 { 1 } else { width as nat }),
            wrap_segs(segs.skip(i as int), w as nat, line_views(rows@), seg_views(current@), cw as nat) == wrap_segs(
                segs,
                w as nat,
                seq![],
                seq![],
                0,
            ),
        decreases line.segments.len() - i,
    {
        let seg = &line.segments[i];
        let style = seg.style;
        let t = chars_of(seg.text.as_str());
        let ghost rows0 = line_views(rows@);
        let ghost cur0 = seg_views(current@);
        let ghost cw0 = cw as nat;
        let mut chunk: Vec<char> = Vec::new();
        let mut j: usize = 0;
        assert(t@.skip(0) =~= t@);
        while j < t.len()
            invariant
                j <= t.len(),
                w >= 1,
                wrap_chars(t@.skip(j as int), style, w as nat, line_views(rows@), seg_views(current@), chunk@, cw as nat)
                    == wrap_chars(t@, style, w as nat, rows0, cur0, seq![], cw0),
            decreases t.len() - j,
        {
            let c = t[j];
            assert(t@.skip(j as int)[0] == c);
            assert(t@.skip(j as int).skip(1) =~= t@.skip(j + 1));
            let ghost rv = line_views(rows@);
            let ghost cv = seg_views(current@);
            let ghost kv = chunk@;
            if c == '\n' {
                close_chunk(&mut current, &mut chunk, style);
                close_row(&mut rows, &mut current);
                cw = 0;
                assert(chunk@ =~= Seq::<char>::empty());
                assert(seg_views(current@) =~= Seq::<SegView>::empty());
                assert(line_views(rows@) == rv.push(flush_chunk(cv, kv, style)));
            } else {
                let cwid = column_width(c);
                if cwid > 0 && cw > 0 && (cw >= w || cwid > w - cw) {
                    close_chunk(&mut current, &mut chunk, style);
                    close_row(&mut rows, &mut current);
                    chunk.push(c);
                    assert(chunk@ =~= seq![c]);
                    cw = cwid;
                    assert(seg_views(current@) =~= Seq::<SegView>::empty());
                    assert(line_views(rows@) == rv.push(flush_chunk(cv, kv, style)));
                } else {
                    chunk.push(c);
                    cw = cw + cwid;
                    assert(chunk@ == kv.push(c));
                }
            }
            j += 1;
        }
        close_chunk(&mut current, &mut chunk, style);
        assert(segs.skip(i as int)[0] == segs[i as int]);
        assert(segs.skip(i as int).skip(1) =~= segs.skip(i + 1));
        i += 1;
    }
    if current.len() > 0 || rows.len() == 0 {
        close_row(&mut rows, &mut current);
    }
    rows
}


/// The columns the characters of `t` take.
pub open spec fn text_cols(t: Seq<char>) -> nat
    decreases t.len(),
{
    if t.len() == 0 { 0 } else { text_cols(t.drop_last()) + col_width(t.last()) }
}

/// The columns a row of segments takes.
pub open spec fn row_cols(row: Seq<SegView>) -> nat
    decreases row.len(),
{
    if row.len() == 0 { 0 } else { row_cols(row.drop_last()) + text_cols(row.last().0) }
}

/// Every character of the segments takes at most `w` columns.
pub open spec fn chars_fit(segs: Seq<SegView>, w: nat) -> bool {
    forall|i: int, j: int| 0 <= i < segs.len() && 0 <= j < segs[i].0.len() ==> col_width(#[trigger] segs[i].0[j]) <= w
}

pub open spec fn rows_fit(rows: Seq<Seq<SegView>>, w: nat) -> bool {
    forall|i: int| 0 <= i < rows.len() ==> row_cols(#[trigger] rows[i]) <= w
}

proof fn lemma_flush_cols(current: Seq<SegView>, chunk: Seq<char>, style: TextStyle)
    ensures
        row_cols(flush_chunk(current, chunk, style)) == row_cols(current) + text_cols(chunk),
{
    if chunk.len() > 0 {
        assert(current.push((chunk, style)).drop_last() =~= current);
    }
}

proof fn lemma_wrap_chars_fit(
    t: Seq<char>,
    style: TextStyle,
    width: nat,
    rows: Seq<Seq<SegView>>,
    current: Seq<SegView>,
    chunk: Seq<char>,
    cw: nat,
)
    requires
        rows_fit(rows, width),
        cw == row_cols(current) + text_cols(chunk),
        cw <= width,
        forall|j: int| 0 <= j < t.len() ==> col_width(#[trigger] t[j]) <= width,
    ensures
        rows_fit(wrap_chars(t, style, width, rows, current, chunk, cw).0, width),
        wrap_chars(t, style, width, rows, current, chunk, cw).2 == row_cols(
            wrap_chars(t, style, width, rows, current, chunk, cw).1,
        ),
        wrap_chars(t, style, width, rows, current, chunk, cw).2 <= width,
    decreases t.len(),
{
    lemma_flush_cols(current, chunk, style);
    if t.len() > 0 {
        let rest = t.skip(1);
        assert forall|j: int| 0 <= j < rest.len() implies col_width(#[trigger] rest[j]) <= width by {
            assert(rest[j] == t[j + 1]);
        }
        let flushed = rows.push(flush_chunk(current, chunk, style));
        assert forall|i: int| 0 <= i < flushed.len() implies row_cols(#[trigger] flushed[i]) <= width by {
            if i < rows.len() {
                assert(flushed[i] == rows[i]);
            }
        }
        assert(text_cols(Seq::<char>::empty()) == 0);
        assert(row_cols(Seq::<SegView>::empty()) == 0);
        if t[0] == '\n' {
            lemma_wrap_chars_fit(rest, style, width, flushed, seq![], seq![], 0);
        } else {
            let w = col_width(t[0]);
            assert(w <= width) by {
                assert(t[0] == t[0int]);
            }
            if w > 0 && cw > 0 && cw + w > width {
                assert(seq![t[0]].drop_last() =~= Seq::<char>::empty());
                lemma_wrap_chars_fit(rest, style, width, flushed, seq![], seq![t[0]], w);
            } else {
                assert(chunk.push(t[0]).drop_last() =~= chunk);
                lemma_wrap_chars_fit(rest, style, width, rows, current, chunk.push(t[0]), cw + w);
            }
        }
    }
}

proof fn lemma_wrap_segs_fit(segs: Seq<SegView>, width: nat, rows: Seq<Seq<SegView>>, current: Seq<SegView>, cw: nat)
    requires
        rows_fit(rows, width),
        cw == row_cols(current),
        cw <= width,
        chars_fit(segs, width),
    ensures
        rows_fit(wrap_segs(segs, width, rows, current, cw).0, width),
        wrap_segs(segs, width, rows, current, cw).2 == row_cols(wrap_segs(segs, width, rows, current, cw).1),
        wrap_segs(segs, width, rows, current, cw).2 <= width,
    decreases segs.len(),
{
    if segs.len() > 0 {
        let t = segs[0].0;
        assert forall|j: int| 0 <= j < t.len() implies col_width(#[trigger] t[j]) <= width by {
            assert(segs[0].0[j] == t[j]);
        }
        assert(text_cols(Seq::<char>::empty()) == 0);
        lemma_wrap_chars_fit(t, segs[0].1, width, rows, current, seq![], cw);
        let r = wrap_chars(t, segs[0].1, width, rows, current, seq![], cw);
        let rest = segs.skip(1);
        assert forall|i: int, j: int| 0 <= i < rest.len() && 0 <= j < rest[i].0.len() implies col_width(
            #[trigger] rest[i].0[j],
        ) <= width by {
            assert(rest[i] == segs[i + 1]);
            assert(segs[i + 1].0[j] == rest[i].0[j]);
        }
        lemma_wrap_segs_fit(rest, width, r.0, r.1, r.2);
    }
}

/// Wrapping never gives a row wider than the width: where no character is
/// wider than the width (at least one column), every wrapped row's
/// characters take at most that many columns.
pub proof fn law_wrapped_rows_fit_width(segs: Seq<SegView>, width: nat)
    requires
        chars_fit(segs, if width == 0 { 1 } else { width }),
    ensures
        rows_fit(wrap_styled(segs, width), if width == 0 { 1 } else { width }),
{
    let w: nat = if width == 0 { 1 } else { width };
    assert(row_cols(Seq::<SegView>::empty()) == 0);
    lemma_wrap_segs_fit(segs, w, seq![], seq![], 0);
    let r = wrap_segs(segs, w, seq![], seq![], 0);
    let out = r.0.push(r.1);
    assert forall|i: int| 0 <= i < out.len() implies row_cols(#[trigger] out[i]) <= w by {
        if i < r.0.len() {
            assert(out[i] == r.0[i]);
        }
    }
}

/// The rendering of a row of segments.
pub open spec fn render_views(row: Seq<SegView>) -> Seq<char>
    decreases row.len(),
{
    if row.len() == 0 {
        seq![]
    } else {
        render_views(row.drop_last()) + styled_segment_text(row.last().0, row.last().1)
    }
}

pub proof fn lemma_render_views(segs: Seq<StyledSegment>)
    ensures
        styled_line_text(segs) == render_views(seg_views(segs)),
    decreases segs.len(),
{
    if segs.len() > 0 {
        lemma_render_views(segs.drop_last());
        assert(seg_views(segs.drop_last()) =~= seg_views(segs).drop_last());
    }
}

/// Where a line puts the cursor, and its shape.
#[derive(Debug, Clone, Copy, PartialEq, Eq, Structural)]
pub struct CursorMarker {
    pub position: Position,
    pub style: CursorStyle,
}

/// A rendered row, possibly carrying the cursor.
#[derive(Debug, Clone, PartialEq, Eq)]
pub struct RenderedLine {
    pub text: String,
    pub cursor_marker: Option<CursorMarker>,
}

pub type LineView = (Seq<char>, Option<CursorMarker>);

pub open spec fn rendered_views(lines: Seq<RenderedLine>) -> Seq<LineView> {
    lines.map_values(|l: RenderedLine| (l.text@, l.cursor_marker))
}

/// Rows that carry no cursor.
pub open spec fn plain_lines(texts: Seq<Seq<char>>) -> Seq<LineView> {
    texts.map_values(|t: Seq<char>| (t, None::<CursorMarker>))
}

fn push_plain(out: &mut Vec<RenderedLine>, texts: Vec<String>)
    ensures
        rendered_views(final(out)@) == rendered_views(old(out)@) + plain_lines(strs_of(texts@)),
{
    let mut i: usize = 0;
    while i < texts.len()
        invariant
            i <= texts.len(),
            rendered_views(out@) == rendered_views(old(out)@) + plain_lines(strs_of(texts@).take(i as int)),
        decreases texts.len() - i,
    {
        let ghost before = rendered_views(out@);
        out.push(RenderedLine { text: texts[i].clone(), cursor_marker: None });
        assert(rendered_views(out@) =~= before.push((texts@[i as int]@, None)));
        assert(plain_lines(strs_of(texts@).take(i + 1)) =~= plain_lines(strs_of(texts@).take(i as int)).push(
            (texts@[i as int]@, None),
        ));
        i += 1;
    }
    assert(strs_of(texts@).take(texts.len() as int) =~= strs_of(texts@));
}

/// The footer's optional text.
#[derive(Debug, Clone, PartialEq, Eq)]
pub struct FooterModel {
    pub text: Option<String>,
}

/// The style of a footer's leading mode badge.
pub open spec fn mode_style_of(mode: Seq<char>) -> Option<UiStyle> {
    if mode == "INS"@ {
        Some(UiStyle::ModeInsert)
    } else if mode == "NAV"@ {
        Some(UiStyle::ModeNormal)
    } else if mode == "VIS"@ {
        Some(UiStyle::ModeVisual)
    } else if mode == "SRCH"@ {
        Some(UiStyle::ModeSearch)
    } else {
        None
    }
}

pub open spec fn palette_hint() -> Seq<char> {
    "Ctrl-P palette"@
}

/// The footer as styled segments: a known mode word before the first space
/// becomes a badge, the rest follows in plain style, and a trailing
/// palette hint is set apart in the hint style; any other text stays
/// plain.
pub open spec fn footer_segments(text: Seq<char>) -> Seq<SegView> {
    let i = find(text, " "@);
    let plain = seq![(text, TextStyle::Semantic(UiStyle::Plain))];
    if i < 0 {
        plain
    } else {
        let mode = text.take(i);
        let rest = text.skip(i + 1);
        match mode_style_of(mode) {
            None => plain,
            Some(ms) => {
                let hinted = has_suffix(rest, palette_hint());
                let body = if hinted { trim_end(rest.take(rest.len() - palette_hint().len())) } else { rest };
                let a = seq![(" "@ + mode + " "@, TextStyle::Semantic(ms))];
                let b = if body.len() > 0 { a.push((" "@ + body, TextStyle::Semantic(UiStyle::Plain))) } else { a };
                if hinted {
                    b.push((" "@, TextStyle::Semantic(UiStyle::Plain))).push(
                        (palette_hint(), TextStyle::Semantic(UiStyle::FooterHint)),
                    )
                } else {
                    b
                }
            },
        }
    }
}

fn mode_style_exec(mode: &[char]) -> (r: Option<UiStyle>)
    ensures
        r == mode_style_of(mode@),
{
    let ins = chars_of("INS");
    let nav = chars_of("NAV");
    let vis = chars_of("VIS");
    let srch = chars_of("SRCH");
    proof {
        reveal_strlit("INS");
        reveal_strlit("NAV");
        reveal_strlit("VIS");
        reveal_strlit("SRCH");
    }
    if chars_eq(mode, ins.as_slice()) {
        Some(UiStyle::ModeInsert)
    } else if chars_eq(mode, nav.as_slice()) {
        Some(UiStyle::ModeNormal)
    } else if chars_eq(mode, vis.as_slice()) {
        Some(UiStyle::ModeVisual)
    } else if chars_eq(mode, srch.as_slice()) {
        Some(UiStyle::ModeSearch)
    } else {
        None
    }
}

fn semantic_chars(text: &[char], style: UiStyle) -> (r: StyledSegment)
    ensures
        r.text@ == text@,
        r.style == TextStyle::Semantic(style),
{
    StyledSegment::semantic(string_from(text), style)
}

/// The footer text as a styled line.
pub fn styled_footer_line(text: &str) -> (r: StyledLine)
    ensures
        seg_views(r.segments@) == footer_segments(text@),
{
    let t = chars_of(text);
    let space = chars_of(" ");
    proof {
        reveal_strlit(" ");
        reveal_strlit("Ctrl-P palette");
    }
    let mut plain: Vec<StyledSegment> = Vec::new();
    plain.push(semantic_chars(t.as_slice(), UiStyle::Plain));
    assert(seg_views(plain@) =~= seq![(text@, TextStyle::Semantic(UiStyle::Plain))]);
    let i = match find_chars(t.as_slice(), space.as_slice()) {
        None => {
            return StyledLine::new(plain);
        },
        Some(i) => i,
    };
    proof {
        crate::extensions::lemma_find_bounds(t@, space@, 0);
        assert(" "@.len() == 1);
        assert(space@ == " "@);
        assert(find(t@, space@) == i as int);
        assert(find_from(t@, space@, 0) == i as int);
        assert(i + 1 <= t@.len());
    }
    let n = t.len();
    assert(n == t@.len());
    let mode = slice_chars(t.as_slice(), 0, i);
    let rest = slice_chars(t.as_slice(), i + 1, t.len());
    assert(mode@ =~= text@.take(i as int));
    assert(rest@ =~= text@.skip(i + 1));
    let ms = match mode_style_exec(mode.as_slice()) {
        None => {
            return StyledLine::new(plain);
        },
        Some(ms) => ms,
    };
    let hint = chars_of("Ctrl-P palette");
    let hinted = ends_with(rest.as_slice(), hint.as_slice());
    let body = if hinted {
        let before = slice_chars(rest.as_slice(), 0, rest.len() - hint.len());
        assert(before@ =~= rest@.take(rest.len() - hint.len()));
        trim_end_chars(before.as_slice())
    } else {
        rest
    };
    let mut segs: Vec<StyledSegment> = Vec::new();
    let mut badge: Vec<char> = Vec::new();
    badge.push(' ');
    extend_chars(&mut badge, mode.as_slice());
    badge.push(' ');
    assert(badge@ =~= " "@ + mode@ + " "@);
    segs.push(semantic_chars(badge.as_slice(), ms));
    assert(seg_views(segs@) =~= seq![(" "@ + mode@ + " "@, TextStyle::Semantic(ms))]);
    if body.len() > 0 {
        let mut b: Vec<char> = Vec::new();
        b.push(' ');
        extend_chars(&mut b, body.as_slice());
        assert(b@ =~= " "@ + body@);
        let ghost before = seg_views(segs@);
        segs.push(semantic_chars(b.as_slice(), UiStyle::Plain));
        assert(seg_views(segs@) =~= before.push((" "@ + body@, TextStyle::Semantic(UiStyle::Plain))));
    }
    if hinted {
        let ghost before = seg_views(segs@);
        segs.push(semantic_chars(space.as_slice(), UiStyle::Plain));
        segs.push(semantic_chars(hint.as_slice(), UiStyle::FooterHint));
        assert(seg_views(segs@) =~= before.push((" "@, TextStyle::Semantic(UiStyle::Plain))).push(
            (palette_hint(), TextStyle::Semantic(UiStyle::FooterHint)),
        ));
    }
    StyledLine::new(segs)
}

/// The footer's rows: its styled line wrapped, each row rendered.
pub open spec fn footer_texts(text: Option<Seq<char>>, width: u16) -> Seq<Seq<char>> {
    match text {
        None => seq![],
        Some(t) => wrap_styled(footer_segments(t), width as nat).map_values(|row: Seq<SegView>| render_views(row)),
    }
}

pub open spec fn opt_view(t: Option<String>) -> Option<Seq<char>> {
    match t {
        Some(s) => Some(s@),
        None => None,
    }
}

/// Renders the footer.
pub fn footer_rows(footer: &FooterModel, width: u16) -> (r: Vec<RenderedLine>)
    ensures
        rendered_views(r@) == plain_lines(footer_texts(opt_view(footer.text), width)),
{
    let mut out: Vec<RenderedLine> = Vec::new();
    match &footer.text {
        None => {
            assert(rendered_views(out@) =~= plain_lines(footer_texts(opt_view(footer.text), width)));
        },
        Some(text) => {
            let rows = wrap_styled_line(&styled_footer_line(text.as_str()), width);
            let ghost want = footer_texts(opt_view(footer.text), width);
            let mut i: usize = 0;
            while i < rows.len()
                invariant
                    i <= rows.len(),
                    want == line_views(rows@).map_values(|row: Seq<SegView>| render_views(row)),
                    rendered_views(out@) == plain_lines(want.take(i as int)),
                decreases rows.len() - i,
            {
                let ghost before = rendered_views(out@);
                let t = render_styled_line(&rows[i]);
                proof {
                    lemma_render_views(rows@[i as int].segments@);
                }
                out.push(RenderedLine { text: t, cursor_marker: None });
                assert(rendered_views(out@) =~= before.push((want[i as int], None)));
                assert(plain_lines(want.take(i + 1)) =~= plain_lines(want.take(i as int)).push((want[i as int], None)));
                i += 1;
            }
            assert(want.take(rows.len() as int) =~= want);
        },
    }
    out
}

/// A palette entry selected or not.
pub open spec fn marked(selected: bool, text: Seq<char>) -> Seq<char> {
    (if selected { "> "@ } else { "  "@ }) + text
}

/// The palette's entries wrapped, the selected one marked.
pub open spec fn palette_item_rows(items: Seq<Seq<char>>, selected: int, width: nat) -> Seq<Seq<char>>
    decreases items.len(),
{
    if items.len() == 0 {
        seq![]
    } else {
        palette_item_rows(items.drop_last(), selected, width) + wrap_ansi(
            marked(items.len() - 1 == selected, items.last()),
            width,
        )
    }
}

/// History search results wrapped, the selected one marked.
pub open spec fn result_rows(results: Seq<(Seq<char>, bool)>, width: nat) -> Seq<Seq<char>>
    decreases results.len(),
{
    if results.len() == 0 {
        seq![]
    } else {
        result_rows(results.drop_last(), width) + wrap_ansi(marked(results.last().1, results.last().0), width)
    }
}

/// Lines each wrapped, one after another.
pub open spec fn wrapped_lines(lines: Seq<Seq<char>>, width: nat) -> Seq<Seq<char>>
    decreases lines.len(),
{
    if lines.len() == 0 {
        seq![]
    } else {
        wrapped_lines(lines.drop_last(), width) + wrap_ansi(lines.last(), width)
    }
}

#[derive(Debug, Clone, PartialEq, Eq)]
pub struct PaletteOverlayModel {
    pub items: Vec<String>,
    pub selected: usize,
}

#[derive(Debug, Clone, PartialEq, Eq)]
pub struct HistorySearchResultModel {
    pub summary: String,
    pub selected: bool,
}

#[derive(Debug, Clone, PartialEq, Eq)]
pub struct HistorySearchOverlayModel {
    pub query: String,
    pub results: Vec<HistorySearchResultModel>,
    pub selected: usize,
    pub preview_lines: Vec<String>,
}

/// What covers the editor, if anything.
#[derive(Debug, Clone, PartialEq, Eq)]
pub enum OverlayModel {
    Absent,
    Palette(PaletteOverlayModel),
    HistorySearch(HistorySearchOverlayModel),
}

pub open spec fn result_views(results: Seq<HistorySearchResultModel>) -> Seq<(Seq<char>, bool)> {
    results.map_values(|r: HistorySearchResultModel| (r.summary@, r.selected))
}

/// The overlay's rows.
pub open spec fn overlay_texts(overlay: OverlayModel, width: u16) -> Seq<Seq<char>> {
    match overlay {
        OverlayModel::Absent => seq![],
        OverlayModel::Palette(p) => seq!["Command Palette"@] + palette_item_rows(
            strs_of(p.items@),
            p.selected as int,
            width as nat,
        ),
        OverlayModel::HistorySearch(h) => {
            let head = seq!["History Search"@] + wrap_ansi("query: "@ + h.query@, width as nat);
            let found = if h.results@.len() == 0 {
                seq!["no history matches"@]
            } else {
                result_rows(result_views(h.results@), width as nat)
            };
            let preview = if h.preview_lines@.len() == 0 {
                seq![]
            } else {
                seq!["preview"@] + wrapped_lines(strs_of(h.preview_lines@), width as nat)
            };
            head + found + preview
        },
    }
}

fn push_text(out: &mut Vec<RenderedLine>, text: &str)
    ensures
        rendered_views(final(out)@) == rendered_views(old(out)@).push((text@, None)),
{
    let ghost before = rendered_views(out@);
    out.push(RenderedLine { text: text.to_string(), cursor_marker: None });
    assert(rendered_views(out@) =~= before.push((text@, None)));
}

fn marked_string(selected: bool, text: &str) -> (r: String)
    ensures
        r@ == marked(selected, text@),
{
    let mut v: Vec<char> = Vec::new();
    if selected {
        extend_str(&mut v, "> ");
    } else {
        extend_str(&mut v, "  ");
    }
    extend_str(&mut v, text);
    proof {
        reveal_strlit("> ");
        reveal_strlit("  ");
    }
    assert(v@ =~= marked(selected, text@));
    string_from(v.as_slice())
}

/// Renders the overlay.
pub fn overlay_rows(overlay: &OverlayModel, width: u16) -> (r: Vec<RenderedLine>)
    ensures
        rendered_views(r@) == plain_lines(overlay_texts(*overlay, width)),
{
    let mut out: Vec<RenderedLine> = Vec::new();
    match overlay {
        OverlayModel::Absent => {
            assert(rendered_views(out@) =~= plain_lines(overlay_texts(*overlay, width)));
        },
        OverlayModel::Palette(p) => {
            push_text(&mut out, "Command Palette");
            let ghost items = strs_of(p.items@);
            let mut i: usize = 0;
            while i < p.items.len()
                invariant
                    i <= p.items.len(),
                    items == strs_of(p.items@),
                    rendered_views(out@) == plain_lines(
                        seq!["Command Palette"@] + palette_item_rows(items.take(i as int), p.selected as int, width as nat),
                    ),
                decreases p.items.len() - i,
            {
                let line = marked_string(i == p.selected, p.items[i].as_str());
                let rows = wrap_ansi_to_width(line.as_str(), width);
                let ghost before = rendered_views(out@);
                push_plain(&mut out, rows);
                assert(items.take(i + 1).drop_last() =~= items.take(i as int));
                assert(plain_lines(seq!["Command Palette"@] + palette_item_rows(items.take(i + 1), p.selected as int, width as nat)) =~= plain_lines(
                    seq!["Command Palette"@] + palette_item_rows(items.take(i as int), p.selected as int, width as nat),
                ) + plain_lines(wrap_ansi(marked(i == p.selected, items[i as int]), width as nat)));
                i += 1;
            }
            assert(items.take(p.items.len() as int) =~= items);
        },
        OverlayModel::HistorySearch(h) => {
            push_text(&mut out, "History Search");
            let mut q: Vec<char> = Vec::new();
            extend_str(&mut q, "query: ");
            extend_str(&mut q, h.query.as_str());
            proof {
                reveal_strlit("query: ");
            }
            let qs = string_from(q.as_slice());
            assert(qs@ =~= "query: "@ + h.query@);
            push_plain(&mut out, wrap_ansi_to_width(qs.as_str(), width));
            let ghost head = seq!["History Search"@] + wrap_ansi("query: "@ + h.query@, width as nat);
            assert(rendered_views(out@) =~= plain_lines(head));
            let ghost found: Seq<Seq<char>>;
            if h.results.len() == 0 {
                push_text(&mut out, "no history matches");
                proof {
                    found = seq!["no history matches"@];
                }
                assert(rendered_views(out@) =~= plain_lines(head + found));
            } else {
                let ghost res = result_views(h.results@);
                let mut i: usize = 0;
                while i < h.results.len()
                    invariant
                        i <= h.results.len(),
                        res == result_views(h.results@),
                        rendered_views(out@) == plain_lines(head + result_rows(res.take(i as int), width as nat)),
                    decreases h.results.len() - i,
                {
                    let line = marked_string(h.results[i].selected, h.results[i].summary.as_str());
                    push_plain(&mut out, wrap_ansi_to_width(line.as_str(), width));
                    assert(res.take(i + 1).drop_last() =~= res.take(i as int));
                    assert(plain_lines(head + result_rows(res.take(i + 1), width as nat)) =~= plain_lines(
                        head + result_rows(res.take(i as int), width as nat),
                    ) + plain_lines(wrap_ansi(marked(res[i as int].1, res[i as int].0), width as nat)));
                    i += 1;
                }
                assert(res.take(h.results.len() as int) =~= res);
                proof {
                    found = result_rows(res, width as nat);
                }
            }
            if h.preview_lines.len() > 0 {
                push_text(&mut out, "preview");
                let ghost lines = strs_of(h.preview_lines@);
                let ghost base = head + found + seq!["preview"@];
                assert(rendered_views(out@) =~= plain_lines(base));
                let mut k: usize = 0;
                while k < h.preview_lines.len()
                    invariant
                        k <= h.preview_lines.len(),
                        lines == strs_of(h.preview_lines@),
                        rendered_views(out@) == plain_lines(base + wrapped_lines(lines.take(k as int), width as nat)),
                    decreases h.preview_lines.len() - k,
                {
                    push_plain(&mut out, wrap_ansi_to_width(h.preview_lines[k].as_str(), width));
                    assert(lines.take(k + 1).drop_last() =~= lines.take(k as int));
                    assert(plain_lines(base + wrapped_lines(lines.take(k + 1), width as nat)) =~= plain_lines(
                        base + wrapped_lines(lines.take(k as int), width as nat),
                    ) + plain_lines(wrap_ansi(lines[k as int], width as nat)));
                    k += 1;
                }
                assert(lines.take(h.preview_lines.len() as int) =~= lines);
                assert(base + wrapped_lines(lines, width as nat) =~= head + found + (seq!["preview"@] + wrapped_lines(lines, width as nat)));
            } else {
                assert(head + found =~= head + found + Seq::<Seq<char>>::empty());
            }
        },
    }
    out
}


/// The editor's text and prompt.
#[derive(Debug, Clone, PartialEq, Eq)]
pub struct EditorModel {
    pub text: String,
    pub prompt: String,
}

/// One row of the editor's layout plan: the line number shown beside it
/// (if any) and its styled content.
#[derive(Debug, Clone, PartialEq, Eq)]
pub struct PlanRow {
    pub gutter: Option<String>,
    pub spans: Vec<StyledSegment>,
}

/// The editor's layout of its text at a given width: the rows, where the
/// cursor is (column counted with the plan's own line-number gutter), and
/// the editing mode.
#[derive(Debug, Clone, PartialEq, Eq)]
pub struct EditorPlan {
    pub rows: Vec<PlanRow>,
    pub cursor: Option<Position>,
    pub mode: EditorMode,
}

/// The prompt shown: the editor's, or `In [ ]: ` when it has none.
pub open spec fn shown_prompt(prompt: Seq<char>) -> Seq<char> {
    if prompt.len() == 0 { input_prompt_spec(None) } else { prompt }
}

/// An IPython input prompt: `In [` ... `: `.
pub open spec fn is_ipython_prompt_spec(prompt: Seq<char>) -> bool {
    has_prefix(prompt, "In ["@) && has_suffix(prompt, ": "@)
}

/// The prompt as drawn: IPython prompts in the input-prompt style.
pub open spec fn rendered_prompt_spec(prompt: Seq<char>) -> Seq<char> {
    if is_ipython_prompt_spec(prompt) {
        styled_segment_text(prompt, TextStyle::Semantic(UiStyle::InputPrompt))
    } else {
        prompt
    }
}

/// Columns of a line-number gutter for `n` lines: the digits of `n` (at
/// least one line) and a space.
pub open spec fn number_gutter_width(n: nat) -> nat {
    decimal(if n < 1 { 1 } else { n }).len() + 1
}

/// The gutter width of the editor: the prompt's width, widened to the
/// line-number gutter under an IPython prompt.
pub open spec fn editor_gutter(prompt: Seq<char>, text: Seq<char>) -> nat {
    let p = shown_prompt(prompt);
    let pw = display_width_spec(p);
    if is_ipython_prompt_spec(p) {
        let nw = number_gutter_width(lines_of(text).len());
        if pw > nw { pw } else { nw }
    } else {
        pw
    }
}

/// The number gutter cell: the line number right-aligned, a space, dimmed;
/// blank on continuation rows.
pub open spec fn number_gutter_text(gutter: Option<Seq<char>>, width: nat) -> Seq<char> {
    let text = match gutter {
        Some(t) => t,
        None => seq![],
    };
    let cell = if text.len() == 0 { spaces(width) } else { pad_left(text, if width >= 1 { (width - 1) as nat } else { 0 }) + " "@ };
    styled_segment_text(cell, TextStyle::Raw(Style { fg: Some(Color::DarkGray), ..Style::spec_default() }))
}

pub type PlanRowView = (Option<Seq<char>>, Seq<SegView>);

pub open spec fn plan_row_views(rows: Seq<PlanRow>) -> Seq<PlanRowView> {
    rows.map_values(|r: PlanRow| (opt_view(r.gutter), seg_views(r.spans@)))
}

/// The text of plan row `index`: the gutter (line number, or the prompt on
/// the first row, or blanks) and the row's rendered content.
pub open spec fn editor_row_text(prompt: Seq<char>, gw: nat, ipy: bool, index: int, row: PlanRowView) -> Seq<char> {
    let prefix = if ipy {
        number_gutter_text(row.0, gw)
    } else if index == 0 {
        rendered_prompt_spec(prompt)
    } else {
        spaces(gw)
    };
    prefix + render_views(row.1)
}

/// The editor's rows from a plan: the plan's rows with their gutters, or
/// the drawn prompt alone if the plan has none; the cursor marker on the
/// cursor's row (clamped to the last row), at the cursor's column shifted
/// past the gutter (clamped to the last column), shaped by the mode.
pub open spec fn planned_lines(prompt: Seq<char>, text: Seq<char>, width: u16, plan: EditorPlan) -> Seq<LineView> {
    let p = shown_prompt(prompt);
    let ipy = is_ipython_prompt_spec(p);
    let gw = editor_gutter(prompt, text);
    let egw: nat = if ipy { number_gutter_width(lines_of(text).len()) } else { 0 };
    let views = plan_row_views(plan.rows@);
    let n: nat = if views.len() == 0 { 1 } else { views.len() };
    let cy: nat = match plan.cursor {
        Some(c) => c.y as nat,
        None => 0,
    };
    let cursor_row: nat = if cy < n - 1 { cy } else { (n - 1) as nat };
    let col: nat = match plan.cursor {
        Some(c) => gw + if c.x >= egw { (c.x - egw) as nat } else { 0 },
        None => gw,
    };
    let last_col: nat = (width - 1) as nat;
    let cursor_col: u16 = (if col < last_col { col } else { last_col }) as u16;
    Seq::new(
        n,
        |i: int|
            (
                if views.len() == 0 { rendered_prompt_spec(p) } else { editor_row_text(p, gw, ipy, i, views[i]) },
                if i == cursor_row {
                    Some(CursorMarker { position: Position { x: cursor_col, y: i as u16 }, style: cursor_style_of(plan.mode) })
                } else {
                    None
                },
            ),
    )
}

pub open spec fn cursor_style_of(mode: EditorMode) -> CursorStyle {
    match mode {
        EditorMode::Insert | EditorMode::Search => CursorStyle::Bar,
        EditorMode::Normal | EditorMode::Visual => CursorStyle::Block,
    }
}

/// When the gutter leaves no column: the prompt and text wrapped together,
/// the bar cursor after the last row's text (clamped to the last column).
pub open spec fn fallback_lines(prompt: Seq<char>, text: Seq<char>, width: u16) -> Seq<LineView> {
    let rows = wrap_ansi(rendered_prompt_spec(shown_prompt(prompt)) + text, width as nat);
    let cursor_row: int = if rows.len() >= 1 { rows.len() - 1 } else { 0 };
    let w: nat = if cursor_row < rows.len() { display_width_spec(rows[cursor_row]) } else { 0 };
    let last_col: nat = if width >= 1 { (width - 1) as nat } else { 0 };
    let cursor_col: u16 = (if w < last_col { w } else { last_col }) as u16;
    Seq::new(
        rows.len(),
        |i: int|
            (
                rows[i],
                if i == cursor_row {
                    Some(CursorMarker { position: Position { x: cursor_col, y: i as u16 }, style: CursorStyle::Bar })
                } else {
                    None
                },
            ),
    )
}

/// Whether the editor is drawn from its plan (the gutter leaves a column).
pub open spec fn uses_plan(editor: EditorModel, width: u16) -> bool {
    editor_gutter(editor.prompt@, editor.text@) < width
}

/// The editor's rows.
pub open spec fn editor_lines(editor: EditorModel, width: u16, plan: EditorPlan) -> Seq<LineView> {
    if uses_plan(editor, width) {
        planned_lines(editor.prompt@, editor.text@, width, plan)
    } else {
        fallback_lines(editor.prompt@, editor.text@, width)
    }
}

/// The plan width the editor needs (its content columns, at least one,
/// plus its line-number gutter) and whether it shows line numbers; `None`
/// when the gutter leaves no column and no plan is used.
pub open spec fn plan_request_spec(editor: EditorModel, width: u16) -> Option<(u16, bool)> {
    if !uses_plan(editor, width) {
        None
    } else {
        let ipy = is_ipython_prompt_spec(shown_prompt(editor.prompt@));
        let gw = editor_gutter(editor.prompt@, editor.text@);
        let content: nat = if width - gw >= 1 { (width - gw) as nat } else { 1 };
        let egw: nat = if ipy { number_gutter_width(lines_of(editor.text@).len()) } else { 0 };
        let total: nat = content + egw;
        Some(((if total > u16::MAX { u16::MAX as nat } else { total }) as u16, ipy))
    }
}

struct EditorLayout {
    prompt: String,
    rendered_prompt: String,
    ipython: bool,
    gutter: usize,
    number_gutter: usize,
}

fn editor_layout(editor: &EditorModel) -> (r: EditorLayout)
    ensures
        r.prompt@ == shown_prompt(editor.prompt@),
        r.rendered_prompt@ == rendered_prompt_spec(shown_prompt(editor.prompt@)),
        r.ipython == is_ipython_prompt_spec(shown_prompt(editor.prompt@)),
        r.gutter == editor_gutter(editor.prompt@, editor.text@),
        r.number_gutter == (if r.ipython { number_gutter_width(lines_of(editor.text@).len()) } else { 0 }),
        r.number_gutter <= 21,
{
    let prompt = if chars_of(editor.prompt.as_str()).len() == 0 {
        input_prompt(None)
    } else {
        editor.prompt.clone()
    };
    proof {
        reveal_strlit("In [");
        reveal_strlit(": ");
    }
    let p = chars_of(prompt.as_str());
    let ipython = starts_with(p.as_slice(), chars_of("In [").as_slice()) && ends_with(p.as_slice(), chars_of(": ").as_slice());
    let rendered_prompt = if ipython { styled_input_prompt(prompt.as_str()) } else { prompt.clone() };
    let pw = display_width(prompt.as_str());
    let mut number_gutter: usize = 0;
    let mut gutter = pw;
    if ipython {
        let t = chars_of(editor.text.as_str());
        let n = lines_chars(t.as_slice()).len();
        let shown: u64 = if n < 1 { 1 } else { n as u64 };
        let digits = decimal_chars(shown);
        proof {
            crate::ui::lemma_decimal_len_u64(shown as nat);
        }
        number_gutter = digits.len() + 1;
        if number_gutter > pw {
            gutter = number_gutter;
        }
    }
    EditorLayout { prompt, rendered_prompt, ipython, gutter, number_gutter }
}

/// The plan the editor asks for at `width` columns: its width and whether
/// it shows line numbers; `None` when the editor is drawn without one.
pub fn editor_plan_request(editor: &EditorModel, width: u16) -> (r: Option<(u16, bool)>)
    ensures
        r == plan_request_spec(*editor, width),
{
    let layout = editor_layout(editor);
    if layout.gutter >= width as usize {
        return None;
    }
    let content: usize = if width as usize - layout.gutter >= 1 { width as usize - layout.gutter } else { 1 };
    let total = content + layout.number_gutter;
    Some((if total > 65535 { 65535u16 } else { total as u16 }, layout.ipython))
}

fn number_gutter_cell(gutter: &Option<String>, width: usize) -> (r: String)
    ensures
        r@ == number_gutter_text(opt_view(*gutter), width as nat),
{
    let mut cell: Vec<char> = Vec::new();
    let text: Vec<char> = match gutter {
        Some(t) => chars_of(t.as_str()),
        None => Vec::new(),
    };
    if text.len() == 0 {
        push_spaces(&mut cell, width);
    } else {
        push_padded_left(&mut cell, text.as_slice(), if width >= 1 { width - 1 } else { 0 });
        cell.push(' ');
    }
    proof {
        reveal_strlit(" ");
    }
    let ghost want_text: Seq<char> = match opt_view(*gutter) {
        Some(t) => t,
        None => seq![],
    };
    assert(text@ == want_text);
    let style = Style::plain().fg(Color::DarkGray);
    assert(style == Style { fg: Some(Color::DarkGray), ..Style::spec_default() });
    let mut out: Vec<char> = Vec::new();
    push_styled_segment(&mut out, cell.as_slice(), TextStyle::Raw(style));
    assert(out@ =~= styled_segment_text(cell@, TextStyle::Raw(style)));
    string_from(out.as_slice())
}

fn push_spans(out: &mut Vec<char>, spans: &Vec<StyledSegment>)
    ensures
        final(out)@ == old(out)@ + render_views(seg_views(spans@)),
{
    let ghost views = seg_views(spans@);
    let mut i: usize = 0;
    while i < spans.len()
        invariant
            i <= spans.len(),
            views == seg_views(spans@),
            out@ == old(out)@ + render_views(views.take(i as int)),
        decreases spans.len() - i,
    {
        let t = chars_of(spans[i].text.as_str());
        push_styled_segment(out, t.as_slice(), spans[i].style);
        assert(views.take(i + 1).drop_last() =~= views.take(i as int));
        assert(out@ =~= old(out)@ + render_views(views.take(i + 1)));
        i += 1;
    }
    assert(views.take(spans.len() as int) =~= views);
}

fn plan_row_text(layout: &EditorLayout, index: usize, row: &PlanRow) -> (r: String)
    requires
        layout.rendered_prompt@ == rendered_prompt_spec(layout.prompt@),
    ensures
        r@ == editor_row_text(layout.prompt@, layout.gutter as nat, layout.ipython, index as int, (opt_view(row.gutter), seg_views(row.spans@))),
{
    let mut out: Vec<char> = Vec::new();
    if layout.ipython {
        extend_str(&mut out, number_gutter_cell(&row.gutter, layout.gutter).as_str());
    } else if index == 0 {
        extend_str(&mut out, layout.rendered_prompt.as_str());
    } else {
        push_spaces(&mut out, layout.gutter);
    }
    let ghost before = out@;
    push_spans(&mut out, &row.spans);
    assert(out@ =~= before + render_views(seg_views(row.spans@)));
    string_from(out.as_slice())
}

/// Renders the editor at `width` columns, from `plan` when the gutter
/// leaves a column (see `editor_plan_request`), else as wrapped text.
pub fn editor_rows(editor: &EditorModel, width: u16, plan: &EditorPlan) -> (r: Vec<RenderedLine>)
    ensures
        rendered_views(r@) == editor_lines(*editor, width, *plan),
{
    let layout = editor_layout(editor);
    if layout.gutter >= width as usize {
        return fallback_rows(editor, width, &layout);
    }
    let ghost want = planned_lines(editor.prompt@, editor.text@, width, *plan);
    let ghost views = plan_row_views(plan.rows@);
    let n: usize = if plan.rows.len() == 0 { 1 } else { plan.rows.len() };
    let cy: usize = match plan.cursor {
        Some(c) => c.y as usize,
        None => 0,
    };
    let cursor_row: usize = if cy < n - 1 { cy } else { n - 1 };
    let col: usize = match plan.cursor {
        Some(c) => layout.gutter + if c.x as usize >= layout.number_gutter { c.x as usize - layout.number_gutter } else { 0 },
        None => layout.gutter,
    };
    let last_col: usize = width as usize - 1;
    let cursor_col: u16 = (if col < last_col { col } else { last_col }) as u16;
    let style = cursor_style_for_mode(plan.mode);
    let mut out: Vec<RenderedLine> = Vec::new();
    let mut i: usize = 0;
    while i < n
        invariant
            i <= n,
            n == want.len(),
            n == (if plan.rows.len() == 0 { 1 } else { plan.rows.len() }),
            views == plan_row_views(plan.rows@),
            layout.gutter == editor_gutter(editor.prompt@, editor.text@),
            layout.prompt@ == shown_prompt(editor.prompt@),
            layout.rendered_prompt@ == rendered_prompt_spec(shown_prompt(editor.prompt@)),
            layout.ipython == is_ipython_prompt_spec(shown_prompt(editor.prompt@)),
            want == planned_lines(editor.prompt@, editor.text@, width, *plan),
            cursor_row < n,
            forall|j: int| 0 <= j < want.len() ==> (#[trigger] want[j]).1 == (if j == cursor_row {
                Some(CursorMarker { position: Position { x: cursor_col, y: j as u16 }, style })
            } else {
                None
            }),
            rendered_views(out@) == want.take(i as int),
        decreases n - i,
    {
        let text = if plan.rows.len() == 0 {
            layout.rendered_prompt.clone()
        } else {
            plan_row_text(&layout, i, &plan.rows[i])
        };
        let marker = if i == cursor_row {
            Some(CursorMarker { position: Position { x: cursor_col, y: i as u16 }, style })
        } else {
            None
        };
        let ghost before = rendered_views(out@);
        out.push(RenderedLine { text, cursor_marker: marker });
        assert(want[i as int].0 == text@);
        assert(rendered_views(out@) =~= before.push(want[i as int]));
        assert(want.take(i + 1) =~= want.take(i as int).push(want[i as int]));
        i += 1;
    }
    assert(want.take(n as int) =~= want);
    out
}

fn fallback_rows(editor: &EditorModel, width: u16, layout: &EditorLayout) -> (r: Vec<RenderedLine>)
    requires
        layout.rendered_prompt@ == rendered_prompt_spec(shown_prompt(editor.prompt@)),
    ensures
        rendered_views(r@) == fallback_lines(editor.prompt@, editor.text@, width),
{
    let mut joined = chars_of(layout.rendered_prompt.as_str());
    extend_str(&mut joined, editor.text.as_str());
    let rows = wrap_ansi_to_width(string_from(joined.as_slice()).as_str(), width);
    let ghost want = fallback_lines(editor.prompt@, editor.text@, width);
    let cursor_row: usize = if rows.len() >= 1 { rows.len() - 1 } else { 0 };
    let w: usize = if cursor_row < rows.len() { display_width(rows[cursor_row].as_str()) } else { 0 };
    let last_col: usize = if width >= 1 { width as usize - 1 } else { 0 };
    let cursor_col: u16 = (if w < last_col { w } else { last_col }) as u16;
    let mut out: Vec<RenderedLine> = Vec::new();
    let mut i: usize = 0;
    while i < rows.len()
        invariant
            i <= rows.len(),
            strs_of(rows@) == wrap_ansi(rendered_prompt_spec(shown_prompt(editor.prompt@)) + editor.text@, width as nat),
            want == fallback_lines(editor.prompt@, editor.text@, width),
            want.len() == rows.len(),
            forall|j: int| 0 <= j < want.len() ==> (#[trigger] want[j]) == (rows@[j]@, if j == cursor_row {
                Some(CursorMarker { position: Position { x: cursor_col, y: j as u16 }, style: CursorStyle::Bar })
            } else {
                None
            }),
            rendered_views(out@) == want.take(i as int),
        decreases rows.len() - i,
    {
        let marker = if i == cursor_row {
            Some(CursorMarker { position: Position { x: cursor_col, y: i as u16 }, style: CursorStyle::Bar })
        } else {
            None
        };
        let ghost before = rendered_views(out@);
        out.push(RenderedLine { text: rows[i].clone(), cursor_marker: marker });
        assert(rendered_views(out@) =~= before.push(want[i as int]));
        assert(want.take(i + 1) =~= want.take(i as int).push(want[i as int]));
        i += 1;
    }
    assert(want.take(rows.len() as int) =~= want);
    out
}


/// The kernel state as the display shows it.
#[derive(Debug, Clone, Copy, PartialEq, Eq, Structural)]
pub enum DisplayKernelStatus {
    Connecting,
    Idle,
    Busy,
    AwaitingInput,
    Disconnected,
}

impl DisplayKernelStatus {
    pub open spec fn from_spec(status: KernelStatus) -> Self {
        match status {
            KernelStatus::Connecting => DisplayKernelStatus::Connecting,
            KernelStatus::Idle => DisplayKernelStatus::Idle,
            KernelStatus::Busy => DisplayKernelStatus::Busy,
            KernelStatus::AwaitingInput => DisplayKernelStatus::AwaitingInput,
            KernelStatus::Disconnected => DisplayKernelStatus::Disconnected,
        }
    }

    /// The display's name for a kernel status.
    pub fn from_status(status: KernelStatus) -> (r: Self)
        ensures
            r == Self::from_spec(status),
    {
        match status {
            KernelStatus::Connecting => DisplayKernelStatus::Connecting,
            KernelStatus::Idle => DisplayKernelStatus::Idle,
            KernelStatus::Busy => DisplayKernelStatus::Busy,
            KernelStatus::AwaitingInput => DisplayKernelStatus::AwaitingInput,
            KernelStatus::Disconnected => DisplayKernelStatus::Disconnected,
        }
    }
}

/// Everything a frame is drawn from.
#[derive(Debug, Clone, PartialEq, Eq)]
pub struct DisplayModel {
    pub transcript: TranscriptModel,
    pub editor: EditorModel,
    pub overlay: OverlayModel,
    pub kernel_status: DisplayKernelStatus,
    pub footer: FooterModel,
}

impl DisplayModel {
    /// An empty transcript and editor, no overlay or footer, connecting.
    pub fn new() -> (r: Self)
        ensures
            r.transcript.entries@.len() == 0,
            r.transcript.visible_start == 0,
            r.editor.text@.len() == 0,
            r.editor.prompt@.len() == 0,
            r.overlay == OverlayModel::Absent,
            r.kernel_status == DisplayKernelStatus::Connecting,
            r.footer.text is None,
    {
        DisplayModel {
            transcript: TranscriptModel::new(),
            editor: EditorModel { text: String::new(), prompt: String::new() },
            overlay: OverlayModel::Absent,
            kernel_status: DisplayKernelStatus::Connecting,
            footer: FooterModel { text: None },
        }
    }
}

/// The live rows of a frame: the editor (or the overlay that covers it),
/// then the footer.
pub open spec fn live_lines(model: DisplayModel, width: u16, plan: EditorPlan) -> Seq<LineView> {
    (if model.overlay == OverlayModel::Absent {
        editor_lines(model.editor, width, plan)
    } else {
        plain_lines(overlay_texts(model.overlay, width))
    }) + plain_lines(footer_texts(opt_view(model.footer.text), width))
}

/// The last line that carries a cursor marker: its index and the marker.
pub open spec fn last_marker(lines: Seq<LineView>) -> Option<(int, CursorMarker)>
    decreases lines.len(),
{
    if lines.len() == 0 {
        None
    } else {
        match lines.last().1 {
            Some(m) => Some(((lines.len() - 1) as int, m)),
            None => last_marker(lines.drop_last()),
        }
    }
}

pub open spec fn row_views(rows: Seq<TerminalRow>) -> Seq<(Seq<char>, RowKind)> {
    rows.map_values(|r: TerminalRow| (r.text@, r.kind))
}

/// The frame's rows: the visible transcript's rows, then the live rows.
pub open spec fn frame_rows_spec(model: DisplayModel, width: u16, plan: EditorPlan) -> Seq<(Seq<char>, RowKind)> {
    transcript_rows(model.transcript.entries@.skip(model.transcript.visible_from()), width).map_values(
        |t: Seq<char>| (t, RowKind::CommittedTranscript),
    ) + live_lines(model, width, plan).map_values(|l: LineView| (l.0, RowKind::LiveUi))
}

/// The cursor of a frame: the marker's column on the marker's row of the
/// whole frame, visible, in the marker's shape; hidden when there is no
/// marker or its row has scrolled above the screen.
pub open spec fn resolved_cursor(marker: Option<(int, CursorMarker)>, row_count: nat, height: u16) -> CursorState {
    let hidden = CursorState { position: None, style: CursorStyle::Default, visible: false };
    match marker {
        None => hidden,
        Some((row, m)) => {
            let start: int = if row_count > height { row_count - height } else { 0 };
            if row < start {
                hidden
            } else {
                CursorState { position: Some(Position { x: m.position.x, y: row as u16 }), style: m.style, visible: true }
            }
        },
    }
}

pub open spec fn frame_cursor_spec(model: DisplayModel, size: Size, plan: EditorPlan) -> CursorState {
    let width: u16 = if size.width < 1 { 1 } else { size.width };
    let committed = transcript_rows(model.transcript.entries@.skip(model.transcript.visible_from()), width).len();
    let live = live_lines(model, width, plan);
    let marker = match last_marker(live) {
        Some((i, m)) => Some((committed + i, m)),
        None => None,
    };
    resolved_cursor(marker, committed + live.len(), size.height)
}

fn resolve_cursor_marker(marker: Option<(usize, CursorMarker)>, row_count: usize, size: Size) -> (r: CursorState)
    ensures
        r == resolved_cursor(
            match marker {
                Some((i, m)) => Some((i as int, m)),
                None => None,
            },
            row_count as nat,
            size.height,
        ),
{
    match marker {
        None => CursorState::hidden(),
        Some((row, m)) => {
            let start: usize = if row_count > size.height as usize { row_count - size.height as usize } else { 0 };
            if row < start {
                CursorState::hidden()
            } else {
                CursorState { position: Some(Position { x: m.position.x, y: row as u16 }), style: m.style, visible: true }
            }
        },
    }
}

/// Turns rendered lines into live rows, tracking the last cursor marker.
fn push_live(
    rows: &mut Vec<TerminalRow>,
    marker: &mut Option<(usize, CursorMarker)>,
    lines: Vec<RenderedLine>,
)
    ensures
        row_views(final(rows)@) == row_views(old(rows)@) + rendered_views(lines@).map_values(
            |l: LineView| (l.0, RowKind::LiveUi),
        ),
        (match last_marker(rendered_views(lines@)) {
            Some((i, m)) => *final(marker) == Some(((old(rows)@.len() + i) as usize, m)),
            None => *final(marker) == *old(marker),
        }),
{
    let ghost views = rendered_views(lines@);
    let ghost base = old(rows)@.len();
    let mut i: usize = 0;
    while i < lines.len()
        invariant
            i <= lines.len(),
            views == rendered_views(lines@),
            base == old(rows)@.len(),
            rows@.len() == base + i,
            row_views(rows@) == row_views(old(rows)@) + views.take(i as int).map_values(
                |l: LineView| (l.0, RowKind::LiveUi),
            ),
            (match last_marker(views.take(i as int)) {
                Some((j, m)) => *marker == Some(((base + j) as usize, m)),
                None => *marker == *old(marker),
            }),
        decreases lines.len() - i,
    {
        assert(views.take(i + 1).drop_last() =~= views.take(i as int));
        let index = rows.len();
        if let Some(m) = lines[i].cursor_marker {
            *marker = Some((index, m));
        }
        let ghost before = row_views(rows@);
        rows.push(TerminalRow { text: lines[i].text.clone(), kind: RowKind::LiveUi });
        assert(row_views(rows@) =~= before.push((views[i as int].0, RowKind::LiveUi)));
        assert(views.take(i + 1).map_values(|l: LineView| (l.0, RowKind::LiveUi)) =~= views.take(i as int).map_values(
            |l: LineView| (l.0, RowKind::LiveUi),
        ).push((views[i as int].0, RowKind::LiveUi)));
        i += 1;
    }
    assert(views.take(lines.len() as int) =~= views);
}

/// Draws frames from the display model.
pub struct DisplayRenderer {}

impl DisplayRenderer {
    /// A frame at `size`: the visible transcript's rows, then the editor
    /// (drawn from `plan`, see `editor_plan_request`) or the overlay, then
    /// the footer; rows wrap to the width (at least one column). Transcript
    /// rows may be appended to the scrollback unless an overlay shows.
    pub fn render(&mut self, model: &DisplayModel, size: Size, plan: &EditorPlan) -> (r: TerminalFrame)
        ensures
            r.size == size,
            row_views(r.full_rows@) == frame_rows_spec(*model, if size.width < 1 { 1 } else { size.width }, *plan),
            r.cursor == frame_cursor_spec(*model, size, *plan),
            r.transcript_append_safe == (model.overlay == OverlayModel::Absent),
    {
        let width: u16 = if size.width < 1 { 1 } else { size.width };
        let transcript = render_transcript(&model.transcript, width);
        let mut rows: Vec<TerminalRow> = Vec::new();
        let mut i: usize = 0;
        while i < transcript.len()
            invariant
                i <= transcript.len(),
                row_views(rows@) == strs_of(transcript@).take(i as int).map_values(
                    |t: Seq<char>| (t, RowKind::CommittedTranscript),
                ),
            decreases transcript.len() - i,
        {
            let ghost before = row_views(rows@);
            rows.push(TerminalRow { text: transcript[i].clone(), kind: RowKind::CommittedTranscript });
            assert(row_views(rows@) =~= before.push((transcript@[i as int]@, RowKind::CommittedTranscript)));
            assert(strs_of(transcript@).take(i + 1).map_values(|t: Seq<char>| (t, RowKind::CommittedTranscript))
                =~= strs_of(transcript@).take(i as int).map_values(|t: Seq<char>| (t, RowKind::CommittedTranscript)).push(
                (transcript@[i as int]@, RowKind::CommittedTranscript),
            ));
            i += 1;
        }
        assert(strs_of(transcript@).take(transcript.len() as int) =~= strs_of(transcript@));
        let mut marker: Option<(usize, CursorMarker)> = None;
        let has_overlay = match model.overlay {
            OverlayModel::Absent => false,
            _ => true,
        };
        let ghost committed = rows@.len();
        let first = if has_overlay { overlay_rows(&model.overlay, width) } else { editor_rows(&model.editor, width, plan) };
        let ghost fv = rendered_views(first@);
        push_live(&mut rows, &mut marker, first);
        let ghost mid = rows@.len();
        assert(row_views(rows@).len() == rows@.len());
        assert(mid == committed + fv.len());
        let ghost marker_mid = marker;
        let footer = footer_rows(&model.footer, width);
        let ghost ftv = rendered_views(footer@);
        push_live(&mut rows, &mut marker, footer);
        let ghost live = live_lines(*model, width, *plan);
        assert(live =~= fv + ftv);
        proof {
            lemma_last_marker_concat(fv, ftv);
            assert(last_marker(ftv) is None) by {
                lemma_plain_no_marker(footer_texts(opt_view(model.footer.text), width));
            }
        }
        assert(live.map_values(|l: LineView| (l.0, RowKind::LiveUi)) =~= fv.map_values(|l: LineView| (l.0, RowKind::LiveUi))
            + ftv.map_values(|l: LineView| (l.0, RowKind::LiveUi)));
        let n = rows.len();
        assert(row_views(rows@).len() == rows@.len());
        assert(n == mid + ftv.len());
        assert(committed == transcript_rows(model.transcript.entries@.skip(model.transcript.visible_from()), width).len());
        assert(n == committed + live.len());
        assert(last_marker(live) == last_marker(fv));
        assert(marker == match last_marker(live) {
            Some((i, m)) => Some(((committed + i) as usize, m)),
            None => None::<(usize, CursorMarker)>,
        });
        proof {
            lemma_last_marker_index(live);
        }
        let cursor = resolve_cursor_marker(marker, n, size);
        TerminalFrame { size, full_rows: rows, cursor, transcript_append_safe: !has_overlay }
    }
}

pub proof fn lemma_last_marker_index(lines: Seq<LineView>)
    ensures
        last_marker(lines) matches Some((i, m)) ==> 0 <= i < lines.len() && lines[i].1 == Some(m),
    decreases lines.len(),
{
    if lines.len() > 0 {
        lemma_last_marker_index(lines.drop_last());
    }
}

pub proof fn lemma_plain_no_marker(texts: Seq<Seq<char>>)
    ensures
        last_marker(plain_lines(texts)) is None,
    decreases texts.len(),
{
    if texts.len() > 0 {
        assert(plain_lines(texts).drop_last() =~= plain_lines(texts.drop_last()));
        lemma_plain_no_marker(texts.drop_last());
    }
}

pub proof fn lemma_last_marker_concat(a: Seq<LineView>, b: Seq<LineView>)
    ensures
        last_marker(a + b) == (match last_marker(b) {
            Some((i, m)) => Some((a.len() + i, m)),
            None => last_marker(a),
        }),
    decreases b.len(),
{
    if b.len() == 0 {
        assert(a + b =~= a);
    } else {
        assert((a + b).drop_last() =~= a + b.drop_last());
        lemma_last_marker_concat(a, b.drop_last());
    }
}

} // verus!
