//! Terminal styles and their ANSI SGR rendering.
//!
//! `Color`, `Modifier` and `Style` mirror the terminal style model the
//! frontend draws with; `UiStyle` names the frontend's semantic styles.
use vstd::prelude::*;

use crate::ansi::{csi_body_len, esc, escape_len, is_csi_final, strip_escapes};
use crate::chars::{decimal, extend_chars, push_decimal, string_from, chars_of, strs_of};
use crate::width::{str_width, unicode_str_width};

verus! {

#[derive(Debug, Clone, Copy, PartialEq, Eq, Structural)]
pub enum Color {
    Reset,
    Black,
    Red,
    Green,
    Yellow,
    Blue,
    Magenta,
    Cyan,
    Gray,
    DarkGray,
    LightRed,
    LightGreen,
    LightYellow,
    LightBlue,
    LightMagenta,
    LightCyan,
    White,
    Rgb(u8, u8, u8),
    Indexed(u8),
}

/// Text attributes.
#[derive(Debug, Clone, Copy, PartialEq, Eq, Structural)]
pub struct Modifier {
    pub bold: bool,
    pub dim: bool,
    pub italic: bool,
    pub underlined: bool,
    pub slow_blink: bool,
    pub rapid_blink: bool,
    pub reversed: bool,
    pub hidden: bool,
    pub crossed_out: bool,
}

impl Modifier {
    pub open spec fn spec_empty() -> Modifier {
        Modifier {
            bold: false,
            dim: false,
            italic: false,
            underlined: false,
            slow_blink: false,
            rapid_blink: false,
            reversed: false,
            hidden: false,
            crossed_out: false,
        }
    }

    /// No attributes.
    pub fn empty() -> (m: Modifier)
        ensures
            m == Modifier::spec_empty(),
    {
        Modifier {
            bold: false,
            dim: false,
            italic: false,
            underlined: false,
            slow_blink: false,
            rapid_blink: false,
            reversed: false,
            hidden: false,
            crossed_out: false,
        }
    }
}

/// A foreground, a background, and attributes added or removed.
#[derive(Debug, Clone, Copy, PartialEq, Eq, Structural)]
pub struct Style {
    pub fg: Option<Color>,
    pub bg: Option<Color>,
    pub add_modifier: Modifier,
    pub sub_modifier: Modifier,
}

impl Style {
    pub open spec fn spec_default() -> Style {
        Style {
            fg: None,
            bg: None,
            add_modifier: Modifier::spec_empty(),
            sub_modifier: Modifier::spec_empty(),
        }
    }

    /// The style that changes nothing.
    pub fn plain() -> (s: Style)
        ensures
            s == Style::spec_default(),
    {
        Style { fg: None, bg: None, add_modifier: Modifier::empty(), sub_modifier: Modifier::empty() }
    }

    /// This style with foreground `c`.
    pub fn fg(self, c: Color) -> (s: Style)
        ensures
            s == (Style { fg: Some(c), ..self }),
    {
        Style { fg: Some(c), ..self }
    }

    /// This style with background `c`.
    pub fn bg(self, c: Color) -> (s: Style)
        ensures
            s == (Style { bg: Some(c), ..self }),
    {
        Style { bg: Some(c), ..self }
    }

    /// This style with the attributes of `m` added.
    pub fn add_modifier(self, m: Modifier) -> (s: Style)
        ensures
            s.fg == self.fg,
            s.bg == self.bg,
            s.sub_modifier == self.sub_modifier,
            s.add_modifier.bold == (self.add_modifier.bold || m.bold),
            s.add_modifier.dim == (self.add_modifier.dim || m.dim),
            s.add_modifier.italic == (self.add_modifier.italic || m.italic),
            s.add_modifier.underlined == (self.add_modifier.underlined || m.underlined),
            s.add_modifier.slow_blink == (self.add_modifier.slow_blink || m.slow_blink),
            s.add_modifier.rapid_blink == (self.add_modifier.rapid_blink || m.rapid_blink),
            s.add_modifier.reversed == (self.add_modifier.reversed || m.reversed),
            s.add_modifier.hidden == (self.add_modifier.hidden || m.hidden),
            s.add_modifier.crossed_out == (self.add_modifier.crossed_out || m.crossed_out),
    {
        let a = self.add_modifier;
        Style {
            add_modifier: Modifier {
                bold: a.bold || m.bold,
                dim: a.dim || m.dim,
                italic: a.italic || m.italic,
                underlined: a.underlined || m.underlined,
                slow_blink: a.slow_blink || m.slow_blink,
                rapid_blink: a.rapid_blink || m.rapid_blink,
                reversed: a.reversed || m.reversed,
                hidden: a.hidden || m.hidden,
                crossed_out: a.crossed_out || m.crossed_out,
            },
            ..self
        }
    }
}

/// The frontend's semantic styles.
#[derive(Debug, Clone, Copy, PartialEq, Eq, Structural)]
pub enum UiStyle {
    InputPrompt,
    OutputPrompt,
    Runtime,
    FooterHint,
    ModeInsert,
    ModeNormal,
    ModeVisual,
    ModeSearch,
    Selection,
    Plain,
}

/// A segment's style: semantic, or given directly.
#[derive(Debug, Clone, Copy, PartialEq, Eq, Structural)]
pub enum TextStyle {
    Semantic(UiStyle),
    Raw(Style),
}

pub open spec fn sty(fg: Option<Color>, bg: Option<Color>) -> Style {
    Style { fg, bg, add_modifier: Modifier::spec_empty(), sub_modifier: Modifier::spec_empty() }
}

/// The terminal style of each semantic style.
pub open spec fn semantic_style_spec(style: UiStyle) -> Style {
    match style {
        UiStyle::InputPrompt => sty(Some(Color::Cyan), None),
        UiStyle::OutputPrompt => sty(Some(Color::Red), None),
        UiStyle::Runtime => sty(Some(Color::Indexed(244)), None),
        UiStyle::FooterHint => sty(Some(Color::DarkGray), None),
        UiStyle::ModeInsert => sty(Some(Color::Black), Some(Color::Cyan)),
        UiStyle::ModeNormal => sty(Some(Color::Black), Some(Color::Yellow)),
        UiStyle::ModeVisual => sty(Some(Color::Black), Some(Color::Magenta)),
        UiStyle::ModeSearch => sty(Some(Color::Black), Some(Color::Green)),
        UiStyle::Selection => sty(None, Some(Color::DarkGray)),
        UiStyle::Plain => sty(None, None),
    }
}

/// Executable `semantic_style_spec`.
pub fn semantic_style(style: UiStyle) -> (s: Style)
    ensures
        s == semantic_style_spec(style),
{
    let p = Style::plain();
    match style {
        UiStyle::InputPrompt => p.fg(Color::Cyan),
        UiStyle::OutputPrompt => p.fg(Color::Red),
        UiStyle::Runtime => p.fg(Color::Indexed(244)),
        UiStyle::FooterHint => p.fg(Color::DarkGray),
        UiStyle::ModeInsert => p.fg(Color::Black).bg(Color::Cyan),
        UiStyle::ModeNormal => p.fg(Color::Black).bg(Color::Yellow),
        UiStyle::ModeVisual => p.fg(Color::Black).bg(Color::Magenta),
        UiStyle::ModeSearch => p.fg(Color::Black).bg(Color::Green),
        UiStyle::Selection => p.bg(Color::DarkGray),
        UiStyle::Plain => p,
    }
}

pub open spec fn text_style_spec(style: TextStyle) -> Style {
    match style {
        TextStyle::Semantic(s) => semantic_style_spec(s),
        TextStyle::Raw(s) => s,
    }
}

/// The terminal style of a segment style.
pub fn text_style(style: TextStyle) -> (s: Style)
    ensures
        s == text_style_spec(style),
{
    match style {
        TextStyle::Semantic(s) => semantic_style(s),
        TextStyle::Raw(s) => s,
    }
}

/// `ESC [ params m`.
pub open spec fn sgr(params: Seq<char>) -> Seq<char> {
    seq![esc(), '['] + params + seq!['m']
}

/// The SGR number of a basic color (the foreground code; background adds 10).
pub open spec fn basic_code(c: Color) -> nat {
    match c {
        Color::Black => 30,
        Color::Red => 31,
        Color::Green => 32,
        Color::Yellow => 33,
        Color::Blue => 34,
        Color::Magenta => 35,
        Color::Cyan => 36,
        Color::Gray => 37,
        Color::DarkGray => 90,
        Color::LightRed => 91,
        Color::LightGreen => 92,
        Color::LightYellow => 93,
        Color::LightBlue => 94,
        Color::LightMagenta => 95,
        Color::LightCyan => 96,
        Color::White => 97,
        Color::Reset => 39,
        _ => 0,
    }
}

/// The SGR sequence selecting `color` as foreground or background.
pub open spec fn ansi_color_spec(color: Color, background: bool) -> Seq<char> {
    let ext: nat = if background { 48 } else { 38 };
    match color {
        Color::Indexed(i) => sgr(decimal(ext) + seq![';', '5', ';'] + decimal(i as nat)),
        Color::Rgb(r, g, b) => sgr(
            decimal(ext) + seq![';', '2', ';'] + decimal(r as nat) + seq![';'] + decimal(g as nat)
                + seq![';'] + decimal(b as nat),
        ),
        _ => sgr(decimal(basic_code(color) + if background { 10nat } else { 0nat })),
    }
}

/// The SGR sequences of the added attributes that the terminal renders:
/// bold, italic, underlined, reversed, in that order.
pub open spec fn modifier_ansi_spec(m: Modifier) -> Seq<char> {
    (if m.bold { sgr(seq!['1']) } else { seq![] }) + (if m.italic { sgr(seq!['3']) } else { seq![] })
        + (if m.underlined { sgr(seq!['4']) } else { seq![] }) + (if m.reversed { sgr(seq!['7']) } else { seq![] })
}

/// The SGR prefix of a style: foreground, background, then attributes.
pub open spec fn style_ansi(style: Style) -> Seq<char> {
    (match style.fg {
        Some(c) => ansi_color_spec(c, false),
        None => seq![],
    }) + (match style.bg {
        Some(c) => ansi_color_spec(c, true),
        None => seq![],
    }) + modifier_ansi_spec(style.add_modifier)
}

fn push_sgr_start(out: &mut Vec<char>)
    ensures
        final(out)@ == old(out)@ + seq![esc(), '['],
{
    out.push('\u{1b}');
    out.push('[');
    assert(out@ =~= old(out)@ + seq![esc(), '[']);
}

fn push_sgr_code(out: &mut Vec<char>, code: u64)
    ensures
        final(out)@ == old(out)@ + sgr(decimal(code as nat)),
{
    push_sgr_start(out);
    push_decimal(out, code);
    out.push('m');
    assert(out@ =~= old(out)@ + sgr(decimal(code as nat)));
}

fn basic_code_exec(c: Color) -> (n: u64)
    ensures
        n == basic_code(c),
{
    match c {
        Color::Black => 30,
        Color::Red => 31,
        Color::Green => 32,
        Color::Yellow => 33,
        Color::Blue => 34,
        Color::Magenta => 35,
        Color::Cyan => 36,
        Color::Gray => 37,
        Color::DarkGray => 90,
        Color::LightRed => 91,
        Color::LightGreen => 92,
        Color::LightYellow => 93,
        Color::LightBlue => 94,
        Color::LightMagenta => 95,
        Color::LightCyan => 96,
        Color::White => 97,
        Color::Reset => 39,
        _ => 0,
    }
}

fn push_ansi_color(out: &mut Vec<char>, color: Color, background: bool)
    ensures
        final(out)@ == old(out)@ + ansi_color_spec(color, background),
{
    let ext: u64 = if background { 48 } else { 38 };
    match color {
        Color::Indexed(i) => {
            push_sgr_start(out);
            push_decimal(out, ext);
            out.push(';');
            out.push('5');
            out.push(';');
            push_decimal(out, i as u64);
            out.push('m');
        },
        Color::Rgb(r, g, b) => {
            push_sgr_start(out);
            push_decimal(out, ext);
            out.push(';');
            out.push('2');
            out.push(';');
            push_decimal(out, r as u64);
            out.push(';');
            push_decimal(out, g as u64);
            out.push(';');
            push_decimal(out, b as u64);
            out.push('m');
        },
        _ => {
            let base = basic_code_exec(color);
            push_sgr_code(out, if background { base + 10 } else { base });
        },
    }
    assert(out@ =~= old(out)@ + ansi_color_spec(color, background));
}

fn push_modifier_ansi(out: &mut Vec<char>, m: Modifier)
    ensures
        final(out)@ == old(out)@ + modifier_ansi_spec(m),
{
    let ghost o = out@;
    if m.bold {
        push_sgr_code(out, 1);
    }
    let ghost o1 = out@;
    if m.italic {
        push_sgr_code(out, 3);
    }
    let ghost o2 = out@;
    if m.underlined {
        push_sgr_code(out, 4);
    }
    let ghost o3 = out@;
    if m.reversed {
        push_sgr_code(out, 7);
    }
    assert(decimal(1) == seq!['1']);
    assert(decimal(3) == seq!['3']);
    assert(decimal(4) == seq!['4']);
    assert(decimal(7) == seq!['7']);
    assert(out@ =~= o + modifier_ansi_spec(m));
}

/// Appends the SGR prefix of `style`.
pub fn push_style_ansi(out: &mut Vec<char>, style: Style)
    ensures
        final(out)@ == old(out)@ + style_ansi(style),
{
    let ghost o = out@;
    match style.fg {
        Some(c) => push_ansi_color(out, c, false),
        None => {},
    }
    let ghost o1 = out@;
    match style.bg {
        Some(c) => push_ansi_color(out, c, true),
        None => {},
    }
    push_modifier_ansi(out, style.add_modifier);
    assert(out@ =~= o + style_ansi(style));
}

/// The SGR prefix of `style` as a string.
pub fn style_to_ansi(style: Style) -> (r: String)
    ensures
        r@ == style_ansi(style),
{
    let mut out: Vec<char> = Vec::new();
    push_style_ansi(&mut out, style);
    assert(out@ =~= style_ansi(style));
    string_from(out.as_slice())
}

/// The SGR sequence selecting `color` as foreground or background.
pub fn ansi_color(color: Color, background: bool) -> (r: String)
    ensures
        r@ == ansi_color_spec(color, background),
{
    let mut out: Vec<char> = Vec::new();
    push_ansi_color(&mut out, color, background);
    assert(out@ =~= ansi_color_spec(color, background));
    string_from(out.as_slice())
}

/// `ESC[0m`.
pub open spec fn sgr_reset() -> Seq<char> {
    seq![esc(), '[', '0', 'm']
}

/// A segment rendered with its style: unstyled text is kept as is, styled
/// text is wrapped in the style's SGR prefix and a reset.
pub open spec fn styled_segment_text(text: Seq<char>, style: TextStyle) -> Seq<char> {
    let s = text_style_spec(style);
    if s == Style::spec_default() {
        text
    } else {
        style_ansi(s) + text + sgr_reset()
    }
}

/// Appends a styled segment.
pub fn push_styled_segment(out: &mut Vec<char>, text: &[char], style: TextStyle)
    ensures
        final(out)@ == old(out)@ + styled_segment_text(text@, style),
{
    let s = text_style(style);
    if s == Style::plain() {
        extend_chars(out, text);
    } else {
        let ghost o = out@;
        push_style_ansi(out, s);
        extend_chars(out, text);
        out.push('\u{1b}');
        out.push('[');
        out.push('0');
        out.push('m');
        assert(out@ =~= o + styled_segment_text(text@, style));
    }
}

/// Renders one segment (`text` in `style`).
pub fn render_styled_segment(text: &str, style: TextStyle) -> (r: String)
    ensures
        r@ == styled_segment_text(text@, style),
{
    let t = chars_of(text);
    let mut out: Vec<char> = Vec::new();
    push_styled_segment(&mut out, t.as_slice(), style);
    assert(out@ =~= styled_segment_text(text@, style));
    string_from(out.as_slice())
}

/// A run of text in one style.
#[derive(Debug, Clone, PartialEq, Eq)]
pub struct StyledSegment {
    pub text: String,
    pub style: TextStyle,
}

impl StyledSegment {
    /// A segment in a semantic style.
    pub fn semantic(text: String, style: UiStyle) -> (s: StyledSegment)
        ensures
            s.text@ == text@,
            s.style == TextStyle::Semantic(style),
    {
        StyledSegment { text, style: TextStyle::Semantic(style) }
    }

    /// A segment in a direct style.
    pub fn raw(text: String, style: Style) -> (s: StyledSegment)
        ensures
            s.text@ == text@,
            s.style == TextStyle::Raw(style),
    {
        StyledSegment { text, style: TextStyle::Raw(style) }
    }
}

/// A line made of styled segments.
#[derive(Debug, Clone, PartialEq, Eq)]
pub struct StyledLine {
    pub segments: Vec<StyledSegment>,
}

impl StyledLine {
    pub fn new(segments: Vec<StyledSegment>) -> (l: StyledLine)
        ensures
            l.segments@ == segments@,
    {
        StyledLine { segments }
    }
}

/// The rendering of the first `n` segments of a line.
pub open spec fn styled_line_text(segs: Seq<StyledSegment>) -> Seq<char>
    decreases segs.len(),
{
    if segs.len() == 0 {
        seq![]
    } else {
        styled_line_text(segs.drop_last()) + styled_segment_text(segs.last().text@, segs.last().style)
    }
}

/// Appends the rendering of a line.
pub fn push_styled_line(out: &mut Vec<char>, line: &StyledLine)
    ensures
        final(out)@ == old(out)@ + styled_line_text(line.segments@),
{
    let mut i: usize = 0;
    while i < line.segments.len()
        invariant
            i <= line.segments.len(),
            out@ == old(out)@ + styled_line_text(line.segments@.take(i as int)),
        decreases line.segments.len() - i,
    {
        let seg = &line.segments[i];
        let t = chars_of(seg.text.as_str());
        let ghost o = out@;
        push_styled_segment(out, t.as_slice(), seg.style);
        i += 1;
        assert(line.segments@.take(i as int).drop_last() =~= line.segments@.take(i - 1));
        assert(out@ =~= old(out)@ + styled_line_text(line.segments@.take(i as int)));
    }
    assert(line.segments@.take(line.segments.len() as int) =~= line.segments@);
}

/// Renders a line: each segment in its style, one after another.
pub fn render_styled_line(line: &StyledLine) -> (r: String)
    ensures
        r@ == styled_line_text(line.segments@),
{
    let mut out: Vec<char> = Vec::new();
    push_styled_line(&mut out, line);
    assert(out@ =~= styled_line_text(line.segments@));
    string_from(out.as_slice())
}

/// Renders `text` in a semantic style.
pub fn render_semantic(text: &[char], style: UiStyle) -> (r: Vec<char>)
    ensures
        r@ == styled_segment_text(text@, TextStyle::Semantic(style)),
{
    let mut out: Vec<char> = Vec::new();
    push_styled_segment(&mut out, text, TextStyle::Semantic(style));
    assert(out@ =~= styled_segment_text(text@, TextStyle::Semantic(style)));
    out
}

/// The sum of the column widths of the segments' texts, saturating at
/// `usize::MAX`.
pub open spec fn styled_width(segs: Seq<StyledSegment>) -> nat
    decreases segs.len(),
{
    if segs.len() == 0 {
        0
    } else {
        let w: nat = styled_width(segs.drop_last()) + unicode_str_width(segs.last().text@) as nat;
        if w > usize::MAX { usize::MAX as nat } else { w }
    }
}

/// The column width of a styled line.
pub fn styled_line_width(line: &StyledLine) -> (w: usize)
    ensures
        w == styled_width(line.segments@),
{
    let mut acc: usize = 0;
    let mut i: usize = 0;
    while i < line.segments.len()
        invariant
            i <= line.segments.len(),
            acc == styled_width(line.segments@.take(i as int)),
        decreases line.segments.len() - i,
    {
        let w = str_width(line.segments[i].text.as_str());
        acc = acc.saturating_add(w);
        i += 1;
        assert(line.segments@.take(i as int).drop_last() =~= line.segments@.take(i - 1));
    }
    assert(line.segments@.take(line.segments.len() as int) =~= line.segments@);
    acc
}

/// Foreground and background of one color differ only in the SGR number:
/// a named color (or `Reset`) selects the foreground with a code `n` among
/// 30 to 37, 39 and 90 to 97, and the background with `n + 10`; an indexed
/// or RGB color starts with `ESC[38` for the foreground and `ESC[48` for the
/// background, and the rest of the two sequences is the same.
pub proof fn law_background_code_is_foreground_plus_ten(color: Color)
    ensures
        !(color is Indexed || color is Rgb) ==> exists|n: nat| #![trigger decimal(n)]
            (30 <= n <= 39 && n != 38 || 90 <= n <= 97)
            && ansi_color_spec(color, false) == sgr(decimal(n))
            && ansi_color_spec(color, true) == sgr(decimal(n + 10)),
        color is Indexed || color is Rgb ==> ({
            let fg = ansi_color_spec(color, false);
            let bg = ansi_color_spec(color, true);
            &&& fg.len() > 4 && bg.len() > 4
            &&& fg.subrange(0, 4) == seq![esc(), '[', '3', '8']
            &&& bg.subrange(0, 4) == seq![esc(), '[', '4', '8']
            &&& fg.skip(4) == bg.skip(4)
        }),
{
    reveal_with_fuel(decimal, 2);
    assert(decimal(38) =~= seq!['3', '8']);
    assert(decimal(48) =~= seq!['4', '8']);
    let fg = ansi_color_spec(color, false);
    let bg = ansi_color_spec(color, true);
    match color {
        Color::Indexed(i) => {
            let rest = seq![';', '5', ';'] + decimal(i as nat) + seq!['m'];
            assert(fg =~= seq![esc(), '[', '3', '8'] + rest);
            assert(bg =~= seq![esc(), '[', '4', '8'] + rest);
            assert(fg.subrange(0, 4) =~= seq![esc(), '[', '3', '8']);
            assert(bg.subrange(0, 4) =~= seq![esc(), '[', '4', '8']);
            assert(fg.skip(4) =~= rest);
            assert(bg.skip(4) =~= rest);
        },
        Color::Rgb(r, g, b) => {
            let rest = seq![';', '2', ';'] + decimal(r as nat) + seq![';'] + decimal(g as nat) + seq![';']
                + decimal(b as nat) + seq!['m'];
            assert(fg =~= seq![esc(), '[', '3', '8'] + rest);
            assert(bg =~= seq![esc(), '[', '4', '8'] + rest);
            assert(fg.subrange(0, 4) =~= seq![esc(), '[', '3', '8']);
            assert(bg.subrange(0, 4) =~= seq![esc(), '[', '4', '8']);
            assert(fg.skip(4) =~= rest);
            assert(bg.skip(4) =~= rest);
        },
        _ => {
            let n = basic_code(color);
            assert(fg == sgr(decimal(n)));
        },
    }
}

/// Characters that may stand inside a CSI sequence before its final byte.
pub open spec fn csi_params_ok(p: Seq<char>) -> bool {
    forall|i: int| 0 <= i < p.len() ==> !is_csi_final(#[trigger] p[i])
}

pub(crate) proof fn lemma_csi_len_through_final(params: Seq<char>, f: char, t: Seq<char>)
    requires
        csi_params_ok(params),
        is_csi_final(f),
    ensures
        csi_body_len(params + seq![f] + t) == params.len() + 1,
    decreases params.len(),
{
    let u = params + seq![f] + t;
    if params.len() == 0 {
        assert(u[0] == f);
    } else {
        assert(!is_csi_final(u[0]));
        assert(u.skip(1) =~= params.skip(1) + seq![f] + t);
        assert forall|i: int| 0 <= i < params.skip(1).len() implies !is_csi_final(#[trigger] params.skip(1)[i]) by {
            assert(params.skip(1)[i] == params[i + 1]);
        }
        lemma_csi_len_through_final(params.skip(1), f, t);
    }
}

proof fn lemma_strip_sgr(params: Seq<char>, rest: Seq<char>, osc: bool)
    requires
        csi_params_ok(params),
    ensures
        strip_escapes(sgr(params) + rest, osc) == strip_escapes(rest, osc),
{
    let s = sgr(params) + rest;
    assert(s.skip(1) =~= seq!['['] + (params + seq!['m'] + rest));
    assert(s.skip(1).skip(1) =~= params + seq!['m'] + rest);
    lemma_csi_len_through_final(params, 'm', rest);
    assert(escape_len(s.skip(1), osc) == Some((params.len() + 2) as nat));
    assert(s.skip(1 + params.len() as int + 2) =~= rest);
}

proof fn lemma_strip_plain(plain: Seq<char>, rest: Seq<char>, osc: bool)
    requires
        forall|i: int| 0 <= i < plain.len() ==> plain[i] != esc(),
    ensures
        strip_escapes(plain + rest, osc) == plain + strip_escapes(rest, osc),
    decreases plain.len(),
{
    if plain.len() > 0 {
        let s = plain + rest;
        assert(s[0] == plain[0]);
        assert(s.skip(1) =~= plain.skip(1) + rest);
        assert forall|i: int| 0 <= i < plain.skip(1).len() implies plain.skip(1)[i] != esc() by {
            assert(plain.skip(1)[i] == plain[i + 1]);
        }
        lemma_strip_plain(plain.skip(1), rest, osc);
        assert(seq![plain[0]] + (plain.skip(1) + strip_escapes(rest, osc)) =~= plain + strip_escapes(rest, osc));
    } else {
        assert(plain + rest =~= rest);
        assert(plain + strip_escapes(rest, osc) =~= strip_escapes(rest, osc));
    }
}

proof fn lemma_decimal_params(n: nat)
    ensures
        csi_params_ok(decimal(n)),
    decreases n,
{
    let d = decimal(n);
    assert(!is_csi_final(crate::chars::digit_char(n % 10)));
    if n >= 10 {
        lemma_decimal_params(n / 10);
        assert forall|i: int| 0 <= i < d.len() implies !is_csi_final(#[trigger] d[i]) by {
            if i < d.len() - 1 {
                assert(d[i] == decimal(n / 10)[i]);
            }
        }
    } else {
        assert(!is_csi_final(crate::chars::digit_char(n)));
    }
}

proof fn lemma_params_concat(a: Seq<char>, b: Seq<char>)
    requires
        csi_params_ok(a),
        csi_params_ok(b),
    ensures
        csi_params_ok(a + b),
{
    assert forall|i: int| 0 <= i < (a + b).len() implies !is_csi_final(#[trigger] (a + b)[i]) by {
        if i < a.len() {
            assert((a + b)[i] == a[i]);
        } else {
            assert((a + b)[i] == b[i - a.len()]);
        }
    }
}

proof fn lemma_strip_color(color: Color, background: bool, rest: Seq<char>, osc: bool)
    ensures
        strip_escapes(ansi_color_spec(color, background) + rest, osc) == strip_escapes(rest, osc),
{
    let ext: nat = if background { 48 } else { 38 };
    let semi: Seq<char> = seq![';'];
    assert(csi_params_ok(semi));
    lemma_decimal_params(ext);
    match color {
        Color::Indexed(i) => {
            let mid: Seq<char> = seq![';', '5', ';'];
            assert(csi_params_ok(mid));
            lemma_decimal_params(i as nat);
            lemma_params_concat(decimal(ext), mid);
            lemma_params_concat(decimal(ext) + mid, decimal(i as nat));
            lemma_strip_sgr(decimal(ext) + mid + decimal(i as nat), rest, osc);
        },
        Color::Rgb(r, g, b) => {
            let mid: Seq<char> = seq![';', '2', ';'];
            assert(csi_params_ok(mid));
            lemma_decimal_params(r as nat);
            lemma_decimal_params(g as nat);
            lemma_decimal_params(b as nat);
            let p1 = decimal(ext) + mid;
            lemma_params_concat(decimal(ext), mid);
            let p2 = p1 + decimal(r as nat);
            lemma_params_concat(p1, decimal(r as nat));
            let p3 = p2 + semi;
            lemma_params_concat(p2, semi);
            let p4 = p3 + decimal(g as nat);
            lemma_params_concat(p3, decimal(g as nat));
            let p5 = p4 + semi;
            lemma_params_concat(p4, semi);
            let p6 = p5 + decimal(b as nat);
            lemma_params_concat(p5, decimal(b as nat));
            lemma_strip_sgr(p6, rest, osc);
        },
        _ => {
            lemma_decimal_params(basic_code(color) + if background { 10nat } else { 0nat });
            lemma_strip_sgr(decimal(basic_code(color) + if background { 10nat } else { 0nat }), rest, osc);
        },
    }
}

proof fn lemma_strip_optional_sgr(on: bool, params: Seq<char>, rest: Seq<char>, osc: bool)
    requires
        csi_params_ok(params),
    ensures
        strip_escapes((if on { sgr(params) } else { seq![] }) + rest, osc) == strip_escapes(rest, osc),
{
    if on {
        lemma_strip_sgr(params, rest, osc);
    } else {
        assert(Seq::<char>::empty() + rest =~= rest);
    }
}

proof fn lemma_strip_modifiers(m: Modifier, rest: Seq<char>, osc: bool)
    ensures
        strip_escapes(modifier_ansi_spec(m) + rest, osc) == strip_escapes(rest, osc),
{
    let s1: Seq<char> = seq!['1'];
    let s3: Seq<char> = seq!['3'];
    let s4: Seq<char> = seq!['4'];
    let s7: Seq<char> = seq!['7'];
    assert(csi_params_ok(s1) && csi_params_ok(s3) && csi_params_ok(s4) && csi_params_ok(s7));
    let a = if m.bold { sgr(s1) } else { seq![] };
    let b = if m.italic { sgr(s3) } else { seq![] };
    let c = if m.underlined { sgr(s4) } else { seq![] };
    let d = if m.reversed { sgr(s7) } else { seq![] };
    lemma_strip_optional_sgr(m.reversed, s7, rest, osc);
    lemma_strip_optional_sgr(m.underlined, s4, d + rest, osc);
    lemma_strip_optional_sgr(m.italic, s3, c + (d + rest), osc);
    lemma_strip_optional_sgr(m.bold, s1, b + (c + (d + rest)), osc);
    assert(modifier_ansi_spec(m) == a + b + c + d);
    assert(modifier_ansi_spec(m) + rest =~= a + (b + (c + (d + rest))));
}

proof fn lemma_strip_optional_color(color: Option<Color>, background: bool, rest: Seq<char>, osc: bool)
    ensures
        strip_escapes(
            (match color {
                Some(c) => ansi_color_spec(c, background),
                None => seq![],
            }) + rest,
            osc,
        ) == strip_escapes(rest, osc),
{
    match color {
        Some(c) => lemma_strip_color(c, background, rest, osc),
        None => assert(Seq::<char>::empty() + rest =~= rest),
    }
}

proof fn lemma_strip_style(style: Style, rest: Seq<char>, osc: bool)
    ensures
        strip_escapes(style_ansi(style) + rest, osc) == strip_escapes(rest, osc),
{
    let fg = match style.fg {
        Some(c) => ansi_color_spec(c, false),
        None => seq![],
    };
    let bg = match style.bg {
        Some(c) => ansi_color_spec(c, true),
        None => seq![],
    };
    let mr = modifier_ansi_spec(style.add_modifier) + rest;
    lemma_strip_modifiers(style.add_modifier, rest, osc);
    lemma_strip_optional_color(style.bg, true, mr, osc);
    lemma_strip_optional_color(style.fg, false, bg + mr, osc);
    assert(style_ansi(style) == fg + bg + modifier_ansi_spec(style.add_modifier));
    assert(style_ansi(style) + rest =~= fg + (bg + mr));
}

/// Rendering a segment adds only escape sequences: with them stripped (CSI
/// always, OSC or not), the rendered segment is its text again, for text
/// that holds no ESC of its own.
pub proof fn law_styling_only_adds_escapes(text: Seq<char>, style: TextStyle, osc: bool)
    requires
        forall|i: int| 0 <= i < text.len() ==> text[i] != esc(),
    ensures
        strip_escapes(styled_segment_text(text, style), osc) == text,
{
    let empty: Seq<char> = seq![];
    assert(strip_escapes(empty, osc) == empty);
    let zero: Seq<char> = seq!['0'];
    assert(csi_params_ok(zero));
    lemma_strip_sgr(zero, empty, osc);
    assert(sgr_reset() =~= sgr(zero) + empty);
    lemma_strip_plain(text, sgr_reset(), osc);
    lemma_strip_plain(text, empty, osc);
    assert(text + empty =~= text);
    let s = text_style_spec(style);
    if s != Style::spec_default() {
        lemma_strip_style(s, text + sgr_reset(), osc);
        assert(style_ansi(s) + text + sgr_reset() =~= style_ansi(s) + (text + sgr_reset()));
    }
}

} // verus!
