//! Transcript text measurement and decoration: stripping ANSI sequences,
//! display widths, wrapped-row counts, run-time lines.
use vstd::prelude::*;

use crate::ansi::{strip_escape_chars, strip_escapes, wrap_ansi, wrap_ansi_chars};
use crate::chars::{chars_of, seqs_of, string_from, strings_from, strs_of};
use crate::duration::{format_runtime, runtime_text};
use crate::lines::{normalize_newline_chars, normalize_newlines, split_chars, split_on};
use crate::style::{render_semantic, styled_segment_text, TextStyle, UiStyle};
use crate::width::{str_width, unicode_str_width};

verus! {

broadcast use vstd::string::group_string_axioms;

/// Removes CSI and OSC escape sequences.
pub fn strip_ansi(text: &str) -> (r: String)
    ensures
        r@ == strip_escapes(text@, true),
{
    let t = chars_of(text);
    string_from(strip_escape_chars(t.as_slice(), true).as_slice())
}

/// The terminal width of the visible text.
pub open spec fn display_width_spec(text: Seq<char>) -> nat {
    unicode_str_width(strip_escapes(text, true)) as nat
}

pub fn display_width(text: &str) -> (r: usize)
    ensures
        r == display_width_spec(text@),
{
    let s = strip_ansi(text);
    str_width(s.as_str())
}

/// Wraps styled text to `width` terminal columns.
pub fn wrap_ansi_to_width(text: &str, width: u16) -> (r: Vec<String>)
    ensures
        strs_of(r@) == wrap_ansi(text@, width as nat),
{
    let t = chars_of(text);
    let rows = wrap_ansi_chars(t.as_slice(), width);
    strings_from(&rows)
}

/// The logical lines of text: split at newlines (after normalising them),
/// without the empty piece after a final newline.
pub open spec fn logical_lines(text: Seq<char>) -> Seq<Seq<char>> {
    let n = normalize_newlines(text);
    let parts = split_on(n, '\n');
    if n.len() > 0 && n.last() == '\n' && parts.len() > 1 { parts.drop_last() } else { parts }
}

/// Terminal rows a line of `w` columns takes at `width` columns: at least one.
pub open spec fn rows_for(w: nat, width: nat) -> nat {
    let v: nat = if w == 0 { 1 } else { w };
    ((v + width - 1) as nat) / width
}

/// The sum of the rows of each line, each line measured by `measure`.
pub open spec fn total_rows(lines: Seq<Seq<char>>, width: nat, measure: spec_fn(Seq<char>) -> nat) -> nat
    decreases lines.len(),
{
    if lines.len() == 0 {
        0
    } else {
        total_rows(lines.drop_last(), width, measure) + rows_for(measure(lines.last()), width)
    }
}

/// `n` clamped to `1..=u16::MAX`.
pub open spec fn clamp_rows(n: nat) -> u16 {
    if n == 0 { 1 } else if n > u16::MAX { u16::MAX } else { n as u16 }
}

pub fn div_ceil_rows(w: usize, width: usize) -> (r: usize)
    requires
        width >= 1,
    ensures
        r == rows_for(w as nat, width as nat),
{
    let v = if w == 0 { 1 } else { w };
    let q = v / width;
    assert(v % width != 0 ==> q < usize::MAX) by (nonlinear_arith)
        requires
            width >= 1,
            q == v / width,
            v <= usize::MAX,
    ;
    let r = if v % width == 0 { q } else { q + 1 };
    assert(r as int == (v as int + width as int - 1) / (width as int)) by (nonlinear_arith)
        requires
            width >= 1,
            q as int == v as int / width as int,
            (v as int % width as int == 0) ==> r == q,
            (v as int % width as int != 0) ==> r as int == q as int + 1,
    ;
    r
}

/// How many terminal rows `text` takes at `width` columns (at least 1 row,
/// at most `u16::MAX`).
pub fn rendered_line_count(text: &str, width: u16) -> (r: u16)
    ensures
        r == clamp_rows(
            total_rows(
                logical_lines(text@),
                if width == 0 { 1 } else { width as nat },
                |l: Seq<char>| display_width_spec(l),
            ),
        ),
{
    let w: usize = if width == 0 { 1 } else { width as usize };
    let t = chars_of(text);
    let n = normalize_newline_chars(t.as_slice());
    let mut parts = split_chars(n.as_slice(), '\n');
    if n.len() > 0 && n[n.len() - 1] == '\n' && parts.len() > 1 {
        let ghost before = parts@;
        parts.pop();
        assert(seqs_of(parts@) =~= seqs_of(before).drop_last());
    }
    let ghost lines = logical_lines(text@);
    let ghost measure = |l: Seq<char>| display_width_spec(l);
    assert(seqs_of(parts@) == lines);
    let mut acc: usize = 0;
    let mut i: usize = 0;
    while i < parts.len()
        invariant
            i <= parts.len(),
            w >= 1,
            seqs_of(parts@) == lines,
            measure == (|l: Seq<char>| display_width_spec(l)),
            acc as nat == (if total_rows(lines.take(i as int), w as nat, measure) > 65536 { 65536 } else { total_rows(lines.take(i as int), w as nat, measure) }),
        decreases parts.len() - i,
    {
        let line = string_from(parts[i].as_slice());
        let dw = display_width(line.as_str());
        let rows = div_ceil_rows(dw, w);
        assert(lines.take(i + 1).drop_last() =~= lines.take(i as int));
        assert(lines.take(i + 1).last() == line@);
        assert(measure(line@) == dw as nat);
        assert(total_rows(lines.take(i + 1), w as nat, measure) == total_rows(lines.take(i as int), w as nat, measure) + rows as nat);
        if acc >= 65536 || rows >= 65536 - acc {
            acc = 65536;
        } else {
            acc = acc + rows;
        }
        i += 1;
    }
    assert(lines.take(parts.len() as int) =~= lines);
    if acc == 0 { 1 } else if acc > 65535 { 65535 } else { acc as u16 }
}

/// The transcript line recording a cell's run time: `[1.23ms]` in the
/// run-time style.
pub open spec fn runtime_line_spec(duration_ns: nat) -> Seq<char> {
    styled_segment_text(seq!['['] + runtime_text(duration_ns) + seq![']'], TextStyle::Semantic(UiStyle::Runtime))
}

pub fn runtime_line(duration_ns: u64) -> (r: String)
    ensures
        r@ == runtime_line_spec(duration_ns as nat),
{
    let text = format_runtime(duration_ns);
    let mut v: Vec<char> = Vec::new();
    v.push('[');
    let t = chars_of(text.as_str());
    crate::chars::extend_chars(&mut v, t.as_slice());
    v.push(']');
    assert(v@ =~= seq!['['] + runtime_text(duration_ns as nat) + seq![']']);
    string_from(render_semantic(v.as_slice(), UiStyle::Runtime).as_slice())
}

/// A line of `w` columns takes the fewest rows of `width` columns that hold
/// it, and at least one row even when it is empty: `r` rows with
/// `(r - 1) * width < max(w, 1) <= r * width`.
pub proof fn law_rows_for_is_ceiling(w: nat, width: nat)
    requires
        width >= 1,
    ensures
        ({
            let r = rows_for(w, width);
            let v: nat = if w == 0 { 1 } else { w };
            &&& r >= 1
            &&& v <= r * width
            &&& (r - 1) * width < v
        }),
{
    let r = rows_for(w, width);
    let v: nat = if w == 0 { 1 } else { w };
    let x: int = v + width - 1;
    vstd::arithmetic::div_mod::lemma_fundamental_div_mod(x, width as int);
    assert(0 <= x % (width as int) < width);
    assert(r == x / (width as int));
    assert(v <= r * width && (r - 1) * width < v && r >= 1) by (nonlinear_arith)
        requires
            x == width * r + x % (width as int),
            0 <= x % (width as int) < width,
            x == v + width - 1,
            v >= 1,
            width >= 1,
            r >= 0;
}

} // verus!
