//! Transcript text written above the inline viewport: splitting it into
//! lines, measuring it in terminal rows, and the scroll-region sequences
//! used to insert it while the viewport is pinned to the bottom.
use vstd::prelude::*;

use crate::ansi::{strip_escape_chars, strip_escapes};
use crate::chars::{chars_of, decimal, extend_str, push_decimal, seqs_of, string_from, strings_from, strs_of};
use crate::extensions::join_lines;
use crate::lines::{lemma_normalized_has_no_cr, normalize_newline_chars, normalize_newlines, split_chars, split_on};
use crate::transcript::{clamp_rows, div_ceil_rows, logical_lines, rows_for};

verus! {

broadcast use vstd::string::group_string_axioms;

/// The lines of a transcript entry: newline-normalised pieces, without the
/// empty piece after a final newline; never empty.
pub fn transcript_lines(text: &str) -> (r: Vec<String>)
    ensures
        strs_of(r@) == logical_lines(text@),
        r.len() >= 1,
{
    let t = chars_of(text);
    let n = normalize_newline_chars(t.as_slice());
    let mut parts = split_chars(n.as_slice(), '\n');
    if n.len() > 0 && n[n.len() - 1] == '\n' && parts.len() > 1 {
        let ghost before = parts@;
        parts.pop();
        assert(seqs_of(parts@) =~= seqs_of(before).drop_last());
    }
    assert(parts.len() >= 1);
    let r = strings_from(&parts);
    assert(strs_of(r@).len() == r@.len());
    r
}

/// Removes CSI escape sequences (`ESC [ ... final`).
pub fn strip_ansi(text: &str) -> (r: String)
    ensures
        r@ == strip_escapes(text@, false),
{
    let t = chars_of(text);
    string_from(strip_escape_chars(t.as_slice(), false).as_slice())
}

/// The number of visible characters (CSI sequences removed).
pub open spec fn visible_width_spec(text: Seq<char>) -> nat {
    strip_escapes(text, false).len()
}

pub fn visible_width(text: &str) -> (r: usize)
    ensures
        r == visible_width_spec(text@),
{
    let t = chars_of(text);
    strip_escape_chars(t.as_slice(), false).len()
}

/// The sum over `lines` of the rows each takes at `width` columns.
pub open spec fn lines_rows(lines: Seq<Seq<char>>, width: nat) -> nat
    decreases lines.len(),
{
    if lines.len() == 0 {
        0
    } else {
        lines_rows(lines.drop_last(), width) + rows_for(visible_width_spec(lines.last()), width)
    }
}

/// How many terminal rows `lines` take at `width` columns, clamped to
/// `1..=u16::MAX`.
pub fn rendered_line_count(lines: &[String], width: usize) -> (r: u16)
    requires
        width >= 1,
    ensures
        r == clamp_rows(lines_rows(strs_of(lines@), width as nat)),
{
    let ghost ls = strs_of(lines@);
    let mut acc: usize = 0;
    let mut i: usize = 0;
    while i < lines.len()
        invariant
            i <= lines.len(),
            width >= 1,
            ls == strs_of(lines@),
            acc as nat == (if lines_rows(ls.take(i as int), width as nat) > 65536 { 65536 } else { lines_rows(ls.take(i as int), width as nat) }),
        decreases lines.len() - i,
    {
        let vw = visible_width(lines[i].as_str());
        let rows = div_ceil_rows(vw, width);
        assert(ls.take(i + 1).drop_last() =~= ls.take(i as int));
        assert(ls.take(i + 1).last() == lines@[i as int]@);
        if acc >= 65536 || rows >= 65536 - acc {
            acc = 65536;
        } else {
            acc = acc + rows;
        }
        i += 1;
    }
    assert(ls.take(lines.len() as int) =~= ls);
    if acc == 0 { 1 } else if acc > 65535 { 65535 } else { acc as u16 }
}

/// `ESC [ top+1 ; bottom+1 r`: confine scrolling to rows `top..=bottom`.
pub open spec fn scroll_region_spec(top: u16, bottom: u16) -> Seq<char> {
    let t: nat = if top == u16::MAX { top as nat } else { top as nat + 1 };
    let b: nat = if bottom == u16::MAX { bottom as nat } else { bottom as nat + 1 };
    seq!['\u{1b}', '['] + decimal(t) + seq![';'] + decimal(b) + seq!['r']
}

pub fn set_scroll_region(top: u16, bottom: u16) -> (r: String)
    ensures
        r@ == scroll_region_spec(top, bottom),
{
    let mut out: Vec<char> = Vec::new();
    out.push('\u{1b}');
    out.push('[');
    push_decimal(&mut out, if top == u16::MAX { top as u64 } else { top as u64 + 1 });
    out.push(';');
    push_decimal(&mut out, if bottom == u16::MAX { bottom as u64 } else { bottom as u64 + 1 });
    out.push('r');
    assert(out@ =~= scroll_region_spec(top, bottom));
    string_from(out.as_slice())
}

/// `ESC [ r`: scrolling over the whole screen again.
pub fn reset_scroll_region() -> (r: &'static str)
    ensures
        r@ == seq!['\u{1b}', '[', 'r'],
{
    let r = "\x1b[r";
    proof {
        reveal_strlit("\x1b[r");
    }
    r
}

pub(crate) proof fn lemma_split_rejoins(s: Seq<char>)
    ensures
        join_lines(split_on(s, '\n')) == s,
        split_on(s, '\n').len() >= 1,
        (forall|k: int| 0 <= k < s.len() ==> s[k] != '\r') ==> forall|i: int, j: int|
            0 <= i < split_on(s, '\n').len() && 0 <= j < split_on(s, '\n')[i].len() ==> #[trigger] split_on(s, '\n')[i][j]
                != '\n' && split_on(s, '\n')[i][j] != '\r',
    decreases s.len(),
{
    if s.len() == 0 {
        assert(join_lines(seq![Seq::<char>::empty()]) == Seq::<char>::empty());
    } else {
        let prev = split_on(s.drop_last(), '\n');
        lemma_split_rejoins(s.drop_last());
        reveal_strlit("\n");
        assert(s =~= s.drop_last().push(s.last()));
        let cur = split_on(s, '\n');
        if s.last() == '\n' {
            assert(cur == prev.push(seq![]));
            assert(cur.drop_last() =~= prev);
            assert(join_lines(cur) == join_lines(prev) + "\n"@ + Seq::<char>::empty());
            assert(join_lines(cur) =~= s);
        } else {
            let x = prev.last().push(s.last());
            assert(cur == prev.update(prev.len() - 1, x));
            if prev.len() == 1 {
                assert(join_lines(cur) == x);
                assert(join_lines(prev) == prev[0]);
                assert(join_lines(cur) =~= s);
            } else {
                assert(cur.drop_last() =~= prev.drop_last());
                assert(join_lines(cur) == join_lines(prev.drop_last()) + "\n"@ + x);
                assert(join_lines(prev) == join_lines(prev.drop_last()) + "\n"@ + prev.last());
                assert(join_lines(cur) =~= s);
            }
        }
        if forall|k: int| 0 <= k < s.len() ==> s[k] != '\r' {
            assert forall|k: int| 0 <= k < s.drop_last().len() implies s.drop_last()[k] != '\r' by {
                assert(s.drop_last()[k] == s[k]);
            }
            assert forall|i: int, j: int| 0 <= i < cur.len() && 0 <= j < cur[i].len() implies #[trigger] cur[i][j] != '\n'
                && cur[i][j] != '\r' by {
                if s.last() == '\n' {
                    if i < prev.len() {
                        assert(cur[i] == prev[i]);
                    }
                } else {
                    if i < prev.len() - 1 {
                        assert(cur[i] == prev[i]);
                    } else {
                        assert(cur[i] == prev.last().push(s.last()));
                        if j < prev.last().len() {
                            assert(cur[i][j] == prev[prev.len() - 1][j]);
                        } else {
                            assert(cur[i][j] == s[s.len() - 1]);
                        }
                    }
                }
            }
        }
    }
}

/// The lines of a transcript entry put back together: there is at least one,
/// none holds a line break (`'\n'` or `'\r'`), and joined with `'\n'` they
/// give the newline-normalised text without one final newline.
pub proof fn law_transcript_lines_rejoin(text: Seq<char>)
    ensures
        logical_lines(text).len() >= 1,
        join_lines(logical_lines(text)) == {
            let n = normalize_newlines(text);
            if n.len() > 0 && n.last() == '\n' { n.drop_last() } else { n }
        },
        forall|i: int, j: int|
            0 <= i < logical_lines(text).len() && 0 <= j < logical_lines(text)[i].len() ==> #[trigger] logical_lines(
                text,
            )[i][j] != '\n' && logical_lines(text)[i][j] != '\r',
{
    let n = normalize_newlines(text);
    lemma_normalized_has_no_cr(text);
    lemma_split_rejoins(n);
    let parts = split_on(n, '\n');
    if n.len() > 0 && n.last() == '\n' {
        lemma_split_rejoins(n.drop_last());
        assert forall|k: int| 0 <= k < n.drop_last().len() implies n.drop_last()[k] != '\r' by {
            assert(n.drop_last()[k] == n[k]);
        }
        assert(parts == split_on(n.drop_last(), '\n').push(seq![]));
        assert(parts.drop_last() =~= split_on(n.drop_last(), '\n'));
    }
}

} // verus!
