//! ANSI escape sequences in rendered text: recognising CSI (`ESC [ ... final`)
//! and OSC (`ESC ] ... BEL` or `ESC ] ... ESC \`) sequences, stripping them,
//! tracking the active SGR style, and wrapping styled text to a column width.
use vstd::prelude::*;

use crate::chars::{seqs_of, slice_chars, extend_chars};
use crate::lines::{normalize_newlines, normalize_newline_chars, split_on, split_chars};
use crate::width::{col_width, column_width};

verus! {

pub open spec fn esc() -> char {
    '\u{1b}'
}

/// A CSI final byte.
pub open spec fn is_csi_final(c: char) -> bool {
    '@' <= c && c <= '~'
}

/// How many characters a CSI body consumes: through the first final byte,
/// or everything when there is none.
pub open spec fn csi_body_len(t: Seq<char>) -> nat
    decreases t.len(),
{
    if t.len() == 0 {
        0
    } else if is_csi_final(t[0]) {
        1
    } else {
        1 + csi_body_len(t.skip(1))
    }
}

/// How many characters an OSC body consumes: through the first BEL or the
/// first `'\\'` right after an ESC, or everything when there is none.
pub open spec fn osc_body_len(t: Seq<char>, prev_esc: bool) -> nat
    decreases t.len(),
{
    if t.len() == 0 {
        0
    } else if t[0] == '\u{7}' || (prev_esc && t[0] == '\\') {
        1
    } else {
        1 + osc_body_len(t.skip(1), t[0] == esc())
    }
}

pub proof fn lemma_csi_body_len(t: Seq<char>)
    ensures
        csi_body_len(t) <= t.len(),
    decreases t.len(),
{
    if t.len() > 0 && !is_csi_final(t[0]) {
        lemma_csi_body_len(t.skip(1));
    }
}

pub proof fn lemma_osc_body_len(t: Seq<char>, prev_esc: bool)
    ensures
        osc_body_len(t, prev_esc) <= t.len(),
    decreases t.len(),
{
    if t.len() > 0 && !(t[0] == '\u{7}' || (prev_esc && t[0] == '\\')) {
        lemma_osc_body_len(t.skip(1), t[0] == esc());
    }
}

/// The length of the escape sequence that starts right after an ESC
/// (introducer included), when `t` starts one; OSC only when `osc` holds.
pub open spec fn escape_len(t: Seq<char>, osc: bool) -> Option<nat> {
    if t.len() > 0 && t[0] == '[' {
        Some(1 + csi_body_len(t.skip(1)))
    } else if osc && t.len() > 0 && t[0] == ']' {
        Some(1 + osc_body_len(t.skip(1), false))
    } else {
        None
    }
}

pub proof fn lemma_escape_len(t: Seq<char>, osc: bool)
    ensures
        escape_len(t, osc) matches Some(k) ==> 1 <= k <= t.len(),
{
    if t.len() > 0 {
        lemma_csi_body_len(t.skip(1));
        lemma_osc_body_len(t.skip(1), false);
    }
}

/// `s` with its escape sequences removed (CSI always, OSC when `osc`).
pub open spec fn strip_escapes(s: Seq<char>, osc: bool) -> Seq<char>
    decreases s.len(),
{
    if s.len() == 0 {
        seq![]
    } else if s[0] == esc() && escape_len(s.skip(1), osc) is Some {
        let k = escape_len(s.skip(1), osc)->0;
        proof {
            lemma_escape_len(s.skip(1), osc);
        }
        strip_escapes(s.skip(1 + k as int), osc)
    } else {
        seq![s[0]] + strip_escapes(s.skip(1), osc)
    }
}

fn csi_body_length(s: &[char], start: usize) -> (n: usize)
    requires
        start <= s.len(),
    ensures
        n == csi_body_len(s@.skip(start as int)),
{
    let mut i = start;
    assert(s@.skip(start as int) =~= s@.skip(i as int));
    while i < s.len()
        invariant
            start <= i <= s.len(),
            csi_body_len(s@.skip(start as int)) == (i - start) + csi_body_len(
                s@.skip(i as int),
            ),
        decreases s.len() - i,
    {
        if '@' <= s[i] && s[i] <= '~' {
            return i - start + 1;
        }
        assert(s@.skip(i as int).skip(1) =~= s@.skip(i + 1));
        i += 1;
    }
    i - start
}

fn osc_body_length(s: &[char], start: usize) -> (n: usize)
    requires
        start <= s.len(),
    ensures
        n == osc_body_len(s@.skip(start as int), false),
{
    let mut i = start;
    let mut prev_esc = false;
    while i < s.len()
        invariant
            start <= i <= s.len(),
            osc_body_len(s@.skip(start as int), false) == (i - start) + osc_body_len(
                s@.skip(i as int),
                prev_esc,
            ),
        decreases s.len() - i,
    {
        if s[i] == '\u{7}' || (prev_esc && s[i] == '\\') {
            return i - start + 1;
        }
        assert(s@.skip(i as int).skip(1) =~= s@.skip(i + 1));
        prev_esc = s[i] == '\u{1b}';
        i += 1;
    }
    i - start
}

/// The escape-sequence length at `s[start..]` (`start` just after an ESC).
pub fn escape_length(s: &[char], start: usize, osc: bool) -> (r: Option<usize>)
    requires
        start <= s.len(),
    ensures
        r matches Some(k) ==> escape_len(s@.skip(start as int), osc) == Some(k as nat),
        r is None ==> escape_len(s@.skip(start as int), osc) is None,
{
    proof {
        lemma_escape_len(s@.skip(start as int), osc);
    }
    if start < s.len() && s[start] == '[' {
        assert(s@.skip(start as int).skip(1) =~= s@.skip(start + 1));
        let n = csi_body_length(s, start + 1);
        Some(1 + n)
    } else if osc && start < s.len() && s[start] == ']' {
        assert(s@.skip(start as int).skip(1) =~= s@.skip(start + 1));
        let n = osc_body_length(s, start + 1);
        Some(1 + n)
    } else {
        None
    }
}

/// Removes escape sequences from `s` (CSI always, OSC when `osc`).
pub fn strip_escape_chars(s: &[char], osc: bool) -> (r: Vec<char>)
    ensures
        r@ == strip_escapes(s@, osc),
{
    let mut r: Vec<char> = Vec::new();
    let mut i: usize = 0;
    assert(s@.skip(0) =~= s@);
    while i < s.len()
        invariant
            i <= s.len(),
            r@ + strip_escapes(s@.skip(i as int), osc) == strip_escapes(s@, osc),
        decreases s.len() - i,
    {
        let ghost rest = s@.skip(i as int);
        assert(rest.skip(1) =~= s@.skip(i + 1));
        if s[i] == '\u{1b}' {
            match escape_length(s, i + 1, osc) {
                Some(k) => {
                    proof {
                        lemma_escape_len(s@.skip(i + 1), osc);
                    }
                    assert(rest.skip(1 + k) =~= s@.skip(i + 1 + k));
                    i = i + 1 + k;
                    continue;
                },
                None => {},
            }
        }
        r.push(s[i]);
        assert(r@ + strip_escapes(s@.skip(i + 1), osc) =~= strip_escapes(s@, osc));
        i += 1;
    }
    r
}

/// Whether `p` is a parameter that `u16` parsing reads as zero
/// (one or more `'0'`, optionally after a `'+'`).
pub open spec fn is_zero_param(p: Seq<char>) -> bool {
    ||| (p.len() > 0 && forall|i: int| 0 <= i < p.len() ==> p[i] == '0')
    ||| (p.len() > 1 && p[0] == '+' && forall|i: int| 1 <= i < p.len() ==> p[i] == '0')
}

/// The SGR state after the escape sequence body `sequence` (the text after
/// ESC): a reset (`ESC[m` or any zero parameter) clears it, any other SGR
/// appends the sequence, anything else leaves it unchanged.
pub open spec fn next_active_sgr(sequence: Seq<char>, active: Seq<char>) -> Seq<char> {
    if !(sequence.len() > 0 && sequence[0] == '[' && sequence.last() == 'm') {
        active
    } else {
        let params = sequence.subrange(1, sequence.len() - 1);
        if params.len() == 0 || exists|j: int|
            0 <= j < split_on(params, ';').len() && is_zero_param(
                #[trigger] split_on(params, ';')[j],
            ) {
            seq![]
        } else {
            active + seq![esc()] + sequence
        }
    }
}

fn zero_param(p: &[char]) -> (r: bool)
    ensures
        r == is_zero_param(p@),
{
    if p.len() == 0 {
        return false;
    }
    let start: usize = if p[0] == '+' { 1 } else { 0 };
    if start == p.len() {
        return false;
    }
    let mut i = start;
    while i < p.len()
        invariant
            p.len() > 0,
            start <= 1,
            start < p.len(),
            (start == 1) == (p@[0] == '+'),
            start <= i <= p.len(),
            forall|j: int| start <= j < i ==> p@[j] == '0',
        decreases p.len() - i,
    {
        if p[i] != '0' {
            return false;
        }
        i += 1;
    }
    true
}

/// Updates the active SGR string after reading the sequence `sequence`.
pub fn update_active_sgr(sequence: &[char], active: &mut Vec<char>)
    ensures
        final(active)@ == next_active_sgr(sequence@, old(active)@),
{
    let n = sequence.len();
    if !(n > 0 && sequence[0] == '[' && sequence[n - 1] == 'm') {
        return;
    }
    let params = slice_chars(sequence, 1, n - 1);
    let ghost ps = split_on(params@, ';');
    let mut zero = params.len() == 0;
    if !zero {
        let parts = split_chars(params.as_slice(), ';');
        let mut k: usize = 0;
        while k < parts.len() && !zero
            invariant
                k <= parts.len(),
                seqs_of(parts@) == ps,
                zero ==> exists|j: int| 0 <= j < ps.len() && is_zero_param(#[trigger] ps[j]),
                !zero ==> forall|j: int| 0 <= j < k ==> !is_zero_param(#[trigger] ps[j]),
            decreases parts.len() - k,
        {
            assert(ps[k as int] == parts@[k as int]@);
            if zero_param(parts[k].as_slice()) {
                zero = true;
            }
            k += 1;
        }
    }
    assert(zero == (params@.len() == 0 || exists|j: int| 0 <= j < ps.len() && is_zero_param(#[trigger] ps[j])));
    if zero {
        active.clear();
        assert(active@ =~= seq![]);
    } else {
        active.push('\u{1b}');
        extend_chars(active, sequence);
        assert(active@ =~= old(active)@ + seq![esc()] + sequence@);
    }
}

/// Closing a wrapped row: a styled, non-empty row gets a trailing reset.
pub open spec fn close_row(current: Seq<char>, active: Seq<char>) -> Seq<char> {
    if active.len() > 0 && current.len() > 0 {
        current + seq![esc(), '[', '0', 'm']
    } else {
        current
    }
}

/// The rows of `s` (already newline-normalised) wrapped at `width` columns,
/// continuing from the state `rows`/`current`/`cw`/`active`: newlines end a
/// row, escape sequences take no columns and are replayed at the start of
/// each following row, and a character that would overflow a non-empty row
/// starts a new one.
pub open spec fn wrap_from(
    s: Seq<char>,
    width: nat,
    rows: Seq<Seq<char>>,
    current: Seq<char>,
    cw: nat,
    active: Seq<char>,
) -> Seq<Seq<char>>
    decreases s.len(),
{
    if s.len() == 0 {
        if current.len() > 0 || rows.len() == 0 {
            rows.push(close_row(current, active))
        } else {
            rows
        }
    } else if s[0] == '\n' {
        wrap_from(s.skip(1), width, rows.push(close_row(current, active)), active, 0, active)
    } else if s[0] == esc() && escape_len(s.skip(1), true) is Some {
        let k = escape_len(s.skip(1), true)->0;
        proof {
            lemma_escape_len(s.skip(1), true);
        }
        let sequence = s.subrange(1, 1 + k as int);
        wrap_from(
            s.skip(1 + k as int),
            width,
            rows,
            current + seq![esc()] + sequence,
            cw,
            next_active_sgr(sequence, active),
        )
    } else {
        let w = if s[0] == esc() { 0 } else { col_width(s[0]) };
        if w > 0 && cw > 0 && cw + w > width {
            wrap_from(
                s.skip(1),
                width,
                rows.push(close_row(current, active)),
                active.push(s[0]),
                w,
                active,
            )
        } else {
            wrap_from(s.skip(1), width, rows, current.push(s[0]), cw + w, active)
        }
    }
}

/// `text` wrapped to `width` columns (at least one) with ANSI styles kept.
pub open spec fn wrap_ansi(text: Seq<char>, width: nat) -> Seq<Seq<char>> {
    wrap_from(
        normalize_newlines(text),
        if width == 0 { 1 } else { width },
        seq![],
        seq![],
        0,
        seq![],
    )
}

fn push_reset(v: &mut Vec<char>)
    ensures
        final(v)@ == old(v)@ + seq![esc(), '[', '0', 'm'],
{
    v.push('\u{1b}');
    v.push('[');
    v.push('0');
    v.push('m');
    assert(v@ =~= old(v)@ + seq![esc(), '[', '0', 'm']);
}

fn close_current(current: Vec<char>, active: &Vec<char>) -> (r: Vec<char>)
    ensures
        r@ == close_row(current@, active@),
{
    let mut c = current;
    if active.len() > 0 && c.len() > 0 {
        push_reset(&mut c);
    }
    c
}

/// Wraps styled text to `width` terminal columns.
pub fn wrap_ansi_chars(text: &[char], width: u16) -> (rows: Vec<Vec<char>>)
    ensures
        seqs_of(rows@) == wrap_ansi(text@, width as nat),
{
    let ghost w0 = width;
    let width: usize = if width == 0 { 1 } else { width as usize };
    let s = normalize_newline_chars(text);
    let mut rows: Vec<Vec<char>> = Vec::new();
    let mut current: Vec<char> = Vec::new();
    let mut cw: usize = 0;
    let mut active: Vec<char> = Vec::new();
    let mut i: usize = 0;
    assert(s@.skip(0) =~= s@);
    assert(seqs_of(rows@) =~= Seq::<Seq<char>>::empty());
    assert(current@ =~= Seq::<char>::empty());
    assert(active@ =~= Seq::<char>::empty());
    while i < s.len()
        invariant
            i <= s.len(),
            width >= 1,
            wrap_from(s@.skip(i as int), width as nat, seqs_of(rows@), current@, cw as nat, active@)
                == wrap_ansi(text@, w0 as nat),
            width as nat == (if w0 == 0 { 1 } else { w0 as nat }),
            s@ == normalize_newlines(text@),
        decreases s.len() - i,
    {
        let ghost rest = s@.skip(i as int);
        assert(rest.skip(1) =~= s@.skip(i + 1));
        let c = s[i];
        if c == '\n' {
            let closed = close_current(current, &active);
            let ghost old_rows = rows@;
            rows.push(closed);
            assert(seqs_of(rows@) =~= seqs_of(old_rows).push(closed@));
            current = slice_chars(active.as_slice(), 0, active.len());
            assert(active@.subrange(0, active@.len() as int) =~= active@);
            cw = 0;
            i += 1;
            continue;
        }
        if c == '\u{1b}' {
            match escape_length(s.as_slice(), i + 1, true) {
                Some(k) => {
                    proof {
                        lemma_escape_len(s@.skip(i + 1), true);
                    }
                    let sequence = slice_chars(s.as_slice(), i + 1, i + 1 + k);
                    assert(sequence@ =~= rest.subrange(1, 1 + k as int));
                    let ghost old_current = current@;
                    current.push('\u{1b}');
                    extend_chars(&mut current, sequence.as_slice());
                    assert(current@ =~= old_current + seq![esc()] + sequence@);
                    update_active_sgr(sequence.as_slice(), &mut active);
                    assert(rest.skip(1 + k) =~= s@.skip(i + 1 + k));
                    i = i + 1 + k;
                    continue;
                },
                None => {},
            }
        }
        let w: usize = if c == '\u{1b}' { 0 } else { column_width(c) };
        let overflow = w > 0 && cw > 0 && (cw > width || w > width - cw);
        if overflow {
            let closed = close_current(current, &active);
            let ghost old_rows = rows@;
            rows.push(closed);
            assert(seqs_of(rows@) =~= seqs_of(old_rows).push(closed@));
            current = slice_chars(active.as_slice(), 0, active.len());
            assert(active@.subrange(0, active@.len() as int) =~= active@);
            current.push(c);
            cw = w;
        } else {
            current.push(c);
            cw = cw + w;
        }
        i += 1;
    }
    if current.len() > 0 || rows.len() == 0 {
        let closed = close_current(current, &active);
        let ghost old_rows = rows@;
        rows.push(closed);
        assert(seqs_of(rows@) =~= seqs_of(old_rows).push(closed@));
    }
    rows
}

/// Whether `sequence` (the text after ESC) is an SGR sequence (`[`, the
/// parameters, `m`) with at least one parameter and none of them zero: one
/// that sets a style rather than resetting it.
pub open spec fn is_style_sgr(sequence: Seq<char>) -> bool {
    &&& sequence.len() > 2
    &&& sequence[0] == '['
    &&& sequence.last() == 'm'
    &&& forall|j: int| 0 <= j < split_on(sequence.subrange(1, sequence.len() - 1), ';').len()
        ==> !is_zero_param(#[trigger] split_on(sequence.subrange(1, sequence.len() - 1), ';')[j])
}

/// A style-setting SGR adds to the active styles: what was active stays, as
/// a prefix, and the new sequence follows it behind an ESC. A reset (`ESC[m`,
/// or any zero parameter) clears them, and a sequence that is no SGR leaves
/// them as they were.
pub proof fn law_sgr_styles_accumulate(sequence: Seq<char>, active: Seq<char>)
    ensures
        is_style_sgr(sequence) ==> next_active_sgr(sequence, active) == active + seq![esc()] + sequence,
        is_style_sgr(sequence) ==> active.is_prefix_of(next_active_sgr(sequence, active)),
        sequence == seq!['[', 'm'] ==> next_active_sgr(sequence, active) == Seq::<char>::empty(),
        sequence.len() > 2 && sequence[0] == '[' && sequence.last() == 'm' && (exists|j: int|
            0 <= j < split_on(sequence.subrange(1, sequence.len() - 1), ';').len() && is_zero_param(
                #[trigger] split_on(sequence.subrange(1, sequence.len() - 1), ';')[j],
            )) ==> next_active_sgr(sequence, active) == Seq::<char>::empty(),
        !(sequence.len() > 0 && sequence[0] == '[' && sequence.last() == 'm')
            ==> next_active_sgr(sequence, active) == active,
{
    if is_style_sgr(sequence) {
        let next = active + seq![esc()] + sequence;
        assert(next.subrange(0, active.len() as int) =~= active);
    }
    if sequence == seq!['[', 'm'] {
        assert(sequence.subrange(1, sequence.len() - 1).len() == 0);
    }
}

/// Two style-setting SGRs in a row are both kept, in the order they came:
/// a row that continues after them replays the first and then the second.
pub proof fn law_sgr_styles_replay_in_order(first: Seq<char>, second: Seq<char>, active: Seq<char>)
    requires
        is_style_sgr(first),
        is_style_sgr(second),
    ensures
        next_active_sgr(second, next_active_sgr(first, active))
            == active + seq![esc()] + first + seq![esc()] + second,
{
    law_sgr_styles_accumulate(first, active);
    law_sgr_styles_accumulate(second, next_active_sgr(first, active));
}

/// The terminal columns of the characters of `s`, each as wide as
/// `col_width` says.
pub open spec fn cols(s: Seq<char>) -> nat
    decreases s.len(),
{
    if s.len() == 0 { 0 } else { cols(s.drop_last()) + col_width(s.last()) }
}

/// A row fits `width` columns, or is wider only by a single character of
/// its own that is wider than the row may be.
pub open spec fn row_fits(row: Seq<char>, width: nat) -> bool {
    cols(row) <= width || exists|k: int| 0 <= k < row.len() && cols(row) == col_width(#[trigger] row[k])
}

/// Row `next` starts where `row` could take no more: `next` begins with a
/// character of nonzero width that would have taken `row` past the width.
pub open spec fn breaks_before(row: Seq<char>, next: Seq<char>, width: nat) -> bool {
    &&& next.len() > 0
    &&& cols(row) > 0
    &&& col_width(next[0]) > 0
    &&& cols(row) + col_width(next[0]) > width
}

proof fn lemma_row_fits_push(row: Seq<char>, width: nat, c: char)
    requires
        row_fits(row, width),
        col_width(c) == 0 || cols(row) == 0 || cols(row) + col_width(c) <= width,
    ensures
        row_fits(row.push(c), width),
{
    let r = row.push(c);
    assert(r.drop_last() =~= row);
    if cols(row) == 0 && col_width(c) > 0 {
        assert(r[row.len() as int] == c);
    } else if cols(row) > width {
        let k = choose|k: int| 0 <= k < row.len() && cols(row) == col_width(#[trigger] row[k]);
        assert(r[k] == row[k]);
    }
}

proof fn lemma_wrap_plain(s: Seq<char>, width: nat, rows: Seq<Seq<char>>, current: Seq<char>, cw: nat)
    requires
        width >= 1,
        forall|i: int| 0 <= i < s.len() ==> s[i] != esc() && s[i] != '\n',
        cw == cols(current),
        row_fits(current, width),
        forall|i: int| 0 <= i < rows.len() ==> row_fits(#[trigger] rows[i], width),
        forall|i: int| 0 <= i < rows.len() - 1 ==> breaks_before(#[trigger] rows[i], rows[i + 1], width),
        rows.len() > 0 ==> breaks_before(rows.last(), current, width),
    ensures
        ({
            let out = wrap_from(s, width, rows, current, cw, seq![]);
            &&& out.len() >= 1
            &&& out.flatten_alt() == rows.flatten_alt() + current + s
            &&& forall|i: int| 0 <= i < out.len() ==> row_fits(#[trigger] out[i], width)
            &&& forall|i: int| 0 <= i < out.len() - 1 ==> breaks_before(#[trigger] out[i], out[i + 1], width)
        }),
    decreases s.len(),
{
    let empty: Seq<char> = seq![];
    if s.len() == 0 {
        if current.len() > 0 || rows.len() == 0 {
            let out = rows.push(current);
            assert(close_row(current, empty) == current);
            assert(out.drop_last() =~= rows);
            assert(out.flatten_alt() =~= rows.flatten_alt() + current + s);
            assert forall|i: int| 0 <= i < out.len() implies row_fits(#[trigger] out[i], width) by {
                if i < rows.len() {
                    assert(out[i] == rows[i]);
                }
            }
            assert forall|i: int| 0 <= i < out.len() - 1 implies breaks_before(#[trigger] out[i], out[i + 1], width) by {
                assert(out[i] == rows[i]);
                if i + 1 < rows.len() {
                    assert(out[i + 1] == rows[i + 1]);
                } else {
                    assert(out[i + 1] == current);
                }
            }
        } else {
            assert(current =~= empty);
            assert(rows.flatten_alt() + current + s =~= rows.flatten_alt());
        }
    } else {
        let c = s[0];
        let w = col_width(c);
        assert forall|i: int| 0 <= i < s.skip(1).len() implies s.skip(1)[i] != esc() && s.skip(1)[i] != '\n' by {
            assert(s.skip(1)[i] == s[i + 1]);
        }
        if w > 0 && cw > 0 && cw + w > width {
            let nrows = rows.push(close_row(current, empty));
            assert(close_row(current, empty) == current);
            assert forall|i: int| 0 <= i < nrows.len() implies row_fits(#[trigger] nrows[i], width) by {
                if i < rows.len() {
                    assert(nrows[i] == rows[i]);
                }
            }
            assert forall|i: int| 0 <= i < nrows.len() - 1 implies breaks_before(#[trigger] nrows[i], nrows[i + 1], width) by {
                assert(nrows[i] == rows[i]);
                if i + 1 < rows.len() {
                    assert(nrows[i + 1] == rows[i + 1]);
                } else {
                    assert(nrows[i + 1] == current);
                }
            }
            let ncur = empty.push(c);
            assert(ncur.drop_last() =~= empty);
            assert(cols(empty) == 0);
            assert(ncur.last() == c);
            assert(cols(ncur) == w);
            assert(ncur[0] == c);
            lemma_wrap_plain(s.skip(1), width, nrows, ncur, w);
            assert(nrows.drop_last() =~= rows);
            assert(rows.flatten_alt() + current + s =~= nrows.flatten_alt() + ncur + s.skip(1));
        } else {
            let ncur = current.push(c);
            assert(ncur.drop_last() =~= current);
            lemma_row_fits_push(current, width, c);
            if rows.len() > 0 {
                assert(ncur[0] == current[0]);
            }
            lemma_wrap_plain(s.skip(1), width, rows, ncur, cw + w);
            assert(rows.flatten_alt() + current + s =~= rows.flatten_alt() + ncur + s.skip(1));
        }
    }
}

/// Text without escape sequences and line breaks wraps into at least one
/// row; the rows put together are the text, and each row fits the width
/// (at least one column), save a row whose overflow is one character wider
/// than the width on its own; and a row ends only where the next row's first
/// character, of nonzero width, would have taken it past the width.
pub proof fn law_plain_text_wraps_to_fit(text: Seq<char>, width: nat)
    requires
        forall|i: int| 0 <= i < text.len() ==> text[i] != esc() && text[i] != '\n' && text[i] != '\r',
    ensures
        wrap_ansi(text, width).len() >= 1,
        wrap_ansi(text, width).flatten_alt() == text,
        forall|i: int| 0 <= i < wrap_ansi(text, width).len() ==> row_fits(
            #[trigger] wrap_ansi(text, width)[i],
            if width == 0 { 1 } else { width },
        ),
        forall|i: int| 0 <= i < wrap_ansi(text, width).len() - 1 ==> breaks_before(
            #[trigger] wrap_ansi(text, width)[i],
            wrap_ansi(text, width)[i + 1],
            if width == 0 { 1 } else { width },
        ),
{
    crate::lines::lemma_no_cr_normalized(text);
    let w: nat = if width == 0 { 1 } else { width };
    let empty: Seq<char> = seq![];
    let none: Seq<Seq<char>> = seq![];
    assert(cols(empty) == 0);
    assert(none.flatten_alt() =~= empty);
    lemma_wrap_plain(text, w, none, empty, 0);
    assert(none.flatten_alt() + empty + text =~= text);
}

proof fn lemma_wrap_styled(s: Seq<char>, width: nat, rows: Seq<Seq<char>>, current: Seq<char>, cw: nat, active: Seq<char>)
    requires
        width >= 1,
        active.len() > 0,
        forall|i: int| 0 <= i < s.len() ==> s[i] != esc() && s[i] != '\n',
        active.is_prefix_of(current),
        forall|i: int| 0 <= i < rows.len() ==> active.is_prefix_of(#[trigger] rows[i])
            && rows[i].len() >= active.len() + 4 && rows[i].skip(rows[i].len() - 4) == seq![esc(), '[', '0', 'm'],
    ensures
        ({
            let out = wrap_from(s, width, rows, current, cw, active);
            &&& out.len() >= 1
            &&& forall|i: int| 0 <= i < out.len() ==> active.is_prefix_of(#[trigger] out[i])
                && out[i].len() >= active.len() + 4 && out[i].skip(out[i].len() - 4) == seq![esc(), '[', '0', 'm']
        }),
    decreases s.len(),
{
    let reset = seq![esc(), '[', '0', 'm'];
    let closed = close_row(current, active);
    assert(current.len() > 0);
    assert(closed == current + reset);
    assert(closed.skip(closed.len() - 4) =~= reset);
    assert(active.is_prefix_of(closed)) by {
        assert(closed.take(active.len() as int) =~= current.take(active.len() as int));
    }
    if s.len() == 0 {
        let out = rows.push(closed);
        assert forall|i: int| 0 <= i < out.len() implies active.is_prefix_of(#[trigger] out[i])
            && out[i].len() >= active.len() + 4 && out[i].skip(out[i].len() - 4) == reset by {
            if i < rows.len() {
                assert(out[i] == rows[i]);
            }
        }
    } else {
        let c = s[0];
        let w = if c == esc() { 0 } else { col_width(c) };
        assert forall|i: int| 0 <= i < s.skip(1).len() implies s.skip(1)[i] != esc() && s.skip(1)[i] != '\n' by {
            assert(s.skip(1)[i] == s[i + 1]);
        }
        if w > 0 && cw > 0 && cw + w > width {
            let nrows = rows.push(closed);
            assert forall|i: int| 0 <= i < nrows.len() implies active.is_prefix_of(#[trigger] nrows[i])
                && nrows[i].len() >= active.len() + 4 && nrows[i].skip(nrows[i].len() - 4) == reset by {
                if i < rows.len() {
                    assert(nrows[i] == rows[i]);
                }
            }
            let ncur = active.push(c);
            assert(active.is_prefix_of(ncur)) by {
                assert(ncur.take(active.len() as int) =~= active);
            }
            lemma_wrap_styled(s.skip(1), width, nrows, ncur, w, active);
        } else {
            let ncur = current.push(c);
            assert(active.is_prefix_of(ncur)) by {
                assert(ncur.take(active.len() as int) =~= current.take(active.len() as int));
            }
            lemma_wrap_styled(s.skip(1), width, rows, ncur, cw + w, active);
        }
    }
}

/// Styled text wrapped over several rows keeps its style on every row: text
/// that starts with a style-setting SGR (its parameters free of CSI final
/// bytes) followed by plain text gives rows that each begin with that SGR
/// and end with a reset, so a continuation row shows the same style.
pub proof fn law_style_is_replayed_on_every_row(params: Seq<char>, plain: Seq<char>, width: nat)
    requires
        crate::style::csi_params_ok(params),
        is_style_sgr(seq!['['] + params + seq!['m']),
        forall|i: int| 0 <= i < params.len() ==> params[i] != '\n' && params[i] != '\r',
        forall|i: int| 0 <= i < plain.len() ==> plain[i] != esc() && plain[i] != '\n' && plain[i] != '\r',
    ensures
        ({
            let sgr = seq![esc(), '['] + params + seq!['m'];
            let rows = wrap_ansi(sgr + plain, width);
            &&& rows.len() >= 1
            &&& forall|i: int| 0 <= i < rows.len() ==> sgr.is_prefix_of(#[trigger] rows[i])
                && rows[i].len() >= sgr.len() + 4 && rows[i].skip(rows[i].len() - 4) == seq![esc(), '[', '0', 'm']
        }),
{
    let sequence = seq!['['] + params + seq!['m'];
    let sgr = seq![esc(), '['] + params + seq!['m'];
    let text = sgr + plain;
    let w: nat = if width == 0 { 1 } else { width };
    assert forall|k: int| 0 <= k < text.len() implies text[k] != '\r' by {
        if k >= sgr.len() {
            assert(text[k] == plain[k - sgr.len()]);
        } else if 2 <= k < sgr.len() - 1 {
            assert(text[k] == params[k - 2]);
        }
    }
    crate::lines::lemma_no_cr_normalized(text);
    assert(text.skip(1) =~= seq!['['] + (params + seq!['m'] + plain));
    assert(text.skip(1).skip(1) =~= params + seq!['m'] + plain);
    crate::style::lemma_csi_len_through_final(params, 'm', plain);
    let k = (params.len() + 2) as nat;
    assert(escape_len(text.skip(1), true) == Some(k));
    assert(text.subrange(1, 1 + k as int) =~= sequence);
    assert(text.skip(1 + k as int) =~= plain);
    let empty: Seq<char> = seq![];
    law_sgr_styles_accumulate(sequence, empty);
    assert(next_active_sgr(sequence, empty) =~= sgr);
    assert(empty + seq![esc()] + sequence =~= sgr);
    let none: Seq<Seq<char>> = seq![];
    assert(sgr.is_prefix_of(sgr)) by {
        assert(sgr.take(sgr.len() as int) =~= sgr);
    }
    lemma_wrap_styled(plain, w, none, sgr, 0, sgr);
}

/// Two style-setting SGRs before plain text are both replayed, in order, at
/// the start of every row the text wraps onto (bold then red stays bold and
/// red on each row), and every row ends with a reset.
pub proof fn law_two_styles_are_replayed_on_every_row(p1: Seq<char>, p2: Seq<char>, plain: Seq<char>, width: nat)
    requires
        crate::style::csi_params_ok(p1),
        crate::style::csi_params_ok(p2),
        is_style_sgr(seq!['['] + p1 + seq!['m']),
        is_style_sgr(seq!['['] + p2 + seq!['m']),
        forall|i: int| 0 <= i < p1.len() ==> p1[i] != '\n' && p1[i] != '\r',
        forall|i: int| 0 <= i < p2.len() ==> p2[i] != '\n' && p2[i] != '\r',
        forall|i: int| 0 <= i < plain.len() ==> plain[i] != esc() && plain[i] != '\n' && plain[i] != '\r',
    ensures
        ({
            let styles = seq![esc(), '['] + p1 + seq!['m'] + seq![esc(), '['] + p2 + seq!['m'];
            let rows = wrap_ansi(styles + plain, width);
            &&& rows.len() >= 1
            &&& forall|i: int| 0 <= i < rows.len() ==> styles.is_prefix_of(#[trigger] rows[i])
                && rows[i].len() >= styles.len() + 4 && rows[i].skip(rows[i].len() - 4) == seq![esc(), '[', '0', 'm']
        }),
{
    let q1 = seq!['['] + p1 + seq!['m'];
    let q2 = seq!['['] + p2 + seq!['m'];
    let g1 = seq![esc()] + q1;
    let g2 = seq![esc()] + q2;
    let styles = seq![esc(), '['] + p1 + seq!['m'] + seq![esc(), '['] + p2 + seq!['m'];
    assert(styles =~= g1 + g2);
    let text = styles + plain;
    let rest = g2 + plain;
    let w: nat = if width == 0 { 1 } else { width };
    assert forall|k: int| 0 <= k < text.len() implies text[k] != '\r' by {
        if k >= styles.len() {
            assert(text[k] == plain[k - styles.len()]);
        } else if k >= g1.len() {
            assert(text[k] == g2[k - g1.len()]);
            if 2 <= k - g1.len() < g2.len() - 1 {
                assert(g2[k - g1.len()] == p2[k - g1.len() - 2]);
            }
        } else if 2 <= k < g1.len() - 1 {
            assert(text[k] == p1[k - 2]);
        }
    }
    crate::lines::lemma_no_cr_normalized(text);
    let k1 = (p1.len() + 2) as nat;
    assert(text.skip(1).skip(1) =~= p1 + seq!['m'] + rest);
    crate::style::lemma_csi_len_through_final(p1, 'm', rest);
    assert(escape_len(text.skip(1), true) == Some(k1));
    assert(text.subrange(1, 1 + k1 as int) =~= q1);
    assert(text.skip(1 + k1 as int) =~= rest);
    let k2 = (p2.len() + 2) as nat;
    assert(rest.skip(1).skip(1) =~= p2 + seq!['m'] + plain);
    crate::style::lemma_csi_len_through_final(p2, 'm', plain);
    assert(escape_len(rest.skip(1), true) == Some(k2));
    assert(rest.subrange(1, 1 + k2 as int) =~= q2);
    assert(rest.skip(1 + k2 as int) =~= plain);
    let empty: Seq<char> = seq![];
    law_sgr_styles_accumulate(q1, empty);
    assert(next_active_sgr(q1, empty) =~= g1);
    law_sgr_styles_accumulate(q2, g1);
    assert(next_active_sgr(q2, g1) =~= styles);
    assert(empty + seq![esc()] + q1 =~= g1);
    assert(g1 + seq![esc()] + q2 =~= styles);
    let none: Seq<Seq<char>> = seq![];
    assert(styles.is_prefix_of(styles)) by {
        assert(styles.take(styles.len() as int) =~= styles);
    }
    assert(text[0] == esc());
    assert(wrap_from(text, w, none, empty, 0, empty) == wrap_from(rest, w, none, empty + seq![esc()] + q1, 0, g1));
    assert(rest[0] == esc());
    assert(wrap_from(rest, w, none, g1, 0, g1) == wrap_from(plain, w, none, g1 + seq![esc()] + q2, 0, styles));
    lemma_wrap_styled(plain, w, none, styles, 0, styles);
}

} // verus!
