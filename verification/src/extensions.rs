//! Editor extensions. The one built in, bound to Ctrl-G, tidies a pasted
//! cell: it strips REPL and IPython prompts, drops blank edge lines,
//! removes the common indentation and trailing whitespace.
use vstd::prelude::*;

use crate::chars::{
    chars_of, extend_chars, has_prefix, seqs_of, slice_chars, starts_with, string_from, utf8_len,
    utf8_length,
};
use crate::input::{KeyCode, KeyEvent};
use crate::lines::{
    blank, is_blank, is_ws, lemma_trim_end_is_prefix, lines_chars, lines_of, split_on, strip_cr, trim, trim_end, trim_end_chars,
    trim_start, trim_start_index,
};

verus! {

broadcast use vstd::string::group_string_axioms;

/// The first position at or after `i` where `pat` occurs in `s`, or -1.
pub open spec fn find_from(s: Seq<char>, pat: Seq<char>, i: int) -> int
    decreases s.len() - i,
{
    if i < 0 || i + pat.len() > s.len() {
        -1
    } else if has_prefix(s.skip(i), pat) {
        i
    } else if i >= s.len() {
        -1
    } else {
        find_from(s, pat, i + 1)
    }
}

/// The first position where `pat` occurs in `s`, or -1 (`str::find`).
pub open spec fn find(s: Seq<char>, pat: Seq<char>) -> int {
    find_from(s, pat, 0)
}

/// `[mode] ` at the start of a line (as `[ins] ` or `[nav] `): the rest of
/// the line after it.
pub open spec fn strip_mode_spec(line: Seq<char>) -> Option<Seq<char>> {
    if line.len() > 0 && line[0] == '[' {
        let after = line.skip(1);
        let close = find(after, "] "@);
        if close > 0 && all_alpha_upto(after, close) {
            Some(after.skip(close + 2))
        } else {
            None
        }
    } else {
        None
    }
}

/// The first `n` characters are ASCII letters.
pub open spec fn all_alpha_upto(s: Seq<char>, n: int) -> bool {
    forall|k: int| 0 <= k < n ==> is_ascii_alpha(#[trigger] s[k])
}

/// The first `n` characters are ASCII digits.
pub open spec fn all_digits_upto(s: Seq<char>, n: int) -> bool {
    forall|k: int| 0 <= k < n ==> is_ascii_digit(#[trigger] s[k])
}

pub open spec fn is_ascii_alpha(c: char) -> bool {
    ('a' <= c && c <= 'z') || ('A' <= c && c <= 'Z')
}

pub open spec fn is_ascii_digit(c: char) -> bool {
    '0' <= c && c <= '9'
}

/// The line after an IPython input prompt `In [n]: `, optionally preceded
/// by a mode badge; the space after the colon is optional.
pub open spec fn strip_ipython_spec(line: Seq<char>) -> Option<Seq<char>> {
    strip_in_prompt_spec(
        match strip_mode_spec(line) {
            Some(r) => r,
            None => line,
        },
    )
}

/// The rest of a line after `In [n]:` and an optional space.
pub open spec fn strip_in_prompt_spec(rest: Seq<char>) -> Option<Seq<char>> {
    if has_prefix(rest, "In ["@) {
        let after_in = rest.skip(4);
        let close = find(after_in, "]:"@);
        if close > 0 && all_digits_upto(after_in, close) {
            let tail = after_in.skip(close + 2);
            Some(if tail.len() > 0 && tail[0] == ' ' { tail.skip(1) } else { tail })
        } else {
            None
        }
    } else {
        None
    }
}

/// A line without its REPL (`>>> `, `... `, `...: `) or IPython prompt;
/// a line with none is kept as it is.
pub open spec fn strip_prompt_spec(line: Seq<char>) -> Seq<char> {
    let t = trim_start(line);
    if has_prefix(t, ">>> "@) {
        t.skip(4)
    } else if t == ">>>"@ {
        Seq::empty()
    } else if has_prefix(t, "... "@) {
        t.skip(4)
    } else if has_prefix(t, "...: "@) {
        t.skip(5)
    } else if t == "..."@ || t == "...:"@ {
        Seq::empty()
    } else {
        match strip_ipython_spec(t) {
            Some(r) => r,
            None => line,
        }
    }
}

/// The number of leading spaces and tabs.
pub open spec fn indent_of(line: Seq<char>) -> nat
    decreases line.len(),
{
    if line.len() > 0 && (line[0] == ' ' || line[0] == '\t') {
        1 + indent_of(line.skip(1))
    } else {
        0
    }
}

/// The smallest indentation among the non-blank lines, if any.
pub open spec fn min_indent(lines: Seq<Seq<char>>) -> Option<nat>
    decreases lines.len(),
{
    if lines.len() == 0 {
        None
    } else {
        let prev = min_indent(lines.drop_last());
        if is_blank(lines.last()) {
            prev
        } else {
            match prev {
                Some(m) => Some(if indent_of(lines.last()) < m { indent_of(lines.last()) } else { m }),
                None => Some(indent_of(lines.last())),
            }
        }
    }
}

/// The lines without the blank ones at the start.
pub open spec fn drop_leading_blank(lines: Seq<Seq<char>>) -> Seq<Seq<char>>
    decreases lines.len(),
{
    if lines.len() > 0 && is_blank(lines[0]) {
        drop_leading_blank(lines.skip(1))
    } else {
        lines
    }
}

/// The lines without the blank ones at the end.
pub open spec fn drop_trailing_blank(lines: Seq<Seq<char>>) -> Seq<Seq<char>>
    decreases lines.len(),
{
    if lines.len() > 0 && is_blank(lines.last()) {
        drop_trailing_blank(lines.drop_last())
    } else {
        lines
    }
}

/// The lines joined with `'\n'`.
pub open spec fn join_lines(lines: Seq<Seq<char>>) -> Seq<char>
    decreases lines.len(),
{
    if lines.len() == 0 {
        Seq::empty()
    } else if lines.len() == 1 {
        lines[0]
    } else {
        join_lines(lines.drop_last()) + "\n"@ + lines.last()
    }
}

/// A line with up to `width` leading spaces and tabs removed, then its
/// trailing whitespace.
pub open spec fn dedent_line(line: Seq<char>, width: nat) -> Seq<char> {
    let k = if width < indent_of(line) { width } else { indent_of(line) };
    trim_end(line.skip(k as int))
}

/// The tidied cell: prompts stripped from every line, blank lines at both
/// ends dropped, the common indentation of the non-blank lines removed and
/// trailing whitespace trimmed, lines joined with `'\n'`.
pub open spec fn normalize_spec(cell: Seq<char>) -> Seq<char> {
    let stripped = lines_of(cell).map_values(|l: Seq<char>| strip_prompt_spec(l));
    let kept = drop_trailing_blank(drop_leading_blank(stripped));
    let width: nat = match min_indent(kept) {
        Some(m) => m,
        None => 0,
    };
    join_lines(kept.map_values(|l: Seq<char>| dedent_line(l, width)))
}

pub fn find_chars(s: &[char], pat: &[char]) -> (r: Option<usize>)
    ensures
        match r {
            Some(i) => find(s@, pat@) == i,
            None => find(s@, pat@) == -1,
        },
{
    let mut i: usize = 0;
    proof {
        lemma_find_from_shift(s@, pat@, 0);
    }
    while i < s.len() && pat.len() <= s.len() - i
        invariant
            i <= s.len(),
            find(s@, pat@) == find_from(s@, pat@, i as int),
        decreases s.len() - i,
    {
        let rest = slice_chars(s, i, s.len());
        assert(rest@ =~= s@.skip(i as int));
        if starts_with(rest.as_slice(), pat) {
            return Some(i);
        }
        i += 1;
    }
    if i == s.len() && pat.len() == 0 {
        assert(has_prefix(s@.skip(i as int), pat@)) by {
            assert(s@.skip(i as int).take(0) =~= pat@);
        }
        return Some(i);
    }
    None
}

proof fn lemma_find_from_shift(s: Seq<char>, pat: Seq<char>, i: int)
    ensures
        find(s, pat) == find_from(s, pat, 0),
{
}

fn all_digits(s: &[char]) -> (r: bool)
    ensures
        r == (forall|k: int| 0 <= k < s@.len() ==> is_ascii_digit(#[trigger] s@[k])),
{
    let mut i: usize = 0;
    while i < s.len()
        invariant
            i <= s.len(),
            forall|k: int| 0 <= k < i ==> is_ascii_digit(#[trigger] s@[k]),
        decreases s.len() - i,
    {
        if !('0' <= s[i] && s[i] <= '9') {
            return false;
        }
        i += 1;
    }
    true
}

fn all_alpha(s: &[char]) -> (r: bool)
    ensures
        r == (forall|k: int| 0 <= k < s@.len() ==> is_ascii_alpha(#[trigger] s@[k])),
{
    let mut i: usize = 0;
    while i < s.len()
        invariant
            i <= s.len(),
            forall|k: int| 0 <= k < i ==> is_ascii_alpha(#[trigger] s@[k]),
        decreases s.len() - i,
    {
        let c = s[i];
        if !(('a' <= c && c <= 'z') || ('A' <= c && c <= 'Z')) {
            return false;
        }
        i += 1;
    }
    true
}

fn strip_mode_prefix(line: &[char]) -> (r: Option<Vec<char>>)
    ensures
        match r {
            Some(v) => strip_mode_spec(line@) == Some(v@),
            None => strip_mode_spec(line@) is None,
        },
{
    if line.len() == 0 || line[0] != '[' {
        return None;
    }
    let after = slice_chars(line, 1, line.len());
    assert(after@ =~= line@.skip(1));
    let pat = chars_of("] ");
    proof {
        reveal_strlit("] ");
    }
    match find_chars(after.as_slice(), pat.as_slice()) {
        None => None,
        Some(close) => {
            proof {
                lemma_find_bounds(after@, pat@, 0);
            }
            let mode = slice_chars(after.as_slice(), 0, close);
            if close > 0 && all_alpha(mode.as_slice()) {
                assert forall|k: int| 0 <= k < close implies is_ascii_alpha(#[trigger] after@[k]) by {
                    assert(after@[k] == mode@[k]);
                }
                let r = slice_chars(after.as_slice(), close + 2, after.len());
                assert(r@ =~= after@.skip(close + 2));
                Some(r)
            } else {
                proof {
                    if close > 0 {
                        let k = choose|k: int| 0 <= k < mode@.len() && !is_ascii_alpha(#[trigger] mode@[k]);
                        assert(after@[k] == mode@[k]);
                        assert(!is_ascii_alpha(after@[k]));
                    }
                }
                None
            }
        },
    }
}

pub proof fn lemma_find_bounds(s: Seq<char>, pat: Seq<char>, i: int)
    requires
        i >= 0,
    ensures
        find_from(s, pat, i) >= 0 ==> i <= find_from(s, pat, i) && find_from(s, pat, i) + pat.len() <= s.len(),
        find_from(s, pat, i) >= 0 ==> has_prefix(s.skip(find_from(s, pat, i)), pat),
    decreases s.len() - i,
{
    if i + pat.len() <= s.len() && !has_prefix(s.skip(i), pat) && i < s.len() {
        lemma_find_bounds(s, pat, i + 1);
    }
}

fn strip_ipython_prompt(line: &[char]) -> (r: Option<Vec<char>>)
    ensures
        match r {
            Some(v) => strip_ipython_spec(line@) == Some(v@),
            None => strip_ipython_spec(line@) is None,
        },
{
    let rest = match strip_mode_prefix(line) {
        Some(r) => r,
        None => slice_chars(line, 0, line.len()),
    };
    assert(line@.subrange(0, line.len() as int) =~= line@);
    assert(rest@ == match strip_mode_spec(line@) {
        Some(r) => r,
        None => line@,
    });
    let in_prefix = chars_of("In [");
    proof {
        reveal_strlit("In [");
        reveal_strlit("]:");
    }
    if !starts_with(rest.as_slice(), in_prefix.as_slice()) {
        return None;
    }
    let after_in = slice_chars(rest.as_slice(), 4, rest.len());
    assert(after_in@ =~= rest@.skip(4));
    let pat = chars_of("]:");
    match find_chars(after_in.as_slice(), pat.as_slice()) {
        None => None,
        Some(close) => {
            proof {
                lemma_find_bounds(after_in@, pat@, 0);
            }
            let number = slice_chars(after_in.as_slice(), 0, close);
            if close > 0 && all_digits(number.as_slice()) {
                assert forall|k: int| 0 <= k < close implies is_ascii_digit(#[trigger] after_in@[k]) by {
                    assert(after_in@[k] == number@[k]);
                }
                let tail = slice_chars(after_in.as_slice(), close + 2, after_in.len());
                assert(tail@ =~= after_in@.skip(close + 2));
                if tail.len() > 0 && tail[0] == ' ' {
                    let t = slice_chars(tail.as_slice(), 1, tail.len());
                    assert(t@ =~= tail@.skip(1));
                    Some(t)
                } else {
                    Some(tail)
                }
            } else {
                proof {
                    if close > 0 {
                        let k = choose|k: int| 0 <= k < number@.len() && !is_ascii_digit(#[trigger] number@[k]);
                        assert(after_in@[k] == number@[k]);
                        assert(!is_ascii_digit(after_in@[k]));
                    }
                }
                None
            }
        },
    }
}

fn is_exactly(s: &[char], lit: &str) -> (r: bool)
    ensures
        r == (s@ == lit@),
{
    let l = chars_of(lit);
    crate::chars::chars_eq(s, l.as_slice())
}

fn strip_prompt_prefix(line: &[char]) -> (r: Vec<char>)
    ensures
        r@ == strip_prompt_spec(line@),
{
    let start = trim_start_index(line);
    let t = slice_chars(line, start, line.len());
    assert(t@ =~= line@.skip(start as int));
    let p1 = chars_of(">>> ");
    proof {
        reveal_strlit(">>> ");
        reveal_strlit("... ");
        reveal_strlit("...: ");
    }
    if starts_with(t.as_slice(), p1.as_slice()) {
        let r = slice_chars(t.as_slice(), 4, t.len());
        assert(r@ =~= t@.skip(4));
        return r;
    }
    if is_exactly(t.as_slice(), ">>>") {
        return Vec::new();
    }
    let p2 = chars_of("... ");
    if starts_with(t.as_slice(), p2.as_slice()) {
        let r = slice_chars(t.as_slice(), 4, t.len());
        assert(r@ =~= t@.skip(4));
        return r;
    }
    let p3 = chars_of("...: ");
    if starts_with(t.as_slice(), p3.as_slice()) {
        let r = slice_chars(t.as_slice(), 5, t.len());
        assert(r@ =~= t@.skip(5));
        return r;
    }
    if is_exactly(t.as_slice(), "...") || is_exactly(t.as_slice(), "...:") {
        return Vec::new();
    }
    match strip_ipython_prompt(t.as_slice()) {
        Some(r) => r,
        None => {
            let r = slice_chars(line, 0, line.len());
            assert(r@ =~= line@);
            r
        },
    }
}

fn indent_count(line: &[char]) -> (n: usize)
    ensures
        n == indent_of(line@),
        n <= line.len(),
{
    let mut i: usize = 0;
    assert(line@.skip(0) =~= line@);
    while i < line.len() && (line[i] == ' ' || line[i] == '\t')
        invariant
            i <= line.len(),
            indent_of(line@) == i + indent_of(line@.skip(i as int)),
        decreases line.len() - i,
    {
        assert(line@.skip(i as int).skip(1) =~= line@.skip(i + 1));
        i += 1;
    }
    proof {
        lemma_indent_le(line@);
    }
    i
}

proof fn lemma_indent_le(s: Seq<char>)
    ensures
        indent_of(s) <= s.len(),
    decreases s.len(),
{
    if s.len() > 0 && (s[0] == ' ' || s[0] == '\t') {
        lemma_indent_le(s.skip(1));
    }
}

/// Tidies a pasted cell (see `normalize_spec`).
pub fn normalize_cell_indentation(cell: &str) -> (r: String)
    ensures
        r@ == normalize_spec(cell@),
{
    let chars = chars_of(cell);
    let ls = lines_chars(chars.as_slice());
    let ghost raw = seqs_of(ls@);
    let ghost stripped = raw.map_values(|l: Seq<char>| strip_prompt_spec(l));
    let mut lines: Vec<Vec<char>> = Vec::new();
    let mut i: usize = 0;
    while i < ls.len()
        invariant
            i <= ls.len(),
            raw == seqs_of(ls@),
            stripped == raw.map_values(|l: Seq<char>| strip_prompt_spec(l)),
            seqs_of(lines@) == stripped.take(i as int),
        decreases ls.len() - i,
    {
        let s = strip_prompt_prefix(ls[i].as_slice());
        let ghost before = seqs_of(lines@);
        lines.push(s);
        assert(seqs_of(lines@) =~= before.push(s@));
        assert(stripped.take(i + 1) =~= stripped.take(i as int).push(stripped[i as int]));
        i += 1;
    }
    assert(stripped.take(ls.len() as int) =~= stripped);
    // Blank lines at the start.
    let mut lo: usize = 0;
    while lo < lines.len() && blank(lines[lo].as_slice())
        invariant
            lo <= lines.len(),
            seqs_of(lines@) == stripped,
            drop_leading_blank(stripped) == drop_leading_blank(stripped.skip(lo as int)),
        decreases lines.len() - lo,
    {
        assert(stripped.skip(lo as int).skip(1) =~= stripped.skip(lo + 1));
        lo += 1;
    }
    let ghost lead = drop_leading_blank(stripped);
    assert(lead == stripped.skip(lo as int)) by {
        assert(stripped.skip(0) =~= stripped);
    }
    // Blank lines at the end.
    let mut hi: usize = lines.len();
    while hi > lo && blank(lines[hi - 1].as_slice())
        invariant
            lo <= hi <= lines.len(),
            seqs_of(lines@) == stripped,
            lead == stripped.skip(lo as int),
            drop_trailing_blank(lead) == drop_trailing_blank(stripped.subrange(lo as int, hi as int)),
        decreases hi - lo,
    {
        assert(stripped.subrange(lo as int, hi as int).drop_last() =~= stripped.subrange(
            lo as int,
            hi - 1,
        ));
        hi -= 1;
    }
    let ghost kept = drop_trailing_blank(lead);
    assert(kept == stripped.subrange(lo as int, hi as int)) by {
        assert(stripped.subrange(lo as int, lines.len() as int) =~= lead);
    }
    // The common indentation.
    let mut width: Option<usize> = None;
    let mut k: usize = lo;
    while k < hi
        invariant
            lo <= k <= hi <= lines.len(),
            seqs_of(lines@) == stripped,
            kept == stripped.subrange(lo as int, hi as int),
            match width {
                Some(w) => min_indent(kept.take(k - lo)) == Some(w as nat),
                None => min_indent(kept.take(k - lo)) is None,
            },
        decreases hi - k,
    {
        assert(kept.take(k - lo + 1).drop_last() =~= kept.take(k - lo));
        assert(kept.take(k - lo + 1).last() == lines@[k as int]@);
        if !blank(lines[k].as_slice()) {
            let n = indent_count(lines[k].as_slice());
            width = match width {
                Some(w) => Some(if n < w { n } else { w }),
                None => Some(n),
            };
        }
        k += 1;
    }
    assert(kept.take(hi - lo) =~= kept);
    let w: usize = match width {
        Some(w) => w,
        None => 0,
    };
    let ghost dedented = kept.map_values(|l: Seq<char>| dedent_line(l, w as nat));
    let mut out: Vec<char> = Vec::new();
    let mut j: usize = lo;
    while j < hi
        invariant
            lo <= j <= hi <= lines.len(),
            seqs_of(lines@) == stripped,
            kept == stripped.subrange(lo as int, hi as int),
            dedented == kept.map_values(|l: Seq<char>| dedent_line(l, w as nat)),
            out@ == join_lines(dedented.take(j - lo)),
        decreases hi - j,
    {
        let line = &lines[j];
        let n = indent_count(line.as_slice());
        let cut = if w < n { w } else { n };
        let rest = slice_chars(line.as_slice(), cut, line.len());
        assert(rest@ =~= line@.skip(cut as int));
        let piece = trim_end_chars(rest.as_slice());
        assert(piece@ == dedented[j - lo]);
        if j > lo {
            extend_chars(&mut out, chars_of("\n").as_slice());
        }
        extend_chars(&mut out, piece.as_slice());
        assert(dedented.take(j - lo + 1).drop_last() =~= dedented.take(j - lo));
        proof {
            if j == lo {
                assert(dedented.take(1) =~= seq![piece@]);
            }
        }
        j += 1;
    }
    assert(dedented.take(hi - lo) =~= dedented);
    string_from(out.as_slice())
}

/// A replacement of the editor's cell: the new text and cursor byte offset.
#[derive(Debug, Clone, PartialEq, Eq)]
pub struct CellEdit {
    pub text: String,
    pub cursor_byte: usize,
}

impl CellEdit {
    pub fn new(text: String, cursor_byte: usize) -> (r: Self)
        ensures
            r.text@ == text@,
            r.cursor_byte == cursor_byte,
    {
        CellEdit { text, cursor_byte }
    }
}

/// Whether a key is Ctrl-G, the format-cell binding.
pub open spec fn is_format_key(key: KeyEvent) -> bool {
    key.code == KeyCode::Char('g') && key.modifiers.control
}

/// The extensions' answer to a key in the editor: a replacement cell, or
/// nothing (the key is not theirs). Ctrl-G tidies the cell and keeps the
/// cursor's byte offset, clamped to the new text.
pub fn extension_on_key(key: KeyEvent, cell: &str, cursor_byte: usize) -> (r: Option<CellEdit>)
    ensures
        is_format_key(key) <==> r is Some,
        r matches Some(edit) ==> edit.text@ == normalize_spec(cell@) && edit.cursor_byte == if cursor_byte
            < utf8_len(normalize_spec(cell@)) {
            cursor_byte as nat
        } else {
            utf8_len(normalize_spec(cell@))
        },
{
    if key.code == KeyCode::Char('g') && key.modifiers.control {
        let formatted = normalize_cell_indentation(cell);
        let len = utf8_length(chars_of(formatted.as_str()).as_slice());
        let cursor = if cursor_byte < len { cursor_byte } else { len };
        Some(CellEdit::new(formatted, cursor))
    } else {
        None
    }
}

/// The lines of the tidied cell, before they are joined.
pub open spec fn normalized_lines(cell: Seq<char>) -> Seq<Seq<char>> {
    let stripped = lines_of(cell).map_values(|l: Seq<char>| strip_prompt_spec(l));
    let kept = drop_trailing_blank(drop_leading_blank(stripped));
    let width: nat = match min_indent(kept) {
        Some(m) => m,
        None => 0,
    };
    kept.map_values(|l: Seq<char>| dedent_line(l, width))
}

proof fn lemma_trim_end_last(s: Seq<char>)
    ensures
        trim_end(s).len() > 0 ==> !is_ws(trim_end(s).last()),
        trim_end(trim_end(s)) == trim_end(s),
    decreases s.len(),
{
    if s.len() > 0 && is_ws(s.last()) {
        lemma_trim_end_last(s.drop_last());
    }
}

proof fn lemma_trim_end_nonblank_keeps(s: Seq<char>)
    requires
        !is_blank(s),
    ensures
        !is_blank(trim_end(s)),
        trim_end(s).len() > 0 && trim_end(s)[0] == s[0],
    decreases s.len(),
{
    if s.len() > 0 && is_ws(s.last()) {
        let j = choose|j: int| 0 <= j < s.len() && !is_ws(#[trigger] s[j]);
        assert(j < s.len() - 1);
        assert(s.drop_last()[j] == s[j]);
        lemma_trim_end_nonblank_keeps(s.drop_last());
    } else {
        let j = choose|j: int| 0 <= j < s.len() && !is_ws(#[trigger] s[j]);
        assert(s.len() > 0);
    }
}

proof fn lemma_indent_prefix(l: Seq<char>)
    ensures
        indent_of(l) <= l.len(),
        forall|j: int| 0 <= j < indent_of(l) ==> (#[trigger] l[j] == ' ' || l[j] == '\t'),
        indent_of(l) < l.len() ==> l[indent_of(l) as int] != ' ' && l[indent_of(l) as int] != '\t',
    decreases l.len(),
{
    if l.len() > 0 && (l[0] == ' ' || l[0] == '\t') {
        lemma_indent_prefix(l.skip(1));
        assert forall|j: int| 0 <= j < indent_of(l) implies (#[trigger] l[j] == ' ' || l[j] == '\t') by {
            if j > 0 {
                assert(l[j] == l.skip(1)[j - 1]);
            }
        }
        if indent_of(l) < l.len() {
            assert(l[indent_of(l) as int] == l.skip(1)[indent_of(l.skip(1)) as int]);
        }
    }
}

/// Dedenting a non-blank line by at most its indentation keeps it
/// non-blank; by exactly its indentation leaves it unindented.
proof fn lemma_dedent_nonblank(l: Seq<char>, width: nat)
    requires
        !is_blank(l),
        width <= indent_of(l),
    ensures
        !is_blank(dedent_line(l, width)),
        width == indent_of(l) ==> indent_of(dedent_line(l, width)) == 0,
{
    lemma_indent_prefix(l);
    let r = l.skip(width as int);
    let j = choose|j: int| 0 <= j < l.len() && !is_ws(#[trigger] l[j]);
    assert(j >= indent_of(l)) by {
        if j < indent_of(l) {
            assert(l[j] == ' ' || l[j] == '\t');
        }
    }
    assert(r[j - width] == l[j]);
    assert(!is_blank(r));
    lemma_trim_end_nonblank_keeps(r);
    if width == indent_of(l) {
        assert(r[0] == l[indent_of(l) as int]);
        let d = dedent_line(l, width);
        assert(d[0] == r[0]);
        assert(!(d.len() > 0 && (d[0] == ' ' || d[0] == '\t')));
    }
}

proof fn lemma_drop_leading_first(lines: Seq<Seq<char>>)
    ensures
        drop_leading_blank(lines).len() > 0 ==> !is_blank(drop_leading_blank(lines)[0]),
    decreases lines.len(),
{
    if lines.len() > 0 && is_blank(lines[0]) {
        lemma_drop_leading_first(lines.skip(1));
    }
}

proof fn lemma_drop_trailing_prefix(lines: Seq<Seq<char>>)
    ensures
        drop_trailing_blank(lines).len() <= lines.len(),
        forall|i: int| 0 <= i < drop_trailing_blank(lines).len() ==> #[trigger] drop_trailing_blank(lines)[i] == lines[i],
        drop_trailing_blank(lines).len() > 0 ==> !is_blank(drop_trailing_blank(lines).last()),
    decreases lines.len(),
{
    if lines.len() > 0 && is_blank(lines.last()) {
        lemma_drop_trailing_prefix(lines.drop_last());
        assert forall|i: int| 0 <= i < drop_trailing_blank(lines).len() implies #[trigger] drop_trailing_blank(lines)[i]
            == lines[i] by {
            assert(lines.drop_last()[i] == lines[i]);
        }
    }
}

/// The smallest indentation of the non-blank lines: at most each one's,
/// and that of some non-blank line.
proof fn lemma_min_indent(lines: Seq<Seq<char>>)
    ensures
        (exists|i: int| 0 <= i < lines.len() && !is_blank(#[trigger] lines[i])) <==> min_indent(lines) is Some,
        min_indent(lines) matches Some(m) ==> {
            &&& forall|i: int| 0 <= i < lines.len() && !is_blank(#[trigger] lines[i]) ==> m <= indent_of(lines[i])
            &&& exists|i: int| 0 <= i < lines.len() && !is_blank(#[trigger] lines[i]) && indent_of(lines[i]) == m
        },
    decreases lines.len(),
{
    if lines.len() > 0 {
        let prev = lines.drop_last();
        lemma_min_indent(prev);
        let n = lines.len() - 1;
        assert forall|i: int| 0 <= i < prev.len() implies #[trigger] prev[i] == lines[i] by {}
        if !is_blank(lines[n]) {
            assert(lines[n] == lines.last());
        }
        if exists|i: int| 0 <= i < lines.len() && !is_blank(#[trigger] lines[i]) {
            let i = choose|i: int| 0 <= i < lines.len() && !is_blank(#[trigger] lines[i]);
            if i < n {
                assert(prev[i] == lines[i]);
            }
        }
        if min_indent(prev) is Some {
            let i = choose|i: int| 0 <= i < prev.len() && !is_blank(#[trigger] prev[i]);
            assert(lines[i] == prev[i]);
        }
        match min_indent(lines) {
            Some(m) => {
                assert forall|i: int| 0 <= i < lines.len() && !is_blank(#[trigger] lines[i]) implies m <= indent_of(
                    lines[i],
                ) by {
                    if i < n {
                        assert(prev[i] == lines[i]);
                    }
                }
                if !is_blank(lines.last()) && (min_indent(prev) is None || indent_of(lines.last()) < min_indent(prev)->0) {
                    assert(!is_blank(lines[n]) && indent_of(lines[n]) == m);
                } else {
                    let k = choose|k: int| 0 <= k < prev.len() && !is_blank(#[trigger] prev[k]) && indent_of(prev[k])
                        == min_indent(prev)->0;
                    assert(lines[k] == prev[k]);
                    assert(!is_blank(lines[k]) && indent_of(lines[k]) == m);
                }
            },
            None => {},
        }
    }
}

/// The tidied cell is its lines joined with `'\n'`, and split at `'\n'` it
/// gives them back (it is empty where there are none), where: there are
/// none, or the first and the last are not blank; no line ends in
/// whitespace; and some non-blank line starts without a space or tab (the
/// common indentation is gone).
pub proof fn law_normalized_cell_shape(cell: Seq<char>)
    ensures
        normalize_spec(cell) == join_lines(normalized_lines(cell)),
        normalized_lines(cell).len() > 0 ==> !is_blank(normalized_lines(cell)[0]) && !is_blank(
            normalized_lines(cell).last(),
        ),
        forall|i: int| 0 <= i < normalized_lines(cell).len() ==> trim_end(#[trigger] normalized_lines(cell)[i])
            == normalized_lines(cell)[i],
        normalized_lines(cell).len() > 0 ==> exists|i: int|
            0 <= i < normalized_lines(cell).len() && !is_blank(#[trigger] normalized_lines(cell)[i]) && indent_of(
                normalized_lines(cell)[i],
            ) == 0,
        normalized_lines(cell).len() == 0 ==> normalize_spec(cell).len() == 0,
        normalized_lines(cell).len() > 0 ==> split_on(normalize_spec(cell), '\n') == normalized_lines(cell),
{
    lemma_normalized_lines_no_nl(cell);
    if normalized_lines(cell).len() > 0 {
        lemma_split_join(normalized_lines(cell));
    }
    let stripped = lines_of(cell).map_values(|l: Seq<char>| strip_prompt_spec(l));
    let lead = drop_leading_blank(stripped);
    let kept = drop_trailing_blank(lead);
    let width: nat = match min_indent(kept) {
        Some(m) => m,
        None => 0,
    };
    let out = normalized_lines(cell);
    assert(out == kept.map_values(|l: Seq<char>| dedent_line(l, width)));
    assert forall|i: int| 0 <= i < out.len() implies trim_end(#[trigger] out[i]) == out[i] by {
        lemma_trim_end_last(kept[i].skip((if width < indent_of(kept[i]) { width } else { indent_of(kept[i]) }) as int));
    }
    if out.len() > 0 {
        lemma_drop_leading_first(stripped);
        lemma_drop_trailing_prefix(lead);
        lemma_min_indent(kept);
        assert(kept[0] == lead[0]);
        assert(!is_blank(kept[0]));
        let m = min_indent(kept)->0;
        assert(width == m);
        lemma_dedent_nonblank(kept[0], width);
        lemma_dedent_nonblank(kept.last(), width);
        assert(out[0] == dedent_line(kept[0], width));
        assert(out.last() == dedent_line(kept.last(), width));
        let k = choose|k: int| 0 <= k < kept.len() && !is_blank(#[trigger] kept[k]) && indent_of(kept[k]) == m;
        lemma_dedent_nonblank(kept[k], width);
        assert(out[k] == dedent_line(kept[k], width));
        assert(!is_blank(out[k]) && indent_of(out[k]) == 0);
    }
}

/// `s` holds no line break.
pub open spec fn no_nl(s: Seq<char>) -> bool {
    forall|k: int| 0 <= k < s.len() ==> #[trigger] s[k] != '\n'
}

/// No line of `lines` holds a line break.
pub open spec fn all_no_nl(lines: Seq<Seq<char>>) -> bool {
    forall|i: int| 0 <= i < lines.len() ==> no_nl(#[trigger] lines[i])
}

proof fn lemma_skip_no_nl(s: Seq<char>, j: int)
    requires
        no_nl(s),
        0 <= j <= s.len(),
    ensures
        no_nl(s.skip(j)),
{
    assert forall|k: int| 0 <= k < s.skip(j).len() implies #[trigger] s.skip(j)[k] != '\n' by {
        assert(s.skip(j)[k] == s[k + j]);
    }
}

proof fn lemma_trim_start_no_nl(s: Seq<char>)
    requires
        no_nl(s),
    ensures
        no_nl(trim_start(s)),
    decreases s.len(),
{
    if s.len() > 0 && is_ws(s[0]) {
        lemma_skip_no_nl(s, 1);
        lemma_trim_start_no_nl(s.skip(1));
    }
}

proof fn lemma_strip_mode_no_nl(line: Seq<char>)
    requires
        no_nl(line),
    ensures
        strip_mode_spec(line) matches Some(r) ==> no_nl(r),
{
    if line.len() > 0 && line[0] == '[' {
        let after = line.skip(1);
        lemma_skip_no_nl(line, 1);
        reveal_strlit("] ");
        lemma_find_bounds(after, "] "@, 0);
        let close = find(after, "] "@);
        if close > 0 && all_alpha_upto(after, close) {
            lemma_skip_no_nl(after, close + 2);
        }
    }
}

proof fn lemma_strip_in_prompt_no_nl(rest: Seq<char>)
    requires
        no_nl(rest),
    ensures
        strip_in_prompt_spec(rest) matches Some(r) ==> no_nl(r),
{
    reveal_strlit("In [");
    reveal_strlit("]:");
    if has_prefix(rest, "In ["@) {
        let after_in = rest.skip(4);
        lemma_skip_no_nl(rest, 4);
        lemma_find_bounds(after_in, "]:"@, 0);
        let close = find(after_in, "]:"@);
        if close > 0 && all_digits_upto(after_in, close) {
            let tail = after_in.skip(close + 2);
            lemma_skip_no_nl(after_in, close + 2);
            if tail.len() > 0 && tail[0] == ' ' {
                lemma_skip_no_nl(tail, 1);
            }
        }
    }
}

proof fn lemma_strip_prompt_no_nl(line: Seq<char>)
    requires
        no_nl(line),
    ensures
        no_nl(strip_prompt_spec(line)),
{
    reveal_strlit(">>> ");
    reveal_strlit("... ");
    reveal_strlit("...: ");
    let t = trim_start(line);
    lemma_trim_start_no_nl(line);
    if has_prefix(t, ">>> "@) || has_prefix(t, "... "@) {
        lemma_skip_no_nl(t, 4);
    } else if has_prefix(t, "...: "@) {
        lemma_skip_no_nl(t, 5);
    } else {
        lemma_strip_mode_no_nl(t);
        let rest = match strip_mode_spec(t) {
            Some(r) => r,
            None => t,
        };
        lemma_strip_in_prompt_no_nl(rest);
    }
    assert forall|k: int| 0 <= k < Seq::<char>::empty().len() implies #[trigger] Seq::<char>::empty()[k] != '\n' by {}
}

proof fn lemma_split_pieces_no_nl(s: Seq<char>)
    ensures
        all_no_nl(split_on(s, '\n')),
        split_on(s, '\n').len() >= 1,
    decreases s.len(),
{
    if s.len() > 0 {
        lemma_split_pieces_no_nl(s.drop_last());
        let prev = split_on(s.drop_last(), '\n');
        let cur = split_on(s, '\n');
        assert forall|i: int| 0 <= i < cur.len() implies no_nl(#[trigger] cur[i]) by {
            if s.last() == '\n' {
                if i < prev.len() {
                    assert(cur[i] == prev[i]);
                } else {
                    assert(cur[i] =~= Seq::<char>::empty());
                }
            } else if i < prev.len() - 1 {
                assert(cur[i] == prev[i]);
            } else {
                let x = prev.last().push(s.last());
                assert(cur[i] == x);
                assert forall|k: int| 0 <= k < x.len() implies #[trigger] x[k] != '\n' by {
                    if k < prev.last().len() {
                        assert(x[k] == prev[prev.len() - 1][k]);
                    }
                }
            }
        }
    }
}

proof fn lemma_lines_of_no_nl(s: Seq<char>)
    ensures
        all_no_nl(lines_of(s)),
{
    lemma_split_pieces_no_nl(s);
    let p = split_on(s, '\n');
    let l = lines_of(s);
    assert forall|i: int| 0 <= i < l.len() implies no_nl(#[trigger] l[i]) by {
        if i < p.len() - 1 {
            let x = p[i];
            assert(no_nl(x));
            assert(l[i] == strip_cr(x));
            assert forall|k: int| 0 <= k < strip_cr(x).len() implies #[trigger] strip_cr(x)[k] != '\n' by {
                assert(strip_cr(x)[k] == x[k]);
            }
        } else {
            assert(l[i] == p.last());
        }
    }
}

proof fn lemma_drop_leading_no_nl(lines: Seq<Seq<char>>)
    requires
        all_no_nl(lines),
    ensures
        all_no_nl(drop_leading_blank(lines)),
    decreases lines.len(),
{
    if lines.len() > 0 && is_blank(lines[0]) {
        assert forall|i: int| 0 <= i < lines.skip(1).len() implies no_nl(#[trigger] lines.skip(1)[i]) by {
            assert(lines.skip(1)[i] == lines[i + 1]);
        }
        lemma_drop_leading_no_nl(lines.skip(1));
    }
}

proof fn lemma_drop_trailing_no_nl(lines: Seq<Seq<char>>)
    requires
        all_no_nl(lines),
    ensures
        all_no_nl(drop_trailing_blank(lines)),
    decreases lines.len(),
{
    if lines.len() > 0 && is_blank(lines.last()) {
        assert forall|i: int| 0 <= i < lines.drop_last().len() implies no_nl(#[trigger] lines.drop_last()[i]) by {
            assert(lines.drop_last()[i] == lines[i]);
        }
        lemma_drop_trailing_no_nl(lines.drop_last());
    }
}

proof fn lemma_normalized_lines_no_nl(cell: Seq<char>)
    ensures
        all_no_nl(normalized_lines(cell)),
{
    let stripped = lines_of(cell).map_values(|l: Seq<char>| strip_prompt_spec(l));
    lemma_lines_of_no_nl(cell);
    assert forall|i: int| 0 <= i < stripped.len() implies no_nl(#[trigger] stripped[i]) by {
        lemma_strip_prompt_no_nl(lines_of(cell)[i]);
    }
    let lead = drop_leading_blank(stripped);
    lemma_drop_leading_no_nl(stripped);
    let kept = drop_trailing_blank(lead);
    lemma_drop_trailing_no_nl(lead);
    let width: nat = match min_indent(kept) {
        Some(m) => m,
        None => 0,
    };
    let out = normalized_lines(cell);
    assert forall|i: int| 0 <= i < out.len() implies no_nl(#[trigger] out[i]) by {
        let l = kept[i];
        let k = if width < indent_of(l) { width } else { indent_of(l) };
        lemma_indent_prefix(l);
        lemma_skip_no_nl(l, k as int);
        let sk = l.skip(k as int);
        lemma_trim_end_is_prefix(sk);
        assert(out[i] == trim_end(sk));
        assert forall|j: int| 0 <= j < trim_end(sk).len() implies #[trigger] trim_end(sk)[j] != '\n' by {
            assert(trim_end(sk)[j] == sk.take(trim_end(sk).len() as int)[j]);
        }
    }
}

proof fn lemma_split_append_no_nl(x: Seq<char>, b: Seq<char>)
    requires
        no_nl(b),
    ensures
        split_on(x + b, '\n') == split_on(x, '\n').update(
            split_on(x, '\n').len() - 1,
            split_on(x, '\n').last() + b,
        ),
    decreases b.len(),
{
    lemma_split_pieces_no_nl(x);
    if b.len() == 0 {
        assert(x + b =~= x);
        assert(split_on(x, '\n').last() + b =~= split_on(x, '\n').last());
        assert(split_on(x, '\n').update(split_on(x, '\n').len() - 1, split_on(x, '\n').last()) =~= split_on(x, '\n'));
    } else {
        let b2 = b.drop_last();
        assert forall|k: int| 0 <= k < b2.len() implies #[trigger] b2[k] != '\n' by {
            assert(b2[k] == b[k]);
        }
        lemma_split_append_no_nl(x, b2);
        assert((x + b).drop_last() =~= x + b2);
        assert((x + b).last() == b.last());
        assert(b.last() == b[b.len() - 1]);
        let p = split_on(x, '\n');
        let q = p.update(p.len() - 1, p.last() + b2);
        assert(q.last() == p.last() + b2);
        assert(q.len() == p.len());
        assert((p.last() + b2).push(b.last()) =~= p.last() + b);
        assert(q.update(q.len() - 1, q.last().push(b.last())) =~= p.update(p.len() - 1, p.last() + b));
    }
}

/// Lines without line breaks, joined with `'\n'`, split back into the
/// same lines.
proof fn lemma_split_join(lines: Seq<Seq<char>>)
    requires
        lines.len() >= 1,
        all_no_nl(lines),
    ensures
        split_on(join_lines(lines), '\n') == lines,
    decreases lines.len(),
{
    reveal_strlit("\n");
    if lines.len() == 1 {
        assert(no_nl(lines[0]));
        lemma_split_append_no_nl(Seq::empty(), lines[0]);
        assert(Seq::<char>::empty() + lines[0] =~= lines[0]);
        assert(split_on(Seq::<char>::empty(), '\n') == seq![Seq::<char>::empty()]);
        assert(seq![Seq::<char>::empty()].update(0, Seq::<char>::empty() + lines[0]) =~= lines);
    } else {
        let d = lines.drop_last();
        assert forall|i: int| 0 <= i < d.len() implies no_nl(#[trigger] d[i]) by {
            assert(d[i] == lines[i]);
        }
        lemma_split_join(d);
        let j = join_lines(d);
        let last = lines.last();
        assert(no_nl(lines[lines.len() - 1]));
        assert(join_lines(lines) == j + "\n"@ + last);
        assert(j + "\n"@ + last =~= j.push('\n') + last);
        lemma_split_append_no_nl(j.push('\n'), last);
        assert(j.push('\n').drop_last() =~= j);
        assert(split_on(j.push('\n'), '\n') == d.push(Seq::<char>::empty()));
        assert(d.push(Seq::<char>::empty()).update(d.len() as int, Seq::<char>::empty() + last) =~= lines);
    }
}

} // verus!
