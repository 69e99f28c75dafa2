//! Line splitting, newline normalisation and whitespace trimming over
//! character sequences, with the semantics of the corresponding `str`
//! methods (`split`, `lines`, `trim`, `replace("\r\n", "\n")`).
use vstd::prelude::*;

use crate::chars::{seqs_of, slice_chars};

verus! {

/// Unicode `White_Space`, as tested by `char::is_whitespace`.
pub open spec fn is_ws(c: char) -> bool {
    ||| ('\u{9}' <= c && c <= '\u{d}')
    ||| c == ' '
    ||| c == '\u{85}'
    ||| c == '\u{a0}'
    ||| c == '\u{1680}'
    ||| ('\u{2000}' <= c && c <= '\u{200a}')
    ||| c == '\u{2028}'
    ||| c == '\u{2029}'
    ||| c == '\u{202f}'
    ||| c == '\u{205f}'
    ||| c == '\u{3000}'
}

/// Executable `char::is_whitespace`.
pub fn is_whitespace(c: char) -> (r: bool)
    ensures
        r == is_ws(c),
{
    ('\u{9}' <= c && c <= '\u{d}') || c == ' ' || c == '\u{85}' || c == '\u{a0}' || c
        == '\u{1680}' || ('\u{2000}' <= c && c <= '\u{200a}') || c == '\u{2028}' || c
        == '\u{2029}' || c == '\u{202f}' || c == '\u{205f}' || c == '\u{3000}'
}

/// ASCII whitespace as used by `split_ascii_whitespace`.
pub open spec fn is_ascii_ws(c: char) -> bool {
    c == ' ' || c == '\t' || c == '\n' || c == '\u{c}' || c == '\r'
}

/// `s` with every `"\r\n"` and every remaining `'\r'` replaced by `'\n'`.
pub open spec fn normalize_newlines(s: Seq<char>) -> Seq<char>
    decreases s.len(),
{
    if s.len() == 0 {
        seq![]
    } else if s[0] == '\r' && s.len() >= 2 && s[1] == '\n' {
        seq!['\n'] + normalize_newlines(s.skip(2))
    } else if s[0] == '\r' {
        seq!['\n'] + normalize_newlines(s.skip(1))
    } else {
        seq![s[0]] + normalize_newlines(s.skip(1))
    }
}

/// Normalising newlines leaves no carriage return.
pub proof fn lemma_normalized_has_no_cr(s: Seq<char>)
    ensures
        forall|k: int| 0 <= k < normalize_newlines(s).len() ==> #[trigger] normalize_newlines(s)[k] != '\r',
    decreases s.len(),
{
    if s.len() > 0 {
        if s[0] == '\r' && s.len() >= 2 && s[1] == '\n' {
            lemma_normalized_has_no_cr(s.skip(2));
        } else {
            lemma_normalized_has_no_cr(s.skip(1));
        }
        let n = normalize_newlines(s);
        let rest = if s[0] == '\r' && s.len() >= 2 && s[1] == '\n' { normalize_newlines(s.skip(2)) } else { normalize_newlines(s.skip(1)) };
        assert forall|k: int| 0 <= k < n.len() implies #[trigger] n[k] != '\r' by {
            if k > 0 {
                assert(n[k] == rest[k - 1]);
            }
        }
    }
}

/// Text without carriage returns is already normalised.
pub proof fn lemma_no_cr_normalized(s: Seq<char>)
    requires
        forall|k: int| 0 <= k < s.len() ==> s[k] != '\r',
    ensures
        normalize_newlines(s) == s,
    decreases s.len(),
{
    if s.len() > 0 {
        assert forall|k: int| 0 <= k < s.skip(1).len() implies s.skip(1)[k] != '\r' by {
            assert(s.skip(1)[k] == s[k + 1]);
        }
        lemma_no_cr_normalized(s.skip(1));
        assert(seq![s[0]] + s.skip(1) =~= s);
    }
}

/// Executable newline normalisation.
pub fn normalize_newline_chars(s: &[char]) -> (r: Vec<char>)
    ensures
        r@ == normalize_newlines(s@),
{
    let mut r: Vec<char> = Vec::new();
    let mut i: usize = 0;
    assert(s@.skip(0) =~= s@);
    while i < s.len()
        invariant
            i <= s.len(),
            r@ + normalize_newlines(s@.skip(i as int)) == normalize_newlines(s@),
        decreases s.len() - i,
    {
        let ghost rest = s@.skip(i as int);
        if s[i] == '\r' && i + 1 < s.len() && s[i + 1] == '\n' {
            r.push('\n');
            assert(rest.skip(2) =~= s@.skip(i + 2));
            i += 2;
        } else if s[i] == '\r' {
            r.push('\n');
            assert(rest.skip(1) =~= s@.skip(i + 1));
            i += 1;
        } else {
            r.push(s[i]);
            assert(rest.skip(1) =~= s@.skip(i + 1));
            i += 1;
        }
    }
    r
}

/// The pieces of `s` between occurrences of `sep` (`str::split(sep)`).
pub open spec fn split_on(s: Seq<char>, sep: char) -> Seq<Seq<char>>
    decreases s.len(),
{
    if s.len() == 0 {
        seq![seq![]]
    } else {
        let prev = split_on(s.drop_last(), sep);
        if s.last() == sep {
            prev.push(seq![])
        } else {
            prev.update(prev.len() - 1, prev.last().push(s.last()))
        }
    }
}

pub proof fn lemma_split_on_nonempty(s: Seq<char>, sep: char)
    ensures
        split_on(s, sep).len() >= 1,
    decreases s.len(),
{
    if s.len() > 0 {
        lemma_split_on_nonempty(s.drop_last(), sep);
    }
}

/// Executable `split(sep)`.
pub fn split_chars(s: &[char], sep: char) -> (r: Vec<Vec<char>>)
    ensures
        seqs_of(r@) == split_on(s@, sep),
        r.len() >= 1,
{
    let mut rows: Vec<Vec<char>> = Vec::new();
    let mut current: Vec<char> = Vec::new();
    let mut i: usize = 0;
    while i < s.len()
        invariant
            i <= s.len(),
            seqs_of(rows@).push(current@) == split_on(s@.take(i as int), sep),
        decreases s.len() - i,
    {
        let ghost before = seqs_of(rows@).push(current@);
        assert(s@.take(i + 1).drop_last() =~= s@.take(i as int));
        if s[i] == sep {
            let done = current;
            rows.push(done);
            current = Vec::new();
            assert(seqs_of(rows@).push(current@) =~= before.push(seq![]));
        } else {
            current.push(s[i]);
            assert(seqs_of(rows@).push(current@) =~= before.update(
                before.len() - 1,
                before.last().push(s@[i as int]),
            ));
        }
        i += 1;
    }
    assert(s@.take(s.len() as int) =~= s@);
    rows.push(current);
    rows
}

/// `s` without one trailing `'\r'`.
pub open spec fn strip_cr(s: Seq<char>) -> Seq<char> {
    if s.len() > 0 && s.last() == '\r' { s.drop_last() } else { s }
}

/// The lines of `s` as `str::lines` yields them: pieces between `'\n'`,
/// a `'\r'` before a `'\n'` removed, and no final empty piece.
pub open spec fn lines_of(s: Seq<char>) -> Seq<Seq<char>> {
    let p = split_on(s, '\n');
    let init = p.drop_last().map_values(|l: Seq<char>| strip_cr(l));
    if p.last().len() == 0 { init } else { init.push(p.last()) }
}

/// Executable `str::lines`.
pub fn lines_chars(s: &[char]) -> (r: Vec<Vec<char>>)
    ensures
        seqs_of(r@) == lines_of(s@),
{
    let parts = split_chars(s, '\n');
    let ghost p = seqs_of(parts@);
    let n = parts.len();
    let mut r: Vec<Vec<char>> = Vec::new();
    let mut i: usize = 0;
    while i + 1 < n
        invariant
            n == parts.len(),
            n >= 1,
            p == seqs_of(parts@),
            i + 1 <= n,
            seqs_of(r@) == p.drop_last().take(i as int).map_values(|l: Seq<char>| strip_cr(l)),
        decreases n - i,
    {
        let line = &parts[i];
        let len = line.len();
        let piece = if len > 0 && line[len - 1] == '\r' {
            slice_chars(line.as_slice(), 0, len - 1)
        } else {
            slice_chars(line.as_slice(), 0, len)
        };
        proof {
            assert(p[i as int] == line@);
            assert(line@.subrange(0, len as int) =~= line@);
            if len > 0 {
                assert(line@.drop_last() =~= line@.subrange(0, len - 1));
            }
        }
        let ghost before = r@;
        r.push(piece);
        assert(seqs_of(r@) =~= seqs_of(before).push(piece@));
        assert(piece@ == strip_cr(p[i as int]));
        assert(p.drop_last().take(i + 1).map_values(|l: Seq<char>| strip_cr(l)) =~= p.drop_last().take(
            i as int,
        ).map_values(|l: Seq<char>| strip_cr(l)).push(strip_cr(p[i as int])));
        i += 1;
    }
    assert(p.drop_last().take(i as int) =~= p.drop_last());
    let last = &parts[n - 1];
    if last.len() > 0 {
        let l = slice_chars(last.as_slice(), 0, last.len());
        assert(last@.subrange(0, last.len() as int) =~= last@);
        r.push(l);
    }
    assert(seqs_of(r@) =~= lines_of(s@));
    r
}

/// `s` without leading whitespace (`str::trim_start`).
pub open spec fn trim_start(s: Seq<char>) -> Seq<char>
    decreases s.len(),
{
    if s.len() > 0 && is_ws(s[0]) { trim_start(s.skip(1)) } else { s }
}

/// `s` without trailing whitespace (`str::trim_end`).
pub open spec fn trim_end(s: Seq<char>) -> Seq<char>
    decreases s.len(),
{
    if s.len() > 0 && is_ws(s.last()) { trim_end(s.drop_last()) } else { s }
}

/// `s` without leading and trailing whitespace (`str::trim`).
pub open spec fn trim(s: Seq<char>) -> Seq<char> {
    trim_end(trim_start(s))
}

/// The index where `trim_start(s)` begins.
pub fn trim_start_index(s: &[char]) -> (i: usize)
    ensures
        i <= s.len(),
        s@.skip(i as int) == trim_start(s@),
{
    let mut i: usize = 0;
    assert(s@.skip(0) =~= s@);
    while i < s.len() && is_whitespace(s[i])
        invariant
            i <= s.len(),
            trim_start(s@.skip(i as int)) == trim_start(s@),
        decreases s.len() - i,
    {
        assert(s@.skip(i as int).skip(1) =~= s@.skip(i + 1));
        i += 1;
    }
    proof {
        if i == s.len() {
            assert(s@.skip(i as int).len() == 0);
        }
    }
    i
}

/// The index where `trim_end(s)` ends.
pub fn trim_end_index(s: &[char]) -> (j: usize)
    ensures
        j <= s.len(),
        s@.take(j as int) == trim_end(s@),
{
    let mut j: usize = s.len();
    assert(s@.take(j as int) =~= s@);
    while j > 0 && is_whitespace(s[j - 1])
        invariant
            j <= s.len(),
            trim_end(s@.take(j as int)) == trim_end(s@),
        decreases j,
    {
        assert(s@.take(j as int).drop_last() =~= s@.take(j - 1));
        j -= 1;
    }
    j
}

pub proof fn lemma_trim_end_is_prefix(s: Seq<char>)
    ensures
        trim_end(s).len() <= s.len(),
        trim_end(s) == s.take(trim_end(s).len() as int),
    decreases s.len(),
{
    if s.len() > 0 && is_ws(s.last()) {
        lemma_trim_end_is_prefix(s.drop_last());
        assert(s.drop_last().take(trim_end(s).len() as int) =~= s.take(trim_end(s).len() as int));
    } else {
        assert(s.take(s.len() as int) =~= s);
    }
}

/// Executable `str::trim`, as a copy.
pub fn trim_chars(s: &[char]) -> (r: Vec<char>)
    ensures
        r@ == trim(s@),
{
    let i = trim_start_index(s);
    let rest = slice_chars(s, i, s.len());
    assert(rest@ =~= s@.skip(i as int));
    let j = trim_end_index(rest.as_slice());
    slice_chars(rest.as_slice(), 0, j)
}

/// Executable `str::trim_end`, as a copy.
pub fn trim_end_chars(s: &[char]) -> (r: Vec<char>)
    ensures
        r@ == trim_end(s@),
{
    let j = trim_end_index(s);
    slice_chars(s, 0, j)
}

/// Whether the trimmed `s` is empty, i.e. `s` is all whitespace.
pub open spec fn is_blank(s: Seq<char>) -> bool {
    forall|i: int| 0 <= i < s.len() ==> is_ws(#[trigger] s[i])
}

pub proof fn lemma_trim_start_blank(s: Seq<char>)
    ensures
        (trim_start(s).len() == 0) == is_blank(s),
    decreases s.len(),
{
    if s.len() > 0 && is_ws(s[0]) {
        lemma_trim_start_blank(s.skip(1));
        if is_blank(s.skip(1)) {
            assert forall|i: int| 0 <= i < s.len() implies is_ws(#[trigger] s[i]) by {
                if i > 0 {
                    assert(s[i] == s.skip(1)[i - 1]);
                }
            }
        }
        if is_blank(s) {
            assert forall|i: int| 0 <= i < s.skip(1).len() implies is_ws(
                #[trigger] s.skip(1)[i],
            ) by {
                assert(s.skip(1)[i] == s[i + 1]);
            }
        }
    } else if s.len() > 0 {
        assert(!is_ws(s[0]));
    }
}

pub proof fn lemma_trim_end_nonblank(s: Seq<char>)
    requires
        trim_start(s).len() > 0,
    ensures
        trim(s).len() > 0,
    decreases s.len(),
{
    let t = trim_start(s);
    lemma_trim_start_not_ws(s);
    lemma_trim_end_keeps_first(t);
}

proof fn lemma_trim_start_not_ws(s: Seq<char>)
    ensures
        trim_start(s).len() > 0 ==> !is_ws(trim_start(s)[0]),
    decreases s.len(),
{
    if s.len() > 0 && is_ws(s[0]) {
        lemma_trim_start_not_ws(s.skip(1));
    }
}

proof fn lemma_trim_end_keeps_first(t: Seq<char>)
    requires
        t.len() > 0,
        !is_ws(t[0]),
    ensures
        trim_end(t).len() > 0,
    decreases t.len(),
{
    if is_ws(t.last()) {
        assert(t.len() > 1);
        lemma_trim_end_keeps_first(t.drop_last());
    }
}

/// Whether `s` is empty after trimming.
pub fn blank(s: &[char]) -> (r: bool)
    ensures
        r == is_blank(s@),
        r == (trim(s@).len() == 0),
{
    let i = trim_start_index(s);
    proof {
        lemma_trim_start_blank(s@);
        if i < s.len() {
            lemma_trim_end_nonblank(s@);
        }
    }
    i == s.len()
}

} // verus!
