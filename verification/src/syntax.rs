//! Python syntax highlighting of cells, as 24-bit ANSI-coloured lines, with
//! the theme and syntax definitions bundled with the editor widget.
use vstd::prelude::*;

use edtui::syntect::{easy::HighlightLines, util::{as_24_bit_terminal_escaped, LinesWithEndings}};
use edtui::{SYNTAX_SET, THEME_SET};

use crate::chars::{chars_of, seqs_of, string_from, strs_of};
use crate::lines::split_on;

verus! {

broadcast use vstd::string::group_string_axioms;

/// The file extension that selects the Python syntax.
pub open spec fn python_extension() -> Seq<char> {
    "py"@
}

/// The colour theme used for Python code.
pub open spec fn python_theme() -> Seq<char> {
    "base16-ocean-dark"@
}

/// The highlighted lines of `code` (one per line, each with its line
/// ending), with the syntax chosen by `extension` and the theme `theme`;
/// nothing where the theme is unknown or highlighting fails.
pub uninterp spec fn highlight_lines(code: Seq<char>, extension: Seq<char>, theme: Seq<char>) -> Option<Seq<Seq<char>>>;

/// Highlights `code` with syntect: the syntax for `extension` (plain text
/// where there is none), the theme `theme` from the editor widget's bundled
/// theme set, each line of `LinesWithEndings` rendered with
/// `as_24_bit_terminal_escaped` (no background). The result is a function of
/// the arguments alone, as the syntax and theme sets are built from data
/// bundled in the crates.
#[verifier::external_body]
fn syntect_highlight(code: &str, extension: &str, theme: &str) -> (r: Option<Vec<String>>)
    ensures
        match r {
            Some(v) => highlight_lines(code@, extension@, theme@) == Some(strs_of(v@)),
            None => highlight_lines(code@, extension@, theme@) is None,
        },
{
    let syntax = SYNTAX_SET
        .find_syntax_by_extension(extension)
        .unwrap_or_else(|| SYNTAX_SET.find_syntax_plain_text());
    let theme = THEME_SET.themes.get(theme)?;
    let mut highlighter = HighlightLines::new(syntax, theme);
    let mut lines = Vec::new();
    for line in LinesWithEndings::from(code) {
        let ranges = highlighter.highlight_line(line, &SYNTAX_SET).ok()?;
        lines.push(as_24_bit_terminal_escaped(&ranges, false));
    }
    Some(lines)
}

/// `s` without trailing `'\r'` and `'\n'` characters.
pub open spec fn trim_line_ending(s: Seq<char>) -> Seq<char>
    decreases s.len(),
{
    if s.len() > 0 && (s.last() == '\r' || s.last() == '\n') {
        trim_line_ending(s.drop_last())
    } else {
        s
    }
}

/// The highlighted lines as the preview and transcript use them: line
/// endings trimmed where asked, and one empty line for empty code.
pub open spec fn python_lines_spec(code: Seq<char>, trim_line_endings: bool) -> Option<Seq<Seq<char>>> {
    match highlight_lines(code, python_extension(), python_theme()) {
        Some(v) => {
            let t = if trim_line_endings { v.map_values(|l: Seq<char>| trim_line_ending(l)) } else { v };
            Some(if t.len() == 0 { seq![Seq::empty()] } else { t })
        },
        None => None,
    }
}

fn trim_line_ending_chars(s: &[char]) -> (r: Vec<char>)
    ensures
        r@ == trim_line_ending(s@),
{
    let mut n = s.len();
    assert(s@.take(n as int) =~= s@);
    while n > 0 && (s[n - 1] == '\r' || s[n - 1] == '\n')
        invariant
            n <= s.len(),
            trim_line_ending(s@) == trim_line_ending(s@.take(n as int)),
        decreases n,
    {
        assert(s@.take(n as int).drop_last() =~= s@.take(n - 1));
        n -= 1;
    }
    assert(s@.take(n as int) =~= s@.subrange(0, n as int));
    crate::chars::slice_chars(s, 0, n)
}

/// Python-highlighted lines of `code`.
pub fn highlighted_python_lines(code: &str, trim_line_endings: bool) -> (r: Option<Vec<String>>)
    ensures
        match r {
            Some(v) => python_lines_spec(code@, trim_line_endings) == Some(strs_of(v@)),
            None => python_lines_spec(code@, trim_line_endings) is None,
        },
{
    let ext = string_from(chars_of("py").as_slice());
    let theme = string_from(chars_of("base16-ocean-dark").as_slice());
    let lines = match syntect_highlight(code, ext.as_str(), theme.as_str()) {
        Some(v) => v,
        None => {
            return None;
        },
    };
    let ghost hl = strs_of(lines@);
    let mut out: Vec<String> = Vec::new();
    let mut i: usize = 0;
    while i < lines.len()
        invariant
            i <= lines.len(),
            hl == strs_of(lines@),
            strs_of(out@) == (if trim_line_endings { hl.map_values(|l: Seq<char>| trim_line_ending(l)) } else { hl }).take(i as int),
        decreases lines.len() - i,
    {
        let ghost before = strs_of(out@);
        if trim_line_endings {
            let c = chars_of(lines[i].as_str());
            let t = trim_line_ending_chars(c.as_slice());
            out.push(string_from(t.as_slice()));
        } else {
            out.push(lines[i].clone());
        }
        assert(strs_of(out@) =~= before.push(strs_of(out@).last()));
        assert((if trim_line_endings { hl.map_values(|l: Seq<char>| trim_line_ending(l)) } else { hl }).take(i + 1) =~= (if trim_line_endings { hl.map_values(|l: Seq<char>| trim_line_ending(l)) } else { hl }).take(i as int).push(strs_of(out@).last()));
        i += 1;
    }
    let ghost t = if trim_line_endings { hl.map_values(|l: Seq<char>| trim_line_ending(l)) } else { hl };
    assert(t.take(lines.len() as int) =~= t);
    if out.len() == 0 {
        out.push(String::new());
        assert(strs_of(out@) =~= seq![Seq::<char>::empty()]);
    }
    Some(out)
}

/// The lines of the cell shown in the history-search preview: highlighted
/// where highlighting works, else the raw lines split at `'\n'`.
pub open spec fn preview_spec(code: Seq<char>) -> Seq<Seq<char>> {
    match python_lines_spec(code, true) {
        Some(v) => v,
        None => split_on(code, '\n'),
    }
}

/// The preview lines of a history entry.
pub fn syntax_highlighted_history_preview(code: &str) -> (r: Vec<String>)
    ensures
        strs_of(r@) == preview_spec(code@),
        r.len() >= 1,
{
    match highlighted_python_lines(code, true) {
        Some(v) => {
            proof {
                if v.len() == 0 {
                    assert(strs_of(v@).len() == 0);
                }
            }
            v
        },
        None => plain_history_preview(code),
    }
}

/// The raw lines of a cell split at `'\n'`.
pub fn plain_history_preview(code: &str) -> (r: Vec<String>)
    ensures
        strs_of(r@) == split_on(code@, '\n'),
        r.len() >= 1,
{
    let c = chars_of(code);
    let pieces = crate::lines::split_chars(c.as_slice(), '\n');
    let r = crate::chars::strings_from(&pieces);
    assert(strs_of(r@).len() == r@.len());
    r
}

proof fn lemma_trim_line_ending(s: Seq<char>)
    ensures
        trim_line_ending(s).len() > 0 ==> trim_line_ending(s).last() != '\r' && trim_line_ending(s).last() != '\n',
        trim_line_ending(s).is_prefix_of(s),
        forall|k: int| trim_line_ending(s).len() <= k < s.len() ==> s[k] == '\r' || s[k] == '\n',
    decreases s.len(),
{
    if s.len() > 0 && (s.last() == '\r' || s.last() == '\n') {
        lemma_trim_line_ending(s.drop_last());
        assert forall|k: int| trim_line_ending(s).len() <= k < s.len() implies s[k] == '\r' || s[k] == '\n' by {
            if k < s.len() - 1 {
                assert(s[k] == s.drop_last()[k]);
            }
        }
        assert forall|k: int| 0 <= k < trim_line_ending(s).len() implies trim_line_ending(s)[k] == s[k] by {
            assert(trim_line_ending(s)[k] == s.drop_last()[k]);
        }
    } else {
        assert(s.is_prefix_of(s));
    }
}

/// With line endings trimmed, no highlighted line ends in `'\r'` or
/// `'\n'`; either way there is always at least one line.
pub proof fn law_trimmed_lines_have_no_endings(code: Seq<char>)
    ensures
        python_lines_spec(code, true) matches Some(v) ==> v.len() >= 1 && forall|i: int| 0 <= i < v.len()
            ==> (#[trigger] v[i]).len() == 0 || (v[i].last() != '\r' && v[i].last() != '\n'),
        python_lines_spec(code, false) matches Some(v) ==> v.len() >= 1,
{
    match highlight_lines(code, python_extension(), python_theme()) {
        Some(v) => {
            let t = v.map_values(|l: Seq<char>| trim_line_ending(l));
            assert forall|i: int| 0 <= i < t.len() implies (#[trigger] t[i]).len() == 0 || (t[i].last() != '\r'
                && t[i].last() != '\n') by {
                lemma_trim_line_ending(v[i]);
            }
            if t.len() == 0 {
                assert(seq![Seq::<char>::empty()][0].len() == 0);
            }
        },
        None => {},
    }
}

} // verus!
