//! The input editor's state outside the text buffer itself: a pending stdin
//! request, the status-bar label, navigation through submitted cells, the
//! ghost suggestion taken from history, and the mapping between (row,
//! column) cursors and byte offsets.
use vstd::prelude::*;

use crate::chars::{
    chars_of, extend_str, has_prefix, owned, push_decimal, slice_chars, starts_with, string_from,
    char_len_utf8, decimal, utf8_len,
};
use crate::lines::{lines_chars, lines_of, split_chars, split_on};

verus! {

broadcast use vstd::string::group_string_axioms;

/// The number of spaces Tab inserts.
pub fn indent_width() -> (r: usize)
    ensures
        r == 4,
{
    4
}

/// An input request from the kernel that the editor is answering.
#[derive(Debug, Clone, PartialEq, Eq)]
pub struct PendingStdin {
    pub prompt: String,
    pub password: bool,
}

impl PendingStdin {
    pub fn new(prompt: String, password: bool) -> (r: Self)
        ensures
            r.prompt@ == prompt@,
            r.password == password,
    {
        PendingStdin { prompt, password }
    }

    /// The prompt text the kernel sent.
    pub fn prompt(&self) -> (r: &str)
        ensures
            r@ == self.prompt@,
    {
        self.prompt.as_str()
    }

    /// Whether the reply is a password (not echoed).
    pub fn password(&self) -> (r: bool)
        ensures
            r == self.password,
    {
        self.password
    }

    /// The prompt to show, or nothing where it is empty.
    pub fn visible_prompt(&self) -> (r: Option<&str>)
        ensures
            match r {
                Some(p) => p@ == self.prompt@ && self.prompt@.len() > 0,
                None => self.prompt@.len() == 0,
            },
    {
        if chars_of(self.prompt.as_str()).len() > 0 {
            Some(self.prompt.as_str())
        } else {
            None
        }
    }
}

/// The status-bar detail: nothing while stdin is pending, else the prompt
/// label, followed by ` [current/total]` while browsing history.
pub open spec fn status_label_spec(
    awaiting_input: bool,
    prompt_label: Seq<char>,
    history_position: Option<(usize, usize)>,
) -> Option<Seq<char>> {
    if awaiting_input {
        None
    } else {
        Some(
            match history_position {
                Some((current, total)) => prompt_label + " ["@ + decimal(current as nat) + "/"@
                    + decimal(total as nat) + "]"@,
                None => prompt_label,
            },
        )
    }
}

/// The editor's status-bar label.
pub fn status_label(
    awaiting_input: Option<&PendingStdin>,
    prompt_label: &str,
    history_position: Option<(usize, usize)>,
) -> (r: Option<String>)
    ensures
        match r {
            Some(s) => status_label_spec(awaiting_input is Some, prompt_label@, history_position)
                == Some(s@),
            None => status_label_spec(awaiting_input is Some, prompt_label@, history_position)
                is None,
        },
{
    if awaiting_input.is_some() {
        return None;
    }
    let mut out: Vec<char> = Vec::new();
    extend_str(&mut out, prompt_label);
    match history_position {
        Some((current, total)) => {
            extend_str(&mut out, " [");
            push_decimal(&mut out, current as u64);
            extend_str(&mut out, "/");
            push_decimal(&mut out, total as u64);
            extend_str(&mut out, "]");
        },
        None => {},
    }
    Some(string_from(out.as_slice()))
}

/// Where browsing stands after a step up among `len` cells: the previous
/// cell, or the newest where not browsing, and never past the oldest.
pub open spec fn history_up_index(index: Option<usize>, len: nat) -> usize {
    match index {
        Some(i) => if i == 0 { 0usize } else { (i - 1) as usize },
        None => (len - 1) as usize,
    }
}

/// Where browsing stands after a step down among `len` cells: the next
/// cell, or no longer browsing past the newest.
pub open spec fn history_down_index(index: Option<usize>, len: nat) -> Option<usize> {
    match index {
        Some(i) => if i + 1 < len { Some((i + 1) as usize) } else { None },
        None => None,
    }
}

/// Submitted cells, and the one the editor shows while browsing them.
#[derive(Debug)]
pub struct EditorHistory {
    pub entries: Vec<String>,
    pub index: Option<usize>,
}

/// What the editor's buffer becomes after a history move.
#[derive(Debug)]
pub enum HistoryMove {
    /// Show this cell's text.
    Show(String),
    /// Clear the buffer.
    Clear,
    /// Leave the buffer as it is.
    Keep,
}

impl EditorHistory {
    /// The browsing position stays inside the list.
    pub open spec fn wf(&self) -> bool {
        match self.index {
            Some(i) => i < self.entries.len(),
            None => true,
        }
    }

    pub fn new() -> (r: Self)
        ensures
            r.entries@.len() == 0,
            r.index is None,
            r.wf(),
    {
        EditorHistory { entries: Vec::new(), index: None }
    }

    /// Steps to the previous cell (from the newest where not browsing),
    /// staying at the oldest.
    pub fn history_up(&mut self) -> (r: String)
        requires
            old(self).wf(),
            old(self).entries.len() > 0,
        ensures
            final(self).wf(),
            final(self).entries == old(self).entries,
            final(self).index == Some(history_up_index(old(self).index, old(self).entries.len() as nat)),
            r@ == final(self).entries@[final(self).index->0 as int]@,
    {
        let next = match self.index {
            Some(index) => if index == 0 { 0 } else { index - 1 },
            None => self.entries.len() - 1,
        };
        self.index = Some(next);
        self.entries[next].clone()
    }

    /// Steps to the next cell; past the newest, stops browsing and clears
    /// the buffer.
    pub fn history_down(&mut self) -> (r: HistoryMove)
        requires
            old(self).wf(),
        ensures
            final(self).wf(),
            final(self).entries == old(self).entries,
            final(self).index == history_down_index(old(self).index, old(self).entries.len() as nat),
            match old(self).index {
                Some(i) => if i + 1 < old(self).entries.len() {
                    r matches HistoryMove::Show(t) && t@ == old(self).entries@[i + 1]@
                } else {
                    r is Clear
                },
                None => r is Keep,
            },
    {
        match self.index {
            Some(index) => {
                if index + 1 < self.entries.len() {
                    self.index = Some(index + 1);
                    HistoryMove::Show(self.entries[index + 1].clone())
                } else {
                    self.index = None;
                    HistoryMove::Clear
                }
            },
            None => HistoryMove::Keep,
        }
    }

    /// Appends a submitted cell and stops browsing.
    pub fn push_history(&mut self, text: String)
        ensures
            final(self).wf(),
            final(self).entries@ == old(self).entries@.push(text),
            final(self).index is None,
    {
        self.entries.push(text);
        self.index = None;
    }

    /// Drops the newest cell where it is `text`, and stops browsing then.
    pub fn pop_history_if_last(&mut self, text: &str)
        requires
            old(self).wf(),
        ensures
            final(self).wf(),
            if old(self).entries.len() > 0 && old(self).entries@.last()@ == text@ {
                final(self).entries@ == old(self).entries@.drop_last() && final(self).index is None
            } else {
                final(self).entries@ == old(self).entries@ && final(self).index == old(self).index
            },
    {
        let n = self.entries.len();
        if n > 0 && crate::chars::str_eq(self.entries[n - 1].as_str(), text) {
            self.entries.pop();
            self.index = None;
        }
    }

    /// Shows the cell at `index`, where there is one.
    pub fn select_history(&mut self, index: usize) -> (r: Option<String>)
        requires
            old(self).wf(),
        ensures
            final(self).wf(),
            final(self).entries == old(self).entries,
            index < old(self).entries.len() ==> (final(self).index == Some(index) && (r matches Some(
                t,
            ) && t@ == old(self).entries@[index as int]@)),
            index >= old(self).entries.len() ==> final(self).index == old(self).index && r is None,
    {
        if index < self.entries.len() {
            self.index = Some(index);
            Some(self.entries[index].clone())
        } else {
            None
        }
    }

    /// `(position, total)` while browsing, 1-based.
    pub fn history_position(&self) -> (r: Option<(usize, usize)>)
        requires
            self.wf(),
        ensures
            match self.index {
                Some(i) => r == Some(((i + 1) as usize, self.entries.len())),
                None => r is None,
            },
    {
        match self.index {
            Some(index) => Some((index + 1, self.entries.len())),
            None => None,
        }
    }
}

/// The rest of the first line of `entry` that starts with `prefix` and is
/// longer than it.
pub open spec fn suggestion_in(lines: Seq<Seq<char>>, prefix: Seq<char>) -> Option<Seq<char>>
    decreases lines.len(),
{
    if lines.len() == 0 {
        None
    } else if has_prefix(lines[0], prefix) && lines[0].len() > prefix.len() {
        Some(lines[0].skip(prefix.len() as int))
    } else {
        suggestion_in(lines.skip(1), prefix)
    }
}

/// The suggestion a history entry offers for a line prefix: nothing for
/// an empty prefix.
pub open spec fn suggestion_spec(entry: Seq<char>, prefix: Seq<char>) -> Option<Seq<char>> {
    if prefix.len() == 0 {
        None
    } else {
        suggestion_in(lines_of(entry), prefix)
    }
}

/// The completion a history entry suggests for the current line prefix.
pub fn history_suggestion_suffix_for_line_prefix(entry: &str, prefix: &str) -> (r: Option<String>)
    ensures
        match r {
            Some(s) => suggestion_spec(entry@, prefix@) == Some(s@),
            None => suggestion_spec(entry@, prefix@) is None,
        },
{
    let p = chars_of(prefix);
    if p.len() == 0 {
        return None;
    }
    let e = chars_of(entry);
    let ls = lines_chars(e.as_slice());
    let ghost all = crate::chars::seqs_of(ls@);
    let mut i: usize = 0;
    assert(all.skip(0) =~= all);
    while i < ls.len()
        invariant
            i <= ls.len(),
            all == crate::chars::seqs_of(ls@),
            all == lines_of(entry@),
            p@ == prefix@,
            p@.len() > 0,
            suggestion_in(all, p@) == suggestion_in(all.skip(i as int), p@),
        decreases ls.len() - i,
    {
        let line = &ls[i];
        if starts_with(line.as_slice(), p.as_slice()) && line.len() > p.len() {
            let rest = slice_chars(line.as_slice(), p.len(), line.len());
            assert(rest@ =~= line@.skip(p.len() as int));
            assert(all.skip(i as int)[0] == line@);
            return Some(string_from(rest.as_slice()));
        }
        assert(all.skip(i as int).skip(1) =~= all.skip(i + 1));
        i += 1;
    }
    None
}

/// The text after the last `'\n'`.
pub open spec fn last_line(text: Seq<char>) -> Seq<char> {
    split_on(text, '\n').last()
}

/// The first suggestion among the entries, newest first.
pub open spec fn newest_suggestion(entries: Seq<Seq<char>>, prefix: Seq<char>) -> Option<Seq<char>>
    decreases entries.len(),
{
    if entries.len() == 0 {
        None
    } else {
        match suggestion_spec(entries.last(), prefix) {
            Some(s) => Some(s),
            None => newest_suggestion(entries.drop_last(), prefix),
        }
    }
}

/// The ghost suggestion shown after the cursor: only in insert mode, with a
/// non-empty buffer and the cursor at its end; taken from the newest
/// history entry with a line that extends the buffer's last line.
pub open spec fn ghost_spec(insert_mode: bool, text: Seq<char>, cursor_at_end: bool, entries: Seq<Seq<char>>) -> Option<Seq<char>> {
    if !insert_mode || text.len() == 0 || !cursor_at_end {
        None
    } else {
        newest_suggestion(entries, last_line(text))
    }
}

impl EditorHistory {
    /// The ghost suggestion for the buffer `text` with the cursor at byte
    /// `cursor_byte` (`text_bytes` being the buffer's length in bytes).
    pub fn ghost_suggestion_suffix(&self, insert_mode: bool, text: &str, cursor_at_end: bool) -> (r: Option<String>)
        ensures
            match r {
                Some(s) => ghost_spec(insert_mode, text@, cursor_at_end, crate::chars::strs_of(self.entries@))
                    == Some(s@),
                None => ghost_spec(insert_mode, text@, cursor_at_end, crate::chars::strs_of(self.entries@)) is None,
            },
    {
        let t = chars_of(text);
        if !insert_mode || t.len() == 0 || !cursor_at_end {
            return None;
        }
        let pieces = split_chars(t.as_slice(), '\n');
        let last = string_from(pieces[pieces.len() - 1].as_slice());
        assert(last@ == last_line(text@));
        let ghost es = crate::chars::strs_of(self.entries@);
        let mut k: usize = self.entries.len();
        assert(es.take(k as int) =~= es);
        while k > 0
            invariant
                k <= self.entries.len(),
                es == crate::chars::strs_of(self.entries@),
                newest_suggestion(es, last@) == newest_suggestion(es.take(k as int), last@),
                insert_mode,
                cursor_at_end,
                text@.len() > 0,
                last@ == last_line(text@),
            decreases k,
        {
            assert(es.take(k as int).drop_last() =~= es.take(k - 1));
            assert(es.take(k as int).last() == self.entries@[k - 1]@);
            match history_suggestion_suffix_for_line_prefix(self.entries[k - 1].as_str(), last.as_str()) {
                Some(s) => {
                    return Some(s);
                },
                None => {},
            }
            k -= 1;
        }
        None
    }
}

/// A step up followed by a step down comes back to where browsing stood:
/// to the same cell when it was not the oldest, and from not browsing at
/// all back to a blank buffer (the newest cell has no next one).
pub proof fn law_history_up_then_down_returns(index: Option<usize>, len: nat)
    requires
        0 < len <= usize::MAX,
        index matches Some(i) ==> 0 < i < len,
    ensures
        history_down_index(Some(history_up_index(index, len)), len) == index,
{
}

proof fn lemma_suggestion_in_completes(lines: Seq<Seq<char>>, prefix: Seq<char>)
    ensures
        suggestion_in(lines, prefix) matches Some(sfx) ==> sfx.len() > 0 && exists|i: int|
            0 <= i < lines.len() && #[trigger] lines[i] == prefix + sfx,
        suggestion_in(lines, prefix) is None ==> forall|i: int| 0 <= i < lines.len()
            ==> !(has_prefix(#[trigger] lines[i], prefix) && lines[i].len() > prefix.len()),
    decreases lines.len(),
{
    if lines.len() > 0 {
        lemma_suggestion_in_completes(lines.skip(1), prefix);
        if has_prefix(lines[0], prefix) && lines[0].len() > prefix.len() {
            assert(lines[0] =~= prefix + lines[0].skip(prefix.len() as int));
        } else {
            if suggestion_in(lines.skip(1), prefix) is Some {
                let sfx = suggestion_in(lines.skip(1), prefix)->0;
                let i = choose|i: int| 0 <= i < lines.skip(1).len() && #[trigger] lines.skip(1)[i] == prefix + sfx;
                assert(lines[i + 1] == lines.skip(1)[i]);
            } else {
                assert forall|i: int| 0 <= i < lines.len() implies !(has_prefix(#[trigger] lines[i], prefix)
                    && lines[i].len() > prefix.len()) by {
                    if i > 0 {
                        assert(lines[i] == lines.skip(1)[i - 1]);
                    }
                }
            }
        }
    }
}

proof fn lemma_newest_suggestion_completes(entries: Seq<Seq<char>>, prefix: Seq<char>)
    ensures
        newest_suggestion(entries, prefix) matches Some(sfx) ==> sfx.len() > 0 && exists|k: int, i: int|
            0 <= k < entries.len() && 0 <= i < lines_of(entries[k]).len()
            && #[trigger] lines_of(entries[k])[i] == prefix + sfx,
    decreases entries.len(),
{
    if entries.len() > 0 {
        lemma_newest_suggestion_completes(entries.drop_last(), prefix);
        let k = entries.len() - 1;
        lemma_suggestion_in_completes(lines_of(entries[k]), prefix);
        if suggestion_spec(entries.last(), prefix) is None {
            if newest_suggestion(entries.drop_last(), prefix) is Some {
                let sfx = newest_suggestion(entries.drop_last(), prefix)->0;
                let (k0, i0) = choose|k0: int, i0: int| 0 <= k0 < entries.drop_last().len() && 0 <= i0 < lines_of(
                    entries.drop_last()[k0],
                ).len() && #[trigger] lines_of(entries.drop_last()[k0])[i0] == prefix + sfx;
                assert(entries[k0] == entries.drop_last()[k0]);
            }
        }
    }
}

/// A suggestion completes the line being typed: it is never empty, and the
/// line followed by it is a whole line of one of the history entries. For a
/// single entry, the suggestion comes from its first line that extends the
/// prefix, and there is none where no line does or the prefix is empty.
pub proof fn law_suggestion_completes_the_line(
    insert_mode: bool,
    text: Seq<char>,
    cursor_at_end: bool,
    entries: Seq<Seq<char>>,
    entry: Seq<char>,
    prefix: Seq<char>,
)
    ensures
        ghost_spec(insert_mode, text, cursor_at_end, entries) matches Some(sfx) ==> ({
            &&& insert_mode && cursor_at_end && text.len() > 0
            &&& sfx.len() > 0
            &&& exists|k: int, i: int| 0 <= k < entries.len() && 0 <= i < lines_of(entries[k]).len()
                && #[trigger] lines_of(entries[k])[i] == last_line(text) + sfx
        }),
        suggestion_spec(entry, prefix) matches Some(sfx) ==> sfx.len() > 0 && exists|i: int|
            0 <= i < lines_of(entry).len() && #[trigger] lines_of(entry)[i] == prefix + sfx,
        suggestion_spec(entry, prefix) is None && prefix.len() > 0 ==> forall|i: int| 0 <= i < lines_of(entry).len()
            ==> !(has_prefix(#[trigger] lines_of(entry)[i], prefix) && lines_of(entry)[i].len() > prefix.len()),
{
    lemma_suggestion_in_completes(lines_of(entry), prefix);
    lemma_newest_suggestion_completes(entries, last_line(text));
}

} // verus!
