//! The live part of the display model derived from the interface state:
//! the editor's prompt and the overlay (palette or history search, with
//! the visible window of results and the wrapped preview of the selection).
use vstd::prelude::*;

use crate::chars::{extend_str, owned, str_eq, string_from, strs_of};
use crate::duration::{duration_text, format_duration_ns};
use crate::history_search::{
    highlighted_left_spec, history_search_layout_for_popup, layout_spec, metadata_spec, plain_left_spec, summary_for,
    summary_spec, timestamp_text_ok, HistorySearchEntry,
};
use crate::syntax::syntax_highlighted_history_preview;
use crate::prompt::{input_prompt_label_spec, palette_label, palette_items, palette_order};
use crate::render::{wrapped_lines, DisplayKernelStatus, DisplayModel, EditorModel, FooterModel, HistorySearchOverlayModel, HistorySearchResultModel, OverlayModel, PaletteOverlayModel};
use crate::ansi::wrap_ansi;
use crate::session::{footer_spec, UiState};
use crate::ui::EditorMode;
use crate::kernel::KernelStatus;
use crate::syntax::preview_spec;
use crate::transcript::wrap_ansi_to_width;
use crate::screen::{mn, sat_add, sat_sub};

verus! {

broadcast use vstd::string::group_string_axioms;

/// The editor's prompt: the stdin request's prompt (nothing for an empty
/// one) while answering one, else the input prompt label and `": "`.
pub open spec fn editor_prompt_spec(state: UiState) -> Seq<char> {
    match state.editor_stdin {
        Some(p) => p.prompt@,
        None => input_prompt_label_spec(state.last_execution_count) + ": "@,
    }
}

/// The positions of the results in the window `start..end` whose entries
/// exist, each with its entry's index.
pub open spec fn window(results: Seq<usize>, entry_count: nat, k: int, end: int) -> Seq<(int, int)>
    decreases end - k,
{
    if k >= end || k >= results.len() || k < 0 {
        seq![]
    } else {
        let rest = window(results, entry_count, k + 1, end);
        if results[k] < entry_count { seq![(k, results[k] as int)] + rest } else { rest }
    }
}

/// A result row's summary, where the entry has no timestamp (rows with a
/// timestamp show its local date and time: see `result_row_ok`).
pub open spec fn result_summary_spec(entry: HistorySearchEntry, width: nat) -> Seq<char> {
    summary_spec(
        width,
        highlighted_left_spec(entry.first_line@, entry.line_count as nat),
        plain_left_spec(entry.first_line@, entry.line_count as nat),
        metadata_spec(entry.duration_ns, None, entry.outcome),
    )
}

/// A result row shown for the `found` (position, entry) pair.
pub open spec fn result_row_ok(
    row: HistorySearchResultModel,
    found: (int, int),
    entries: Seq<HistorySearchEntry>,
    selected: usize,
    width: nat,
) -> bool {
    &&& 0 <= found.1 < entries.len()
    &&& row.selected == (found.0 == selected)
    &&& entries[found.1].timestamp_unix_ns is None ==> row.summary@ == result_summary_spec(entries[found.1], width)
    &&& exists|t: Option<Seq<char>>|
        #[trigger] timestamp_text_ok(entries[found.1].timestamp_unix_ns, t) && row.summary@ == summary_for(
            entries[found.1],
            width,
            t,
        )
}

/// The search popup's sizes at `pane_width` columns (and the pane height): the result
/// rows, the preview rows, and the summary width (two columns for the
/// selection marker, at least one left).
pub open spec fn search_layout(state: UiState, pane_width: u16) -> (nat, nat, nat) {
    let l = layout_spec(
        sat_sub(state.pane_height as int, 1) as nat,
        state.search.results.len() as nat,
        state.selected_preview_rows(),
    );
    let w: nat = if pane_width >= 3 { (pane_width - 2) as nat } else { 1 };
    (l.0, l.1, w)
}

/// The wrapped preview of the selected entry, cut to `rows` rows.
pub open spec fn preview_lines_spec(state: UiState, pane_width: u16, rows: nat) -> Seq<Seq<char>> {
    if state.search.selected < state.search.results.len()
        && state.search.results@[state.search.selected as int] < state.history_entries.len() {
        let entry = state.history_entries@[state.search.results@[state.search.selected as int] as int];
        let all = wrapped_lines(preview_spec(entry.code@), pane_width as nat);
        all.take(mn(all.len() as int, rows as int))
    } else {
        seq![]
    }
}

/// What the overlay shows for the interface state (see `overlay_model`).
pub open spec fn overlay_matches(state: UiState, pane_width: u16, r: OverlayModel) -> bool {
    if state.search.open {
        &&& r matches OverlayModel::HistorySearch(h)
        &&& {
            let lay = search_layout(state, pane_width);
            let win = window(
                state.search.results@,
                state.history_entries.len() as nat,
                state.search.scroll as int,
                sat_add(state.search.scroll as int, lay.0 as int),
            );
            let h = r->HistorySearch_0;
            &&& h.query@ == state.search.query@
            &&& h.selected == state.search.selected
            &&& strs_of(h.preview_lines@) == preview_lines_spec(state, pane_width, lay.1)
            &&& h.results.len() == win.len()
            &&& forall|i: int| 0 <= i < win.len() ==> #[trigger] result_row_ok(
                h.results@[i],
                win[i],
                state.history_entries@,
                state.search.selected,
                lay.2,
            )
        }
    } else if state.palette_open {
        &&& r matches OverlayModel::Palette(p)
        &&& r->Palette_0.selected == state.palette_index
        &&& strs_of(r->Palette_0.items@) == palette_order().map_values(|a| palette_label(a))
    } else {
        r == OverlayModel::Absent
    }
}

impl UiState {
    /// The prompt the editor shows.
    pub fn editor_prompt(&self) -> (r: String)
        ensures
            r@ == editor_prompt_spec(*self),
    {
        match &self.editor_stdin {
            Some(stdin) => match stdin.visible_prompt() {
                Some(p) => owned(p),
                None => String::new(),
            },
            None => {
                let label = self.prompt_label();
                let mut out = crate::chars::chars_of(label.as_str());
                extend_str(&mut out, ": ");
                string_from(out.as_slice())
            },
        }
    }

    fn preview_row_count(&self) -> (r: usize)
        ensures
            r == self.selected_preview_rows(),
    {
        let sel = self.search.selected;
        let n: usize = if sel < self.search.results.len() && self.search.results[sel] < self.history_entries.len() {
            self.history_entries[self.search.results[sel]].line_count
        } else {
            1
        };
        if n < 8 { n } else { 8 }
    }

    /// The overlay shown over the editor: the history search when open,
    /// else the palette when open, else none. The search shows its query,
    /// the window of results from the scroll offset (as many as the popup
    /// layout gives rows, the selected one marked) and the selected entry's
    /// highlighted preview wrapped to the pane width, cut to the preview
    /// rows.
    pub fn overlay_model(&self, pane_width: u16) -> (r: OverlayModel)
        requires
            self.wf(),
        ensures
            overlay_matches(*self, pane_width, r),
    {
        if self.search.open {
            let (rows, preview) = history_search_layout_for_popup(
                if self.pane_height >= 1 { self.pane_height - 1 } else { 0 },
                self.search.results.len(),
                self.preview_row_count(),
            );
            let ghost lay = search_layout(*self, pane_width);
            assert(rows as nat == lay.0 && preview as nat == lay.1);
            let width: usize = if pane_width >= 3 { pane_width as usize - 2 } else { 1 };
            let start = self.search.scroll;
            let end: usize = if start > usize::MAX - rows as usize { usize::MAX } else { start + rows as usize };
            let ghost entries = self.history_entries@;
            let ghost res = self.search.results@;
            let ghost target = window(res, entries.len() as nat, start as int, end as int);
            let mut results: Vec<HistorySearchResultModel> = Vec::new();
            let ghost mut found: Seq<(int, int)> = seq![];
            let mut k = start;
            while k < end && k < self.search.results.len()
                invariant
                    start <= k <= end,
                    res == self.search.results@,
                    entries == self.history_entries@,
                    target == window(res, entries.len() as nat, start as int, end as int),
                    target == found + window(res, entries.len() as nat, k as int, end as int),
                    results.len() == found.len(),
                    forall|i: int| 0 <= i < found.len() ==> #[trigger] result_row_ok(
                        results@[i],
                        found[i],
                        entries,
                        self.search.selected,
                        width as nat,
                    ),
                decreases end - k,
            {
                let e = self.search.results[k];
                if e < self.history_entries.len() {
                    let summary = self.history_entries[e].highlighted_summary(width);
                    let ghost before = results@;
                    let item = HistorySearchResultModel { summary, selected: k == self.search.selected };
                    assert(entries[e as int].timestamp_unix_ns is None ==> item.summary@ == result_summary_spec(
                        entries[e as int],
                        width as nat,
                    ));
                    results.push(item);
                    proof {
                        found = found.push((k as int, e as int));
                        assert(results@ == before.push(item));
                        assert forall|i: int| 0 <= i < found.len() implies #[trigger] result_row_ok(
                            results@[i],
                            found[i],
                            entries,
                            self.search.selected,
                            width as nat,
                        ) by {
                            if i < found.len() - 1 {
                                assert(results@[i] == before[i]);
                            }
                        }
                    }
                    assert(window(res, entries.len() as nat, k as int, end as int) =~= seq![(k as int, e as int)]
                        + window(res, entries.len() as nat, k + 1, end as int));
                } else {
                    assert(window(res, entries.len() as nat, k as int, end as int) == window(
                        res,
                        entries.len() as nat,
                        k + 1,
                        end as int,
                    ));
                }
                assert(target =~= found + window(res, entries.len() as nat, k + 1, end as int));
                k += 1;
            }
            assert(window(res, entries.len() as nat, k as int, end as int) =~= Seq::<(int, int)>::empty());
            assert(target =~= found);
            assert(width as nat == lay.2);
            assert(end as int == sat_add(start as int, lay.0 as int));
            let preview_lines = self.selected_preview(pane_width, preview as usize);
            OverlayModel::HistorySearch(HistorySearchOverlayModel {
                query: self.search.query.clone(),
                results,
                selected: self.search.selected,
                preview_lines,
            })
        } else if self.palette_open {
            let actions = palette_items();
            let mut items: Vec<String> = Vec::new();
            let mut i: usize = 0;
            while i < 5
                invariant
                    i <= 5,
                    actions@ == palette_order(),
                    strs_of(items@) == palette_order().take(i as int).map_values(|a| palette_label(a)),
                decreases 5 - i,
            {
                let ghost b = strs_of(items@);
                items.push(owned(actions[i].label()));
                assert(strs_of(items@) =~= b.push(palette_label(palette_order()[i as int])));
                assert(palette_order().take(i + 1).map_values(|a| palette_label(a)) =~= palette_order().take(
                    i as int,
                ).map_values(|a| palette_label(a)).push(palette_label(palette_order()[i as int])));
                i += 1;
            }
            assert(palette_order().take(5) =~= palette_order());
            OverlayModel::Palette(PaletteOverlayModel { items, selected: self.palette_index })
        } else {
            OverlayModel::Absent
        }
    }

    fn selected_preview(&self, pane_width: u16, rows: usize) -> (r: Vec<String>)
        ensures
            strs_of(r@) == preview_lines_spec(*self, pane_width, rows as nat),
    {
        let sel = self.search.selected;
        let mut out: Vec<String> = Vec::new();
        if !(sel < self.search.results.len() && self.search.results[sel] < self.history_entries.len()) {
            assert(strs_of(out@) =~= Seq::<Seq<char>>::empty());
            return out;
        }
        let entry = &self.history_entries[self.search.results[sel]];
        let lines = syntax_highlighted_history_preview(entry.code.as_str());
        let ghost ls = strs_of(lines@);
        let mut all: Vec<String> = Vec::new();
        let mut i: usize = 0;
        while i < lines.len()
            invariant
                i <= lines.len(),
                ls == strs_of(lines@),
                strs_of(all@) == wrapped_lines(ls.take(i as int), pane_width as nat),
            decreases lines.len() - i,
        {
            let wrapped = wrap_ansi_to_width(lines[i].as_str(), pane_width);
            let ghost before = strs_of(all@);
            let mut j: usize = 0;
            while j < wrapped.len()
                invariant
                    j <= wrapped.len(),
                    strs_of(all@) == before + strs_of(wrapped@).take(j as int),
                decreases wrapped.len() - j,
            {
                let ghost b = strs_of(all@);
                all.push(wrapped[j].clone());
                assert(strs_of(all@) =~= b.push(wrapped@[j as int]@));
                assert(strs_of(wrapped@).take(j + 1) =~= strs_of(wrapped@).take(j as int).push(wrapped@[j as int]@));
                j += 1;
            }
            assert(strs_of(wrapped@).take(wrapped.len() as int) =~= strs_of(wrapped@));
            assert(ls.take(i + 1).drop_last() =~= ls.take(i as int));
            i += 1;
        }
        assert(ls.take(lines.len() as int) =~= ls);
        let n: usize = if all.len() < rows { all.len() } else { rows };
        let mut k: usize = 0;
        while k < n
            invariant
                k <= n <= all.len(),
                strs_of(out@) == strs_of(all@).take(k as int),
            decreases n - k,
        {
            let ghost b = strs_of(out@);
            out.push(all[k].clone());
            assert(strs_of(out@) =~= b.push(all@[k as int]@));
            assert(strs_of(all@).take(k + 1) =~= strs_of(all@).take(k as int).push(all@[k as int]@));
            k += 1;
        }
        out
    }
}

/// Brings the live part of the display model up to date with the
/// interface state: the editor's text and prompt, the kernel status, the
/// footer line (mode, detail, activity with `busy_label`, palette hint)
/// and the overlay at `pane_width` columns. The transcript is kept.
pub fn sync_display_model_live_state(
    model: &mut DisplayModel,
    state: &UiState,
    editor_text: String,
    mode: EditorMode,
    busy_label: Option<String>,
    pane_width: u16,
)
    requires
        state.wf(),
    ensures
        final(model).transcript == old(model).transcript,
        final(model).editor.text@ == editor_text@,
        final(model).editor.prompt@ == editor_prompt_spec(*state),
        final(model).kernel_status == DisplayKernelStatus::from_spec(state.status),
        final(model).footer.text matches Some(t) && t@ == footer_spec(
            *state,
            mode,
            crate::history_search::opt_view(busy_label),
        ),
        overlay_matches(*state, pane_width, final(model).overlay),
{
    let prompt = state.editor_prompt();
    model.editor = EditorModel { text: editor_text, prompt };
    model.kernel_status = DisplayKernelStatus::from_status(state.status);
    model.footer = FooterModel { text: Some(state.footer_text(mode, busy_label)) };
    model.overlay = state.overlay_model(pane_width);
}

/// The run time of the newest entry with this code that has one.
pub open spec fn last_runtime_spec(code: Seq<char>, entries: Seq<HistorySearchEntry>) -> Option<u64>
    decreases entries.len(),
{
    if entries.len() == 0 {
        None
    } else if entries.last().code@ == code && entries.last().duration_ns is Some {
        entries.last().duration_ns
    } else {
        last_runtime_spec(code, entries.drop_last())
    }
}

/// The footer's run-time label while a cell runs: the time so far, and the
/// last run time of the same code where one is known, as `now (last last)`.
pub open spec fn busy_label_spec(elapsed_ns: u64, busy_code: Option<Seq<char>>, entries: Seq<HistorySearchEntry>) -> Seq<char> {
    let current = duration_text(elapsed_ns as nat);
    let last = match busy_code {
        Some(code) => last_runtime_spec(code, entries),
        None => None,
    };
    match last {
        Some(l) => current + " ("@ + duration_text(l as nat) + " last)"@,
        None => current,
    }
}

/// The last run time of `code` among the history entries, newest first.
pub fn last_runtime_for_code(code: &str, entries: &Vec<HistorySearchEntry>) -> (r: Option<u64>)
    ensures
        r == last_runtime_spec(code@, entries@),
{
    let mut k: usize = entries.len();
    assert(entries@.take(k as int) =~= entries@);
    while k > 0
        invariant
            k <= entries.len(),
            last_runtime_spec(code@, entries@.take(k as int)) == last_runtime_spec(code@, entries@),
        decreases k,
    {
        assert(entries@.take(k as int).drop_last() =~= entries@.take(k - 1));
        assert(entries@.take(k as int).last() == entries@[k - 1]);
        let e = &entries[k - 1];
        if str_eq(e.code.as_str(), code) && e.duration_ns.is_some() {
            return e.duration_ns;
        }
        k -= 1;
    }
    None
}

/// The run-time label of the running cell (see `busy_label_spec`).
pub fn busy_runtime_label(elapsed_ns: u64, busy_code: Option<&str>, entries: &Vec<HistorySearchEntry>) -> (r: String)
    ensures
        r@ == busy_label_spec(elapsed_ns, opt_str_view(busy_code), entries@),
{
    let current = format_duration_ns(elapsed_ns);
    let last = match busy_code {
        Some(code) => last_runtime_for_code(code, entries),
        None => None,
    };
    match last {
        Some(l) => {
            let mut out: Vec<char> = Vec::new();
            extend_str(&mut out, current.as_str());
            extend_str(&mut out, " (");
            extend_str(&mut out, format_duration_ns(l).as_str());
            extend_str(&mut out, " last)");
            string_from(out.as_slice())
        },
        None => current,
    }
}

/// A borrowed optional string as optional characters.
pub open spec fn opt_str_view(s: Option<&str>) -> Option<Seq<char>> {
    match s {
        Some(t) => Some(t@),
        None => None,
    }
}

/// The last run time of a code is that of the newest entry with this code
/// that has a run time: there is such an entry, and no newer one with the
/// same code has a run time. Where no entry with this code has a run time,
/// there is none.
pub proof fn law_last_runtime_is_newest(code: Seq<char>, entries: Seq<HistorySearchEntry>)
    ensures
        last_runtime_spec(code, entries) is None <==> forall|j: int| 0 <= j < entries.len()
            ==> !(#[trigger] entries[j].code@ == code && entries[j].duration_ns is Some),
        last_runtime_spec(code, entries) is Some ==> exists|i: int| 0 <= i < entries.len()
            && #[trigger] entries[i].code@ == code && entries[i].duration_ns == last_runtime_spec(code, entries)
            && forall|j: int| i < j < entries.len() ==> !(#[trigger] entries[j].code@ == code
                && entries[j].duration_ns is Some),
    decreases entries.len(),
{
    if entries.len() > 0 {
        let rest = entries.drop_last();
        law_last_runtime_is_newest(code, rest);
        let n = entries.len() - 1;
        if entries.last().code@ == code && entries.last().duration_ns is Some {
            assert(entries[n].code@ == code);
        } else {
            assert forall|j: int| 0 <= j < rest.len() implies #[trigger] rest[j] == entries[j] by {}
            if last_runtime_spec(code, rest) is Some {
                let i = choose|i: int| 0 <= i < rest.len() && #[trigger] rest[i].code@ == code
                    && rest[i].duration_ns == last_runtime_spec(code, rest)
                    && forall|j: int| i < j < rest.len() ==> !(#[trigger] rest[j].code@ == code
                        && rest[j].duration_ns is Some);
                assert(entries[i] == rest[i]);
                assert forall|j: int| i < j < entries.len() implies !(#[trigger] entries[j].code@ == code
                    && entries[j].duration_ns is Some) by {
                    if j < n {
                        assert(entries[j] == rest[j]);
                    }
                }
            } else {
                assert forall|j: int| 0 <= j < entries.len() implies !(#[trigger] entries[j].code@ == code
                    && entries[j].duration_ns is Some) by {
                    if j < n {
                        assert(entries[j] == rest[j]);
                    }
                }
            }
        }
    }
}

/// The rows of the result window, in order: each is a position in
/// `k..end` with its result's entry index, which names an existing entry;
/// the positions increase; and each position of the window whose result
/// names an existing entry is shown.
pub proof fn law_window_lists_the_visible_results(results: Seq<usize>, entry_count: nat, k: int, end: int)
    requires
        k >= 0,
    ensures
        ({
            let w = window(results, entry_count, k, end);
            &&& forall|i: int| 0 <= i < w.len() ==> k <= (#[trigger] w[i]).0 < end && w[i].0 < results.len()
                && w[i].1 == results[w[i].0] && 0 <= w[i].1 < entry_count
            &&& forall|i: int, j: int| 0 <= i < j < w.len() ==> (#[trigger] w[i]).0 < (#[trigger] w[j]).0
            &&& forall|p: int| k <= p < end && p < results.len() && results[p] < entry_count ==> exists|i: int|
                0 <= i < w.len() && (#[trigger] w[i]).0 == p
        }),
    decreases end - k,
{
    if k >= end || k >= results.len() {
    } else {
        law_window_lists_the_visible_results(results, entry_count, k + 1, end);
        let rest = window(results, entry_count, k + 1, end);
        let w = window(results, entry_count, k, end);
        if results[k] < entry_count {
            assert(w == seq![(k, results[k] as int)] + rest);
            assert forall|i: int| 0 <= i < w.len() implies k <= (#[trigger] w[i]).0 < end && w[i].0 < results.len()
                && w[i].1 == results[w[i].0] && 0 <= w[i].1 < entry_count by {
                if i > 0 {
                    assert(w[i] == rest[i - 1]);
                }
            }
            assert forall|i: int, j: int| 0 <= i < j < w.len() implies (#[trigger] w[i]).0 < (#[trigger] w[j]).0 by {
                assert(w[j] == rest[j - 1]);
                if i > 0 {
                    assert(w[i] == rest[i - 1]);
                }
            }
            assert forall|p: int| k <= p < end && p < results.len() && results[p] < entry_count implies exists|i: int|
                0 <= i < w.len() && (#[trigger] w[i]).0 == p by {
                if p == k {
                    assert(w[0].0 == p);
                } else {
                    let i = choose|i: int| 0 <= i < rest.len() && (#[trigger] rest[i]).0 == p;
                    assert(w[i + 1] == rest[i]);
                }
            }
        } else {
            assert(w == rest);
        }
    }
}

/// In the history-search overlay at most one result row is marked, and only
/// the row of the selected result; no more rows are shown than the popup's
/// result rows. With the search closed and the palette open, the palette
/// shows its five commands with the interface's selection; with neither
/// open, nothing covers the editor.
pub proof fn law_overlay_marks_only_the_selection(state: UiState, pane_width: u16, r: OverlayModel)
    requires
        overlay_matches(state, pane_width, r),
    ensures
        state.search.open ==> r is HistorySearch,
        state.search.open ==> forall|i: int, j: int| 0 <= i < j < r->HistorySearch_0.results.len()
            ==> !((#[trigger] r->HistorySearch_0.results@[i]).selected && (#[trigger] r->HistorySearch_0.results@[j]).selected),
        state.search.open ==> r->HistorySearch_0.results.len() <= search_layout(state, pane_width).0,
        !state.search.open && state.palette_open ==> r is Palette && r->Palette_0.selected == state.palette_index
            && r->Palette_0.items.len() == 5,
        !state.search.open && !state.palette_open ==> r == OverlayModel::Absent,
{
    if state.search.open {
        let lay = search_layout(state, pane_width);
        let k = state.search.scroll as int;
        let end = sat_add(state.search.scroll as int, lay.0 as int);
        let win = window(state.search.results@, state.history_entries.len() as nat, k, end);
        let h = r->HistorySearch_0;
        law_window_lists_the_visible_results(state.search.results@, state.history_entries.len() as nat, k, end);
        assert forall|i: int, j: int| 0 <= i < j < h.results.len() implies !((#[trigger] h.results@[i]).selected
            && (#[trigger] h.results@[j]).selected) by {
            assert(result_row_ok(h.results@[i], win[i], state.history_entries@, state.search.selected, lay.2));
            assert(result_row_ok(h.results@[j], win[j], state.history_entries@, state.search.selected, lay.2));
            assert(win[i].0 < win[j].0);
        }
        lemma_window_len(state.search.results@, state.history_entries.len() as nat, k, end);
    }
    if !state.search.open && state.palette_open {
        assert(strs_of(r->Palette_0.items@).len() == r->Palette_0.items.len());
    }
}

proof fn lemma_window_len(results: Seq<usize>, entry_count: nat, k: int, end: int)
    ensures
        window(results, entry_count, k, end).len() <= if end > k { end - k } else { 0 },
    decreases end - k,
{
    if !(k >= end || k >= results.len() || k < 0) {
        lemma_window_len(results, entry_count, k + 1, end);
    }
}

} // verus!
