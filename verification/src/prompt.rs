//! IPython-style prompts (`In [3]: `, `   ...: `, `Out[3]`), the command
//! palette, and the transient status labels.
use vstd::prelude::*;

use crate::chars::{
    chars_of, decimal, extend_str, pad_left, push_decimal, push_padded_left, string_from,
    utf8_len, utf8_length,
};
use crate::kernel::KernelStatus;
use crate::style::{render_semantic, styled_segment_text, TextStyle, UiStyle};

verus! {

broadcast use vstd::string::group_string_axioms;

/// `count + 1`, saturating at `u32::MAX`.
pub open spec fn sat_succ(count: u32) -> nat {
    if count == u32::MAX { count as nat } else { (count + 1) as nat }
}

/// The status-bar label of the next input: `In [n+1]`, or `In [1]`.
pub open spec fn input_prompt_label_spec(last_execution_count: Option<u32>) -> Seq<char> {
    match last_execution_count {
        Some(count) => "In ["@ + decimal(sat_succ(count)) + "]"@,
        None => "In [1]"@,
    }
}

pub fn input_prompt_label(last_execution_count: Option<u32>) -> (r: String)
    ensures
        r@ == input_prompt_label_spec(last_execution_count),
{
    let mut out: Vec<char> = Vec::new();
    match last_execution_count {
        Some(count) => {
            extend_str(&mut out, "In [");
            push_decimal(&mut out, if count == u32::MAX { count as u64 } else { count as u64 + 1 });
            extend_str(&mut out, "]");
        },
        None => {
            extend_str(&mut out, "In [1]");
        },
    }
    string_from(out.as_slice())
}

/// The input prompt of an echoed cell: `In [n]: `, or `In [?]: `.
pub open spec fn input_prompt_spec(execution_count: Option<u32>) -> Seq<char> {
    match execution_count {
        Some(count) => "In ["@ + decimal(count as nat) + "]: "@,
        None => "In [?]: "@,
    }
}

pub fn input_prompt_chars(execution_count: Option<u32>) -> (r: Vec<char>)
    ensures
        r@ == input_prompt_spec(execution_count),
{
    let mut out: Vec<char> = Vec::new();
    match execution_count {
        Some(count) => {
            extend_str(&mut out, "In [");
            push_decimal(&mut out, count as u64);
            extend_str(&mut out, "]: ");
        },
        None => {
            extend_str(&mut out, "In [?]: ");
        },
    }
    out
}

pub fn input_prompt(execution_count: Option<u32>) -> (r: String)
    ensures
        r@ == input_prompt_spec(execution_count),
{
    string_from(input_prompt_chars(execution_count).as_slice())
}

/// The continuation prompt: `...: ` right-aligned to the byte length of the
/// input prompt.
pub open spec fn continuation_prompt_spec(input_prompt: Seq<char>) -> Seq<char> {
    pad_left("...: "@, utf8_len(input_prompt))
}

pub fn continuation_prompt_chars(input_prompt: &[char]) -> (r: Vec<char>)
    requires
        utf8_len(input_prompt@) <= usize::MAX,
    ensures
        r@ == continuation_prompt_spec(input_prompt@),
{
    let width = utf8_length(input_prompt);
    let dots = chars_of("...: ");
    let mut out: Vec<char> = Vec::new();
    push_padded_left(&mut out, dots.as_slice(), width);
    assert(out@ =~= continuation_prompt_spec(input_prompt@));
    out
}

pub fn continuation_prompt(input_prompt: &str) -> (r: String)
    requires
        utf8_len(input_prompt@) <= usize::MAX,
    ensures
        r@ == continuation_prompt_spec(input_prompt@),
{
    let p = chars_of(input_prompt);
    string_from(continuation_prompt_chars(p.as_slice()).as_slice())
}

/// The output prompt: `Out[n]`, or `Out[?]`.
pub open spec fn output_prompt_spec(execution_count: Option<u32>) -> Seq<char> {
    match execution_count {
        Some(count) => "Out["@ + decimal(count as nat) + "]"@,
        None => "Out[?]"@,
    }
}

pub fn output_prompt(execution_count: Option<u32>) -> (r: String)
    ensures
        r@ == output_prompt_spec(execution_count),
{
    let mut out: Vec<char> = Vec::new();
    match execution_count {
        Some(count) => {
            extend_str(&mut out, "Out[");
            push_decimal(&mut out, count as u64);
            extend_str(&mut out, "]");
        },
        None => {
            extend_str(&mut out, "Out[?]");
        },
    }
    string_from(out.as_slice())
}

/// A prompt in the input-prompt style.
pub fn styled_input_prompt(prompt: &str) -> (r: String)
    ensures
        r@ == styled_segment_text(prompt@, TextStyle::Semantic(UiStyle::InputPrompt)),
{
    let p = chars_of(prompt);
    string_from(render_semantic(p.as_slice(), UiStyle::InputPrompt).as_slice())
}

/// A prompt in the output-prompt style.
pub fn styled_output_prompt(prompt: &str) -> (r: String)
    ensures
        r@ == styled_segment_text(prompt@, TextStyle::Semantic(UiStyle::OutputPrompt)),
{
    let p = chars_of(prompt);
    string_from(render_semantic(p.as_slice(), UiStyle::OutputPrompt).as_slice())
}

/// The command palette's entries.
#[derive(Debug, Clone, Copy, PartialEq, Eq, Structural)]
pub enum PaletteAction {
    Quit,
    InterruptKernel,
    RestartKernel,
    ClearInput,
    ShowConnectionInfo,
}

pub open spec fn palette_label(action: PaletteAction) -> Seq<char> {
    match action {
        PaletteAction::Quit => "Quit"@,
        PaletteAction::InterruptKernel => "Interrupt Kernel"@,
        PaletteAction::RestartKernel => "Restart Kernel"@,
        PaletteAction::ClearInput => "Clear Input"@,
        PaletteAction::ShowConnectionInfo => "Show Connection Info"@,
    }
}

impl PaletteAction {
    /// The entry's label.
    pub fn label(self) -> (r: &'static str)
        ensures
            r@ == palette_label(self),
    {
        match self {
            PaletteAction::Quit => "Quit",
            PaletteAction::InterruptKernel => "Interrupt Kernel",
            PaletteAction::RestartKernel => "Restart Kernel",
            PaletteAction::ClearInput => "Clear Input",
            PaletteAction::ShowConnectionInfo => "Show Connection Info",
        }
    }
}

/// The palette's entries in display order.
pub open spec fn palette_order() -> Seq<PaletteAction> {
    seq![
        PaletteAction::Quit,
        PaletteAction::InterruptKernel,
        PaletteAction::RestartKernel,
        PaletteAction::ClearInput,
        PaletteAction::ShowConnectionInfo,
    ]
}

pub fn palette_items() -> (r: [PaletteAction; 5])
    ensures
        r@ == palette_order(),
{
    let r = [
        PaletteAction::Quit,
        PaletteAction::InterruptKernel,
        PaletteAction::RestartKernel,
        PaletteAction::ClearInput,
        PaletteAction::ShowConnectionInfo,
    ];
    assert(r@ =~= palette_order());
    r
}

/// The transient status shown while connecting or busy.
pub open spec fn transient_status_spec(status: KernelStatus) -> Option<Seq<char>> {
    match status {
        KernelStatus::Connecting => Some("Connecting to kernel..."@),
        KernelStatus::Busy => Some("Kernel busy. Ctrl-C to interrupt"@),
        _ => None,
    }
}

pub fn transient_status_label(status: KernelStatus) -> (r: Option<&'static str>)
    ensures
        r is Some == transient_status_spec(status) is Some,
        r matches Some(s) ==> s@ == transient_status_spec(status)->0,
{
    match status {
        KernelStatus::Connecting => Some("Connecting to kernel..."),
        KernelStatus::Busy => Some("Kernel busy. Ctrl-C to interrupt"),
        _ => None,
    }
}

proof fn lemma_ascii_utf8_len(s: Seq<char>)
    requires
        forall|i: int| 0 <= i < s.len() ==> (s[i] as u32) < 0x80,
    ensures
        utf8_len(s) == s.len(),
    decreases s.len(),
{
    if s.len() > 0 {
        lemma_ascii_utf8_len(s.drop_last());
    }
}

proof fn lemma_decimal_ascii(n: nat)
    ensures
        forall|i: int| 0 <= i < decimal(n).len() ==> (decimal(n)[i] as u32) < 0x80,
    decreases n,
{
    if n >= 10 {
        lemma_decimal_ascii(n / 10);
        assert(forall|i: int| 0 <= i < decimal(n / 10).len() ==> decimal(n)[i] == decimal(n / 10)[i]);
    }
}

/// The continuation prompt lines up under the input prompt of the same cell:
/// it has as many characters (both are ASCII) and ends in `...: `, right
/// aligned behind spaces.
pub proof fn law_continuation_prompt_lines_up(execution_count: Option<u32>)
    ensures
        ({
            let p = input_prompt_spec(execution_count);
            let c = continuation_prompt_spec(p);
            &&& c.len() == p.len()
            &&& c.len() >= 5
            &&& c.skip(c.len() - 5) == "...: "@
            &&& forall|i: int| 0 <= i < c.len() - 5 ==> c[i] == ' '
        }),
{
    let p = input_prompt_spec(execution_count);
    reveal_strlit("...: ");
    reveal_strlit("In [");
    reveal_strlit("]: ");
    reveal_strlit("In [?]: ");
    match execution_count {
        Some(n) => {
            lemma_decimal_ascii(n as nat);
            crate::chars::lemma_decimal_len_pos(n as nat);
            let d = decimal(n as nat);
            assert forall|i: int| 0 <= i < p.len() implies (p[i] as u32) < 0x80 by {
                if i < 4 {
                    assert(p[i] == "In ["@[i]);
                } else if i < 4 + d.len() {
                    assert(p[i] == d[i - 4]);
                } else {
                    assert(p[i] == "]: "@[i - 4 - d.len()]);
                }
            }
        },
        None => {},
    }
    lemma_ascii_utf8_len(p);
    let c = continuation_prompt_spec(p);
    assert(c.skip(c.len() - 5) =~= "...: "@);
}

/// The status bar names the input that comes next: one past the last
/// execution count (`In [1]` before any), staying at the largest count; and
/// an echoed cell's prompt carries the cell's own count.
pub proof fn law_prompt_counts(count: u32)
    ensures
        count < u32::MAX ==> input_prompt_label_spec(Some(count)) == "In ["@ + decimal(count as nat + 1) + "]"@,
        input_prompt_label_spec(Some(u32::MAX)) == "In ["@ + decimal(u32::MAX as nat) + "]"@,
        input_prompt_label_spec(None) == "In [1]"@,
        input_prompt_spec(Some(count)) == "In ["@ + decimal(count as nat) + "]: "@,
        output_prompt_spec(Some(count)) == "Out["@ + decimal(count as nat) + "]"@,
{
}

} // verus!
