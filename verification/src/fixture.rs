//! Display models of named scenarios, rendered to check the display
//! pipeline end to end: single frames, and a sequence of frames drawn one
//! after another (an initial frame, a live edit, a transcript append, a
//! resize to half the width).
use vstd::prelude::*;

use crate::chars::{extend_str, owned, str_eq, string_from};
use crate::display::{MimeBundle, TranscriptEntry};
use crate::frame::Size;
use crate::kernel::StreamName;
use crate::render::{DisplayKernelStatus, DisplayModel, FooterModel, OverlayModel, PaletteOverlayModel};

verus! {

broadcast use vstd::string::group_string_axioms;

pub open spec fn known_scenario(s: Seq<char>) -> bool {
    s == "bottom-pinned-output"@ || s == "wrapped-output"@ || s == "stderr-stream"@ || s == "stdin-reply"@ || s
        == "resize-reflow"@ || s == "palette"@
}

pub open spec fn is_input(e: TranscriptEntry, count: Option<u32>, code: Seq<char>) -> bool {
    e matches TranscriptEntry::Input(i) && i.execution_count == count && i.code@ == code
}

pub open spec fn is_stream(e: TranscriptEntry, name: StreamName, text: Seq<char>) -> bool {
    e matches TranscriptEntry::Stream(s) && s.name == name && s.text@ == text
}

pub open spec fn is_system(e: TranscriptEntry, text: Seq<char>) -> bool {
    e matches TranscriptEntry::System(s) && s.text@ == text
}

/// A model with an empty prompt, nothing hidden, no overlay or footer.
pub open spec fn plain_model(m: DisplayModel) -> bool {
    &&& m.transcript.visible_start == 0
    &&& m.editor.prompt@.len() == 0
    &&& m.overlay == OverlayModel::Absent
    &&& m.footer.text is None
    &&& m.kernel_status == DisplayKernelStatus::Connecting
}

pub open spec fn bottom_pinned_spec(m: DisplayModel) -> bool {
    let e = m.transcript.entries@;
    &&& plain_model(m)
    &&& e.len() == 3
    &&& is_system(e[0], "fpy 0.1.0"@)
    &&& is_input(e[1], Some(1), "for i in range(3):\n    print(i)"@)
    &&& is_stream(e[2], StreamName::Stdout, "0\n1\n2"@)
    &&& m.editor.text@.len() == 0
}

pub open spec fn wrapped_output_spec(m: DisplayModel) -> bool {
    let e = m.transcript.entries@;
    &&& plain_model(m)
    &&& e.len() == 2
    &&& is_input(e[0], Some(1), "print('abcdef')"@)
    &&& is_stream(e[1], StreamName::Stdout, "abcdefghijklmnopqrstuvwxyz"@)
    &&& m.editor.text@.len() == 0
}

pub open spec fn stderr_stream_spec(m: DisplayModel) -> bool {
    let e = m.transcript.entries@;
    &&& plain_model(m)
    &&& e.len() == 2
    &&& is_input(e[0], Some(1), "import sys"@)
    &&& is_stream(e[1], StreamName::Stderr, "warning on stderr\n"@)
    &&& m.editor.text@.len() == 0
}

pub open spec fn stdin_reply_spec(m: DisplayModel) -> bool {
    let e = m.transcript.entries@;
    &&& plain_model(m)
    &&& e.len() == 2
    &&& is_input(e[0], Some(1), "name = input('Name: ')"@)
    &&& e[1] matches TranscriptEntry::Stdin(t) && t.prompt@ == "Name: "@ && !t.password && (t.value matches Some(v)
        && v@ == "Ada"@)
    &&& m.editor.text@.len() == 0
}

pub open spec fn resize_reflow_spec(m: DisplayModel) -> bool {
    let e = m.transcript.entries@;
    &&& plain_model(m)
    &&& e.len() == 1
    &&& is_system(e[0], "a transcript row that is intentionally wider than the fixture"@)
    &&& m.editor.text@ == "2 + 2"@
}

pub open spec fn palette_spec(m: DisplayModel) -> bool {
    &&& m.kernel_status == DisplayKernelStatus::Connecting
    &&& m.transcript.visible_start == 0
    &&& m.transcript.entries@.len() == 0
    &&& m.editor.prompt@.len() == 0
    &&& m.editor.text@.len() == 0
    &&& m.overlay matches OverlayModel::Palette(p) && p.selected == 1 && p.items@.len() == 3 && p.items@[0]@ == "Quit"@
        && p.items@[1]@ == "Interrupt Kernel"@ && p.items@[2]@ == "Restart Kernel"@
    &&& m.footer.text matches Some(t) && t@ == "Ctrl-P palette"@
}

/// The transcript, editor, overlay and footer of a scenario.
pub open spec fn fixture_spec(s: Seq<char>, m: DisplayModel) -> bool {
    if s == "bottom-pinned-output"@ {
        bottom_pinned_spec(m)
    } else if s == "wrapped-output"@ {
        wrapped_output_spec(m)
    } else if s == "stderr-stream"@ {
        stderr_stream_spec(m)
    } else if s == "stdin-reply"@ {
        stdin_reply_spec(m)
    } else if s == "resize-reflow"@ {
        resize_reflow_spec(m)
    } else {
        palette_spec(m)
    }
}

/// The display model of a named scenario; `None` for an unknown name.
pub fn fixture_model(scenario: &str) -> (r: Option<DisplayModel>)
    ensures
        r is Some <==> known_scenario(scenario@),
        r matches Some(m) ==> fixture_spec(scenario@, m),
        r matches Some(m) ==> m.kernel_status == DisplayKernelStatus::Connecting,
{
    if str_eq(scenario, "bottom-pinned-output") {
        Some(bottom_pinned())
    } else if str_eq(scenario, "wrapped-output") {
        Some(wrapped_output())
    } else if str_eq(scenario, "stderr-stream") {
        Some(stderr_stream())
    } else if str_eq(scenario, "stdin-reply") {
        Some(stdin_reply())
    } else if str_eq(scenario, "resize-reflow") {
        Some(resize_reflow())
    } else if str_eq(scenario, "palette") {
        Some(palette())
    } else {
        None
    }
}

fn bottom_pinned() -> (m: DisplayModel)
    ensures
        bottom_pinned_spec(m),
{
    let mut model = DisplayModel::new();
    model.transcript.push_system(owned("fpy 0.1.0"));
    model.transcript.push_input(Some(1), owned("for i in range(3):\n    print(i)"));
    let ghost e1 = model.transcript.entries@;
    assert(e1.last() is Input);
    model.transcript.push_stream(StreamName::Stdout, owned("0\n1\n2"));
    assert(model.transcript.entries@.drop_last() == e1);
    assert(model.transcript.entries@[0] == e1[0] && model.transcript.entries@[1] == e1[1]);
    model.editor.text = String::new();
    model
}

fn wrapped_output() -> (m: DisplayModel)
    ensures
        wrapped_output_spec(m),
{
    let mut model = DisplayModel::new();
    model.transcript.push_input(Some(1), owned("print('abcdef')"));
    let ghost e1 = model.transcript.entries@;
    assert(e1.last() is Input);
    model.transcript.push_stream(StreamName::Stdout, owned("abcdefghijklmnopqrstuvwxyz"));
    assert(model.transcript.entries@.drop_last() == e1);
    assert(model.transcript.entries@[0] == e1[0]);
    model
}

fn stderr_stream() -> (m: DisplayModel)
    ensures
        stderr_stream_spec(m),
{
    let mut model = DisplayModel::new();
    model.transcript.push_input(Some(1), owned("import sys"));
    let ghost e1 = model.transcript.entries@;
    assert(e1.last() is Input);
    model.transcript.push_stream(StreamName::Stderr, owned("warning on stderr\n"));
    assert(model.transcript.entries@.drop_last() == e1);
    assert(model.transcript.entries@[0] == e1[0]);
    model
}

fn stdin_reply() -> (m: DisplayModel)
    ensures
        stdin_reply_spec(m),
{
    let mut model = DisplayModel::new();
    model.transcript.push_input(Some(1), owned("name = input('Name: ')"));
    let stdin = model.transcript.push_stdin(owned("Name: "), false);
    let ghost e2 = model.transcript.entries@;
    assert(e2[0] == e2.drop_last()[0]);
    assert(e2[1] == e2.last());
    model.transcript.fill_stdin_value(stdin, owned("Ada"));
    assert(model.transcript.entries@[0] == e2[0]);
    model
}

fn resize_reflow() -> (m: DisplayModel)
    ensures
        resize_reflow_spec(m),
{
    let mut model = DisplayModel::new();
    model.transcript.push_system(owned("a transcript row that is intentionally wider than the fixture"));
    model.editor.text = owned("2 + 2");
    model
}

fn palette() -> (m: DisplayModel)
    ensures
        palette_spec(m),
{
    let mut model = DisplayModel::new();
    let mut items: Vec<String> = Vec::new();
    items.push(owned("Quit"));
    items.push(owned("Interrupt Kernel"));
    items.push(owned("Restart Kernel"));
    model.overlay = OverlayModel::Palette(PaletteOverlayModel { items, selected: 1 });
    model.footer = FooterModel { text: Some(owned("Ctrl-P palette")) };
    model
}

/// The error for a scenario name that names no fixture.
pub fn unknown_scenario_message(scenario: &str) -> (r: String)
    ensures
        r@ == "unknown display fixture scenario: "@ + scenario@,
{
    let mut out: Vec<char> = Vec::new();
    extend_str(&mut out, "unknown display fixture scenario: ");
    extend_str(&mut out, scenario);
    string_from(out.as_slice())
}

/// The error for a sequence name that names no fixture sequence.
pub fn unknown_sequence_message(sequence: &str) -> (r: String)
    ensures
        r@ == "unknown display fixture sequence: "@ + sequence@,
{
    let mut out: Vec<char> = Vec::new();
    extend_str(&mut out, "unknown display fixture sequence: ");
    extend_str(&mut out, sequence);
    string_from(out.as_slice())
}

/// One frame of a fixture sequence: its name, what is drawn, and the size.
#[derive(Debug)]
pub struct FixtureStep {
    pub name: String,
    pub model: DisplayModel,
    pub size: Size,
}

/// The frames of a named sequence at `width` by `height`; `None` for an
/// unknown name. `append-edit-resize`: a system row (`initial`), then an
/// edit in the editor (`live-ui-edit`), then an executed cell and its
/// result (`transcript-append`), then the same at half the width, at least
/// one column (`resize-reflow`).
pub fn fixture_sequence(sequence: &str, width: u16, height: u16) -> (r: Option<Vec<FixtureStep>>)
    ensures
        r is Some <==> sequence@ == "append-edit-resize"@,
        r matches Some(steps) ==> {
            &&& steps.len() == 4
            &&& steps@[0].name@ == "initial"@ && steps@[1].name@ == "live-ui-edit"@
            &&& steps@[2].name@ == "transcript-append"@ && steps@[3].name@ == "resize-reflow"@
            &&& steps@[0].size == (Size { width, height }) && steps@[1].size == (Size { width, height })
            &&& steps@[2].size == (Size { width, height })
            &&& steps@[3].size == (Size { width: if width / 2 < 1 { 1 } else { (width / 2) as u16 }, height })
            &&& forall|i: int| 0 <= i < 4 ==> is_system(#[trigger] steps@[i].model.transcript.entries@[0], "ready"@)
            &&& steps@[0].model.transcript.entries@.len() == 1 && steps@[0].model.editor.text@.len() == 0
            &&& steps@[1].model.transcript.entries@.len() == 1 && steps@[1].model.editor.text@ == "editing"@
            &&& forall|i: int| 2 <= i < 4 ==> {
                let e = #[trigger] steps@[i].model.transcript.entries@;
                &&& e.len() == 3
                &&& is_input(e[1], Some(1), "1 + 1"@)
                &&& e[2] matches TranscriptEntry::ExecuteResult(o) && o.execution_count == Some(1u32)
                    && (o.mime.text_plain matches Some(t) && t@ == "2"@)
                &&& steps@[i].model.editor.text@ == "editing"@
            }
            &&& forall|i: int| 0 <= i < 4 ==> (#[trigger] steps@[i].model).overlay == OverlayModel::Absent
        },
{
    if !str_eq(sequence, "append-edit-resize") {
        return None;
    }
    let size = Size { width, height };
    let half: u16 = if width / 2 < 1 { 1 } else { width / 2 };
    let mut steps: Vec<FixtureStep> = Vec::new();
    steps.push(FixtureStep { name: owned("initial"), model: sequence_model(0), size });
    steps.push(FixtureStep { name: owned("live-ui-edit"), model: sequence_model(1), size });
    steps.push(FixtureStep { name: owned("transcript-append"), model: sequence_model(2), size });
    steps.push(FixtureStep { name: owned("resize-reflow"), model: sequence_model(2), size: Size { width: half, height } });
    Some(steps)
}

/// The model after `stage` steps of the sequence.
fn sequence_model(stage: u8) -> (m: DisplayModel)
    requires
        stage <= 2,
    ensures
        is_system(m.transcript.entries@[0], "ready"@),
        m.overlay == OverlayModel::Absent,
        stage == 0 ==> m.transcript.entries@.len() == 1 && m.editor.text@.len() == 0,
        stage == 1 ==> m.transcript.entries@.len() == 1 && m.editor.text@ == "editing"@,
        stage == 2 ==> {
            let e = m.transcript.entries@;
            &&& e.len() == 3
            &&& is_input(e[1], Some(1), "1 + 1"@)
            &&& e[2] matches TranscriptEntry::ExecuteResult(o) && o.execution_count == Some(1u32) && (o.mime.text_plain matches Some(
                t,
            ) && t@ == "2"@)
            &&& m.editor.text@ == "editing"@
        },
{
    let mut model = DisplayModel::new();
    model.transcript.push_system(owned("ready"));
    if stage >= 1 {
        model.editor.text = owned("editing");
    }
    if stage >= 2 {
        model.transcript.push_input(Some(1), owned("1 + 1"));
        model.transcript.push_execute_result(Some(1), MimeBundle::plain(owned("2")));
    }
    model
}

} // verus!
