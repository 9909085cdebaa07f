//! What is shown of a document and what a click in it means, without the drawing.

use std::ops::Range;

use vstd::prelude::*;
use vstd::string::*;

use crate::diagnostics;
use crate::diagnostics::ByteDiagnostic;
use crate::diagnostics::ByteDiagnosticView;
use crate::diagnostics::DiagnosticSeverity;
use crate::find::FindState;
use crate::find::TextInput;
use crate::interaction;
use crate::php;
use crate::provider;
use crate::text;

verus! {

/// A stage of the user interface's work.
pub const UI_STAGE_KEY_CALLBACK: u64 = 1;

/// A stage of the user interface's work.
pub const UI_STAGE_AFTER_EDIT: u64 = 2;

/// A stage of the user interface's work.
pub const UI_STAGE_COMPLETION: u64 = 3;

/// A stage of the user interface's work.
pub const UI_STAGE_RENDER: u64 = 4;

/// A stage of the user interface's work.
pub const UI_STAGE_WIDTH_CACHE_REBUILD: u64 = 5;

/// A stage of the user interface's work.
pub const UI_STAGE_POLL_CYCLE: u64 = 6;

/// A stage of the user interface's work.
pub const UI_STAGE_POLL_LSP: u64 = 7;

/// A stage of the user interface's work.
pub const UI_STAGE_POLL_INDEX: u64 = 8;

/// A stage of the user interface's work.
pub const UI_STAGE_POLL_VENDOR: u64 = 9;

/// A stage of the user interface's work.
pub const UI_STAGE_POLL_PROJECT: u64 = 10;

/// A stage of the user interface's work.
pub const UI_STAGE_POLL_RUNTIME_STUB: u64 = 11;

/// A stage of the user interface's work.
pub const UI_STAGE_POLL_RUNTIME_WATCHER: u64 = 12;

/// A stage of the user interface's work.
pub const UI_STAGE_POLL_SEMANTIC: u64 = 13;

/// A stage of the user interface's work.
pub const UI_STAGE_SEMANTIC_PUBLISH: u64 = 14;

/// A stage of the user interface's work.
pub const UI_STAGE_TAB_UPDATE: u64 = 15;

/// The name of a stage of the user interface's work.
pub open spec fn stage_name(stage: u64) -> Seq<char> {
    if stage == UI_STAGE_KEY_CALLBACK {
        "key_callback"@
    } else if stage == UI_STAGE_AFTER_EDIT {
        "after_edit"@
    } else if stage == UI_STAGE_COMPLETION {
        "completion"@
    } else if stage == UI_STAGE_RENDER {
        "render"@
    } else if stage == UI_STAGE_WIDTH_CACHE_REBUILD {
        "width_cache_rebuild"@
    } else if stage == UI_STAGE_POLL_CYCLE {
        "poll_cycle"@
    } else if stage == UI_STAGE_POLL_LSP {
        "poll_lsp"@
    } else if stage == UI_STAGE_POLL_INDEX {
        "poll_index"@
    } else if stage == UI_STAGE_POLL_VENDOR {
        "poll_vendor"@
    } else if stage == UI_STAGE_POLL_PROJECT {
        "poll_project"@
    } else if stage == UI_STAGE_POLL_RUNTIME_STUB {
        "poll_runtime_stub"@
    } else if stage == UI_STAGE_POLL_RUNTIME_WATCHER {
        "poll_runtime_watcher"@
    } else if stage == UI_STAGE_POLL_SEMANTIC {
        "poll_semantic"@
    } else if stage == UI_STAGE_SEMANTIC_PUBLISH {
        "semantic_publish"@
    } else if stage == UI_STAGE_TAB_UPDATE {
        "tab_update"@
    } else {
        "idle"@
    }
}

/// The name of a stage of the user interface's work.
pub fn ui_stage_name(stage: u64) -> (r: &'static str)
    ensures
        r@ == stage_name(stage),
{
    if stage == UI_STAGE_KEY_CALLBACK {
        "key_callback"
    } else if stage == UI_STAGE_AFTER_EDIT {
        "after_edit"
    } else if stage == UI_STAGE_COMPLETION {
        "completion"
    } else if stage == UI_STAGE_RENDER {
        "render"
    } else if stage == UI_STAGE_WIDTH_CACHE_REBUILD {
        "width_cache_rebuild"
    } else if stage == UI_STAGE_POLL_CYCLE {
        "poll_cycle"
    } else if stage == UI_STAGE_POLL_LSP {
        "poll_lsp"
    } else if stage == UI_STAGE_POLL_INDEX {
        "poll_index"
    } else if stage == UI_STAGE_POLL_VENDOR {
        "poll_vendor"
    } else if stage == UI_STAGE_POLL_PROJECT {
        "poll_project"
    } else if stage == UI_STAGE_POLL_RUNTIME_STUB {
        "poll_runtime_stub"
    } else if stage == UI_STAGE_POLL_RUNTIME_WATCHER {
        "poll_runtime_watcher"
    } else if stage == UI_STAGE_POLL_SEMANTIC {
        "poll_semantic"
    } else if stage == UI_STAGE_SEMANTIC_PUBLISH {
        "semantic_publish"
    } else if stage == UI_STAGE_TAB_UPDATE {
        "tab_update"
    } else {
        "idle"
    }
}

/// What a key does in an editor.
#[derive(Clone, Copy, Debug, PartialEq, Eq, Structural)]
pub enum EditorAction {
    Backspace,
    Delete,
    Enter,
    Tab,
    Outdent,
    Left,
    Right,
    Up,
    Down,
    Home,
    End,
    SelectLeft,
    SelectRight,
    SelectUp,
    SelectDown,
    SelectAll,
    Copy,
    Cut,
    Paste,
    Undo,
    Redo,
    Open,
    Save,
    Complete,
    HoverInfo,
    Definition,
    References,
    FileStructure,
    NativeDefinition,
    Reformat,
    SignatureHelp,
    CompleteStatement,
    Find,
    FindNext,
    FindPrevious,
    CloseFind,
    FindBackspace,
    FindDelete,
    FindLeft,
    FindRight,
    FindSelectAll,
    FindPaste,
    FindCut,
    FindReplace,
    FindReplaceAll,
    ToggleReplace,
    Escape,
}

/// Where a key is bound.
#[derive(Clone, Copy, Debug, PartialEq, Eq, Structural)]
pub enum KeyContext {
    Editor,
    FindInput,
    ReplaceInput,
}

/// A key, what it does and where.
#[derive(Debug, PartialEq, Eq)]
pub struct KeyBinding {
    pub keys: String,
    pub action: EditorAction,
    pub context: KeyContext,
}

/// What a binding holds.
#[verifier::ext_equal]
pub struct KeyBindingView {
    pub keys: Seq<char>,
    pub action: EditorAction,
    pub context: KeyContext,
}

impl View for KeyBinding {
    type V = KeyBindingView;

    open spec fn view(&self) -> KeyBindingView {
        KeyBindingView { keys: self.keys@, action: self.action, context: self.context }
    }
}

/// A binding of a key.
pub open spec fn bound(keys: Seq<char>, action: EditorAction, context: KeyContext) -> KeyBindingView {
    KeyBindingView { keys, action, context }
}

/// The keys that are bound in the text.
pub open spec fn editor_keys() -> Seq<KeyBindingView> {
    seq![
        bound("backspace"@, EditorAction::Backspace, KeyContext::Editor),
        bound("delete"@, EditorAction::Delete, KeyContext::Editor),
        bound("enter"@, EditorAction::Enter, KeyContext::Editor),
        bound("tab"@, EditorAction::Tab, KeyContext::Editor),
        bound("shift-tab"@, EditorAction::Outdent, KeyContext::Editor),
        bound("left"@, EditorAction::Left, KeyContext::Editor),
        bound("right"@, EditorAction::Right, KeyContext::Editor),
        bound("up"@, EditorAction::Up, KeyContext::Editor),
        bound("down"@, EditorAction::Down, KeyContext::Editor),
        bound("home"@, EditorAction::Home, KeyContext::Editor),
        bound("end"@, EditorAction::End, KeyContext::Editor),
        bound("shift-left"@, EditorAction::SelectLeft, KeyContext::Editor),
        bound("shift-right"@, EditorAction::SelectRight, KeyContext::Editor),
        bound("shift-up"@, EditorAction::SelectUp, KeyContext::Editor),
        bound("shift-down"@, EditorAction::SelectDown, KeyContext::Editor),
        bound("secondary-a"@, EditorAction::SelectAll, KeyContext::Editor),
        bound("secondary-c"@, EditorAction::Copy, KeyContext::Editor),
        bound("secondary-x"@, EditorAction::Cut, KeyContext::Editor),
        bound("secondary-v"@, EditorAction::Paste, KeyContext::Editor),
        bound("secondary-z"@, EditorAction::Undo, KeyContext::Editor),
        bound("secondary-y"@, EditorAction::Redo, KeyContext::Editor),
        bound("secondary-s"@, EditorAction::Save, KeyContext::Editor),
        bound("ctrl-space"@, EditorAction::Complete, KeyContext::Editor),
        bound("secondary-k"@, EditorAction::HoverInfo, KeyContext::Editor),
        bound("secondary-b"@, EditorAction::Definition, KeyContext::Editor),
        bound("shift-f12"@, EditorAction::References, KeyContext::Editor),
        bound("ctrl-f12"@, EditorAction::FileStructure, KeyContext::Editor),
        bound("ctrl-alt-l"@, EditorAction::Reformat, KeyContext::Editor),
        bound("secondary-alt-l"@, EditorAction::Reformat, KeyContext::Editor),
        bound("ctrl-shift-space"@, EditorAction::SignatureHelp, KeyContext::Editor),
        bound("ctrl-shift-enter"@, EditorAction::CompleteStatement, KeyContext::Editor),
    ]
}

/// The keys that are bound in the line that is looked for.
pub open spec fn find_keys() -> Seq<KeyBindingView> {
    seq![
        bound("enter"@, EditorAction::FindNext, KeyContext::FindInput),
        bound("shift-enter"@, EditorAction::FindPrevious, KeyContext::FindInput),
        bound("escape"@, EditorAction::CloseFind, KeyContext::FindInput),
        bound("backspace"@, EditorAction::FindBackspace, KeyContext::FindInput),
        bound("delete"@, EditorAction::FindDelete, KeyContext::FindInput),
        bound("left"@, EditorAction::FindLeft, KeyContext::FindInput),
        bound("right"@, EditorAction::FindRight, KeyContext::FindInput),
        bound("secondary-a"@, EditorAction::FindSelectAll, KeyContext::FindInput),
        bound("secondary-v"@, EditorAction::FindPaste, KeyContext::FindInput),
        bound("secondary-x"@, EditorAction::FindCut, KeyContext::FindInput),
        bound("ctrl-enter"@, EditorAction::FindReplace, KeyContext::FindInput),
        bound("ctrl-shift-enter"@, EditorAction::FindReplaceAll, KeyContext::FindInput),
    ]
}

/// The keys that are bound in the line that replaces it.
pub open spec fn replace_keys() -> Seq<KeyBindingView> {
    seq![
        bound("enter"@, EditorAction::FindReplace, KeyContext::ReplaceInput),
        bound("escape"@, EditorAction::CloseFind, KeyContext::ReplaceInput),
        bound("ctrl-shift-enter"@, EditorAction::FindReplaceAll, KeyContext::ReplaceInput),
        bound("backspace"@, EditorAction::FindBackspace, KeyContext::ReplaceInput),
        bound("delete"@, EditorAction::FindDelete, KeyContext::ReplaceInput),
        bound("left"@, EditorAction::FindLeft, KeyContext::ReplaceInput),
        bound("right"@, EditorAction::FindRight, KeyContext::ReplaceInput),
        bound("secondary-a"@, EditorAction::FindSelectAll, KeyContext::ReplaceInput),
        bound("secondary-v"@, EditorAction::FindPaste, KeyContext::ReplaceInput),
        bound("secondary-x"@, EditorAction::FindCut, KeyContext::ReplaceInput),
    ]
}

fn bind(keys: &str, action: EditorAction, context: KeyContext) -> (r: KeyBinding)
    ensures
        r@ == bound(keys@, action, context),
{
    KeyBinding { keys: String::from_str(keys), action, context }
}

/// What a list of bindings holds.
pub open spec fn binding_views(bindings: Seq<KeyBinding>) -> Seq<KeyBindingView> {
    bindings.map_values(|b: KeyBinding| b@)
}

fn bind_editor_keys() -> (r: Vec<KeyBinding>)
    ensures
        binding_views(r@) == editor_keys(),
{
    let keys = vec![
        bind("backspace", EditorAction::Backspace, KeyContext::Editor),
        bind("delete", EditorAction::Delete, KeyContext::Editor),
        bind("enter", EditorAction::Enter, KeyContext::Editor),
        bind("tab", EditorAction::Tab, KeyContext::Editor),
        bind("shift-tab", EditorAction::Outdent, KeyContext::Editor),
        bind("left", EditorAction::Left, KeyContext::Editor),
        bind("right", EditorAction::Right, KeyContext::Editor),
        bind("up", EditorAction::Up, KeyContext::Editor),
        bind("down", EditorAction::Down, KeyContext::Editor),
        bind("home", EditorAction::Home, KeyContext::Editor),
        bind("end", EditorAction::End, KeyContext::Editor),
        bind("shift-left", EditorAction::SelectLeft, KeyContext::Editor),
        bind("shift-right", EditorAction::SelectRight, KeyContext::Editor),
        bind("shift-up", EditorAction::SelectUp, KeyContext::Editor),
        bind("shift-down", EditorAction::SelectDown, KeyContext::Editor),
        bind("secondary-a", EditorAction::SelectAll, KeyContext::Editor),
        bind("secondary-c", EditorAction::Copy, KeyContext::Editor),
        bind("secondary-x", EditorAction::Cut, KeyContext::Editor),
        bind("secondary-v", EditorAction::Paste, KeyContext::Editor),
        bind("secondary-z", EditorAction::Undo, KeyContext::Editor),
        bind("secondary-y", EditorAction::Redo, KeyContext::Editor),
        bind("secondary-s", EditorAction::Save, KeyContext::Editor),
        bind("ctrl-space", EditorAction::Complete, KeyContext::Editor),
        bind("secondary-k", EditorAction::HoverInfo, KeyContext::Editor),
        bind("secondary-b", EditorAction::Definition, KeyContext::Editor),
        bind("shift-f12", EditorAction::References, KeyContext::Editor),
        bind("ctrl-f12", EditorAction::FileStructure, KeyContext::Editor),
        bind("ctrl-alt-l", EditorAction::Reformat, KeyContext::Editor),
        bind("secondary-alt-l", EditorAction::Reformat, KeyContext::Editor),
        bind("ctrl-shift-space", EditorAction::SignatureHelp, KeyContext::Editor),
        bind("ctrl-shift-enter", EditorAction::CompleteStatement, KeyContext::Editor),
    ];
    assert(binding_views(keys@) =~= editor_keys());
    keys
}

fn bind_find_keys() -> (r: Vec<KeyBinding>)
    ensures
        binding_views(r@) == find_keys(),
{
    let keys = vec![
        bind("enter", EditorAction::FindNext, KeyContext::FindInput),
        bind("shift-enter", EditorAction::FindPrevious, KeyContext::FindInput),
        bind("escape", EditorAction::CloseFind, KeyContext::FindInput),
        bind("backspace", EditorAction::FindBackspace, KeyContext::FindInput),
        bind("delete", EditorAction::FindDelete, KeyContext::FindInput),
        bind("left", EditorAction::FindLeft, KeyContext::FindInput),
        bind("right", EditorAction::FindRight, KeyContext::FindInput),
        bind("secondary-a", EditorAction::FindSelectAll, KeyContext::FindInput),
        bind("secondary-v", EditorAction::FindPaste, KeyContext::FindInput),
        bind("secondary-x", EditorAction::FindCut, KeyContext::FindInput),
        bind("ctrl-enter", EditorAction::FindReplace, KeyContext::FindInput),
        bind("ctrl-shift-enter", EditorAction::FindReplaceAll, KeyContext::FindInput),
    ];
    assert(binding_views(keys@) =~= find_keys());
    keys
}

fn bind_replace_keys() -> (r: Vec<KeyBinding>)
    ensures
        binding_views(r@) == replace_keys(),
{
    let keys = vec![
        bind("enter", EditorAction::FindReplace, KeyContext::ReplaceInput),
        bind("escape", EditorAction::CloseFind, KeyContext::ReplaceInput),
        bind("ctrl-shift-enter", EditorAction::FindReplaceAll, KeyContext::ReplaceInput),
        bind("backspace", EditorAction::FindBackspace, KeyContext::ReplaceInput),
        bind("delete", EditorAction::FindDelete, KeyContext::ReplaceInput),
        bind("left", EditorAction::FindLeft, KeyContext::ReplaceInput),
        bind("right", EditorAction::FindRight, KeyContext::ReplaceInput),
        bind("secondary-a", EditorAction::FindSelectAll, KeyContext::ReplaceInput),
        bind("secondary-v", EditorAction::FindPaste, KeyContext::ReplaceInput),
        bind("secondary-x", EditorAction::FindCut, KeyContext::ReplaceInput),
    ];
    assert(binding_views(keys@) =~= replace_keys());
    keys
}

/// The keys of an editor: those in the text, in the line that is looked for, in the line that
/// replaces it, and the one that leaves what is open over the text.
pub fn key_bindings() -> (r: Vec<KeyBinding>)
    ensures
        binding_views(r@) == editor_keys() + find_keys() + replace_keys() + seq![
            bound("escape"@, EditorAction::Escape, KeyContext::Editor),
        ],
{
    let mut keys = bind_editor_keys();
    let mut more = bind_find_keys();
    keys.append(&mut more);
    let mut more = bind_replace_keys();
    keys.append(&mut more);
    keys.push(bind("escape", EditorAction::Escape, KeyContext::Editor));
    assert(binding_views(keys@) =~= editor_keys() + find_keys() + replace_keys() + seq![
        bound("escape"@, EditorAction::Escape, KeyContext::Editor),
    ]);
    keys
}

/// How the background of a line is shown.
#[derive(Clone, Copy, Debug, PartialEq, Eq, Structural)]
pub enum LineBackground {
    Navigated,
    Active,
    Plain,
}

/// How the number of a line is shown.
#[derive(Clone, Copy, Debug, PartialEq, Eq, Structural)]
pub enum GutterTone {
    Error,
    Warning,
    Active,
    Plain,
}

/// What of a line is shown in what way, by columns in bytes.
#[derive(Debug, PartialEq, Eq)]
pub struct LineDecoration {
    pub selected: Option<Range<usize>>,
    pub caret: Option<usize>,
    pub hover: Option<Range<usize>>,
    pub underline: Option<Range<usize>>,
    pub severity: Option<DiagnosticSeverity>,
    pub background: LineBackground,
    pub gutter: GutterTone,
    pub marked: bool,
}

/// What is known of a document where a line of it is shown: the bytes of the line without its line
/// break, the selection, the caret and whether it is to be seen, what a definition is looked up
/// for, and the line that was jumped to.
#[derive(Debug)]
pub struct LineState {
    pub line: usize,
    pub start: usize,
    pub end: usize,
    pub selection: Option<Range<usize>>,
    pub cursor: usize,
    pub cursor_line: usize,
    pub caret_shown: bool,
    pub hover: Option<Range<usize>>,
    pub navigated_line: Option<usize>,
}

/// An offset moved into a range.
pub open spec fn within(offset: usize, start: usize, end: usize) -> usize {
    if offset < start {
        start
    } else if offset > end {
        end
    } else {
        offset
    }
}

/// Whether a range of bytes has some in common with another.
pub open spec fn overlaps(from: usize, to: usize, start: usize, end: usize) -> bool {
    to > start && from < end
}

/// The columns of a line that a range of bytes covers.
pub open spec fn columns(from: usize, to: usize, start: usize, end: usize) -> (int, int) {
    (within(from, start, end) - start, within(to, start, end) - start)
}

/// The gravest report, from an index on, on a line; of those that are as grave the first.
pub open spec fn gravest(
    reports: Seq<ByteDiagnosticView>,
    start: usize,
    end: usize,
) -> Option<ByteDiagnosticView>
    decreases reports.len(),
{
    if reports.len() == 0 {
        None
    } else {
        let before = gravest(reports.drop_last(), start, end);
        let last = reports.last();
        if overlaps(last.start, last.end, start, end) && (before is None
            || diagnostics::severity_rank(last.severity) < diagnostics::severity_rank(
            before->0.severity,
        )) {
            Some(last)
        } else {
            before
        }
    }
}

/// The range of some columns.
pub open spec fn is_range(range: Option<Range<usize>>, columns: Option<(int, int)>) -> bool {
    match columns {
        Some((from, to)) => range is Some && range->0.start == from && range->0.end == to,
        None => range is None,
    }
}

/// The columns of a line that are selected.
pub open spec fn selected_columns(state: LineState) -> Option<(int, int)> {
    match state.selection {
        Some(range) => {
            let (from, to) = columns(range.start, range.end, state.start, state.end);
            if from < to {
                Some((from, to))
            } else {
                None
            }
        },
        None => None,
    }
}

/// The column of the caret where it is shown: on its line, where nothing of that is selected.
pub open spec fn caret_column(state: LineState) -> Option<int> {
    if selected_columns(state) is None && state.cursor_line == state.line && state.caret_shown {
        Some(within(state.cursor, state.start, state.end) - state.start)
    } else {
        None
    }
}

/// The columns of a line that a definition is looked up for.
pub open spec fn hover_columns(state: LineState) -> Option<(int, int)> {
    match state.hover {
        Some(range) => if overlaps(range.start, range.end, state.start, state.end) {
            Some(columns(range.start, range.end, state.start, state.end))
        } else {
            None
        },
        None => None,
    }
}

fn clamp(offset: usize, start: usize, end: usize) -> (r: usize)
    ensures
        r == within(offset, start, end),
{
    if offset < start {
        start
    } else if offset > end {
        end
    } else {
        offset
    }
}

fn find_gravest(reports: &Vec<ByteDiagnostic>, start: usize, end: usize) -> (r: Option<usize>)
    ensures
        match r {
            Some(i) => i < reports@.len() && gravest(
                diagnostics::diagnostic_views(reports@),
                start,
                end,
            ) == Some(reports@[i as int]@),
            None => gravest(diagnostics::diagnostic_views(reports@), start, end) is None,
        },
{
    let ghost all = diagnostics::diagnostic_views(reports@);
    let mut found: Option<usize> = None;
    let mut i: usize = 0;
    assert(all.take(0) =~= Seq::<ByteDiagnosticView>::empty());
    while i < reports.len()
        invariant
            i <= reports@.len(),
            all == diagnostics::diagnostic_views(reports@),
            match found {
                Some(k) => k < i && gravest(all.take(i as int), start, end) == Some(
                    reports@[k as int]@,
                ),
                None => gravest(all.take(i as int), start, end) is None,
            },
        decreases reports@.len() - i,
    {
        assert(all.take(i + 1).drop_last() =~= all.take(i as int));
        assert(all.take(i + 1).last() == reports@[i as int]@);
        let report = &reports[i];
        if report.range.end > start && report.range.start < end {
            let graver = match found {
                Some(k) => diagnostics::diagnostic_severity_rank(report.severity)
                    < diagnostics::diagnostic_severity_rank(reports[k].severity),
                None => true,
            };
            if graver {
                found = Some(i);
            }
        }
        i += 1;
    }
    assert(all.take(i as int) =~= all);
    found
}

/// What of a line is shown in what way. At most one report marks it, the gravest on it.
pub fn decorate_line(state: &LineState, reports: &Vec<ByteDiagnostic>) -> (r: LineDecoration)
    requires
        state.start <= state.end,
    ensures
        ({
            let report = gravest(
                diagnostics::diagnostic_views(reports@),
                state.start,
                state.end,
            );
            &&& is_range(r.selected, selected_columns(*state))
            &&& r.caret is Some == caret_column(*state) is Some
            &&& r.caret is Some ==> r.caret->0 == caret_column(*state)->0
            &&& is_range(r.hover, hover_columns(*state))
            &&& match report {
                Some(report) => {
                    &&& is_range(
                        r.underline,
                        Some(columns(report.start, report.end, state.start, state.end)),
                    )
                    &&& r.severity == report.severity
                    &&& r.marked
                    &&& r.gutter == (if report.severity == Some(DiagnosticSeverity::Error) {
                        GutterTone::Error
                    } else {
                        GutterTone::Warning
                    })
                },
                None => {
                    &&& r.underline is None
                    &&& r.severity is None
                    &&& !r.marked
                    &&& r.gutter == (if state.cursor_line == state.line {
                        GutterTone::Active
                    } else {
                        GutterTone::Plain
                    })
                },
            }
            &&& r.background == (if state.navigated_line == Some(state.line) {
                LineBackground::Navigated
            } else if state.cursor_line == state.line {
                LineBackground::Active
            } else {
                LineBackground::Plain
            })
        }),
{
    let start: usize = state.start;
    let end: usize = state.end;
    let here = state.cursor_line == state.line;
    let selected: Option<Range<usize>> = match &state.selection {
        Some(range) => {
            let from: usize = clamp(range.start, start, end) - start;
            let to: usize = clamp(range.end, start, end) - start;
            if from < to {
                Some(Range { start: from, end: to })
            } else {
                None
            }
        },
        None => None,
    };
    let caret: Option<usize> = if selected.is_none() && here && state.caret_shown {
        Some(clamp(state.cursor, start, end) - start)
    } else {
        None
    };
    let hover: Option<Range<usize>> = match &state.hover {
        Some(range) => if range.end > start && range.start < end {
            Some(
                Range {
                    start: clamp(range.start, start, end) - start,
                    end: clamp(range.end, start, end) - start,
                },
            )
        } else {
            None
        },
        None => None,
    };
    let navigated = match state.navigated_line {
        Some(line) => line == state.line,
        None => false,
    };
    let background = if navigated {
        LineBackground::Navigated
    } else if here {
        LineBackground::Active
    } else {
        LineBackground::Plain
    };
    match find_gravest(reports, start, end) {
        Some(i) => {
            let report = &reports[i];
            let is_error = match report.severity {
                Some(DiagnosticSeverity::Error) => true,
                _ => false,
            };
            LineDecoration {
                selected,
                caret,
                hover,
                underline: Some(
                    Range {
                        start: clamp(report.range.start, start, end) - start,
                        end: clamp(report.range.end, start, end) - start,
                    },
                ),
                severity: report.severity,
                background,
                gutter: if is_error {
                    GutterTone::Error
                } else {
                    GutterTone::Warning
                },
                marked: true,
            }
        },
        None => LineDecoration {
            selected,
            caret,
            hover,
            underline: None,
            severity: None,
            background,
            gutter: if here {
                GutterTone::Active
            } else {
                GutterTone::Plain
            },
            marked: false,
        },
    }
}

/// What is shown at the bottom: what is said, else the first report.
pub fn status_line(status: &Option<String>, reports: &Vec<ByteDiagnostic>) -> (r: Option<String>)
    ensures
        provider::optional_text(r) == (if status is Some {
            provider::optional_text(*status)
        } else if reports@.len() > 0 {
            Some(reports@[0].message@)
        } else {
            None
        }),
{
    match status {
        Some(shown) => Some(shown.clone()),
        None => if reports.len() > 0 {
            Some(reports[0].message.clone())
        } else {
            None
        },
    }
}

/// Which of the places that were found is current, and how many there are.
pub fn find_counter(find: &FindState) -> (r: String)
    requires
        find.wf(),
    ensures
        r@ == text::decimal(
            match find.current {
                Some(current) => (current + 1) as nat,
                None => 0,
            },
        ) + "/"@ + text::decimal(find.matches@.len()),
{
    let count: usize = find.matches.len();
    let position: usize = match find.current {
        Some(current) => current + 1,
        None => 0,
    };
    let mut shown = text::decimal_text(position as u64);
    shown.append("/");
    shown.append(&text::decimal_text(count as u64));
    shown
}

/// What a click in the text does.
#[derive(Debug, PartialEq, Eq)]
pub enum Click {
    /// The definition of what stands there is looked for.
    GoToDefinition,
    /// The line is selected.
    SelectLine,
    /// A word is selected.
    SelectWord(Range<usize>),
    /// The selection reaches as far as there.
    ExtendSelection,
    /// The caret is put there.
    MoveCaret,
}

/// What a click at a byte offset in the text does, by the keys that are held and by how often it was
/// clicked.
pub fn click(content: &str, offset: usize, control: bool, shift: bool, click_count: usize) -> (r:
    Click)
    ensures
        if control {
            r is GoToDefinition
        } else if click_count >= 3 {
            r is SelectLine
        } else if click_count == 2 {
            r matches Click::SelectWord(range) && ({
                let (from, to) = interaction::word_around(content@, offset as nat);
                range.start == text::utf8_len(content@.take(from)) && range.end
                    == text::utf8_len(content@.take(to))
            })
        } else if shift {
            r is ExtendSelection
        } else {
            r is MoveCaret
        },
{
    if control {
        Click::GoToDefinition
    } else if click_count >= 3 {
        Click::SelectLine
    } else if click_count == 2 {
        Click::SelectWord(interaction::word_range_at(content, offset))
    } else if shift {
        Click::ExtendSelection
    } else {
        Click::MoveCaret
    }
}

/// The first report, from an index on, on a byte.
pub open spec fn report_on(reports: Seq<ByteDiagnosticView>, offset: usize, from: int) -> Option<
    ByteDiagnosticView,
>
    decreases reports.len() - from,
{
    if from >= reports.len() {
        None
    } else if reports[from].start <= offset && offset < reports[from].end {
        Some(reports[from])
    } else {
        report_on(reports, offset, from + 1)
    }
}

/// What is shown of the reports on the byte under the mouse: the first of them, and who made it.
pub fn hover_message(reports: &Vec<ByteDiagnostic>, offset: usize) -> (r: Option<String>)
    ensures
        provider::optional_text(r) == (match report_on(
            diagnostics::diagnostic_views(reports@),
            offset,
            0,
        ) {
            Some(report) => Some(report.message + "\nAxiom PHP Parser"@),
            None => None,
        }),
{
    let ghost all = diagnostics::diagnostic_views(reports@);
    let mut i: usize = 0;
    while i < reports.len()
        invariant
            i <= reports@.len(),
            all == diagnostics::diagnostic_views(reports@),
            report_on(all, offset, 0) == report_on(all, offset, i as int),
        decreases reports@.len() - i,
    {
        assert(all[i as int] == reports@[i as int]@);
        if reports[i].range.start <= offset && offset < reports[i].range.end {
            let mut shown = reports[i].message.clone();
            shown.append("\nAxiom PHP Parser");
            return Some(shown);
        }
        i += 1;
    }
    None
}

/// Whether a definition may be looked up for a token: it is a name that holds a letter, a digit or
/// an underscore.
pub open spec fn leads_somewhere(kind: Seq<char>, token: Seq<char>) -> bool {
    (kind == "name"@ || kind == "qualified_name"@ || kind == "variable_name"@ || kind
        == "member_name"@) && exists|i: int|
        0 <= i < token.len() && php::identifier_char(#[trigger] token[i])
}

fn holds_identifier(s: &[char]) -> (r: bool)
    ensures
        r == exists|i: int| 0 <= i < s@.len() && php::identifier_char(#[trigger] s@[i]),
{
    let mut i: usize = 0;
    while i < s.len()
        invariant
            i <= s@.len(),
            forall|k: int| 0 <= k < i ==> !php::identifier_char(#[trigger] s@[k]),
        decreases s@.len() - i,
    {
        if php::is_name_char(s[i], false) {
            assert(php::identifier_char(s@[i as int]));
            return true;
        }
        i += 1;
    }
    false
}

/// Whether a definition may be looked up for a token of a kind.
pub fn is_link(kind: &str, token: &str) -> (r: bool)
    ensures
        r == leads_somewhere(kind@, token@),
{
    if !(text::eq(kind, "name") || text::eq(kind, "qualified_name") || text::eq(
        kind,
        "variable_name",
    ) || text::eq(kind, "member_name")) {
        return false;
    }
    holds_identifier(&text::chars_of(token))
}

/// Whether a click that opens the menu moves the caret: only where it does not hit the selection.
pub fn menu_moves_caret(selection: Option<Range<usize>>, offset: usize) -> (r: bool)
    ensures
        r == !(selection is Some && selection->0.start <= offset && offset < selection->0.end),
{
    match selection {
        Some(range) => !(range.start <= offset && offset < range.end),
        None => true,
    }
}

/// No report on a line is graver than the one that marks it.
pub proof fn law_gravest_reports_mark_lines(
    reports: Seq<ByteDiagnosticView>,
    start: usize,
    end: usize,
    i: int,
)
    requires
        0 <= i < reports.len(),
        overlaps(reports[i].start, reports[i].end, start, end),
    ensures
        gravest(reports, start, end) is Some,
        diagnostics::severity_rank(gravest(reports, start, end)->0.severity)
            <= diagnostics::severity_rank(reports[i].severity),
    decreases reports.len(),
{
    let before = reports.drop_last();
    if i < before.len() {
        assert(before[i] == reports[i]);
        law_gravest_reports_mark_lines(before, start, end, i);
    }
}

/// An entry of the menu of the editor; a line between entries has no label.
#[derive(Debug, PartialEq, Eq)]
pub struct MenuEntry {
    pub label: String,
    pub enabled: bool,
    pub shortcut: String,
}

/// What an entry holds.
#[verifier::ext_equal]
pub struct MenuEntryView {
    pub label: Seq<char>,
    pub enabled: bool,
    pub shortcut: Seq<char>,
}

impl View for MenuEntry {
    type V = MenuEntryView;

    open spec fn view(&self) -> MenuEntryView {
        MenuEntryView { label: self.label@, enabled: self.enabled, shortcut: self.shortcut@ }
    }
}

/// What a menu holds.
pub open spec fn menu_views(entries: Seq<MenuEntry>) -> Seq<MenuEntryView> {
    entries.map_values(|e: MenuEntry| e@)
}

/// An entry of a menu.
pub open spec fn menu_entry(label: Seq<char>, enabled: bool, shortcut: Seq<char>) -> MenuEntryView {
    MenuEntryView { label, enabled, shortcut }
}

/// The menu of the editor. What needs a selection or a language server is offered only with one.
pub open spec fn editor_menu(has_selection: bool, has_server: bool) -> Seq<MenuEntryView> {
    seq![
        menu_entry("Undo"@, true, ""@),
        menu_entry("Redo"@, true, ""@),
        menu_entry(""@, false, ""@),
        menu_entry("Cut"@, has_selection, ""@),
        menu_entry("Copy"@, has_selection, ""@),
        menu_entry("Paste"@, true, ""@),
        menu_entry(""@, false, ""@),
        menu_entry("Go to Definition"@, has_server, "Ctrl+B"@),
        menu_entry("Go to Implementation"@, has_server, "Ctrl+Alt+B"@),
        menu_entry("Find Usages"@, has_server, "Alt+F7"@),
        menu_entry("Completion"@, has_server, ""@),
        menu_entry(""@, false, ""@),
        menu_entry("Select All"@, true, ""@),
    ]
}

fn put_entry(menu: &mut Vec<MenuEntry>, label: &str, enabled: bool, shortcut: &str)
    ensures
        menu_views(final(menu)@) == menu_views(old(menu)@).push(
            menu_entry(label@, enabled, shortcut@),
        ),
{
    let ghost before = menu_views(menu@);
    menu.push(
        MenuEntry {
            label: String::from_str(label),
            enabled,
            shortcut: String::from_str(shortcut),
        },
    );
    assert(menu_views(menu@) =~= before.push(menu_entry(label@, enabled, shortcut@)));
}

/// The menu of the editor; in a PHP document with a language server it leads to definitions and
/// usages.
pub fn context_menu(has_selection: bool, is_php: bool, has_server: bool) -> (r: Vec<MenuEntry>)
    ensures
        menu_views(r@) == editor_menu(has_selection, is_php && has_server),
{
    let navigable: bool = is_php && has_server;
    let mut menu: Vec<MenuEntry> = Vec::new();
    put_entry(&mut menu, "Undo", true, "");
    put_entry(&mut menu, "Redo", true, "");
    put_entry(&mut menu, "", false, "");
    put_entry(&mut menu, "Cut", has_selection, "");
    put_entry(&mut menu, "Copy", has_selection, "");
    put_entry(&mut menu, "Paste", true, "");
    put_entry(&mut menu, "", false, "");
    put_entry(&mut menu, "Go to Definition", navigable, "Ctrl+B");
    put_entry(&mut menu, "Go to Implementation", navigable, "Ctrl+Alt+B");
    put_entry(&mut menu, "Find Usages", navigable, "Alt+F7");
    put_entry(&mut menu, "Completion", navigable, "");
    put_entry(&mut menu, "", false, "");
    put_entry(&mut menu, "Select All", true, "");
    assert(menu_views(menu@) =~= editor_menu(has_selection, navigable));
    menu
}

/// What a key does in the line of a search, where it does something of its own there.
pub fn find_line_key(control: bool, key: &str) -> (r: Option<EditorAction>)
    ensures
        r == (if !control {
            None
        } else if key@ == "a"@ {
            Some(EditorAction::FindSelectAll)
        } else if key@ == "v"@ {
            Some(EditorAction::FindPaste)
        } else if key@ == "x"@ {
            Some(EditorAction::FindCut)
        } else {
            None
        }),
{
    if !control {
        None
    } else if text::eq(key, "a") {
        Some(EditorAction::FindSelectAll)
    } else if text::eq(key, "v") {
        Some(EditorAction::FindPaste)
    } else if text::eq(key, "x") {
        Some(EditorAction::FindCut)
    } else {
        None
    }
}

/// Whether the caret of a line is drawn: while the line is in use and nothing in it is selected, in
/// the phase of blinking in which it is seen.
pub fn line_caret_shown(focused: bool, caret_visible: bool, line: &TextInput) -> (r: bool)
    ensures
        r == (focused && caret_visible && line.first() == line.last()),
{
    let selection = line.selection();
    focused && caret_visible && selection.start == selection.end
}

} // verus!
