//! What of a document is shown, and in which order things are offered and found.

use vstd::prelude::*;
use vstd::string::*;

use crate::commands;
use crate::commands::CommandView;
use crate::commands::KeymapView;
use crate::completion;
use crate::completion::CompletionItemKind;
use crate::completion::CompletionItemView;
use crate::diagnostics;
use crate::diagnostics::ByteDiagnosticView;
use crate::diagnostics::DiagnosticSeverity;
use crate::lsp;
use crate::lsp::DocumentSession;
use crate::lsp::Generation;
use crate::lsp::LspRequestKind;
use crate::lsp::SignatureHelp;
use crate::naming;
use crate::pointer;
use crate::table;
use crate::text;
use crate::typing;
use crate::utf16;
use crate::utf16::PositionEncoding;
use crate::view;
use crate::view::EditorAction;
use crate::view::KeyBindingView;
use crate::view::KeyContext;
use crate::view::LineState;

verus! {

/// A byte of a line is shown as selected exactly where the selection holds it, and as what a
/// definition is looked up for exactly where that holds it.
pub proof fn law_selected_bytes_are_shown(state: LineState, byte: usize)
    requires
        state.start <= byte < state.end,
    ensures
        match (state.selection, view::selected_columns(state)) {
            (Some(range), Some((from, to))) => (from <= byte - state.start < to) == (range.start
                <= byte && byte < range.end),
            (Some(range), None) => !(range.start <= byte && byte < range.end),
            (None, columns) => columns is None,
        },
        match (state.hover, view::hover_columns(state)) {
            (Some(range), Some((from, to))) => (from <= byte - state.start < to) == (range.start
                <= byte && byte < range.end),
            (Some(range), None) => !(range.start <= byte && byte < range.end),
            (None, columns) => columns is None,
        },
{
}

/// The caret is shown on its line, at its place, where it is to be seen and nothing of the line is
/// selected, and nowhere else.
pub proof fn law_the_caret_is_shown_on_its_line(state: LineState)
    requires
        state.start <= state.cursor <= state.end,
    ensures
        view::caret_column(state) is Some ==> state.cursor_line == state.line && state.caret_shown
            && view::caret_column(state)->0 == state.cursor - state.start,
        state.cursor_line == state.line && state.caret_shown && state.selection is None
            ==> view::caret_column(state) == Some(state.cursor - state.start),
        state.cursor_line != state.line || !state.caret_shown ==> view::caret_column(state) is None,
{
}

/// An error is graver than a warning, a warning than an information, an information than a hint, and a
/// hint than a report that does not say how grave it is.
pub proof fn law_errors_are_gravest()
    ensures
        diagnostics::severity_rank(Some(DiagnosticSeverity::Error)) < diagnostics::severity_rank(
            Some(DiagnosticSeverity::Warning),
        ),
        diagnostics::severity_rank(Some(DiagnosticSeverity::Warning)) < diagnostics::severity_rank(
            Some(DiagnosticSeverity::Information),
        ),
        diagnostics::severity_rank(Some(DiagnosticSeverity::Information))
            < diagnostics::severity_rank(Some(DiagnosticSeverity::Hint)),
        diagnostics::severity_rank(Some(DiagnosticSeverity::Hint)) < diagnostics::severity_rank(
            None,
        ),
{
}

/// A line is marked by one of the reports that reach into it, and is not marked where none does.
pub proof fn law_lines_are_marked_by_their_reports(
    reports: Seq<ByteDiagnosticView>,
    start: usize,
    end: usize,
)
    ensures
        match view::gravest(reports, start, end) {
            Some(report) => reports.contains(report) && report.start < end && report.end > start,
            None => forall|k: int|
                0 <= k < reports.len() ==> !((#[trigger] reports[k]).start < end && reports[k].end
                    > start),
        },
    decreases reports.len(),
{
    if reports.len() > 0 {
        let before = reports.drop_last();
        law_lines_are_marked_by_their_reports(before, start, end);
        assert(reports[reports.len() - 1] == reports.last());
        match view::gravest(before, start, end) {
            Some(report) => {
                let k = choose|k: int| 0 <= k < before.len() && before[k] == report;
                assert(reports[k] == report);
            },
            None => {
                assert forall|k: int|
                    0 <= k < reports.len() - 1 implies !((#[trigger] reports[k]).start < end
                    && reports[k].end > start) by {
                    assert(before[k] == reports[k]);
                }
            },
        }
    }
}

/// Under the mouse the first report is shown that holds the byte there.
pub proof fn law_reports_under_the_mouse(
    reports: Seq<ByteDiagnosticView>,
    offset: usize,
    k: int,
)
    requires
        0 <= k < reports.len(),
        reports[k].start <= offset < reports[k].end,
        forall|j: int|
            0 <= j < k ==> !((#[trigger] reports[j]).start <= offset && offset < reports[j].end),
    ensures
        view::report_on(reports, offset, 0) == Some(reports[k]),
{
    lemma_report_on(reports, offset, k, 0);
}

proof fn lemma_report_on(reports: Seq<ByteDiagnosticView>, offset: usize, k: int, from: int)
    requires
        0 <= from <= k < reports.len(),
        reports[k].start <= offset < reports[k].end,
        forall|j: int|
            0 <= j < k ==> !((#[trigger] reports[j]).start <= offset && offset < reports[j].end),
    ensures
        view::report_on(reports, offset, from) == Some(reports[k]),
    decreases k - from,
{
    if from < k {
        assert(!(reports[from].start <= offset && offset < reports[from].end));
        lemma_report_on(reports, offset, k, from + 1);
    }
}

/// In the menu only what is selected can be cut or copied, and only a server leads anywhere.
pub proof fn law_menus_offer_what_can_be_done(has_selection: bool, has_server: bool, k: int)
    requires
        0 <= k < view::editor_menu(has_selection, has_server).len(),
    ensures
        ({
            let entry = view::editor_menu(has_selection, has_server)[k];
            &&& entry.label == "Cut"@ || entry.label == "Copy"@ ==> entry.enabled == has_selection
            &&& entry.label == "Go to Definition"@ || entry.label == "Find Usages"@
                ==> entry.enabled == has_server
        }),
        exists|i: int|
            0 <= i < view::editor_menu(has_selection, has_server).len() && (
            #[trigger] view::editor_menu(has_selection, has_server)[i]).label == "Cut"@,
        exists|i: int|
            0 <= i < view::editor_menu(has_selection, has_server).len() && (
            #[trigger] view::editor_menu(has_selection, has_server)[i]).label
                == "Go to Definition"@,
{
    reveal_strlit("Undo");
    reveal_strlit("Redo");
    reveal_strlit("");
    reveal_strlit("Cut");
    reveal_strlit("Copy");
    reveal_strlit("Paste");
    reveal_strlit("Go to Definition");
    reveal_strlit("Go to Implementation");
    reveal_strlit("Find Usages");
    reveal_strlit("Completion");
    reveal_strlit("Select All");
    assert("Cut"@.len() == 3 && "Copy"@.len() == 4 && "Undo"@[0] == 'U' && "Redo"@[0] == 'R');
    assert("Copy"@[0] == 'C');
    assert("Completion"@.len() == 10 && "Select All"@.len() == 10 && "Paste"@.len() == 5);
    assert("Go to Definition"@.len() == 16 && "Go to Implementation"@.len() == 20);
    assert("Find Usages"@.len() == 11);
    let menu = view::editor_menu(has_selection, has_server);
    assert(menu[3].label == "Cut"@);
    assert(menu[7].label == "Go to Definition"@);
}

/// Whether a text holds another where the case of letters does not matter.
pub open spec fn holds_loosely(s: Seq<char>, part: Seq<char>) -> bool {
    let lowered = text::ascii_lowercase(s);
    let wanted = text::ascii_lowercase(part);
    exists|k: int|
        0 <= k <= lowered.len() - wanted.len() && #[trigger] lowered.subrange(k, k + wanted.len())
            == wanted
}

proof fn lemma_loosely(s: Seq<char>, part: Seq<char>)
    ensures
        text::contains_text(text::ascii_lowercase(s), text::ascii_lowercase(part)) == holds_loosely(
            s,
            part,
        ),
{
    let lowered = text::ascii_lowercase(s);
    let wanted = text::ascii_lowercase(part);
    if text::contains_text(lowered, wanted) {
        let k = choose|k: int| text::occurs_at(lowered, wanted, k);
        assert(lowered.subrange(k, k + wanted.len()) == wanted);
    }
    if holds_loosely(s, part) {
        let k = choose|k: int|
            0 <= k <= lowered.len() - wanted.len() && #[trigger] lowered.subrange(
                k,
                k + wanted.len(),
            ) == wanted;
        assert(text::occurs_at(lowered, wanted, k));
    }
}

/// A command is found by whatever its title, its description or its category holds, in any case, and
/// by nothing else.
pub proof fn law_commands_are_found_by_their_words(command: CommandView, query: Seq<char>)
    ensures
        commands::found_by(command, query) == (holds_loosely(command.title, query) || holds_loosely(
            command.description,
            query,
        ) || holds_loosely(command.category, query)),
{
    lemma_loosely(command.title, query);
    lemma_loosely(command.description, query);
    lemma_loosely(command.category, query);
}

/// Whether a text begins with another where the case of letters does not matter.
pub open spec fn begins_loosely(s: Seq<char>, start: Seq<char>) -> bool {
    start.len() <= s.len() && text::ascii_lowercase(s.take(start.len() as int))
        == text::ascii_lowercase(start)
}

proof fn lemma_begins_loosely(s: Seq<char>, start: Seq<char>)
    ensures
        text::starts_with(text::ascii_lowercase(s), text::ascii_lowercase(start)) == begins_loosely(
            s,
            start,
        ),
{
    let lowered = text::ascii_lowercase(s);
    if start.len() <= s.len() {
        assert(lowered.subrange(0, start.len() as int) =~= text::ascii_lowercase(
            s.take(start.len() as int),
        ));
    }
}

/// Behind `new` a label that is just what was written comes before one that only begins with it, and
/// that before any other; only those that begin with it are kept. Of labels that fit as well, one of
/// the project comes before one of a package, and that before one of the runtime; and of those a type
/// before anything else.
pub proof fn law_nearer_completions_come_first(
    a: CompletionItemView,
    b: CompletionItemView,
    prefix: Seq<char>,
)
    requires
        prefix.len() > 0,
    ensures
        ({
            let same_a = text::ascii_lowercase(a.label) == text::ascii_lowercase(prefix);
            let same_b = text::ascii_lowercase(b.label) == text::ascii_lowercase(prefix);
            let fits_a = begins_loosely(a.label, prefix);
            let fits_b = begins_loosely(b.label, prefix);
            let alike = same_a == same_b && fits_a == fits_b;
            let before = completion::new_rank(a, prefix) < completion::new_rank(b, prefix);
            &&& completion::fits(a, prefix) == fits_a
            &&& same_a && !same_b ==> before
            &&& fits_a && !fits_b ==> before
            &&& alike && from(a, "Project"@) && from(b, "Vendor"@) && !from(b, "Project"@) ==> before
            &&& alike && from(a, "Vendor"@) && from(b, "Runtime"@) && !from(b, "Project"@) && !from(
                b,
                "Vendor"@,
            ) ==> before
            &&& alike && a.detail == b.detail && a.kind == Some(CompletionItemKind::Class) && b.kind
                == Some(CompletionItemKind::Function) ==> before
        }),
{
    lemma_begins_loosely(a.label, prefix);
    lemma_begins_loosely(b.label, prefix);
    let la = text::ascii_lowercase(a.label);
    let lb = text::ascii_lowercase(b.label);
    let lp = text::ascii_lowercase(prefix);
    if la == lp {
        assert(la.subrange(0, lp.len() as int) =~= lp);
    }
    if lb == lp {
        assert(lb.subrange(0, lp.len() as int) =~= lp);
    }
}

/// Whether the detail of a completion tells that it comes from somewhere.
pub open spec fn from(item: CompletionItemView, source: Seq<char>) -> bool {
    match item.detail {
        Some(detail) => text::contains_text(detail, source),
        None => false,
    }
}

/// A character takes one UTF-16 unit, or two where it lies beyond the first plane; so a text of the
/// first plane takes as many units as it has characters, and what is put together takes the sum.
pub proof fn law_characters_take_their_units(c: char, s: Seq<char>)
    ensures
        utf16::units(c) == (if c as u32 >= 0x10000 {
            2nat
        } else {
            1
        }),
        utf16::utf16_len(s.push(c)) == utf16::utf16_len(s) + utf16::units(c),
        utf16::utf16_len(Seq::empty()) == 0,
{
    assert(s.push(c).drop_last() =~= s);
}

/// A column is told in the way that a server counts: in bytes as it is, in UTF-16 units as those that
/// stand before it, and in characters as their number.
pub proof fn law_columns_are_told_as_they_are_counted(line: Seq<char>, n: int)
    requires
        0 <= n <= line.len(),
    ensures
        ({
            let column = text::utf8_len(line.take(n));
            &&& utf16::encoded_column(line, column, PositionEncoding::Utf8) == column
            &&& utf16::encoded_column(line, column, PositionEncoding::Utf16) == utf16::utf16_len(
                line.take(n),
            )
            &&& utf16::encoded_column(line, column, PositionEncoding::Utf32) == n
        }),
{
    let column = text::utf8_len(line.take(n));
    text::lemma_char_boundary(line, n);
    text::lemma_take_len(line, n);
    if column >= text::utf8_len(line) {
        text::lemma_fitting(line, column as int);
        assert(line.take(line.len() as int) =~= line);
    }
}

/// Every line feed makes one line more.
pub proof fn law_line_feeds_make_lines(s: Seq<char>, c: char)
    ensures
        pointer::line_count(Seq::empty()) == 1,
        pointer::line_count(s.push(c)) == pointer::line_count(s) + (if c == '\n' {
            1nat
        } else {
            0
        }),
{
    lemma_lines_kept(s, c, s.len() as int);
}

proof fn lemma_lines_kept(s: Seq<char>, c: char, at: int)
    requires
        0 <= at <= s.len(),
    ensures
        pointer::lines_before(s.push(c), at) == pointer::lines_before(s, at),
    decreases at,
{
    if at > 0 {
        assert(s.push(c)[at - 1] == s[at - 1]);
        lemma_lines_kept(s, c, at - 1);
    }
}

/// What a table is searched for is its first entry that is wanted, and nothing where none is.
pub proof fn law_tables_give_their_first_entry<T>(
    entries: Seq<T>,
    wanted: spec_fn(T) -> bool,
    k: int,
)
    ensures
        0 <= k < entries.len() && wanted(entries[k]) && (forall|j: int|
            0 <= j < k ==> !wanted(#[trigger] entries[j])) ==> table::first_entry(entries, wanted)
            == Some(entries[k]),
        (forall|j: int| 0 <= j < entries.len() ==> !wanted(#[trigger] entries[j]))
            ==> table::first_entry(entries, wanted) is None,
    decreases entries.len(),
{
    if entries.len() > 0 {
        let rest = entries.skip(1);
        law_tables_give_their_first_entry(rest, wanted, k - 1);
        if !wanted(entries[0]) {
            if 0 <= k < entries.len() && wanted(entries[k]) && (forall|j: int|
                0 <= j < k ==> !wanted(#[trigger] entries[j])) {
                assert(k > 0);
                assert(rest[k - 1] == entries[k]);
                assert forall|j: int| 0 <= j < k - 1 implies !wanted(#[trigger] rest[j]) by {
                    assert(rest[j] == entries[j + 1]);
                }
            }
            if forall|j: int| 0 <= j < entries.len() ==> !wanted(#[trigger] entries[j]) {
                assert forall|j: int| 0 <= j < rest.len() implies !wanted(#[trigger] rest[j]) by {
                    assert(rest[j] == entries[j + 1]);
                }
            }
        }
    }
}

/// A document that has a session is known by it, and its requests of a kind by their number; one that
/// has none by neither.
pub proof fn law_documents_are_known_by_their_own(
    sessions: Seq<DocumentSession>,
    generations: Seq<Generation>,
    uri: Seq<char>,
    kind: LspRequestKind,
    k: int,
)
    ensures
        0 <= k < sessions.len() && sessions[k].uri@ == uri && (forall|j: int|
            0 <= j < k ==> (#[trigger] sessions[j]).uri@ != uri) ==> lsp::session_of(
            sessions,
            uri,
            0,
        ) == Some(sessions[k].session),
        (forall|j: int| 0 <= j < sessions.len() ==> (#[trigger] sessions[j]).uri@ != uri)
            ==> lsp::session_of(sessions, uri, 0) is None,
        0 <= k < generations.len() && generations[k].uri@ == uri && generations[k].kind == kind && (
        forall|j: int|
            0 <= j < k ==> !((#[trigger] generations[j]).uri@ == uri && generations[j].kind
                == kind)) ==> lsp::generation_of(generations, uri, kind, 0)
            == generations[k].number,
        (forall|j: int|
            0 <= j < generations.len() ==> !((#[trigger] generations[j]).uri@ == uri
                && generations[j].kind == kind)) ==> lsp::generation_of(generations, uri, kind, 0)
            == 0,
{
    lemma_session(sessions, uri, k, 0);
    lemma_generation(generations, uri, kind, k, 0);
}

proof fn lemma_session(sessions: Seq<DocumentSession>, uri: Seq<char>, k: int, at: int)
    requires
        0 <= at,
    ensures
        at <= k < sessions.len() && sessions[k].uri@ == uri && (forall|j: int|
            at <= j < k ==> (#[trigger] sessions[j]).uri@ != uri) ==> lsp::session_of(
            sessions,
            uri,
            at,
        ) == Some(sessions[k].session),
        (forall|j: int| at <= j < sessions.len() ==> (#[trigger] sessions[j]).uri@ != uri)
            ==> lsp::session_of(sessions, uri, at) is None,
    decreases sessions.len() - at,
{
    if at < sessions.len() {
        lemma_session(sessions, uri, k, at + 1);
    }
}

proof fn lemma_generation(
    generations: Seq<Generation>,
    uri: Seq<char>,
    kind: LspRequestKind,
    k: int,
    at: int,
)
    requires
        0 <= at,
    ensures
        at <= k < generations.len() && generations[k].uri@ == uri && generations[k].kind == kind && (
        forall|j: int|
            at <= j < k ==> !((#[trigger] generations[j]).uri@ == uri && generations[j].kind
                == kind)) ==> lsp::generation_of(generations, uri, kind, at)
            == generations[k].number,
        (forall|j: int|
            at <= j < generations.len() ==> !((#[trigger] generations[j]).uri@ == uri
                && generations[j].kind == kind)) ==> lsp::generation_of(generations, uri, kind, at)
            == 0,
    decreases generations.len() - at,
{
    if at < generations.len() {
        lemma_generation(generations, uri, kind, k, at + 1);
    }
}

/// Of the signatures that a server offers the label of the one that it means is shown, and of the
/// first where it means none; nothing is where there is no such signature.
pub proof fn law_the_meant_signature_is_shown(help: SignatureHelp, k: int)
    requires
        help.active_signature == Some(k as u32) || (help.active_signature is None && k == 0),
        0 <= k <= u32::MAX,
    ensures
        k < help.signatures@.len() && help.signatures@[k].label@.len() > 0 ==> lsp::shown_help(help)
            == help.signatures@[k].label@,
        k >= help.signatures@.len() ==> lsp::shown_help(help).len() == 0,
{
}

/// Whether a key does something in a context.
pub open spec fn does(
    bindings: Seq<KeyBindingView>,
    keys: Seq<char>,
    action: EditorAction,
    context: KeyContext,
) -> bool {
    exists|k: int|
        0 <= k < bindings.len() && (#[trigger] bindings[k]).keys == keys && bindings[k].action
            == action && bindings[k].context == context
}

/// The usual keys do in the text what they usually do.
pub proof fn law_usual_keys_do_the_usual()
    ensures
        ({
            let keys = view::editor_keys();
            let text = KeyContext::Editor;
            &&& does(keys, "backspace"@, EditorAction::Backspace, text)
            &&& does(keys, "delete"@, EditorAction::Delete, text)
            &&& does(keys, "enter"@, EditorAction::Enter, text)
            &&& does(keys, "tab"@, EditorAction::Tab, text)
            &&& does(keys, "shift-tab"@, EditorAction::Outdent, text)
            &&& does(keys, "left"@, EditorAction::Left, text)
            &&& does(keys, "right"@, EditorAction::Right, text)
            &&& does(keys, "up"@, EditorAction::Up, text)
            &&& does(keys, "down"@, EditorAction::Down, text)
            &&& does(keys, "home"@, EditorAction::Home, text)
            &&& does(keys, "end"@, EditorAction::End, text)
            &&& does(keys, "secondary-a"@, EditorAction::SelectAll, text)
            &&& does(keys, "secondary-c"@, EditorAction::Copy, text)
            &&& does(keys, "secondary-x"@, EditorAction::Cut, text)
            &&& does(keys, "secondary-v"@, EditorAction::Paste, text)
            &&& does(keys, "secondary-z"@, EditorAction::Undo, text)
            &&& does(keys, "secondary-y"@, EditorAction::Redo, text)
            &&& does(keys, "secondary-s"@, EditorAction::Save, text)
        }),
        ({
            let keys = view::find_keys();
            let line = KeyContext::FindInput;
            &&& does(keys, "enter"@, EditorAction::FindNext, line)
            &&& does(keys, "shift-enter"@, EditorAction::FindPrevious, line)
            &&& does(keys, "escape"@, EditorAction::CloseFind, line)
        }),
        ({
            let keys = view::replace_keys();
            let line = KeyContext::ReplaceInput;
            &&& does(keys, "enter"@, EditorAction::FindReplace, line)
            &&& does(keys, "ctrl-shift-enter"@, EditorAction::FindReplaceAll, line)
            &&& does(keys, "escape"@, EditorAction::CloseFind, line)
        }),
{
    let keys = view::editor_keys();
    assert(keys[0].keys == "backspace"@);
    assert(keys[1].keys == "delete"@);
    assert(keys[2].keys == "enter"@);
    assert(keys[3].keys == "tab"@);
    assert(keys[4].keys == "shift-tab"@);
    assert(keys[5].keys == "left"@);
    assert(keys[6].keys == "right"@);
    assert(keys[7].keys == "up"@);
    assert(keys[8].keys == "down"@);
    assert(keys[9].keys == "home"@);
    assert(keys[10].keys == "end"@);
    assert(keys[15].keys == "secondary-a"@);
    assert(keys[16].keys == "secondary-c"@);
    assert(keys[17].keys == "secondary-x"@);
    assert(keys[18].keys == "secondary-v"@);
    assert(keys[19].keys == "secondary-z"@);
    assert(keys[20].keys == "secondary-y"@);
    assert(keys[21].keys == "secondary-s"@);
    let keys = view::find_keys();
    assert(keys[0].keys == "enter"@);
    assert(keys[1].keys == "shift-enter"@);
    assert(keys[2].keys == "escape"@);
    let keys = view::replace_keys();
    assert(keys[0].keys == "enter"@);
    assert(keys[1].keys == "escape"@);
    assert(keys[2].keys == "ctrl-shift-enter"@);
}

/// Keys that are put in the place of others belong to their command alone, but for one that has them
/// by default; and no command loses any other keys.
pub proof fn law_replaced_keys_change_hands(
    keymap: KeymapView,
    id: Seq<char>,
    shortcut: Seq<char>,
    k: int,
)
    requires
        0 <= k < keymap.commands.len(),
        keymap.commands[k].id != id,
    ensures
        ({
            let after = KeymapView {
                overrides: commands::replaced(
                    keymap,
                    id,
                    Some(shortcut),
                    keymap.commands,
                ).insert(id, Some(shortcut)),
                ..keymap
            };
            let other = keymap.commands[k].id;
            &&& commands::keys(after, id) == Some(shortcut)
            &&& commands::keys(after, other) == Some(shortcut) ==> commands::default_keys(
                keymap.commands,
                other,
            ) == Some(shortcut)
            &&& commands::keys(keymap, other) != Some(shortcut) ==> commands::keys(after, other)
                == commands::keys(keymap, other)
        }),
{
    let other = keymap.commands[k].id;
    let losers = commands::losers_in(keymap, id, Some(shortcut), keymap.commands);
    assert(keymap.commands.take(keymap.commands.len() as int) =~= keymap.commands);
    lemma_losers(keymap, id, shortcut, keymap.commands.len() as int, other);
    lemma_cleared(keymap.overrides, losers, other);
    if commands::keys(keymap, other) == Some(shortcut) {
        lemma_loses(keymap, id, shortcut, keymap.commands.len() as int, k);
    }
}

proof fn lemma_losers(
    keymap: KeymapView,
    id: Seq<char>,
    shortcut: Seq<char>,
    n: int,
    other: Seq<char>,
)
    requires
        0 <= n <= keymap.commands.len(),
    ensures
        commands::losers_in(keymap, id, Some(shortcut), keymap.commands.take(n)).contains(other)
            ==> commands::keys(keymap, other) == Some(shortcut),
    decreases n,
{
    if n > 0 {
        let now = keymap.commands.take(n);
        assert(now.drop_last() =~= keymap.commands.take(n - 1));
        lemma_losers(keymap, id, shortcut, n - 1, other);
        let before = commands::losers_in(keymap, id, Some(shortcut), keymap.commands.take(n - 1));
        let all = commands::losers_in(keymap, id, Some(shortcut), now);
        if all.contains(other) {
            let i = choose|i: int| 0 <= i < all.len() && all[i] == other;
            if i < before.len() {
                assert(before[i] == other);
            }
        }
    }
}

proof fn lemma_loses(keymap: KeymapView, id: Seq<char>, shortcut: Seq<char>, n: int, k: int)
    requires
        0 <= k < n <= keymap.commands.len(),
        keymap.commands[k].id != id,
        commands::keys(keymap, keymap.commands[k].id) == Some(shortcut),
    ensures
        commands::losers_in(keymap, id, Some(shortcut), keymap.commands.take(n)).contains(
            keymap.commands[k].id,
        ),
    decreases n,
{
    let now = keymap.commands.take(n);
    assert(now.drop_last() =~= keymap.commands.take(n - 1));
    let before = commands::losers_in(keymap, id, Some(shortcut), keymap.commands.take(n - 1));
    let all = commands::losers_in(keymap, id, Some(shortcut), now);
    if k == n - 1 {
        assert(all[all.len() - 1] == keymap.commands[k].id);
    } else {
        lemma_loses(keymap, id, shortcut, n - 1, k);
        let i = choose|i: int| 0 <= i < before.len() && before[i] == keymap.commands[k].id;
        assert(all[i] == before[i]);
    }
}

proof fn lemma_cleared(
    overrides: Map<Seq<char>, Option<Seq<char>>>,
    ids: Seq<Seq<char>>,
    other: Seq<char>,
)
    ensures
        ids.contains(other) ==> commands::cleared(overrides, ids).contains_key(other)
            && commands::cleared(overrides, ids)[other] is None,
        !ids.contains(other) ==> commands::cleared(overrides, ids).contains_key(other)
            == overrides.contains_key(other) && (overrides.contains_key(other)
            ==> commands::cleared(overrides, ids)[other] == overrides[other]),
    decreases ids.len(),
{
    if ids.len() > 0 {
        let before = ids.drop_last();
        lemma_cleared(overrides, before, other);
        if ids.contains(other) {
            let i = choose|i: int| 0 <= i < ids.len() && ids[i] == other;
            if i < before.len() {
                assert(before[i] == other);
            }
        } else {
            assert(ids[ids.len() - 1] != other);
            if before.contains(other) {
                let i = choose|i: int| 0 <= i < before.len() && before[i] == other;
                assert(ids[i] == other);
            }
        }
    }
}

/// Whether a text holds none of the marks of a parameter.
pub open spec fn unmarked(s: Seq<char>) -> bool {
    forall|k: int| 0 <= k < s.len() ==> #[trigger] s[k] != '=' && s[k] != '$'
}

/// A parameter is shown by its name alone, without its type and its default.
pub proof fn law_parameters_are_shown_by_name(
    declared: Seq<char>,
    name: Seq<char>,
    default: Seq<char>,
)
    requires
        declared.len() > 0,
        unmarked(declared),
        !text::whitespace(declared[0]),
        declared[0] != '&',
        declared[0] != '.',
        name.len() > 0,
        unmarked(name),
        forall|k: int| 0 <= k < name.len() ==> !text::whitespace(#[trigger] name[k]),
        default.len() > 0,
        !text::whitespace(default.last()),
    ensures
        completion::compressed(declared + " $"@ + name) == "$"@ + name,
        completion::compressed(declared + " $"@ + name + " = "@ + default) == "$"@ + name,
{
    reveal_strlit(" $");
    reveal_strlit(" = ");
    reveal_strlit("$");
    reveal_strlit("...");
    let value = declared + " $"@ + name;
    let at = declared.len() as int + 1;
    assert(value[0] == declared[0]);
    assert(value.last() == name[name.len() - 1]);
    assert(!text::whitespace(name[name.len() - 1]));
    naming::lemma_solid(value);
    assert(value[at] == '$');
    assert forall|k: int| at < k < value.len() implies #[trigger] value[k] != '$' by {
        assert(value[k] == name[k - at - 1]);
    }
    naming::lemma_last_char(value, '$', at, value.len() as int);
    assert(value.skip(at + 1) =~= name);
    assert(!text::whitespace(name[0]));
    naming::lemma_solid(name);
    assert forall|k: int| 0 <= k < value.len() implies #[trigger] value[k] != '=' by {
        if k < declared.len() {
            assert(value[k] == declared[k]);
        } else if k > at {
            assert(value[k] == name[k - at - 1]);
        }
    }
    text::lemma_char_from(value, '=', 0);
    assert(text::before_first(value, '=') == value);
    lemma_unmarked_start(value);
    let full = value + " = "@ + default;
    assert(full[0] == declared[0]);
    assert(full.last() == default.last());
    naming::lemma_solid(full);
    lemma_unmarked_start(full);
    let head = value + seq![' '];
    let tail = seq!['=', ' '] + default;
    assert(full =~= head + tail);
    assert forall|k: int| 0 <= k < head.len() implies #[trigger] head[k] != '=' by {
        if k < value.len() {
            assert(head[k] == value[k]);
        }
    }
    naming::lemma_up_to(head, '=', tail);
    typing::lemma_trim_end(value, seq![' ']);
    assert(text::trim_start(head) == head);
    assert(text::trim(head) == value);
}

proof fn lemma_unmarked_start(s: Seq<char>)
    requires
        s.len() > 0,
        s[0] != '&',
        s[0] != '.',
        text::trim(s) == s,
    ensures
        text::trim(text::strip_start(text::trim(s), '&')) == s,
        text::after_prefix(s, "..."@) is None,
{
    reveal_strlit("...");
    if text::starts_with(s, "..."@) {
        assert(s.subrange(0, 3)[0] == s[0]);
    }
}

/// A completion without a detail is shown by its label alone; what stands behind the last bullet of a
/// detail is shown as where it comes from.
pub proof fn law_sources_are_shown_apart(item: CompletionItemView, told: Seq<char>, source: Seq<char>)
    requires
        source.len() > 0,
        source[0] != '"' && source[0] != '\'',
        source.last() != '"' && source.last() != '\'',
        source != "PhpRuntime"@,
        source != "Composer"@,
        item.detail == Some(told + " • "@ + source),
        forall|k: int| 0 <= k < source.len() ==> #[trigger] source[k] != '•',
    ensures
        completion::presented(item).source == Some(source),
        completion::presented(CompletionItemView { detail: None, ..item }).source is None,
        completion::presented(CompletionItemView { detail: None, ..item }).primary == text::trim(
            item.label,
        ),
{
    reveal_strlit(" • ");
    let detail = told + " • "@ + source;
    let at = told.len() as int;
    assert(detail.subrange(at, at + 3) =~= " • "@);
    assert forall|k: int| at < k <= detail.len() - 3 implies #[trigger] detail.subrange(k, k + 3)
        != " • "@ by {
        let part = detail.subrange(k, k + 3);
        assert(part[1] == detail[k + 1]);
        if k + 1 >= at + 3 {
            assert(detail[k + 1] == source[k + 1 - at - 3]);
        }
    }
    naming::lemma_last_at(detail, " • "@, at, detail.len() as int + 1);
    assert(detail.skip(at + 3) =~= source);
    let none = Seq::<char>::empty();
    reveal_with_fuel(text::rfind_before, 2);
}

} // verus!
