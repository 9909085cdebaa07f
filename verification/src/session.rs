//! The state of an open document, and what an edit of it sets going.

use std::ops::Range;
use std::sync::atomic::AtomicU64;
use std::sync::atomic::Ordering;

use vstd::prelude::*;
use vstd::slice::slice_subrange;
use vstd::string::*;

use crate::arguments::ArgumentInspectionInput;
use crate::completion;
use crate::completion::CompletionItemView;
use crate::completion::Completions;
use crate::diagnostics;
use crate::diagnostics::ByteDiagnostic;
use crate::diagnostics::ByteDiagnosticView;
use crate::diagnostics::DiagnosticSeverity;
use crate::diagnostics::DiagnosticStore;
use crate::find;
use crate::find::FindState;
use crate::find::TextInput;
use crate::formatter;
use crate::help;
use crate::input;
use crate::inspect;
use crate::inspect::DeclarationView;
use crate::inspect::DuplicateClassDeclaration;
use crate::inspect::DuplicateClassInspectionInput;
use crate::inspect::UnknownClassInspectionInput;
use crate::inspect::UnknownConstantInspectionInput;
use crate::lsp;
use crate::lsp::DocumentEdit;
use crate::lsp::PositionRange;
use crate::native;
use crate::php;
use crate::php::ProjectSymbolKind;
use crate::pointer;
use crate::pointer::Pointer;
use crate::provider;
use crate::record::GenerationReading;
use crate::record::RuleRecord;
use crate::symbols;
use crate::symbols::ProjectSymbol;
use crate::symbols::ProjectSymbolView;
use crate::symbols::SymbolIndex;
use crate::syntax;
use crate::syntax::SyntaxTree;
use crate::text;
use crate::utf16;
use crate::utf16::PositionEncoding;
use crate::widths::WidthCache;

verus! {

/// How long a capture waits before it is tried again while the index is busy, in milliseconds.
pub const NATIVE_INSPECTION_CAPTURE_RETRY_DELAY_MS: u64 = 15;

/// How often a capture is tried again while the index is busy.
pub const NATIVE_INSPECTION_CAPTURE_MAX_LOCK_RETRIES: usize = 3;

/// The number behind a number that counts round.
pub open spec fn counted_on(n: u64) -> u64 {
    if n == u64::MAX {
        0
    } else {
        (n + 1) as u64
    }
}

/// The version behind a version; the last one stays.
pub open spec fn version_on(n: i32) -> i32 {
    if n == i32::MAX {
        n
    } else {
        (n + 1) as i32
    }
}

fn count_on(n: u64) -> (r: u64)
    ensures
        r == counted_on(n),
{
    if n == u64::MAX {
        0
    } else {
        n + 1
    }
}

/// The state of an open document.
#[derive(Debug)]
pub struct EditorSession {
    pub document_session: u64,
    pub edit_generation: u64,
    pub native_inspection_generation: u64,
    pub initial_native_inspection_scheduled: bool,
    pub lsp_version: i32,
    pub last_lsp_text: String,
    pub completions: Completions,
    pub hover_popup: Option<String>,
    pub find: FindState,
    pub replace: TextInput,
    pub find_revision: u64,
    pub find_focus_pending: bool,
    pub pointer: Pointer,
    pub diagnostics: DiagnosticStore,
    pub caret_visible: bool,
    pub caret_blink_generation: u64,
    pub widths: WidthCache,
    pub has_workspace_root: bool,
    pub workspace_source: bool,
    pub project_index_revision: Option<u64>,
    pub status: Option<String>,
}

/// What the server is told of a document: its version, and the text of a range, or the whole text.
#[derive(Debug, PartialEq, Eq)]
pub struct DidChange {
    pub version: i32,
    pub range: Option<PositionRange>,
    pub text: String,
}

/// Whether a server, which counts columns in some way, is told of a text as it should: not at all
/// where it knows the text, else of the edit that led to it, or of the whole text where none is
/// known.
pub open spec fn told_of(
    known: Seq<char>,
    source: Seq<char>,
    edit: Option<&DocumentEdit>,
    server: Option<PositionEncoding>,
    version: i32,
    told: Option<DidChange>,
) -> bool {
    match (server, told) {
        (Some(encoding), Some(change)) => {
            &&& known != source
            &&& change.version == version
            &&& change.range == lsp::changed_range(edit, encoding)
            &&& change.text@ == lsp::changed_text(edit, source)
        },
        (Some(_), None) => known == source,
        (None, told) => told is None,
    }
}

/// What an edit of a document sets going: a selection in the document, an inspection, a change that
/// the server is told, an update of the index, and a request for completions.
#[derive(Debug, PartialEq, Eq)]
pub struct EditActions {
    pub selection: Option<Range<usize>>,
    pub inspection_generation: u64,
    pub did_change: Option<DidChange>,
    pub index_update: Option<u64>,
    pub request_completion: bool,
}

/// What a formatted document is left with: where the caret goes, and what the edit sets going.
#[derive(Debug, PartialEq, Eq)]
pub struct Formatted {
    pub caret: usize,
    pub actions: EditActions,
}

/// Whether the server is asked for completions behind a text.
pub open spec fn asks_for_completion(tail: Seq<char>) -> bool {
    text::ends_with(tail, "->"@) || text::ends_with(tail, "::"@) || native::behind_keyword(tail)
}

/// Whether the signature of a call is shown behind a text.
pub open spec fn asks_for_help(tail: Seq<char>) -> bool {
    tail.len() > 0 && (tail.last() == '(' || tail.last() == ',')
}

/// The completions that are offered after an edit, where some were offered before: none where none
/// are found; behind `new` those that fit, by rank; else those that are found behind those before.
pub open spec fn offered_after<S: SymbolIndex>(
    index: &S,
    source: Seq<char>,
    cursor: usize,
    before: Seq<CompletionItemView>,
) -> Seq<CompletionItemView> {
    let batch = native::native_batch(index, source, cursor);
    if batch.items.len() == 0 {
        Seq::empty()
    } else {
        match batch.new_prefix {
            Some((start, end)) => {
                let prefix = source.subrange(
                    text::fitting(source, start as int) as int,
                    text::fitting(source, end as int) as int,
                );
                completion::ranked(
                    batch.items.filter(
                        |item: CompletionItemView| completion::fits(item, prefix),
                    ),
                    prefix,
                )
            },
            None => completion::distinct(before + batch.items, false),
        }
    }
}

/// Where the caret is after an edit that left it at an offset: while the search is open, behind the
/// first place of what is looked for, if there is one.
pub open spec fn caret_after(find: FindState, source: Seq<char>, cursor: usize) -> usize {
    let places = find::places(source, find.input.query@);
    if find.visible && places.len() > 0 {
        places[0].1 as usize
    } else {
        cursor
    }
}

proof fn lemma_behind_place(source: Seq<char>, query: Seq<char>)
    requires
        find::places(source, query).len() > 0,
    ensures
        0 <= find::places(source, query)[0].1 <= text::utf8_len(source),
        php::boundary(source, find::places(source, query)[0].1 as nat),
{
    text::lemma_occurrences(source, query, 0);
    let i = text::occurrences(source, query, 0)[0];
    assert(text::occurs_at(source, query, i));
    let end = i + query.len();
    assert(find::places(source, query)[0].1 == text::utf8_len(source.take(i)) + text::utf8_len(
        query,
    ));
    assert(source.take(end) =~= source.take(i) + query);
    text::lemma_utf8_len_add(source.take(i), query);
    text::lemma_char_boundary(source, end);
    text::lemma_take_len(source, end);
}

/// What came of reading a document anew: it could not be read, or its text could not be parsed, or
/// it is there.
#[derive(Debug, PartialEq, Eq)]
pub enum Reading {
    Unreadable(String),
    Unparsed { content: String, why: String },
    Read { content: String },
}

/// What a parser says of a place in a document.
#[derive(Debug, PartialEq, Eq)]
pub struct SyntaxReport {
    pub range: Range<usize>,
    pub message: String,
}

/// What a parser makes of the text of a document: what it says of the text that it holds then, and
/// why it could not take the new one, where it could not.
#[derive(Debug, PartialEq, Eq)]
pub struct SyntaxUpdate {
    pub reports: Vec<SyntaxReport>,
    pub failure: Option<String>,
}

/// The reports on a document by its syntax, all of them errors; none where nothing parses it.
pub open spec fn syntax_reports(update: Option<SyntaxUpdate>) -> Seq<ByteDiagnosticView> {
    match update {
        Some(update) => update.reports@.map_values(
            |report: SyntaxReport|
                ByteDiagnosticView {
                    start: report.range.start,
                    end: report.range.end,
                    severity: Some(DiagnosticSeverity::Error),
                    message: report.message@,
                },
        ),
        None => Seq::empty(),
    }
}

/// What is said of a document once a parser has taken its text, or could not take it.
pub open spec fn syntax_status(before: Option<Seq<char>>, update: Option<SyntaxUpdate>) -> Option<
    Seq<char>,
> {
    match update {
        Some(update) => match update.failure {
            Some(why) => Some("Falha ao atualizar sintaxe PHP: "@ + why@),
            None => before,
        },
        None => before,
    }
}

/// Whether a state differs from another by what a parser makes of the text alone.
pub open spec fn parsed_anew(
    before: EditorSession,
    update: Option<SyntaxUpdate>,
    after: EditorSession,
) -> bool {
    &&& after.diagnostics.wf()
    &&& diagnostics::diagnostic_views(after.diagnostics.native_syntax@) == syntax_reports(update)
    &&& after.diagnostics.native_inspections == before.diagnostics.native_inspections
    &&& after.diagnostics.lsp == before.diagnostics.lsp
    &&& provider::optional_text(after.status) == syntax_status(
        provider::optional_text(before.status),
        update,
    )
    &&& after == (EditorSession {
        diagnostics: after.diagnostics,
        status: after.status,
        ..before
    })
}

/// Whether a parser that was told of an edit holds the text of the document; it has to take the
/// whole text where it could not take the edit or holds another text then.
pub fn delta_stands(resident: Option<&str>, source: &str) -> (r: bool)
    ensures
        r == (resident is Some && resident->0@ == source@),
{
    match resident {
        Some(resident) => text::eq(resident, source),
        None => false,
    }
}

fn report_all(reports: Vec<SyntaxReport>) -> (r: Vec<ByteDiagnostic>)
    ensures
        diagnostics::diagnostic_views(r@) == syntax_reports(
            Some(SyntaxUpdate { reports, failure: None }),
        ),
{
    let mut out: Vec<ByteDiagnostic> = Vec::new();
    let mut i: usize = 0;
    let ghost all = syntax_reports(Some(SyntaxUpdate { reports, failure: None }));
    assert(diagnostics::diagnostic_views(out@) =~= all.take(0));
    while i < reports.len()
        invariant
            i <= reports@.len(),
            all == syntax_reports(Some(SyntaxUpdate { reports, failure: None })),
            diagnostics::diagnostic_views(out@) == all.take(i as int),
        decreases reports@.len() - i,
    {
        let ghost before = diagnostics::diagnostic_views(out@);
        let report = ByteDiagnostic {
            range: Range { start: reports[i].range.start, end: reports[i].range.end },
            severity: Some(DiagnosticSeverity::Error),
            message: reports[i].message.clone(),
        };
        out.push(report);
        assert(diagnostics::diagnostic_views(out@) =~= before.push(report@));
        assert(all.take(i + 1) =~= all.take(i as int).push(all[i as int]));
        i += 1;
    }
    assert(all.take(i as int) =~= all);
    out
}

/// What a server is told of a document that is opened.
#[derive(Debug, PartialEq, Eq)]
pub struct DidOpen {
    pub version: i32,
    pub text: String,
}

/// How many lines a text has, as far as a machine word can tell.
pub open spec fn fitting_count(content: Seq<char>) -> nat {
    if pointer::line_count(content) <= usize::MAX {
        pointer::line_count(content)
    } else {
        usize::MAX as nat
    }
}

/// What is said of a document that was read anew.
pub open spec fn reading_text(title: Seq<char>, reading: Reading) -> Seq<char> {
    match reading {
        Reading::Unreadable(why) => "Falha ao abrir "@ + title + ": "@ + why@,
        Reading::Unparsed { why, .. } => "Falha ao analisar "@ + title + ": "@ + why@,
        Reading::Read { .. } => title + " aberto"@,
    }
}

/// What is said of a document that was to be saved.
pub open spec fn saving_text(title: Seq<char>, saved: Result<(), String>) -> Seq<char> {
    match saved {
        Ok(_) => title + " salvo"@,
        Err(why) => "Falha ao salvar "@ + title + ": "@ + why@,
    }
}

fn blamed(failure: &str, title: &str, why: &str) -> (r: String)
    ensures
        r@ == failure@ + title@ + ": "@ + why@,
{
    let mut out = String::from_str(failure);
    out.append(title);
    out.append(": ");
    out.append(why);
    out
}

/// A state with something else said of the document.
pub open spec fn with_status(session: EditorSession, status: Option<String>) -> EditorSession {
    EditorSession { status, ..session }
}

/// Where the caret stays in a text: where it was, or at the end.
pub open spec fn kept_caret(source: Seq<char>, cursor: usize) -> usize {
    if cursor <= text::utf8_len(source) {
        cursor
    } else {
        text::utf8_len(source) as usize
    }
}

/// Whether a search is made anew in a text, while it is open, and its first place selected.
pub open spec fn searched(
    before: FindState,
    revision_before: u64,
    source: Seq<char>,
    buffer_revision: u64,
    after: FindState,
    revision_after: u64,
    selection: Option<Range<usize>>,
) -> bool {
    if before.visible {
        &&& after.visible
        &&& after.input == before.input
        &&& after.replace_expanded == before.replace_expanded
        &&& find::range_views(after.matches@) == find::places(source, before.input.query@)
        &&& revision_after == buffer_revision
        &&& after.matches@.len() > 0 ==> selection == Some(after.matches@[0]) && after.current
            == Some(0usize)
        &&& after.matches@.len() == 0 ==> selection is None && after.current is None
    } else {
        &&& after == before
        &&& revision_after == revision_before
        &&& selection is None
    }
}

/// Whether completions are offered at the caret, the signature of a call is shown there, and the
/// server is asked, as they should; nothing of that in a document that is no PHP.
pub open spec fn attended<S: SymbolIndex>(
    before: EditorSession,
    index: &S,
    source: Seq<char>,
    caret: usize,
    is_php: bool,
    has_server: bool,
    after: EditorSession,
    asked: bool,
) -> bool {
    let tail = source.take(text::fitting(source, caret as int) as int);
    &&& asked == (is_php && has_server && asks_for_completion(tail))
    &&& provider::optional_text(after.hover_popup) == (if is_php && asks_for_help(tail) {
        help::signature_help(index, source, caret)
    } else {
        provider::optional_text(before.hover_popup)
    })
    &&& completion::item_views(after.completions.items@) == (if is_php {
        offered_after(index, source, caret, completion::item_views(before.completions.items@))
    } else {
        Seq::empty()
    })
    &&& after.completions.selected == (if is_php && native::native_batch(
        index,
        source,
        caret,
    ).items.len() > 0 {
        0
    } else {
        before.completions.selected
    })
}

/// Whether an edit that leaves a document with a text, and the caret at a byte offset in some line,
/// takes a state to another and sets some things going.
pub open spec fn edited<S: SymbolIndex>(
    before: EditorSession,
    index: &S,
    source: Seq<char>,
    cursor: usize,
    edited_line: usize,
    buffer_revision: u64,
    is_php: bool,
    edit: Option<&DocumentEdit>,
    server: Option<PositionEncoding>,
    syntax: Option<SyntaxUpdate>,
    after: EditorSession,
    r: EditActions,
) -> bool {
    &&& after.document_session == before.document_session
    &&& after.edit_generation == counted_on(before.edit_generation)
    &&& after.caret_visible
    &&& after.caret_blink_generation == counted_on(before.caret_blink_generation)
    &&& after.widths.widths@ == before.widths.widths@.remove(edited_line)
    &&& after.widths.widest == before.widths.widest
    &&& after.widths.line_count == before.widths.line_count
    &&& after.widths.dirty == (before.widths.dirty || before.widths.widest == Some(
        edited_line,
    ))
    &&& after.replace == before.replace
    &&& after.find_focus_pending == before.find_focus_pending
    &&& after.pointer == (Pointer {
        selection_anchor: None,
        column_kept: false,
        marked: None,
        link: None,
        ..before.pointer
    })
    &&& searched(
        before.find,
        before.find_revision,
        source,
        buffer_revision,
        after.find,
        after.find_revision,
        r.selection,
    )
    &&& after.native_inspection_generation == counted_on(
        before.native_inspection_generation,
    )
    &&& r.inspection_generation == after.native_inspection_generation
    &&& after.last_lsp_text@ == source
    &&& after.lsp_version == (if before.last_lsp_text@ == source {
        before.lsp_version
    } else {
        version_on(before.lsp_version)
    })
    &&& told_of(
        before.last_lsp_text@,
        source,
        edit,
        server,
        after.lsp_version,
        r.did_change,
    )
    &&& r.index_update == (if before.has_workspace_root && before.workspace_source
        && before.project_index_revision is Some {
        Some(counted_on(before.project_index_revision->0))
    } else {
        None
    })
    &&& after.project_index_revision == (if r.index_update is Some {
        r.index_update
    } else {
        before.project_index_revision
    })
    &&& attended(
        before,
        index,
        source,
        caret_after(before.find, source, cursor),
        is_php,
        server is Some,
        after,
        r.request_completion,
    )
    &&& after.has_workspace_root == before.has_workspace_root
    &&& after.workspace_source == before.workspace_source
    &&& after.initial_native_inspection_scheduled
        == before.initial_native_inspection_scheduled
    &&& diagnostics::diagnostic_views(after.diagnostics.native_syntax@) == syntax_reports(syntax)
    &&& after.diagnostics.native_inspections == before.diagnostics.native_inspections
    &&& after.diagnostics.lsp == before.diagnostics.lsp
    &&& provider::optional_text(after.status) == syntax_status(
        provider::optional_text(before.status),
        syntax,
    )
}

impl EditorSession {
    /// Whether the parts of the state are in order.
    pub open spec fn wf(&self) -> bool {
        self.find.wf() && self.find.input.wf() && self.replace.wf() && self.diagnostics.wf()
            && self.widths.wf()
    }

    /// A document that has just been opened, in a session of a number, with what a parser makes of
    /// its text.
    pub fn from_document(document_session: u64, content: &str, syntax: Option<SyntaxUpdate>) -> (r:
        Self)
        ensures
            r.wf(),
            r.document_session == document_session,
            r.edit_generation == 0,
            r.native_inspection_generation == 0,
            !r.initial_native_inspection_scheduled,
            r.lsp_version == 1,
            r.last_lsp_text@ == content@,
            r.completions.items@.len() == 0,
            r.completions.selected == 0,
            r.hover_popup is None,
            !r.find.visible,
            !r.find.replace_expanded,
            r.find.input.query@.len() == 0,
            r.find.input.selection_anchor == 0,
            r.find.input.selection_active == 0,
            r.find.matches@.len() == 0,
            r.find.current is None,
            r.replace.query@.len() == 0,
            r.replace.selection_anchor == 0,
            r.replace.selection_active == 0,
            r.find_revision == 0,
            !r.find_focus_pending,
            r.pointer == pointer::resting(),
            diagnostics::diagnostic_views(r.diagnostics.native_syntax@) == syntax_reports(syntax),
            r.diagnostics.native_inspections@.len() == 0,
            r.diagnostics.lsp@.len() == 0,
            r.caret_visible,
            r.caret_blink_generation == 0,
            r.widths.dirty,
            r.widths.widest is None,
            r.widths.line_count == fitting_count(content@),
            r.widths.widths@ == Map::<usize, u64>::empty(),
            !r.has_workspace_root,
            !r.workspace_source,
            r.project_index_revision is None,
            provider::optional_text(r.status) == syntax_status(None, syntax),
    {
        let mut widths = WidthCache::new();
        widths.forget(pointer::count_lines(content));
        let mut session = EditorSession {
            document_session,
            edit_generation: 0,
            native_inspection_generation: 0,
            initial_native_inspection_scheduled: false,
            lsp_version: 1,
            last_lsp_text: String::from_str(content),
            completions: Completions { items: Vec::new(), selected: 0 },
            hover_popup: None,
            find: FindState::new(),
            replace: TextInput::new(),
            find_revision: 0,
            find_focus_pending: false,
            pointer: Pointer::new(),
            diagnostics: DiagnosticStore::new(),
            caret_visible: true,
            caret_blink_generation: 0,
            widths,
            has_workspace_root: false,
            workspace_source: false,
            project_index_revision: None,
            status: None,
        };
        session.sync_syntax_text(syntax);
        session
    }

    /// Takes what a parser makes of the text of the document, where one parses it: the reports by
    /// its syntax are those that it makes, and a text that it could not take is told of.
    pub fn sync_syntax_text(&mut self, update: Option<SyntaxUpdate>)
        ensures
            parsed_anew(*old(self), update, *final(self)),
    {
        match update {
            Some(update) => {
                if let Some(why) = update.failure {
                    let mut status = String::from_str("Falha ao atualizar sintaxe PHP: ");
                    status.append(why.as_str());
                    self.status = Some(status);
                }
                self.diagnostics.set_native_syntax(report_all(update.reports));
            },
            None => {
                let none: Vec<ByteDiagnostic> = Vec::new();
                assert(diagnostics::diagnostic_views(none@)
                    =~= Seq::<ByteDiagnosticView>::empty());
                self.diagnostics.set_native_syntax(none);
            },
        }
    }

    /// What a server is told where the document is opened.
    pub fn did_open(&self) -> (r: DidOpen)
        ensures
            r.version == self.lsp_version,
            r.text@ == self.last_lsp_text@,
    {
        DidOpen { version: self.lsp_version, text: self.last_lsp_text.clone() }
    }

    /// Takes that a path is moved, and whether the document lies under it. One that does is closed
    /// and opened anew under its new path: its versions are counted from the beginning, and the
    /// server knows its text. Gives whether it is.
    pub fn relocate_path(&mut self, lies_under: bool, content: &str) -> (r: bool)
        ensures
            r == lies_under,
            r ==> final(self).lsp_version == 1 && final(self).last_lsp_text@ == content@,
            !r ==> final(self).lsp_version == old(self).lsp_version && final(self).last_lsp_text
                == old(self).last_lsp_text,
            *final(self) == (EditorSession {
                lsp_version: final(self).lsp_version,
                last_lsp_text: final(self).last_lsp_text,
                ..*old(self)
            }),
    {
        if lies_under {
            self.lsp_version = 1;
            self.last_lsp_text = String::from_str(content);
        }
        lies_under
    }

    /// Takes that a text was written from an offset on by an input method, which leaves the document
    /// with some content: the text stays marked. Gives what is selected then, where a range of
    /// UTF-16 units is to be.
    pub fn replace_and_mark_text_in_range(
        &mut self,
        content: &str,
        start: usize,
        written: &str,
        selected: Option<Range<usize>>,
        syntax: Option<SyntaxUpdate>,
    ) -> (r: Option<Range<usize>>)
        requires
            start + text::utf8_len(written@) <= usize::MAX,
            start + text::utf8_len(content@) <= usize::MAX,
        ensures
            ({
                let marked = EditorSession {
                    pointer: Pointer {
                        marked: if written@.len() == 0 {
                            None
                        } else {
                            Some(
                                Range {
                                    start,
                                    end: (start + text::utf8_len(written@)) as usize,
                                },
                            )
                        },
                        ..old(self).pointer
                    },
                    ..*old(self)
                };
                parsed_anew(marked, syntax, *final(self))
            }),
            match selected {
                Some(units) => {
                    &&& r is Some
                    &&& r->0.start == start + input::offset_at(
                        content@,
                        utf16::place_from(content@, units.start as nat, 0),
                    )
                    &&& r->0.end == start + input::offset_at(
                        content@,
                        utf16::place_from(content@, units.end as nat, 0),
                    )
                },
                None => r is None,
            },
    {
        self.sync_syntax_text(syntax);
        self.pointer.marked = input::marked_range(start, written);
        match selected {
            Some(units) => {
                let bytes = utf16::range_from_utf16(content, &units);
                proof {
                    utf16::lemma_place_from(content@, units.start as nat, 0);
                    utf16::lemma_place_from(content@, units.end as nat, 0);
                    text::lemma_take_len(
                        content@,
                        utf16::place_from(content@, units.start as nat, 0),
                    );
                    text::lemma_take_len(
                        content@,
                        utf16::place_from(content@, units.end as nat, 0),
                    );
                }
                Some(Range { start: start + bytes.start, end: start + bytes.end })
            },
            None => None,
        }
    }

    /// Shows the caret and begins its blinking anew.
    pub fn reset_caret_blink(&mut self)
        ensures
            *final(self) == (EditorSession {
                caret_visible: true,
                caret_blink_generation: counted_on(old(self).caret_blink_generation),
                ..*old(self)
            }),
    {
        self.caret_visible = true;
        self.caret_blink_generation = count_on(self.caret_blink_generation);
    }

    /// Begins a new inspection, which makes those before it stale. Gives its number.
    pub fn schedule_native_inspections(&mut self) -> (r: u64)
        ensures
            r == counted_on(old(self).native_inspection_generation),
            *final(self) == (EditorSession { native_inspection_generation: r, ..*old(self) }),
    {
        self.native_inspection_generation = count_on(self.native_inspection_generation);
        self.native_inspection_generation
    }

    /// Whether what was set going in a session and a generation is still wanted.
    pub fn inspection_is_current(&self, document_session: u64, generation: u64) -> (r: bool)
        ensures
            r == (self.document_session == document_session && self.native_inspection_generation
                == generation),
    {
        self.document_session == document_session && self.native_inspection_generation
            == generation
    }

    /// Takes a text that the server is to know, and the edit that led to it, where one is known.
    /// Gives what the server is told, where the text differs from the one that it knows and a server
    /// is there.
    pub fn sync_lsp_text(
        &mut self,
        source: &str,
        edit: Option<&DocumentEdit>,
        server: Option<PositionEncoding>,
    ) -> (r: Option<DidChange>)
        ensures
            final(self).last_lsp_text@ == source@,
            final(self).lsp_version == (if old(self).last_lsp_text@ == source@ {
                old(self).lsp_version
            } else {
                version_on(old(self).lsp_version)
            }),
            told_of(
                old(self).last_lsp_text@,
                source@,
                edit,
                server,
                final(self).lsp_version,
                r,
            ),
            *final(self) == (EditorSession {
                last_lsp_text: final(self).last_lsp_text,
                lsp_version: final(self).lsp_version,
                ..*old(self)
            }),
    {
        if text::eq(source, &self.last_lsp_text) {
            return None;
        }
        self.last_lsp_text = String::from_str(source);
        if self.lsp_version < i32::MAX {
            self.lsp_version += 1;
        }
        match server {
            Some(encoding) => {
                let (range, text) = lsp::document_change(edit, source, encoding);
                Some(DidChange { version: self.lsp_version, range, text })
            },
            None => None,
        }
    }

    /// Begins an update of the index, where the document is a source of the workspace and an index
    /// is there. Gives its number.
    pub fn schedule_incremental_index_update(&mut self) -> (r: Option<u64>)
        ensures
            if old(self).has_workspace_root && old(self).workspace_source
                && old(self).project_index_revision is Some {
                &&& r == Some(counted_on(old(self).project_index_revision->0))
                &&& *final(self) == (EditorSession { project_index_revision: r, ..*old(self) })
            } else {
                r is None && *final(self) == *old(self)
            },
    {
        if !self.has_workspace_root || !self.workspace_source {
            return None;
        }
        match self.project_index_revision {
            Some(revision) => {
                let next: u64 = count_on(revision);
                self.project_index_revision = Some(next);
                Some(next)
            },
            None => None,
        }
    }

    /// Whether the first inspection is begun now: once, when the index is ready.
    pub fn maybe_schedule_initial_native_inspections(&mut self, index_ready: bool) -> (r: Option<
        u64,
    >)
        ensures
            if !old(self).initial_native_inspection_scheduled && index_ready {
                &&& r == Some(counted_on(old(self).native_inspection_generation))
                &&& *final(self) == (EditorSession {
                    initial_native_inspection_scheduled: true,
                    native_inspection_generation: r->0,
                    ..*old(self)
                })
            } else {
                r is None && *final(self) == *old(self)
            },
    {
        if self.initial_native_inspection_scheduled || !index_ready {
            return None;
        }
        self.initial_native_inspection_scheduled = true;
        Some(self.schedule_native_inspections())
    }

    fn offer_completions<S: SymbolIndex>(&mut self, index: &S, source: &str, cursor: usize)
        requires
            php::boundary(source@, cursor as nat),
        ensures
            *final(self) == (EditorSession {
                completions: final(self).completions,
                ..*old(self)
            }),
            completion::item_views(final(self).completions.items@) == offered_after(
                index,
                source@,
                cursor,
                completion::item_views(old(self).completions.items@),
            ),
            final(self).completions.selected == (if native::native_batch(
                index,
                source@,
                cursor,
            ).items.len() == 0 {
                old(self).completions.selected
            } else {
                0
            }),
    {
        let batch = native::native_completions_impl(index, source, cursor);
        assert(completion::item_views(batch.items@).len() == batch.items@.len());
        if batch.items.len() == 0 {
            self.completions.items.clear();
            assert(completion::item_views(self.completions.items@)
                =~= Seq::<CompletionItemView>::empty());
            return ;
        }
        match batch.new_prefix {
            Some(range) => {
                let s = text::chars_of(source);
                let size: usize = text::byte_len(source);
                let (start, _) = text::fit(&s, range.start);
                let (end, _) = text::fit(&s, range.end);
                proof {
                    native::lemma_new_prefix(index, source@, cursor);
                    text::lemma_fitting(source@, range.start as int);
                    text::lemma_fitting(source@, range.end as int);
                }
                let prefix = text::string_of(&s, start, end);
                let mut items = batch.items;
                completion::filter_new_completion_items(&mut items, &prefix);
                completion::rank_new_completion_items(&mut items, &prefix);
                self.completions.items = items;
                self.completions.selected = 0;
            },
            None => {
                self.completions.set_completions(batch.items);
            },
        }
    }

    /// Searches a text anew while the search is open. Gives what is selected then, and where the
    /// caret is.
    fn search_anew(&mut self, source: &str, cursor: usize, buffer_revision: u64) -> (r: (
        Option<Range<usize>>,
        usize,
    ))
        requires
            old(self).find.wf(),
            php::boundary(source@, cursor as nat),
        ensures
            final(self).find.wf(),
            r.1 == caret_after(old(self).find, source@, cursor),
            php::boundary(source@, r.1 as nat),
            searched(
                old(self).find,
                old(self).find_revision,
                source@,
                buffer_revision,
                final(self).find,
                final(self).find_revision,
                r.0,
            ),
            *final(self) == (EditorSession {
                find: final(self).find,
                find_revision: final(self).find_revision,
                ..*old(self)
            }),
    {
        if !self.find.visible {
            return (None, cursor);
        }
        self.find.refresh(source);
        self.find_revision = buffer_revision;
        let selection = self.find.current_match();
        assert(find::range_views(self.find.matches@).len() == self.find.matches@.len());
        let caret: usize = match &selection {
            Some(range) => {
                proof {
                    lemma_behind_place(source@, self.find.input.query@);
                    assert(find::range_views(self.find.matches@)[0].1 == range.end);
                }
                range.end
            },
            None => cursor,
        };
        (selection, caret)
    }

    /// Offers completions at the caret, and shows the signature of a call there. Gives whether the
    /// server is asked for completions.
    fn attend_caret<S: SymbolIndex>(
        &mut self,
        index: &S,
        source: &str,
        caret: usize,
        is_php: bool,
        has_server: bool,
    ) -> (r: bool)
        requires
            php::boundary(source@, caret as nat),
        ensures
            attended(*old(self), index, source@, caret, is_php, has_server, *final(self), r),
            *final(self) == (EditorSession {
                completions: final(self).completions,
                hover_popup: final(self).hover_popup,
                ..*old(self)
            }),
    {
        if !is_php {
            self.completions.items.clear();
            assert(completion::item_views(self.completions.items@)
                =~= Seq::<CompletionItemView>::empty());
            return false;
        }
        let s = text::chars_of(source);
        let (at, _) = text::fit(&s, caret);
        let tail = slice_subrange(&s, 0, at);
        assert(tail@ =~= source@.take(at as int));
        let asks = has_server && (text::ends(tail, "->") || text::ends(tail, "::") || text::ends(
            tail,
            "new ",
        ) || text::ends(tail, "extends ") || text::ends(tail, "implements ") || text::ends(
            tail,
            "use ",
        ));
        if at > 0 && (tail[at - 1] == '(' || tail[at - 1] == ',') {
            self.hover_popup = help::native_signature_help_for_text(index, source, caret);
        }
        self.offer_completions(index, source, caret);
        asks
    }

    /// Takes an edit of the document that leaves it with a text, and the caret at a byte offset in
    /// some line. Gives what the edit sets going. While the search is open, the first place of what
    /// is looked for is selected before anything else looks at the caret.
    pub fn after_edit<S: SymbolIndex>(
        &mut self,
        index: &S,
        source: &str,
        cursor: usize,
        edited_line: usize,
        buffer_revision: u64,
        is_php: bool,
        edit: Option<&DocumentEdit>,
        server: Option<PositionEncoding>,
        syntax: Option<SyntaxUpdate>,
    ) -> (r: EditActions)
        requires
            old(self).wf(),
            php::boundary(source@, cursor as nat),
        ensures
            final(self).wf(),
            edited(
                *old(self),
                index,
                source@,
                cursor,
                edited_line,
                buffer_revision,
                is_php,
                edit,
                server,
                syntax,
                *final(self),
                r,
            ),
    {
        self.edit_generation = count_on(self.edit_generation);
        self.reset_caret_blink();
        self.widths.edit(edited_line);
        let (selection, caret) = self.search_anew(source, cursor, buffer_revision);
        self.sync_syntax_text(syntax);
        let inspection_generation: u64 = self.schedule_native_inspections();
        let did_change = self.sync_lsp_text(source, edit, server);
        let index_update = self.schedule_incremental_index_update();
        let request_completion = self.attend_caret(index, source, caret, is_php, server.is_some());
        self.pointer.after_edit();
        EditActions {
            selection,
            inspection_generation,
            did_change,
            index_update,
            request_completion,
        }
    }

    /// Takes what came of reading the document anew. A document that was read has all widths to be
    /// measured again, and one that was parsed too is told to the server: gives what it is told.
    pub fn open(&mut self, title: &str, reading: Reading, server: Option<PositionEncoding>) -> (r:
        Option<DidChange>)
        requires
            old(self).wf(),
        ensures
            final(self).wf(),
            provider::optional_text(final(self).status) == Some(reading_text(title@, reading)),
            match reading {
                Reading::Unreadable(_) => final(self).widths == old(self).widths,
                Reading::Unparsed { content, .. } | Reading::Read { content } => {
                    &&& final(self).widths.widths@ == Map::<usize, u64>::empty()
                    &&& final(self).widths.widest is None
                    &&& final(self).widths.line_count == fitting_count(content@)
                    &&& final(self).widths.dirty
                },
            },
            match reading {
                Reading::Read { content } => {
                    &&& final(self).last_lsp_text@ == content@
                    &&& final(self).lsp_version == (if old(self).last_lsp_text@ == content@ {
                        old(self).lsp_version
                    } else {
                        version_on(old(self).lsp_version)
                    })
                    &&& told_of(
                        old(self).last_lsp_text@,
                        content@,
                        None,
                        server,
                        final(self).lsp_version,
                        r,
                    )
                },
                _ => {
                    &&& final(self).last_lsp_text == old(self).last_lsp_text
                    &&& final(self).lsp_version == old(self).lsp_version
                    &&& r is None
                },
            },
            *final(self) == (EditorSession {
                status: final(self).status,
                widths: final(self).widths,
                last_lsp_text: final(self).last_lsp_text,
                lsp_version: final(self).lsp_version,
                ..*old(self)
            }),
    {
        match reading {
            Reading::Unreadable(why) => {
                self.status = Some(blamed("Falha ao abrir ", title, why.as_str()));
                None
            },
            Reading::Unparsed { content, why } => {
                self.widths.forget(pointer::count_lines(content.as_str()));
                self.status = Some(blamed("Falha ao analisar ", title, why.as_str()));
                None
            },
            Reading::Read { content } => {
                self.widths.forget(pointer::count_lines(content.as_str()));
                let told = self.sync_lsp_text(content.as_str(), None, server);
                let mut status = String::from_str(title);
                status.append(" aberto");
                self.status = Some(status);
                told
            },
        }
    }

    /// Takes what came of saving the document.
    pub fn save(&mut self, title: &str, saved: Result<(), String>)
        ensures
            provider::optional_text(final(self).status) == Some(saving_text(title@, saved)),
            *final(self) == (EditorSession { status: final(self).status, ..*old(self) }),
    {
        let status = match saved {
            Ok(_) => {
                let mut status = String::from_str(title);
                status.append(" salvo");
                status
            },
            Err(why) => blamed("Falha ao salvar ", title, why.as_str()),
        };
        self.status = Some(status);
    }

    /// Asks for completions. Gives whether the server is asked too.
    pub fn complete<S: SymbolIndex>(
        &mut self,
        index: &S,
        source: &str,
        cursor: usize,
        is_php: bool,
        has_server: bool,
    ) -> (r: bool)
        requires
            php::boundary(source@, cursor as nat),
        ensures
            r == (is_php && has_server),
            ({
                let items = native::native_batch(index, source@, cursor).items;
                &&& completion::item_views(final(self).completions.items@) == (if is_php {
                    completion::distinct(Seq::<CompletionItemView>::empty() + items, false)
                } else {
                    Seq::empty()
                })
                &&& is_php && items.len() > 0 ==> final(self).completions.selected == 0
                &&& provider::optional_text(final(self).status) == (if is_php && items.len() == 0
                    && !has_server {
                    Some("Completion unavailable (no PHP index or language server)"@)
                } else {
                    provider::optional_text(old(self).status)
                })
            }),
            *final(self) == (EditorSession {
                completions: final(self).completions,
                status: final(self).status,
                ..*old(self)
            }),
    {
        self.completions.items.clear();
        let ghost none = Seq::<CompletionItemView>::empty();
        assert(completion::item_views(self.completions.items@) =~= none);
        if !is_php {
            return false;
        }
        let batch = native::native_completions_impl(index, source, cursor);
        assert(completion::item_views(batch.items@).len() == batch.items@.len());
        if batch.items.len() > 0 {
            self.completions.set_completions(batch.items);
        } else {
            assert(none + completion::item_views(batch.items@) =~= none);
            if !has_server {
                self.status = Some(
                    String::from_str("Completion unavailable (no PHP index or language server)"),
                );
            }
        }
        has_server
    }

    /// Selects the completion before, where some are offered. Gives whether there were any.
    pub fn select_previous_completion(&mut self) -> (r: bool)
        ensures
            r == (old(self).completions.items@.len() > 0),
            final(self).completions.items == old(self).completions.items,
            final(self).completions.selected == (if r && old(self).completions.selected > 0 {
                (old(self).completions.selected - 1) as usize
            } else {
                old(self).completions.selected
            }),
            *final(self) == (EditorSession {
                completions: final(self).completions,
                ..*old(self)
            }),
    {
        if self.completions.items.len() == 0 {
            return false;
        }
        self.completions.selected = self.completions.selected.saturating_sub(1);
        true
    }

    /// Selects the completion behind, where some are offered. Gives whether there were any.
    pub fn select_next_completion(&mut self) -> (r: bool)
        ensures
            r == (old(self).completions.items@.len() > 0),
            final(self).completions.items == old(self).completions.items,
            r ==> final(self).completions.selected == (if old(self).completions.selected + 1
                < old(self).completions.items@.len() {
                old(self).completions.selected + 1
            } else {
                old(self).completions.items@.len() - 1
            }),
            !r ==> final(self).completions.selected == old(self).completions.selected,
            *final(self) == (EditorSession {
                completions: final(self).completions,
                ..*old(self)
            }),
    {
        let n: usize = self.completions.items.len();
        if n == 0 {
            return false;
        }
        self.completions.selected = if self.completions.selected < n - 1 {
            self.completions.selected + 1
        } else {
            n - 1
        };
        true
    }

    /// Takes the last of the results of inspections that came in, where it is still wanted. Gives
    /// whether it was.
    pub fn poll_native_inspection_results(&mut self, results: Vec<NativeInspectionResult>) -> (r:
        bool)
        requires
            old(self).wf(),
        ensures
            final(self).wf(),
            r == (results@.len() > 0 && results@.last().document_session == old(
                self,
            ).document_session && results@.last().generation == old(
                self,
            ).native_inspection_generation),
            r ==> final(self).diagnostics.native_inspections == results@.last().diagnostics
                && final(self).diagnostics.native_syntax == old(self).diagnostics.native_syntax
                && final(self).diagnostics.lsp == old(self).diagnostics.lsp,
            !r ==> final(self).diagnostics == old(self).diagnostics,
            *final(self) == (EditorSession {
                diagnostics: final(self).diagnostics,
                ..*old(self)
            }),
    {
        let mut results = results;
        match results.pop() {
            Some(result) => if result.document_session == self.document_session
                && result.generation == self.native_inspection_generation {
                self.diagnostics.set_native_inspections(result.diagnostics);
                true
            } else {
                false
            },
            None => false,
        }
    }

    /// What is done with edits that a formatter made for a document in a session and a generation.
    pub fn formatting_outcome(
        &self,
        document_session: u64,
        document_revision: u64,
        edit_count: usize,
    ) -> (r: FormattingOutcome)
        ensures
            r == (if self.document_session != document_session || self.edit_generation
                != document_revision {
                FormattingOutcome::Stale
            } else if edit_count == 0 {
                FormattingOutcome::NoChanges
            } else {
                FormattingOutcome::Apply
            }),
    {
        if self.document_session != document_session || self.edit_generation != document_revision {
            FormattingOutcome::Stale
        } else if edit_count == 0 {
            FormattingOutcome::NoChanges
        } else {
            FormattingOutcome::Apply
        }
    }

    /// Takes edits that a formatter made for a document in a session and a generation, and what the
    /// document becomes by them, unless the edits are stale or none: an edit that leaves the document
    /// with that text and the caret where it was, or at the end. Gives where the caret goes, and what
    /// the edit sets going.
    pub fn apply_formatting<S: SymbolIndex>(
        &mut self,
        document_session: u64,
        document_revision: u64,
        edit_count: usize,
        formatted: &str,
        cursor: usize,
        index: &S,
        edited_line: usize,
        buffer_revision: u64,
        is_php: bool,
        edit: Option<&DocumentEdit>,
        server: Option<PositionEncoding>,
        syntax: Option<SyntaxUpdate>,
    ) -> (r: Option<Formatted>)
        requires
            old(self).wf(),
            php::boundary(formatted@, kept_caret(formatted@, cursor) as nat),
        ensures
            final(self).wf(),
            if old(self).document_session != document_session || old(self).edit_generation
                != document_revision {
                r is None && *final(self) == *old(self)
            } else if edit_count == 0 {
                &&& r is None
                &&& provider::optional_text(final(self).status) == Some(
                    "Formatter returned no changes"@,
                )
                &&& *final(self) == (EditorSession { status: final(self).status, ..*old(self) })
            } else {
                &&& r is Some
                &&& r->0.caret == kept_caret(formatted@, cursor)
                &&& provider::optional_text(final(self).status) == Some("Code reformatted"@)
                &&& exists|status: Option<String>|
                    edited(
                        *old(self),
                        index,
                        formatted@,
                        r->0.caret,
                        edited_line,
                        buffer_revision,
                        is_php,
                        edit,
                        server,
                        syntax,
                        #[trigger] with_status(*final(self), status),
                        r->0.actions,
                    )
            },
    {
        match self.formatting_outcome(document_session, document_revision, edit_count) {
            FormattingOutcome::Stale => None,
            FormattingOutcome::NoChanges => {
                self.status = Some(String::from_str("Formatter returned no changes"));
                None
            },
            FormattingOutcome::Apply => {
                let size: usize = text::byte_len(formatted);
                let caret: usize = if cursor <= size {
                    cursor
                } else {
                    size
                };
                let actions = self.after_edit(
                    index,
                    formatted,
                    caret,
                    edited_line,
                    buffer_revision,
                    is_php,
                    edit,
                    server,
                    syntax,
                );
                let ghost done = *self;
                self.status = Some(String::from_str("Code reformatted"));
                assert(with_status(*self, done.status) == done);
                Some(Formatted { caret, actions })
            },
        }
    }

    /// Shows a text over the document, or none.
    pub fn set_hover(&mut self, shown: Option<String>)
        ensures
            *final(self) == (EditorSession { hover_popup: shown, ..*old(self) }),
    {
        self.hover_popup = shown;
    }

    /// Shows the signature of a call over the document, or none.
    pub fn set_signature_help(&mut self, shown: Option<String>)
        ensures
            *final(self) == (EditorSession { hover_popup: shown, ..*old(self) }),
    {
        self.hover_popup = shown;
    }

    /// Tells the document that it lies in a workspace, and whether it is a source of it.
    pub fn set_workspace_root(&mut self, workspace_source: bool)
        ensures
            *final(self) == (EditorSession {
                has_workspace_root: true,
                workspace_source,
                ..*old(self)
            }),
    {
        self.has_workspace_root = true;
        self.workspace_source = workspace_source;
    }

    /// Gives the document an index of the project, whose updates are counted from the beginning; a
    /// parser takes its text anew. Gives the number of the first inspection, where it is begun now.
    pub fn set_project_symbols(&mut self, index_ready: bool, syntax: Option<SyntaxUpdate>) -> (r:
        Option<u64>)
        ensures
            r == (if !old(self).initial_native_inspection_scheduled && index_ready {
                Some(counted_on(old(self).native_inspection_generation))
            } else {
                None
            }),
            ({
                let given = EditorSession { project_index_revision: Some(0u64), ..*old(self) };
                let begun = match r {
                    Some(generation) => EditorSession {
                        initial_native_inspection_scheduled: true,
                        native_inspection_generation: generation,
                        ..given
                    },
                    None => given,
                };
                parsed_anew(begun, syntax, *final(self))
            }),
    {
        self.project_index_revision = Some(0);
        self.sync_syntax_text(syntax);
        self.maybe_schedule_initial_native_inspections(index_ready)
    }

    /// Whether the outline that was made for a document is still one of it.
    pub fn outline_is_current(&self, path: &str, revision: u64, guard: &OutlineGuard) -> (r: bool)
        ensures
            r == (guard.session == self.document_session && guard.revision == revision
                && guard.path@ == path@),
    {
        guard.session == self.document_session && guard.revision == revision && text::eq(
            &guard.path,
            path,
        )
    }

    /// The byte offset that a chosen entry of an outline leads to: the start of its range, where the
    /// outline is current and the range lies in the document.
    pub fn finish_outline(
        &self,
        path: &str,
        revision: u64,
        size: usize,
        guard: &OutlineGuard,
        range: Option<Range<usize>>,
    ) -> (r: Option<usize>)
        ensures
            r == (if guard.session == self.document_session && guard.revision == revision
                && guard.path@ == path@ && range is Some && range->0.start < range->0.end
                && range->0.end <= size {
                Some(range->0.start)
            } else {
                None
            }),
    {
        if !self.outline_is_current(path, revision, guard) {
            return None;
        }
        match range {
            Some(range) => if range.start < range.end && range.end <= size {
                Some(range.start)
            } else {
                None
            },
            None => None,
        }
    }
}

/// What an outline was made for.
#[derive(Debug, PartialEq, Eq)]
pub struct OutlineGuard {
    pub session: u64,
    pub revision: u64,
    pub path: String,
}

/// What comes of asking for the structure of a document.
#[derive(Clone, Copy, Debug, PartialEq, Eq, Structural)]
pub enum StructureRequest {
    Ignored,
    Unavailable,
    Waiting,
    Shown,
}

impl StructureRequest {
    /// What is said of it; nothing of what is shown or left.
    pub fn status(&self) -> (r: Option<&'static str>)
        ensures
            match self {
                StructureRequest::Unavailable => r is Some && r->0@
                    == "File Structure: indexing unavailable"@,
                StructureRequest::Waiting => r is Some && r->0@
                    == "File Structure: waiting for indexing; retry shortly"@,
                _ => r is None,
            },
    {
        match self {
            StructureRequest::Unavailable => Some("File Structure: indexing unavailable"),
            StructureRequest::Waiting => Some(
                "File Structure: waiting for indexing; retry shortly",
            ),
            _ => None,
        }
    }
}

/// What comes of asking for the structure of a document: it is shown where the document is a PHP
/// file that the index knows, and knows with the text that it has.
pub fn file_structure(
    is_php: bool,
    has_index: bool,
    indexed_text: Option<&str>,
    source: &str,
    known: bool,
) -> (r: StructureRequest)
    ensures
        r == (if !is_php {
            StructureRequest::Ignored
        } else if !has_index {
            StructureRequest::Unavailable
        } else if indexed_text is None || indexed_text->0@ != source@ {
            StructureRequest::Waiting
        } else if !known {
            StructureRequest::Ignored
        } else {
            StructureRequest::Shown
        }),
{
    if !is_php {
        return StructureRequest::Ignored;
    }
    if !has_index {
        return StructureRequest::Unavailable;
    }
    match indexed_text {
        None => StructureRequest::Waiting,
        Some(indexed) => if !text::eq(indexed, source) {
            StructureRequest::Waiting
        } else if !known {
            StructureRequest::Ignored
        } else {
            StructureRequest::Shown
        },
    }
}

/// What is done with edits that a formatter made.
#[derive(Clone, Copy, Debug, PartialEq, Eq, Structural)]
pub enum FormattingOutcome {
    Stale,
    NoChanges,
    Apply,
}

impl FormattingOutcome {
    /// What is said of it; nothing of what is stale.
    pub fn status(&self) -> (r: Option<&'static str>)
        ensures
            match self {
                FormattingOutcome::Stale => r is None,
                FormattingOutcome::NoChanges => r is Some && r->0@
                    == "Formatter returned no changes"@,
                FormattingOutcome::Apply => r is Some && r->0@ == "Code reformatted"@,
            },
    {
        match self {
            FormattingOutcome::Stale => None,
            FormattingOutcome::NoChanges => Some("Formatter returned no changes"),
            FormattingOutcome::Apply => Some("Code reformatted"),
        }
    }
}

/// How a document is formatted.
#[derive(Debug, PartialEq, Eq)]
pub enum Reformat {
    /// The server is asked.
    AskServer,
    /// The document becomes a text, with the caret at a byte offset.
    Replace { formatted: String, caret: usize },
    /// The document is formatted already.
    NoChanges,
    /// Nothing formats such a document.
    Unavailable,
}

/// How a document is formatted: by the server where it is ready, else natively where that is
/// supported.
pub fn reformat(server_ready: bool, native_supported: bool, content: &str, cursor: usize) -> (r:
    Reformat)
    ensures
        if server_ready {
            r == Reformat::AskServer
        } else if !native_supported {
            r == Reformat::Unavailable
        } else if formatter::formatted(content@) == content@ {
            r == Reformat::NoChanges
        } else {
            r matches Reformat::Replace { formatted, caret } && formatted@ == formatter::formatted(
                content@,
            ) && caret == (if cursor <= text::utf8_len(formatted@) {
                cursor as nat
            } else {
                text::utf8_len(formatted@)
            })
        },
{
    if server_ready {
        return Reformat::AskServer;
    }
    if !native_supported {
        return Reformat::Unavailable;
    }
    let formatted = formatter::native_format_php(content);
    if text::eq(&formatted, content) {
        return Reformat::NoChanges;
    }
    let size: usize = text::byte_len(&formatted);
    let caret: usize = if cursor <= size {
        cursor
    } else {
        size
    };
    Reformat::Replace { formatted, caret }
}

/// What an inspection gave, and what it was made for.
#[derive(Debug, PartialEq, Eq)]
pub struct NativeInspectionResult {
    pub document_session: u64,
    pub generation: u64,
    pub diagnostics: Vec<ByteDiagnostic>,
}

/// Whether an inspection of a generation is still the latest.
pub fn is_latest(latest: u64, generation: u64) -> (r: bool)
    ensures
        r == (latest == generation),
{
    latest == generation
}

/// Whether a reading of a shared generation may give `seen`.
pub open spec fn may_read(latest: AtomicU64, seen: u64) -> bool {
    call_ensures(AtomicU64::load, (&latest, Ordering::Acquire), seen)
}

/// Whether the latest generation was read before each of the rules of an inspection, of which there
/// are four, and no rule was run behind a reading that gave another one: each reading but the last
/// gave the generation of the inspection, and the readings ended with another one or before the last
/// rule.
pub open spec fn readings(
    latest: AtomicU64,
    generation: u64,
    taken: Seq<GenerationReading>,
    ran: nat,
) -> bool {
    &&& 1 <= taken.len() <= 4
    &&& forall|i: int|
        0 <= i < taken.len() ==> may_read(latest, (#[trigger] taken[i]).seen) && taken[i].rules == i
    &&& forall|i: int| 0 <= i < taken.len() - 1 ==> (#[trigger] taken[i]).seen == generation
    &&& if taken.last().seen == generation {
        taken.len() == 4 && ran == 4
    } else {
        ran == taken.len() - 1
    }
}

/// Runs the rules of an inspection one after the other and puts their reports together. Before each
/// rule the latest generation is read; once it is another, no further rule runs and there is no
/// result. There is a result wherever no reading gave another generation.
pub fn run_native_inspection_rules<UnknownClass, UnknownConstant, DuplicateClass, Arguments>(
    latest_generation: &AtomicU64,
    generation: u64,
    unknown_class: UnknownClass,
    unknown_constant: UnknownConstant,
    duplicate_class: DuplicateClass,
    arguments: Arguments,
) -> (r: Option<Vec<ByteDiagnostic>>) where
    UnknownClass: FnOnce() -> Vec<ByteDiagnostic>,
    UnknownConstant: FnOnce() -> Vec<ByteDiagnostic>,
    DuplicateClass: FnOnce() -> Vec<ByteDiagnostic>,
    Arguments: FnOnce() -> Vec<ByteDiagnostic>,

    requires
        unknown_class.requires(()),
        unknown_constant.requires(()),
        duplicate_class.requires(()),
        arguments.requires(()),
    ensures
        exists|record: RuleRecord|
            {
                let taken = record.taken();
                &&& #[trigger] readings(
                    *latest_generation,
                    generation,
                    record.taken(),
                    record.ran(),
                )
                &&& r is Some <==> taken.last().seen == generation
                &&& taken.len() > 1 ==> exists|a: Vec<ByteDiagnostic>| unknown_class.ensures((), a)
                &&& taken.len() > 2 ==> exists|b: Vec<ByteDiagnostic>|
                    unknown_constant.ensures((), b)
                &&& taken.len() > 3 ==> exists|c: Vec<ByteDiagnostic>|
                    duplicate_class.ensures((), c)
            },
        r is Some ==> exists|
            a: Vec<ByteDiagnostic>,
            b: Vec<ByteDiagnostic>,
            c: Vec<ByteDiagnostic>,
            d: Vec<ByteDiagnostic>,
        |
            {
                &&& #[trigger] unknown_class.ensures((), a)
                &&& #[trigger] unknown_constant.ensures((), b)
                &&& #[trigger] duplicate_class.ensures((), c)
                &&& #[trigger] arguments.ensures((), d)
                &&& r->0@ == a@ + b@ + c@ + d@
            },
{
    let mut record = RuleRecord::new();
    if !is_latest(record.read(latest_generation), generation) {
        assert(readings(*latest_generation, generation, record.taken(), record.ran()));
        return None;
    }
    let mut out = record.run(unknown_class);
    let ghost a = out;
    if !is_latest(record.read(latest_generation), generation) {
        assert(readings(*latest_generation, generation, record.taken(), record.ran()));
        return None;
    }
    let mut more = record.run(unknown_constant);
    let ghost b = more;
    out.append(&mut more);
    if !is_latest(record.read(latest_generation), generation) {
        assert(readings(*latest_generation, generation, record.taken(), record.ran()));
        return None;
    }
    let mut more = record.run(duplicate_class);
    let ghost c = more;
    out.append(&mut more);
    if !is_latest(record.read(latest_generation), generation) {
        assert(readings(*latest_generation, generation, record.taken(), record.ran()));
        return None;
    }
    let mut more = record.run(arguments);
    let ghost d = more;
    out.append(&mut more);
    assert(readings(*latest_generation, generation, record.taken(), record.ran()));
    proof {
        assert(unknown_class.ensures((), a));
        assert(unknown_constant.ensures((), b));
        assert(duplicate_class.ensures((), c));
        assert(arguments.ensures((), d));
        assert(out@ =~= a@ + b@ + c@ + d@);
    }
    Some(out)
}

/// How the index of the project stands.
#[derive(Debug)]
pub enum ProjectIndexState {
    Missing,
    Busy,
    Loading,
    Ready(Vec<ProjectSymbol>),
}

/// What an inspection works on.
#[derive(Debug)]
pub struct NativeInspectionWorkItem {
    pub document_session: u64,
    pub generation: u64,
    pub unknown_class: UnknownClassInspectionInput,
    pub unknown_constant: UnknownConstantInspectionInput,
    pub duplicate_class: DuplicateClassInspectionInput,
    pub arguments: ArgumentInspectionInput,
}

/// What an inspection works on, or why there is nothing yet.
#[derive(Debug)]
pub enum NativeInspectionCapture {
    Ready(NativeInspectionWorkItem),
    RetryLockBusy,
    Unavailable,
}

/// Whether a symbol is a type.
pub open spec fn type_symbol(symbol: ProjectSymbolView) -> bool {
    native::project_type(symbol.kind)
}

/// Whether a symbol is a constant.
pub open spec fn constant_symbol(symbol: ProjectSymbolView) -> bool {
    symbol.kind == ProjectSymbolKind::Constant || symbol.kind == ProjectSymbolKind::ClassConstant
}

/// The declaration that a symbol is.
pub open spec fn declaration_of(symbol: ProjectSymbolView) -> DeclarationView {
    DeclarationView {
        fqn: symbol.fully_qualified_name,
        file: symbol.file,
        start: symbol.start,
        end: symbol.end,
    }
}

/// Whether some work is that of an inspection of a text, its syntax tree and the symbols of the
/// project: the full names of its types, its constants, the declarations of its types, and all of
/// its symbols.
pub open spec fn captured(
    work: NativeInspectionWorkItem,
    source: Seq<char>,
    tree: Option<SyntaxTree>,
    path: Seq<char>,
    project: Seq<ProjectSymbolView>,
) -> bool {
    &&& work.unknown_class.text@ == source
    &&& work.unknown_constant.text@ == source
    &&& work.arguments.text@ == source
    &&& syntax::tree_view(work.unknown_class.syntax) == syntax::tree_view(tree)
    &&& syntax::tree_view(work.unknown_constant.syntax) == syntax::tree_view(tree)
    &&& syntax::tree_view(work.arguments.syntax) == syntax::tree_view(tree)
    &&& text::texts(work.unknown_class.project_classes@) == project.filter(
        |s: ProjectSymbolView| type_symbol(s),
    ).map_values(|s: ProjectSymbolView| s.fully_qualified_name)
    &&& inspect::constant_views(work.unknown_constant.known_constants@) == project.filter(
        |s: ProjectSymbolView| constant_symbol(s),
    ).map_values(|s: ProjectSymbolView| (s.name, s.fully_qualified_name))
    &&& work.duplicate_class.path@ == path
    &&& inspect::declaration_views(work.duplicate_class.declarations@) == project.filter(
        |s: ProjectSymbolView| type_symbol(s),
    ).map_values(|s: ProjectSymbolView| declaration_of(s))
    &&& symbols::project_views(work.arguments.project_symbols@) == project
}

fn is_type(symbol: &ProjectSymbol) -> (r: bool)
    ensures
        r == type_symbol(symbol@),
{
    match symbol.kind {
        ProjectSymbolKind::Class
        | ProjectSymbolKind::Interface
        | ProjectSymbolKind::Trait
        | ProjectSymbolKind::Enum => true,
        _ => false,
    }
}

fn is_constant(symbol: &ProjectSymbol) -> (r: bool)
    ensures
        r == constant_symbol(symbol@),
{
    match symbol.kind {
        ProjectSymbolKind::Constant | ProjectSymbolKind::ClassConstant => true,
        _ => false,
    }
}

fn collect_classes(project: &Vec<ProjectSymbol>) -> (r: Vec<String>)
    ensures
        text::texts(r@) == symbols::project_views(project@).filter(
            |s: ProjectSymbolView| type_symbol(s),
        ).map_values(|s: ProjectSymbolView| s.fully_qualified_name),
{
    let ghost all = symbols::project_views(project@);
    let ghost keep = |s: ProjectSymbolView| type_symbol(s);
    let ghost to = |s: ProjectSymbolView| s.fully_qualified_name;
    let mut out: Vec<String> = Vec::new();
    let mut i: usize = 0;
    proof {
        text::lemma_filter_map_none(all, keep, to);
        assert(text::texts(out@) =~= Seq::<Seq<char>>::empty());
    }
    while i < project.len()
        invariant
            i <= project@.len(),
            all == symbols::project_views(project@),
            keep == (|s: ProjectSymbolView| type_symbol(s)),
            to == (|s: ProjectSymbolView| s.fully_qualified_name),
            text::texts(out@) == all.take(i as int).filter(keep).map_values(to),
        decreases project@.len() - i,
    {
        proof {
            text::lemma_filter_map_step(all, keep, to, i as int);
            assert(all[i as int] == project@[i as int]@);
        }
        if is_type(&project[i]) {
            let ghost held = text::texts(out@);
            let name = project[i].fully_qualified_name.clone();
            out.push(name);
            assert(text::texts(out@) =~= held.push(name@));
        }
        i += 1;
    }
    assert(all.take(i as int) =~= all);
    out
}

fn collect_constants(project: &Vec<ProjectSymbol>) -> (r: Vec<(String, String)>)
    ensures
        inspect::constant_views(r@) == symbols::project_views(project@).filter(
            |s: ProjectSymbolView| constant_symbol(s),
        ).map_values(|s: ProjectSymbolView| (s.name, s.fully_qualified_name)),
{
    let ghost all = symbols::project_views(project@);
    let ghost keep = |s: ProjectSymbolView| constant_symbol(s);
    let ghost to = |s: ProjectSymbolView| (s.name, s.fully_qualified_name);
    let mut out: Vec<(String, String)> = Vec::new();
    let mut i: usize = 0;
    proof {
        text::lemma_filter_map_none(all, keep, to);
        assert(inspect::constant_views(out@) =~= Seq::<(Seq<char>, Seq<char>)>::empty());
    }
    while i < project.len()
        invariant
            i <= project@.len(),
            all == symbols::project_views(project@),
            keep == (|s: ProjectSymbolView| constant_symbol(s)),
            to == (|s: ProjectSymbolView| (s.name, s.fully_qualified_name)),
            inspect::constant_views(out@) == all.take(i as int).filter(keep).map_values(to),
        decreases project@.len() - i,
    {
        proof {
            text::lemma_filter_map_step(all, keep, to, i as int);
            assert(all[i as int] == project@[i as int]@);
        }
        if is_constant(&project[i]) {
            let ghost held = inspect::constant_views(out@);
            let name = project[i].name.clone();
            let fqn = project[i].fully_qualified_name.clone();
            out.push((name, fqn));
            assert(inspect::constant_views(out@) =~= held.push((name@, fqn@)));
        }
        i += 1;
    }
    assert(all.take(i as int) =~= all);
    out
}

fn collect_declarations(project: &Vec<ProjectSymbol>) -> (r: Vec<DuplicateClassDeclaration>)
    ensures
        inspect::declaration_views(r@) == symbols::project_views(project@).filter(
            |s: ProjectSymbolView| type_symbol(s),
        ).map_values(|s: ProjectSymbolView| declaration_of(s)),
{
    let ghost all = symbols::project_views(project@);
    let ghost keep = |s: ProjectSymbolView| type_symbol(s);
    let ghost to = |s: ProjectSymbolView| declaration_of(s);
    let mut out: Vec<DuplicateClassDeclaration> = Vec::new();
    let mut i: usize = 0;
    proof {
        text::lemma_filter_map_none(all, keep, to);
        assert(inspect::declaration_views(out@) =~= Seq::<DeclarationView>::empty());
    }
    while i < project.len()
        invariant
            i <= project@.len(),
            all == symbols::project_views(project@),
            keep == (|s: ProjectSymbolView| type_symbol(s)),
            to == (|s: ProjectSymbolView| declaration_of(s)),
            inspect::declaration_views(out@) == all.take(i as int).filter(keep).map_values(to),
        decreases project@.len() - i,
    {
        proof {
            text::lemma_filter_map_step(all, keep, to, i as int);
            assert(all[i as int] == project@[i as int]@);
        }
        if is_type(&project[i]) {
            let ghost held = inspect::declaration_views(out@);
            let declaration = DuplicateClassDeclaration {
                fqn: project[i].fully_qualified_name.clone(),
                file: project[i].file.clone(),
                range: Range { start: project[i].start, end: project[i].end },
            };
            assert(declaration@ =~= declaration_of(project@[i as int]@));
            out.push(declaration);
            assert(inspect::declaration_views(out@) =~= held.push(declaration@));
        }
        i += 1;
    }
    assert(all.take(i as int) =~= all);
    out
}

/// Gathers what an inspection works on: nothing while the index is missing or still loads, and
/// another try while it is busy.
pub fn capture_native_inspection_work(
    state: ProjectIndexState,
    source: &str,
    tree: Option<SyntaxTree>,
    path: &str,
    document_session: u64,
    generation: u64,
) -> (r: NativeInspectionCapture)
    ensures
        match state {
            ProjectIndexState::Missing => r is Unavailable,
            ProjectIndexState::Busy => r is RetryLockBusy,
            ProjectIndexState::Loading => r is Unavailable,
            ProjectIndexState::Ready(project) => r matches NativeInspectionCapture::Ready(work)
                && work.document_session == document_session && work.generation == generation
                && captured(work, source@, tree, path@, symbols::project_views(project@)),
        },
{
    match state {
        ProjectIndexState::Missing => NativeInspectionCapture::Unavailable,
        ProjectIndexState::Busy => NativeInspectionCapture::RetryLockBusy,
        ProjectIndexState::Loading => NativeInspectionCapture::Unavailable,
        ProjectIndexState::Ready(project) => {
            let project_classes = collect_classes(&project);
            let known_constants = collect_constants(&project);
            let declarations = collect_declarations(&project);
            NativeInspectionCapture::Ready(
                NativeInspectionWorkItem {
                    document_session,
                    generation,
                    unknown_class: UnknownClassInspectionInput {
                        text: String::from_str(source),
                        syntax: syntax::clone_tree(&tree),
                        project_classes,
                    },
                    unknown_constant: UnknownConstantInspectionInput {
                        text: String::from_str(source),
                        syntax: syntax::clone_tree(&tree),
                        known_constants,
                    },
                    duplicate_class: DuplicateClassInspectionInput {
                        path: String::from_str(path),
                        declarations,
                    },
                    arguments: ArgumentInspectionInput {
                        text: String::from_str(source),
                        syntax: tree,
                        project_symbols: project,
                    },
                },
            )
        },
    }
}

/// How many tries there were once a capture is tried again because the index was busy; none where
/// it is given up.
pub fn retry_capture(retries: usize) -> (r: Option<usize>)
    ensures
        r == (if retries >= NATIVE_INSPECTION_CAPTURE_MAX_LOCK_RETRIES {
            None
        } else {
            Some((retries + 1) as usize)
        }),
{
    if retries >= NATIVE_INSPECTION_CAPTURE_MAX_LOCK_RETRIES {
        None
    } else {
        Some(retries + 1)
    }
}

/// An edit makes every inspection that was set going before it stale.
pub proof fn law_edits_make_inspections_stale(generation: u64)
    ensures
        counted_on(generation) != generation,
{
}

} // verus!
