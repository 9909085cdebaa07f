//! What is reported of a document, and how reports from several sources are put together.

use std::ops::Range;
use std::sync::Arc;

use vstd::prelude::*;

use crate::text;

verus! {

/// How grave a report is.
#[derive(Clone, Copy, Debug, PartialEq, Eq, Structural)]
pub enum DiagnosticSeverity {
    Error,
    Warning,
    Information,
    Hint,
    Other,
}

/// A report on a range of bytes.
#[derive(Debug, PartialEq, Eq)]
pub struct ByteDiagnostic {
    pub range: Range<usize>,
    pub severity: Option<DiagnosticSeverity>,
    pub message: String,
}

/// What a report holds.
#[verifier::ext_equal]
pub struct ByteDiagnosticView {
    pub start: usize,
    pub end: usize,
    pub severity: Option<DiagnosticSeverity>,
    pub message: Seq<char>,
}

impl View for ByteDiagnostic {
    type V = ByteDiagnosticView;

    open spec fn view(&self) -> ByteDiagnosticView {
        ByteDiagnosticView {
            start: self.range.start,
            end: self.range.end,
            severity: self.severity,
            message: self.message@,
        }
    }
}

impl Clone for ByteDiagnostic {
    fn clone(&self) -> (r: Self)
        ensures
            r@ == self@,
    {
        ByteDiagnostic {
            range: Range { start: self.range.start, end: self.range.end },
            severity: self.severity,
            message: self.message.clone(),
        }
    }
}

/// What a list of reports holds.
pub open spec fn diagnostic_views(diagnostics: Seq<ByteDiagnostic>) -> Seq<ByteDiagnosticView> {
    diagnostics.map_values(|d: ByteDiagnostic| d@)
}

/// The place of a severity among all.
pub open spec fn severity_rank(severity: Option<DiagnosticSeverity>) -> u8 {
    match severity {
        Some(DiagnosticSeverity::Error) => 0,
        Some(DiagnosticSeverity::Warning) => 1,
        Some(DiagnosticSeverity::Information) => 2,
        Some(DiagnosticSeverity::Hint) => 3,
        Some(DiagnosticSeverity::Other) => 4,
        None => 4,
    }
}

/// The place of a severity among all.
pub fn diagnostic_severity_rank(severity: Option<DiagnosticSeverity>) -> (r: u8)
    ensures
        r == severity_rank(severity),
{
    match severity {
        Some(DiagnosticSeverity::Error) => 0,
        Some(DiagnosticSeverity::Warning) => 1,
        Some(DiagnosticSeverity::Information) => 2,
        Some(DiagnosticSeverity::Hint) => 3,
        Some(DiagnosticSeverity::Other) => 4,
        None => 4,
    }
}

/// Whether a report comes before another: by where it begins, where it ends, how grave it is, and
/// what it says.
pub open spec fn reported_before(a: ByteDiagnosticView, b: ByteDiagnosticView) -> bool {
    if a.start != b.start {
        a.start < b.start
    } else if a.end != b.end {
        a.end < b.end
    } else if severity_rank(a.severity) != severity_rank(b.severity) {
        severity_rank(a.severity) < severity_rank(b.severity)
    } else {
        text::lexically_before(a.message, b.message)
    }
}

fn comes_before(a: &ByteDiagnostic, b: &ByteDiagnostic) -> (r: bool)
    ensures
        r == reported_before(a@, b@),
{
    if a.range.start != b.range.start {
        return a.range.start < b.range.start;
    }
    if a.range.end != b.range.end {
        return a.range.end < b.range.end;
    }
    let first: u8 = diagnostic_severity_rank(a.severity);
    let second: u8 = diagnostic_severity_rank(b.severity);
    if first != second {
        return first < second;
    }
    text::is_lexically_before(&text::chars_of(&a.message), &text::chars_of(&b.message))
}

/// How many reports stay before one that is put among them: all up to the last that it does not
/// come before.
pub open spec fn report_position(reports: Seq<ByteDiagnosticView>, report: ByteDiagnosticView) -> nat
    decreases reports.len(),
{
    if reports.len() > 0 && reported_before(report, reports.last()) {
        report_position(reports.drop_last(), report)
    } else {
        reports.len()
    }
}

/// Reports in order; those that come before none of each other stay as they were.
pub open spec fn ordered(reports: Seq<ByteDiagnosticView>) -> Seq<ByteDiagnosticView>
    decreases reports.len(),
{
    if reports.len() == 0 {
        Seq::empty()
    } else {
        let before = ordered(reports.drop_last());
        before.insert(report_position(before, reports.last()) as int, reports.last())
    }
}

proof fn lemma_report_position(reports: Seq<ByteDiagnosticView>, report: ByteDiagnosticView)
    ensures
        report_position(reports, report) <= reports.len(),
    decreases reports.len(),
{
    if reports.len() > 0 {
        lemma_report_position(reports.drop_last(), report);
    }
}

fn put_in_order(reports: &mut Vec<ByteDiagnostic>, report: ByteDiagnostic)
    ensures
        diagnostic_views(final(reports)@) == diagnostic_views(old(reports)@).insert(
            report_position(diagnostic_views(old(reports)@), report@) as int,
            report@,
        ),
{
    let ghost all = diagnostic_views(reports@);
    let mut at: usize = reports.len();
    assert(all.take(at as int) =~= all);
    while at > 0 && comes_before(&report, &reports[at - 1])
        invariant
            at <= reports@.len(),
            all == diagnostic_views(reports@),
            report_position(all, report@) == report_position(all.take(at as int), report@),
        decreases at,
    {
        assert(all.take(at as int).last() == reports@[at - 1]@);
        assert(all.take(at as int).drop_last() =~= all.take(at - 1));
        at -= 1;
    }
    proof {
        if at > 0 {
            assert(all.take(at as int).last() == reports@[at - 1]@);
        }
    }
    reports.insert(at, report);
    assert(diagnostic_views(reports@) =~= all.insert(at as int, report@));
}

fn put_all(out: &mut Vec<ByteDiagnostic>, more: &Vec<ByteDiagnostic>, Ghost(before): Ghost<Seq<ByteDiagnosticView>>)
    requires
        diagnostic_views(old(out)@) == ordered(before),
    ensures
        diagnostic_views(final(out)@) == ordered(before + diagnostic_views(more@)),
{
    let ghost added = diagnostic_views(more@);
    let mut i: usize = 0;
    assert(before + added.take(0) =~= before);
    while i < more.len()
        invariant
            i <= more@.len(),
            added == diagnostic_views(more@),
            diagnostic_views(out@) == ordered(before + added.take(i as int)),
        decreases more@.len() - i,
    {
        let ghost part = before + added.take(i + 1);
        assert(part.drop_last() =~= before + added.take(i as int));
        assert(part.last() == more@[i as int]@);
        put_in_order(out, more[i].clone());
        i += 1;
    }
    assert(added.take(i as int) =~= added);
}

/// The reports of a document: what its syntax, the inspections and the language server give, and
/// all of them in order.
#[derive(Debug)]
pub struct DiagnosticStore {
    pub native_syntax: Vec<ByteDiagnostic>,
    pub native_inspections: Vec<ByteDiagnostic>,
    pub lsp: Vec<ByteDiagnostic>,
    pub combined_cache: Arc<Vec<ByteDiagnostic>>,
}

impl DiagnosticStore {
    /// All reports in order.
    pub open spec fn all(&self) -> Seq<ByteDiagnosticView> {
        ordered(
            diagnostic_views(self.native_syntax@) + diagnostic_views(self.native_inspections@)
                + diagnostic_views(self.lsp@),
        )
    }

    /// Whether what is put together is what the sources give.
    pub open spec fn wf(&self) -> bool {
        diagnostic_views((*self.combined_cache)@) == self.all()
    }

    /// No reports.
    pub fn new() -> (r: Self)
        ensures
            r.wf(),
            r.native_syntax@.len() == 0,
            r.native_inspections@.len() == 0,
            r.lsp@.len() == 0,
    {
        let r = DiagnosticStore {
            native_syntax: Vec::new(),
            native_inspections: Vec::new(),
            lsp: Vec::new(),
            combined_cache: Arc::new(Vec::new()),
        };
        assert(diagnostic_views(r.native_syntax@) + diagnostic_views(r.native_inspections@)
            + diagnostic_views(r.lsp@) =~= Seq::<ByteDiagnosticView>::empty());
        assert(diagnostic_views((*r.combined_cache)@) =~= Seq::<ByteDiagnosticView>::empty());
        r
    }

    /// Puts all reports together anew.
    pub fn rebuild(&mut self)
        ensures
            final(self).wf(),
            final(self).native_syntax == old(self).native_syntax,
            final(self).native_inspections == old(self).native_inspections,
            final(self).lsp == old(self).lsp,
    {
        let mut out: Vec<ByteDiagnostic> = Vec::new();
        let ghost none = Seq::<ByteDiagnosticView>::empty();
        let ghost first = diagnostic_views(self.native_syntax@);
        let ghost second = diagnostic_views(self.native_inspections@);
        assert(diagnostic_views(out@) =~= ordered(none));
        put_all(&mut out, &self.native_syntax, Ghost(none));
        assert(none + first =~= first);
        put_all(&mut out, &self.native_inspections, Ghost(first));
        put_all(&mut out, &self.lsp, Ghost(first + second));
        self.combined_cache = Arc::new(out);
    }

    /// Replaces the reports of the syntax.
    pub fn set_native_syntax(&mut self, diagnostics: Vec<ByteDiagnostic>)
        ensures
            final(self).wf(),
            final(self).native_syntax == diagnostics,
            final(self).native_inspections == old(self).native_inspections,
            final(self).lsp == old(self).lsp,
    {
        self.native_syntax = diagnostics;
        self.rebuild();
    }

    /// Replaces the reports of the inspections.
    pub fn set_native_inspections(&mut self, diagnostics: Vec<ByteDiagnostic>)
        ensures
            final(self).wf(),
            final(self).native_syntax == old(self).native_syntax,
            final(self).native_inspections == diagnostics,
            final(self).lsp == old(self).lsp,
    {
        self.native_inspections = diagnostics;
        self.rebuild();
    }

    /// Replaces the reports of the language server.
    pub fn set_lsp(&mut self, diagnostics: Vec<ByteDiagnostic>)
        ensures
            final(self).wf(),
            final(self).native_syntax == old(self).native_syntax,
            final(self).native_inspections == old(self).native_inspections,
            final(self).lsp == diagnostics,
    {
        self.lsp = diagnostics;
        self.rebuild();
    }

    /// Takes the reports that the language server makes of a version of the document, unless the
    /// document has a newer one.
    pub fn set_diagnostics(
        &mut self,
        version: Option<i32>,
        document_version: i32,
        diagnostics: Vec<ByteDiagnostic>,
    )
        requires
            old(self).wf(),
        ensures
            final(self).wf(),
            final(self).native_syntax == old(self).native_syntax,
            final(self).native_inspections == old(self).native_inspections,
            final(self).lsp == (if version is Some && version->0 < document_version {
                old(self).lsp
            } else {
                diagnostics
            }),
    {
        if let Some(version) = version {
            if version < document_version {
                return;
            }
        }
        self.set_lsp(diagnostics);
    }

    /// All reports in order, as they were last put together.
    pub fn combined(&self) -> (r: Arc<Vec<ByteDiagnostic>>)
        ensures
            r == self.combined_cache,
    {
        self.combined_cache.clone()
    }
}

impl Default for DiagnosticStore {
    fn default() -> (r: Self)
        ensures
            r.wf(),
            r.native_syntax@.len() == 0,
            r.native_inspections@.len() == 0,
            r.lsp@.len() == 0,
    {
        DiagnosticStore::new()
    }
}

/// Putting reports in order drops none and adds none.
pub proof fn law_ordering_keeps_every_report(reports: Seq<ByteDiagnosticView>)
    ensures
        ordered(reports).to_multiset() == reports.to_multiset(),
    decreases reports.len(),
{
    broadcast use {vstd::multiset::group_multiset_axioms, vstd::seq_lib::group_to_multiset_ensures};

    if reports.len() == 0 {
        assert(ordered(reports) =~= reports);
    } else {
        let before = ordered(reports.drop_last());
        law_ordering_keeps_every_report(reports.drop_last());
        lemma_report_position(before, reports.last());
        assert(reports.drop_last().push(reports.last()) =~= reports);
        vstd::seq_lib::to_multiset_insert(
            before,
            report_position(before, reports.last()) as int,
            reports.last(),
        );
    }
}

proof fn lemma_report_chain(a: ByteDiagnosticView, b: ByteDiagnosticView, c: ByteDiagnosticView)
    ensures
        reported_before(a, b) && !reported_before(c, b) ==> reported_before(a, c),
        !reported_before(b, a) && !reported_before(c, b) ==> !reported_before(c, a),
{
    text::lemma_lexical(a.message, b.message);
    text::lemma_lexical(b.message, c.message);
    text::lemma_lexical(a.message, c.message);
    if text::lexically_before(a.message, b.message) && text::lexically_before(
        b.message,
        c.message,
    ) {
        text::lemma_lexical_chain(a.message, b.message, c.message);
    }
    if text::lexically_before(c.message, a.message) && text::lexically_before(
        a.message,
        b.message,
    ) {
        text::lemma_lexical_chain(c.message, a.message, b.message);
    }
    if text::lexically_before(b.message, c.message) && text::lexically_before(
        c.message,
        a.message,
    ) {
        text::lemma_lexical_chain(b.message, c.message, a.message);
    }
}

proof fn lemma_report_split(reports: Seq<ByteDiagnosticView>, report: ByteDiagnosticView)
    requires
        forall|i: int, j: int|
            0 <= i < j < reports.len() ==> !reported_before(
                #[trigger] reports[j],
                #[trigger] reports[i],
            ),
    ensures
        report_position(reports, report) <= reports.len(),
        forall|i: int|
            0 <= i < report_position(reports, report) ==> !reported_before(
                report,
                #[trigger] reports[i],
            ),
        forall|i: int|
            report_position(reports, report) <= i < reports.len() ==> reported_before(
                report,
                #[trigger] reports[i],
            ),
    decreases reports.len(),
{
    if reports.len() > 0 {
        let last = reports.last();
        let rest = reports.drop_last();
        if reported_before(report, last) {
            assert forall|i: int, j: int| 0 <= i < j < rest.len() implies !reported_before(
                #[trigger] rest[j],
                #[trigger] rest[i],
            ) by {
                assert(!reported_before(reports[j], reports[i]));
            }
            lemma_report_split(rest, report);
            assert forall|i: int|
                0 <= i < report_position(reports, report) implies !reported_before(
                report,
                #[trigger] reports[i],
            ) by {
                assert(reports[i] == rest[i]);
            }
            assert forall|i: int|
                report_position(reports, report) <= i < reports.len() implies reported_before(
                report,
                #[trigger] reports[i],
            ) by {
                if i < rest.len() {
                    assert(reports[i] == rest[i]);
                }
            }
        } else {
            assert forall|i: int| 0 <= i < reports.len() implies !reported_before(
                report,
                #[trigger] reports[i],
            ) by {
                if i < reports.len() - 1 {
                    assert(!reported_before(reports[reports.len() - 1], reports[i]));
                    lemma_report_chain(reports[i], last, report);
                }
            }
        }
    }
}

/// No report stands behind one that it comes before.
pub proof fn law_reports_stand_in_order(reports: Seq<ByteDiagnosticView>)
    ensures
        forall|i: int, j: int|
            0 <= i < j < ordered(reports).len() ==> !reported_before(
                #[trigger] ordered(reports)[j],
                #[trigger] ordered(reports)[i],
            ),
    decreases reports.len(),
{
    if reports.len() > 0 {
        let before = ordered(reports.drop_last());
        let last = reports.last();
        law_reports_stand_in_order(reports.drop_last());
        lemma_report_split(before, last);
        let at = report_position(before, last) as int;
        let all = ordered(reports);
        assert(all == before.insert(at, last));
        assert forall|i: int, j: int| 0 <= i < j < all.len() implies !reported_before(
            #[trigger] all[j],
            #[trigger] all[i],
        ) by {
            let x = if i < at {
                before[i]
            } else if i == at {
                last
            } else {
                before[i - 1]
            };
            let y = if j < at {
                before[j]
            } else if j == at {
                last
            } else {
                before[j - 1]
            };
            assert(all[i] == x);
            assert(all[j] == y);
            if i == at {
                text::lemma_lexical(x.message, y.message);
            }
        }
    }
}

} // verus!
