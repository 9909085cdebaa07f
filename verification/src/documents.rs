//! What an open document makes of an edit, of its parser and of the index of its project.

use vstd::prelude::*;
use vstd::string::*;

use crate::completion;
use crate::completion::CompletionItemView;
use crate::diagnostics::ByteDiagnosticView;
use crate::diagnostics::DiagnosticSeverity;
use crate::find;
use crate::find::FindState;
use crate::inspect;
use crate::inspect::DeclarationView;
use crate::native;
use crate::navigate;
use crate::php::ProjectSymbolKind;
use crate::pointer;
use crate::pointer::HoverToken;
use crate::session;
use crate::session::NativeInspectionWorkItem;
use crate::session::SyntaxUpdate;
use crate::symbols;
use crate::symbols::ProjectSymbolView;
use crate::symbols::SymbolIndex;
use crate::syntax::SyntaxTree;
use crate::text;

verus! {

/// Whether a text ends with another.
pub open spec fn ends(s: Seq<char>, end: Seq<char>) -> bool {
    end.len() <= s.len() && s.skip(s.len() - end.len()) == end
}

proof fn lemma_ends(s: Seq<char>, end: Seq<char>)
    ensures
        text::ends_with(s, end) == ends(s, end),
{
    if end.len() <= s.len() {
        assert(s.skip(s.len() - end.len()) =~= s.subrange(s.len() - end.len(), s.len() as int));
    }
}

/// Right behind a member operator, and behind the keywords that a type follows, the server is asked for
/// completions, and nowhere else; right behind an opening parenthesis or a comma the signature of the
/// call is shown, and nowhere else.
pub proof fn law_typing_asks_where_it_helps(before: Seq<char>)
    ensures
        session::asks_for_completion(before) <==> (ends(before, "->"@) || ends(before, "::"@) || ends(
            before,
            "new "@,
        ) || ends(before, "extends "@) || ends(before, "implements "@) || ends(before, "use "@)),
        session::asks_for_help(before) <==> (ends(before, "("@) || ends(before, ","@)),
{
    lemma_ends(before, "->"@);
    lemma_ends(before, "::"@);
    lemma_ends(before, "new "@);
    lemma_ends(before, "extends "@);
    lemma_ends(before, "implements "@);
    lemma_ends(before, "use "@);
    reveal_strlit("(");
    reveal_strlit(",");
    if before.len() > 0 {
        let last = before.skip(before.len() - 1);
        assert(last[0] == before.last());
        if before.last() == '(' {
            assert(last =~= "("@);
        }
        if before.last() == ',' {
            assert(last =~= ","@);
        }
    }
}

/// While the search is open the caret goes behind the first place of what is looked for; else, and
/// where there is no place, it stays where the edit left it.
pub proof fn law_open_searches_take_the_caret(find: FindState, source: Seq<char>, cursor: usize)
    ensures
        !find.visible ==> session::caret_after(find, source, cursor) == cursor,
        find::places(source, find.input.query@).len() == 0 ==> session::caret_after(
            find,
            source,
            cursor,
        ) == cursor,
        find.visible && find::places(source, find.input.query@).len() > 0 ==> session::caret_after(
            find,
            source,
            cursor,
        ) == find::places(source, find.input.query@)[0].1 as usize,
{
}

/// What a parser says of a document is reported as it is said, in its order, each as an error; a
/// document that nothing parses has no such reports.
pub proof fn law_parsers_are_believed(update: SyntaxUpdate, k: int)
    ensures
        session::syntax_reports(Some(update)).len() == update.reports@.len(),
        0 <= k < update.reports@.len() ==> session::syntax_reports(Some(update))[k] == (
        ByteDiagnosticView {
            start: update.reports@[k].range.start,
            end: update.reports@[k].range.end,
            severity: Some(DiagnosticSeverity::Error),
            message: update.reports@[k].message@,
        }),
        session::syntax_reports(None).len() == 0,
{
}

/// Whether a completion is among some, or another that is one with it is.
pub open spec fn stood_for(items: Seq<CompletionItemView>, item: CompletionItemView) -> bool {
    exists|i: int|
        0 <= i < items.len() && #[trigger] completion::item_key(items[i], false)
            == completion::item_key(item, false)
}

/// After an edit nothing is offered where nothing is found. Behind `new` exactly what is found and
/// begins with what was written is offered; elsewhere everything that is found is offered or stood
/// for, and so is what was offered before.
pub proof fn law_offers_follow_the_edit<S: SymbolIndex>(
    index: &S,
    source: Seq<char>,
    cursor: usize,
    before: Seq<CompletionItemView>,
    item: CompletionItemView,
)
    ensures
        ({
            let batch = native::native_batch(index, source, cursor);
            let offered = session::offered_after(index, source, cursor, before);
            &&& batch.items.len() == 0 ==> offered.len() == 0
            &&& batch.items.len() > 0 && batch.new_prefix is None && (batch.items.contains(item)
                || before.contains(item)) ==> stood_for(offered, item)
            &&& batch.items.len() > 0 && batch.new_prefix is Some ==> {
                let (start, end) = batch.new_prefix->0;
                let written = source.subrange(
                    text::fitting(source, start as int) as int,
                    text::fitting(source, end as int) as int,
                );
                offered.to_multiset() == batch.items.filter(
                    |found: CompletionItemView| completion::fits(found, written),
                ).to_multiset()
            }
        }),
{
    let batch = native::native_batch(index, source, cursor);
    let offered = session::offered_after(index, source, cursor, before);
    let all = before + batch.items;
    if batch.items.len() > 0 && batch.new_prefix is None {
        assert(offered == completion::distinct(all, false));
        if batch.items.contains(item) {
            let k = choose|k: int| 0 <= k < batch.items.len() && batch.items[k] == item;
            assert(all[before.len() + k] == item);
            completion::law_every_completion_is_stood_for(all, false, before.len() + k);
        }
        if before.contains(item) {
            let k = choose|k: int| 0 <= k < before.len() && before[k] == item;
            assert(all[k] == item);
            completion::law_every_completion_is_stood_for(all, false, k);
        }
    }
    if batch.items.len() > 0 && batch.new_prefix is Some {
        let (start, end) = batch.new_prefix->0;
        let written = source.subrange(
            text::fitting(source, start as int) as int,
            text::fitting(source, end as int) as int,
        );
        let kept = batch.items.filter(
            |found: CompletionItemView| completion::fits(found, written),
        );
        completion::law_ranking_keeps_every_completion(kept, written);
    }
}

/// Whether a kind of symbol is a type.
pub open spec fn is_type(kind: ProjectSymbolKind) -> bool {
    kind == ProjectSymbolKind::Class || kind == ProjectSymbolKind::Interface || kind
        == ProjectSymbolKind::Trait || kind == ProjectSymbolKind::Enum
}

/// An inspection reads the text as it is, and of the project every type under its full name and with
/// its place, every constant, and all symbols.
pub proof fn law_inspections_read_the_whole_project(
    work: NativeInspectionWorkItem,
    source: Seq<char>,
    tree: Option<SyntaxTree>,
    path: Seq<char>,
    project: Seq<ProjectSymbolView>,
    k: int,
)
    requires
        session::captured(work, source, tree, path, project),
        0 <= k < project.len(),
    ensures
        work.unknown_class.text@ == source,
        work.unknown_constant.text@ == source,
        work.arguments.text@ == source,
        work.duplicate_class.path@ == path,
        symbols::project_views(work.arguments.project_symbols@) == project,
        is_type(project[k].kind) ==> text::texts(work.unknown_class.project_classes@).contains(
            project[k].fully_qualified_name,
        ),
        is_type(project[k].kind) ==> inspect::declaration_views(
            work.duplicate_class.declarations@,
        ).contains(
            DeclarationView {
                fqn: project[k].fully_qualified_name,
                file: project[k].file,
                start: project[k].start,
                end: project[k].end,
            },
        ),
        project[k].kind == ProjectSymbolKind::Constant || project[k].kind
            == ProjectSymbolKind::ClassConstant ==> inspect::constant_views(
            work.unknown_constant.known_constants@,
        ).contains((project[k].name, project[k].fully_qualified_name)),
{
    let types = |s: ProjectSymbolView| session::type_symbol(s);
    let constants = |s: ProjectSymbolView| session::constant_symbol(s);
    if is_type(project[k].kind) {
        assert(types(project[k]));
        project.lemma_filter_contains(types, k);
        let kept = project.filter(types);
        let i = choose|i: int| 0 <= i < kept.len() && kept[i] == project[k];
        let names = kept.map_values(|s: ProjectSymbolView| s.fully_qualified_name);
        assert(names[i] == project[k].fully_qualified_name);
        let declared = kept.map_values(|s: ProjectSymbolView| session::declaration_of(s));
        assert(declared[i] == session::declaration_of(project[k]));
    }
    if project[k].kind == ProjectSymbolKind::Constant || project[k].kind
        == ProjectSymbolKind::ClassConstant {
        assert(constants(project[k]));
        project.lemma_filter_contains(constants, k);
        let kept = project.filter(constants);
        let i = choose|i: int| 0 <= i < kept.len() && kept[i] == project[k];
        let known = kept.map_values(|s: ProjectSymbolView| (s.name, s.fully_qualified_name));
        assert(known[i] == (project[k].name, project[k].fully_qualified_name));
    }
}

/// A package's class is found where the first type among its symbols is.
pub proof fn law_package_types_are_found(found: Seq<ProjectSymbolView>, k: int)
    ensures
        0 <= k < found.len() && is_type(found[k].kind) && (forall|j: int|
            0 <= j < k ==> !is_type((#[trigger] found[j]).kind)) ==> navigate::first_type(found, 0)
            == Some(found[k]),
        (forall|j: int| 0 <= j < found.len() ==> !is_type((#[trigger] found[j]).kind))
            ==> navigate::first_type(found, 0) is None,
{
    lemma_first_type(found, k, 0);
}

proof fn lemma_first_type(found: Seq<ProjectSymbolView>, k: int, from: int)
    requires
        0 <= from,
    ensures
        from <= k < found.len() && is_type(found[k].kind) && (forall|j: int|
            from <= j < k ==> !is_type((#[trigger] found[j]).kind)) ==> navigate::first_type(
            found,
            from,
        ) == Some(found[k]),
        (forall|j: int| from <= j < found.len() ==> !is_type((#[trigger] found[j]).kind))
            ==> navigate::first_type(found, from) is None,
    decreases found.len() - from,
{
    if from < found.len() {
        lemma_first_type(found, k, from + 1);
    }
}

/// A name under the mouse leads somewhere, and so is marked whole; an operator, a number or nothing
/// does not.
pub proof fn law_names_lead_somewhere(token: HoverToken, k: int)
    ensures
        (token.kind@ == "name"@ || token.kind@ == "qualified_name"@ || token.kind@
            == "variable_name"@ || token.kind@ == "member_name"@) && 0 <= k < token.text@.len() && (
        text::alphanumeric(token.text@[k]) || token.text@[k] == '_') ==> pointer::link_of(
            Some(token),
        ) == Some(token.range),
        token.kind@ != "name"@ && token.kind@ != "qualified_name"@ && token.kind@
            != "variable_name"@ && token.kind@ != "member_name"@ ==> pointer::link_of(
            Some(token),
        ) is None,
        pointer::link_of(None) is None,
{
    if 0 <= k < token.text@.len() && (text::alphanumeric(token.text@[k]) || token.text@[k] == '_') {
        assert(crate::php::identifier_char(token.text@[k]));
    }
}

} // verus!
