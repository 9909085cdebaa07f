//! What the inspections of a document report, and what they leave alone.

use vstd::prelude::*;
use vstd::string::*;

use crate::arguments;
use crate::arguments::ArgumentInspectionInput;
use crate::diagnostics::ByteDiagnosticView;
use crate::diagnostics::DiagnosticSeverity;
use crate::inspect;
use crate::inspect::DeclarationView;
use crate::php;
use crate::semantic::SemanticModel;
use crate::semantic::SemanticParameterView;
use crate::signature;
use crate::signature::Arity;
use crate::symbols;
use crate::symbols::ProjectSymbolView;
use crate::symbols::RuntimeParameterView;
use crate::symbols::RuntimeSignatureView;
use crate::symbols::SymbolIndex;
use crate::syntax;
use crate::syntax::SyntaxNodeView;
use crate::text;

verus! {

/// Whether a word stands at an index of a text, and nowhere before it from another index on.
pub open spec fn first_at(s: Seq<char>, word: Seq<char>, from: int, at: int) -> bool {
    &&& 0 <= from <= at
    &&& at + word.len() <= s.len()
    &&& s.subrange(at, at + word.len()) == word
    &&& forall|k: int|
        from <= k < at ==> #[trigger] s.subrange(k, k + word.len()) != word
}

proof fn lemma_first_at(s: Seq<char>, word: Seq<char>, from: int, at: int)
    requires
        first_at(s, word, from, at),
    ensures
        text::find_from(s, word, from) == Some(at),
{
    text::lemma_find(s, word, from);
    assert(text::occurs_at(s, word, at));
    let found = text::find_from(s, word, from)->0;
    if found < at {
        assert(s.subrange(found, found + word.len()) == word);
    }
}

/// Whether a name stands at an index of a text, and is not part of a longer one.
pub open spec fn name_at(s: Seq<char>, name: Seq<char>, at: int) -> bool {
    &&& name.len() > 0
    &&& 0 <= at
    &&& at + name.len() <= s.len()
    &&& s.subrange(at, at + name.len()) == name
    &&& forall|k: int|
        0 <= k < name.len() ==> text::alphanumeric(#[trigger] name[k]) || name[k] == '_' || name[k]
            == '\\'
    &&& at + name.len() < s.len() ==> {
        let c = s[at + name.len()];
        !text::alphanumeric(c) && c != '_' && c != '\\'
    }
}

proof fn lemma_name_len(s: Seq<char>, name: Seq<char>, at: int, k: int)
    requires
        name_at(s, name, at),
        0 <= k <= name.len(),
    ensures
        php::name_len(s.skip(at + k), true) == name.len() - k,
    decreases name.len() - k,
{
    let rest = s.skip(at + k);
    if k < name.len() {
        assert(rest[0] == s[at + k]);
        assert(s.subrange(at, at + name.len())[k] == name[k]);
        lemma_name_len(s, name, at, k + 1);
        assert(rest.skip(1) =~= s.skip(at + k + 1));
    } else if at + name.len() < s.len() {
        assert(rest[0] == s[at + name.len()]);
    }
}

/// Whether what stands at an index of a text is code: no comment and no string.
pub open spec fn code_at(s: Seq<char>, nodes: Seq<SyntaxNodeView>, at: int) -> bool {
    let offset = text::utf8_len(s.take(at)) as int;
    match syntax::node_at(nodes, offset, offset + 1) {
        Some(node) => nodes[node].kind != "comment"@ && !text::contains_text(
            nodes[node].kind,
            "string"@,
        ),
        None => false,
    }
}

/// Whether what stands at an index of a text is a comment or a string.
pub open spec fn no_code_at(s: Seq<char>, nodes: Seq<SyntaxNodeView>, at: int) -> bool {
    let offset = text::utf8_len(s.take(at)) as int;
    match syntax::node_at(nodes, offset, offset + 1) {
        Some(node) => nodes[node].kind == "comment"@ || text::contains_text(
            nodes[node].kind,
            "string"@,
        ),
        None => false,
    }
}

/// Whether nothing knows a class: neither the project nor the runtime nor a package, under the name
/// that is written or under the full name that it stands for, and it is no name of the class itself.
pub open spec fn unknown_anywhere<S: SymbolIndex>(
    index: &S,
    project: Seq<Seq<char>>,
    bare: Seq<char>,
    full: Seq<char>,
) -> bool {
    &&& !project.contains(full)
    &&& !project.contains(bare)
    &&& index.runtime_class_of(full) is None
    &&& index.runtime_class_called(bare) is None
    &&& !index.vendor_declares(full)
    &&& bare != "self"@
    &&& bare != "static"@
    &&& bare != "parent"@
}

/// A class behind `new` that nothing knows is reported as an error, on exactly its name; one that
/// something knows is not, and neither is one in a comment or a string. The reports go on behind it.
pub proof fn law_unknown_classes_are_reported<S: SymbolIndex>(
    index: &S,
    project: Seq<Seq<char>>,
    s: Seq<char>,
    nodes: Seq<SyntaxNodeView>,
    from: int,
    at: int,
    name: Seq<char>,
)
    requires
        first_at(s, "new "@, from, at),
        name_at(s, name, at + 4),
    ensures
        ({
            let start = at + 4;
            let end = start + name.len();
            let bare = text::strip_start(name, '\\');
            let full = php::resolve_behind(name, text::lines(s.take(start)));
            let reports = inspect::unknown_classes(index, project, s, nodes, from);
            let more = inspect::unknown_classes(index, project, s, nodes, end);
            &&& code_at(s, nodes, start) && unknown_anywhere(index, project, bare, full) ==> reports
                == seq![
                ByteDiagnosticView {
                    start: text::utf8_len(s.take(start)) as usize,
                    end: text::utf8_len(s.take(end)) as usize,
                    severity: Some(DiagnosticSeverity::Error),
                    message: "Unknown class '"@ + bare + "'"@,
                },
            ] + more
            &&& code_at(s, nodes, start) && !unknown_anywhere(index, project, bare, full)
                ==> reports == more
            &&& no_code_at(s, nodes, start) ==> reports == inspect::unknown_classes(
                index,
                project,
                s,
                nodes,
                start + 1,
            )
        }),
{
    reveal_strlit("new ");
    let start = at + 4;
    lemma_first_at(s, "new "@, from, at);
    lemma_name_len(s, name, start, 0);
    assert(s.skip(start).take(name.len() as int) =~= s.subrange(start, start + name.len()));
    let more = inspect::unknown_classes(index, project, s, nodes, start + name.len());
    assert(Seq::<ByteDiagnosticView>::empty() + more =~= more);
}

/// Where no class is made, none is reported.
pub proof fn law_without_new_nothing_is_reported<S: SymbolIndex>(
    index: &S,
    project: Seq<Seq<char>>,
    s: Seq<char>,
    nodes: Seq<SyntaxNodeView>,
    from: int,
)
    requires
        0 <= from,
        forall|k: int| from <= k <= s.len() - 4 ==> #[trigger] s.subrange(k, k + 4) != "new "@,
    ensures
        inspect::unknown_classes(index, project, s, nodes, from).len() == 0,
{
    reveal_strlit("new ");
    text::lemma_find(s, "new "@, from);
    if text::find_from(s, "new "@, from) is Some {
        let at = text::find_from(s, "new "@, from)->0;
        assert(text::occurs_at(s, "new "@, at));
        assert(s.subrange(at, at + 4) == "new "@);
    }
}

/// Whether a constant stands at an index of a text, and is not part of a longer name.
pub open spec fn constant_at(s: Seq<char>, name: Seq<char>, at: int) -> bool {
    &&& name.len() > 0
    &&& 0 <= at
    &&& at + name.len() <= s.len()
    &&& s.subrange(at, at + name.len()) == name
    &&& forall|k: int| 0 <= k < name.len() ==> inspect::constant_char(#[trigger] name[k])
    &&& at + name.len() < s.len() ==> !inspect::constant_char(s[at + name.len()])
    &&& !('0' <= name[0] && name[0] <= '9')
}

proof fn lemma_constant_len(s: Seq<char>, name: Seq<char>, at: int, k: int)
    requires
        constant_at(s, name, at),
        0 <= k <= name.len(),
    ensures
        inspect::constant_len(s.skip(at + k)) == name.len() - k,
    decreases name.len() - k,
{
    let rest = s.skip(at + k);
    if k < name.len() {
        assert(rest[0] == s[at + k]);
        assert(s.subrange(at, at + name.len())[k] == name[k]);
        lemma_constant_len(s, name, at, k + 1);
        assert(rest.skip(1) =~= s.skip(at + k + 1));
    } else if at + name.len() < s.len() {
        assert(rest[0] == s[at + name.len()]);
    }
}

/// Whether a constant is declared under its name, or as the last part of a full name.
pub open spec fn declared_constant(known: Seq<(Seq<char>, Seq<char>)>, name: Seq<char>) -> bool {
    exists|i: int|
        0 <= i < known.len() && ((#[trigger] known[i]).0 == name || ends_in(
            known[i].1,
            "\\"@ + name,
        ))
}

/// Whether a text ends in another.
pub open spec fn ends_in(whole: Seq<char>, end: Seq<char>) -> bool {
    end.len() <= whole.len() && whole.skip(whole.len() - end.len()) == end
}

/// A constant behind `echo` that neither the project nor the runtime has is warned of, on exactly its
/// name; one that either has is not, and neither is one in a comment or a string. The reports go on
/// behind it.
pub proof fn law_unknown_constants_are_reported<S: SymbolIndex>(
    index: &S,
    known: Seq<(Seq<char>, Seq<char>)>,
    s: Seq<char>,
    nodes: Seq<SyntaxNodeView>,
    from: int,
    at: int,
    name: Seq<char>,
)
    requires
        first_at(s, "echo "@, from, at),
        constant_at(s, name, at + 5),
    ensures
        ({
            let start = at + 5;
            let end = start + name.len();
            let reports = inspect::unknown_constants(index, known, s, nodes, from);
            let more = inspect::unknown_constants(index, known, s, nodes, end);
            &&& code_at(s, nodes, start) && !declared_constant(known, name)
                && !index.runtime_has_constant(name) && !inspect::built_in(name) ==> reports == seq![
                ByteDiagnosticView {
                    start: text::utf8_len(s.take(start)) as usize,
                    end: text::utf8_len(s.take(end)) as usize,
                    severity: Some(DiagnosticSeverity::Warning),
                    message: "Undefined constant '"@ + name + "'"@,
                },
            ] + more
            &&& code_at(s, nodes, start) && (declared_constant(known, name)
                || index.runtime_has_constant(name) || name == "PHP_VERSION"@ || name == "PHP_OS"@
                || name == "PHP_INT_MAX"@ || name == "DIRECTORY_SEPARATOR"@ || name
                == "E_ERROR"@) ==> reports == more
            &&& no_code_at(s, nodes, start) ==> reports == inspect::unknown_constants(
                index,
                known,
                s,
                nodes,
                start + 1,
            )
        }),
{
    reveal_strlit("echo ");
    let start = at + 5;
    lemma_first_at(s, "echo "@, from, at);
    lemma_constant_len(s, name, start, 0);
    assert(s.skip(start).take(name.len() as int) =~= s.subrange(start, start + name.len()));
    let more = inspect::unknown_constants(index, known, s, nodes, start + name.len());
    assert(Seq::<ByteDiagnosticView>::empty() + more =~= more);
    assert(inspect::constant_char(name[0]));
    assert forall|i: int| 0 <= i < known.len() implies text::ends_with(
        (#[trigger] known[i]).1,
        "\\"@ + name,
    ) == ends_in(known[i].1, "\\"@ + name) by {
        let whole = known[i].1;
        let end = "\\"@ + name;
        if end.len() <= whole.len() {
            assert(whole.skip(whole.len() - end.len()) =~= whole.subrange(
                whole.len() - end.len(),
                whole.len() as int,
            ));
        }
    }
}

/// A file is told of each of its classes that another file declares too, in the order in which they
/// stand in it, as an error on the declaration that names the class; and of no other.
pub proof fn law_duplicate_classes_are_reported(
    declarations: Seq<DeclarationView>,
    path: Seq<char>,
)
    ensures
        exists|from: Seq<int>| #[trigger]
            duplicates_at(
                declarations,
                path,
                inspect::duplicate_reports(declarations, path),
                from,
            ),
{
    let keep = |d: DeclarationView| inspect::declared_elsewhere(declarations, path, d);
    let from = text::lemma_filter_positions(declarations, keep);
    let reports = inspect::duplicate_reports(declarations, path);
    assert forall|k: int| 0 <= k < from.len() implies 0 <= #[trigger] from[k] < declarations.len()
        && twice(declarations, path, from[k]) && reports[k] == (ByteDiagnosticView {
        start: declarations[from[k]].start,
        end: declarations[from[k]].end,
        severity: Some(DiagnosticSeverity::Error),
        message: "Duplicate class "@ + declarations[from[k]].fqn,
    }) by {
        assert(keep(declarations[from[k]]));
    }
    assert forall|i: int| 0 <= i < declarations.len() && twice(
        declarations,
        path,
        i,
    ) implies #[trigger] from.contains(i) by {
        assert(keep(declarations[i]));
    }
    assert(duplicates_at(declarations, path, reports, from));
}

/// Whether a declaration stands in a file, and another file declares the same class.
pub open spec fn twice(declarations: Seq<DeclarationView>, path: Seq<char>, i: int) -> bool {
    &&& declarations[i].file == path
    &&& exists|k: int|
        0 <= k < declarations.len() && (#[trigger] declarations[k]).fqn == declarations[i].fqn
            && declarations[k].file != path
}

/// Whether reports are those on the classes that are declared twice, at some positions and in their
/// order.
pub open spec fn duplicates_at(
    declarations: Seq<DeclarationView>,
    path: Seq<char>,
    reports: Seq<ByteDiagnosticView>,
    from: Seq<int>,
) -> bool {
    &&& from.len() == reports.len()
    &&& forall|k: int|
        0 <= k < from.len() ==> 0 <= #[trigger] from[k] < declarations.len() && twice(
            declarations,
            path,
            from[k],
        ) && reports[k] == (ByteDiagnosticView {
            start: declarations[from[k]].start,
            end: declarations[from[k]].end,
            severity: Some(DiagnosticSeverity::Error),
            message: "Duplicate class "@ + declarations[from[k]].fqn,
        })
    &&& forall|i: int, j: int| 0 <= i < j < from.len() ==> #[trigger] from[i] < #[trigger] from[j]
    &&& forall|i: int|
        0 <= i < declarations.len() && twice(declarations, path, i) ==> #[trigger] from.contains(i)
}

/// A call with fewer arguments than are required, or with more than are taken, is reported once, as an
/// error on its arguments that tells both numbers; any other is not.
pub proof fn law_wrong_numbers_are_reported(
    nodes: Seq<SyntaxNodeView>,
    list: int,
    arity: Arity,
)
    ensures
        ({
            let count = arguments::argument_nodes(nodes, list).len();
            let reports = arguments::arity_report(nodes, list, arity);
            let many = count > arity.maximum && !arity.variadic;
            let few = count < arity.required;
            &&& !many && !few ==> reports.len() == 0
            &&& many || few ==> {
                &&& reports.len() == 1
                &&& reports[0].start == nodes[list].start
                &&& reports[0].end == nodes[list].end
                &&& reports[0].severity == Some(DiagnosticSeverity::Error)
            }
            &&& many ==> reports[0].message == "Expected at most "@ + text::decimal(arity.maximum)
                + " arguments, found "@ + text::decimal(count)
            &&& few && !many && arity.required != 1 ==> reports[0].message == "Expected "@
                + text::decimal(arity.required) + " arguments, found "@ + text::decimal(count)
            &&& few && !many && arity.required == 1 ==> reports[0].message == "Expected "@
                + text::decimal(arity.required) + " argument, found "@ + text::decimal(count)
        }),
{
    let count = arguments::argument_nodes(nodes, list).len();
    reveal_strlit(" argument");
    reveal_strlit("s");
    reveal_strlit(", found ");
    reveal_strlit(" arguments, found ");
    reveal_strlit(" argument, found ");
    let wanted = "Expected "@ + text::decimal(arity.required);
    let found = text::decimal(count);
    assert(" argument"@ + "s"@ + ", found "@ =~= " arguments, found "@);
    assert(" argument"@ + Seq::<char>::empty() + ", found "@ =~= " argument, found "@);
    assert(wanted + " argument"@ + "s"@ + ", found "@ + found =~= wanted + (" argument"@ + "s"@
        + ", found "@) + found);
    assert(wanted + " argument"@ + Seq::<char>::empty() + ", found "@ + found =~= wanted + (
    " argument"@ + Seq::<char>::empty() + ", found "@) + found);
}

/// A callable of the runtime takes as many arguments as it has parameters, and more where one of them
/// stands for several; those that are optional, or stand for several, may be left out.
pub proof fn law_runtime_parameters_make_arity(found: RuntimeSignatureView)
    ensures
        arguments::runtime_arity(found).maximum == found.parameters.len(),
        arguments::runtime_arity(found).variadic <==> exists|i: int|
            0 <= i < found.parameters.len() && (#[trigger] found.parameters[i]).variadic,
        arguments::runtime_arity(found).required == found.parameters.filter(
            |p: RuntimeParameterView| !p.optional && !p.variadic,
        ).len(),
{
    lemma_required(found.parameters);
}

proof fn lemma_required(parameters: Seq<RuntimeParameterView>)
    ensures
        arguments::required_in(parameters) == parameters.filter(
            |p: RuntimeParameterView| !p.optional && !p.variadic,
        ).len(),
    decreases parameters.len(),
{
    reveal(Seq::filter);
    if parameters.len() > 0 {
        lemma_required(parameters.drop_last());
    }
}

/// Whether a node is a call of something.
pub open spec fn is_call(kind: Seq<char>) -> bool {
    kind == "function_call_expression"@ || kind == "member_call_expression"@ || kind
        == "nullsafe_member_call_expression"@ || kind == "static_call_expression"@ || kind
        == "scoped_call_expression"@ || kind == "object_creation_expression"@
}

/// An argument whose type clashes with the one that its parameter declares is reported once, as an
/// error on the argument that names both types; any other is not. The next argument is compared with
/// the next parameter, or with the same one where that takes all the rest; an argument that is given
/// by name is passed over, and what goes beyond the parameters is left alone.
pub proof fn law_types_are_compared_one_by_one<M: SemanticModel>(
    model: &M,
    scope: usize,
    parameters: Seq<SemanticParameterView>,
    nodes: Seq<SyntaxNodeView>,
    given: Seq<int>,
    at: int,
    number: int,
)
    requires
        0 <= at < given.len(),
        0 <= number,
    ensures
        ({
            let reports = arguments::types_from(model, scope, parameters, nodes, given, at, number);
            let node = nodes[given[at]];
            let by_name = node.kind == "named_argument"@ || node.kind == "variadic_unpacking"@;
            let rest = number >= parameters.len() && parameters.len() > 0
                && parameters.last().variadic;
            let parameter = if rest {
                parameters.last()
            } else {
                parameters[number]
            };
            &&& by_name ==> reports == arguments::types_from(
                model,
                scope,
                parameters,
                nodes,
                given,
                at + 1,
                number + 1,
            )
            &&& !by_name && number >= parameters.len() && !rest ==> reports.len() == 0
            &&& !by_name && (number < parameters.len() || rest) ==> {
                let more = arguments::types_from(
                    model,
                    scope,
                    parameters,
                    nodes,
                    given,
                    at + 1,
                    if parameter.variadic {
                        number
                    } else {
                        number + 1
                    },
                );
                match (
                    parameter.declared_type,
                    model.expression_type(scope, given[at] as usize),
                ) {
                    (Some(expected), Some(actual)) => if model.clash(expected, actual) {
                        reports == seq![
                            ByteDiagnosticView {
                                start: node.start,
                                end: node.end,
                                severity: Some(DiagnosticSeverity::Error),
                                message: "Expected "@ + expected.label + ", found "@
                                    + actual.label,
                            },
                        ] + more
                    } else {
                        reports == more
                    },
                    _ => reports == more,
                }
            }
        }),
{
    assert forall|more: Seq<ByteDiagnosticView>| #[trigger]
        (Seq::<ByteDiagnosticView>::empty() + more) == more by {
        assert(Seq::<ByteDiagnosticView>::empty() + more =~= more);
    }
}

/// A call of a method that the type of its object does not have is reported once, as an error on the
/// name of the method; a call of one that it has is not, and neither is one on a type that is not
/// known.
pub proof fn law_missing_methods_are_reported<M: SemanticModel>(
    model: &M,
    source: Seq<char>,
    nodes: Seq<SyntaxNodeView>,
    call: int,
    object: int,
    name: int,
    scope: usize,
)
    requires
        syntax::field_child(nodes, call, "object"@, 0) == Some(object),
        syntax::field_child(nodes, call, "name"@, 0) == Some(name),
        model.scope_of(nodes[call].start) == Some(scope),
    ensures
        ({
            let reports = arguments::missing_report(model, source, nodes, call);
            let method = syntax::node_text(source, nodes[name]);
            match model.expression_type(scope, object as usize) {
                None => reports.len() == 0,
                Some(receiver) => {
                    &&& model.has_method(scope, receiver, method) ==> reports.len() == 0
                    &&& !(receiver.form is Other) ==> reports.len() == 0
                    &&& receiver.form is Other && !model.has_method(scope, receiver, method)
                        ==> reports == seq![
                        ByteDiagnosticView {
                            start: nodes[name].start,
                            end: nodes[name].end,
                            severity: Some(DiagnosticSeverity::Error),
                            message: "Method `"@ + method + "` not found"@,
                        },
                    ]
                },
            }
        }),
{
}

/// Whether reports are a part of others, in one piece.
pub open spec fn part_of(part: Seq<ByteDiagnosticView>, whole: Seq<ByteDiagnosticView>) -> bool {
    exists|before: Seq<ByteDiagnosticView>, behind: Seq<ByteDiagnosticView>|
        whole == #[trigger] (before + part + behind)
}

proof fn lemma_part(
    before: Seq<ByteDiagnosticView>,
    part: Seq<ByteDiagnosticView>,
    behind: Seq<ByteDiagnosticView>,
    more: Seq<ByteDiagnosticView>,
)
    ensures
        part_of(part, before + part + behind + more),
{
    assert(before + part + behind + more =~= before + part + (behind + more));
}

proof fn lemma_call_inspected<S: SymbolIndex, M: SemanticModel>(
    index: &S,
    model: Option<&M>,
    project: Seq<ProjectSymbolView>,
    source: Seq<char>,
    nodes: Seq<SyntaxNodeView>,
    call: int,
    n: int,
)
    requires
        0 <= call < n <= nodes.len(),
        is_call(nodes[call].kind),
    ensures
        part_of(
            arguments::call_reports(index, model, project, source, nodes, call),
            arguments::calls_reports(index, model, project, source, nodes, n),
        ),
    decreases n,
{
    let part = arguments::call_reports(index, model, project, source, nodes, call);
    let whole = arguments::calls_reports(index, model, project, source, nodes, n);
    let before = arguments::calls_reports(index, model, project, source, nodes, n - 1);
    let here: Seq<ByteDiagnosticView> = if arguments::call_node(nodes[n - 1]) {
        arguments::call_reports(index, model, project, source, nodes, n - 1)
    } else {
        Seq::empty()
    };
    if call == n - 1 {
        assert(whole =~= before + part + Seq::<ByteDiagnosticView>::empty());
    } else {
        lemma_call_inspected(index, model, project, source, nodes, call, n - 1);
        let (a, b) = choose|a: Seq<ByteDiagnosticView>, b: Seq<ByteDiagnosticView>|
            before == #[trigger] (a + part + b);
        lemma_part(a, part, b, here);
    }
}

proof fn lemma_missing_inspected<M: SemanticModel>(
    model: &M,
    source: Seq<char>,
    nodes: Seq<SyntaxNodeView>,
    call: int,
    n: int,
)
    requires
        0 <= call < n <= nodes.len(),
        nodes[call].kind == "member_call_expression"@ || nodes[call].kind
            == "nullsafe_member_call_expression"@,
    ensures
        part_of(
            arguments::missing_report(model, source, nodes, call),
            arguments::missing_reports(model, source, nodes, n),
        ),
    decreases n,
{
    let part = arguments::missing_report(model, source, nodes, call);
    let whole = arguments::missing_reports(model, source, nodes, n);
    let before = arguments::missing_reports(model, source, nodes, n - 1);
    let here: Seq<ByteDiagnosticView> = if arguments::member_call(nodes[n - 1]) {
        arguments::missing_report(model, source, nodes, n - 1)
    } else {
        Seq::empty()
    };
    if call == n - 1 {
        assert(whole =~= before + part + Seq::<ByteDiagnosticView>::empty());
    } else {
        lemma_missing_inspected(model, source, nodes, call, n - 1);
        let (a, b) = choose|a: Seq<ByteDiagnosticView>, b: Seq<ByteDiagnosticView>|
            before == #[trigger] (a + part + b);
        lemma_part(a, part, b, here);
    }
}

/// Every call of a text is inspected: what is to be reported of any of them is reported, and so is
/// each call of a method that is missing.
pub proof fn law_every_call_is_inspected<S: SymbolIndex, M: SemanticModel>(
    index: &S,
    model: Option<&M>,
    input: ArgumentInspectionInput,
    call: int,
)
    requires
        input.syntax is Some,
        0 <= call < input.syntax->0@.len(),
        is_call(input.syntax->0@[call].kind),
    ensures
        ({
            let nodes = input.syntax->0@;
            let reports = arguments::argument_reports(index, model, input);
            let project = symbols::project_views(input.project_symbols@);
            let kind = nodes[call].kind;
            &&& part_of(
                arguments::call_reports(index, model, project, input.text@, nodes, call),
                reports,
            )
            &&& model is Some && (kind == "member_call_expression"@ || kind
                == "nullsafe_member_call_expression"@) ==> part_of(
                arguments::missing_report(model->0, input.text@, nodes, call),
                reports,
            )
        }),
{
    let nodes = input.syntax->0@;
    let n = nodes.len() as int;
    let project = symbols::project_views(input.project_symbols@);
    let kind = nodes[call].kind;
    let part = arguments::call_reports(index, model, project, input.text@, nodes, call);
    let calls = arguments::calls_reports(index, model, project, input.text@, nodes, n);
    lemma_call_inspected(index, model, project, input.text@, nodes, call, n);
    let (a, b) = choose|a: Seq<ByteDiagnosticView>, b: Seq<ByteDiagnosticView>|
        calls == #[trigger] (a + part + b);
    match model {
        Some(model) => {
            let missing = arguments::missing_reports(model, input.text@, nodes, n);
            lemma_part(a, part, b, missing);
            if kind == "member_call_expression"@ || kind == "nullsafe_member_call_expression"@ {
                lemma_missing_inspected(model, input.text@, nodes, call, n);
                let one = arguments::missing_report(model, input.text@, nodes, call);
                let (c, d) = choose|c: Seq<ByteDiagnosticView>, d: Seq<ByteDiagnosticView>|
                    missing == #[trigger] (c + one + d);
                assert(calls + missing =~= (calls + c) + one + d);
            }
        },
        None => {
            lemma_part(a, part, b, Seq::empty());
        },
    }
}

/// An object that is made with too few or too many arguments for its constructor is reported first for
/// that number.
pub proof fn law_constructors_count_their_arguments<M: SemanticModel>(
    model: &M,
    source: Seq<char>,
    nodes: Seq<SyntaxNodeView>,
    call: int,
    list: int,
    class: int,
    scope: usize,
    resolved: Seq<char>,
    id: usize,
    parameters: Seq<char>,
)
    requires
        arguments::class_of(nodes, call) == Some(class),
        model.scope_of(nodes[call].start) == Some(scope),
        ({
            let written = text::trim(syntax::node_text(source, nodes[class]));
            &&& model.class_in(scope, written) == Some(resolved)
            &&& model.constructor_of(scope, written, resolved) == Some(id)
        }),
        model.symbol_of(id) is Some,
        model.symbol_of(id)->0.parameters == Some(parameters),
    ensures
        ({
            let count = arguments::argument_nodes(nodes, list).len();
            let arity = signature::shown_arity(parameters);
            let reports = arguments::creation_reports(Some(model), source, nodes, call, list);
            count < arity.required || (count > arity.maximum && !arity.variadic) ==> {
                &&& reports.len() > 0
                &&& reports[0].start == nodes[list].start
                &&& reports[0].end == nodes[list].end
                &&& reports[0] == arguments::arity_report(nodes, list, arity)[0]
            }
        }),
{
}

} // verus!
