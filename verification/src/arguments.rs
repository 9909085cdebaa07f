//! The inspection of arguments: how many a call has, what types they are of, and whether the method
//! that is called exists.

use std::ops::Range;

use vstd::prelude::*;
use vstd::slice::slice_subrange;
use vstd::string::*;

use crate::diagnostics;
use crate::diagnostics::ByteDiagnostic;
use crate::diagnostics::ByteDiagnosticView;
use crate::diagnostics::DiagnosticSeverity;
use crate::help;
use crate::php;
use crate::php::ProjectSymbolKind;
use crate::provider;
use crate::receiver;
use crate::semantic::SemanticModel;
use crate::semantic::SemanticParameter;
use crate::semantic::SemanticParameterView;
use crate::semantic::TypeForm;
use crate::signature;
use crate::signature::Arity;
use crate::signature::ParameterArity;
use crate::symbols;
use crate::symbols::ProjectSymbol;
use crate::symbols::ProjectSymbolView;
use crate::symbols::RuntimeParameterView;
use crate::symbols::RuntimeSignature;
use crate::symbols::RuntimeSignatureView;
use crate::symbols::SymbolIndex;
use crate::syntax;
use crate::syntax::SyntaxNodeView;
use crate::syntax::SyntaxTree;
use crate::text;

verus! {

/// Whether a node is a call.
pub open spec fn call_node(node: SyntaxNodeView) -> bool {
    node.kind == "function_call_expression"@ || member_call(node) || node.kind
        == "static_call_expression"@ || node.kind == "scoped_call_expression"@ || creation(node)
}

/// Whether a node is a call of a method of an object.
pub open spec fn member_call(node: SyntaxNodeView) -> bool {
    node.kind == "member_call_expression"@ || node.kind == "nullsafe_member_call_expression"@
}

/// Whether a node makes an object.
pub open spec fn creation(node: SyntaxNodeView) -> bool {
    node.kind == "object_creation_expression"@
}

fn is_kind(tree: &SyntaxTree, node: usize, kind: &str) -> (r: bool)
    requires
        node < tree@.len(),
    ensures
        r == (tree@[node as int].kind == kind@),
{
    assert(tree@[node as int] == tree.nodes@[node as int]@);
    text::eq(&tree.nodes[node].kind, kind)
}

fn is_member_call(tree: &SyntaxTree, node: usize) -> (r: bool)
    requires
        node < tree@.len(),
    ensures
        r == member_call(tree@[node as int]),
{
    is_kind(tree, node, "member_call_expression") || is_kind(
        tree,
        node,
        "nullsafe_member_call_expression",
    )
}

fn is_call(tree: &SyntaxTree, node: usize) -> (r: bool)
    requires
        node < tree@.len(),
    ensures
        r == call_node(tree@[node as int]),
{
    is_kind(tree, node, "function_call_expression") || is_member_call(tree, node) || is_kind(
        tree,
        node,
        "static_call_expression",
    ) || is_kind(tree, node, "scoped_call_expression") || is_kind(
        tree,
        node,
        "object_creation_expression",
    )
}

/// The first named child of a node, from an index on, of one of two kinds.
pub open spec fn kind_child(
    nodes: Seq<SyntaxNodeView>,
    parent: int,
    kind: Seq<char>,
    other: Seq<char>,
    from: int,
) -> Option<int>
    decreases nodes.len() - from,
{
    if from >= nodes.len() {
        None
    } else if syntax::child_of(nodes[from], parent) && nodes[from].named && (nodes[from].kind
        == kind || nodes[from].kind == other) {
        Some(from)
    } else {
        kind_child(nodes, parent, kind, other, from + 1)
    }
}

fn find_kind_child(tree: &SyntaxTree, parent: usize, kind: &str, other: &str) -> (r: Option<usize>)
    ensures
        match r {
            Some(i) => i < tree@.len() && kind_child(tree@, parent as int, kind@, other@, 0)
                == Some(i as int),
            None => kind_child(tree@, parent as int, kind@, other@, 0) is None,
        },
{
    let ghost all = tree@;
    let mut i: usize = 0;
    while i < tree.nodes.len()
        invariant
            i <= tree.nodes@.len(),
            all == tree@,
            kind_child(all, parent as int, kind@, other@, 0) == kind_child(
                all,
                parent as int,
                kind@,
                other@,
                i as int,
            ),
        decreases tree.nodes@.len() - i,
    {
        let node = &tree.nodes[i];
        assert(all[i as int] == node@);
        let belongs = match node.parent {
            Some(p) => p == parent,
            None => false,
        };
        if belongs && node.named && (text::eq(&node.kind, kind) || text::eq(&node.kind, other)) {
            return Some(i);
        }
        i += 1;
    }
    None
}

/// The node that holds the arguments of a call.
pub open spec fn arguments_of(nodes: Seq<SyntaxNodeView>, call: int) -> Option<int> {
    match syntax::field_child(nodes, call, "arguments"@, 0) {
        Some(i) => Some(i),
        None => kind_child(nodes, call, "arguments"@, "arguments"@, 0),
    }
}

fn find_arguments(tree: &SyntaxTree, call: usize) -> (r: Option<usize>)
    ensures
        match r {
            Some(i) => i < tree@.len() && arguments_of(tree@, call as int) == Some(i as int),
            None => arguments_of(tree@, call as int) is None,
        },
{
    match tree.child_by_field_name(call, "arguments") {
        Some(i) => Some(i),
        None => find_kind_child(tree, call, "arguments", "arguments"),
    }
}

/// The class that a call makes an object of.
pub open spec fn class_of(nodes: Seq<SyntaxNodeView>, call: int) -> Option<int> {
    match syntax::field_child(nodes, call, "class"@, 0) {
        Some(i) => Some(i),
        None => kind_child(nodes, call, "name"@, "qualified_name"@, 0),
    }
}

fn find_class(tree: &SyntaxTree, call: usize) -> (r: Option<usize>)
    ensures
        match r {
            Some(i) => i < tree@.len() && class_of(tree@, call as int) == Some(i as int),
            None => class_of(tree@, call as int) is None,
        },
{
    match tree.child_by_field_name(call, "class") {
        Some(i) => Some(i),
        None => find_kind_child(tree, call, "name", "qualified_name"),
    }
}

/// The arguments of a call.
pub open spec fn argument_nodes(nodes: Seq<SyntaxNodeView>, arguments: int) -> Seq<int> {
    syntax::named_children(nodes, arguments, nodes.len() as int)
}

/// What is said where a call has too many or too few arguments.
pub open spec fn arity_message(count: nat, arity: Arity) -> Seq<char> {
    if count > arity.maximum && !arity.variadic {
        "Expected at most "@ + text::decimal(arity.maximum) + " arguments, found "@
            + text::decimal(count)
    } else {
        "Expected "@ + text::decimal(arity.required) + " argument"@ + (if arity.required == 1 {
            Seq::empty()
        } else {
            "s"@
        }) + ", found "@ + text::decimal(count)
    }
}

/// Whether a call may have some number of arguments.
pub open spec fn arity_fits(count: nat, arity: Arity) -> bool {
    arity.required <= count && (arity.variadic || count <= arity.maximum)
}

/// A report on the bytes of a node.
pub open spec fn node_report(node: SyntaxNodeView, message: Seq<char>) -> ByteDiagnosticView {
    ByteDiagnosticView {
        start: node.start,
        end: node.end,
        severity: Some(DiagnosticSeverity::Error),
        message,
    }
}

/// The report on the number of arguments of a call.
pub open spec fn arity_report(nodes: Seq<SyntaxNodeView>, arguments: int, arity: Arity) -> Seq<
    ByteDiagnosticView,
> {
    let count = argument_nodes(nodes, arguments).len();
    if arity_fits(count, arity) {
        Seq::empty()
    } else {
        seq![node_report(nodes[arguments], arity_message(count, arity))]
    }
}

/// How many arguments a callable takes.
pub open spec fn arity_view(arity: ParameterArity) -> Arity {
    Arity {
        required: arity.required_count as nat,
        maximum: arity.maximum_count as nat,
        variadic: arity.variadic,
    }
}

fn put_report(tree: &SyntaxTree, node: usize, message: String, out: &mut Vec<ByteDiagnostic>)
    requires
        node < tree@.len(),
    ensures
        diagnostics::diagnostic_views(final(out)@) == diagnostics::diagnostic_views(old(out)@)
            + seq![node_report(tree@[node as int], message@)],
{
    let ghost held = diagnostics::diagnostic_views(out@);
    assert(tree@[node as int] == tree.nodes@[node as int]@);
    let found = ByteDiagnostic {
        range: Range { start: tree.nodes[node].start, end: tree.nodes[node].end },
        severity: Some(DiagnosticSeverity::Error),
        message,
    };
    out.push(found);
    assert(diagnostics::diagnostic_views(out@) =~= held + seq![found@]);
}

fn report_arity(
    tree: &SyntaxTree,
    arguments: usize,
    arity: ParameterArity,
    out: &mut Vec<ByteDiagnostic>,
)
    requires
        arguments < tree@.len(),
    ensures
        diagnostics::diagnostic_views(final(out)@) == diagnostics::diagnostic_views(old(out)@)
            + arity_report(tree@, arguments as int, arity_view(arity)),
{
    let ghost held = diagnostics::diagnostic_views(out@);
    let children = tree.named_children(arguments);
    let count: usize = children.len();
    assert(text::numbers(children@).len() == count);
    if count < arity.required_count || (!arity.variadic && count > arity.maximum_count) {
        let mut message: Vec<char> = Vec::new();
        if count > arity.maximum_count && !arity.variadic {
            text::put(&mut message, "Expected at most ");
            text::put(&mut message, &text::decimal_text(arity.maximum_count as u64));
            text::put(&mut message, " arguments, found ");
            text::put(&mut message, &text::decimal_text(count as u64));
        } else {
            text::put(&mut message, "Expected ");
            text::put(&mut message, &text::decimal_text(arity.required_count as u64));
            text::put(&mut message, " argument");
            if arity.required_count != 1 {
                text::put(&mut message, "s");
            }
            text::put(&mut message, ", found ");
            text::put(&mut message, &text::decimal_text(count as u64));
        }
        assert(message@ =~= arity_message(count as nat, arity_view(arity)));
        put_report(tree, arguments, text::to_string(&message), out);
    } else {
        assert(diagnostics::diagnostic_views(out@) =~= held + Seq::<ByteDiagnosticView>::empty());
    }
}

/// The parameter that an argument of a number is given to.
pub open spec fn parameter_for(parameters: Seq<SemanticParameterView>, number: int) -> Option<
    SemanticParameterView,
> {
    if 0 <= number < parameters.len() {
        Some(parameters[number])
    } else if parameters.len() > 0 && parameters.last().variadic {
        Some(parameters.last())
    } else {
        None
    }
}

/// Whether an argument is given by name, or stands for several.
pub open spec fn unmapped(node: SyntaxNodeView) -> bool {
    node.kind == "named_argument"@ || node.kind == "variadic_unpacking"@
}

/// The report on the type of one argument.
pub open spec fn type_report<M: SemanticModel>(
    model: &M,
    scope: usize,
    parameter: SemanticParameterView,
    nodes: Seq<SyntaxNodeView>,
    argument: int,
) -> Seq<ByteDiagnosticView> {
    match (parameter.declared_type, model.expression_type(scope, argument as usize)) {
        (Some(expected), Some(actual)) => if model.clash(expected, actual) {
            seq![
                node_report(
                    nodes[argument],
                    "Expected "@ + expected.label + ", found "@ + actual.label,
                ),
            ]
        } else {
            Seq::empty()
        },
        _ => Seq::empty(),
    }
}

/// The reports on the types of the arguments from one on, the next of which is given to the
/// parameter of a number. What is given by name, or stands for several, is passed over.
pub open spec fn types_from<M: SemanticModel>(
    model: &M,
    scope: usize,
    parameters: Seq<SemanticParameterView>,
    nodes: Seq<SyntaxNodeView>,
    arguments: Seq<int>,
    at: int,
    number: int,
) -> Seq<ByteDiagnosticView>
    decreases arguments.len() - at,
{
    if at < 0 || at >= arguments.len() {
        Seq::empty()
    } else if unmapped(nodes[arguments[at]]) {
        types_from(model, scope, parameters, nodes, arguments, at + 1, number + 1)
    } else {
        match parameter_for(parameters, number) {
            None => Seq::empty(),
            Some(parameter) => type_report(model, scope, parameter, nodes, arguments[at])
                + types_from(
                model,
                scope,
                parameters,
                nodes,
                arguments,
                at + 1,
                if parameter.variadic {
                    number
                } else {
                    number + 1
                },
            ),
        }
    }
}

/// The reports on the types of the arguments of a call of a symbol.
pub open spec fn type_reports<M: SemanticModel>(
    model: &M,
    scope: usize,
    id: usize,
    nodes: Seq<SyntaxNodeView>,
    arguments: int,
) -> Seq<ByteDiagnosticView> {
    match model.symbol_of(id) {
        Some(symbol) => if symbol.structured_parameters.len() == 0 {
            Seq::empty()
        } else {
            types_from(
                model,
                scope,
                symbol.structured_parameters,
                nodes,
                argument_nodes(nodes, arguments),
                0,
                0,
            )
        },
        None => Seq::empty(),
    }
}

fn report_type<M: SemanticModel>(
    model: &M,
    scope: usize,
    parameter: &SemanticParameter,
    tree: &SyntaxTree,
    argument: usize,
    out: &mut Vec<ByteDiagnostic>,
)
    requires
        argument < tree@.len(),
    ensures
        diagnostics::diagnostic_views(final(out)@) == diagnostics::diagnostic_views(old(out)@)
            + type_report(model, scope, parameter@, tree@, argument as int),
{
    let ghost held = diagnostics::diagnostic_views(out@);
    if let Some(expected) = &parameter.declared_type {
        if let Some(actual) = model.infer_ast_expression_type(scope, argument) {
            if model.incompatible(expected, &actual) {
                let mut message = String::from_str("Expected ");
                message.append(&expected.label);
                message.append(", found ");
                message.append(&actual.label);
                put_report(tree, argument, message, out);
                return;
            }
        }
    }
    assert(diagnostics::diagnostic_views(out@) =~= held + Seq::<ByteDiagnosticView>::empty());
}

/// Reports the arguments of a call of a symbol whose types do not fit its parameters.
pub fn emit_project_type_diagnostics<M: SemanticModel>(
    model: &M,
    scope: usize,
    id: usize,
    tree: &SyntaxTree,
    arguments: usize,
    out: &mut Vec<ByteDiagnostic>,
)
    requires
        arguments < tree@.len(),
    ensures
        diagnostics::diagnostic_views(final(out)@) == diagnostics::diagnostic_views(old(out)@)
            + type_reports(model, scope, id, tree@, arguments as int),
{
    let ghost held = diagnostics::diagnostic_views(out@);
    assert(held + Seq::<ByteDiagnosticView>::empty() =~= held);
    let symbol = match model.symbol(id) {
        Some(symbol) => symbol,
        None => {
            return;
        },
    };
    let n: usize = symbol.structured_parameters.len();
    let ghost parameters = symbol@.structured_parameters;
    if n == 0 {
        return;
    }
    let children = tree.named_children(arguments);
    let ghost all = text::numbers(children@);
    let mut at: usize = 0;
    let mut number: usize = 0;
    let ghost goal = types_from(model, scope, parameters, tree@, all, 0, 0);
    while at < children.len()
        invariant_except_break
            at <= children@.len(),
            number <= at,
            n == symbol.structured_parameters@.len(),
            n > 0,
            parameters == symbol@.structured_parameters,
            all == text::numbers(children@),
            forall|k: int| 0 <= k < children@.len() ==> #[trigger] children@[k] < tree@.len(),
            held + goal == diagnostics::diagnostic_views(out@) + types_from(
                model,
                scope,
                parameters,
                tree@,
                all,
                at as int,
                number as int,
            ),
        ensures
            held + goal == diagnostics::diagnostic_views(out@),
        decreases children@.len() - at,
    {
        let ghost before = diagnostics::diagnostic_views(out@);
        assert(before + Seq::<ByteDiagnosticView>::empty() =~= before);
        let argument: usize = children[at];
        assert(all[at as int] == argument as int);
        if is_kind(tree, argument, "named_argument") || is_kind(
            tree,
            argument,
            "variadic_unpacking",
        ) {
            number += 1;
            at += 1;
            continue ;
        }
        let parameter = if number < n {
            assert(parameters[number as int] == symbol.structured_parameters@[number as int]@);
            &symbol.structured_parameters[number]
        } else if symbol.structured_parameters[n - 1].variadic {
            assert(parameters.last() == symbol.structured_parameters@[n - 1]@);
            &symbol.structured_parameters[n - 1]
        } else {
            assert(parameters.last() == symbol.structured_parameters@[n - 1]@);
            break;
        };
        report_type(model, scope, parameter, tree, argument, out);
        let ghost here = type_report(model, scope, parameter@, tree@, argument as int);
        if !parameter.variadic {
            number += 1;
        }
        at += 1;
        proof {
            let more = types_from(
                model,
                scope,
                parameters,
                tree@,
                all,
                at as int,
                number as int,
            );
            assert(before + (here + more) =~= (before + here) + more);
        }
    }
}

/// The reports on a call that makes an object, where its constructor is known.
pub open spec fn creation_reports<M: SemanticModel>(
    model: Option<&M>,
    source: Seq<char>,
    nodes: Seq<SyntaxNodeView>,
    call: int,
    arguments: int,
) -> Seq<ByteDiagnosticView> {
    match (class_of(nodes, call), model) {
        (Some(class), Some(model)) => {
            let written = text::trim(syntax::node_text(source, nodes[class]));
            match model.scope_of(nodes[call].start) {
                Some(scope) => match model.class_in(scope, written) {
                    Some(resolved) => match model.constructor_of(scope, written, resolved) {
                        Some(id) => match model.symbol_of(id) {
                            Some(symbol) => match symbol.parameters {
                                Some(parameters) => arity_report(
                                    nodes,
                                    arguments,
                                    signature::shown_arity(parameters),
                                ) + type_reports(model, scope, id, nodes, arguments),
                                None => Seq::empty(),
                            },
                            None => Seq::empty(),
                        },
                        None => Seq::empty(),
                    },
                    None => Seq::empty(),
                },
                None => Seq::empty(),
            }
        },
        _ => Seq::empty(),
    }
}

proof fn lemma_arity_view(detail: Seq<char>, arity: ParameterArity)
    requires
        arity.required_count == signature::shown_arity(detail).required,
        arity.maximum_count == signature::shown_arity(detail).maximum,
        arity.variadic == signature::shown_arity(detail).variadic,
    ensures
        arity_view(arity) == signature::shown_arity(detail),
{
}

fn inspect_creation<M: SemanticModel>(
    model: Option<&M>,
    source: &str,
    tree: &SyntaxTree,
    call: usize,
    arguments: usize,
    out: &mut Vec<ByteDiagnostic>,
)
    requires
        call < tree@.len(),
        arguments < tree@.len(),
        syntax::fits(tree@, source@),
    ensures
        diagnostics::diagnostic_views(final(out)@) == diagnostics::diagnostic_views(old(out)@)
            + creation_reports(model, source@, tree@, call as int, arguments as int),
{
    let ghost held = diagnostics::diagnostic_views(out@);
    assert(held + Seq::<ByteDiagnosticView>::empty() =~= held);
    let class = match find_class(tree, call) {
        Some(class) => class,
        None => {
            return;
        },
    };
    let model = match model {
        Some(model) => model,
        None => {
            return;
        },
    };
    let class_chars = text::chars_of(&tree.text_of(source, class));
    let written = text::to_string(text::trimmed(&class_chars));
    assert(tree@[call as int] == tree.nodes@[call as int]@);
    let scope = match model.scope_id_at(tree.nodes[call].start) {
        Some(scope) => scope,
        None => {
            return;
        },
    };
    let resolved = match model.resolve_class_name(scope, &written) {
        Some(resolved) => resolved,
        None => {
            return;
        },
    };
    let id = match model.resolve_constructor(scope, &written, &resolved) {
        Some(id) => id,
        None => {
            return;
        },
    };
    let parameters = match model.symbol(id) {
        Some(symbol) => match symbol.parameters {
            Some(parameters) => parameters,
            None => {
                return;
            },
        },
        None => {
            return;
        },
    };
    let arity = signature::signature_counts_from_detail(&parameters);
    proof {
        lemma_arity_view(parameters@, arity);
    }
    report_arity(tree, arguments, arity, out);
    let ghost first = arity_report(tree@, arguments as int, arity_view(arity));
    emit_project_type_diagnostics(model, scope, id, tree, arguments, out);
    proof {
        let second = type_reports(model, scope, id, tree@, arguments as int);
        assert((held + first) + second =~= held + (first + second));
    }
}

/// The functions among the symbols of a full name.
pub open spec fn functions_of<M: SemanticModel>(model: &M, fqn: Seq<char>) -> Seq<usize> {
    model.symbols_of(fqn).filter(|id: usize| function_symbol(model, id))
}

/// Whether the symbol of a number is a function.
pub open spec fn function_symbol<M: SemanticModel>(model: &M, id: usize) -> bool {
    model.symbol_of(id) is Some && model.symbol_of(id)->0.kind == ProjectSymbolKind::Function
}

/// The reports on the types of the arguments of a call of a function by its name, where that names
/// exactly one function.
pub open spec fn function_reports<M: SemanticModel>(
    model: Option<&M>,
    source: Seq<char>,
    nodes: Seq<SyntaxNodeView>,
    call: int,
    arguments: int,
) -> Seq<ByteDiagnosticView> {
    match (model, syntax::field_child(nodes, call, "function"@, 0)) {
        (Some(model), Some(function)) => if nodes[call].kind == "function_call_expression"@ && (
        nodes[function].kind == "name"@ || nodes[function].kind == "qualified_name"@) {
            match model.scope_of(nodes[call].start) {
                Some(scope) => match model.function_in(
                    scope,
                    syntax::node_text(source, nodes[function]),
                ) {
                    Some(resolved) => if functions_of(model, resolved).len() == 1 {
                        type_reports(
                            model,
                            scope,
                            functions_of(model, resolved)[0],
                            nodes,
                            arguments,
                        )
                    } else {
                        Seq::empty()
                    },
                    None => Seq::empty(),
                },
                None => Seq::empty(),
            }
        } else {
            Seq::empty()
        },
        _ => Seq::empty(),
    }
}

fn find_functions<M: SemanticModel>(model: &M, fqn: &str) -> (r: Vec<usize>)
    ensures
        r@ == functions_of(model, fqn@),
{
    let ids = model.symbols_for_fqn(fqn);
    let ghost keep = |id: usize| function_symbol(model, id);
    let mut out: Vec<usize> = Vec::new();
    let mut i: usize = 0;
    assert(ids@.take(0).filter(keep) =~= Seq::<usize>::empty()) by {
        reveal(Seq::filter);
    }
    while i < ids.len()
        invariant
            i <= ids@.len(),
            keep == (|id: usize| function_symbol(model, id)),
            out@ == ids@.take(i as int).filter(keep),
        decreases ids@.len() - i,
    {
        proof {
            text::lemma_filter_step(ids@, keep, i as int);
        }
        let is_function = match model.symbol(ids[i]) {
            Some(symbol) => symbol.kind == ProjectSymbolKind::Function,
            None => false,
        };
        if is_function {
            out.push(ids[i]);
        }
        i += 1;
    }
    assert(ids@.take(i as int) =~= ids@);
    out
}

fn inspect_function<M: SemanticModel>(
    model: Option<&M>,
    source: &str,
    tree: &SyntaxTree,
    call: usize,
    arguments: usize,
    out: &mut Vec<ByteDiagnostic>,
)
    requires
        call < tree@.len(),
        arguments < tree@.len(),
        syntax::fits(tree@, source@),
    ensures
        diagnostics::diagnostic_views(final(out)@) == diagnostics::diagnostic_views(old(out)@)
            + function_reports(model, source@, tree@, call as int, arguments as int),
{
    let ghost held = diagnostics::diagnostic_views(out@);
    assert(held + Seq::<ByteDiagnosticView>::empty() =~= held);
    let model = match model {
        Some(model) => model,
        None => {
            return;
        },
    };
    let function = match tree.child_by_field_name(call, "function") {
        Some(function) => function,
        None => {
            return;
        },
    };
    if !is_kind(tree, call, "function_call_expression") || !(is_kind(tree, function, "name")
        || is_kind(tree, function, "qualified_name")) {
        return;
    }
    assert(tree@[call as int] == tree.nodes@[call as int]@);
    if let Some(scope) = model.scope_id_at(tree.nodes[call].start) {
        let written = tree.text_of(source, function);
        if let Some(resolved) = model.resolve_function_name(scope, &written) {
            let functions = find_functions(model, &resolved);
            if functions.len() == 1 {
                emit_project_type_diagnostics(model, scope, functions[0], tree, arguments, out);
            }
        }
    }
}

/// Whether a character may stand in what is called.
pub open spec fn callee_char(c: char) -> bool {
    php::name_char(c) || c == '$' || c == ':' || c == '-' || c == '>'
}

/// Where what is called up to an index begins.
pub open spec fn callee_start(s: Seq<char>, end: int) -> int
    decreases end,
{
    if 0 < end <= s.len() && callee_char(s[end - 1]) {
        callee_start(s, end - 1)
    } else {
        end
    }
}

/// What is called right before an index.
pub open spec fn callee(s: Seq<char>, open: int) -> Seq<char> {
    text::trim(s.subrange(callee_start(s, open), open))
}

/// Where the last operator between an owner and a member stands.
pub open spec fn member_operator(callable: Seq<char>) -> Option<int> {
    match text::rfind(callable, "::"@) {
        Some(at) => Some(at),
        None => text::rfind(callable, "->"@),
    }
}

/// The name of what is called.
pub open spec fn callee_name(callable: Seq<char>) -> Seq<char> {
    text::strip_start(
        match member_operator(callable) {
            Some(at) => callable.skip(at + 2),
            None => callable,
        },
        '$',
    )
}

/// The class of what a member is called on: of a variable the type that is written before its last
/// occurrence with a space behind, of anything else the class that it names.
pub open spec fn callee_class(s: Seq<char>, open: int, callable: Seq<char>) -> Option<Seq<char>> {
    match member_operator(callable) {
        None => None,
        Some(at) => {
            let owner = text::trim(callable.take(at));
            let named = php::resolve(owner, text::lines(s));
            Some(
                if text::starts_with(owner, "$"@) {
                    match text::rfind(s.take(open), owner + " "@) {
                        Some(found) => {
                            let declared = receiver::last_declared(s.take(found));
                            if declared.len() > 0 {
                                php::resolve(text::strip_start(declared, '?'), text::lines(s))
                            } else {
                                named
                            }
                        },
                        None => named,
                    }
                } else {
                    named
                },
            )
        },
    }
}

fn read_callee(s: &[char], open: usize) -> (r: Vec<char>)
    requires
        open <= s@.len(),
    ensures
        r@ == callee(s@, open as int),
{
    let mut start: usize = open;
    while start > 0 && (php::is_name_char(s[start - 1], true) || s[start - 1] == '$' || s[start - 1]
        == ':' || s[start - 1] == '-' || s[start - 1] == '>')
        invariant
            start <= open <= s@.len(),
            callee_start(s@, open as int) == callee_start(s@, start as int),
        decreases start,
    {
        start -= 1;
    }
    let mut out: Vec<char> = Vec::new();
    out.extend_from_slice(text::trimmed(slice_subrange(s, start, open)));
    assert(out@ =~= callee(s@, open as int));
    out
}

fn find_member_operator(callable: &[char]) -> (r: Option<usize>)
    ensures
        match r {
            Some(at) => member_operator(callable@) == Some(at as int) && at + 2 <= callable@.len(),
            None => member_operator(callable@) is None,
        },
{
    proof {
        reveal_strlit("::");
        reveal_strlit("->");
    }
    match text::find_last(callable, &text::chars_of("::")) {
        Some(at) => Some(at),
        None => text::find_last(callable, &text::chars_of("->")),
    }
}

fn read_callee_name(callable: &[char]) -> (r: String)
    ensures
        r@ == callee_name(callable@),
{
    let n: usize = callable.len();
    let rest = match find_member_operator(callable) {
        Some(at) => {
            let rest = slice_subrange(callable, at + 2, n);
            assert(rest@ =~= callable@.skip(at + 2));
            rest
        },
        None => {
            let rest = slice_subrange(callable, 0, n);
            assert(rest@ =~= callable@);
            rest
        },
    };
    text::to_string(text::stripped_start(rest, '$'))
}

fn find_callee_class(source: &str, s: &[char], open: usize, callable: &[char]) -> (r: Option<String>)
    requires
        s@ == source@,
        open <= s@.len(),
    ensures
        provider::optional_text(r) == callee_class(s@, open as int, callable@),
{
    let at = match find_member_operator(callable) {
        Some(at) => at,
        None => {
            return None;
        },
    };
    let head = slice_subrange(callable, 0, at);
    assert(head@ =~= callable@.take(at as int));
    let owner = text::trimmed(head);
    if text::begins(owner, "$") {
        let mut pattern: Vec<char> = Vec::new();
        pattern.extend_from_slice(owner);
        text::put(&mut pattern, " ");
        assert(pattern@ =~= owner@ + " "@);
        let before = slice_subrange(s, 0, open);
        assert(before@ =~= s@.take(open as int));
        if let Some(found) = text::find_last(before, &pattern) {
            let declaring = slice_subrange(s, 0, found);
            assert(declaring@ =~= s@.take(found as int));
            let declared = receiver::last_declared_type(declaring);
            if declared.len() > 0 {
                let name = text::to_string(text::stripped_start(declared, '?'));
                return Some(php::resolve_php_class_name(&name, source));
            }
        }
    }
    Some(php::resolve_php_class_name(&text::to_string(owner), source))
}

/// The number of the method that a call of a method of a bound variable names.
pub open spec fn bound_method<M: SemanticModel>(
    model: Option<&M>,
    source: Seq<char>,
    nodes: Seq<SyntaxNodeView>,
    call: int,
    name: Seq<char>,
) -> Option<usize> {
    match (model, syntax::field_child(nodes, call, "object"@, 0)) {
        (Some(model), Some(object)) => if member_call(nodes[call]) && nodes[object].kind
            == "variable_name"@ {
            match model.scope_of(nodes[call].start) {
                Some(scope) => model.bound_method_of(
                    scope,
                    text::trim(syntax::node_text(source, nodes[object])),
                    name,
                ),
                None => None,
            }
        } else {
            None
        },
        _ => None,
    }
}

fn find_bound_method<M: SemanticModel>(
    model: Option<&M>,
    source: &str,
    tree: &SyntaxTree,
    call: usize,
    name: &str,
) -> (r: Option<usize>)
    requires
        call < tree@.len(),
        syntax::fits(tree@, source@),
    ensures
        r == bound_method(model, source@, tree@, call as int, name@),
{
    let model = match model {
        Some(model) => model,
        None => {
            return None;
        },
    };
    let object = match tree.child_by_field_name(call, "object") {
        Some(object) => object,
        None => {
            return None;
        },
    };
    if !is_member_call(tree, call) || !is_kind(tree, object, "variable_name") {
        return None;
    }
    assert(tree@[call as int] == tree.nodes@[call as int]@);
    match model.scope_id_at(tree.nodes[call].start) {
        Some(scope) => {
            let object_chars = text::chars_of(&tree.text_of(source, object));
            let variable = text::to_string(text::trimmed(&object_chars));
            model.resolve_binding_method(scope, &variable, name)
        },
        None => None,
    }
}

/// Whether a symbol of the project is the method of a name of a class, or where there is no class
/// the function of the name.
pub open spec fn symbol_called(
    symbol: ProjectSymbolView,
    class: Option<Seq<char>>,
    name: Seq<char>,
) -> bool {
    symbol.name == name && match class {
        Some(class) => symbol.kind == ProjectSymbolKind::Method && text::starts_with(
            symbol.fully_qualified_name,
            class + "::"@,
        ),
        None => symbol.kind == ProjectSymbolKind::Function,
    }
}

/// The first symbol of the project, from an index on, that a call names.
pub open spec fn first_called(
    project: Seq<ProjectSymbolView>,
    class: Option<Seq<char>>,
    name: Seq<char>,
    from: int,
) -> Option<ProjectSymbolView>
    decreases project.len() - from,
{
    if from >= project.len() {
        None
    } else if symbol_called(project[from], class, name) {
        Some(project[from])
    } else {
        first_called(project, class, name, from + 1)
    }
}

/// How many arguments a signature of the runtime takes.
pub open spec fn runtime_arity(found: RuntimeSignatureView) -> Arity {
    Arity {
        required: required_in(found.parameters),
        maximum: found.parameters.len(),
        variadic: exists|i: int|
            0 <= i < found.parameters.len() && (#[trigger] found.parameters[i]).variadic,
    }
}

/// How many of some parameters are required.
pub open spec fn required_in(parameters: Seq<RuntimeParameterView>) -> nat
    decreases parameters.len(),
{
    if parameters.len() == 0 {
        0
    } else {
        required_in(parameters.drop_last()) + if !parameters.last().optional
            && !parameters.last().variadic {
            1nat
        } else {
            0
        }
    }
}

fn count_runtime(found: &RuntimeSignature) -> (r: ParameterArity)
    ensures
        arity_view(r) == runtime_arity(found@),
{
    let ghost all = found@.parameters;
    let mut required: usize = 0;
    let mut variadic = false;
    let mut i: usize = 0;
    assert(all.take(0) =~= Seq::<RuntimeParameterView>::empty());
    while i < found.parameters.len()
        invariant
            i <= found.parameters@.len(),
            all == found@.parameters,
            required <= i,
            required == required_in(all.take(i as int)),
            variadic == exists|k: int| 0 <= k < i && (#[trigger] all[k]).variadic,
        decreases found.parameters@.len() - i,
    {
        let parameter = &found.parameters[i];
        assert(all[i as int] == parameter@);
        assert(all.take(i + 1).drop_last() =~= all.take(i as int));
        if parameter.variadic {
            variadic = true;
        }
        if !parameter.optional && !parameter.variadic {
            required += 1;
        }
        i += 1;
    }
    assert(all.take(i as int) =~= all);
    ParameterArity { required_count: required, maximum_count: found.parameters.len(), variadic }
}

/// How many arguments a runtime method of a class takes.
pub open spec fn runtime_method_arity<S: SymbolIndex>(
    index: &S,
    class: Option<Seq<char>>,
    name: Seq<char>,
) -> Option<Arity> {
    match class {
        Some(class) => match help::runtime_named(index.runtime_methods_of(class), name, 0) {
            Some(method) => match method.signature {
                Some(found) => Some(runtime_arity(found)),
                None => None,
            },
            None => None,
        },
        None => None,
    }
}

/// How many arguments a call takes: as the method of the bound variable says where there is one,
/// else as the runtime says, else as the project says.
pub open spec fn call_arity<S: SymbolIndex, M: SemanticModel>(
    index: &S,
    model: Option<&M>,
    project: Seq<ProjectSymbolView>,
    bound: Option<usize>,
    class: Option<Seq<char>>,
    name: Seq<char>,
) -> Option<Arity> {
    match (bound, model) {
        (Some(id), Some(model)) => match model.symbol_of(id) {
            Some(symbol) => match symbol.parameters {
                Some(parameters) => Some(signature::shown_arity(parameters)),
                None => None,
            },
            None => None,
        },
        _ => match runtime_method_arity(index, class, name) {
            Some(arity) => Some(arity),
            None => match first_called(project, class, name, 0) {
                Some(symbol) => match symbol.parameters {
                    Some(parameters) => Some(signature::shown_arity(parameters)),
                    None => None,
                },
                None => None,
            },
        },
    }
}

fn counted(parameters: &str) -> (r: ParameterArity)
    ensures
        arity_view(r) == signature::shown_arity(parameters@),
{
    let arity = signature::signature_counts_from_detail(parameters);
    proof {
        lemma_arity_view(parameters@, arity);
    }
    arity
}

fn find_called(project: &Vec<ProjectSymbol>, class: &Option<String>, name: &str) -> (r: Option<
    usize,
>)
    ensures
        match r {
            Some(i) => i < project@.len() && first_called(
                symbols::project_views(project@),
                provider::optional_text(*class),
                name@,
                0,
            ) == Some(project@[i as int]@),
            None => first_called(
                symbols::project_views(project@),
                provider::optional_text(*class),
                name@,
                0,
            ) is None,
        },
{
    let ghost all = symbols::project_views(project@);
    let ghost owner = provider::optional_text(*class);
    let mut start: String = String::from_str("");
    if let Some(class) = class {
        start = class.clone();
        start.append("::");
    }
    let mut i: usize = 0;
    while i < project.len()
        invariant
            i <= project@.len(),
            all == symbols::project_views(project@),
            owner == provider::optional_text(*class),
            owner is Some ==> start@ == owner->0 + "::"@,
            first_called(all, owner, name@, 0) == first_called(all, owner, name@, i as int),
        decreases project@.len() - i,
    {
        let symbol = &project[i];
        assert(all[i as int] == symbol@);
        let fits = text::eq(&symbol.name, name) && match class {
            Some(_) => symbol.kind == ProjectSymbolKind::Method && text::begins(
                &text::chars_of(&symbol.fully_qualified_name),
                &start,
            ),
            None => symbol.kind == ProjectSymbolKind::Function,
        };
        if fits {
            return Some(i);
        }
        i += 1;
    }
    None
}

/// What an optional arity holds.
pub open spec fn optional_arity(arity: Option<ParameterArity>) -> Option<Arity> {
    match arity {
        Some(arity) => Some(arity_view(arity)),
        None => None,
    }
}

fn find_arity<S: SymbolIndex, M: SemanticModel>(
    index: &S,
    model: Option<&M>,
    project: &Vec<ProjectSymbol>,
    bound: Option<usize>,
    class: &Option<String>,
    name: &str,
) -> (r: Option<ParameterArity>)
    ensures
        optional_arity(r) == call_arity(
            index,
            model,
            symbols::project_views(project@),
            bound,
            provider::optional_text(*class),
            name@,
        ),
{
    if let Some(id) = bound {
        if let Some(model) = model {
            return match model.symbol(id) {
                Some(symbol) => match &symbol.parameters {
                    Some(parameters) => Some(counted(parameters)),
                    None => None,
                },
                None => None,
            };
        }
    }
    if let Some(class) = class {
        let methods = index.runtime_methods(class);
        if let Some(i) = help::find_runtime_method(&methods, name) {
            if let Some(found) = &methods[i].signature {
                return Some(count_runtime(found));
            }
        }
    }
    match find_called(project, class, name) {
        Some(i) => match &project[i].parameters {
            Some(parameters) => Some(counted(parameters)),
            None => None,
        },
        None => None,
    }
}

/// The reports on a call by name: on the number of its arguments, and on their types where it is of
/// a method of a bound variable.
pub open spec fn named_reports<S: SymbolIndex, M: SemanticModel>(
    index: &S,
    model: Option<&M>,
    project: Seq<ProjectSymbolView>,
    source: Seq<char>,
    nodes: Seq<SyntaxNodeView>,
    call: int,
    arguments: int,
) -> Seq<ByteDiagnosticView> {
    let open = text::fitting(source, nodes[arguments].start as int) as int;
    let callable = callee(source, open);
    let name = callee_name(callable);
    if name.len() == 0 {
        Seq::empty()
    } else {
        let bound = bound_method(model, source, nodes, call, name);
        let class = callee_class(source, open, callable);
        (match call_arity(index, model, project, bound, class, name) {
            Some(arity) => arity_report(nodes, arguments, arity),
            None => Seq::empty(),
        }) + (match (bound, model) {
            (Some(id), Some(model)) => match model.scope_of(nodes[call].start) {
                Some(scope) => type_reports(model, scope, id, nodes, arguments),
                None => Seq::empty(),
            },
            _ => Seq::empty(),
        })
    }
}

/// The reports on a call.
pub open spec fn call_reports<S: SymbolIndex, M: SemanticModel>(
    index: &S,
    model: Option<&M>,
    project: Seq<ProjectSymbolView>,
    source: Seq<char>,
    nodes: Seq<SyntaxNodeView>,
    call: int,
) -> Seq<ByteDiagnosticView> {
    match arguments_of(nodes, call) {
        None => Seq::empty(),
        Some(arguments) => if creation(nodes[call]) {
            creation_reports(model, source, nodes, call, arguments)
        } else {
            function_reports(model, source, nodes, call, arguments) + named_reports(
                index,
                model,
                project,
                source,
                nodes,
                call,
                arguments,
            )
        },
    }
}

/// The reports on the calls among the first `n` nodes, in the order of the nodes. In the tree of a
/// text that is the order in which the calls begin, an outer call before the ones within it.
pub open spec fn calls_reports<S: SymbolIndex, M: SemanticModel>(
    index: &S,
    model: Option<&M>,
    project: Seq<ProjectSymbolView>,
    source: Seq<char>,
    nodes: Seq<SyntaxNodeView>,
    n: int,
) -> Seq<ByteDiagnosticView>
    decreases n,
{
    if n <= 0 || n > nodes.len() {
        Seq::empty()
    } else {
        calls_reports(index, model, project, source, nodes, n - 1) + if call_node(nodes[n - 1]) {
            call_reports(index, model, project, source, nodes, n - 1)
        } else {
            Seq::empty()
        }
    }
}

/// The calls of a text are inspected in the order in which they begin, an outer call before the ones
/// within it.
pub proof fn law_calls_are_inspected_in_order(
    input: ArgumentInspectionInput,
    earlier: int,
    later: int,
)
    requires
        input.wf(),
        input.syntax is Some,
        0 <= earlier < input.syntax->0@.len(),
        0 <= later < input.syntax->0@.len(),
        call_node(input.syntax->0@[earlier]),
        call_node(input.syntax->0@[later]),
        input.syntax->0@[earlier].start < input.syntax->0@[later].start || syntax::child_of(
            input.syntax->0@[later],
            earlier,
        ),
    ensures
        earlier < later,
{
}

/// The report on a call of a method that what it is called on does not have. Where the type is not
/// known, may be anything or may be nothing, there is none.
pub open spec fn missing_report<M: SemanticModel>(
    model: &M,
    source: Seq<char>,
    nodes: Seq<SyntaxNodeView>,
    call: int,
) -> Seq<ByteDiagnosticView> {
    match (
        syntax::field_child(nodes, call, "object"@, 0),
        syntax::field_child(nodes, call, "name"@, 0),
        model.scope_of(nodes[call].start),
    ) {
        (Some(object), Some(name), Some(scope)) => match model.expression_type(
            scope,
            object as usize,
        ) {
            Some(receiver) => {
                let method = syntax::node_text(source, nodes[name]);
                if receiver.form == TypeForm::Other && !model.has_method(scope, receiver, method) {
                    seq![node_report(nodes[name], "Method `"@ + method + "` not found"@)]
                } else {
                    Seq::empty()
                }
            },
            None => Seq::empty(),
        },
        _ => Seq::empty(),
    }
}

/// The reports on the calls of missing methods among the first `n` nodes.
pub open spec fn missing_reports<M: SemanticModel>(
    model: &M,
    source: Seq<char>,
    nodes: Seq<SyntaxNodeView>,
    n: int,
) -> Seq<ByteDiagnosticView>
    decreases n,
{
    if n <= 0 || n > nodes.len() {
        Seq::empty()
    } else {
        missing_reports(model, source, nodes, n - 1) + if member_call(nodes[n - 1]) {
            missing_report(model, source, nodes, n - 1)
        } else {
            Seq::empty()
        }
    }
}

/// What the inspection of arguments reads: the text, its syntax tree, and the symbols of the
/// project.
#[derive(Debug)]
pub struct ArgumentInspectionInput {
    pub text: String,
    pub syntax: Option<SyntaxTree>,
    pub project_symbols: Vec<ProjectSymbol>,
}

impl ArgumentInspectionInput {
    /// Whether the syntax tree is one of the text: its nodes span whole characters, stand in the
    /// order in which they begin, and each before those that belong to it.
    pub open spec fn wf(&self) -> bool {
        self.syntax is Some ==> {
            &&& syntax::fits(self.syntax->0@, self.text@)
            &&& syntax::in_order(self.syntax->0@)
            &&& syntax::nested(self.syntax->0@)
        }
    }
}

/// The reports of the inspection of arguments; none where the text has no syntax tree.
pub open spec fn argument_reports<S: SymbolIndex, M: SemanticModel>(
    index: &S,
    model: Option<&M>,
    input: ArgumentInspectionInput,
) -> Seq<ByteDiagnosticView> {
    match input.syntax {
        Some(tree) => calls_reports(
            index,
            model,
            symbols::project_views(input.project_symbols@),
            input.text@,
            tree@,
            tree@.len() as int,
        ) + (match model {
            Some(model) => missing_reports(model, input.text@, tree@, tree@.len() as int),
            None => Seq::empty(),
        }),
        None => Seq::empty(),
    }
}

fn inspect_named<S: SymbolIndex, M: SemanticModel>(
    index: &S,
    model: Option<&M>,
    input: &ArgumentInspectionInput,
    s: &[char],
    tree: &SyntaxTree,
    call: usize,
    arguments: usize,
    out: &mut Vec<ByteDiagnostic>,
)
    requires
        s@ == input.text@,
        call < tree@.len(),
        arguments < tree@.len(),
        syntax::fits(tree@, input.text@),
    ensures
        diagnostics::diagnostic_views(final(out)@) == diagnostics::diagnostic_views(old(out)@)
            + named_reports(
            index,
            model,
            symbols::project_views(input.project_symbols@),
            input.text@,
            tree@,
            call as int,
            arguments as int,
        ),
{
    let ghost held = diagnostics::diagnostic_views(out@);
    let ghost none = Seq::<ByteDiagnosticView>::empty();
    assert(held + none =~= held);
    assert(tree@[arguments as int] == tree.nodes@[arguments as int]@);
    assert(tree@[call as int] == tree.nodes@[call as int]@);
    let (open, _) = text::fit(s, tree.nodes[arguments].start);
    let callable = read_callee(s, open);
    let name = read_callee_name(&callable);
    if text::chars_of(&name).len() == 0 {
        return;
    }
    let bound = find_bound_method(model, &input.text, tree, call, &name);
    let class = find_callee_class(&input.text, s, open, &callable);
    let arity = find_arity(index, model, &input.project_symbols, bound, &class, &name);
    let ghost first = match optional_arity(arity) {
        Some(arity) => arity_report(tree@, arguments as int, arity),
        None => none,
    };
    if let Some(arity) = arity {
        report_arity(tree, arguments, arity, out);
    }
    assert(diagnostics::diagnostic_views(out@) =~= held + first);
    let ghost mut second = none;
    if let Some(id) = bound {
        if let Some(model) = model {
            if let Some(scope) = model.scope_id_at(tree.nodes[call].start) {
                emit_project_type_diagnostics(model, scope, id, tree, arguments, out);
                proof {
                    second = type_reports(model, scope, id, tree@, arguments as int);
                }
            }
        }
    }
    assert(diagnostics::diagnostic_views(out@) =~= held + (first + second));
}

fn inspect_call<S: SymbolIndex, M: SemanticModel>(
    index: &S,
    model: Option<&M>,
    input: &ArgumentInspectionInput,
    s: &[char],
    tree: &SyntaxTree,
    call: usize,
    out: &mut Vec<ByteDiagnostic>,
)
    requires
        s@ == input.text@,
        call < tree@.len(),
        syntax::fits(tree@, input.text@),
    ensures
        diagnostics::diagnostic_views(final(out)@) == diagnostics::diagnostic_views(old(out)@)
            + call_reports(
            index,
            model,
            symbols::project_views(input.project_symbols@),
            input.text@,
            tree@,
            call as int,
        ),
{
    let ghost held = diagnostics::diagnostic_views(out@);
    assert(held + Seq::<ByteDiagnosticView>::empty() =~= held);
    let arguments = match find_arguments(tree, call) {
        Some(arguments) => arguments,
        None => {
            return;
        },
    };
    if is_kind(tree, call, "object_creation_expression") {
        inspect_creation(model, &input.text, tree, call, arguments, out);
        return;
    }
    inspect_function(model, &input.text, tree, call, arguments, out);
    inspect_named(index, model, input, s, tree, call, arguments, out);
    proof {
        let first = function_reports(model, input.text@, tree@, call as int, arguments as int);
        let second = named_reports(
            index,
            model,
            symbols::project_views(input.project_symbols@),
            input.text@,
            tree@,
            call as int,
            arguments as int,
        );
        assert((held + first) + second =~= held + (first + second));
    }
}

fn inspect_missing<M: SemanticModel>(
    model: &M,
    source: &str,
    tree: &SyntaxTree,
    call: usize,
    out: &mut Vec<ByteDiagnostic>,
)
    requires
        call < tree@.len(),
        syntax::fits(tree@, source@),
    ensures
        diagnostics::diagnostic_views(final(out)@) == diagnostics::diagnostic_views(old(out)@)
            + missing_report(model, source@, tree@, call as int),
{
    let ghost held = diagnostics::diagnostic_views(out@);
    assert(held + Seq::<ByteDiagnosticView>::empty() =~= held);
    assert(tree@[call as int] == tree.nodes@[call as int]@);
    let object = match tree.child_by_field_name(call, "object") {
        Some(object) => object,
        None => {
            return;
        },
    };
    let name = match tree.child_by_field_name(call, "name") {
        Some(name) => name,
        None => {
            return;
        },
    };
    let scope = match model.scope_id_at(tree.nodes[call].start) {
        Some(scope) => scope,
        None => {
            return;
        },
    };
    if let Some(receiver) = model.infer_ast_expression_type(scope, object) {
        let known = match receiver.form {
            TypeForm::Other => true,
            _ => false,
        };
        if known {
            let method = tree.text_of(source, name);
            if !model.resolves_method(scope, &receiver, &method) {
                let mut message = String::from_str("Method `");
                message.append(&method);
                message.append("` not found");
                put_report(tree, name, message, out);
            }
        }
    }
}

/// Reports the calls whose arguments are too many, too few or of types that do not fit, and the
/// calls of methods that what they are called on does not have.
pub fn compute_argument_inspections<S: SymbolIndex, M: SemanticModel>(
    index: &S,
    model: Option<&M>,
    input: &ArgumentInspectionInput,
) -> (r: Vec<ByteDiagnostic>)
    requires
        input.wf(),
    ensures
        diagnostics::diagnostic_views(r@) == argument_reports(index, model, *input),
{
    let mut out: Vec<ByteDiagnostic> = Vec::new();
    assert(diagnostics::diagnostic_views(out@) =~= Seq::<ByteDiagnosticView>::empty());
    let tree = match &input.syntax {
        Some(tree) => tree,
        None => {
            return out;
        },
    };
    let ghost project = symbols::project_views(input.project_symbols@);
    let s = text::chars_of(&input.text);
    let n: usize = tree.nodes.len();
    let mut i: usize = 0;
    while i < n
        invariant
            i <= n == tree@.len(),
            s@ == input.text@,
            syntax::fits(tree@, input.text@),
            project == symbols::project_views(input.project_symbols@),
            diagnostics::diagnostic_views(out@) == calls_reports(
                index,
                model,
                project,
                input.text@,
                tree@,
                i as int,
            ),
        decreases n - i,
    {
        let ghost held = diagnostics::diagnostic_views(out@);
        if is_call(tree, i) {
            inspect_call(index, model, input, &s, tree, i, &mut out);
        } else {
            assert(held + Seq::<ByteDiagnosticView>::empty() =~= held);
        }
        i += 1;
    }
    let ghost calls = diagnostics::diagnostic_views(out@);
    assert(calls + Seq::<ByteDiagnosticView>::empty() =~= calls);
    if let Some(model) = model {
        let mut k: usize = 0;
        while k < n
            invariant
                k <= n == tree@.len(),
                syntax::fits(tree@, input.text@),
                diagnostics::diagnostic_views(out@) == calls + missing_reports(
                    model,
                    input.text@,
                    tree@,
                    k as int,
                ),
            decreases n - k,
        {
            let ghost before = missing_reports(model, input.text@, tree@, k as int);
            if is_member_call(tree, k) {
                inspect_missing(model, &input.text, tree, k, &mut out);
                proof {
                    let here = missing_report(model, input.text@, tree@, k as int);
                    assert((calls + before) + here =~= calls + (before + here));
                }
            } else {
                assert(before + Seq::<ByteDiagnosticView>::empty() =~= before);
            }
            k += 1;
        }
    }
    out
}

/// Every call whose number of arguments fits what is known of it goes without a report on that
/// number.
pub proof fn law_fitting_calls_are_not_reported(
    nodes: Seq<SyntaxNodeView>,
    arguments: int,
    arity: Arity,
)
    requires
        arity.required <= argument_nodes(nodes, arguments).len(),
        arity.variadic || argument_nodes(nodes, arguments).len() <= arity.maximum,
    ensures
        arity_report(nodes, arguments, arity).len() == 0,
{
}

} // verus!
