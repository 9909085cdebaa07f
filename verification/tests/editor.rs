//! Editing a PHP document: completions, definitions, typing, and what the editor shows.

use ide_core::accept::{
    accept_completion, caret_after_completion, completion_edits, completion_replacement_range,
};
use ide_core::completion::{
    completion_icon, keep_distinct, CompletionItem, CompletionItemKind, Completions, TextEdit,
};
use ide_core::diagnostics::{ByteDiagnostic, DiagnosticSeverity};
use ide_core::edit::{
    auto_indent, backspace_deletes_pair, complete_statement, enter, insert_text_with_pairs,
    should_expand_member_dash, transform_selected_lines, typed_insertion, Typed,
};
use ide_core::find::{FindState, TextInput};
use ide_core::help::native_signature_help_for_text;
use ide_core::imports::composer_import_edit;
use ide_core::input::{
    end, home, input_target, left, marked_range, marked_text_range, replace_in_line, right,
    selected_text_range, tab, text_for_range, written_range, InputTarget, TabAction,
};
use ide_core::lsp::{document_change, DocumentEdit, Position, PositionRange};
use ide_core::native::native_completions_impl;
use ide_core::navigate::{
    definition_query, native_definition_location, resolve_vendor_definition_target,
    vendor_definition_request, DefinitionQuery, Token,
};
use ide_core::php::{ProjectSymbolKind, RuntimeKind};
use ide_core::receiver::{resolve_class_name, resolve_receiver_type};
use ide_core::session::{
    capture_native_inspection_work, delta_stands, file_structure, reformat, DidChange, DidOpen,
    EditorSession, FormattingOutcome, NativeInspectionCapture, NativeInspectionResult, OutlineGuard,
    ProjectIndexState, Reading, Reformat, StructureRequest, SyntaxReport, SyntaxUpdate,
};
use ide_core::signature::{
    matching_paren, project_method_detail, runtime_call_insert_text, runtime_signature_detail,
    split_signature_parameters, strip_snippet_placeholders,
};
use ide_core::symbols::{
    Binding, Place, ProjectSymbol, RuntimeParameter, RuntimeSignature, RuntimeSymbol, VendorType,
    Visibility,
};
use ide_core::table::{BindingScope, BoundVariable, SymbolTable};
use ide_core::utf16::{
    byte_range_to_utf16, encode_column, offset_to_utf16, range_from_utf16, utf16_offset_to_byte,
    PositionEncoding,
};
use ide_core::view::{
    click, context_menu, decorate_line, find_line_key, hover_message, is_link, key_bindings,
    line_caret_shown, menu_moves_caret, status_line, ui_stage_name, Click, EditorAction, GutterTone, LineBackground, LineState,
    UI_STAGE_COMPLETION,
};
use ide_core::widths::{Measuring, WidthCache};

fn symbol(kind: ProjectSymbolKind, fqn: &str, name: &str) -> ProjectSymbol {
    ProjectSymbol {
        name: name.into(),
        fully_qualified_name: fqn.into(),
        kind,
        visibility: Visibility::Public,
        modifiers: Vec::new(),
        parameters: Some("()".into()),
        return_type: None,
        file: format!("{name}.php"),
        start: 3,
        end: 9,
    }
}

fn runtime_function(name: &str) -> RuntimeSymbol {
    RuntimeSymbol {
        name: name.into(),
        fqn: name.into(),
        kind: RuntimeKind::Function,
        is_static: false,
        signature: Some(RuntimeSignature {
            parameters: vec![
                RuntimeParameter {
                    name: "haystack".into(),
                    declared_type: Some("string".into()),
                    optional: false,
                    variadic: false,
                },
                RuntimeParameter {
                    name: "needle".into(),
                    declared_type: None,
                    optional: true,
                    variadic: false,
                },
            ],
            declared_return_type: Some("int".into()),
            phpdoc_return_type: None,
        }),
        origin: "PhpRuntime".into(),
        file: "stubs.php".into(),
        start: 11,
    }
}

fn plain(label: &str) -> CompletionItem {
    CompletionItem {
        label: label.into(),
        detail: None,
        kind: None,
        insert_text: None,
        snippet: false,
        text_edit: None,
        additional_text_edits: Vec::new(),
    }
}

fn variable(name: &str, declaration_end: usize) -> BoundVariable {
    BoundVariable {
        binding: Binding {
            name: name.into(),
            declaration_end,
        },
        class: None,
    }
}

fn scope(start: usize, end: usize, variables: Vec<BoundVariable>) -> BindingScope {
    BindingScope {
        start,
        end,
        variables,
    }
}

fn labels(items: &[CompletionItem]) -> Vec<&str> {
    items.iter().map(|item| item.label.as_str()).collect()
}

#[test]
fn local_bindings_completion_and_accept() {
    let declared = |source: &str, text: &str| source.find(text).unwrap() + text.len();
    let whole = |source: &str, variables| vec![scope(0, source.len() + 1, variables)];
    let first = "<?php $service = new Service(); $serviceFactory = new Factory(); $ser";
    let second = "<?php function handle(Service $service) { $ser; }";
    let third = "<?php function a(Service $service) {} function b() { $ser; }";
    let fourth = "<?php function a() { $ser; $service = new Service(); }";
    let fifth = "<?php $f = function(Service $service) { $ser; };";
    let sixth = "<?php $service = 1; $ser";
    let seventh = "<?php $service = new Service(); Service::$ser";
    for (source, scopes, expected) in [
        (
            first,
            whole(
                first,
                vec![
                    variable("$service", declared(first, "$service = new Service()")),
                    variable("$serviceFactory", declared(first, "new Factory()")),
                ],
            ),
            vec!["$service", "$serviceFactory"],
        ),
        (
            second,
            whole(second, vec![variable("$service", declared(second, "$service"))]),
            vec!["$service"],
        ),
        (third, whole(third, Vec::new()), vec![]),
        (
            fourth,
            whole(fourth, vec![variable("$service", declared(fourth, "new Service()"))]),
            vec![],
        ),
        (
            fifth,
            whole(fifth, vec![variable("$service", declared(fifth, "$service"))]),
            vec!["$service"],
        ),
        (
            sixth,
            whole(sixth, vec![variable("$service", declared(sixth, "$service = 1"))]),
            vec!["$service"],
        ),
        (
            seventh,
            whole(seventh, vec![variable("$service", declared(seventh, "new Service()"))]),
            vec![],
        ),
    ] {
        let mut index = SymbolTable::new();
        index.scopes = scopes;
        let cursor = source.rfind("$ser").unwrap() + 4;
        let batch = native_completions_impl(&index, source, cursor);
        assert_eq!(labels(&batch.items), expected, "{source}");
        if !expected.is_empty() {
            let range = completion_replacement_range(source, None, cursor);
            assert_eq!(range, cursor - 4..cursor);
            let accepted = accept_completion(source, &batch.items[0], range);
            let mut result = source.to_owned();
            result.replace_range(accepted.edit.start..accepted.edit.end, &accepted.edit.new_text);
            let mut wanted = source.to_owned();
            wanted.replace_range(cursor - 4..cursor, expected[0]);
            assert_eq!(result, wanted);
        }
    }
}

#[test]
fn local_bindings_preserve_member_new_static_inheritance() {
    let mut index = SymbolTable::new();
    let mut make = symbol(ProjectSymbolKind::Method, "Service::make", "make");
    make.modifiers.push("static".into());
    index.project = vec![
        symbol(ProjectSymbolKind::Class, "Service", "Service"),
        symbol(ProjectSymbolKind::Method, "Service::run", "run"),
        make,
        symbol(ProjectSymbolKind::Interface, "Logger", "Logger"),
    ];
    for (suffix, expected) in [
        ("$service->", "run"),
        ("new Serv", "Service"),
        ("Service::", "make"),
        ("class Child extends Serv", "Service"),
        ("class Child implements Log", "Logger"),
        ("interface Child extends Log", "Logger"),
    ] {
        let source = format!(
            "<?php class Service {{ public function run() {{}} public static function make() {{}} }} interface Logger {{}} $service = new Service(); {suffix}"
        );
        index.scopes = vec![scope(
            0,
            source.len() + 1,
            vec![BoundVariable {
                class: Some("Service".into()),
                ..variable("$service", 0)
            }],
        )];
        let batch = native_completions_impl(&index, &source, source.len());
        assert!(
            batch.items.iter().any(|item| item.label == expected),
            "{suffix}: {:?}",
            batch.items
        );
        assert!(batch
            .items
            .iter()
            .all(|item| item.kind != Some(CompletionItemKind::Variable)));
    }
}

/// The token that holds a byte offset.
fn token_at(source: &str, offset: usize) -> Token {
    let is_name = |c: char| c.is_alphanumeric() || c == '_';
    let start = source[..offset]
        .char_indices()
        .rev()
        .take_while(|(_, c)| is_name(*c))
        .last()
        .map_or(offset, |(at, _)| at);
    let end = source[offset..]
        .find(|c: char| !is_name(c))
        .map_or(source.len(), |size| offset + size);
    Token {
        text: source[start..end].into(),
        start,
        end,
        keyword: false,
    }
}

fn query_at(source: &str, offset: usize) -> Option<DefinitionQuery> {
    definition_query(&SymbolTable::new(), source, &token_at(source, offset))
}

#[test]
fn definition_query_uses_method_at_real_editor_cursor() {
    let source = "<?php\nnamespace Omegaalfa\\HttpClient\\Http;\nuse Omegaalfa\\FiberEventLoop\\Future;\nfunction await(Future $future): mixed\n{\n    return $future->await();\n}\n";
    let query = query_at(source, source.rfind("await").unwrap() + 2);
    assert!(
        matches!(
            &query,
            Some(DefinitionQuery::Method {
                owner_fqn,
                name,
                is_static: false,
                ..
            }) if owner_fqn == "Omegaalfa\\FiberEventLoop\\Future" && name == "await"
        ),
        "unexpected definition query: {query:?}"
    );
}

#[test]
fn definition_query_uses_declared_fqn_for_this_receiver() {
    let source = "<?php\nnamespace Omegaalfa\\FiberEventLoop;\nclass Future {\n    protected $loop;\n    public function await(): mixed {\n        $this->loop->next();\n    }\n}\n";
    let query = query_at(source, source.rfind("loop->next").unwrap());
    assert!(
        matches!(
            &query,
            Some(DefinitionQuery::Method { owner_fqn, name, .. })
                if owner_fqn == "Omegaalfa\\FiberEventLoop\\Future" && name == "loop"
        ),
        "unexpected $this receiver query: {query:?}"
    );
}

#[test]
fn definition_query_resolves_trait_members_and_imported_new_types() {
    let source = "<?php\nnamespace Omegaalfa\\FiberEventLoop\\Traits;\nuse Omegaalfa\\FiberEventLoop\\Future;\ntrait FiberManagerTrait\n{\n    protected int $nextId = 1;\n    protected function generateId(): int\n    {\n        return $this->nextId++;\n    }\n    public function defer(callable $callable): int\n    {\n        $id = $this->generateId();\n        return $id;\n    }\n    public function async(callable $callable): Future\n    {\n        $future = new Future($this);\n        return $future;\n    }\n}\n";
    let assert_method = |offset: usize, name: &str| {
        let query = query_at(source, offset);
        assert!(
            matches!(
                &query,
                Some(DefinitionQuery::Method { owner_fqn, name: actual, .. })
                    if owner_fqn == "Omegaalfa\\FiberEventLoop\\Traits\\FiberManagerTrait"
                        && actual == name
            ),
            "unexpected trait query for {name}: {query:?}"
        );
    };
    let generate = source.find("$this->generateId").unwrap() + "$this->".len();
    assert_method(generate, "generateId");
    let next_id = source.find("$this->nextId").unwrap() + "$this->".len();
    assert_method(next_id, "nextId");

    let query = query_at(source, source.find("new Future").unwrap() + "new ".len() + 2);
    assert!(
        matches!(
            &query,
            Some(DefinitionQuery::Name { fqn })
                if fqn == "Omegaalfa\\FiberEventLoop\\Future"
        ),
        "unexpected imported type query: {query:?}"
    );
}

#[test]
fn definition_query_does_not_treat_new_rhs_after_member_assignment_as_method() {
    let source = "<?php\nnamespace Omegaalfa\\HttpClient\\Http;\nuse Omegaalfa\\FiberEventLoop\\FiberEventLoop;\nfinal class AsyncHttpClient\n{\n    private FiberEventLoop $loop;\n    public function __construct(?FiberEventLoop $loop = null): void\n    {\n        $this->loop = $loop ?? new FiberEventLoop();\n    }\n}\n";
    let query = query_at(source, source.rfind("FiberEventLoop();").unwrap() + 2);
    assert!(
        matches!(
            &query,
            Some(DefinitionQuery::Name { fqn })
                if fqn == "Omegaalfa\\FiberEventLoop\\FiberEventLoop"
        ),
        "unexpected new-expression query: {query:?}"
    );
}

#[test]
fn a_keyword_has_no_definition_and_a_method_asks_its_package() {
    let source = "<?php return 1;";
    let mut token = token_at(source, 8);
    token.keyword = true;
    assert_eq!(definition_query(&SymbolTable::new(), source, &token), None);
    let request = vendor_definition_request(DefinitionQuery::Method {
        owner_fqn: "A\\B".into(),
        name: "run".into(),
        is_static: true,
        chain: Vec::new(),
    })
    .unwrap();
    assert_eq!(request.fqn, "A\\B");
    assert_eq!(request.member.as_deref(), Some("run"));
    assert!(request.is_static);
    assert_eq!(vendor_definition_request(DefinitionQuery::Function), None);
}

#[test]
fn a_class_of_the_project_is_found_where_it_is_declared() {
    let source = "<?php\nnew Service();\n";
    let mut index = SymbolTable::new();
    index
        .project
        .push(symbol(ProjectSymbolKind::Class, "Service", "Service"));
    let token = token_at(source, source.find("Service").unwrap() + 1);
    assert_eq!(
        native_definition_location(&index, source, &token),
        Some(Place {
            file: "Service.php".into(),
            start: 3
        })
    );
}

#[test]
fn a_busy_project_hides_the_classes_of_the_runtime() {
    let source = "<?php\nnew Closure();\n";
    let mut index = SymbolTable::new();
    let mut class = runtime_function("Closure");
    class.kind = RuntimeKind::Class;
    index.runtime.push(class);
    index.runtime.push(runtime_function("strlen"));
    let token = token_at(source, source.find("Closure").unwrap() + 1);
    assert!(native_definition_location(&index, source, &token).is_some());
    index.project_busy = true;
    assert_eq!(native_definition_location(&index, source, &token), None);
    let source = "<?php\nstrlen();\n";
    let token = token_at(source, source.find("strlen").unwrap() + 1);
    assert!(native_definition_location(&index, source, &token).is_some());
}

#[test]
fn a_package_class_is_found_by_its_symbols_or_its_file() {
    let class = symbol(ProjectSymbolKind::Class, "Acme\\FiberEventLoop", "FiberEventLoop");
    let method = symbol(ProjectSymbolKind::Method, "Acme\\FiberEventLoop::run", "run");
    assert_eq!(
        resolve_vendor_definition_target(&vec![method.clone(), class], None),
        Some(("FiberEventLoop.php".into(), 3..9))
    );
    assert_eq!(
        resolve_vendor_definition_target(&vec![method], Some("vendor/a.php".into())),
        Some(("vendor/a.php".into(), 0..0))
    );
    assert_eq!(resolve_vendor_definition_target(&Vec::new(), None), None);
}

#[test]
fn types_of_receivers_are_read_from_the_document() {
    let mut index = SymbolTable::new();
    index
        .project
        .push(symbol(ProjectSymbolKind::Class, "App\\Service", "Service"));
    let document = "<?php\nnamespace App;\nfunction f(Service $service) {\n    $service->";
    assert_eq!(
        resolve_receiver_type(&index, "$service", document, document).as_deref(),
        Some("App\\Service")
    );
    assert_eq!(resolve_class_name(&index, "Service", document), "App\\Service");
}

#[test]
fn classes_of_packages_bring_their_import() {
    let source = "<?php\nnamespace App;\n\nnew Cli";
    let mut index = SymbolTable::new();
    index.vendor_types.push(VendorType {
        short_name: "Client".into(),
        fqn: "Vendor\\Http\\Client".into(),
        kind: ProjectSymbolKind::Class,
    });
    let batch = native_completions_impl(&index, source, source.len());
    let item = batch
        .items
        .iter()
        .find(|item| item.label == "Client")
        .expect("package class");
    assert_eq!(item.additional_text_edits.len(), 1);
    assert!(item.additional_text_edits[0]
        .new_text
        .contains("use Vendor\\Http\\Client;"));
    assert_eq!(batch.new_prefix, Some(source.len() - 3..source.len()));
}

#[test]
fn imports_are_put_behind_the_others_and_never_twice() {
    let source = "<?php\nnamespace App;\nuse A\\B;\n\nclass C {}\n";
    let edit = composer_import_edit(source, "Vendor\\Thing", source.len()).unwrap();
    assert_eq!(edit.start, edit.end);
    let mut result = source.to_owned();
    result.insert_str(edit.start, &edit.new_text);
    assert!(result.contains("use A\\B;\nuse Vendor\\Thing;\n"));
    assert_eq!(composer_import_edit(source, "A\\B", source.len()), None);
    assert_eq!(composer_import_edit(source, "App\\Own", source.len()), None);
}

#[test]
fn an_accepted_method_is_called() {
    let source = "<?php $a->ru";
    let mut item = plain("run");
    item.kind = Some(CompletionItemKind::Method);
    let accepted = accept_completion(source, &item, 10..12);
    assert!(accepted.call_like);
    assert_eq!(accepted.edit.new_text, "run()");
    let edits = completion_edits(item, &accepted);
    assert_eq!(edits.len(), 1);
    let updated = "<?php $a->run()";
    assert_eq!(
        caret_after_completion(updated, 10, "run()", true),
        Some(updated.len() - 1)
    );
}

#[test]
fn snippets_lose_their_placeholders() {
    assert_eq!(strip_snippet_placeholders("run(${1:value}, $2)$0"), "run(value, )");
    assert_eq!(strip_snippet_placeholders("plain"), "plain");
}

#[test]
fn distinct_completions_stay_and_the_first_is_selected() {
    let mut completions = Completions {
        items: Vec::new(),
        selected: 4,
    };
    completions.set_completions(vec![plain("a"), plain("b"), plain("a")]);
    assert_eq!(labels(&completions.items), vec!["a", "b"]);
    assert_eq!(completions.selected, 0);
    let mut other = plain("a");
    other.detail = Some("Project".into());
    assert_eq!(keep_distinct(vec![plain("a"), other], true).len(), 2);
    assert_ne!(
        completion_icon(Some(CompletionItemKind::Method)),
        completion_icon(Some(CompletionItemKind::Class))
    );
}

#[test]
fn signatures_are_shown_and_split() {
    let function = runtime_function("strpos");
    let detail = runtime_signature_detail(&function);
    assert!(detail.contains("string $haystack"));
    assert!(detail.contains("int"));
    assert!(runtime_call_insert_text(&function).unwrap().starts_with("strpos("));
    assert_eq!(
        split_signature_parameters("int $a, array $b = [1, 2], $c = 'x,y'"),
        vec!["int $a", " array $b = [1, 2]", " $c = 'x,y'"]
    );
    assert_eq!(matching_paren("f(a(b), ')')", 1), Some(11));
    assert_eq!(matching_paren("f(a", 1), None);
    let mut method = symbol(ProjectSymbolKind::Method, "A::run", "run");
    method.parameters = Some("(int $a)".into());
    method.return_type = Some("string".into());
    assert!(project_method_detail(&method).contains("run(int $a): string"));
}

#[test]
fn help_is_given_within_the_call_of_a_runtime_function() {
    let mut index = SymbolTable::new();
    index.runtime.push(runtime_function("strpos"));
    let source = "<?php strpos($a, ";
    let help = native_signature_help_for_text(&index, source, source.len()).unwrap();
    assert!(help.contains("strpos"));
    assert!(help.contains("$needle"));
    assert_eq!(
        native_signature_help_for_text(&index, "<?php nothing($a, ", 18),
        None
    );
}

#[test]
fn typing_closes_pairs_and_steps_over_them() {
    assert_eq!(insert_text_with_pairs("ab", 1, "{"), Typed::InsertPair('}'));
    assert_eq!(insert_text_with_pairs("a)b", 1, ")"), Typed::StepOver);
    assert_eq!(insert_text_with_pairs("ab", 1, ")"), Typed::Insert);
    assert_eq!(insert_text_with_pairs("ab", 1, "xy"), Typed::Insert);
    assert!(backspace_deletes_pair("f()", 2));
    assert!(!backspace_deletes_pair("f(x", 2));
}

#[test]
fn a_new_line_keeps_and_deepens_the_indent() {
    assert_eq!(auto_indent("    if (x) {\n"), "        ");
    assert_eq!(auto_indent("  y;"), "  ");
    let broken = enter("f() {}", 5);
    assert!(broken.text.starts_with('\n'));
    assert!(broken.caret_back > 0);
    assert_eq!(enter("    x", 5).text, "\n    ");
}

#[test]
fn indenting_lines_is_undone_by_outdenting_them() {
    let source = "a\nb\nc";
    let edit = transform_selected_lines(source, 0..3, true).unwrap();
    let mut indented = source.to_owned();
    indented.replace_range(edit.start..edit.end, &edit.new_text);
    assert_eq!(indented, "    a\n    b\nc");
    let back = transform_selected_lines(&indented, 0..8, false).unwrap();
    let mut again = indented.clone();
    again.replace_range(back.start..back.end, &back.new_text);
    assert_eq!(again, source);
}

#[test]
fn a_statement_is_closed_once() {
    assert_eq!(complete_statement("$a = 1\nx", 6), Some(6));
    assert_eq!(complete_statement("$a = 1\nx", 3), None);
    assert_eq!(complete_statement("$a = 1;\nx", 7), None);
}

#[test]
fn a_dash_behind_a_known_object_becomes_an_arrow() {
    let mut index = SymbolTable::new();
    index
        .project
        .push(symbol(ProjectSymbolKind::Class, "Service", "Service"));
    let source = "<?php function f(Service $service) { $service";
    assert!(should_expand_member_dash(&index, source, source.len()));
    assert_eq!(
        typed_insertion(&index, source, source.len(), &(3..3), "-"),
        "->"
    );
    assert_eq!(
        typed_insertion(&index, source, source.len(), &(3..4), "-"),
        "-"
    );
    assert!(!should_expand_member_dash(&index, "<?php 1 ", 8));
}

#[test]
fn the_caret_moves_by_characters_and_lines() {
    let content = "aé\nxyz";
    assert_eq!(right(content, None, 1), 3);
    assert_eq!(left(content, None, 3), 1);
    assert_eq!(left(content, None, 0), 0);
    assert_eq!(right(content, None, content.len()), content.len());
    assert_eq!(left(content, Some(1..4), 4), 1);
    assert_eq!(right(content, Some(1..4), 4), 4);
    assert_eq!(home(content, 5), 4);
    assert_eq!(end(content, 1), 3);
    assert_eq!(end(content, 5), content.len());
    assert_eq!(tab(true, true), TabAction::AcceptCompletion);
    assert_eq!(tab(false, true), TabAction::IndentSelection);
    assert_eq!(tab(false, false), TabAction::InsertSpaces);
}

#[test]
fn the_input_method_counts_in_utf16_units() {
    assert_eq!(input_target(true, true, false), InputTarget::FindLine);
    assert_eq!(input_target(true, false, true), InputTarget::ReplaceLine);
    assert_eq!(input_target(false, true, true), InputTarget::Document);
    let mut line = TextInput {
        query: "a😀b".into(),
        selection_anchor: 5,
        selection_active: 1,
    };
    let selection = selected_text_range(&line);
    assert_eq!(selection.range, 1..3);
    assert!(selection.reversed);
    assert_eq!(text_for_range("a😀b", 1..3), "😀");
    assert!(replace_in_line(&mut line, Some(1..3), "x"));
    assert_eq!(line.query, "axb");
    assert_eq!(line.selection_active, 2);
    assert!(!replace_in_line(&mut line, None, ""));
    assert_eq!(written_range("a😀b", Some(1..3), Some(0..1), 2..2), 1..5);
    assert_eq!(written_range("a😀b", None, Some(0..1), 2..2), 0..1);
    assert_eq!(written_range("a😀b", None, None, 2..2), 2..2);
    assert_eq!(marked_range(2, "é"), Some(2..4));
    assert_eq!(marked_range(2, ""), None);
    assert_eq!(
        marked_text_range("a😀b", InputTarget::Document, Some(1..5)),
        Some(1..3)
    );
    assert_eq!(
        marked_text_range("a😀b", InputTarget::FindLine, Some(1..5)),
        None
    );
}

#[test]
fn places_are_found_again_in_utf16() {
    let content = "é😀x";
    for (at, _) in content.char_indices() {
        let units = offset_to_utf16(content, at);
        assert_eq!(utf16_offset_to_byte(content, units), at);
    }
    assert_eq!(range_from_utf16(content, &(1..3)), 2..6);
    assert_eq!(byte_range_to_utf16(content, 2..6), 1..3);
    assert_eq!(encode_column(content, 6, PositionEncoding::Utf8), 6);
    assert_eq!(encode_column(content, 6, PositionEncoding::Utf16), 3);
    assert_eq!(encode_column(content, 6, PositionEncoding::Utf32), 2);
}

fn report(start: usize, end: usize, severity: DiagnosticSeverity, message: &str) -> ByteDiagnostic {
    ByteDiagnostic {
        range: start..end,
        severity: Some(severity),
        message: message.into(),
    }
}

#[test]
fn a_line_shows_its_gravest_report() {
    let state = LineState {
        line: 2,
        start: 10,
        end: 20,
        selection: Some(5..15),
        cursor: 15,
        cursor_line: 2,
        caret_shown: true,
        hover: None,
        navigated_line: None,
    };
    let reports = vec![
        report(12, 14, DiagnosticSeverity::Warning, "careful"),
        report(13, 16, DiagnosticSeverity::Error, "wrong"),
        report(40, 41, DiagnosticSeverity::Error, "elsewhere"),
    ];
    let shown = decorate_line(&state, &reports);
    assert_eq!(shown.severity, Some(DiagnosticSeverity::Error));
    assert_eq!(shown.gutter, GutterTone::Error);
    assert_eq!(shown.background, LineBackground::Active);
    assert_eq!(shown.caret, None);
    assert_eq!(shown.selected, Some(0..5));
    let unselected = LineState {
        selection: None,
        ..state
    };
    assert_eq!(decorate_line(&unselected, &reports).caret, Some(5));
    assert_eq!(
        hover_message(&reports, 12).as_deref(),
        Some("careful\nAxiom PHP Parser")
    );
    assert_eq!(hover_message(&reports, 30), None);
    assert_eq!(status_line(&Some("busy".into()), &reports).as_deref(), Some("busy"));
    assert_eq!(status_line(&None, &Vec::new()), None);
}

#[test]
fn clicks_select_words_and_lines_or_move_the_caret() {
    let content = "hello world";
    assert_eq!(click(content, 2, true, false, 1), Click::GoToDefinition);
    assert_eq!(click(content, 2, false, false, 3), Click::SelectLine);
    assert_eq!(click(content, 2, false, false, 2), Click::SelectWord(0..5));
    assert_eq!(click(content, 2, false, true, 1), Click::ExtendSelection);
    assert_eq!(click(content, 2, false, false, 1), Click::MoveCaret);
    assert!(is_link("name", "Service"));
    assert!(!is_link("string", "Service"));
    assert!(!menu_moves_caret(Some(1..4), 2));
    assert!(menu_moves_caret(Some(1..4), 4));
    assert!(menu_moves_caret(None, 2));
}

#[test]
fn keys_are_bound_once_in_each_context() {
    let bindings = key_bindings();
    assert!(bindings
        .iter()
        .any(|binding| binding.action == EditorAction::Definition));
    for (index, binding) in bindings.iter().enumerate() {
        assert!(!bindings[..index]
            .iter()
            .any(|other| other.keys == binding.keys && other.context == binding.context));
    }
    assert_eq!(ui_stage_name(UI_STAGE_COMPLETION), "completion");
}

#[test]
fn an_edit_makes_older_inspections_stale() {
    let mut session = EditorSession::from_document(5, "<?php ", None);
    let generation = session.schedule_native_inspections();
    assert!(session.inspection_is_current(5, generation));
    let actions = session.after_edit(&SymbolTable::new(), "<?php $a->", 10, 0, 1, true, None, Some(PositionEncoding::Utf16), None);
    assert!(!session.inspection_is_current(5, generation));
    assert!(session.inspection_is_current(5, actions.inspection_generation));
    assert!(actions.request_completion);
    assert!(actions.did_change.is_some());
    assert!(!session.poll_native_inspection_results(vec![NativeInspectionResult {
        document_session: 5,
        generation,
        diagnostics: vec![report(0, 1, DiagnosticSeverity::Error, "old")],
    }]));
    assert!(session.poll_native_inspection_results(vec![NativeInspectionResult {
        document_session: 5,
        generation: actions.inspection_generation,
        diagnostics: vec![report(0, 1, DiagnosticSeverity::Error, "new")],
    }]));
    assert_eq!(session.diagnostics.combined()[0].message, "new");
}

/// What a document becomes by a reply of the formatter, made for it in a session and a generation.
fn formatted_by(
    session: &mut EditorSession,
    document: &str,
    request: (u64, u64),
    edits: usize,
    formatted: &str,
    cursor: usize,
) -> (String, Option<usize>) {
    let applied = session.apply_formatting(
        request.0,
        request.1,
        edits,
        formatted,
        cursor,
        &SymbolTable::new(),
        0,
        1,
        true,
        None,
        None,
        None,
    );
    match applied {
        Some(applied) => (formatted.to_owned(), Some(applied.caret)),
        None => (document.to_owned(), None),
    }
}

#[test]
fn stale_formatting_response_does_not_replace_newer_document_text() {
    let mut session = EditorSession::from_document(5, "value\n", None);
    let request = (session.document_session, session.edit_generation);
    let document = "value!\n";
    session.after_edit(&SymbolTable::new(), document, 6, 0, 1, true, None, None, None);
    let (content, caret) = formatted_by(&mut session, document, request, 1, "formatted!\n", 6);
    assert_eq!(content, "value!\n");
    assert_eq!(caret, None);
    assert_eq!(session.last_lsp_text, "value!\n");
    assert_eq!(session.status, None);
    assert_eq!(
        session.formatting_outcome(request.0, request.1, 1),
        FormattingOutcome::Stale
    );
    assert_eq!(FormattingOutcome::Stale.status(), None);
}

#[test]
fn current_formatting_response_is_applied() {
    let mut session = EditorSession::from_document(5, "value\n", None);
    let request = (session.document_session, session.edit_generation);
    assert_eq!(
        session.formatting_outcome(request.0, request.1, 0),
        FormattingOutcome::NoChanges
    );
    assert_eq!(
        session.formatting_outcome(request.0, request.1, 1),
        FormattingOutcome::Apply
    );
    let (content, caret) = formatted_by(&mut session, "value\n", request, 1, "formatted\n", 0);
    assert_eq!(content, "formatted\n");
    assert_eq!(caret, Some(0));
    assert_eq!(session.last_lsp_text, "formatted\n");
    assert_eq!(session.edit_generation, 1);
    assert_eq!(session.status.as_deref(), Some("Code reformatted"));
    assert_eq!(FormattingOutcome::Apply.status(), Some("Code reformatted"));
}

#[test]
fn a_document_is_formatted_by_the_server_or_natively() {
    assert_eq!(reformat(true, true, "x", 0), Reformat::AskServer);
    assert_eq!(reformat(false, false, "x", 0), Reformat::Unavailable);
    assert_eq!(
        reformat(false, true, "<?php\n$a=1;\n", 12),
        Reformat::Replace {
            formatted: "<?php\n$a = 1;\n".into(),
            caret: 12
        }
    );
    assert_eq!(
        reformat(false, true, "<?php\n$a = 1;\n", 0),
        Reformat::NoChanges
    );
}

#[test]
fn an_outline_leads_only_into_the_document_it_was_made_for() {
    let session = EditorSession::from_document(5, "text", None);
    let guard = OutlineGuard {
        session: 5,
        revision: 2,
        path: "a.php".into(),
    };
    assert_eq!(
        session.finish_outline("a.php", 2, 10, &guard, Some(3..6)),
        Some(3)
    );
    assert_eq!(session.finish_outline("a.php", 3, 10, &guard, Some(3..6)), None);
    assert_eq!(session.finish_outline("a.php", 2, 5, &guard, Some(3..6)), None);
    assert_eq!(
        file_structure(true, true, Some("text"), "text", true),
        StructureRequest::Shown
    );
    assert_eq!(
        file_structure(true, true, Some("old"), "text", true).status(),
        Some("File Structure: waiting for indexing; retry shortly")
    );
    assert_eq!(
        file_structure(true, false, None, "text", true),
        StructureRequest::Unavailable
    );
    assert_eq!(
        file_structure(false, true, None, "text", true),
        StructureRequest::Ignored
    );
}

#[test]
fn edits_are_taken_from_the_completion_itself() {
    let mut item = plain("run");
    item.text_edit = Some(TextEdit {
        start: 1,
        end: 2,
        new_text: "run()".into(),
    });
    let accepted = accept_completion("abc", &item, 0..3);
    assert_eq!(accepted.edit.start, 1);
    assert_eq!(accepted.edit.end, 2);
    assert_eq!(accepted.edit.new_text, "run()");
}

#[test]
fn the_widest_line_is_known_while_lines_are_edited() {
    let mut cache = WidthCache::new();
    assert_eq!(cache.begin_frame(3, 0), Measuring::AllLines);
    cache.measured_all(&vec![10, 30, 30]);
    assert_eq!(cache.widest, Some(1));
    assert_eq!(cache.content_width(0), 30);
    assert_eq!(cache.begin_frame(3, 0), Measuring::Nothing);
    cache.edit(0);
    assert_eq!(cache.begin_frame(3, 0), Measuring::CursorLine);
    cache.measured_line(0, 40);
    assert_eq!(cache.widest, Some(0));
    assert_eq!(cache.content_width(0), 40);
    cache.edit(0);
    assert_eq!(cache.begin_frame(3, 0), Measuring::AllLines);
    assert_eq!(cache.begin_frame(4, 0), Measuring::AllLines);
    cache.measured_all(&Vec::new());
    assert_eq!(cache.content_width(7), 7);
}

#[test]
fn the_menu_offers_what_can_be_done() {
    let menu = context_menu(false, true, true);
    let enabled = |label: &str| {
        menu.iter()
            .find(|entry| entry.label == label)
            .map(|entry| entry.enabled)
    };
    assert_eq!(enabled("Cut"), Some(false));
    assert_eq!(enabled("Paste"), Some(true));
    assert_eq!(enabled("Find Usages"), Some(true));
    assert!(context_menu(true, true, false)
        .iter()
        .any(|entry| entry.label == "Find Usages" && !entry.enabled));
    assert_eq!(find_line_key(true, "v"), Some(EditorAction::FindPaste));
    assert_eq!(find_line_key(false, "v"), None);
    assert_eq!(find_line_key(true, "q"), None);
}

#[test]
fn clicks_in_a_line_select_in_it() {
    let mut line = TextInput {
        query: "one two".into(),
        selection_anchor: 0,
        selection_active: 0,
    };
    assert!(line_caret_shown(true, true, &line));
    line.click_at(5, 2, false);
    assert_eq!(line.selection(), 4..7);
    assert!(!line_caret_shown(true, true, &line));
    line.click_at(1, 1, true);
    assert_eq!(line.selection(), 1..4);
    line.click_at(2, 1, false);
    assert_eq!(line.selection(), 2..2);
    let mut find = FindState::new();
    assert!(!find.toggle_replace(false));
    assert!(find.replace_expanded);
    assert!(find.toggle_replace(true));
}

#[test]
fn completions_are_gone_through_within_their_bounds() {
    let mut session = EditorSession::from_document(1, "", None);
    assert!(!session.select_next_completion());
    session
        .completions
        .set_completions(vec![plain("a"), plain("b")]);
    assert!(session.select_next_completion());
    assert!(session.select_next_completion());
    assert_eq!(session.completions.selected, 1);
    assert!(session.select_previous_completion());
    assert!(session.select_previous_completion());
    assert_eq!(session.completions.selected, 0);
}

#[test]
fn inspections_begin_once_the_index_is_ready() {
    let mut session = EditorSession::from_document(1, "<?php", None);
    assert_eq!(session.maybe_schedule_initial_native_inspections(false), None);
    let generation = session
        .maybe_schedule_initial_native_inspections(true)
        .expect("first inspection");
    assert!(session.inspection_is_current(1, generation));
    assert_eq!(session.maybe_schedule_initial_native_inspections(true), None);
    let capture = |state| capture_native_inspection_work(state, "<?php", None, "a.php", 1, 2);
    assert!(matches!(
        capture(ProjectIndexState::Busy),
        NativeInspectionCapture::RetryLockBusy
    ));
    assert!(matches!(
        capture(ProjectIndexState::Loading),
        NativeInspectionCapture::Unavailable
    ));
    let class = symbol(ProjectSymbolKind::Class, "App\\A", "A");
    let constant = symbol(ProjectSymbolKind::Constant, "App\\B", "B");
    match capture(ProjectIndexState::Ready(vec![class, constant])) {
        NativeInspectionCapture::Ready(work) => {
            assert!(work.unknown_class.project_classes.contains(&"App\\A".to_owned()));
            assert_eq!(
                work.unknown_constant.known_constants,
                vec![("B".to_owned(), "App\\B".to_owned())]
            );
            assert_eq!(work.duplicate_class.declarations.len(), 1);
            assert_eq!(work.generation, 2);
        }
        other => panic!("unexpected capture: {other:?}"),
    }
}

#[test]
fn formatted_documents_keep_the_caret_and_say_so() {
    let mut editor = EditorSession::from_document(3, "value\n", None);
    let stale = formatted_by(&mut editor, "value\n", (4, 0), 1, "other\n", 2);
    assert_eq!(stale, ("value\n".into(), None));
    assert_eq!(editor.status, None);
    let same = formatted_by(&mut editor, "value\n", (3, 0), 0, "value\n", 2);
    assert_eq!(same, ("value\n".into(), None));
    assert_eq!(editor.status.as_deref(), Some("Formatter returned no changes"));
    let done = formatted_by(&mut editor, "value\n", (3, 0), 1, "v\n", 5);
    assert_eq!(done, ("v\n".into(), Some(2)));
    assert_eq!(editor.status.as_deref(), Some("Code reformatted"));
}

fn parsed(message: &str, failure: Option<&str>) -> Option<SyntaxUpdate> {
    Some(SyntaxUpdate {
        reports: vec![SyntaxReport {
            range: 6..9,
            message: message.into(),
        }],
        failure: failure.map(str::to_owned),
    })
}

#[test]
fn the_reports_by_the_syntax_follow_the_text() {
    let mut session = EditorSession::from_document(1, "<?php (", parsed("missing )", None));
    assert_eq!(
        session.diagnostics.native_syntax,
        vec![report(6, 9, DiagnosticSeverity::Error, "missing )")]
    );
    assert_eq!(session.diagnostics.combined().len(), 1);
    assert_eq!(session.status, None);
    session.after_edit(
        &SymbolTable::new(),
        "<?php [",
        7,
        0,
        1,
        true,
        None,
        None,
        parsed("missing ]", None),
    );
    assert_eq!(session.diagnostics.native_syntax[0].message, "missing ]");
    session.sync_syntax_text(parsed("missing ]", Some("cancelled")));
    assert_eq!(session.diagnostics.native_syntax.len(), 1);
    assert_eq!(
        session.status.as_deref(),
        Some("Falha ao atualizar sintaxe PHP: cancelled")
    );
    assert_eq!(session.set_project_symbols(true, None), Some(2));
    assert!(session.diagnostics.combined().is_empty());
    assert_eq!(
        session.status.as_deref(),
        Some("Falha ao atualizar sintaxe PHP: cancelled")
    );
}

#[test]
fn a_parser_keeps_an_edit_only_where_it_holds_the_text_then() {
    assert!(delta_stands(Some("<?php 1;"), "<?php 1;"));
    assert!(!delta_stands(Some("<?php 2;"), "<?php 1;"));
    assert!(!delta_stands(None, "<?php 1;"));
}

#[test]
fn what_an_input_method_writes_stays_marked() {
    let mut session = EditorSession::from_document(1, "ab", None);
    let selected =
        session.replace_and_mark_text_in_range("a\u{1f600}b", 1, "\u{1f600}", Some(1..3), None);
    assert_eq!(session.pointer.marked, Some(1..5));
    assert_eq!(selected, Some(2..6));
    assert_eq!(
        session.replace_and_mark_text_in_range("ab", 1, "", None, parsed("x", None)),
        None
    );
    assert_eq!(session.pointer.marked, None);
    assert_eq!(session.diagnostics.native_syntax.len(), 1);
}

#[test]
fn a_document_that_is_moved_is_opened_anew() {
    let mut session = EditorSession::from_document(1, "old", None);
    assert_eq!(
        session.did_open(),
        DidOpen {
            version: 1,
            text: "old".into()
        }
    );
    session.sync_lsp_text("new", None, None);
    assert_eq!(session.lsp_version, 2);
    assert!(!session.relocate_path(false, "newer"));
    assert_eq!(session.lsp_version, 2);
    assert_eq!(session.last_lsp_text, "new");
    assert!(session.relocate_path(true, "newer"));
    assert_eq!(
        session.did_open(),
        DidOpen {
            version: 1,
            text: "newer".into()
        }
    );
}

#[test]
fn a_document_is_told_of_its_workspace() {
    let mut editor = EditorSession::from_document(3, "", None);
    assert_eq!(editor.schedule_incremental_index_update(), None);
    editor.set_workspace_root(true);
    assert_eq!(editor.set_project_symbols(false, None), None);
    assert_eq!(editor.schedule_incremental_index_update(), Some(1));
    assert_eq!(editor.set_project_symbols(true, None), Some(1));
    assert_eq!(editor.schedule_incremental_index_update(), Some(1));
    editor.set_hover(Some("text".into()));
    assert_eq!(editor.hover_popup.as_deref(), Some("text"));
    editor.set_signature_help(None);
    assert_eq!(editor.hover_popup, None);
}

#[test]
fn an_open_search_moves_the_caret_before_completions_are_asked_for() {
    let mut session = EditorSession::from_document(5, "ab-", None);
    session.find.open(Some("ab"));
    assert_eq!(session.find.input.query, "ab");
    let actions = session.after_edit(&SymbolTable::new(), "ab->", 4, 0, 1, true, None, Some(PositionEncoding::Utf16), None);
    assert_eq!(actions.selection, Some(0..2));
    assert!(!actions.request_completion);
    let mut closed = EditorSession::from_document(5, "ab-", None);
    let actions = closed.after_edit(&SymbolTable::new(), "ab->", 4, 0, 1, true, None, Some(PositionEncoding::Utf16), None);
    assert_eq!(actions.selection, None);
    assert!(actions.request_completion);
}

#[test]
fn reading_and_saving_are_told() {
    let mut session = EditorSession::from_document(5, "<?php\n", None);
    assert_eq!(
        session.open("a.php", Reading::Unreadable("gone".into()), Some(PositionEncoding::Utf16)),
        None
    );
    assert_eq!(session.status.as_deref(), Some("Falha ao abrir a.php: gone"));
    assert_eq!(
        session.open(
            "a.php",
            Reading::Unparsed {
                content: "<?php\n\n".into(),
                why: "no grammar".into()
            },
            Some(PositionEncoding::Utf16)
        ),
        None
    );
    assert_eq!(
        session.status.as_deref(),
        Some("Falha ao analisar a.php: no grammar")
    );
    assert_eq!(session.widths.line_count, 3);
    assert_eq!(session.last_lsp_text, "<?php\n");
    assert_eq!(
        session.open(
            "a.php",
            Reading::Read {
                content: "<?php\n1;\n".into()
            },
            Some(PositionEncoding::Utf16)
        ),
        Some(DidChange {
            version: 2,
            range: None,
            text: "<?php\n1;\n".into()
        })
    );
    assert_eq!(session.status.as_deref(), Some("a.php aberto"));
    assert_eq!(session.last_lsp_text, "<?php\n1;\n");
    session.save("a.php", Ok(()));
    assert_eq!(session.status.as_deref(), Some("a.php salvo"));
    session.save("a.php", Err("read-only".into()));
    assert_eq!(
        session.status.as_deref(),
        Some("Falha ao salvar a.php: read-only")
    );
}

#[test]
fn an_opened_document_knows_how_many_lines_it_has() {
    for (content, lines) in [("", 1), ("a", 1), ("a\n", 2), ("a\nb\n\nc", 4)] {
        assert_eq!(
            EditorSession::from_document(1, content, None).widths.line_count,
            lines
        );
    }
}

fn typed_behind_a_smile() -> DocumentEdit {
    DocumentEdit {
        old_start_line: 3,
        old_start_line_text: "ç😀x".into(),
        old_start_column_bytes: 6,
        old_end_line: 4,
        old_end_line_text: "ab".into(),
        old_end_column_bytes: 9,
        inserted_text: "new".into(),
    }
}

#[test]
fn the_server_is_told_of_an_edit_in_its_own_columns() {
    let edit = typed_behind_a_smile();
    for (encoding, start, end) in [
        (PositionEncoding::Utf8, 6, 9),
        (PositionEncoding::Utf16, 3, 2),
        (PositionEncoding::Utf32, 2, 2),
    ] {
        let mut session = EditorSession::from_document(1, "old", None);
        let told = session.sync_lsp_text("whole", Some(&edit), Some(encoding));
        assert_eq!(
            told,
            Some(DidChange {
                version: 2,
                range: Some(PositionRange {
                    start: Position {
                        line: 3,
                        character: start
                    },
                    end: Position {
                        line: 4,
                        character: end
                    },
                }),
                text: "new".into(),
            })
        );
        assert_eq!(session.last_lsp_text, "whole");
        assert_eq!(session.sync_lsp_text("whole", Some(&edit), Some(encoding)), None);
    }
    assert_eq!(
        document_change(None, "whole", PositionEncoding::Utf16),
        (None, "whole".to_owned())
    );
    let mut alone = EditorSession::from_document(1, "old", None);
    assert_eq!(alone.sync_lsp_text("whole", Some(&edit), None), None);
    assert_eq!(alone.lsp_version, 2);
}
