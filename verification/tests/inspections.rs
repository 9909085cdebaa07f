//! The inspections of PHP documents, and the store of what they report.

use std::cell::Cell;
use std::sync::atomic::{AtomicU64, Ordering};
use std::sync::Arc;

use ide_core::arguments::{compute_argument_inspections, ArgumentInspectionInput};
use ide_core::diagnostics::{
    diagnostic_severity_rank, ByteDiagnostic, DiagnosticSeverity, DiagnosticStore,
};
use ide_core::inspect::{
    compute_duplicate_class_inspections, compute_unknown_class_inspections,
    compute_unknown_constant_inspections, DuplicateClassDeclaration, DuplicateClassInspectionInput,
    UnknownClassInspectionInput, UnknownConstantInspectionInput,
};
use ide_core::php::{ProjectSymbolKind, RuntimeKind};
use ide_core::semantic::{DeclaredType, SemanticParameter, SemanticSymbol, TypeForm};
use ide_core::session::{is_latest, retry_capture, run_native_inspection_rules};
use ide_core::symbols::{ProjectSymbol, RuntimeSymbol, Visibility};
use ide_core::syntax::{SyntaxNode, SyntaxTree};
use ide_core::table::{
    BoundMethod, ExpressionType, NamedSymbol, ScopedName, SemanticScope, SemanticTable,
    SymbolTable, TypeClash, TypeMethod,
};

fn assert_send_sync<T: Send + Sync>() {}

/// Makes the tree of a fragment of PHP: its comments, strings, variables, numbers and calls.
struct Parser<'a> {
    source: &'a str,
    at: usize,
    nodes: Vec<SyntaxNode>,
}

impl<'a> Parser<'a> {
    fn tree(source: &'a str) -> SyntaxTree {
        let mut parser = Parser {
            source,
            at: 0,
            nodes: Vec::new(),
        };
        let root = parser.open("program", None, None);
        while parser.at < source.len() {
            parser.item(root);
        }
        parser.close(root);
        SyntaxTree {
            nodes: parser.nodes,
        }
    }

    fn open(&mut self, kind: &str, parent: Option<usize>, field: Option<&str>) -> usize {
        self.nodes.push(SyntaxNode {
            kind: kind.into(),
            start: self.at,
            end: self.at,
            parent,
            field: field.map(str::to_owned),
            named: true,
        });
        self.nodes.len() - 1
    }

    fn close(&mut self, node: usize) {
        self.nodes[node].end = self.at;
    }

    fn rest(&self) -> &'a str {
        &self.source[self.at..]
    }

    fn word_len(&self) -> usize {
        self.rest()
            .find(|c: char| !(c.is_alphanumeric() || c == '_' || c == '\\'))
            .unwrap_or(self.rest().len())
    }

    fn leaf(&mut self, kind: &str, size: usize, parent: usize, field: Option<&str>) {
        let node = self.open(kind, Some(parent), field);
        self.at += size;
        self.close(node);
    }

    fn skip_spaces(&mut self) {
        while self.rest().starts_with(' ') {
            self.at += 1;
        }
    }

    fn item(&mut self, parent: usize) {
        let rest = self.rest();
        let first = rest.chars().next().unwrap();
        if rest.starts_with("//") {
            let size = rest.find('\n').unwrap_or(rest.len());
            self.leaf("comment", size, parent, None);
        } else if first == '\'' || first == '"' {
            let size = rest[1..].find(first).unwrap() + 2;
            self.leaf("string", size, parent, None);
        } else if first == '$' {
            self.variable(parent);
        } else if first.is_ascii_digit() {
            let size = rest
                .find(|c: char| !c.is_ascii_digit())
                .unwrap_or(rest.len());
            self.leaf("integer", size, parent, None);
        } else if first.is_alphabetic() || first == '_' || first == '\\' {
            self.word(parent);
        } else {
            self.at += first.len_utf8();
        }
    }

    fn variable(&mut self, parent: usize) {
        let from = self.at;
        self.at += 1;
        let size = 1 + self.word_len();
        self.at = from;
        if self.source[from + size..].starts_with("->") {
            let behind = from + size + 2;
            let name = self.source[behind..]
                .find(|c: char| !(c.is_alphanumeric() || c == '_'))
                .unwrap();
            if self.source[behind + name..].starts_with('(') {
                let call = self.open("member_call_expression", Some(parent), None);
                self.leaf("variable_name", size, call, Some("object"));
                self.at += 2;
                self.leaf("name", name, call, Some("name"));
                self.arguments(call);
                self.close(call);
                return;
            }
        }
        self.leaf("variable_name", size, parent, None);
    }

    fn word(&mut self, parent: usize) {
        let size = self.word_len();
        let word = &self.rest()[..size];
        if word == "function" {
            self.at += size;
            self.skip_spaces();
            self.at += self.word_len();
            self.at += self.rest().find(')').unwrap() + 1;
        } else if word == "new" {
            let call = self.open("object_creation_expression", Some(parent), None);
            self.at += size;
            self.skip_spaces();
            let name = self.word_len();
            self.leaf("name", name, call, None);
            if self.rest().starts_with('(') {
                self.arguments(call);
            }
            self.close(call);
        } else if self.rest()[size..].starts_with('(') {
            let call = self.open("function_call_expression", Some(parent), None);
            self.leaf("name", size, call, Some("function"));
            self.arguments(call);
            self.close(call);
        } else {
            self.leaf("name", size, parent, None);
        }
    }

    fn arguments(&mut self, call: usize) {
        let arguments = self.open("arguments", Some(call), Some("arguments"));
        self.at += 1;
        while !self.rest().starts_with(')') {
            if self.rest().starts_with(|c: char| c == ',' || c == ' ') {
                self.at += 1;
                continue;
            }
            let argument = self.open("argument", Some(arguments), None);
            self.item(argument);
            self.close(argument);
        }
        self.at += 1;
        self.close(arguments);
    }
}

fn function(name: &str, parameters: &str) -> ProjectSymbol {
    ProjectSymbol {
        name: name.into(),
        fully_qualified_name: name.into(),
        kind: ProjectSymbolKind::Function,
        visibility: Visibility::Public,
        modifiers: Vec::new(),
        parameters: Some(parameters.into()),
        return_type: None,
        file: "test.php".into(),
        start: 0,
        end: name.len(),
    }
}

fn arguments_input(source: &str, project_symbols: Vec<ProjectSymbol>) -> ArgumentInspectionInput {
    ArgumentInspectionInput {
        text: source.into(),
        syntax: Some(Parser::tree(source)),
        project_symbols,
    }
}

fn inspect(input: &ArgumentInspectionInput, model: Option<&SemanticTable>) -> Vec<ByteDiagnostic> {
    compute_argument_inspections(&SymbolTable::new(), model, input)
}

/// A table of which everything lies in one scope.
fn model(source: &str) -> SemanticTable {
    let mut table = SemanticTable::new();
    table.scopes.push(SemanticScope {
        id: 0,
        start: 0,
        end: source.len(),
    });
    table
}

fn class(table: &mut SemanticTable, name: &str) {
    table.classes.push(ScopedName {
        scope: 0,
        written: name.into(),
        fqn: name.into(),
    });
}

fn add_symbol(
    table: &mut SemanticTable,
    kind: ProjectSymbolKind,
    parameters: &str,
    types: &[&str],
) -> usize {
    table.symbols.push(SemanticSymbol {
        kind,
        parameters: Some(parameters.into()),
        structured_parameters: types
            .iter()
            .map(|label| SemanticParameter {
                declared_type: if label.is_empty() {
                    None
                } else {
                    Some(declared(label.trim_end_matches("...")))
                },
                variadic: label.ends_with("..."),
            })
            .collect(),
    });
    table.symbols.len() - 1
}

fn declared(label: &str) -> DeclaredType {
    DeclaredType {
        form: match label {
            "mixed" => TypeForm::Mixed,
            _ if label.starts_with('?') => TypeForm::Nullable,
            _ => TypeForm::Other,
        },
        label: label.into(),
    }
}

fn constructor(table: &mut SemanticTable, class: &str, symbol: usize) {
    table.constructors.push(NamedSymbol {
        fqn: class.into(),
        symbol,
    });
}

/// Gives each argument whose text is listed a type.
fn type_arguments(table: &mut SemanticTable, source: &str, tree: &SyntaxTree, types: &[(&str, &str)]) {
    for (index, node) in tree.nodes.iter().enumerate() {
        if node.kind != "argument" {
            continue;
        }
        if let Some((_, label)) = types
            .iter()
            .find(|(text, _)| *text == &source[node.start..node.end])
        {
            table.types.push(ExpressionType {
                node: index,
                declared: declared(label),
            });
        }
    }
}

fn clash(table: &mut SemanticTable, expected: &str, actual: &str) {
    table.clashes.push(TypeClash {
        expected: expected.into(),
        actual: actual.into(),
    });
}

#[test]
fn stale_native_inspection_stops_before_subsequent_rules() {
    let latest_generation = AtomicU64::new(1);
    let first_rule_ran = Cell::new(false);

    let result = run_native_inspection_rules(
        &latest_generation,
        1,
        || {
            first_rule_ran.set(true);
            latest_generation.store(2, Ordering::Release);
            Vec::new()
        },
        || panic!("unknown constant inspection must not run after staleness"),
        || panic!("duplicate class inspection must not run after staleness"),
        || panic!("argument inspection must not run after staleness"),
    );

    assert!(first_rule_ran.get());
    assert!(result.is_none());
}

#[test]
fn argument_inspection_is_pure_and_send_sync() {
    assert_send_sync::<ArgumentInspectionInput>();
    let input = arguments_input(
        "<?php function run(int $value) {} run();",
        vec![function("run", "(int $value)")],
    );
    assert_eq!(inspect(&input, None).len(), 1);
}

#[test]
fn argument_inspection_parses_once_and_counts_ast_arguments() {
    let input = arguments_input(
        "<?php function run(int $value) {} function pair(int $a, int $b) {}\n// fake(1, 2)\nrun(); run(1); run(\"a,b\"); pair(1, 2); run(pair(1, 2));",
        vec![
            function("run", "(int $value)"),
            function("pair", "(int $a, int $b)"),
        ],
    );
    let diagnostics = inspect(&input, None);
    assert_eq!(diagnostics.len(), 1);
    assert!(diagnostics[0].message.contains("Expected 1 argument"));
}

#[test]
fn argument_inspection_uses_semantic_inherited_method_signature() {
    let text = "<?php class Base { public function run(int $value): void {} } class Child extends Base {} function test(Child $child): void { $child->run(); }";
    let mut table = model(text);
    let run = add_symbol(&mut table, ProjectSymbolKind::Method, "(int $value)", &["int"]);
    table.bound_methods.push(BoundMethod {
        scope: 0,
        variable: "$child".into(),
        name: "run".into(),
        symbol: run,
    });
    let input = arguments_input(text, Vec::new());
    let diagnostics = inspect(&input, Some(&table));
    assert_eq!(diagnostics.len(), 1);
    assert!(diagnostics[0].message.contains("Expected 1 argument"));
}

#[test]
fn argument_inspection_validates_object_creation_constructors() {
    let text = "<?php class Base { public function __construct(string $name) {} } class Child extends Base {} class Optional { public function __construct(?string $value = null) {} } class Variadic { public function __construct(...$values) {} } new Child(); new Child(\"ok\"); new Optional(); new Variadic();";
    let mut table = model(text);
    for (name, parameters) in [
        ("Child", "(string $name)"),
        ("Optional", "(?string $value = null)"),
        ("Variadic", "(...$values)"),
    ] {
        class(&mut table, name);
        let symbol = add_symbol(&mut table, ProjectSymbolKind::Method, parameters, &[]);
        constructor(&mut table, name, symbol);
    }
    let diagnostics = inspect(&arguments_input(text, Vec::new()), Some(&table));
    assert_eq!(diagnostics.len(), 1);
    assert!(diagnostics[0].message.contains("Expected 1 argument"));
}

#[test]
fn argument_diagnostic_range_is_exact_arguments_node() {
    let text = "<?php class A { public function __construct(string $name) {} } new A();";
    let mut table = model(text);
    class(&mut table, "A");
    let symbol = add_symbol(&mut table, ProjectSymbolKind::Method, "(string $name)", &["string"]);
    constructor(&mut table, "A", symbol);
    let diagnostics = inspect(&arguments_input(text, Vec::new()), Some(&table));
    let arguments_start = text.rfind("()").expect("arguments node");
    let expected = arguments_start..arguments_start + 2;
    assert_eq!(diagnostics.len(), 1);
    assert_eq!(diagnostics[0].range, expected);
}

#[test]
fn argument_type_inspection_is_conservative_and_marks_only_mismatches() {
    let text = r#"<?php
class Base {}
class Child extends Base {}
class Other {}
class Service {
    public function __construct(string $name) {}
    public function check(int|string $union, ?string $nullable, mixed $anything, Base $base, int ...$numbers): void {}
}
function test(Service $service, $unknown): void {
    new Service(22);
    $service->check(1, null, new Other(), new Child(), 2, 3);
    $service->check('ok', 'name', $unknown, new Child(), 4);
    $service->check(new Other(), null, null, new Other(), 5, 'bad');
}"#;
    let input = arguments_input(text, Vec::new());
    let mut table = model(text);
    class(&mut table, "Service");
    let created = add_symbol(&mut table, ProjectSymbolKind::Method, "(string $name)", &["string"]);
    constructor(&mut table, "Service", created);
    let check = add_symbol(
        &mut table,
        ProjectSymbolKind::Method,
        "(int|string $union, ?string $nullable, mixed $anything, Base $base, int ...$numbers)",
        &["int|string", "?string", "mixed", "Base", "int..."],
    );
    table.bound_methods.push(BoundMethod {
        scope: 0,
        variable: "$service".into(),
        name: "check".into(),
        symbol: check,
    });
    type_arguments(
        &mut table,
        text,
        input.syntax.as_ref().unwrap(),
        &[
            ("22", "int"),
            ("1", "int"),
            ("2", "int"),
            ("3", "int"),
            ("4", "int"),
            ("5", "int"),
            ("null", "null"),
            ("new Other()", "Other"),
            ("new Child()", "Child"),
            ("'ok'", "string"),
            ("'name'", "string"),
            ("'bad'", "string"),
        ],
    );
    clash(&mut table, "string", "int");
    clash(&mut table, "int|string", "Other");
    clash(&mut table, "Base", "Other");
    clash(&mut table, "int", "string");

    let diagnostics = inspect(&input, Some(&table));
    let other_ranges = text
        .match_indices("new Other()")
        .map(|(start, value)| start..start + value.len())
        .collect::<Vec<_>>();
    let number_start = text.find("new Service(22)").unwrap() + "new Service(".len();
    let bad_start = text.rfind("'bad'").unwrap();
    let expected = vec![
        number_start..number_start + 2,
        other_ranges[1].clone(),
        other_ranges[2].clone(),
        bad_start..bad_start + "'bad'".len(),
    ];
    let actual = diagnostics
        .iter()
        .map(|diagnostic| diagnostic.range.clone())
        .collect::<Vec<_>>();

    assert_eq!(actual, expected);
    assert!(diagnostics.iter().all(|diagnostic| {
        diagnostic.message.starts_with("Expected ") && !diagnostic.message.contains("unknown")
    }));
}

#[test]
fn global_function_argument_types_validate_only_known_mismatches() {
    let text = r#"<?php
function a(int|string $x) {}
a(10);
a('ok');
a(true);
function b(?string $x) {}
b(null);
b('ok');
b(10);
function c(mixed $x) {}
c(123);
c('abc');
c(null);
function d($x) {}
d(123);
d($qualquer);
a($qualquer);
b($qualquer);
"#;
    let symbols = vec![
        function("a", "(int|string $x)"),
        function("b", "(?string $x)"),
        function("c", "(mixed $x)"),
        function("d", "($x)"),
    ];
    let input = arguments_input(text, symbols);
    let mut table = model(text);
    for (name, parameters, label) in [
        ("a", "(int|string $x)", "int|string"),
        ("b", "(?string $x)", "?string"),
        ("c", "(mixed $x)", "mixed"),
        ("d", "($x)", ""),
    ] {
        let symbol = add_symbol(&mut table, ProjectSymbolKind::Function, parameters, &[label]);
        table.functions.push(ScopedName {
            scope: 0,
            written: name.into(),
            fqn: name.into(),
        });
        table.names.push(NamedSymbol {
            fqn: name.into(),
            symbol,
        });
    }
    type_arguments(
        &mut table,
        text,
        input.syntax.as_ref().unwrap(),
        &[
            ("10", "int"),
            ("123", "int"),
            ("'ok'", "string"),
            ("'abc'", "string"),
            ("true", "true"),
            ("null", "null"),
        ],
    );
    clash(&mut table, "int|string", "true");
    clash(&mut table, "?string", "int");
    let diagnostics = inspect(&input, Some(&table));
    let actual = diagnostics
        .iter()
        .map(|diagnostic| (&text[diagnostic.range.clone()], diagnostic.message.as_str()))
        .collect::<Vec<_>>();
    assert_eq!(
        actual,
        vec![
            ("true", "Expected int|string, found true"),
            ("10", "Expected ?string, found int"),
        ]
    );
    assert!(diagnostics
        .iter()
        .all(|diagnostic| diagnostic.severity == Some(DiagnosticSeverity::Error)));
    assert!(inspect(&input, None).is_empty());
}

#[test]
fn a_method_that_is_missing_is_reported_at_its_name() {
    let text = "<?php $service->gone(1); $service->run();";
    let input = arguments_input(text, Vec::new());
    let mut table = model(text);
    for (index, node) in input.syntax.as_ref().unwrap().nodes.iter().enumerate() {
        if node.kind == "variable_name" {
            table.types.push(ExpressionType {
                node: index,
                declared: declared("Service"),
            });
        }
    }
    table.type_methods.push(TypeMethod {
        receiver: "Service".into(),
        name: "run".into(),
    });
    let diagnostics = inspect(&input, Some(&table));
    assert_eq!(diagnostics.len(), 1);
    assert_eq!(diagnostics[0].message, "Method `gone` not found");
    assert_eq!(&text[diagnostics[0].range.clone()], "gone");
}

#[test]
fn too_many_arguments_are_reported_as_such() {
    let input = arguments_input("<?php run(1, 2);", vec![function("run", "(int $value)")]);
    assert_eq!(
        inspect(&input, None)[0].message,
        "Expected at most 1 arguments, found 2"
    );
}

#[test]
fn duplicate_class_inspection_is_pure_and_send_sync() {
    assert_send_sync::<DuplicateClassInspectionInput>();
    let input = DuplicateClassInspectionInput {
        path: "A.php".into(),
        declarations: vec![
            DuplicateClassDeclaration {
                fqn: "App\\User".into(),
                file: "A.php".into(),
                range: 1..5,
            },
            DuplicateClassDeclaration {
                fqn: "App\\User".into(),
                file: "B.php".into(),
                range: 2..6,
            },
        ],
    };
    assert_eq!(compute_duplicate_class_inspections(&input).len(), 1);
}

#[test]
fn duplicate_class_inspection_distinguishes_fqn_and_self() {
    assert_send_sync::<DuplicateClassInspectionInput>();
    let input = DuplicateClassInspectionInput {
        path: "same.php".into(),
        declarations: vec![
            DuplicateClassDeclaration {
                fqn: "App\\One\\User".into(),
                file: "same.php".into(),
                range: 1..2,
            },
            DuplicateClassDeclaration {
                fqn: "App\\Two\\User".into(),
                file: "same.php".into(),
                range: 3..4,
            },
            DuplicateClassDeclaration {
                fqn: "App\\One\\User".into(),
                file: "other.php".into(),
                range: 5..6,
            },
        ],
    };
    let diagnostics = compute_duplicate_class_inspections(&input);
    assert_eq!(diagnostics.len(), 1);
    assert_eq!(diagnostics[0].range, 1..2);
}

fn constants_input(
    source: &str,
    known_constants: Vec<(String, String)>,
) -> UnknownConstantInspectionInput {
    UnknownConstantInspectionInput {
        text: source.into(),
        syntax: Some(Parser::tree(source)),
        known_constants,
    }
}

#[test]
fn unknown_constant_inspection_is_pure_and_send_sync() {
    assert_send_sync::<UnknownConstantInspectionInput>();
    let input = constants_input("<?php echo UNKNOWN_VALUE;", Vec::new());
    let diagnostics = compute_unknown_constant_inspections(&SymbolTable::new(), &input);
    assert_eq!(diagnostics.len(), 1);
    assert_eq!(diagnostics[0].message, "Undefined constant 'UNKNOWN_VALUE'");
}

#[test]
fn unknown_constant_inspection_preserves_known_namespaces_and_literals() {
    let input = constants_input(
        "<?php namespace App; const VALUE = 1; echo VALUE; echo \\App\\VALUE; echo \"FAKE\"; // FAKE\n",
        vec![("VALUE".into(), "App\\VALUE".into())],
    );
    assert!(compute_unknown_constant_inspections(&SymbolTable::new(), &input).is_empty());
}

fn runtime(name: &str, kind: RuntimeKind) -> RuntimeSymbol {
    RuntimeSymbol {
        name: name.into(),
        fqn: name.into(),
        kind,
        is_static: false,
        signature: None,
        origin: "PhpRuntime".into(),
        file: "stubs.php".into(),
        start: 7,
    }
}

#[test]
fn constants_of_the_runtime_are_known() {
    let mut index = SymbolTable::new();
    index.runtime.push(runtime("M_PI", RuntimeKind::Constant));
    let input = constants_input("<?php echo M_PI; echo PHP_OS; echo NOPE;", Vec::new());
    let diagnostics = compute_unknown_constant_inspections(&index, &input);
    assert_eq!(diagnostics.len(), 1);
    assert_eq!(diagnostics[0].message, "Undefined constant 'NOPE'");
    assert_eq!(diagnostics[0].severity, Some(DiagnosticSeverity::Warning));
}

#[test]
fn classes_behind_new_are_looked_for_everywhere() {
    let source = "<?php\nnamespace App;\nnew Known(); new Missing(); new Exception(); // new Hidden()\n";
    let mut index = SymbolTable::new();
    index
        .runtime
        .push(runtime("Exception", RuntimeKind::Class));
    let input = UnknownClassInspectionInput {
        text: source.into(),
        syntax: Some(Parser::tree(source)),
        project_classes: vec!["App\\Known".into()],
    };
    let diagnostics = compute_unknown_class_inspections(&index, &input);
    assert_eq!(diagnostics.len(), 1);
    assert!(diagnostics[0].message.contains("Missing"));
    assert_eq!(&source[diagnostics[0].range.clone()], "Missing");
}

#[test]
fn native_and_lsp_updates_are_independent_and_combined() {
    let mut store = DiagnosticStore::default();
    store.set_native_syntax(vec![ByteDiagnostic {
        range: 0..3,
        severity: None,
        message: "native".into(),
    }]);
    store.set_lsp(vec![ByteDiagnostic {
        range: 4..7,
        severity: None,
        message: "lsp".into(),
    }]);
    let first_cache = store.combined();
    let second_cache = store.combined();
    assert!(Arc::ptr_eq(&first_cache, &second_cache));
    assert_eq!(store.combined().len(), 2);
    store.set_lsp(Vec::new());
    assert_eq!(
        store
            .combined()
            .iter()
            .map(|d| d.message.as_str())
            .collect::<Vec<_>>(),
        vec!["native"]
    );
    store.set_native_syntax(Vec::new());
    store.set_lsp(vec![ByteDiagnostic {
        range: 1..2,
        severity: None,
        message: "lsp-again".into(),
    }]);
    assert_eq!(store.combined()[0].message, "lsp-again");
}

#[test]
fn reports_stand_in_order_and_none_is_lost() {
    let report = |start: usize, severity, message: &str| ByteDiagnostic {
        range: start..start + 1,
        severity,
        message: message.into(),
    };
    let mut store = DiagnosticStore::new();
    store.set_lsp(vec![
        report(5, Some(DiagnosticSeverity::Hint), "d"),
        report(1, Some(DiagnosticSeverity::Warning), "b"),
    ]);
    store.set_native_inspections(vec![
        report(1, Some(DiagnosticSeverity::Error), "a"),
        report(3, None, "c"),
    ]);
    let messages: Vec<String> = store
        .combined()
        .iter()
        .map(|d| d.message.clone())
        .collect();
    assert_eq!(messages.len(), 4);
    assert_eq!(messages[0], "a");
    assert_eq!(messages[3], "d");
    assert!(
        diagnostic_severity_rank(Some(DiagnosticSeverity::Error))
            < diagnostic_severity_rank(Some(DiagnosticSeverity::Warning))
    );
    store.set_diagnostics(Some(1), 2, Vec::new());
    assert_eq!(store.combined().len(), 4);
    store.set_diagnostics(Some(2), 2, Vec::new());
    assert_eq!(store.combined().len(), 2);
}

#[test]
fn rules_run_in_order_while_nothing_newer_was_asked() {
    let latest_generation = AtomicU64::new(7);
    let report = |message: &str| {
        vec![ByteDiagnostic {
            range: 0..1,
            severity: None,
            message: message.into(),
        }]
    };
    let result = run_native_inspection_rules(
        &latest_generation,
        7,
        || report("class"),
        || report("constant"),
        || report("duplicate"),
        || report("arguments"),
    )
    .unwrap();
    assert_eq!(
        result.iter().map(|d| d.message.as_str()).collect::<Vec<_>>(),
        vec!["class", "constant", "duplicate", "arguments"]
    );
    assert!(is_latest(7, 7));
    assert!(!is_latest(8, 7));
    assert_eq!(retry_capture(0), Some(1));
    assert_eq!(retry_capture(3), None);
}
