//! PHP sources: names, types, formatting and completions.

use ide_core::completion::{
    completion_presentation, compress_completion_parameter, filter_new_completion_items, rank_new_completion_items,
    CompletionItem, CompletionItemKind,
};
use ide_core::formatter::{native_format_php, normalize_php_line, php_heredoc_delimiter};
use ide_core::navigate::vendor_lookup_needed;
use ide_core::php::{
    declared_class_fqn, declared_parent_fqn, extract_owner_expression, has_import,
    parse_use_imports, property_type_in_context, resolve_php_class_name, type_completion_context, type_kind_allowed,
    TypeCompletionContext,
};
use ide_core::php::ProjectSymbolKind::{Class, Enum, Interface, Trait};
use ide_core::signature::{signature_counts_from_detail, ParameterArity};

fn plain() -> CompletionItem {
    CompletionItem {
        label: String::new(),
        detail: None,
        kind: None,
        insert_text: None,
        snippet: false,
        text_edit: None,
        additional_text_edits: Vec::new(),
    }
}

fn item(label: &str, detail: &str, kind: CompletionItemKind) -> CompletionItem {
    CompletionItem {
        label: label.to_owned(),
        detail: Some(detail.to_owned()),
        kind: Some(kind),
        ..plain()
    }
}

#[test]
fn inheritance_contexts_filter_only_semantically_allowed_kinds() {
    let extends = "class Foo extends Bas";
    let implements = "class Foo implements Log";
    let interface_extends = "interface Foo extends Cach";
    assert_eq!(
        type_completion_context(extends, extends.len() - 3, false),
        TypeCompletionContext::ClassExtends
    );
    assert_eq!(
        type_completion_context(implements, implements.len() - 3, false),
        TypeCompletionContext::ClassImplements
    );
    assert_eq!(
        type_completion_context(interface_extends, interface_extends.len() - 4, false),
        TypeCompletionContext::InterfaceExtends
    );
    assert!(type_kind_allowed(
        TypeCompletionContext::ClassExtends,
        Class
    ));
    assert!(!type_kind_allowed(
        TypeCompletionContext::ClassExtends,
        Interface
    ));
    assert!(type_kind_allowed(
        TypeCompletionContext::ClassImplements,
        Interface
    ));
    assert!(!type_kind_allowed(
        TypeCompletionContext::ClassImplements,
        Class
    ));
    assert!(type_kind_allowed(
        TypeCompletionContext::InterfaceExtends,
        Interface
    ));
    assert!(!type_kind_allowed(
        TypeCompletionContext::InterfaceExtends,
        Trait
    ));
    assert!(type_kind_allowed(TypeCompletionContext::New, Class));
    assert!(!type_kind_allowed(TypeCompletionContext::New, Enum));
}

#[test]
fn exact_new_class_is_ranked_first() {
    let mut items = vec![
        item(
            "ArrayIterator",
            "ArrayIterator • PHP Runtime",
            CompletionItemKind::Class,
        ),
        item(
            "AliasStatus",
            "AliasStatus • PHP Runtime",
            CompletionItemKind::Class,
        ),
        item(
            "ChildService",
            "App\\ChildService • Project",
            CompletionItemKind::Class,
        ),
        item("A", "App\\A • Project", CompletionItemKind::Class),
    ];
    rank_new_completion_items(&mut items, "A");
    assert_eq!(items[0].label, "A");
}

#[test]
fn prefix_beats_non_matching_project_and_exact_is_case_insensitive() {
    let mut items = vec![
        item(
            "ArrayIterator",
            "ArrayIterator • Project",
            CompletionItemKind::Class,
        ),
        item("Base", "Base • Project", CompletionItemKind::Class),
        item("Baz", "Baz • Project", CompletionItemKind::Class),
        item(
            "ChildImplementation",
            "ChildImplementation • Runtime",
            CompletionItemKind::Class,
        ),
        item("CHILD", "App\\Child • Project", CompletionItemKind::Class),
    ];
    rank_new_completion_items(&mut items, "Child");
    assert_eq!(items[0].label, "CHILD");
    assert_eq!(items[1].label, "ChildImplementation");
    assert!(
        items[2..]
            .iter()
            .all(|candidate| { !candidate.label.starts_with("Child") })
    );
}

#[test]
fn project_wins_when_textual_match_is_equivalent() {
    let mut items = vec![
        item("Alpha", "Alpha • PHP Runtime", CompletionItemKind::Class),
        item("Alpha", "App\\Alpha • Project", CompletionItemKind::Class),
    ];
    rank_new_completion_items(&mut items, "Al");
    assert_eq!(items[0].detail.as_deref(), Some("App\\Alpha • Project"));
}

#[test]
fn ranking_is_stable_for_non_new_contexts() {
    let mut items = vec![
        item("Beta", "Beta • PHP Runtime", CompletionItemKind::Class),
        item("Alpha", "App\\Alpha • Project", CompletionItemKind::Class),
    ];
    let original = items.clone();
    // The helper is only invoked for `new`; other contexts retain their
    // existing provider order because no ranking pass is applied.
    assert_eq!(items, original);
    rank_new_completion_items(&mut items, "Z");
    assert_ne!(items, original);
}

#[test]
fn new_prefix_filter_removes_candidates_from_previous_prefixes() {
    let mut items = vec![
        item(
            "ArrayIterator",
            "ArrayIterator • Runtime",
            CompletionItemKind::Class,
        ),
        item("Base", "Base • Project", CompletionItemKind::Class),
        item("Child", "App\\Child • Project", CompletionItemKind::Class),
    ];
    filter_new_completion_items(&mut items, "Chil");
    assert_eq!(
        items
            .iter()
            .map(|item| item.label.as_str())
            .collect::<Vec<_>>(),
        vec!["Child"]
    );
}

#[test]
fn declared_owner_fqn_supports_interfaces_and_traits() {
    let interface = "<?php\nnamespace Example;\ninterface Contract {\n    public function run(): void;\n}\n";
    assert_eq!(
        declared_class_fqn(interface).as_deref(),
        Some("Example\\Contract")
    );
    let trait_source = "<?php\nnamespace Example;\ntrait Helpers {\n    protected function run(): void {}\n}\n";
    assert_eq!(
        declared_class_fqn(trait_source).as_deref(),
        Some("Example\\Helpers")
    );
}

#[test]
fn indents_nested_php_blocks() {
    let input = "<?php\nclass Test{\npublic function foo(){\n$value=1;\nif($value){\necho \"ok\";\n}\n}\n}\n";
    let output = native_format_php(input);
    assert!(output.contains("class Test{\n    public function foo(){\n        $value = 1;"));
    assert!(output.contains("        if($value){\n            echo \"ok\";"));
}

#[test]
fn ignores_braces_in_strings_and_comments() {
    let input = "<?php\nfunction test(){\n$text = \"{ not a block }\";\n// } remains a comment\nreturn $text;\n}\n";
    let output = native_format_php(input);
    assert!(output.contains("    $text = \"{ not a block }\";"));
    assert!(output.contains("    // } remains a comment"));
    assert!(output.contains("    return $text;"));
}

#[test]
fn native_formatter_preserves_significant_multiline_literal_whitespace() {
    let input = "<?php\nfunction render(){\n$text = \"first\n  keep two leading spaces  \nlast\";\n$heredoc = <<<EOT\n  keep heredoc spaces  \nEOT;\n$nowdoc = <<<'TXT'\n  keep nowdoc spaces  \nTXT;\n}\n";
    let output = native_format_php(input);
    assert!(output.contains("$text = \"first\n  keep two leading spaces  \nlast\";"));
    assert!(output.contains("$heredoc = <<<EOT\n  keep heredoc spaces  \nEOT;"));
    assert!(output.contains("$nowdoc = <<<'TXT'\n  keep nowdoc spaces  \nTXT;"));
}

#[test]
fn native_formatter_changes_plain_text_when_called_as_the_unguarded_fallback() {
    let plain_text = "heading {\nbody\n}\n";
    assert_ne!(native_format_php(plain_text), plain_text);
}

#[test]
fn formatter_keeps_semicolon_after_fully_qualified_constructor() {
    let input = "<?php\n$service = new \\Probe\\Models\\Service();\n";
    let output = native_format_php(input);
    assert!(output.contains("new \\Probe\\Models\\Service();"));
    assert!(!output.contains("Service()\n;"));
}

#[test]
fn formatter_keeps_semicolon_after_fqn_static_call() {
    let input = "<?php\n$result = \\Vendor\\Package\\Service::create();\n";
    let output = native_format_php(input);
    assert!(output.contains("Service::create();"));
}

#[test]
fn formatter_fqn_is_idempotent() {
    let input = "<?php\n$service = new \\Probe\\Models\\Service();\n";
    let once = native_format_php(input);
    assert_eq!(native_format_php(&once), once);
}

#[test]
fn formatter_normalizes_object_operator_spacing() {
    assert_eq!(
        normalize_php_line("$service   ->   local ( );"),
        "$service->local();"
    );
}

#[test]
fn formatter_normalizes_static_operator_spacing() {
    assert_eq!(
        normalize_php_line("Service   ::   create ( );"),
        "Service::create();"
    );
}

#[test]
fn formatter_normalizes_nullsafe_operator_spacing() {
    assert_eq!(
        normalize_php_line("$service  ?->  local ( );"),
        "$service?->local();"
    );
}

#[test]
fn heredoc_content_does_not_change_block_indentation() {
    let input = "<?php\nfunction render(){\n$value = <<<EOT\n{ not a PHP block }\nEOT;\nreturn $value;\n}\n";
    let output = native_format_php(input);
    assert!(output.contains("EOT;\n    return $value;"));
    assert!(!output.contains("        return $value;"));
}

#[test]
fn completion_source_separated_from_return_type() {
    let item = CompletionItem {
        label: "ghost".into(),
        detail: Some(
            "ghost(Closure $initializer, string|object $class): LazyObject • PhpRuntime".into(),
        ),
        ..plain()
    };
    let view = completion_presentation(&item);
    assert_eq!(view.primary, "ghost($initializer, $class)");
    assert_eq!(view.return_type.as_deref(), Some("LazyObject"));
    assert_eq!(view.source.as_deref(), Some("Runtime"));
}

#[test]
fn completion_long_signature_is_truncated_to_compact_parameters() {
    let item = CompletionItem {
        label: "reflect".into(),
        detail: Some("reflect(string|object $class = null): ReflectionClass • Project".into()),
        ..plain()
    };
    assert_eq!(completion_presentation(&item).primary, "reflect($class)");
}

#[test]
fn imported_class_not_unknown() {
    assert_eq!(
        resolve_php_class_name(
            "FiberEventLoop",
            "namespace Omegaalfa\\HttpClient\\Http;\nuse Omegaalfa\\FiberEventLoop\\FiberEventLoop;"
        ),
        "Omegaalfa\\FiberEventLoop\\FiberEventLoop"
    );
}

#[test]
fn group_import_resolves_members_and_aliases() {
    let context = r#"use Foo\Bar\{Baz, Qux as Q};"#;
    assert_eq!(resolve_php_class_name("Baz", context), "Foo\\Bar\\Baz");
    assert_eq!(resolve_php_class_name("Q", context), "Foo\\Bar\\Qux");
}

#[test]
fn simple_import_forms_remain_unchanged() {
    assert_eq!(resolve_php_class_name("Bar", "use Foo\\Bar;"), "Foo\\Bar");
    assert_eq!(
        resolve_php_class_name("Alias", "use Foo\\Bar as Alias;"),
        "Foo\\Bar"
    );
    assert!(has_import("use Foo\\Bar\\{Baz};", "Foo\\Bar\\Baz"));
}

#[test]
fn aliased_import_not_unknown() {
    assert_eq!(
        resolve_php_class_name(
            "Loop",
            "use Omegaalfa\\FiberEventLoop\\FiberEventLoop as Loop;"
        ),
        "Omegaalfa\\FiberEventLoop\\FiberEventLoop"
    );
}

#[test]
fn same_namespace_class_not_unknown() {
    assert_eq!(
        resolve_php_class_name("UserService", "namespace App\\Service;"),
        "App\\Service\\UserService"
    );
}

#[test]
fn fully_qualified_class_not_unknown() {
    assert_eq!(
        resolve_php_class_name("\\Vendor\\Package\\Thing", "namespace App;"),
        "Vendor\\Package\\Thing"
    );
}

#[test]
fn actually_unknown_class_remains_qualified() {
    assert_eq!(
        resolve_php_class_name("Missing", "namespace App\\Service;"),
        "App\\Service\\Missing"
    );
}

#[test]
fn self_and_static_resolve_to_declared_class() {
    let text =
        "namespace App\\Http; class Client { function f() { self::run(); new static(); } }";
    assert_eq!(
        declared_class_fqn(text).as_deref(),
        Some("App\\Http\\Client")
    );
    assert_eq!(resolve_php_class_name("self", text), "App\\Http\\Client");
    assert_eq!(resolve_php_class_name("static", text), "App\\Http\\Client");
}

#[test]
fn parent_resolves_extends_and_is_safe_without_extends() {
    let text = "namespace App\\Http;\nuse Base\\Client as ParentClient;\nclass Child extends ParentClient {}";
    assert_eq!(declared_parent_fqn(text).as_deref(), Some("Base\\Client"));
    assert_eq!(resolve_php_class_name("parent", text), "Base\\Client");
    assert_eq!(
        resolve_php_class_name("parent", "namespace App; class Child {}"),
        "parent"
    );
}

#[test]
fn receiver_chain_and_typed_property_resolve() {
    let text = "namespace App;\nuse Vendor\\FiberEventLoop\\FiberEventLoop;\nclass Client {\n private FiberEventLoop $loop;\n function f() { $this->loop->run(); }\\n}";
    let operator = text.find("$this->loop->run").unwrap() + "$this->loop".len();
    let (_, owner) = extract_owner_expression(text, operator);
    assert_eq!(owner, "$this->loop");
    assert_eq!(
        property_type_in_context(text, "loop").as_deref(),
        Some("FiberEventLoop")
    );
    assert_eq!(
        resolve_php_class_name("FiberEventLoop", text),
        "Vendor\\FiberEventLoop\\FiberEventLoop"
    );
}

#[test]
fn project_hit_short_circuits_vendor_lookup() {
    assert!(!vendor_lookup_needed(true));
    assert!(vendor_lookup_needed(false));
}

#[test]
fn parameter_arity_handles_defaults_variadics_and_nested_commas() {
    assert_eq!(
        signature_counts_from_detail("(array $value)"),
        ParameterArity {
            required_count: 1,
            maximum_count: 1,
            variadic: false,
        }
    );
    assert_eq!(
        signature_counts_from_detail("(int $a, ?Foo|Bar $b, Baz&Qux $c)"),
        ParameterArity {
            required_count: 3,
            maximum_count: 3,
            variadic: false,
        }
    );
    assert_eq!(
        signature_counts_from_detail("(int $a, array $options = [1, 2, 3])"),
        ParameterArity {
            required_count: 1,
            maximum_count: 2,
            variadic: false,
        }
    );
    assert_eq!(
        signature_counts_from_detail("(?Foo $value = null, ...$rest)"),
        ParameterArity {
            required_count: 0,
            maximum_count: 2,
            variadic: true,
        }
    );
    assert_eq!(
        signature_counts_from_detail("(string $value = fn(1, 'a,b'))"),
        ParameterArity {
            required_count: 0,
            maximum_count: 1,
            variadic: false,
        }
    );
}

#[test]
fn import_lines_are_read_with_their_aliases() {
    assert_eq!(
        parse_use_imports("use Foo\\{Bar, Baz as Q};"),
        vec![
            ("Foo\\Bar".to_owned(), "Bar".to_owned()),
            ("Foo\\Baz".to_owned(), "Q".to_owned())
        ]
    );
    assert!(parse_use_imports("class A {}").is_empty());
}

#[test]
fn heredocs_are_told_by_their_delimiter() {
    assert_eq!(php_heredoc_delimiter("$a = <<<EOT").as_deref(), Some("EOT"));
    assert_eq!(php_heredoc_delimiter("$a = <<<'TXT'").as_deref(), Some("TXT"));
    assert_eq!(php_heredoc_delimiter("$a << 3;"), None);
}

#[test]
fn parameters_are_shortened_to_their_names() {
    assert_eq!(compress_completion_parameter("string|object $class = null"), "$class");
    assert_eq!(compress_completion_parameter("Closure $initializer"), "$initializer");
}

#[test]
fn quoted_lines_and_heredocs_stay_as_they_are() {
    let input = "<?php\n$a = <<<EOT\n   keep   this\nEOT;\n";
    assert!(native_format_php(input).contains("   keep   this\n"));
}
