//! Inspections of a document: unknown classes and constants, classes that are declared twice, and
//! arguments that do not fit.

use std::ops::Range;

use vstd::prelude::*;
use vstd::string::*;

use crate::diagnostics;
use crate::diagnostics::ByteDiagnostic;
use crate::diagnostics::ByteDiagnosticView;
use crate::diagnostics::DiagnosticSeverity;
use crate::php;
use crate::symbols::SymbolIndex;
use crate::syntax;
use crate::syntax::SyntaxNodeView;
use crate::syntax::SyntaxTree;
use crate::text;

verus! {

/// Whether a node is a comment or a string.
pub open spec fn literal_node(node: SyntaxNodeView) -> bool {
    node.kind == "comment"@ || text::contains_text(node.kind, "string"@)
}

/// The byte offset of an index.
pub open spec fn offset(s: Seq<char>, index: int) -> int {
    text::utf8_len(s.take(index)) as int
}

/// A report on the characters between two indices.
pub open spec fn report(
    s: Seq<char>,
    from: int,
    to: int,
    severity: DiagnosticSeverity,
    message: Seq<char>,
) -> ByteDiagnosticView {
    ByteDiagnosticView {
        start: offset(s, from) as usize,
        end: offset(s, to) as usize,
        severity: Some(severity),
        message,
    }
}

fn make_report(
    s: &[char],
    from: usize,
    to: usize,
    severity: DiagnosticSeverity,
    message: String,
) -> (r: ByteDiagnostic)
    requires
        from <= s@.len(),
        to <= s@.len(),
        text::utf8_len(s@) <= usize::MAX,
    ensures
        r@ == report(s@, from as int, to as int, severity, message@),
{
    ByteDiagnostic {
        range: Range { start: text::offset_of(s, from), end: text::offset_of(s, to) },
        severity: Some(severity),
        message,
    }
}

/// Whether a class that is written somewhere is known: to the project, the runtime or a package, or
/// by a name that stands for the class itself.
pub open spec fn class_is_known<S: SymbolIndex>(
    index: &S,
    project_classes: Seq<Seq<char>>,
    written: Seq<char>,
    before: Seq<char>,
) -> bool {
    let name = text::strip_start(written, '\\');
    let resolved = php::resolve_behind(written, text::lines(before));
    project_classes.contains(resolved) || project_classes.contains(name)
        || index.runtime_class_of(resolved) is Some || index.runtime_class_called(name) is Some
        || index.vendor_declares(resolved) || name == "self"@ || name == "static"@ || name
        == "parent"@
}

/// The name that begins at an index.
pub open spec fn name_from(s: Seq<char>, start: int) -> Seq<char> {
    s.skip(start).take(php::name_len(s.skip(start), true) as int)
}

/// The report on the class that is written at an index.
pub open spec fn class_report<S: SymbolIndex>(
    index: &S,
    project_classes: Seq<Seq<char>>,
    s: Seq<char>,
    start: int,
) -> Seq<ByteDiagnosticView> {
    let written = name_from(s, start);
    if written.len() > 0 && !class_is_known(index, project_classes, written, s.take(start)) {
        seq![
            report(
                s,
                start,
                start + written.len(),
                DiagnosticSeverity::Error,
                "Unknown class '"@ + text::strip_start(written, '\\') + "'"@,
            ),
        ]
    } else {
        Seq::empty()
    }
}

/// Where the search goes on behind a name of some length at an index.
pub open spec fn behind_name(start: int, size: nat) -> int {
    if size > 0 {
        start + size
    } else {
        start + 1
    }
}

/// The reports of unknown classes behind `new`, from an index on.
pub open spec fn unknown_classes<S: SymbolIndex>(
    index: &S,
    project_classes: Seq<Seq<char>>,
    s: Seq<char>,
    nodes: Seq<SyntaxNodeView>,
    at: int,
) -> Seq<ByteDiagnosticView>
    decreases s.len() + 1 - at,
{
    match text::find_from(s, "new "@, at) {
        None => Seq::empty(),
        Some(found) => {
            let start = found + 4;
            let next = behind_name(start, name_from(s, start).len());
            if found < at || start > s.len() || next > s.len() + 1 {
                Seq::empty()
            } else {
                match syntax::node_at(nodes, offset(s, start), offset(s, start) + 1) {
                    None => Seq::empty(),
                    Some(node) => if literal_node(nodes[node]) {
                        unknown_classes(index, project_classes, s, nodes, start + 1)
                    } else {
                        class_report(index, project_classes, s, start) + unknown_classes(
                            index,
                            project_classes,
                            s,
                            nodes,
                            next,
                        )
                    },
                }
            }
        },
    }
}

/// What the inspection for unknown classes reads.
#[derive(Debug)]
pub struct UnknownClassInspectionInput {
    pub text: String,
    pub syntax: Option<SyntaxTree>,
    pub project_classes: Vec<String>,
}

/// The reports of the inspection for unknown classes; none where the text has no syntax tree.
pub open spec fn unknown_class_reports<S: SymbolIndex>(
    index: &S,
    input: UnknownClassInspectionInput,
) -> Seq<ByteDiagnosticView> {
    match input.syntax {
        Some(tree) => unknown_classes(
            index,
            text::texts(input.project_classes@),
            input.text@,
            tree@,
            0,
        ),
        None => Seq::empty(),
    }
}

fn is_literal(tree: &SyntaxTree, node: usize) -> (r: bool)
    requires
        node < tree@.len(),
    ensures
        r == literal_node(tree@[node as int]),
{
    assert(tree@[node as int] == tree.nodes@[node as int]@);
    let kind = &tree.nodes[node].kind;
    text::eq(kind, "comment") || text::has(kind, "string")
}

fn has_text(texts: &Vec<String>, wanted: &str) -> (r: bool)
    ensures
        r == text::texts(texts@).contains(wanted@),
{
    let ghost all = text::texts(texts@);
    let mut i: usize = 0;
    while i < texts.len()
        invariant
            i <= texts@.len(),
            all == text::texts(texts@),
            forall|k: int| 0 <= k < i ==> all[k] != wanted@,
        decreases texts@.len() - i,
    {
        assert(all[i as int] == texts@[i as int]@);
        if text::eq(&texts[i], wanted) {
            assert(all.contains(wanted@));
            return true;
        }
        i += 1;
    }
    false
}

fn knows_class<S: SymbolIndex>(
    index: &S,
    project_classes: &Vec<String>,
    written: &str,
    source: &str,
    start: usize,
    Ghost(at): Ghost<int>,
) -> (r: bool)
    requires
        0 <= at <= source@.len(),
        start == offset(source@, at),
    ensures
        r == class_is_known(index, text::texts(project_classes@), written@, source@.take(at)),
{
    proof {
        text::lemma_char_boundary(source@, at);
    }
    let resolved = php::resolve_php_class_name_at(written, source, start);
    let chars = text::chars_of(written);
    let name = text::to_string(text::stripped_start(&chars, '\\'));
    has_text(project_classes, &resolved) || has_text(project_classes, &name)
        || index.runtime_class(&resolved).is_some() || index.runtime_class_by_short_name(
        &name,
    ).is_some() || index.has_class_metadata(&resolved) || text::eq(&name, "self") || text::eq(
        &name,
        "static",
    ) || text::eq(&name, "parent")
}

fn name_size(s: &[char], start: usize) -> (r: usize)
    requires
        start <= s@.len(),
    ensures
        r == name_from(s@, start as int).len(),
        start + r <= s@.len(),
        name_from(s@, start as int) == s@.subrange(start as int, start + r),
{
    let n: usize = s.len();
    let mut k: usize = start;
    let ghost rest = s@.skip(start as int);
    while k < n && php::is_name_char(s[k], true)
        invariant
            start <= k <= n == s@.len(),
            rest == s@.skip(start as int),
            php::name_len(rest, true) == k - start + php::name_len(s@.skip(k as int), true),
        decreases n - k,
    {
        assert(s@.skip(k as int)[0] == s@[k as int]);
        assert(s@.skip(k as int).skip(1) =~= s@.skip(k + 1));
        k += 1;
    }
    proof {
        if k < n {
            assert(s@.skip(k as int)[0] == s@[k as int]);
        }
        assert(rest.take(k - start) =~= s@.subrange(start as int, k as int));
    }
    k - start
}

fn inspect_class<S: SymbolIndex>(
    index: &S,
    input: &UnknownClassInspectionInput,
    s: &[char],
    start: usize,
    size: usize,
    out: &mut Vec<ByteDiagnostic>,
)
    requires
        s@ == input.text@,
        start <= s@.len(),
        size == name_from(s@, start as int).len(),
        start + size <= s@.len(),
        name_from(s@, start as int) == s@.subrange(start as int, start + size),
        text::utf8_len(s@) <= usize::MAX,
    ensures
        diagnostics::diagnostic_views(final(out)@) == diagnostics::diagnostic_views(old(out)@)
            + class_report(index, text::texts(input.project_classes@), s@, start as int),
{
    let ghost held = diagnostics::diagnostic_views(out@);
    let n: usize = s.len();
    if size > 0 {
        let written = text::string_of(s, start, start + size);
        assert(written@ == name_from(s@, start as int));
        let start_offset: usize = text::offset_of(s, start);
        if !knows_class(
            index,
            &input.project_classes,
            &written,
            &input.text,
            start_offset,
            Ghost(start as int),
        ) {
            let written_chars = text::chars_of(&written);
            let mut message = text::chars_of("Unknown class '");
            message.extend_from_slice(text::stripped_start(&written_chars, '\\'));
            text::put(&mut message, "'");
            assert(message@ =~= "Unknown class '"@ + text::strip_start(written@, '\\') + "'"@);
            let found = make_report(
                s,
                start,
                start + size,
                DiagnosticSeverity::Error,
                text::to_string(&message),
            );
            out.push(found);
            assert(diagnostics::diagnostic_views(out@) =~= held + seq![found@]);
            return;
        }
    }
    assert(diagnostics::diagnostic_views(out@) =~= held + Seq::<ByteDiagnosticView>::empty());
}

/// Reports the classes behind `new` that are not known. What stands in comments and strings is left
/// alone.
pub fn compute_unknown_class_inspections<S: SymbolIndex>(
    index: &S,
    input: &UnknownClassInspectionInput,
) -> (r: Vec<ByteDiagnostic>)
    ensures
        diagnostics::diagnostic_views(r@) == unknown_class_reports(index, *input),
{
    let mut out: Vec<ByteDiagnostic> = Vec::new();
    assert(diagnostics::diagnostic_views(out@) =~= Seq::<ByteDiagnosticView>::empty());
    let tree = match &input.syntax {
        Some(tree) => tree,
        None => {
            return out;
        },
    };
    let s = text::chars_of(&input.text);
    let size: usize = text::byte_len(&input.text);
    let n: usize = s.len();
    let keyword = text::chars_of("new ");
    proof {
        reveal_strlit("new ");
    }
    let ghost classes = text::texts(input.project_classes@);
    let ghost goal = unknown_classes(index, classes, s@, tree@, 0);
    let mut at: usize = 0;
    assert(diagnostics::diagnostic_views(out@) + goal =~= goal);
    while at <= n
        invariant_except_break
            n == s@.len(),
            at <= n + 1,
            s@ == input.text@,
            size == text::utf8_len(s@),
            keyword@ == "new "@,
            keyword@.len() == 4,
            classes == text::texts(input.project_classes@),
            goal == diagnostics::diagnostic_views(out@) + unknown_classes(
                index,
                classes,
                s@,
                tree@,
                at as int,
            ),
        ensures
            goal == diagnostics::diagnostic_views(out@),
        decreases n + 1 - at,
    {
        let ghost held = diagnostics::diagnostic_views(out@);
        proof {
            text::lemma_find(s@, "new "@, at as int);
            assert(held + Seq::<ByteDiagnosticView>::empty() =~= held);
        }
        let start: usize = match text::find(&s, &keyword, at) {
            Some(found) => found + 4,
            None => {
                break;
            },
        };
        let length: usize = name_size(&s, start);
        if start >= n {
            proof {
                assert(unknown_classes(index, classes, s@, tree@, start + 1)
                    =~= Seq::<ByteDiagnosticView>::empty());
                assert(class_report(index, classes, s@, start as int)
                    =~= Seq::<ByteDiagnosticView>::empty());
                assert(unknown_classes(index, classes, s@, tree@, at as int)
                    =~= Seq::<ByteDiagnosticView>::empty());
            }
            break;
        }
        let start_offset: usize = text::offset_of(&s, start);
        proof {
            text::lemma_take_len(s@, start + 1);
            assert(s@.take(start + 1).drop_last() =~= s@.take(start as int));
        }
        let node: usize = match tree.node_at(start_offset, start_offset + 1) {
            Some(node) => node,
            None => {
                break;
            },
        };
        if is_literal(tree, node) {
            at = start + 1;
        } else {
            inspect_class(index, input, &s, start, length, &mut out);
            at = if length > 0 {
                start + length
            } else {
                start + 1
            };
            proof {
                let here = class_report(index, classes, s@, start as int);
                let more = unknown_classes(index, classes, s@, tree@, at as int);
                assert(held + (here + more) =~= (held + here) + more);
            }
        }
    }
    out
}

/// Whether a constant is always there.
pub open spec fn built_in(name: Seq<char>) -> bool {
    name == "PHP_VERSION"@ || name == "PHP_VERSION_ID"@ || name == "PHP_INT_MAX"@ || name == "PHP_INT_MIN"@ || name == "PHP_INT_SIZE"@ || name == "PHP_OS"@ || name == "PHP_OS_FAMILY"@ || name == "DIRECTORY_SEPARATOR"@ || name == "PATH_SEPARATOR"@ || name == "E_ERROR"@ || name == "E_WARNING"@ || name == "E_PARSE"@ || name == "E_NOTICE"@
}

fn is_built_in(name: &str) -> (r: bool)
    ensures
        r == built_in(name@),
{
    text::eq(name, "PHP_VERSION") || text::eq(name, "PHP_VERSION_ID") || text::eq(name, "PHP_INT_MAX") || text::eq(name, "PHP_INT_MIN") || text::eq(name, "PHP_INT_SIZE") || text::eq(name, "PHP_OS") || text::eq(name, "PHP_OS_FAMILY") || text::eq(name, "DIRECTORY_SEPARATOR") || text::eq(name, "PATH_SEPARATOR") || text::eq(name, "E_ERROR") || text::eq(name, "E_WARNING") || text::eq(name, "E_PARSE") || text::eq(name, "E_NOTICE")
}

/// Whether a character is an ASCII letter.
pub open spec fn ascii_letter(c: char) -> bool {
    ('a' <= c && c <= 'z') || ('A' <= c && c <= 'Z')
}

/// Whether a character may stand in the name of a constant.
pub open spec fn constant_char(c: char) -> bool {
    ascii_letter(c) || ('0' <= c && c <= '9') || c == '_'
}

fn is_constant_char(c: char) -> (r: bool)
    ensures
        r == constant_char(c),
{
    ('a' <= c && c <= 'z') || ('A' <= c && c <= 'Z') || ('0' <= c && c <= '9') || c == '_'
}

/// How many characters of `s`, from its start on, may stand in the name of a constant.
pub open spec fn constant_len(s: Seq<char>) -> nat
    decreases s.len(),
{
    if s.len() > 0 && constant_char(s[0]) {
        1 + constant_len(s.skip(1))
    } else {
        0
    }
}

/// The name of a constant that begins at an index.
pub open spec fn constant_from(s: Seq<char>, start: int) -> Seq<char> {
    s.skip(start).take(constant_len(s.skip(start)) as int)
}

/// Whether a constant is declared, by its name or as the last part of a full name.
pub open spec fn constant_declared(
    known: Seq<(Seq<char>, Seq<char>)>,
    name: Seq<char>,
) -> bool {
    exists|i: int|
        0 <= i < known.len() && ((#[trigger] known[i]).0 == name || text::ends_with(
            known[i].1,
            "\\"@ + name,
        ))
}

/// The names and full names of constants.
pub open spec fn constant_views(known: Seq<(String, String)>) -> Seq<(Seq<char>, Seq<char>)> {
    known.map_values(|c: (String, String)| (c.0@, c.1@))
}

/// The report on the constant that is written at an index.
pub open spec fn constant_report<S: SymbolIndex>(
    index: &S,
    known: Seq<(Seq<char>, Seq<char>)>,
    s: Seq<char>,
    start: int,
) -> Seq<ByteDiagnosticView> {
    let name = constant_from(s, start);
    if name.len() > 0 && (ascii_letter(name[0]) || name[0] == '_') && !built_in(name)
        && !constant_declared(known, name) && !index.runtime_has_constant(name) {
        seq![
            report(
                s,
                start,
                start + name.len(),
                DiagnosticSeverity::Warning,
                "Undefined constant '"@ + name + "'"@,
            ),
        ]
    } else {
        Seq::empty()
    }
}

/// The reports of unknown constants behind `echo`, from an index on.
pub open spec fn unknown_constants<S: SymbolIndex>(
    index: &S,
    known: Seq<(Seq<char>, Seq<char>)>,
    s: Seq<char>,
    nodes: Seq<SyntaxNodeView>,
    at: int,
) -> Seq<ByteDiagnosticView>
    decreases s.len() + 1 - at,
{
    match text::find_from(s, "echo "@, at) {
        None => Seq::empty(),
        Some(found) => {
            let start = found + 5;
            let next = behind_name(start, constant_from(s, start).len());
            if found < at || start > s.len() || next > s.len() + 1 {
                Seq::empty()
            } else {
                match syntax::node_at(nodes, offset(s, start), offset(s, start) + 1) {
                    None => Seq::empty(),
                    Some(node) => if literal_node(nodes[node]) {
                        unknown_constants(index, known, s, nodes, start + 1)
                    } else {
                        constant_report(index, known, s, start) + unknown_constants(
                            index,
                            known,
                            s,
                            nodes,
                            next,
                        )
                    },
                }
            }
        },
    }
}

/// What the inspection for unknown constants reads: the text, its syntax tree, and the names and
/// full names of the constants of the project.
#[derive(Debug)]
pub struct UnknownConstantInspectionInput {
    pub text: String,
    pub syntax: Option<SyntaxTree>,
    pub known_constants: Vec<(String, String)>,
}

/// The reports of the inspection for unknown constants; none where the text has no syntax tree.
pub open spec fn unknown_constant_reports<S: SymbolIndex>(
    index: &S,
    input: UnknownConstantInspectionInput,
) -> Seq<ByteDiagnosticView> {
    match input.syntax {
        Some(tree) => unknown_constants(
            index,
            constant_views(input.known_constants@),
            input.text@,
            tree@,
            0,
        ),
        None => Seq::empty(),
    }
}

fn constant_size(s: &[char], start: usize) -> (r: usize)
    requires
        start <= s@.len(),
    ensures
        r == constant_from(s@, start as int).len(),
        start + r <= s@.len(),
        constant_from(s@, start as int) == s@.subrange(start as int, start + r),
{
    let n: usize = s.len();
    let mut k: usize = start;
    let ghost rest = s@.skip(start as int);
    while k < n && is_constant_char(s[k])
        invariant
            start <= k <= n == s@.len(),
            rest == s@.skip(start as int),
            constant_len(rest) == k - start + constant_len(s@.skip(k as int)),
        decreases n - k,
    {
        assert(s@.skip(k as int)[0] == s@[k as int]);
        assert(s@.skip(k as int).skip(1) =~= s@.skip(k + 1));
        k += 1;
    }
    proof {
        if k < n {
            assert(s@.skip(k as int)[0] == s@[k as int]);
        }
        assert(rest.take(k - start) =~= s@.subrange(start as int, k as int));
    }
    k - start
}

fn is_declared(known: &Vec<(String, String)>, name: &str) -> (r: bool)
    ensures
        r == constant_declared(constant_views(known@), name@),
{
    let ghost all = constant_views(known@);
    let mut last = String::from_str("\\");
    last.append(name);
    let mut i: usize = 0;
    while i < known.len()
        invariant
            i <= known@.len(),
            all == constant_views(known@),
            last@ == "\\"@ + name@,
            forall|k: int|
                0 <= k < i ==> (#[trigger] all[k]).0 != name@ && !text::ends_with(
                    all[k].1,
                    "\\"@ + name@,
                ),
        decreases known@.len() - i,
    {
        assert(all[i as int] == (known@[i as int].0@, known@[i as int].1@));
        if text::eq(&known[i].0, name) || text::ends(&text::chars_of(&known[i].1), &last) {
            return true;
        }
        i += 1;
    }
    false
}

fn inspect_constant<S: SymbolIndex>(
    index: &S,
    known: &Vec<(String, String)>,
    s: &[char],
    start: usize,
    size: usize,
    out: &mut Vec<ByteDiagnostic>,
)
    requires
        start <= s@.len(),
        size == constant_from(s@, start as int).len(),
        start + size <= s@.len(),
        constant_from(s@, start as int) == s@.subrange(start as int, start + size),
        text::utf8_len(s@) <= usize::MAX,
    ensures
        diagnostics::diagnostic_views(final(out)@) == diagnostics::diagnostic_views(old(out)@)
            + constant_report(index, constant_views(known@), s@, start as int),
{
    let ghost held = diagnostics::diagnostic_views(out@);
    let n: usize = s.len();
    if size > 0 {
        let first: char = s[start];
        assert(first == constant_from(s@, start as int)[0]);
        let name = text::string_of(s, start, start + size);
        assert(name@ == constant_from(s@, start as int));
        let begins = ('a' <= first && first <= 'z') || ('A' <= first && first <= 'Z') || first
            == '_';
        if begins && !is_built_in(&name) && !is_declared(known, &name)
            && !index.has_runtime_constant(&name) {
            let mut message = String::from_str("Undefined constant '");
            message.append(&name);
            message.append("'");
            let found = make_report(
                s,
                start,
                start + size,
                DiagnosticSeverity::Warning,
                message,
            );
            out.push(found);
            assert(diagnostics::diagnostic_views(out@) =~= held + seq![found@]);
            return;
        }
    }
    assert(diagnostics::diagnostic_views(out@) =~= held + Seq::<ByteDiagnosticView>::empty());
}

/// Reports the constants behind `echo` that are not known. What stands in comments and strings is
/// left alone.
pub fn compute_unknown_constant_inspections<S: SymbolIndex>(
    index: &S,
    input: &UnknownConstantInspectionInput,
) -> (r: Vec<ByteDiagnostic>)
    ensures
        diagnostics::diagnostic_views(r@) == unknown_constant_reports(index, *input),
{
    let mut out: Vec<ByteDiagnostic> = Vec::new();
    assert(diagnostics::diagnostic_views(out@) =~= Seq::<ByteDiagnosticView>::empty());
    let tree = match &input.syntax {
        Some(tree) => tree,
        None => {
            return out;
        },
    };
    let s = text::chars_of(&input.text);
    let size: usize = text::byte_len(&input.text);
    let n: usize = s.len();
    let keyword = text::chars_of("echo ");
    proof {
        reveal_strlit("echo ");
    }
    let ghost known = constant_views(input.known_constants@);
    let ghost goal = unknown_constants(index, known, s@, tree@, 0);
    let mut at: usize = 0;
    assert(diagnostics::diagnostic_views(out@) + goal =~= goal);
    while at <= n
        invariant_except_break
            n == s@.len(),
            at <= n + 1,
            size == text::utf8_len(s@),
            keyword@ == "echo "@,
            keyword@.len() == 5,
            known == constant_views(input.known_constants@),
            goal == diagnostics::diagnostic_views(out@) + unknown_constants(
                index,
                known,
                s@,
                tree@,
                at as int,
            ),
        ensures
            goal == diagnostics::diagnostic_views(out@),
        decreases n + 1 - at,
    {
        let ghost held = diagnostics::diagnostic_views(out@);
        proof {
            text::lemma_find(s@, "echo "@, at as int);
            assert(held + Seq::<ByteDiagnosticView>::empty() =~= held);
        }
        let start: usize = match text::find(&s, &keyword, at) {
            Some(found) => found + 5,
            None => {
                break;
            },
        };
        let length: usize = constant_size(&s, start);
        if start >= n {
            proof {
                assert(unknown_constants(index, known, s@, tree@, start + 1)
                    =~= Seq::<ByteDiagnosticView>::empty());
                assert(constant_report(index, known, s@, start as int)
                    =~= Seq::<ByteDiagnosticView>::empty());
                assert(unknown_constants(index, known, s@, tree@, at as int)
                    =~= Seq::<ByteDiagnosticView>::empty());
            }
            break;
        }
        let start_offset: usize = text::offset_of(&s, start);
        proof {
            text::lemma_take_len(s@, start + 1);
            assert(s@.take(start + 1).drop_last() =~= s@.take(start as int));
        }
        let node: usize = match tree.node_at(start_offset, start_offset + 1) {
            Some(node) => node,
            None => {
                break;
            },
        };
        if is_literal(tree, node) {
            at = start + 1;
        } else {
            inspect_constant(index, &input.known_constants, &s, start, length, &mut out);
            at = if length > 0 {
                start + length
            } else {
                start + 1
            };
            proof {
                let here = constant_report(index, known, s@, start as int);
                let more = unknown_constants(index, known, s@, tree@, at as int);
                assert(held + (here + more) =~= (held + here) + more);
            }
        }
    }
    out
}

/// A declaration of a class: its full name, the file that holds it, and the range of bytes there.
#[derive(Debug)]
pub struct DuplicateClassDeclaration {
    pub fqn: String,
    pub file: String,
    pub range: Range<usize>,
}

/// What a declaration holds.
#[verifier::ext_equal]
pub struct DeclarationView {
    pub fqn: Seq<char>,
    pub file: Seq<char>,
    pub start: usize,
    pub end: usize,
}

impl View for DuplicateClassDeclaration {
    type V = DeclarationView;

    open spec fn view(&self) -> DeclarationView {
        DeclarationView {
            fqn: self.fqn@,
            file: self.file@,
            start: self.range.start,
            end: self.range.end,
        }
    }
}

/// What a list of declarations holds.
pub open spec fn declaration_views(declarations: Seq<DuplicateClassDeclaration>) -> Seq<
    DeclarationView,
> {
    declarations.map_values(|d: DuplicateClassDeclaration| d@)
}

/// What the inspection for classes that are declared twice reads: the file that is inspected, and
/// all declarations.
#[derive(Debug)]
pub struct DuplicateClassInspectionInput {
    pub path: String,
    pub declarations: Vec<DuplicateClassDeclaration>,
}

/// Whether a declaration stands in a file, and another file declares the same class.
pub open spec fn declared_elsewhere(
    declarations: Seq<DeclarationView>,
    path: Seq<char>,
    declaration: DeclarationView,
) -> bool {
    declaration.file == path && exists|k: int|
        0 <= k < declarations.len() && (#[trigger] declarations[k]).fqn == declaration.fqn
            && declarations[k].file != path
}

/// The report on a class that is declared twice.
pub open spec fn duplicate_report(declaration: DeclarationView) -> ByteDiagnosticView {
    ByteDiagnosticView {
        start: declaration.start,
        end: declaration.end,
        severity: Some(DiagnosticSeverity::Error),
        message: "Duplicate class "@ + declaration.fqn,
    }
}

/// The reports on the classes of a file that another file declares too, in the order of their
/// declarations.
pub open spec fn duplicate_reports(declarations: Seq<DeclarationView>, path: Seq<char>) -> Seq<
    ByteDiagnosticView,
> {
    declarations.filter(|d: DeclarationView| declared_elsewhere(declarations, path, d)).map_values(
        |d: DeclarationView| duplicate_report(d),
    )
}

fn is_declared_elsewhere(input: &DuplicateClassInspectionInput, at: usize) -> (r: bool)
    requires
        at < input.declarations@.len(),
    ensures
        r == declared_elsewhere(
            declaration_views(input.declarations@),
            input.path@,
            input.declarations@[at as int]@,
        ),
{
    let ghost all = declaration_views(input.declarations@);
    let declaration = &input.declarations[at];
    if !text::eq(&declaration.file, &input.path) {
        return false;
    }
    let mut k: usize = 0;
    while k < input.declarations.len()
        invariant
            k <= input.declarations@.len(),
            at < input.declarations@.len(),
            declaration@ == input.declarations@[at as int]@,
            declaration@.file == input.path@,
            all == declaration_views(input.declarations@),
            forall|j: int|
                0 <= j < k ==> (#[trigger] all[j]).fqn != declaration@.fqn || all[j].file
                    == input.path@,
        decreases input.declarations@.len() - k,
    {
        assert(all[k as int] == input.declarations@[k as int]@);
        if text::eq(&input.declarations[k].fqn, &declaration.fqn) && !text::eq(
            &input.declarations[k].file,
            &input.path,
        ) {
            return true;
        }
        k += 1;
    }
    false
}

/// Reports the classes of a file that another file declares too.
pub fn compute_duplicate_class_inspections(input: &DuplicateClassInspectionInput) -> (r: Vec<
    ByteDiagnostic,
>)
    ensures
        diagnostics::diagnostic_views(r@) == duplicate_reports(
            declaration_views(input.declarations@),
            input.path@,
        ),
{
    let ghost all = declaration_views(input.declarations@);
    let ghost keep = |d: DeclarationView| declared_elsewhere(all, input.path@, d);
    let ghost to = |d: DeclarationView| duplicate_report(d);
    let mut out: Vec<ByteDiagnostic> = Vec::new();
    let mut i: usize = 0;
    proof {
        text::lemma_filter_map_none(all, keep, to);
        assert(diagnostics::diagnostic_views(out@) =~= Seq::<ByteDiagnosticView>::empty());
    }
    while i < input.declarations.len()
        invariant
            i <= input.declarations@.len(),
            all == declaration_views(input.declarations@),
            keep == (|d: DeclarationView| declared_elsewhere(all, input.path@, d)),
            to == (|d: DeclarationView| duplicate_report(d)),
            diagnostics::diagnostic_views(out@) == all.take(i as int).filter(keep).map_values(to),
        decreases input.declarations@.len() - i,
    {
        proof {
            text::lemma_filter_map_step(all, keep, to, i as int);
            assert(all[i as int] == input.declarations@[i as int]@);
        }
        if is_declared_elsewhere(input, i) {
            let declaration = &input.declarations[i];
            let mut message = String::from_str("Duplicate class ");
            message.append(&declaration.fqn);
            let found = ByteDiagnostic {
                range: Range { start: declaration.range.start, end: declaration.range.end },
                severity: Some(DiagnosticSeverity::Error),
                message,
            };
            assert(found@ =~= duplicate_report(declaration@));
            let ghost held = diagnostics::diagnostic_views(out@);
            out.push(found);
            assert(diagnostics::diagnostic_views(out@) =~= held.push(found@));
        }
        i += 1;
    }
    assert(all.take(i as int) =~= all);
    out
}

/// A class that only one file declares is not reported.
pub proof fn law_single_declarations_are_not_reported(
    declarations: Seq<DeclarationView>,
    path: Seq<char>,
    declaration: DeclarationView,
)
    requires
        forall|k: int|
            0 <= k < declarations.len() && (#[trigger] declarations[k]).fqn == declaration.fqn
                ==> declarations[k].file == path,
    ensures
        !declared_elsewhere(declarations, path, declaration),
{
}

} // verus!
