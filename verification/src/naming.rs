//! What names stand for in PHP sources, and how parameters and placeholders are read.

use vstd::prelude::*;
use vstd::string::*;

use crate::definitions;
use crate::php;
use crate::php::Import;
use crate::receiver;
use crate::signature;
use crate::signature::Quoting;
use crate::symbols::RuntimeParameterView;
use crate::symbols::RuntimeSymbolView;
use crate::symbols::SymbolIndex;
use crate::text;

verus! {

/// Whether a text holds none of the characters that end, part or rename an import, and no white
/// space.
pub open spec fn import_name(s: Seq<char>) -> bool {
    &&& s.len() > 0
    &&& forall|k: int|
        0 <= k < s.len() ==> {
            let c = #[trigger] s[k];
            !text::whitespace(c) && c != ';' && c != '{'
        }
}

pub proof fn lemma_up_to(value: Seq<char>, c: char, behind: Seq<char>)
    requires
        forall|k: int| 0 <= k < value.len() ==> #[trigger] value[k] != c,
        behind.len() > 0,
        behind[0] == c,
    ensures
        text::before_first(value + behind, c) == value,
{
    let s = value + behind;
    lemma_char_at(s, c, value.len() as int, 0);
    assert(s.take(value.len() as int) =~= value);
}

proof fn lemma_char_at(s: Seq<char>, c: char, at: int, from: int)
    requires
        0 <= from <= at < s.len(),
        s[at] == c,
        forall|k: int| 0 <= k < at ==> #[trigger] s[k] != c,
    ensures
        text::char_from(s, c, from) == Some(at),
    decreases at - from,
{
    if from < at {
        assert(s[from] != c);
        lemma_char_at(s, c, at, from + 1);
    }
}

proof fn lemma_no_char(s: Seq<char>, c: char, before: int)
    requires
        forall|k: int| 0 <= k < s.len() ==> #[trigger] s[k] != c,
        0 <= before <= s.len(),
    ensures
        text::char_before(s, c, before) is None,
    decreases before,
{
    if before > 0 {
        assert(s[before - 1] != c);
        lemma_no_char(s, c, before - 1);
    }
}

pub proof fn lemma_last_char(s: Seq<char>, c: char, at: int, before: int)
    requires
        0 <= at < before <= s.len(),
        s[at] == c,
        forall|k: int| at < k < s.len() ==> #[trigger] s[k] != c,
    ensures
        text::char_before(s, c, before) == Some(at),
    decreases before,
{
    if before - 1 > at {
        assert(s[before - 1] != c);
        lemma_last_char(s, c, at, before - 1);
    }
}

pub proof fn lemma_solid(s: Seq<char>)
    requires
        s.len() > 0,
        !text::whitespace(s[0]),
        !text::whitespace(s.last()),
    ensures
        text::trim(s) == s,
{
}

proof fn lemma_not_split(s: Seq<char>, pattern: Seq<char>, k: int)
    requires
        0 <= k < pattern.len(),
        forall|i: int| 0 <= i < s.len() ==> #[trigger] s[i] != pattern[k],
    ensures
        text::split_at_first(s, pattern) is None,
{
    text::lemma_find(s, pattern, 0);
    if text::find_from(s, pattern, 0) is Some {
        let at = text::find_from(s, pattern, 0)->0;
        assert(text::occurs_at(s, pattern, at));
        assert(s.subrange(at, at + pattern.len())[k] == s[at + k]);
    }
}

proof fn lemma_bare(s: Seq<char>)
    requires
        s.len() > 0,
        s[0] != '\\',
        s.last() != '\\',
    ensures
        php::bare(s) == s,
{
}

/// A line that imports a name imports just that name, and gives it its last part as its name.
pub proof fn law_imports_are_read(namespace: Seq<char>, short: Seq<char>)
    requires
        import_name(namespace),
        import_name(short),
        namespace[0] != '\\',
        forall|k: int| 0 <= k < short.len() ==> #[trigger] short[k] != '\\',
    ensures
        php::imports_of("use "@ + (namespace + "\\"@ + short) + ";"@) == seq![
            Import { fqn: namespace + "\\"@ + short, alias: short },
        ],
        php::imports_of("use "@ + short + ";"@) == seq![Import { fqn: short, alias: short }],
{
    reveal_strlit("\\");
    let fqn = namespace + "\\"@ + short;
    assert(import_name(fqn)) by {
        assert forall|k: int| 0 <= k < fqn.len() implies {
            let c = #[trigger] fqn[k];
            !text::whitespace(c) && c != ';' && c != '{'
        } by {
            if k < namespace.len() {
                assert(fqn[k] == namespace[k]);
            } else if k > namespace.len() {
                assert(fqn[k] == short[k - namespace.len() - 1]);
            }
        }
    }
    assert(fqn[0] == namespace[0]);
    assert(fqn.last() == short[short.len() - 1]);
    lemma_plain_import(fqn);
    lemma_plain_import(short);
    lemma_bare(fqn);
    assert(short[0] != '\\' && short[short.len() - 1] != '\\');
    lemma_bare(short);
    let at = namespace.len() as int;
    assert forall|k: int| at < k < fqn.len() implies #[trigger] fqn[k] != '\\' by {
        assert(fqn[k] == short[k - at - 1]);
    }
    lemma_last_char(fqn, '\\', at, fqn.len() as int);
    assert(fqn.skip(at + 1) =~= short);
    lemma_no_char(short, '\\', short.len() as int);
}

proof fn lemma_plain_import(fqn: Seq<char>)
    requires
        import_name(fqn),
    ensures
        php::imports_of("use "@ + fqn + ";"@) == seq![
            Import { fqn: php::bare(fqn), alias: text::after_last(fqn, '\\') },
        ],
{
    reveal_strlit("use ");
    reveal_strlit(";");
    reveal_strlit("{");
    reveal_strlit(" as ");
    let line = "use "@ + fqn + ";"@;
    assert(line[0] == 'u' && line.last() == ';');
    lemma_solid(line);
    assert(line.subrange(0, 4) =~= "use "@);
    assert(line.skip(4) =~= fqn + ";"@);
    lemma_up_to(fqn, ';', ";"@);
    assert(!text::whitespace(fqn[0]) && !text::whitespace(fqn[fqn.len() - 1]));
    lemma_solid(fqn);
    lemma_not_split(fqn, "{"@, 0);
    assert forall|i: int| 0 <= i < fqn.len() implies #[trigger] fqn[i] != " as "@[0] by {
        assert(" as "@[0] == ' ');
    }
    lemma_not_split(fqn, " as "@, 0);
}

/// A line that declares a namespace declares the one that it names, and the first such line counts.
pub proof fn law_namespaces_are_read(
    before: Seq<Seq<char>>,
    name: Seq<char>,
    behind: Seq<Seq<char>>,
)
    requires
        import_name(name),
        forall|k: int|
            0 <= k < before.len() ==> !"namespace "@.is_prefix_of(
                text::trim(#[trigger] before[k]),
            ),
    ensures
        ({
            let lines = before + seq!["namespace "@ + name + ";"@] + behind;
            &&& php::first_namespace(lines, 0) == Some(name)
            &&& php::namespace_in(lines, 0) == name
        }),
{
    lemma_namespace(before, name, behind, 0);
}

proof fn lemma_namespace(
    before: Seq<Seq<char>>,
    name: Seq<char>,
    behind: Seq<Seq<char>>,
    from: int,
)
    requires
        import_name(name),
        0 <= from <= before.len(),
        forall|k: int|
            0 <= k < before.len() ==> !"namespace "@.is_prefix_of(
                text::trim(#[trigger] before[k]),
            ),
    ensures
        ({
            let lines = before + seq!["namespace "@ + name + ";"@] + behind;
            &&& php::first_namespace(lines, from) == Some(name)
            &&& php::namespace_in(lines, from) == name
        }),
    decreases before.len() - from,
{
    let lines = before + seq!["namespace "@ + name + ";"@] + behind;
    reveal_strlit("namespace ");
    reveal_strlit(";");
    if from < before.len() {
        let line = text::trim(lines[from]);
        assert(lines[from] == before[from]);
        assert(text::after_prefix(line, "namespace "@) is None) by {
            if text::starts_with(line, "namespace "@) {
                assert("namespace "@ =~= line.subrange(0, 10));
            }
        }
        lemma_namespace(before, name, behind, from + 1);
    } else {
        let line = "namespace "@ + name + ";"@;
        assert(lines[from] == line);
        assert(line[0] == 'n' && line.last() == ';');
        lemma_solid(line);
        assert(line.subrange(0, 10) =~= "namespace "@);
        let value = name + ";"@;
        assert(line.skip(10) =~= value);
        lemma_up_to(name, ';', ";"@);
        assert(!text::whitespace(name[0]) && !text::whitespace(name[name.len() - 1]));
        lemma_solid(name);
        assert(value.drop_last() =~= name);
        assert(name[name.len() - 1] != ';');
        reveal_with_fuel(text::strip_end, 3);
        assert(text::strip_end(value, ';') == name);
    }
}

/// A name without a namespace that nothing imports stands for itself in the first namespace that is
/// declared, and for itself where none is.
pub proof fn law_names_stand_in_their_namespace(name: Seq<char>, lines: Seq<Seq<char>>)
    requires
        name.len() > 0,
        !text::whitespace(name[0]),
        !text::whitespace(name.last()),
        !name.contains('\\'),
        name != "self"@,
        name != "static"@,
        name != "parent"@,
        php::imported(lines, name, 0) is None,
    ensures
        match php::first_namespace(lines, 0) {
            Some(namespace) => php::resolve(name, lines) == namespace + "\\"@ + name,
            None => php::resolve(name, lines) == name,
        },
{
    reveal_strlit("\\");
    lemma_solid(name);
    assert(name[0] != '\\');
    assert(php::plain(name) == name);
    match php::first_namespace(lines, 0) {
        Some(namespace) => {
            assert(namespace.push('\\') + name =~= namespace + "\\"@ + name);
        },
        None => {},
    }
}

/// Whether a text is a name that is not part of a longer one, for what stands behind it.
pub open spec fn whole_name(name: Seq<char>, behind: Seq<char>) -> bool {
    &&& name.len() > 0
    &&& forall|k: int|
        0 <= k < name.len() ==> text::alphanumeric(#[trigger] name[k]) || name[k] == '_'
    &&& behind.len() > 0 ==> !text::alphanumeric(behind[0]) && behind[0] != '_'
}

proof fn lemma_identifier_len(name: Seq<char>, behind: Seq<char>, k: int)
    requires
        whole_name(name, behind),
        0 <= k <= name.len(),
    ensures
        php::name_len((name + behind).skip(k), false) == name.len() - k,
    decreases name.len() - k,
{
    let rest = (name + behind).skip(k);
    if k < name.len() {
        assert(rest[0] == name[k]);
        assert(rest.skip(1) =~= (name + behind).skip(k + 1));
        lemma_identifier_len(name, behind, k + 1);
    } else if behind.len() > 0 {
        assert(rest[0] == behind[0]);
    }
}

/// A line that declares a class declares the one whose name stands behind the keyword; within a
/// namespace that is its full name.
pub proof fn law_classes_are_declared(
    name: Seq<char>,
    behind: Seq<char>,
    lines: Seq<Seq<char>>,
    more: Seq<Seq<char>>,
)
    requires
        whole_name(name, behind),
        behind.len() > 0,
        !text::whitespace(behind.last()),
        lines == seq!["class "@ + name + behind] + more,
    ensures
        php::declared_on("class "@ + name + behind) == Some(name),
        php::declared_class(lines) == Some(
            if php::namespace_in(lines, 0).len() == 0 {
                name
            } else {
                php::namespace_in(lines, 0) + "\\"@ + name
            },
        ),
{
    reveal_strlit("class ");
    reveal_strlit("\\");
    let line = "class "@ + name + behind;
    assert(line[0] == 'c');
    assert(line.last() == behind.last());
    lemma_solid(line);
    text::lemma_find(line, "class "@, 0);
    assert(line.subrange(0, 6) =~= "class "@);
    assert(text::occurs_at(line, "class "@, 0));
    assert(text::find_from(line, "class "@, 0) == Some(0int));
    let rest = name + behind;
    assert(line.skip(6) =~= rest);
    lemma_identifier_len(name, behind, 0);
    assert(rest.skip(0) =~= rest);
    assert(rest.take(name.len() as int) =~= name);
    assert(lines[0] == line);
    let namespace = php::namespace_in(lines, 0);
    assert(namespace.push('\\') + name =~= namespace + "\\"@ + name);
}

/// A variable that was last made by `new` is of the class that stands behind it.
pub proof fn law_new_objects_are_of_their_class<S: SymbolIndex>(
    index: &S,
    variable: Seq<char>,
    before: Seq<char>,
    written: Seq<char>,
    behind: Seq<char>,
    document: Seq<char>,
)
    requires
        variable.len() > 1,
        variable[0] == '$',
        variable[1] != '$',
        variable != "$this"@,
        forall|k: int|
            0 <= k < variable.len() ==> !text::whitespace(#[trigger] variable[k]) && variable[k]
                != '-',
        written.len() > 0,
        forall|k: int|
            0 <= k < written.len() ==> text::alphanumeric(#[trigger] written[k]) || written[k]
                == '_' || written[k] == '\\',
        behind.len() > 0 ==> !text::alphanumeric(behind[0]) && behind[0] != '_' && behind[0]
            != '\\',
        ({
            let context = before + (variable + " = new "@) + written + behind;
            forall|k: int|
                before.len() < k <= context.len() - (variable + " = new "@).len()
                    ==> #[trigger] context.subrange(k, k + (variable + " = new "@).len()) != variable
                    + " = new "@
        }),
    ensures
        receiver::receiver_type(
            index,
            variable,
            before + (variable + " = new "@) + written + behind,
            document,
        ) == Some(receiver::class_name(index, written, document)),
{
    let pattern = variable + " = new "@;
    let context = before + pattern + written + behind;
    assert(!text::whitespace(variable[0]));
    assert(!text::whitespace(variable[variable.len() - 1]));
    lemma_solid(variable);
    reveal_strlit("->");
    assert(definitions::stands_nowhere("->"@, variable)) by {
        assert forall|k: int| 0 <= k <= variable.len() - "->"@.len() implies #[trigger] variable.subrange(
            k,
            k + "->"@.len(),
        ) != "->"@ by {
            assert(variable.subrange(k, k + "->"@.len())[0] == variable[k]);
        }
    }
    definitions::lemma_absent(variable, "->"@, variable.len() as int + 1);
    reveal_strlit("$");
    let candidate = variable.skip(1);
    assert(candidate[0] == variable[1]);
    reveal_with_fuel(text::strip_start, 3);
    assert(text::strip_start(variable, '$') == candidate);
    assert("$"@ + candidate =~= variable);
    let at = before.len() as int;
    assert(context.subrange(at, at + pattern.len()) =~= pattern);
    lemma_last_at(context, pattern, at, context.len() as int + 1);
    let tail = context.skip(at + pattern.len());
    assert(tail =~= written + behind);
    lemma_qualified_len(written, behind, 0);
    assert((written + behind).skip(0) =~= written + behind);
    assert(tail.take(written.len() as int) =~= written);
}

proof fn lemma_qualified_len(name: Seq<char>, behind: Seq<char>, k: int)
    requires
        forall|i: int|
            0 <= i < name.len() ==> text::alphanumeric(#[trigger] name[i]) || name[i] == '_'
                || name[i] == '\\',
        behind.len() > 0 ==> !text::alphanumeric(behind[0]) && behind[0] != '_' && behind[0]
            != '\\',
        0 <= k <= name.len(),
    ensures
        php::name_len((name + behind).skip(k), true) == name.len() - k,
    decreases name.len() - k,
{
    let rest = (name + behind).skip(k);
    if k < name.len() {
        assert(rest[0] == name[k]);
        assert(rest.skip(1) =~= (name + behind).skip(k + 1));
        lemma_qualified_len(name, behind, k + 1);
    } else if behind.len() > 0 {
        assert(rest[0] == behind[0]);
    }
}

pub proof fn lemma_last_at(s: Seq<char>, pattern: Seq<char>, at: int, before: int)
    requires
        0 <= at < before <= s.len() + 1,
        at + pattern.len() <= s.len(),
        s.subrange(at, at + pattern.len()) == pattern,
        forall|k: int|
            at < k <= s.len() - pattern.len() ==> #[trigger] s.subrange(k, k + pattern.len())
                != pattern,
    ensures
        text::rfind_before(s, pattern, before) == Some(at),
    decreases before,
{
    if before - 1 > at {
        if text::occurs_at(s, pattern, before - 1) {
            assert(s.subrange(before - 1, before - 1 + pattern.len()) == pattern);
        }
        lemma_last_at(s, pattern, at, before - 1);
    }
}

/// Whether a text holds no quote, no bracket and no comma.
pub open spec fn unbroken(s: Seq<char>) -> bool {
    forall|k: int|
        0 <= k < s.len() ==> {
            let c = #[trigger] s[k];
            c != '\'' && c != '"' && c != '(' && c != ')' && c != '[' && c != ']' && c != '{' && c
                != '}' && c != ','
        }
}

/// Whether a text holds no quote and no bracket.
pub open spec fn flat(s: Seq<char>) -> bool {
    forall|k: int|
        0 <= k < s.len() ==> {
            let c = #[trigger] s[k];
            c != '\'' && c != '"' && c != '(' && c != ')' && c != '[' && c != ']' && c != '{' && c
                != '}'
        }
}

proof fn lemma_parts_moved(
    head: Seq<char>,
    s: Seq<char>,
    start: int,
    at: int,
    nesting: nat,
    quoting: Quoting,
)
    requires
        0 <= start <= at <= s.len(),
    ensures
        signature::parameter_parts(head + s, head.len() + start, head.len() + at, nesting, quoting)
            == signature::parameter_parts(s, start, at, nesting, quoting),
    decreases s.len() - at,
{
    let all = head + s;
    if at == s.len() {
        assert(all.skip(head.len() + start) =~= s.skip(start));
    } else {
        let c = s[at];
        assert(all[head.len() + at] == c);
        assert(all.subrange(head.len() + start, head.len() + at) =~= s.subrange(start, at));
        if quoting.quote is Some {
            lemma_parts_moved(head, s, start, at + 1, nesting, signature::within(quoting, c));
        } else if c == '\'' || c == '"' {
            lemma_parts_moved(
                head,
                s,
                start,
                at + 1,
                nesting,
                Quoting { quote: Some(c), ..quoting },
            );
        } else if c == '(' || c == '[' || c == '{' {
            lemma_parts_moved(head, s, start, at + 1, nesting + 1, quoting);
        } else if c == ')' || c == ']' || c == '}' {
            lemma_parts_moved(
                head,
                s,
                start,
                at + 1,
                if nesting > 0 {
                    (nesting - 1) as nat
                } else {
                    0
                },
                quoting,
            );
        } else if c == ',' && nesting == 0 {
            lemma_parts_moved(head, s, at + 1, at + 1, nesting, quoting);
        } else {
            lemma_parts_moved(head, s, start, at + 1, nesting, quoting);
        }
    }
}

proof fn lemma_parts_skip(s: Seq<char>, at: int, to: int, nesting: nat)
    requires
        0 <= at <= to <= s.len(),
        flat(s.subrange(at, to)),
        nesting == 0 ==> unbroken(s.subrange(at, to)),
    ensures
        signature::parameter_parts(s, 0, at, nesting, signature::unquoted())
            == signature::parameter_parts(s, 0, to, nesting, signature::unquoted()),
    decreases to - at,
{
    if at < to {
        let part = s.subrange(at, to);
        assert(part[0] == s[at]);
        assert forall|k: int| 0 <= k < s.subrange(at + 1, to).len() implies #[trigger] s.subrange(
            at + 1,
            to,
        )[k] == part[k + 1] by {}
        lemma_parts_skip(s, at + 1, to, nesting);
    }
}

/// A list of parameters is parted at its commas: what stands before the first is the first parameter,
/// and the rest is parted in the same way; without a comma there is one. A comma within brackets parts
/// nothing.
pub proof fn law_parameters_are_parted_at_commas(
    first: Seq<char>,
    rest: Seq<char>,
    inner: Seq<char>,
    last: Seq<char>,
)
    requires
        unbroken(first),
        flat(inner),
        unbroken(last),
    ensures
        signature::parameters_of(first + ","@ + rest) == seq![first] + signature::parameters_of(
            rest,
        ),
        signature::parameters_of(first) == seq![first],
        signature::parameters_of(first + "["@ + inner + "]"@ + last) == seq![
            first + "["@ + inner + "]"@ + last,
        ],
        signature::parameters_of(first + "("@ + inner + ")"@ + last) == seq![
            first + "("@ + inner + ")"@ + last,
        ],
{
    reveal_strlit(",");
    reveal_strlit("[");
    reveal_strlit("]");
    reveal_strlit("(");
    reveal_strlit(")");
    let n = first.len() as int;
    let listed = first + ","@ + rest;
    assert(listed.subrange(0, n) =~= first);
    lemma_parts_skip(listed, 0, n, 0);
    assert(listed =~= (first + ","@) + rest);
    lemma_parts_moved(first + ","@, rest, 0, 0, 0, signature::unquoted());
    assert(first.subrange(0, n) =~= first);
    lemma_parts_skip(first, 0, n, 0);
    assert(first.skip(0) =~= first);
    lemma_bracketed(first, "["@, inner, "]"@, last);
    lemma_bracketed(first, "("@, inner, ")"@, last);
}

proof fn lemma_bracketed(
    first: Seq<char>,
    open: Seq<char>,
    inner: Seq<char>,
    close: Seq<char>,
    last: Seq<char>,
)
    requires
        unbroken(first),
        flat(inner),
        unbroken(last),
        open.len() == 1,
        close.len() == 1,
        (open[0] == '[' && close[0] == ']') || (open[0] == '(' && close[0] == ')'),
    ensures
        signature::parameters_of(first + open + inner + close + last) == seq![
            first + open + inner + close + last,
        ],
{
    let s = first + open + inner + close + last;
    let n = first.len() as int;
    let m = n + 1 + inner.len();
    assert(s.subrange(0, n) =~= first);
    lemma_parts_skip(s, 0, n, 0);
    assert(s.subrange(n + 1, m) =~= inner);
    lemma_parts_skip(s, n + 1, m, 1);
    assert(s.subrange(m + 1, s.len() as int) =~= last);
    lemma_parts_skip(s, m + 1, s.len() as int, 0);
    assert(s[n] == open[0]);
    assert(s[m] == close[0]);
    assert(s.skip(0) =~= s);
}

/// Every parameter that is not blank may be given an argument. One with a default, or that takes the
/// rest, need not be; the latter may be given any number.
pub proof fn law_parameters_make_arity(before: Seq<Seq<char>>, parameter: Seq<char>)
    ensures
        ({
            let told = text::trim(parameter);
            let known = signature::arity_of(before);
            let arity = signature::arity_of(before.push(parameter));
            let rest = exists|k: int|
                0 <= k <= told.len() - 3 && #[trigger] told.subrange(k, k + 3) == "..."@;
            &&& told.len() == 0 ==> arity == known
            &&& told.len() > 0 ==> arity.maximum == known.maximum + 1
            &&& told.len() > 0 && !told.contains('=') && !rest ==> arity.required == known.required
                + 1
            &&& told.len() > 0 && (told.contains('=') || rest) ==> arity.required == known.required
            &&& told.len() > 0 && rest ==> arity.variadic
            &&& told.len() > 0 && !rest ==> arity.variadic == known.variadic
        }),
        signature::arity_of(Seq::empty()).maximum == 0,
        signature::arity_of(Seq::empty()).required == 0,
        !signature::arity_of(Seq::empty()).variadic,
{
    reveal_strlit("...");
    assert(before.push(parameter).drop_last() =~= before);
    let told = text::trim(parameter);
    if exists|k: int| 0 <= k <= told.len() - 3 && #[trigger] told.subrange(k, k + 3) == "..."@ {
        let k = choose|k: int|
            0 <= k <= told.len() - 3 && #[trigger] told.subrange(k, k + 3) == "..."@;
        assert(text::occurs_at(told, "..."@, k));
    }
    if text::contains_text(told, "..."@) {
        let k = choose|k: int| text::occurs_at(told, "..."@, k);
        assert(told.subrange(k, k + 3) == "..."@);
    }
}

/// A snippet without placeholders is written as it is; a placeholder with a default is written as that,
/// and one that is only a number is not written.
pub proof fn law_placeholders_become_their_defaults(
    plain: Seq<char>,
    number: Seq<char>,
    default: Seq<char>,
    rest: Seq<char>,
)
    requires
        forall|k: int| 0 <= k < plain.len() ==> #[trigger] plain[k] != '$',
        forall|k: int|
            0 <= k < number.len() ==> '0' <= #[trigger] number[k] && number[k] <= '9',
        forall|k: int| 0 <= k < default.len() ==> #[trigger] default[k] != '}',
        rest.len() > 0 ==> !('0' <= rest[0] && rest[0] <= '9') && rest[0] != '{',
    ensures
        signature::plain_snippet(plain + rest) == plain + signature::plain_snippet(rest),
        signature::plain_snippet("${"@ + number + ":"@ + default + "}"@ + rest) == default
            + signature::plain_snippet(rest),
        signature::plain_snippet("$"@ + number + rest) == signature::plain_snippet(rest),
{
    lemma_plain_snippet(plain, rest);
    reveal_strlit("${");
    reveal_strlit(":");
    reveal_strlit("}");
    reveal_strlit("$");
    let body = number + ":"@ + default;
    let s = "${"@ + number + ":"@ + default + "}"@ + rest;
    let end = 2 + body.len() as int;
    assert(s =~= "${"@ + body + "}"@ + rest);
    assert(s[0] == '$' && s[1] == '{');
    assert(s[end] == '}');
    assert forall|k: int| 2 <= k < end implies #[trigger] s[k] != '}' by {
        assert(s[k] == body[k - 2]);
        if k - 2 < number.len() {
            assert(body[k - 2] == number[k - 2]);
        } else if k - 2 > number.len() {
            assert(body[k - 2] == default[k - 2 - number.len() - 1]);
        }
    }
    lemma_closing(s, end, 2);
    assert(s.subrange(2, end) =~= body);
    assert(s.skip(end + 1) =~= rest);
    text::lemma_find(body, ":"@, 0);
    let at = number.len() as int;
    assert(body.subrange(at, at + 1) =~= ":"@);
    assert(text::occurs_at(body, ":"@, at));
    assert forall|k: int| 0 <= k < at implies !#[trigger] text::occurs_at(body, ":"@, k) by {
        if text::occurs_at(body, ":"@, k) {
            assert(body.subrange(k, k + 1)[0] == number[k]);
        }
    }
    assert(text::find_from(body, ":"@, 0) == Some(at));
    assert(body.skip(at + 1) =~= default);
    let short = "$"@ + number + rest;
    assert(short.skip(1) =~= number + rest);
    lemma_digits(number, rest);
    assert((number + rest).skip(number.len() as int) =~= rest);
    if number.len() > 0 {
        assert(short[1] == number[0]);
    } else if rest.len() > 0 {
        assert(short[1] == rest[0]);
    }
}

proof fn lemma_closing(s: Seq<char>, end: int, from: int)
    requires
        2 <= from <= end < s.len(),
        s[end] == '}',
        forall|k: int| 2 <= k < end ==> #[trigger] s[k] != '}',
    ensures
        text::char_from(s, '}', from) == Some(end),
    decreases end - from,
{
    if from < end {
        assert(s[from] != '}');
        lemma_closing(s, end, from + 1);
    }
}

proof fn lemma_digits(number: Seq<char>, rest: Seq<char>)
    requires
        forall|k: int|
            0 <= k < number.len() ==> '0' <= #[trigger] number[k] && number[k] <= '9',
        rest.len() > 0 ==> !('0' <= rest[0] && rest[0] <= '9'),
    ensures
        signature::digits_len(number + rest) == number.len(),
    decreases number.len(),
{
    let s = number + rest;
    if number.len() > 0 {
        assert(s[0] == number[0]);
        assert(s.skip(1) =~= number.skip(1) + rest);
        assert forall|k: int| 0 <= k < number.skip(1).len() implies '0' <= #[trigger] number.skip(
            1,
        )[k] && number.skip(1)[k] <= '9' by {
            assert(number.skip(1)[k] == number[k + 1]);
        }
        lemma_digits(number.skip(1), rest);
    } else {
        assert(s =~= rest);
    }
}

proof fn lemma_plain_snippet(plain: Seq<char>, rest: Seq<char>)
    requires
        forall|k: int| 0 <= k < plain.len() ==> #[trigger] plain[k] != '$',
    ensures
        signature::plain_snippet(plain + rest) == plain + signature::plain_snippet(rest),
    decreases plain.len(),
{
    let s = plain + rest;
    if plain.len() > 0 {
        assert(s[0] == plain[0]);
        assert(s.skip(1) =~= plain.skip(1) + rest);
        assert forall|k: int| 0 <= k < plain.skip(1).len() implies #[trigger] plain.skip(1)[k]
            != '$' by {
            assert(plain.skip(1)[k] == plain[k + 1]);
        }
        lemma_plain_snippet(plain.skip(1), rest);
        let told = signature::plain_snippet(rest);
        assert(seq![s[0]] + (plain.skip(1) + told) =~= plain + told);
    } else {
        assert(s =~= rest);
        assert(plain + signature::plain_snippet(rest) =~= signature::plain_snippet(rest));
    }
}

/// Whether a text is a call of a name with one argument for each parameter, named after it.
pub open spec fn calls_with(
    call: Seq<char>,
    name: Seq<char>,
    parameters: Seq<RuntimeParameterView>,
    written: Seq<Seq<char>>,
) -> bool {
    &&& written.len() == parameters.len()
    &&& call == name + "("@ + text::join(written, ", "@) + ")"@
    &&& forall|k: int|
        0 <= k < written.len() ==> (#[trigger] written[k]) == (if parameters[k].variadic {
            "$..."@
        } else {
            "$"@
        }) + text::strip_start(parameters[k].name, '$')
}

/// A completed function of the runtime is written as a call with all its parameters in their order,
/// where its signature is known.
pub proof fn law_completed_calls_name_their_parameters(symbol: RuntimeSymbolView)
    ensures
        symbol.signature is None ==> signature::runtime_call(symbol) is None,
        symbol.signature is Some ==> signature::runtime_call(symbol) is Some && exists|
            written: Seq<Seq<char>>,
        | #[trigger]
            calls_with(
                signature::runtime_call(symbol)->0,
                symbol.name,
                (symbol.signature->0).parameters,
                written,
            ),
{
    match symbol.signature {
        Some(found) => {
            let written = found.parameters.map_values(
                |p: RuntimeParameterView| signature::call_argument(p),
            );
            reveal_strlit("$");
            reveal_strlit("...");
            reveal_strlit("$...");
            assert("$"@ + "..."@ =~= "$..."@);
            assert("$"@ + Seq::<char>::empty() =~= "$"@);
            assert(calls_with(
                signature::runtime_call(symbol)->0,
                symbol.name,
                found.parameters,
                written,
            ));
        },
        None => {},
    }
}

} // verus!
