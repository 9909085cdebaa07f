//! Names in PHP source: imports, namespaces, declarations and what a written name stands for.

use vstd::prelude::*;
use vstd::slice::slice_subrange;
use vstd::slice::slice_to_vec;
use vstd::string::*;

use crate::text;

verus! {

/// An import: the full name of what is imported, and the name that it is given.
pub struct Import {
    pub fqn: Seq<char>,
    pub alias: Seq<char>,
}

/// The full name and the given name that an imported name is written as.
pub open spec fn named_import(written: Seq<char>) -> (Seq<char>, Seq<char>) {
    match text::split_at_first(written, " as "@) {
        Some((name, alias)) => (text::trim(name), text::trim(alias)),
        None => (written, text::after_last(written, '\\')),
    }
}

/// `s` without the backslashes at either end.
pub open spec fn bare(s: Seq<char>) -> Seq<char> {
    text::strip_end(text::strip_start(s, '\\'), '\\')
}

/// The imports that the members of a group make.
pub open spec fn group_imports(prefix: Seq<char>, members: Seq<Seq<char>>) -> Seq<Import>
    decreases members.len(),
{
    if members.len() == 0 {
        Seq::empty()
    } else {
        let before = group_imports(prefix, members.drop_last());
        let member = text::trim(members.last());
        if member.len() == 0 {
            before
        } else {
            let (name, alias) = named_import(member);
            before.push(Import { fqn: prefix.push('\\') + bare(name), alias })
        }
    }
}

/// The imports that a line makes: one, or one for each member of a group.
pub open spec fn imports_of(line: Seq<char>) -> Seq<Import> {
    match text::after_prefix(text::trim(line), "use "@) {
        None => Seq::empty(),
        Some(rest) => {
            let value = text::trim(text::before_first(rest, ';'));
            match text::split_at_first(value, "{"@) {
                Some((prefix, members)) => group_imports(
                    text::strip_end(text::trim(prefix), '\\'),
                    text::split(text::strip_end(members, '}'), ','),
                ),
                None => {
                    let (fqn, alias) = named_import(value);
                    seq![Import { fqn: bare(fqn), alias }]
                },
            }
        },
    }
}

/// The imports of a list of pairs.
pub open spec fn import_views(imports: Seq<(String, String)>) -> Seq<Import> {
    imports.map_values(|i: (String, String)| Import { fqn: i.0@, alias: i.1@ })
}

fn split_import(written: &[char]) -> (r: (&[char], &[char]))
    ensures
        (r.0@, r.1@) == named_import(written@),
{
    match text::cut(written, " as ") {
        Some((name, alias)) => (text::trimmed(name), text::trimmed(alias)),
        None => (written, text::behind_last(written, '\\')),
    }
}

/// `s` without the backslashes at either end.
pub fn stripped(s: &[char]) -> (r: &[char])
    ensures
        r@ == bare(s@),
{
    text::stripped_end(text::stripped_start(s, '\\'), '\\')
}

fn read_group(prefix: &[char], members: &Vec<Vec<char>>) -> (r: Vec<(String, String)>)
    ensures
        import_views(r@) == group_imports(prefix@, text::runs(members@)),
{
    let ghost all = text::runs(members@);
    let mut out: Vec<(String, String)> = Vec::new();
    let mut i: usize = 0;
    assert(all.take(0) =~= Seq::<Seq<char>>::empty());
    assert(import_views(out@) =~= Seq::<Import>::empty());
    while i < members.len()
        invariant
            i <= members@.len(),
            all == text::runs(members@),
            import_views(out@) == group_imports(prefix@, all.take(i as int)),
        decreases members@.len() - i,
    {
        let ghost before = import_views(out@);
        assert(all.take(i + 1).drop_last() =~= all.take(i as int));
        assert(all.take(i + 1).last() == members@[i as int]@);
        let member = text::trimmed(&members[i]);
        if member.len() > 0 {
            let (name, alias) = split_import(member);
            let mut fqn: Vec<char> = Vec::new();
            fqn.extend_from_slice(prefix);
            fqn.push('\\');
            fqn.extend_from_slice(stripped(name));
            assert(fqn@ =~= prefix@.push('\\') + bare(name@));
            let pair = (text::to_string(&fqn), text::to_string(alias));
            out.push(pair);
            assert(import_views(out@) =~= before.push(Import { fqn: pair.0@, alias: pair.1@ }));
        }
        i += 1;
    }
    assert(all.take(i as int) =~= all);
    out
}

fn read_imports(line: &[char]) -> (r: Vec<(String, String)>)
    ensures
        import_views(r@) == imports_of(line@),
{
    let rest = match text::behind_prefix(text::trimmed(line), "use ") {
        None => {
            let none: Vec<(String, String)> = Vec::new();
            assert(import_views(none@) =~= Seq::<Import>::empty());
            return none;
        },
        Some(rest) => rest,
    };
    let value = text::trimmed(text::up_to(rest, ';'));
    match text::cut(value, "{") {
        Some((prefix, members)) => read_group(
            text::stripped_end(text::trimmed(prefix), '\\'),
            &text::split_char(text::stripped_end(members, '}'), ','),
        ),
        None => {
            let (fqn, alias) = split_import(value);
            let pair = (text::to_string(stripped(fqn)), text::to_string(alias));
            let mut out: Vec<(String, String)> = Vec::new();
            out.push(pair);
            assert(import_views(out@) =~= seq![Import { fqn: pair.0@, alias: pair.1@ }]);
            out
        },
    }
}

/// The imports that a line makes, as pairs of the full name and the name given to it.
pub fn parse_use_imports(line: &str) -> (r: Vec<(String, String)>)
    ensures
        import_views(r@) == imports_of(line@),
{
    read_imports(&text::chars_of(line))
}

/// The full name of the first import, from index `from` on, that is given a name.
pub open spec fn import_named(imports: Seq<Import>, alias: Seq<char>, from: int) -> Option<
    Seq<char>,
>
    decreases imports.len() - from,
{
    if from >= imports.len() {
        None
    } else if imports[from].alias == alias {
        Some(imports[from].fqn)
    } else {
        import_named(imports, alias, from + 1)
    }
}

/// The full name of the first import, on the lines from `from` on, that is given a name.
pub open spec fn imported(lines: Seq<Seq<char>>, alias: Seq<char>, from: int) -> Option<Seq<char>>
    decreases lines.len() - from,
{
    if from >= lines.len() {
        None
    } else {
        match import_named(imports_of(lines[from]), alias, 0) {
            Some(fqn) => Some(fqn),
            None => imported(lines, alias, from + 1),
        }
    }
}

fn find_import(lines: &Vec<Vec<char>>, alias: &[char]) -> (r: Option<String>)
    ensures
        match r {
            Some(fqn) => imported(text::runs(lines@), alias@, 0) == Some(fqn@),
            None => imported(text::runs(lines@), alias@, 0) is None,
        },
{
    let ghost all = text::runs(lines@);
    let mut i: usize = 0;
    while i < lines.len()
        invariant
            i <= lines@.len(),
            all == text::runs(lines@),
            imported(all, alias@, 0) == imported(all, alias@, i as int),
        decreases lines@.len() - i,
    {
        assert(all[i as int] == lines@[i as int]@);
        let imports = read_imports(&lines[i]);
        let ghost shown = import_views(imports@);
        let mut k: usize = 0;
        while k < imports.len()
            invariant
                k <= imports@.len(),
                i < lines@.len(),
                all == text::runs(lines@),
                shown == import_views(imports@),
                shown == imports_of(all[i as int]),
                imported(all, alias@, 0) == imported(all, alias@, i as int),
                import_named(shown, alias@, 0) == import_named(shown, alias@, k as int),
            decreases imports@.len() - k,
        {
            assert(shown[k as int].alias == imports@[k as int].1@);
            if text::same(&text::chars_of(&imports[k].1), alias) {
                return Some(imports[k].0.clone());
            }
            k += 1;
        }
        i += 1;
    }
    None
}

/// Whether some line imports a full name.
pub open spec fn imports_name(lines: Seq<Seq<char>>, fqn: Seq<char>) -> bool {
    exists|i: int, k: int|
        0 <= i < lines.len() && 0 <= k < imports_of(lines[i]).len() && (
        #[trigger] imports_of(lines[i])[k]).fqn == fqn
}

/// Whether a text imports a full name.
pub fn has_import(context: &str, fqn: &str) -> (r: bool)
    ensures
        r == imports_name(text::lines(context@), fqn@),
{
    let lines = text::split_lines(&text::chars_of(context));
    let wanted = text::chars_of(fqn);
    let ghost all = text::runs(lines@);
    let mut i: usize = 0;
    while i < lines.len()
        invariant
            i <= lines@.len(),
            all == text::runs(lines@),
            all == text::lines(context@),
            wanted@ == fqn@,
            forall|a: int, b: int|
                0 <= a < i && 0 <= b < imports_of(all[a]).len() ==> (#[trigger] imports_of(
                    all[a],
                )[b]).fqn != fqn@,
        decreases lines@.len() - i,
    {
        assert(all[i as int] == lines@[i as int]@);
        let imports = read_imports(&lines[i]);
        let ghost shown = import_views(imports@);
        let mut k: usize = 0;
        while k < imports.len()
            invariant
                k <= imports@.len(),
                i < lines@.len(),
                all == text::runs(lines@),
                all == text::lines(context@),
                wanted@ == fqn@,
                shown == import_views(imports@),
                shown == imports_of(all[i as int]),
                forall|b: int| 0 <= b < k ==> (#[trigger] imports_of(all[i as int])[b]).fqn != fqn@,
            decreases imports@.len() - k,
        {
            assert(imports_of(all[i as int])[k as int].fqn == imports@[k as int].0@);
            if text::same(&text::chars_of(&imports[k].0), &wanted) {
                return true;
            }
            k += 1;
        }
        i += 1;
    }
    false
}

/// The namespace that a line declares.
pub open spec fn namespace_on(line: Seq<char>) -> Option<Seq<char>> {
    match text::after_prefix(text::trim(line), "namespace "@) {
        Some(value) => {
            let namespace = text::trim(text::strip_end(value, ';'));
            if namespace.len() > 0 {
                Some(namespace)
            } else {
                None
            }
        },
        None => None,
    }
}

/// The first namespace that a line, from line `from` on, declares.
pub open spec fn first_namespace(lines: Seq<Seq<char>>, from: int) -> Option<Seq<char>>
    decreases lines.len() - from,
{
    if from >= lines.len() {
        None
    } else {
        match namespace_on(lines[from]) {
            Some(namespace) => Some(namespace),
            None => first_namespace(lines, from + 1),
        }
    }
}

/// The namespace that a line names, up to a semicolon.
pub open spec fn namespace_named(line: Seq<char>) -> Option<Seq<char>> {
    match text::after_prefix(text::trim(line), "namespace "@) {
        Some(value) => Some(text::trim(text::before_first(value, ';'))),
        None => None,
    }
}

/// The namespace of a text: that of the first line, from line `from` on, that names one.
pub open spec fn namespace_in(lines: Seq<Seq<char>>, from: int) -> Seq<char>
    decreases lines.len() - from,
{
    if from >= lines.len() {
        Seq::empty()
    } else {
        match namespace_named(lines[from]) {
            Some(namespace) => namespace,
            None => namespace_in(lines, from + 1),
        }
    }
}

fn read_namespace(lines: &Vec<Vec<char>>) -> (r: Vec<char>)
    ensures
        r@ == namespace_in(text::runs(lines@), 0),
{
    let ghost all = text::runs(lines@);
    let mut i: usize = 0;
    while i < lines.len()
        invariant
            i <= lines@.len(),
            all == text::runs(lines@),
            namespace_in(all, 0) == namespace_in(all, i as int),
        decreases lines@.len() - i,
    {
        assert(all[i as int] == lines@[i as int]@);
        match text::behind_prefix(text::trimmed(&lines[i]), "namespace ") {
            Some(value) => {
                return slice_to_vec(text::trimmed(text::up_to(value, ';')));
            },
            None => {},
        }
        i += 1;
    }
    let none: Vec<char> = Vec::new();
    assert(none@ =~= Seq::<char>::empty());
    none
}

/// The namespace of a text.
pub fn current_namespace(context: &str) -> (r: String)
    ensures
        r@ == namespace_in(text::lines(context@), 0),
{
    text::to_string(&read_namespace(&text::split_lines(&text::chars_of(context))))
}

/// Whether a character may stand in an identifier.
pub open spec fn identifier_char(c: char) -> bool {
    text::alphanumeric(c) || c == '_'
}

/// Whether a character may stand in a qualified name.
pub open spec fn name_char(c: char) -> bool {
    identifier_char(c) || c == '\\'
}

/// How many characters of `s`, from its start, may stand in a name.
pub open spec fn name_len(s: Seq<char>, qualified: bool) -> nat
    decreases s.len(),
{
    if s.len() > 0 && (if qualified {
        name_char(s[0])
    } else {
        identifier_char(s[0])
    }) {
        1 + name_len(s.skip(1), qualified)
    } else {
        0
    }
}

/// The name behind the first `keyword` on a line, where there is one.
pub open spec fn name_behind(line: Seq<char>, keyword: Seq<char>, qualified: bool) -> Option<
    Seq<char>,
> {
    match text::split_at_first(line, keyword) {
        Some((_, rest)) => if name_len(rest, qualified) > 0 {
            Some(rest.take(name_len(rest, qualified) as int))
        } else {
            None
        },
        None => None,
    }
}

/// The type that a line declares.
pub open spec fn declared_on(line: Seq<char>) -> Option<Seq<char>> {
    let line = text::trim(line);
    match name_behind(line, "class "@, false) {
        Some(name) => Some(name),
        None => match name_behind(line, "trait "@, false) {
            Some(name) => Some(name),
            None => match name_behind(line, "interface "@, false) {
                Some(name) => Some(name),
                None => name_behind(line, "enum "@, false),
            },
        },
    }
}

/// The type that the first declaring line, from line `from` on, declares.
pub open spec fn first_declared(lines: Seq<Seq<char>>, from: int) -> Option<Seq<char>>
    decreases lines.len() - from,
{
    if from >= lines.len() {
        None
    } else {
        match declared_on(lines[from]) {
            Some(name) => Some(name),
            None => first_declared(lines, from + 1),
        }
    }
}

/// A name within a namespace.
pub open spec fn qualified(namespace: Seq<char>, name: Seq<char>) -> Seq<char> {
    if namespace.len() == 0 {
        name
    } else {
        namespace.push('\\') + name
    }
}

/// The full name of the type that a text declares first.
pub open spec fn declared_class(lines: Seq<Seq<char>>) -> Option<Seq<char>> {
    match first_declared(lines, 0) {
        Some(name) => Some(qualified(namespace_in(lines, 0), name)),
        None => None,
    }
}

/// Whether a character may stand in a name.
pub fn is_name_char(c: char, qualified: bool) -> (r: bool)
    ensures
        r == (if qualified {
            name_char(c)
        } else {
            identifier_char(c)
        }),
{
    text::is_alphanumeric(c) || c == '_' || (qualified && c == '\\')
}

proof fn lemma_name_len(s: Seq<char>, qualified: bool)
    ensures
        name_len(s, qualified) <= s.len(),
    decreases s.len(),
{
    if s.len() > 0 {
        lemma_name_len(s.skip(1), qualified);
    }
}

fn read_name_behind(line: &[char], keyword: &str, qualified: bool) -> (r: Option<Vec<char>>)
    ensures
        match r {
            Some(name) => name_behind(line@, keyword@, qualified) == Some(name@),
            None => name_behind(line@, keyword@, qualified) is None,
        },
{
    match text::cut(line, keyword) {
        None => None,
        Some((_, rest)) => {
            let mut n: usize = 0;
            assert(rest@.skip(0) =~= rest@);
            while n < rest.len() && is_name_char(rest[n], qualified)
                invariant
                    n <= rest@.len(),
                    name_len(rest@, qualified) == n + name_len(rest@.skip(n as int), qualified),
                decreases rest@.len() - n,
            {
                assert(rest@.skip(n as int).skip(1) =~= rest@.skip(n + 1));
                n += 1;
            }
            if n > 0 {
                assert(rest@.subrange(0, n as int) =~= rest@.take(n as int));
                Some(slice_to_vec(slice_subrange(rest, 0, n)))
            } else {
                None
            }
        },
    }
}

fn read_declared_on(line: &[char]) -> (r: Option<Vec<char>>)
    ensures
        match r {
            Some(name) => declared_on(line@) == Some(name@),
            None => declared_on(line@) is None,
        },
{
    let line = text::trimmed(line);
    match read_name_behind(line, "class ", false) {
        Some(name) => Some(name),
        None => match read_name_behind(line, "trait ", false) {
            Some(name) => Some(name),
            None => match read_name_behind(line, "interface ", false) {
                Some(name) => Some(name),
                None => read_name_behind(line, "enum ", false),
            },
        },
    }
}

fn qualify(namespace: &[char], name: &[char]) -> (r: Vec<char>)
    ensures
        r@ == qualified(namespace@, name@),
{
    if namespace.len() == 0 {
        return slice_to_vec(name);
    }
    let mut out: Vec<char> = Vec::new();
    out.extend_from_slice(namespace);
    out.push('\\');
    out.extend_from_slice(name);
    assert(out@ =~= namespace@.push('\\') + name@);
    out
}

fn read_declared_class(lines: &Vec<Vec<char>>) -> (r: Option<Vec<char>>)
    ensures
        match r {
            Some(fqn) => declared_class(text::runs(lines@)) == Some(fqn@),
            None => declared_class(text::runs(lines@)) is None,
        },
{
    let ghost all = text::runs(lines@);
    let mut i: usize = 0;
    while i < lines.len()
        invariant
            i <= lines@.len(),
            all == text::runs(lines@),
            first_declared(all, 0) == first_declared(all, i as int),
        decreases lines@.len() - i,
    {
        assert(all[i as int] == lines@[i as int]@);
        match read_declared_on(&lines[i]) {
            Some(name) => {
                return Some(qualify(&read_namespace(lines), &name));
            },
            None => {},
        }
        i += 1;
    }
    None
}

/// The full name of the type that a text declares first.
pub fn declared_class_fqn(context: &str) -> (r: Option<String>)
    ensures
        match r {
            Some(fqn) => declared_class(text::lines(context@)) == Some(fqn@),
            None => declared_class(text::lines(context@)) is None,
        },
{
    match read_declared_class(&text::split_lines(&text::chars_of(context))) {
        Some(fqn) => Some(text::to_string(&fqn)),
        None => None,
    }
}

/// The parent that the first line, from line `from` on, that names one names.
pub open spec fn first_parent(lines: Seq<Seq<char>>, from: int) -> Option<Seq<char>>
    decreases lines.len() - from,
{
    if from >= lines.len() {
        None
    } else {
        match name_behind(text::trim(lines[from]), "extends "@, true) {
            Some(name) => Some(name),
            None => first_parent(lines, from + 1),
        }
    }
}

/// A name as it is looked up: without white space around it and backslashes before it.
pub open spec fn plain(written: Seq<char>) -> Seq<char> {
    text::strip_start(text::trim(written), '\\')
}

/// What a name that is no keyword stands for: itself where it is qualified, else what an import
/// gives that name to, else the name within the first namespace that is declared.
pub open spec fn resolve_plain(written: Seq<char>, lines: Seq<Seq<char>>) -> Seq<char> {
    if written.contains('\\') {
        written
    } else {
        match imported(lines, written, 0) {
            Some(fqn) => fqn,
            None => match first_namespace(lines, 0) {
                Some(namespace) => namespace.push('\\') + written,
                None => written,
            },
        }
    }
}

/// What a name other than `parent` stands for; `self` and `static` are the type declared first.
pub open spec fn resolve_but_parent(written: Seq<char>, lines: Seq<Seq<char>>) -> Seq<char> {
    let name = plain(written);
    if name == "self"@ || name == "static"@ {
        match declared_class(lines) {
            Some(fqn) => fqn,
            None => name,
        }
    } else {
        resolve_plain(name, lines)
    }
}

/// The full name of the parent that a text names first. A text that names `parent` itself names
/// none.
pub open spec fn declared_parent(lines: Seq<Seq<char>>) -> Option<Seq<char>> {
    match first_parent(lines, 0) {
        None => None,
        Some(name) => if plain(name) == "parent"@ {
            None
        } else {
            Some(resolve_but_parent(name, lines))
        },
    }
}

/// What a written name stands for in a text.
pub open spec fn resolve(written: Seq<char>, lines: Seq<Seq<char>>) -> Seq<char> {
    if plain(written) == "parent"@ {
        match declared_parent(lines) {
            Some(fqn) => fqn,
            None => "parent"@,
        }
    } else {
        resolve_but_parent(written, lines)
    }
}

fn find_first_namespace(lines: &Vec<Vec<char>>) -> (r: Option<Vec<char>>)
    ensures
        match r {
            Some(namespace) => first_namespace(text::runs(lines@), 0) == Some(namespace@),
            None => first_namespace(text::runs(lines@), 0) is None,
        },
{
    let ghost all = text::runs(lines@);
    let mut i: usize = 0;
    while i < lines.len()
        invariant
            i <= lines@.len(),
            all == text::runs(lines@),
            first_namespace(all, 0) == first_namespace(all, i as int),
        decreases lines@.len() - i,
    {
        assert(all[i as int] == lines@[i as int]@);
        match text::behind_prefix(text::trimmed(&lines[i]), "namespace ") {
            Some(value) => {
                let namespace = text::trimmed(text::stripped_end(value, ';'));
                if namespace.len() > 0 {
                    return Some(slice_to_vec(namespace));
                }
            },
            None => {},
        }
        i += 1;
    }
    None
}

fn find_plain(written: &[char], lines: &Vec<Vec<char>>) -> (r: Vec<char>)
    ensures
        r@ == resolve_plain(written@, text::runs(lines@)),
{
    if text::holds(written, '\\') {
        return slice_to_vec(written);
    }
    match find_import(lines, written) {
        Some(fqn) => text::chars_of(&fqn),
        None => match find_first_namespace(lines) {
            Some(namespace) => {
                let mut out = namespace;
                let ghost before = out@;
                out.push('\\');
                out.extend_from_slice(written);
                assert(out@ =~= before.push('\\') + written@);
                out
            },
            None => slice_to_vec(written),
        },
    }
}

fn find_but_parent(written: &[char], lines: &Vec<Vec<char>>) -> (r: Vec<char>)
    ensures
        r@ == resolve_but_parent(written@, text::runs(lines@)),
{
    let name = text::stripped_start(text::trimmed(written), '\\');
    if text::same(name, &text::chars_of("self")) || text::same(name, &text::chars_of("static")) {
        return match read_declared_class(lines) {
            Some(fqn) => fqn,
            None => slice_to_vec(name),
        };
    }
    find_plain(name, lines)
}

fn find_parent(lines: &Vec<Vec<char>>) -> (r: Option<Vec<char>>)
    ensures
        match r {
            Some(fqn) => declared_parent(text::runs(lines@)) == Some(fqn@),
            None => declared_parent(text::runs(lines@)) is None,
        },
{
    let ghost all = text::runs(lines@);
    let mut i: usize = 0;
    while i < lines.len()
        invariant
            i <= lines@.len(),
            all == text::runs(lines@),
            first_parent(all, 0) == first_parent(all, i as int),
        decreases lines@.len() - i,
    {
        assert(all[i as int] == lines@[i as int]@);
        match read_name_behind(text::trimmed(&lines[i]), "extends ", true) {
            Some(name) => {
                let looked_up = text::stripped_start(text::trimmed(&name), '\\');
                if text::same(looked_up, &text::chars_of("parent")) {
                    return None;
                }
                return Some(find_but_parent(&name, lines));
            },
            None => {},
        }
        i += 1;
    }
    None
}

/// The full name of the parent that a text names first.
pub fn declared_parent_fqn(context: &str) -> (r: Option<String>)
    ensures
        match r {
            Some(fqn) => declared_parent(text::lines(context@)) == Some(fqn@),
            None => declared_parent(text::lines(context@)) is None,
        },
{
    match find_parent(&text::split_lines(&text::chars_of(context))) {
        Some(fqn) => Some(text::to_string(&fqn)),
        None => None,
    }
}

/// What a written name stands for in a text.
pub fn resolve_php_class_name(written: &str, context: &str) -> (r: String)
    ensures
        r@ == resolve(written@, text::lines(context@)),
{
    let chars = text::chars_of(written);
    let lines = text::split_lines(&text::chars_of(context));
    let name = text::stripped_start(text::trimmed(&chars), '\\');
    if text::same(name, &text::chars_of("parent")) {
        return match find_parent(&lines) {
            Some(fqn) => text::to_string(&fqn),
            None => String::from_str("parent"),
        };
    }
    text::to_string(&find_but_parent(&chars, &lines))
}

/// The namespace that the last naming line names, without semicolons and braces at its end.
pub open spec fn last_namespace(lines: Seq<Seq<char>>) -> Option<Seq<char>>
    decreases lines.len(),
{
    if lines.len() == 0 {
        None
    } else {
        match text::after_prefix(text::trim(lines.last()), "namespace "@) {
            Some(value) => Some(text::trim(strip_closers(value))),
            None => last_namespace(lines.drop_last()),
        }
    }
}

/// `s` without the semicolons and opening braces at its end.
pub open spec fn strip_closers(s: Seq<char>) -> Seq<char>
    decreases s.len(),
{
    if s.len() > 0 && (s.last() == ';' || s.last() == '{') {
        strip_closers(s.drop_last())
    } else {
        s
    }
}

/// `s` without the semicolons and opening braces at its end.
pub fn without_closers(s: &[char]) -> (r: &[char])
    ensures
        r@ == strip_closers(s@),
{
    let mut n: usize = s.len();
    assert(s@.take(n as int) =~= s@);
    while n > 0 && (s[n - 1] == ';' || s[n - 1] == '{')
        invariant
            n <= s@.len(),
            strip_closers(s@) == strip_closers(s@.take(n as int)),
        decreases n,
    {
        assert(s@.take(n as int).drop_last() =~= s@.take(n - 1));
        n -= 1;
    }
    assert(s@.subrange(0, n as int) =~= s@.take(n as int));
    slice_subrange(s, 0, n)
}

/// What a written name stands for behind some lines: itself where it is qualified, else what an
/// import before it gives that name to, else the name within the namespace named last.
pub open spec fn resolve_behind(written: Seq<char>, lines: Seq<Seq<char>>) -> Seq<char> {
    let name = plain(written);
    if name.contains('\\') {
        name
    } else {
        match imported(lines, name, 0) {
            Some(fqn) => fqn,
            None => match last_namespace(lines) {
                Some(namespace) => qualified(namespace, name),
                None => name,
            },
        }
    }
}

fn find_last_namespace(lines: &Vec<Vec<char>>) -> (r: Option<Vec<char>>)
    ensures
        match r {
            Some(namespace) => last_namespace(text::runs(lines@)) == Some(namespace@),
            None => last_namespace(text::runs(lines@)) is None,
        },
{
    let ghost all = text::runs(lines@);
    let mut i: usize = lines.len();
    assert(all.take(i as int) =~= all);
    while i > 0
        invariant
            i <= lines@.len(),
            all == text::runs(lines@),
            last_namespace(all) == last_namespace(all.take(i as int)),
        decreases i,
    {
        assert(all.take(i as int).last() == lines@[i - 1]@);
        assert(all.take(i as int).drop_last() =~= all.take(i - 1));
        match text::behind_prefix(text::trimmed(&lines[i - 1]), "namespace ") {
            Some(value) => {
                return Some(slice_to_vec(text::trimmed(without_closers(value))));
            },
            None => {},
        }
        i -= 1;
    }
    None
}

/// What a written name stands for at a byte offset of a text. The offset stands between two
/// characters, or behind the text.
pub fn resolve_php_class_name_at(written: &str, context: &str, offset: usize) -> (r: String)
    requires
        plain(written@).contains('\\') || boundary(context@, offset as nat),
    ensures
        r@ == resolve_behind(
            written@,
            text::lines(text::fitting_prefix(context@, offset as nat)),
        ),
{
    let written_chars = text::chars_of(written);
    let chars = text::chars_of(context);
    let name = text::stripped_start(text::trimmed(&written_chars), '\\');
    if text::holds(name, '\\') {
        return text::to_string(name);
    }
    let (n, _) = text::fit(&chars, offset);
    assert(chars@.subrange(0, n as int) =~= chars@.take(n as int));
    let lines = text::split_lines(slice_subrange(&chars, 0, n));
    match find_import(&lines, name) {
        Some(fqn) => fqn,
        None => match find_last_namespace(&lines) {
            Some(namespace) => text::to_string(&qualify(&namespace, name)),
            None => text::to_string(name),
        },
    }
}

/// Whether a byte offset stands between two characters of a text, or at or behind its end.
pub open spec fn boundary(s: Seq<char>, offset: nat) -> bool {
    offset >= text::utf8_len(s) || offset == text::utf8_len(text::fitting_prefix(s, offset))
}

/// `s` without the empty argument lists at its end.
pub open spec fn strip_calls(s: Seq<char>) -> Seq<char>
    decreases s.len(),
{
    if s.len() >= 2 && s[s.len() - 2] == '(' && s.last() == ')' {
        strip_calls(s.take(s.len() - 2))
    } else {
        s
    }
}

/// The members that an expression accesses one after the other.
pub open spec fn chain_methods(parts: Seq<Seq<char>>) -> Seq<Seq<char>>
    decreases parts.len(),
{
    if parts.len() == 0 {
        Seq::empty()
    } else {
        let name = strip_calls(text::trim(parts.last()));
        if name.len() > 0 {
            chain_methods(parts.drop_last()).push(name)
        } else {
            chain_methods(parts.drop_last())
        }
    }
}

/// An expression as its base and the members that are accessed behind it, where there are any.
pub open spec fn method_chain(owner: Seq<char>) -> Option<(Seq<char>, Seq<Seq<char>>)> {
    let parts = text::split_text(owner, "->"@);
    let methods = chain_methods(parts.skip(1));
    if methods.len() > 0 {
        Some((text::trim(parts[0]), methods))
    } else {
        None
    }
}

fn without_calls(s: &[char]) -> (r: Vec<char>)
    ensures
        r@ == strip_calls(s@),
{
    let mut n: usize = s.len();
    assert(s@.take(n as int) =~= s@);
    while n >= 2 && s[n - 2] == '(' && s[n - 1] == ')'
        invariant
            n <= s@.len(),
            strip_calls(s@) == strip_calls(s@.take(n as int)),
        decreases n,
    {
        assert(s@.take(n as int).take(n - 2) =~= s@.take(n - 2));
        n -= 2;
    }
    assert(s@.subrange(0, n as int) =~= s@.take(n as int));
    slice_to_vec(slice_subrange(s, 0, n))
}

/// An expression as its base and the members that are accessed behind it, where there are any.
pub fn split_method_chain(owner: &str) -> (r: Option<(String, Vec<String>)>)
    ensures
        match r {
            Some((base, methods)) => method_chain(owner@) == Some(
                (base@, text::texts(methods@)),
            ),
            None => method_chain(owner@) is None,
        },
{
    proof {
        reveal_strlit("->");
    }
    let chars = text::chars_of(owner);
    let parts = text::split_on(&chars, "->");
    let ghost all = text::runs(parts@).skip(1);
    proof {
        assert(text::split_text(owner@, "->"@).len() > 0);
    }
    let mut methods: Vec<String> = Vec::new();
    let mut i: usize = 1;
    assert(all.take(0) =~= Seq::<Seq<char>>::empty());
    assert(text::texts(methods@) =~= Seq::<Seq<char>>::empty());
    while i < parts.len()
        invariant
            1 <= i <= parts@.len(),
            all == text::runs(parts@).skip(1),
            text::texts(methods@) == chain_methods(all.take(i - 1)),
        decreases parts@.len() - i,
    {
        let ghost before = text::texts(methods@);
        assert(all.take(i as int).drop_last() =~= all.take(i - 1));
        assert(all.take(i as int).last() == parts@[i as int]@);
        let name = without_calls(text::trimmed(&parts[i]));
        if name.len() > 0 {
            let name = text::to_string(&name);
            methods.push(name);
            assert(text::texts(methods@) =~= before.push(name@));
        }
        i += 1;
    }
    assert(all.take(i - 1) =~= all);
    if methods.len() > 0 {
        assert(text::runs(parts@)[0] == parts@[0]@);
        Some((text::to_string(text::trimmed(&parts[0])), methods))
    } else {
        None
    }
}

/// Whether a character may stand in an expression that owns a member.
pub open spec fn owner_char(c: char) -> bool {
    identifier_char(c) || c == '$' || c == '\\' || c == '-' || c == '>'
}

/// Where the expression that ends at an index begins.
pub open spec fn owner_start(s: Seq<char>, end: int) -> int
    decreases end,
{
    if 0 < end <= s.len() && owner_char(s[end - 1]) {
        owner_start(s, end - 1)
    } else {
        end
    }
}

proof fn lemma_owner_start(s: Seq<char>, end: int)
    requires
        0 <= end <= s.len(),
    ensures
        0 <= owner_start(s, end) <= end,
    decreases end,
{
    if 0 < end && owner_char(s[end - 1]) {
        lemma_owner_start(s, end - 1);
    }
}

/// The expression that ends at a byte offset: where it begins, and what it is.
pub fn extract_owner_expression(source: &str, owner_end: usize) -> (r: (usize, String))
    requires
        text::char_boundary(source@, owner_end as nat),
    ensures
        ({
            let end = text::fitting(source@, owner_end as int) as int;
            let start = owner_start(source@, end);
            &&& r.0 == text::utf8_len(source@.take(start))
            &&& r.1@ == text::trim(source@.subrange(start, end))
        }),
{
    let chars = text::chars_of(source);
    let (end, bytes) = text::fit(&chars, owner_end);
    let mut start: usize = end;
    let mut offset: usize = bytes;
    while start > 0 && (text::is_alphanumeric(chars[start - 1]) || chars[start - 1] == '_'
        || chars[start - 1] == '$' || chars[start - 1] == '\\' || chars[start - 1] == '-'
        || chars[start - 1] == '>')
        invariant
            start <= end <= chars@.len(),
            offset == text::utf8_len(chars@.take(start as int)),
            owner_start(chars@, end as int) == owner_start(chars@, start as int),
        decreases start,
    {
        assert(chars@.take(start as int).drop_last() =~= chars@.take(start - 1));
        offset -= text::width(chars[start - 1]);
        start -= 1;
    }
    (offset, text::to_string(text::trimmed(slice_subrange(&chars, start, end))))
}

/// Whether a line imports a full name, under its own name or another.
pub open spec fn line_imports(line: Seq<char>, fqn: Seq<char>) -> bool {
    text::trim(line) == "use "@ + fqn + ";"@ || text::starts_with(
        text::trim_start(line),
        "use "@ + fqn + " as "@,
    )
}

/// The smaller of two numbers.
pub open spec fn least(a: nat, b: nat) -> nat {
    if a <= b {
        a
    } else {
        b
    }
}

/// The part of a text between two byte offsets, where both are boundaries in their order; offsets
/// behind the text mean its end.
pub open spec fn region(s: Seq<char>, start: nat, end: nat) -> Option<Seq<char>> {
    let from = least(start, text::utf8_len(s));
    let to = least(end, text::utf8_len(s));
    if from <= to && text::char_boundary(s, from) && text::char_boundary(s, to) {
        Some(s.subrange(text::fitting(s, from as int) as int, text::fitting(s, to as int) as int))
    } else {
        None
    }
}

/// Whether a part of a text imports a full name.
pub open spec fn region_imports(part: Seq<char>, fqn: Seq<char>) -> bool {
    exists|i: int|
        0 <= i < text::lines(part).len() && line_imports(#[trigger] text::lines(part)[i], fqn)
}

proof fn lemma_fitting_order(s: Seq<char>, a: int, b: int)
    requires
        0 <= a <= b,
    ensures
        text::fitting(s, a) <= text::fitting(s, b) <= s.len(),
{
    text::lemma_fitting(s, a);
    text::lemma_fitting(s, b);
}

/// Whether the part of a text between two byte offsets imports a full name.
pub fn has_import_in_region(source: &str, fqn: &str, start: usize, end: usize) -> (r: bool)
    ensures
        r == (match region(source@, start as nat, end as nat) {
            Some(part) => region_imports(part, fqn@),
            None => false,
        }),
{
    let chars = text::chars_of(source);
    let size: usize = text::byte_len(source);
    let from: usize = if start <= size {
        start
    } else {
        size
    };
    let to: usize = if end <= size {
        end
    } else {
        size
    };
    if from > to {
        return false;
    }
    let (first, last) = match (text::char_index(&chars, from), text::char_index(&chars, to)) {
        (Some(first), Some(last)) => (first, last),
        _ => {
            return false;
        },
    };
    proof {
        lemma_fitting_order(source@, from as int, to as int);
    }
    let mut whole = String::from_str("use ");
    whole.append(fqn);
    let mut alias = whole.clone();
    whole.append(";");
    alias.append(" as ");
    let whole = text::chars_of(&whole);
    let alias = text::chars_of(&alias);
    let lines = text::split_lines(slice_subrange(&chars, first, last));
    let ghost all = text::runs(lines@);
    let ghost part = source@.subrange(first as int, last as int);
    let mut i: usize = 0;
    while i < lines.len()
        invariant
            i <= lines@.len(),
            all == text::runs(lines@),
            all == text::lines(part),
            whole@ == "use "@ + fqn@ + ";"@,
            alias@ == "use "@ + fqn@ + " as "@,
            region(source@, start as nat, end as nat) == Some(part),
            forall|k: int| 0 <= k < i ==> !line_imports(#[trigger] text::lines(part)[k], fqn@),
        decreases lines@.len() - i,
    {
        assert(text::lines(part)[i as int] == lines@[i as int]@);
        if text::same(text::trimmed(&lines[i]), &whole) || text::is_at(
            text::trimmed_start(&lines[i]),
            &alias,
            0,
        ) {
            return true;
        }
        i += 1;
    }
    false
}

/// Whether a character may stand in a written type.
pub open spec fn type_char(c: char) -> bool {
    name_char(c) || c == '|'
}

/// `s` without the question marks and ampersands at its start.
pub open spec fn strip_marks(s: Seq<char>) -> Seq<char>
    decreases s.len(),
{
    if s.len() > 0 && (s[0] == '?' || s[0] == '&') {
        strip_marks(s.skip(1))
    } else {
        s
    }
}

/// The type that a line gives a property: the last word before it, up to a bar, where that is a
/// type.
pub open spec fn property_type_on(line: Seq<char>, needle: Seq<char>) -> Option<Seq<char>> {
    match text::split_at_first(text::trim(line), needle) {
        None => None,
        Some((before, _)) => {
            let words = text::words(text::trim(before));
            if words.len() == 0 {
                None
            } else {
                let written = strip_marks(words.last());
                if written.len() > 0 && (forall|k: int|
                    0 <= k < written.len() ==> type_char(#[trigger] written[k])) {
                    Some(text::before_first(written, '|'))
                } else {
                    None
                }
            }
        },
    }
}

/// The type that the first line, from line `from` on, that gives one gives a property.
pub open spec fn property_type(lines: Seq<Seq<char>>, needle: Seq<char>, from: int) -> Option<
    Seq<char>,
>
    decreases lines.len() - from,
{
    if from >= lines.len() {
        None
    } else {
        match property_type_on(lines[from], needle) {
            Some(found) => Some(found),
            None => property_type(lines, needle, from + 1),
        }
    }
}

fn read_property_type(line: &[char], needle: &str) -> (r: Option<Vec<char>>)
    ensures
        match r {
            Some(found) => property_type_on(line@, needle@) == Some(found@),
            None => property_type_on(line@, needle@) is None,
        },
{
    let before = match text::cut(text::trimmed(line), needle) {
        None => {
            return None;
        },
        Some((before, _)) => before,
    };
    let words = text::split_words(text::trimmed(before));
    let ghost shown = text::runs(words@);
    if words.len() == 0 {
        return None;
    }
    let last = &words[words.len() - 1];
    assert(shown.last() == last@);
    let mut from: usize = 0;
    assert(last@.skip(0) =~= last@);
    while from < last.len() && (last[from] == '?' || last[from] == '&')
        invariant
            from <= last@.len(),
            strip_marks(last@) == strip_marks(last@.skip(from as int)),
        decreases last@.len() - from,
    {
        assert(last@.skip(from as int).skip(1) =~= last@.skip(from + 1));
        from += 1;
    }
    let n: usize = last.len();
    assert(last@.subrange(from as int, n as int) =~= last@.skip(from as int));
    let written = slice_subrange(last, from, n);
    assert(strip_marks(shown.last()) == written@);
    if written.len() == 0 {
        return None;
    }
    let mut i: usize = 0;
    while i < written.len()
        invariant
            i <= written@.len(),
            strip_marks(shown.last()) == written@,
            shown == text::words(text::trim(before@)),
            shown.len() > 0,
            text::split_at_first(text::trim(line@), needle@) is Some,
            before@ == (text::split_at_first(text::trim(line@), needle@)->0).0,
            forall|k: int| 0 <= k < i ==> type_char(#[trigger] written@[k]),
        decreases written@.len() - i,
    {
        let c: char = written[i];
        if !(is_name_char(c, true) || c == '|') {
            assert(!type_char(strip_marks(shown.last())[i as int]));
            return None;
        }
        i += 1;
    }
    Some(slice_to_vec(text::up_to(written, '|')))
}

/// The type that a text gives a property.
pub fn property_type_in_context(context: &str, property: &str) -> (r: Option<String>)
    ensures
        match r {
            Some(found) => property_type(text::lines(context@), "$"@ + property@, 0) == Some(
                found@,
            ),
            None => property_type(text::lines(context@), "$"@ + property@, 0) is None,
        },
{
    let mut needle = String::from_str("$");
    needle.append(property);
    let lines = text::split_lines(&text::chars_of(context));
    let ghost all = text::runs(lines@);
    let mut i: usize = 0;
    while i < lines.len()
        invariant
            i <= lines@.len(),
            needle@ == "$"@ + property@,
            all == text::runs(lines@),
            all == text::lines(context@),
            property_type(all, needle@, 0) == property_type(all, needle@, i as int),
        decreases lines@.len() - i,
    {
        assert(all[i as int] == lines@[i as int]@);
        match read_property_type(&lines[i], &needle) {
            Some(found) => {
                return Some(text::to_string(&found));
            },
            None => {},
        }
        i += 1;
    }
    None
}

/// What kind of type a position calls for.
#[derive(Clone, Copy, Debug, PartialEq, Eq, Structural)]
pub enum TypeCompletionContext {
    New,
    ClassExtends,
    ClassImplements,
    InterfaceExtends,
    GenericType,
}

/// What a symbol of the project is.
#[derive(Clone, Copy, Debug, PartialEq, Eq, Structural)]
pub enum ProjectSymbolKind {
    Class,
    Interface,
    Trait,
    Enum,
    Function,
    Method,
    Property,
    Constant,
    ClassConstant,
}

/// What a symbol of the PHP runtime is.
#[derive(Clone, Copy, Debug, PartialEq, Eq, Structural)]
pub enum RuntimeKind {
    Class,
    Interface,
    Trait,
    Enum,
    Function,
    Method,
    Property,
    Constant,
}

/// What kind of type the text before a position calls for. Behind `extends`, an interface that
/// begins later than every class, or where no class begins, calls for an interface.
pub open spec fn type_context(head: Seq<char>, preceded_by_new: bool) -> TypeCompletionContext {
    let head = text::trim_end(head);
    if preceded_by_new {
        TypeCompletionContext::New
    } else if text::ends_with(head, "implements"@) {
        TypeCompletionContext::ClassImplements
    } else if text::ends_with(head, "extends"@) {
        if later(text::rfind(head, "interface "@), text::rfind(head, "class "@)) {
            TypeCompletionContext::InterfaceExtends
        } else {
            TypeCompletionContext::ClassExtends
        }
    } else {
        TypeCompletionContext::GenericType
    }
}

/// Whether an index lies behind another, where a missing one lies before all.
pub open spec fn later(a: Option<int>, b: Option<int>) -> bool {
    match (a, b) {
        (Some(i), Some(j)) => i > j,
        (Some(_), None) => true,
        (None, _) => false,
    }
}

/// What kind of type a position of a text, given in bytes, calls for.
pub fn type_completion_context(before: &str, start: usize, preceded_by_new: bool) -> (r:
    TypeCompletionContext)
    requires
        text::char_boundary(before@, start as nat),
    ensures
        r == type_context(text::fitting_prefix(before@, start as nat), preceded_by_new),
{
    let chars = text::chars_of(before);
    let (n, _) = text::fit(&chars, start);
    assert(chars@.subrange(0, n as int) =~= chars@.take(n as int));
    let head = text::trimmed_end(slice_subrange(&chars, 0, n));
    if preceded_by_new {
        return TypeCompletionContext::New;
    }
    if text::ends(head, "implements") {
        return TypeCompletionContext::ClassImplements;
    }
    if text::ends(head, "extends") {
        let class = text::find_last(head, &text::chars_of("class "));
        let interface = text::find_last(head, &text::chars_of("interface "));
        let interface_later = match (interface, class) {
            (Some(i), Some(j)) => i > j,
            (Some(_), None) => true,
            (None, _) => false,
        };
        return if interface_later {
            TypeCompletionContext::InterfaceExtends
        } else {
            TypeCompletionContext::ClassExtends
        };
    }
    TypeCompletionContext::GenericType
}

/// Whether a symbol of the project may stand where a type is called for.
pub open spec fn project_kind_allowed(
    context: TypeCompletionContext,
    kind: ProjectSymbolKind,
) -> bool {
    match context {
        TypeCompletionContext::New | TypeCompletionContext::ClassExtends => kind is Class,
        TypeCompletionContext::ClassImplements
        | TypeCompletionContext::InterfaceExtends => kind is Interface,
        TypeCompletionContext::GenericType => true,
    }
}

/// Whether a symbol of the project may stand where a type is called for.
pub fn type_kind_allowed(context: TypeCompletionContext, kind: ProjectSymbolKind) -> (r: bool)
    ensures
        r == project_kind_allowed(context, kind),
{
    match context {
        TypeCompletionContext::New | TypeCompletionContext::ClassExtends => kind
            == ProjectSymbolKind::Class,
        TypeCompletionContext::ClassImplements | TypeCompletionContext::InterfaceExtends => kind
            == ProjectSymbolKind::Interface,
        TypeCompletionContext::GenericType => true,
    }
}

/// Whether a symbol of the runtime may stand where a type is called for.
pub open spec fn runtime_kind_allowed(context: TypeCompletionContext, kind: RuntimeKind) -> bool {
    match context {
        TypeCompletionContext::New | TypeCompletionContext::ClassExtends => kind is Class,
        TypeCompletionContext::ClassImplements
        | TypeCompletionContext::InterfaceExtends => kind is Interface,
        TypeCompletionContext::GenericType => true,
    }
}

/// Whether a symbol of the runtime may stand where a type is called for.
pub fn runtime_type_kind_allowed(context: TypeCompletionContext, kind: RuntimeKind) -> (r: bool)
    ensures
        r == runtime_kind_allowed(context, kind),
{
    match context {
        TypeCompletionContext::New | TypeCompletionContext::ClassExtends => kind
            == RuntimeKind::Class,
        TypeCompletionContext::ClassImplements | TypeCompletionContext::InterfaceExtends => kind
            == RuntimeKind::Interface,
        TypeCompletionContext::GenericType => true,
    }
}

/// Whatever a class may extend may also be made with `new`, and nothing that may be implemented
/// may.
pub proof fn law_classes_and_interfaces_do_not_mix(kind: ProjectSymbolKind)
    ensures
        project_kind_allowed(TypeCompletionContext::New, kind) == project_kind_allowed(
            TypeCompletionContext::ClassExtends,
            kind,
        ),
        project_kind_allowed(TypeCompletionContext::ClassImplements, kind)
            == project_kind_allowed(TypeCompletionContext::InterfaceExtends, kind),
        !(project_kind_allowed(TypeCompletionContext::New, kind) && project_kind_allowed(
            TypeCompletionContext::ClassImplements,
            kind,
        )),
{
}

/// A qualified name stands for itself, whatever a text imports or declares.
pub proof fn law_qualified_names_stand_for_themselves(
    written: Seq<char>,
    lines: Seq<Seq<char>>,
)
    requires
        plain(written).contains('\\'),
        plain(written) != "self"@,
        plain(written) != "static"@,
        plain(written) != "parent"@,
    ensures
        resolve(written, lines) == plain(written),
        resolve_behind(written, lines) == plain(written),
{
}

/// A name that an import gives stands for what is imported, before any namespace.
pub proof fn law_imports_come_before_namespaces(
    written: Seq<char>,
    lines: Seq<Seq<char>>,
    fqn: Seq<char>,
)
    requires
        !plain(written).contains('\\'),
        plain(written) != "self"@,
        plain(written) != "static"@,
        plain(written) != "parent"@,
        imported(lines, plain(written), 0) == Some(fqn),
    ensures
        resolve(written, lines) == fqn,
        resolve_behind(written, lines) == fqn,
{
}

} // verus!
