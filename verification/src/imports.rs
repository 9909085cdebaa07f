//! The `use` statement that a completed name needs.

use vstd::prelude::*;
use vstd::slice::slice_subrange;
use vstd::string::*;

use crate::completion;
use crate::completion::TextEdit;
use crate::completion::TextEditView;
use crate::php;
use crate::text;

verus! {

/// Where the line that begins at an index ends, its line break counted in.
pub open spec fn line_end(s: Seq<char>, at: int) -> int {
    match text::char_from(s, '\n', at) {
        Some(i) => i + 1,
        None => s.len() as int,
    }
}

/// Where the line that begins at an index ends, its line break counted in.
pub fn end_of_line(s: &[char], at: usize) -> (r: usize)
    requires
        at < s@.len(),
    ensures
        r == line_end(s@, at as int),
        at < r <= s@.len(),
{
    let n: usize = s.len();
    proof {
        text::lemma_char_from(s@, '\n', at as int);
    }
    match text::find_char(s, '\n', at) {
        Some(i) => i + 1,
        None => n,
    }
}

/// The namespace that holds at a position: its name, whether braces enclose it, and where the text
/// behind the line that names it begins.
#[verifier::ext_equal]
pub struct Namespace {
    pub name: Seq<char>,
    pub braced: bool,
    pub start: int,
}

/// The namespace behind a line.
pub open spec fn namespace_behind(before: Namespace, line: Seq<char>, end: int) -> Namespace {
    match text::after_prefix(text::trim(line), "namespace "@) {
        Some(rest) => Namespace {
            name: php::bare(text::trim(php::strip_closers(text::trim(rest)))),
            braced: text::trim(rest).contains('{'),
            start: end,
        },
        None => before,
    }
}

/// The namespace at a caret, read from the line that begins at an index on; a line that begins
/// behind the caret is not read.
pub open spec fn namespace_from(s: Seq<char>, at: int, caret: int, before: Namespace) -> Namespace
    decreases s.len() - at,
{
    if at < 0 || at >= s.len() || at > caret || line_end(s, at) <= at || line_end(s, at)
        > s.len() {
        before
    } else {
        let end = line_end(s, at);
        namespace_from(s, end, caret, namespace_behind(before, s.subrange(at, end), end))
    }
}

/// The namespace at a caret.
pub open spec fn namespace_at(s: Seq<char>, caret: int) -> Namespace {
    namespace_from(s, 0, caret, Namespace { name: Seq::empty(), braced: false, start: 0 })
}

fn find_namespace(s: &[char], caret: usize) -> (r: (Vec<char>, bool, usize))
    ensures
        namespace_at(s@, caret as int) == (Namespace {
            name: r.0@,
            braced: r.1,
            start: r.2 as int,
        }),
        r.2 <= s@.len(),
{
    let n: usize = s.len();
    let mut name: Vec<char> = Vec::new();
    let mut braced = false;
    let mut start: usize = 0;
    let mut at: usize = 0;
    assert(name@ =~= Seq::<char>::empty());
    while at < n && at <= caret
        invariant
            n == s@.len(),
            at <= n,
            start <= n,
            namespace_at(s@, caret as int) == namespace_from(
                s@,
                at as int,
                caret as int,
                (Namespace { name: name@, braced, start: start as int }),
            ),
        decreases n - at,
    {
        let end: usize = end_of_line(s, at);
        let line = slice_subrange(s, at, end);
        match text::behind_prefix(text::trimmed(line), "namespace ") {
            Some(rest) => {
                let rest = text::trimmed(rest);
                let bare = php::stripped(text::trimmed(php::without_closers(rest)));
                name = Vec::new();
                name.extend_from_slice(bare);
                assert(name@ =~= bare@);
                braced = text::holds(rest, '{');
                start = end;
            },
            None => {},
        }
        at = end;
    }
    (name, braced, start)
}

/// The brace, from an index on, that closes one more than the `depth` that are open; the end of the
/// text where there is none.
pub open spec fn closing_brace(s: Seq<char>, at: int, depth: nat) -> int
    decreases s.len() - at,
{
    if at < 0 || at >= s.len() {
        s.len() as int
    } else if s[at] == '{' {
        closing_brace(s, at + 1, depth + 1)
    } else if s[at] == '}' {
        if depth == 0 {
            at
        } else {
            closing_brace(s, at + 1, (depth - 1) as nat)
        }
    } else {
        closing_brace(s, at + 1, depth)
    }
}

fn find_brace(s: &[char], from: usize) -> (r: usize)
    requires
        from <= s@.len(),
    ensures
        r == closing_brace(s@, from as int, 0),
        from <= r <= s@.len(),
{
    let n: usize = s.len();
    let mut depth: usize = 0;
    let mut at: usize = from;
    while at < n
        invariant
            n == s@.len(),
            from <= at <= n,
            depth <= at - from,
            closing_brace(s@, from as int, 0) == closing_brace(s@, at as int, depth as nat),
        decreases n - at,
    {
        let c: char = s[at];
        if c == '{' {
            depth += 1;
        } else if c == '}' {
            if depth == 0 {
                return at;
            }
            depth -= 1;
        }
        at += 1;
    }
    n
}

/// Where the part of a line that begins at an index and lies before `to` ends.
pub open spec fn piece_end(s: Seq<char>, at: int, to: int) -> int {
    if line_end(s, at) <= to {
        line_end(s, at)
    } else {
        to
    }
}

/// Whether a line is an import statement.
pub open spec fn import_line(line: Seq<char>) -> bool {
    text::starts_with(text::trim(line), "use "@) && text::ends_with(text::trim_end(line), ";"@)
}

/// Where the last import statement between two indices ends; `before` where there is none.
pub open spec fn imports_end(s: Seq<char>, at: int, to: int, before: int) -> int
    decreases to - at,
{
    if at < 0 || at >= to || to > s.len() || piece_end(s, at, to) <= at {
        before
    } else {
        let end = piece_end(s, at, to);
        imports_end(
            s,
            end,
            to,
            if import_line(s.subrange(at, end)) {
                end
            } else {
                before
            },
        )
    }
}

fn find_imports_end(s: &[char], from: usize, to: usize, default: usize) -> (r: usize)
    requires
        from <= to <= s@.len(),
        default <= s@.len(),
    ensures
        r == imports_end(s@, from as int, to as int, default as int),
        r <= s@.len(),
{
    let mut last: usize = default;
    let mut at: usize = from;
    while at < to
        invariant
            at <= to <= s@.len(),
            last <= s@.len(),
            imports_end(s@, from as int, to as int, default as int) == imports_end(
                s@,
                at as int,
                to as int,
                last as int,
            ),
        decreases to - at,
    {
        let whole: usize = end_of_line(s, at);
        let end: usize = if whole <= to {
            whole
        } else {
            to
        };
        let line = slice_subrange(s, at, end);
        if text::begins(text::trimmed(line), "use ") && text::ends(text::trimmed_end(line), ";") {
            last = end;
        }
        at = end;
    }
    last
}

/// The namespace of a full name; empty where it has none.
pub open spec fn namespace_part(fqn: Seq<char>) -> Seq<char> {
    match text::char_before(fqn, '\\', fqn.len() as int) {
        Some(at) => fqn.take(at),
        None => Seq::empty(),
    }
}

/// Where an import is put: behind the last import of the namespace that holds at the caret, as far
/// as the caret where braces enclose it; else right behind the line that names the namespace.
pub open spec fn import_place(s: Seq<char>, caret: int) -> int {
    let namespace = namespace_at(s, caret);
    let start = namespace.start;
    if namespace.braced {
        let bound = if caret >= start {
            caret
        } else {
            start
        };
        let close = closing_brace(s, start, 0);
        imports_end(
            s,
            start,
            if close <= bound {
                close
            } else {
                bound
            },
            start,
        )
    } else {
        imports_end(s, 0, s.len() as int, start)
    }
}

/// Whether a name needs an import at a caret: where a namespace holds that is not its own, and
/// which does not import it yet.
pub open spec fn import_needed(s: Seq<char>, fqn: Seq<char>, caret: usize) -> bool {
    let namespace = namespace_at(s, text::fitting(s, caret as int) as int);
    &&& namespace.name.len() > 0
    &&& namespace.name != namespace_part(fqn)
    &&& !(match php::region(s, text::utf8_len(s.take(namespace.start)), caret as nat) {
        Some(part) => php::region_imports(part, fqn),
        None => false,
    })
}

/// The edit that imports a name at a caret; none where it needs no import. It only inserts a line.
pub open spec fn import_edit(s: Seq<char>, fqn: Seq<char>, caret: usize) -> Option<TextEditView> {
    let name = text::strip_start(fqn, '\\');
    if import_needed(s, name, caret) {
        let place = import_place(s, text::fitting(s, caret as int) as int);
        let offset = text::utf8_len(s.take(place)) as usize;
        Some(
            TextEditView {
                start: offset,
                end: offset,
                new_text: (if place > 0 && s[place - 1] != '\n' {
                    "\n"@
                } else {
                    Seq::empty()
                }) + "use "@ + name + ";\n"@,
            },
        )
    } else {
        None
    }
}

/// The edit that imports a name at a caret; none where it needs no import.
pub fn composer_import_edit(source: &str, fqn: &str, caret: usize) -> (r: Option<TextEdit>)
    requires
        php::boundary(source@, caret as nat),
    ensures
        completion::edit_view(r) == import_edit(source@, fqn@, caret),
{
    let s = text::chars_of(source);
    let n: usize = s.len();
    let size: usize = text::byte_len(source);
    let fqn_chars = text::chars_of(fqn);
    let name = text::stripped_start(&fqn_chars, '\\');
    let (at, _) = text::fit(&s, caret);
    let (namespace, braced, start) = find_namespace(&s, at);
    let own = match text::rfind_char(name, '\\') {
        Some(i) => slice_subrange(name, 0, i),
        None => slice_subrange(name, 0, 0),
    };
    assert(own@ =~= namespace_part(name@));
    if namespace.len() == 0 || text::same(&namespace, own) {
        return None;
    }
    let name_text = text::to_string(name);
    let start_offset: usize = text::offset_of(&s, start);
    if php::has_import_in_region(source, &name_text, start_offset, caret) {
        return None;
    }
    let place: usize = if braced {
        let close: usize = find_brace(&s, start);
        let bound: usize = if at >= start {
            at
        } else {
            start
        };
        let to: usize = if close <= bound {
            close
        } else {
            bound
        };
        find_imports_end(&s, start, to, start)
    } else {
        find_imports_end(&s, 0, n, start)
    };
    let offset: usize = text::offset_of(&s, place);
    let mut new_text: Vec<char> = Vec::new();
    if place > 0 && s[place - 1] != '\n' {
        text::put(&mut new_text, "\n");
    }
    text::put(&mut new_text, "use ");
    new_text.extend_from_slice(name);
    text::put(&mut new_text, ";\n");
    let edit = TextEdit { start: offset, end: offset, new_text: text::to_string(&new_text) };
    assert(edit@ =~= import_edit(source@, fqn@, caret)->0);
    Some(edit)
}

/// An import that is put into a text changes nothing that was there.
pub proof fn law_imports_only_insert(s: Seq<char>, fqn: Seq<char>, caret: usize)
    ensures
        match import_edit(s, fqn, caret) {
            Some(edit) => edit.start == edit.end,
            None => true,
        },
{
}

/// A name of the namespace that holds at the caret needs no import, and neither does any where no
/// namespace holds.
pub proof fn law_own_names_need_no_import(s: Seq<char>, fqn: Seq<char>, caret: usize)
    requires
        ({
            let name = namespace_at(s, text::fitting(s, caret as int) as int).name;
            name.len() == 0 || name == namespace_part(text::strip_start(fqn, '\\'))
        }),
    ensures
        import_edit(s, fqn, caret) is None,
{
}

} // verus!
