//! The type of what stands before a member access.

use vstd::prelude::*;
use vstd::slice::slice_subrange;
use vstd::string::*;

use crate::php;
use crate::provider;
use crate::symbols::SymbolIndex;
use crate::text;

verus! {

/// Whether a class of a name is known.
pub open spec fn class_known<S: SymbolIndex>(index: &S, name: Seq<char>) -> bool {
    index.runtime_class_of(name) is Some || index.project_class_of(name) is Some
}

fn knows_class<S: SymbolIndex>(index: &S, name: &str) -> (r: bool)
    ensures
        r == class_known(index, name@),
{
    index.runtime_class(name).is_some() || index.project_class(name).is_some()
}

/// The full name that a written class name stands for in a context. A name without a namespace
/// stands for the class that the context makes of it where that is known, else for the global
/// class where that is known, else for the runtime class that is called so.
pub open spec fn class_name<S: SymbolIndex>(
    index: &S,
    written: Seq<char>,
    context: Seq<char>,
) -> Seq<char> {
    let candidate = php::resolve(written, text::lines(context));
    let name = php::plain(written);
    if name.contains('\\') || class_known(index, candidate) {
        candidate
    } else if class_known(index, name) {
        name
    } else {
        match index.runtime_class_called(name) {
            Some(fqn) => fqn,
            None => candidate,
        }
    }
}

/// The full name that a written class name stands for in a context.
pub fn resolve_class_name<S: SymbolIndex>(index: &S, written: &str, context: &str) -> (r: String)
    ensures
        r@ == class_name(index, written@, context@),
{
    let candidate = php::resolve_php_class_name(written, context);
    let chars = text::chars_of(written);
    let name = text::stripped_start(text::trimmed(&chars), '\\');
    if text::holds(name, '\\') {
        return candidate;
    }
    if knows_class(index, &candidate) {
        return candidate;
    }
    let name = text::to_string(name);
    if knows_class(index, &name) {
        return name;
    }
    match index.runtime_class_by_short_name(&name) {
        Some(fqn) => fqn,
        None => candidate,
    }
}

/// Whether a character may stand in a declared type.
pub open spec fn declared_char(c: char) -> bool {
    php::name_char(c) || c == '?' || c == '|'
}

/// Whether a character may stand in a declared type.
pub fn is_declared_char(c: char) -> (r: bool)
    ensures
        r == declared_char(c),
{
    php::is_name_char(c, true) || c == '?' || c == '|'
}

/// Where the last run of type characters that ends at or before an index ends.
pub open spec fn run_end(s: Seq<char>, end: int) -> int
    decreases end,
{
    if 0 < end <= s.len() && !declared_char(s[end - 1]) {
        run_end(s, end - 1)
    } else {
        end
    }
}

/// Where the run of type characters that ends at an index begins.
pub open spec fn run_start(s: Seq<char>, end: int) -> int
    decreases end,
{
    if 0 < end <= s.len() && declared_char(s[end - 1]) {
        run_start(s, end - 1)
    } else {
        end
    }
}

/// The last run of characters that may stand in a declared type; empty where there is none.
pub open spec fn last_declared(s: Seq<char>) -> Seq<char> {
    let end = run_end(s, s.len() as int);
    s.subrange(run_start(s, end), end)
}

/// The last run of characters that may stand in a declared type.
pub fn last_declared_type(s: &[char]) -> (r: &[char])
    ensures
        r@ == last_declared(s@),
{
    let n: usize = s.len();
    let mut end: usize = n;
    while end > 0 && !is_declared_char(s[end - 1])
        invariant
            end <= n == s@.len(),
            run_end(s@, n as int) == run_end(s@, end as int),
        decreases end,
    {
        end -= 1;
    }
    let mut start: usize = end;
    while start > 0 && is_declared_char(s[start - 1])
        invariant
            start <= end <= n == s@.len(),
            run_start(s@, end as int) == run_start(s@, start as int),
        decreases start,
    {
        start -= 1;
    }
    slice_subrange(s, start, end)
}

/// The type name that stands behind the last occurrence of a pattern.
pub open spec fn type_behind(context: Seq<char>, pattern: Seq<char>) -> Option<Seq<char>> {
    match text::rfind(context, pattern) {
        None => None,
        Some(at) => {
            let tail = context.skip(at + pattern.len());
            if php::name_len(tail, true) > 0 {
                Some(tail.take(php::name_len(tail, true) as int))
            } else {
                None
            }
        },
    }
}

fn read_type_behind(context: &[char], variable: &str, pattern: &str) -> (r: Option<String>)
    ensures
        provider::optional_text(r) == type_behind(context@, variable@ + pattern@),
{
    let mut whole = text::chars_of(variable);
    text::put(&mut whole, pattern);
    match text::find_last(context, &whole) {
        None => None,
        Some(at) => {
            let m: usize = context.len();
            let tail = slice_subrange(context, at + whole.len(), m);
            assert(tail@ =~= context@.skip(at + whole@.len()));
            let mut n: usize = 0;
            assert(tail@.skip(0) =~= tail@);
            while n < tail.len() && php::is_name_char(tail[n], true)
                invariant
                    n <= tail@.len(),
                    php::name_len(tail@, true) == n + php::name_len(tail@.skip(n as int), true),
                decreases tail@.len() - n,
            {
                assert(tail@.skip(n as int).skip(1) =~= tail@.skip(n + 1));
                n += 1;
            }
            if n > 0 {
                let name = text::string_of(tail, 0, n);
                assert(name@ =~= tail@.take(n as int));
                Some(name)
            } else {
                None
            }
        },
    }
}

/// The type that an assignment of a new object, or a type behind a colon, gives a variable.
pub open spec fn assigned_type(context: Seq<char>, variable: Seq<char>) -> Option<Seq<char>> {
    match type_behind(context, variable + " = new "@) {
        Some(name) => Some(name),
        None => match type_behind(context, variable + "=new "@) {
            Some(name) => Some(name),
            None => match type_behind(context, variable + ": "@) {
                Some(name) => Some(name),
                None => type_behind(context, variable + " : "@),
            },
        },
    }
}

fn read_assigned_type(context: &[char], variable: &str) -> (r: Option<String>)
    ensures
        provider::optional_text(r) == assigned_type(context@, variable@),
{
    match read_type_behind(context, variable, " = new ") {
        Some(name) => Some(name),
        None => match read_type_behind(context, variable, "=new ") {
            Some(name) => Some(name),
            None => match read_type_behind(context, variable, ": ") {
                Some(name) => Some(name),
                None => read_type_behind(context, variable, " : "),
            },
        },
    }
}

/// Whether every character may stand in a qualified name.
pub open spec fn all_name(s: Seq<char>) -> bool {
    forall|i: int| 0 <= i < s.len() ==> php::name_char(#[trigger] s[i])
}

fn is_all_name(s: &[char]) -> (r: bool)
    ensures
        r == all_name(s@),
{
    let mut i: usize = 0;
    while i < s.len()
        invariant
            i <= s@.len(),
            forall|k: int| 0 <= k < i ==> php::name_char(#[trigger] s@[k]),
        decreases s@.len() - i,
    {
        if !php::is_name_char(s[i], true) {
            assert(!php::name_char(s@[i as int]));
            return false;
        }
        i += 1;
    }
    true
}

/// The type that is written before an occurrence of a variable; none where the occurrence is
/// itself the receiver of a member access.
pub open spec fn type_before(context: Seq<char>, variable: Seq<char>, at: int) -> Option<
    Seq<char>,
> {
    let behind = text::trim_start(context.skip(at + variable.len()));
    let written = text::strip_end(
        text::strip_start(text::strip_start(last_declared(context.take(at)), '?'), '|'),
        '|',
    );
    if text::starts_with(behind, "->"@) || text::starts_with(behind, "::"@) {
        None
    } else if written.len() > 0 && all_name(written) {
        Some(written)
    } else {
        None
    }
}

fn read_type_before(context: &[char], variable: &[char], at: usize) -> (r: Option<String>)
    requires
        text::occurs_at(context@, variable@, at as int),
    ensures
        provider::optional_text(r) == type_before(context@, variable@, at as int),
{
    let n: usize = context.len();
    let rest = slice_subrange(context, at + variable.len(), n);
    assert(rest@ =~= context@.skip(at + variable@.len()));
    let behind = text::trimmed_start(rest);
    if text::begins(behind, "->") || text::begins(behind, "::") {
        return None;
    }
    let before = slice_subrange(context, 0, at);
    assert(before@ =~= context@.take(at as int));
    let written = text::stripped_end(
        text::stripped_start(text::stripped_start(last_declared_type(before), '?'), '|'),
        '|',
    );
    if written.len() == 0 {
        return None;
    }
    if !is_all_name(written) {
        return None;
    }
    Some(text::to_string(written))
}

/// The type that is written before the last of the first `n` occurrences that has one.
pub open spec fn declared_before(
    context: Seq<char>,
    variable: Seq<char>,
    occurrences: Seq<int>,
) -> Option<Seq<char>>
    decreases occurrences.len(),
{
    if occurrences.len() == 0 {
        None
    } else {
        match type_before(context, variable, occurrences.last()) {
            Some(written) => Some(written),
            None => declared_before(context, variable, occurrences.drop_last()),
        }
    }
}

fn read_declared_before(context: &[char], variable: &[char]) -> (r: Option<String>)
    ensures
        provider::optional_text(r) == declared_before(
            context@,
            variable@,
            text::occurrences(context@, variable@, 0),
        ),
{
    let found = text::find_all(context, variable);
    let ghost all = text::numbers(found@);
    proof {
        text::lemma_occurrences(context@, variable@, 0);
        assert(all.take(all.len() as int) =~= all);
    }
    let mut n: usize = found.len();
    while n > 0
        invariant
            n <= found@.len(),
            all == text::numbers(found@),
            all == text::occurrences(context@, variable@, 0),
            forall|k: int|
                0 <= k < all.len() ==> text::occurs_at(context@, variable@, #[trigger] all[k]),
            declared_before(context@, variable@, all) == declared_before(
                context@,
                variable@,
                all.take(n as int),
            ),
        decreases n,
    {
        let ghost part = all.take(n as int);
        n -= 1;
        assert(part.last() == all[n as int]);
        assert(part.drop_last() =~= all.take(n as int));
        match read_type_before(context, variable, found[n]) {
            Some(written) => {
                return Some(written);
            },
            None => {},
        }
    }
    None
}

/// The class that an expression without member accesses is of. `$this` is of the class that is
/// declared in the context; a variable is of the type that it is assigned or declared with, as it
/// is known in the document; anything else names a class.
pub open spec fn native_type<S: SymbolIndex>(
    index: &S,
    owner: Seq<char>,
    context: Seq<char>,
    document: Seq<char>,
) -> Option<Seq<char>> {
    let owner = text::trim(owner);
    let candidate = text::strip_start(owner, '$');
    let variable = "$"@ + candidate;
    if owner == "$this"@ {
        php::declared_class(text::lines(context))
    } else {
        match assigned_type(context, variable) {
            Some(name) => Some(class_name(index, name, document)),
            None => match declared_before(
                context,
                variable,
                text::occurrences(context, variable, 0),
            ) {
                Some(written) => Some(class_name(index, written, document)),
                None => named_type(index, candidate),
            },
        }
    }
}

/// The class that a name by itself names.
pub open spec fn named_type<S: SymbolIndex>(index: &S, candidate: Seq<char>) -> Option<Seq<char>> {
    if index.runtime_class_of(candidate) is Some || index.runtime_class_of(
        "\\"@ + candidate,
    ) is Some {
        Some(candidate)
    } else {
        match index.project_class_of(candidate) {
            Some(fqn) => Some(fqn),
            None => if candidate.len() > 0 {
                Some(candidate)
            } else {
                None
            },
        }
    }
}

/// The class that an expression without member accesses is of.
pub fn resolve_native_type<S: SymbolIndex>(
    index: &S,
    owner: &str,
    context: &str,
    document: &str,
) -> (r: Option<String>)
    ensures
        provider::optional_text(r) == native_type(index, owner@, context@, document@),
{
    let owner_chars = text::chars_of(owner);
    let trimmed = text::trimmed(&owner_chars);
    if text::same(trimmed, &text::chars_of("$this")) {
        return php::declared_class_fqn(context);
    }
    let chars = text::chars_of(context);
    let bare = text::stripped_start(trimmed, '$');
    let candidate = text::to_string(bare);
    let mut variable = String::from_str("$");
    variable.append(&candidate);
    match read_assigned_type(&chars, &variable) {
        Some(name) => {
            return Some(resolve_class_name(index, &name, document));
        },
        None => {},
    }
    match read_declared_before(&chars, &text::chars_of(&variable)) {
        Some(written) => {
            return Some(resolve_class_name(index, &written, document));
        },
        None => {},
    }
    let mut rooted = String::from_str("\\");
    rooted.append(&candidate);
    if index.runtime_class(&candidate).is_some() || index.runtime_class(&rooted).is_some() {
        return Some(candidate);
    }
    match index.project_class(&candidate) {
        Some(fqn) => Some(fqn),
        None => if bare.len() > 0 {
            Some(candidate)
        } else {
            None
        },
    }
}

/// The class that an expression is of. Behind the last arrow stands a property, whose declared type
/// the context gives, where the expression before the arrow has a type at all.
pub open spec fn receiver_type<S: SymbolIndex>(
    index: &S,
    owner: Seq<char>,
    context: Seq<char>,
    document: Seq<char>,
) -> Option<Seq<char>>
    decreases owner.len(),
{
    let trimmed = text::trim(owner);
    match text::rfind(trimmed, "->"@) {
        Some(at) => if 0 <= at < trimmed.len() && trimmed.len() <= owner.len() {
            let base = trimmed.take(at);
            let known = if text::trim(base) == "$this"@ {
                php::declared_class(text::lines(context))
            } else {
                match receiver_type(index, base, context, document) {
                    Some(fqn) => Some(fqn),
                    None => native_type(index, base, context, document),
                }
            };
            match (
                known,
                php::property_type(
                    text::lines(context),
                    "$"@ + text::trim(trimmed.skip(at + 2)),
                    0,
                ),
            ) {
                (Some(_), Some(written)) => Some(class_name(index, written, context)),
                _ => None,
            }
        } else {
            None
        },
        None => native_type(index, trimmed, context, document),
    }
}

/// The class that an expression is of.
pub fn resolve_receiver_type<S: SymbolIndex>(
    index: &S,
    owner: &str,
    context: &str,
    document: &str,
) -> (r: Option<String>)
    ensures
        provider::optional_text(r) == receiver_type(index, owner@, context@, document@),
    decreases owner@.len(),
{
    let chars = text::chars_of(owner);
    let trimmed = text::trimmed(&chars);
    proof {
        text::lemma_trim_len(owner@);
        reveal_strlit("->");
    }
    match text::find_last(trimmed, &text::chars_of("->")) {
        Some(at) => {
            let n: usize = trimmed.len();
            let base = slice_subrange(trimmed, 0, at);
            assert(base@ =~= trimmed@.take(at as int));
            let base_text = text::to_string(base);
            let known = if text::same(text::trimmed(base), &text::chars_of("$this")) {
                php::declared_class_fqn(context).is_some()
            } else {
                resolve_receiver_type(index, &base_text, context, document).is_some()
                    || resolve_native_type(index, &base_text, context, document).is_some()
            };
            if !known {
                return None;
            }
            let rest = slice_subrange(trimmed, at + 2, n);
            assert(rest@ =~= trimmed@.skip(at + 2));
            let property = text::to_string(text::trimmed(rest));
            match php::property_type_in_context(context, &property) {
                Some(written) => Some(resolve_class_name(index, &written, context)),
                None => None,
            }
        },
        None => resolve_native_type(index, &text::to_string(trimmed), context, document),
    }
}

} // verus!
