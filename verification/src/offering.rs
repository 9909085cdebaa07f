//! What is offered to complete, what accepting an offer writes, and what is shown for a call.

use vstd::prelude::*;
use vstd::string::*;

use crate::accept;
use crate::accept::Span;
use crate::completion;
use crate::completion::CompletionItemKind;
use crate::completion::CompletionItemView;
use crate::definitions;
use crate::help;
use crate::imports;
use crate::native;
use crate::php;
use crate::php::ProjectSymbolKind;
use crate::php::RuntimeKind;
use crate::php::TypeCompletionContext;
use crate::receiver;
use crate::signature;
use crate::symbols::ProjectSymbolView;
use crate::symbols::RuntimeParameterView;
use crate::symbols::RuntimeSymbolView;
use crate::symbols::SymbolIndex;
use crate::text;
use crate::typing;

verus! {

/// Whether a text begins with another.
pub open spec fn begins(s: Seq<char>, start: Seq<char>) -> bool {
    start.len() <= s.len() && s.take(start.len() as int) == start
}

proof fn lemma_begins(s: Seq<char>, start: Seq<char>)
    ensures
        text::starts_with(s, start) == begins(s, start),
{
    if start.len() <= s.len() {
        assert(s.take(start.len() as int) =~= s.subrange(0, start.len() as int));
    }
}

/// Whether a method of the project fits what is written behind an access.
pub open spec fn method_fits(m: ProjectSymbolView, prefix: Seq<char>, is_static: bool) -> bool {
    &&& begins(m.name, prefix)
    &&& m.modifiers.contains("static"@) == is_static
    &&& is_static || !(m.visibility is Private)
}

/// Whether a method of the runtime fits what is written behind an access.
pub open spec fn runtime_fits(m: RuntimeSymbolView, prefix: Seq<char>, is_static: bool) -> bool {
    &&& begins(m.name, prefix)
    &&& m.is_static == is_static
    &&& is_static || !(m.name.len() > 0 && m.name[0] == '_')
}

/// The methods of a class of the project that fit are offered, in their order and under their names,
/// and no others.
pub proof fn law_methods_of_the_project_are_offered(
    methods: Seq<ProjectSymbolView>,
    prefix: Seq<char>,
    is_static: bool,
)
    ensures
        exists|from: Seq<int>| #[trigger]
            offered_methods(
                methods,
                native::project_members(methods, prefix, is_static),
                prefix,
                is_static,
                from,
            ),
{
    let keep = |m: ProjectSymbolView| native::member_of_project(m, prefix, is_static);
    let from = text::lemma_filter_positions(methods, keep);
    let items = native::project_members(methods, prefix, is_static);
    assert forall|k: int| 0 <= k < from.len() implies 0 <= #[trigger] from[k] < methods.len()
        && method_fits(methods[from[k]], prefix, is_static) && items[k].label
        == methods[from[k]].name && items[k].kind == Some(CompletionItemKind::Method) by {
        assert(keep(methods[from[k]]));
        lemma_begins(methods[from[k]].name, prefix);
    }
    assert forall|i: int| 0 <= i < methods.len() && method_fits(
        #[trigger] methods[i],
        prefix,
        is_static,
    ) implies from.contains(i) by {
        lemma_begins(methods[i].name, prefix);
        assert(keep(methods[i]));
    }
    assert(offered_methods(methods, items, prefix, is_static, from));
}

/// Whether completions are those of the methods at some positions: all that fit, in their order.
pub open spec fn offered_methods(
    methods: Seq<ProjectSymbolView>,
    items: Seq<CompletionItemView>,
    prefix: Seq<char>,
    is_static: bool,
    from: Seq<int>,
) -> bool {
    &&& from.len() == items.len()
    &&& forall|k: int|
        0 <= k < from.len() ==> 0 <= #[trigger] from[k] < methods.len() && method_fits(
            methods[from[k]],
            prefix,
            is_static,
        ) && items[k].label == methods[from[k]].name && items[k].kind == Some(
            CompletionItemKind::Method,
        )
    &&& forall|i: int, j: int| 0 <= i < j < from.len() ==> #[trigger] from[i] < #[trigger] from[j]
    &&& forall|i: int|
        0 <= i < methods.len() && method_fits(#[trigger] methods[i], prefix, is_static)
            ==> from.contains(i)
}

/// The methods of a runtime class that fit are offered, in their order and under their names, and no
/// others.
pub proof fn law_methods_of_the_runtime_are_offered(
    methods: Seq<RuntimeSymbolView>,
    prefix: Seq<char>,
    is_static: bool,
)
    ensures
        exists|from: Seq<int>| #[trigger]
            offered_runtime(
                methods,
                native::runtime_members(methods, prefix, is_static),
                prefix,
                is_static,
                from,
            ),
{
    let keep = |m: RuntimeSymbolView| native::member_of_runtime(m, prefix, is_static);
    let from = text::lemma_filter_positions(methods, keep);
    let items = native::runtime_members(methods, prefix, is_static);
    reveal_strlit("_");
    assert forall|m: RuntimeSymbolView| keep(m) == #[trigger] runtime_fits(
        m,
        prefix,
        is_static,
    ) by {
        lemma_begins(m.name, prefix);
        lemma_begins(m.name, "_"@);
        if m.name.len() > 0 {
            assert(m.name.take(1)[0] == m.name[0]);
            if m.name[0] == '_' {
                assert(m.name.take(1) =~= "_"@);
            }
        }
    }
    assert forall|k: int| 0 <= k < from.len() implies 0 <= #[trigger] from[k] < methods.len()
        && runtime_fits(methods[from[k]], prefix, is_static) && items[k].label
        == methods[from[k]].name && items[k].kind == Some(CompletionItemKind::Method) by {
        assert(keep(methods[from[k]]));
        assert(runtime_fits(methods[from[k]], prefix, is_static));
    }
    assert forall|i: int| 0 <= i < methods.len() && runtime_fits(
        #[trigger] methods[i],
        prefix,
        is_static,
    ) implies from.contains(i) by {
        assert(keep(methods[i]));
    }
    assert(offered_runtime(methods, items, prefix, is_static, from));
}

/// Whether completions are those of the runtime methods at some positions: all that fit, in their
/// order.
pub open spec fn offered_runtime(
    methods: Seq<RuntimeSymbolView>,
    items: Seq<CompletionItemView>,
    prefix: Seq<char>,
    is_static: bool,
    from: Seq<int>,
) -> bool {
    &&& from.len() == items.len()
    &&& forall|k: int|
        0 <= k < from.len() ==> 0 <= #[trigger] from[k] < methods.len() && runtime_fits(
            methods[from[k]],
            prefix,
            is_static,
        ) && items[k].label == methods[from[k]].name && items[k].kind == Some(
            CompletionItemKind::Method,
        )
    &&& forall|i: int, j: int| 0 <= i < j < from.len() ==> #[trigger] from[i] < #[trigger] from[j]
    &&& forall|i: int|
        0 <= i < methods.len() && runtime_fits(#[trigger] methods[i], prefix, is_static)
            ==> from.contains(i)
}

/// The members of a class are offered from the project first, then from its packages, then from the
/// runtime; where there are few and no two of them are one, all of them.
pub proof fn law_members_come_from_everywhere<S: SymbolIndex>(
    index: &S,
    class: Seq<char>,
    owner: Seq<char>,
    prefix: Seq<char>,
    is_static: bool,
)
    ensures
        ({
            let project = native::project_members(
                index.project_methods_of(class),
                prefix,
                is_static,
            );
            let runtime = native::runtime_members(
                index.runtime_methods_of(native::runtime_class_for(index, class, owner)),
                prefix,
                is_static,
            );
            let vendor = native::vendor_members(index.vendor_members_of(class), prefix, is_static);
            let members = project + vendor + runtime;
            let items = native::member_items(index, class, owner, prefix, is_static);
            &&& members.len() > 0 && members.len() <= 40 && all_differ(members) ==> items == members
            &&& members.len() > 0 ==> items.len() > 0 && items[0] == members[0]
            &&& forall|k: int|
                members.len() > 0 && 0 <= k < items.len() ==> members.contains(#[trigger] items[k])
        }),
{
    let members = native::class_members(index, class, owner, prefix, is_static);
    let kept = completion::distinct(members, false);
    lemma_first_kept(members);
    if all_differ(members) {
        lemma_all_kept(members);
    }
    assert forall|k: int| 0 <= k < kept.len() implies members.contains(#[trigger] kept[k]) by {
        lemma_kept_from(members, k);
    }
}

/// Whether no two completions are one.
pub open spec fn all_differ(items: Seq<CompletionItemView>) -> bool {
    forall|i: int, j: int|
        0 <= i < j < items.len() ==> #[trigger] completion::item_key(items[i], false)
            != #[trigger] completion::item_key(items[j], false)
}

proof fn lemma_all_kept(items: Seq<CompletionItemView>)
    requires
        all_differ(items),
    ensures
        completion::distinct(items, false) == items,
    decreases items.len(),
{
    if items.len() == 0 {
        assert(completion::distinct(items, false) =~= items);
    } else {
        let before = items.drop_last();
        assert(all_differ(before)) by {
            assert forall|i: int, j: int|
                0 <= i < j < before.len() implies #[trigger] completion::item_key(before[i], false)
                != #[trigger] completion::item_key(before[j], false) by {
                assert(before[i] == items[i] && before[j] == items[j]);
                assert(completion::item_key(items[i], false) != completion::item_key(
                    items[j],
                    false,
                ));
            }
        }
        lemma_all_kept(before);
        assert forall|k: int| 0 <= k < before.len() implies #[trigger] completion::item_key(
            before[k],
            false,
        ) != completion::item_key(items.last(), false) by {
            assert(before[k] == items[k]);
            assert(completion::item_key(items[k], false) != completion::item_key(
                items[items.len() - 1],
                false,
            ));
        }
        assert(items =~= before.push(items.last()));
    }
}

proof fn lemma_first_kept(items: Seq<CompletionItemView>)
    ensures
        items.len() > 0 ==> completion::distinct(items, false).len() > 0 && completion::distinct(
            items,
            false,
        )[0] == items[0],
    decreases items.len(),
{
    if items.len() > 0 {
        lemma_first_kept(items.drop_last());
        if items.len() > 1 {
            assert(items.drop_last()[0] == items[0]);
        }
    }
}

proof fn lemma_kept_from(items: Seq<CompletionItemView>, k: int)
    requires
        0 <= k < completion::distinct(items, false).len(),
    ensures
        items.contains(completion::distinct(items, false)[k]),
    decreases items.len(),
{
    let before = items.drop_last();
    let kept = completion::distinct(before, false);
    if k < kept.len() {
        lemma_kept_from(before, k);
        let i = choose|i: int| 0 <= i < before.len() && before[i] == kept[k];
        assert(items[i] == kept[k]);
    } else {
        assert(items[items.len() - 1] == completion::distinct(items, false)[k]);
    }
}

/// Whether a text is an identifier, or nothing.
pub open spec fn identifier(s: Seq<char>) -> bool {
    forall|k: int|
        0 <= k < s.len() ==> {
            let c = #[trigger] s[k];
            (text::alphanumeric(c) || c == '_') && c != '$' && c != '>' && c != ':'
        }
}

/// Whether a run of characters stands right before an index of a source, and is not part of a longer
/// one.
pub open spec fn run_before(source: Seq<char>, owner: Seq<char>, end: int) -> bool {
    &&& owner.len() > 0
    &&& owner.len() <= end <= source.len()
    &&& source.subrange(end - owner.len(), end) == owner
    &&& forall|i: int|
        0 <= i < owner.len() ==> !definitions::apart(#[trigger] owner[i]) && !text::whitespace(
            owner[i],
        )
    &&& end > owner.len() ==> definitions::apart(source[end - owner.len() - 1])
}

/// Behind an expression of a class, an operator and what is written of a name, the members of that
/// class are offered that go with the operator: behind an arrow those of objects, unless what is bound
/// there is known better, and behind a double colon the static ones.
pub proof fn law_members_are_offered_behind_operators<S: SymbolIndex>(
    index: &S,
    before: Seq<char>,
    behind: Seq<char>,
    owner: Seq<char>,
    prefix: Seq<char>,
    is_static: bool,
    class: Seq<char>,
    cursor: usize,
)
    requires
        cursor == text::utf8_len(before),
        identifier(prefix),
        prefix.len() + 2 <= before.len(),
        before.skip(before.len() - prefix.len()) == prefix,
        ({
            let at = before.len() - prefix.len() - 2;
            &&& before[at] == (if is_static { ':' } else { '-' })
            &&& before[at + 1] == (if is_static { ':' } else { '>' })
            &&& !text::alphanumeric(before[at + 1])
            &&& run_before(before, owner, at)
            &&& !is_static ==> index.bound_methods(cursor, owner, prefix) is None
            &&& receiver::receiver_type(index, owner, before.take(at), before + behind) == Some(
                class,
            )
        }),
    ensures
        native::native_batch(index, before + behind, cursor).items == native::member_items(
            index,
            class,
            text::strip_start(owner, '$'),
            prefix,
            is_static,
        ),
{
    let source = before + behind;
    let n = before.len() as int;
    let at = n - prefix.len() - 2;
    text::lemma_char_boundary(source, n);
    assert(source.take(n) =~= before);
    assert(prefix.len() > 0 ==> before[n - 1] == prefix[prefix.len() - 1]);
    lemma_prefix(before, prefix, n);
    lemma_operator(before, prefix, n);
    assert(before.skip(at + 2) =~= prefix);
    assert(native::all_identifier(before.skip(at + 2)));
    assert(source.subrange(at - owner.len(), at) =~= before.subrange(at - owner.len(), at));
    definitions::lemma_run(source, owner, at, at);
    assert(!text::whitespace(owner[0]));
    assert(!text::whitespace(owner[owner.len() - 1]));
    definitions::lemma_trimmed(owner);
    assert(source.take(at) =~= before.take(at));
    reveal_strlit("$");
    lemma_begins(prefix, "$"@);
    if prefix.len() > 0 {
        assert(prefix.take(1)[0] == prefix[0]);
        assert("$"@[0] == '$');
    }
    text::lemma_utf8_len_add(before, behind);
}

proof fn lemma_prefix(before: Seq<char>, prefix: Seq<char>, end: int)
    requires
        identifier(prefix),
        prefix.len() < before.len(),
        before.skip(before.len() - prefix.len()) == prefix,
        before.len() - prefix.len() <= end <= before.len(),
        before[before.len() - prefix.len() - 1] == ':' || before[before.len() - prefix.len() - 1]
            == '>',
        !native::completed_char(before[before.len() - prefix.len() - 1]),
    ensures
        native::prefix_start(before, end) == before.len() - prefix.len(),
    decreases end,
{
    let start = before.len() - prefix.len();
    if end > start {
        assert(before[end - 1] == before.skip(start)[end - 1 - start]);
        assert(prefix[end - 1 - start] == before[end - 1]);
        lemma_prefix(before, prefix, end - 1);
    }
}

proof fn lemma_operator(before: Seq<char>, prefix: Seq<char>, end: int)
    requires
        identifier(prefix),
        prefix.len() < before.len(),
        before.skip(before.len() - prefix.len()) == prefix,
        before.len() - prefix.len() <= end <= before.len(),
        before[before.len() - prefix.len() - 1] == ':' || before[before.len() - prefix.len() - 1]
            == '>',
    ensures
        native::operator_before(before, end) == Some(before.len() - prefix.len() - 1),
    decreases end,
{
    let start = before.len() - prefix.len();
    if end > start {
        assert(before[end - 1] == before.skip(start)[end - 1 - start]);
        assert(prefix[end - 1 - start] == before[end - 1]);
        lemma_operator(before, prefix, end - 1);
    }
}

/// Whether a text ends with another.
pub open spec fn ends(s: Seq<char>, end: Seq<char>) -> bool {
    end.len() <= s.len() && s.skip(s.len() - end.len()) == end
}

proof fn lemma_ends(s: Seq<char>, end: Seq<char>)
    ensures
        text::ends_with(s, end) == ends(s, end),
{
    if end.len() <= s.len() {
        assert(s.skip(s.len() - end.len()) =~= s.subrange(s.len() - end.len(), s.len() as int));
    }
}

/// Whether a text stands in another at or behind an index.
pub open spec fn stands_from(s: Seq<char>, part: Seq<char>, from: int) -> bool {
    exists|k: int|
        from <= k <= s.len() - part.len() && #[trigger] s.subrange(k, k + part.len()) == part
}

proof fn lemma_last(s: Seq<char>, part: Seq<char>, before: int)
    requires
        part.len() > 0,
        0 <= before <= s.len() + 1,
    ensures
        match text::rfind_before(s, part, before) {
            Some(i) => 0 <= i < before && i + part.len() <= s.len() && s.subrange(i, i + part.len())
                == part && forall|k: int|
                i < k < before && k + part.len() <= s.len() ==> #[trigger] s.subrange(
                    k,
                    k + part.len(),
                ) != part,
            None => forall|k: int|
                0 <= k < before && k + part.len() <= s.len() ==> #[trigger] s.subrange(
                    k,
                    k + part.len(),
                ) != part,
        },
    decreases before,
{
    if before > 0 && !text::occurs_at(s, part, before - 1) {
        lemma_last(s, part, before - 1);
    }
}

/// Behind `new` a class is called for; behind `implements` an interface; behind `extends` an interface
/// where the last declaration that begins is one of an interface, else a class; elsewhere anything.
pub proof fn law_keywords_call_for_types(body: Seq<char>, trail: Seq<char>, k: int)
    requires
        forall|i: int| 0 <= i < trail.len() ==> text::whitespace(#[trigger] trail[i]),
        body.len() > 0 ==> !text::whitespace(body.last()),
    ensures
        php::type_context(body + trail, true) == TypeCompletionContext::New,
        ends(body, "implements"@) ==> php::type_context(body + trail, false)
            == TypeCompletionContext::ClassImplements,
        ends(body, "extends"@) && !ends(body, "implements"@) && !stands_from(body, "interface "@, 0)
            ==> php::type_context(body + trail, false) == TypeCompletionContext::ClassExtends,
        ends(body, "extends"@) && !ends(body, "implements"@) && 0 <= k <= body.len() && stands_from(
            body,
            "class "@,
            k,
        ) && !stands_from(body, "interface "@, k) ==> php::type_context(body + trail, false)
            == TypeCompletionContext::ClassExtends,
        ends(body, "extends"@) && !ends(body, "implements"@) && 0 <= k <= body.len() && stands_from(
            body,
            "interface "@,
            k,
        ) && !stands_from(body, "class "@, k) ==> php::type_context(body + trail, false)
            == TypeCompletionContext::InterfaceExtends,
        !ends(body, "extends"@) && !ends(body, "implements"@) ==> php::type_context(
            body + trail,
            false,
        ) == TypeCompletionContext::GenericType,
{
    typing::lemma_trim_end(body, trail);
    lemma_ends(body, "implements"@);
    lemma_ends(body, "extends"@);
    reveal_strlit("interface ");
    reveal_strlit("class ");
    lemma_last(body, "interface "@, body.len() as int + 1);
    lemma_last(body, "class "@, body.len() as int + 1);
    let interface = text::rfind(body, "interface "@);
    let class = text::rfind(body, "class "@);
    if interface is Some {
        let i = interface->0;
        assert(body.subrange(i, i + "interface "@.len()) == "interface "@);
        assert(stands_from(body, "interface "@, 0));
    }
    if class is Some {
        let i = class->0;
        assert(body.subrange(i, i + "class "@.len()) == "class "@);
    }
    if stands_from(body, "class "@, k) && 0 <= k {
        let j = choose|j: int|
            k <= j <= body.len() - "class "@.len() && #[trigger] body.subrange(
                j,
                j + "class "@.len(),
            ) == "class "@;
        assert(class is Some && class->0 >= j);
    }
    if stands_from(body, "interface "@, k) && 0 <= k {
        let j = choose|j: int|
            k <= j <= body.len() - "interface "@.len() && #[trigger] body.subrange(
                j,
                j + "interface "@.len(),
            ) == "interface "@;
        assert(interface is Some && interface->0 >= j);
    }
}

/// A class may be made and extended by a class, an interface be implemented and extended by an
/// interface, and nothing else of either; elsewhere anything may stand.
pub proof fn law_types_stand_where_they_may(project: ProjectSymbolKind, runtime: RuntimeKind)
    ensures
        php::project_kind_allowed(TypeCompletionContext::New, project) == (project
            == ProjectSymbolKind::Class),
        php::project_kind_allowed(TypeCompletionContext::ClassExtends, project) == (project
            == ProjectSymbolKind::Class),
        php::project_kind_allowed(TypeCompletionContext::ClassImplements, project) == (project
            == ProjectSymbolKind::Interface),
        php::project_kind_allowed(TypeCompletionContext::InterfaceExtends, project) == (project
            == ProjectSymbolKind::Interface),
        php::project_kind_allowed(TypeCompletionContext::GenericType, project),
        php::runtime_kind_allowed(TypeCompletionContext::New, runtime) == (runtime
            == RuntimeKind::Class),
        php::runtime_kind_allowed(TypeCompletionContext::ClassExtends, runtime) == (runtime
            == RuntimeKind::Class),
        php::runtime_kind_allowed(TypeCompletionContext::ClassImplements, runtime) == (runtime
            == RuntimeKind::Interface),
        php::runtime_kind_allowed(TypeCompletionContext::InterfaceExtends, runtime) == (runtime
            == RuntimeKind::Interface),
        php::runtime_kind_allowed(TypeCompletionContext::GenericType, runtime),
{
}

/// Whether completions are those of the symbols of the project at some positions: all that may stand
/// there, in their order, each under its name, with its full name, and with its import where it is a
/// type.
pub open spec fn offered_types(
    source: Seq<char>,
    cursor: usize,
    context: TypeCompletionContext,
    found: Seq<ProjectSymbolView>,
    items: Seq<CompletionItemView>,
    from: Seq<int>,
) -> bool {
    &&& from.len() == items.len()
    &&& forall|k: int|
        0 <= k < from.len() ==> {
            let symbol = found[from[k]];
            &&& 0 <= #[trigger] from[k] < found.len()
            &&& php::project_kind_allowed(context, symbol.kind)
            &&& items[k].label == symbol.name
            &&& items[k].detail == Some(symbol.fully_qualified_name + " • Project"@)
            &&& symbol.kind == ProjectSymbolKind::Class || symbol.kind
                == ProjectSymbolKind::Interface ==> items[k].additional_text_edits
                == match imports::import_edit(source, symbol.fully_qualified_name, cursor) {
                Some(edit) => seq![edit],
                None => Seq::empty(),
            }
            &&& items[k].insert_text is Some ==> items[k].insert_text->0 == "\\"@
                + symbol.fully_qualified_name
        }
    &&& forall|i: int, j: int| 0 <= i < j < from.len() ==> #[trigger] from[i] < #[trigger] from[j]
    &&& forall|i: int|
        0 <= i < found.len() && php::project_kind_allowed(context, (#[trigger] found[i]).kind)
            ==> from.contains(i)
}

/// The symbols of the project that a search gives are offered where they may stand.
pub proof fn law_types_of_the_project_are_offered(
    source: Seq<char>,
    cursor: usize,
    context: TypeCompletionContext,
    found: Seq<ProjectSymbolView>,
)
    ensures
        exists|from: Seq<int>| #[trigger]
            offered_types(
                source,
                cursor,
                context,
                found,
                native::project_type_items(source, cursor, context, found),
                from,
            ),
{
    let keep = |m: ProjectSymbolView| php::project_kind_allowed(context, m.kind);
    let from = text::lemma_filter_positions(found, keep);
    let items = native::project_type_items(source, cursor, context, found);
    assert forall|k: int| 0 <= k < from.len() implies {
        let symbol = found[from[k]];
        &&& 0 <= #[trigger] from[k] < found.len()
        &&& php::project_kind_allowed(context, symbol.kind)
        &&& items[k] == native::project_type_item(source, cursor, symbol)
    } by {
        assert(keep(found[from[k]]));
    }
    assert forall|i: int| 0 <= i < found.len() && php::project_kind_allowed(
        context,
        (#[trigger] found[i]).kind,
    ) implies from.contains(i) by {
        assert(keep(found[i]));
    }
    assert(offered_types(source, cursor, context, found, items, from));
}

/// Behind `new` and what is written of a name, the classes that a search for it gives are offered, and
/// it is told which bytes were written of it.
pub proof fn law_classes_are_offered_behind_new<S: SymbolIndex>(
    index: &S,
    left: Seq<char>,
    prefix: Seq<char>,
    behind: Seq<char>,
    cursor: usize,
)
    requires
        cursor == text::utf8_len(left + "new "@ + prefix),
        identifier(prefix),
        !text::alphanumeric(' '),
    ensures
        ({
            let batch = native::native_batch(index, left + "new "@ + prefix + behind, cursor);
            &&& batch.items == native::type_items(
                index,
                left + "new "@ + prefix + behind,
                cursor,
                prefix,
                TypeCompletionContext::New,
                true,
            )
            &&& batch.new_prefix == Some((text::utf8_len(left + "new "@) as usize, cursor))
        }),
{
    let head = left + "new "@;
    let before = head + prefix;
    let source = before + behind;
    let n = before.len() as int;
    text::lemma_char_boundary(source, n);
    assert(source.take(n) =~= before);
    let start = head.len() as int;
    lemma_new_head(left);
    assert(before[start - 1] == ' ');
    assert(before.skip(start) =~= prefix);
    assert(before.take(start) =~= head);
    lemma_plain_prefix(before, prefix, n);
    lemma_no_dollar(prefix);
    lemma_no_access(before, prefix, n);
    if prefix.len() == 0 {
        assert(before =~= head);
    }
    text::lemma_utf8_len_add(before, behind);
    text::lemma_utf8_len_add(head, prefix);
    assert(source == left + "new "@ + prefix + behind);
}

proof fn lemma_new_head(left: Seq<char>)
    ensures
        native::behind_new(left + "new "@),
        native::behind_keyword(left + "new "@),
        (left + "new "@).len() == left.len() + 4,
        (left + "new "@).last() == ' ',
{
    reveal_strlit("new ");
    reveal_strlit("new");
    let head = left + "new "@;
    assert(head =~= (left + "new"@) + seq![' ']);
    assert((left + "new"@).last() == "new"@[2]);
    typing::lemma_trim_end(left + "new"@, seq![' ']);
    lemma_ends(left + "new"@, "new"@);
    assert((left + "new"@).skip(left.len() as int) =~= "new"@);
    lemma_ends(head, "new "@);
    assert(head.skip(left.len() as int) =~= "new "@);
}

proof fn lemma_no_dollar(prefix: Seq<char>)
    requires
        identifier(prefix),
    ensures
        !text::starts_with(prefix, "$"@),
{
    reveal_strlit("$");
    lemma_begins(prefix, "$"@);
    if prefix.len() > 0 {
        assert(prefix.take(1)[0] == prefix[0]);
    }
}

proof fn lemma_plain_prefix(before: Seq<char>, prefix: Seq<char>, end: int)
    requires
        identifier(prefix),
        prefix.len() < before.len(),
        before.skip(before.len() - prefix.len()) == prefix,
        before.len() - prefix.len() <= end <= before.len(),
        !native::completed_char(before[before.len() - prefix.len() - 1]),
    ensures
        native::prefix_start(before, end) == before.len() - prefix.len(),
    decreases end,
{
    let start = before.len() - prefix.len();
    if end > start {
        assert(before[end - 1] == before.skip(start)[end - 1 - start]);
        assert(prefix[end - 1 - start] == before[end - 1]);
        lemma_plain_prefix(before, prefix, end - 1);
    }
}

proof fn lemma_no_access(before: Seq<char>, prefix: Seq<char>, end: int)
    requires
        identifier(prefix),
        prefix.len() < before.len(),
        before.skip(before.len() - prefix.len()) == prefix,
        before[before.len() - prefix.len() - 1] == ' ',
        !text::alphanumeric(' '),
        end == before.len(),
    ensures
        native::member_access(before) is None,
{
    let start = before.len() - prefix.len();
    lemma_operator_place(before, end);
    match native::operator_before(before, end) {
        Some(at) => {
            if at >= start {
                assert(before.skip(start)[at - start] == before[at]);
                assert(prefix[at - start] == before[at]);
            } else {
                assert(at != start - 1);
                let rest = before.skip(at + 1);
                assert(rest[start - 1 - at - 1] == ' ');
                assert(!php::identifier_char(rest[start - 1 - at - 1]));
            }
        },
        None => {},
    }
}

proof fn lemma_operator_place(before: Seq<char>, end: int)
    requires
        0 <= end <= before.len(),
    ensures
        match native::operator_before(before, end) {
            Some(at) => 0 <= at < end && (before[at] == '>' || before[at] == ':'),
            None => true,
        },
    decreases end,
{
    if end > 0 && before[end - 1] != '>' && before[end - 1] != ':' {
        lemma_operator_place(before, end - 1);
    }
}

/// An import that is put into a source is a line of its own that names just what is imported, and
/// changes nothing that was there.
pub proof fn law_imports_stand_on_their_own_line(s: Seq<char>, name: Seq<char>, caret: usize)
    requires
        name.len() > 0,
        name[0] != '\\',
    ensures
        match imports::import_edit(s, name, caret) {
            Some(edit) => {
                let place = imports::import_place(s, text::fitting(s, caret as int) as int);
                let line = "use "@ + name + ";\n"@;
                &&& edit.start == edit.end
                &&& edit.start == text::utf8_len(s.take(place)) as usize
                &&& if place > 0 && s[place - 1] != '\n' {
                    edit.new_text == "\n"@ + line
                } else {
                    edit.new_text == line
                }
            },
            None => true,
        },
{
    assert(text::strip_start(name, '\\') == name);
    match imports::import_edit(s, name, caret) {
        Some(edit) => {
            let line = "use "@ + name + ";\n"@;
            assert("\n"@ + "use "@ + name + ";\n"@ =~= "\n"@ + line);
            assert(Seq::<char>::empty() + "use "@ + name + ";\n"@ =~= line);
        },
        None => {},
    }
}

/// Whether a completion is one that is called.
pub open spec fn is_called(item: CompletionItemView) -> bool {
    item.kind == Some(CompletionItemKind::Function) || item.kind == Some(CompletionItemKind::Method)
        || item.kind == Some(CompletionItemKind::Constructor)
}

/// Accepting a completion writes what it inserts, or its label, over what is replaced. What is called
/// gets parentheses where what is written has none and none stand behind it; nothing else does, but
/// for a class behind `new`.
pub proof fn law_accepted_text_is_written(
    left: Seq<char>,
    replaced: Seq<char>,
    behind: Seq<char>,
    item: CompletionItemView,
    span: Span,
)
    requires
        item.text_edit is None,
        !item.snippet,
        span.start == text::utf8_len(left),
        span.end == text::utf8_len(left + replaced),
        span.end <= usize::MAX,
    ensures
        ({
            let written = match item.insert_text {
                Some(insert) => insert,
                None => item.label,
            };
            let r = accept::accepted(left + replaced + behind, item, span);
            let open = (behind.len() > 0 && behind[0] == '(') || (written.len() > 0 && (
            written.last() == '(' || written.last() == ')')) || stands_from(written, "()"@, 0);
            &&& r.edit.start == span.start
            &&& r.edit.end == span.end
            &&& is_called(item) ==> r.call_like
            &&& is_called(item) && !open ==> r.edit.new_text == written + "()"@
            &&& is_called(item) && open ==> r.edit.new_text == written
            &&& !is_called(item) && item.kind != Some(CompletionItemKind::Class)
                ==> r.edit.new_text == written && !r.call_like
        }),
{
    let content = left + replaced + behind;
    let end = (left.len() + replaced.len()) as int;
    text::lemma_char_boundary(content, end);
    assert(content.take(end) =~= left + replaced);
    assert(content.skip(end) =~= behind);
    let written = match item.insert_text {
        Some(insert) => insert,
        None => item.label,
    };
    text::lemma_utf8_len_add(left, replaced);
    reveal_strlit("(");
    reveal_strlit(")");
    reveal_strlit("()");
    lemma_begins(behind, "("@);
    if behind.len() > 0 {
        assert(behind.take(1)[0] == behind[0]);
        if behind[0] == '(' {
            assert(behind.take(1) =~= "("@);
        }
    }
    if written.len() > 0 {
        typing::lemma_ends_with_one(written, "("@);
        typing::lemma_ends_with_one(written, ")"@);
    }
    assert(text::contains_text(written, "()"@) == stands_from(written, "()"@, 0)) by {
        if stands_from(written, "()"@, 0) {
            let k = choose|k: int|
                0 <= k <= written.len() - "()"@.len() && #[trigger] written.subrange(
                    k,
                    k + "()"@.len(),
                ) == "()"@;
            assert(text::occurs_at(written, "()"@, k));
        }
        if text::contains_text(written, "()"@) {
            let k = choose|k: int| text::occurs_at(written, "()"@, k);
            assert(written.subrange(k, k + "()"@.len()) == "()"@);
        }
    }
}

/// Without a selection a completion replaces exactly the name that ends at the cursor.
pub proof fn law_completions_replace_the_name(
    left: Seq<char>,
    name: Seq<char>,
    behind: Seq<char>,
    cursor: usize,
)
    requires
        cursor == text::utf8_len(left + name),
        forall|k: int|
            0 <= k < name.len() ==> text::alphanumeric(#[trigger] name[k]) || name[k] == '_'
                || name[k] == '\\' || name[k] == '$',
        left.len() > 0 ==> {
            let c = left.last();
            !text::alphanumeric(c) && c != '_' && c != '\\' && c != '$'
        },
    ensures
        accept::replaced_span(left + name + behind, None, cursor).start == text::utf8_len(left),
        accept::replaced_span(left + name + behind, None, cursor).end == text::utf8_len(left + name),
{
    let content = left + name + behind;
    let end = (left.len() + name.len()) as int;
    text::lemma_char_boundary(content, end);
    assert(content.take(end) =~= left + name);
    lemma_replaced(left, name, behind, name.len() as int);
    assert(content.take(left.len() as int) =~= left);
}

proof fn lemma_replaced(left: Seq<char>, name: Seq<char>, behind: Seq<char>, k: int)
    requires
        0 <= k <= name.len(),
        forall|i: int|
            0 <= i < name.len() ==> text::alphanumeric(#[trigger] name[i]) || name[i] == '_'
                || name[i] == '\\' || name[i] == '$',
        left.len() > 0 ==> {
            let c = left.last();
            !text::alphanumeric(c) && c != '_' && c != '\\' && c != '$'
        },
    ensures
        accept::replaced_start(left + name + behind, left.len() + k) == left.len(),
    decreases k,
{
    let content = left + name + behind;
    if k > 0 {
        assert(content[left.len() + k - 1] == name[k - 1]);
        lemma_replaced(left, name, behind, k - 1);
    } else if left.len() > 0 {
        assert(content[left.len() - 1] == left.last());
    }
}

/// Behind what was written the caret stands at its end, and between the parentheses of a call that was
/// written with them.
pub proof fn law_the_caret_follows_what_was_written(
    left: Seq<char>,
    name: Seq<char>,
    behind: Seq<char>,
    start: usize,
)
    requires
        start == text::utf8_len(left),
        name.len() > 0,
        name.last() != ')',
    ensures
        accept::caret_behind(left + name + behind, start, name, false) == Some(
            text::utf8_len(left + name),
        ),
        accept::caret_behind(left + (name + "()"@) + behind, start, name + "()"@, true) == Some(
            text::utf8_len(left + name) + 1,
        ),
{
    reveal_strlit("()");
    let called = name + "()"@;
    let plain = left + name + behind;
    let full = left + called + behind;
    text::lemma_char_boundary(plain, left.len() as int);
    text::lemma_char_boundary(full, left.len() as int);
    assert(plain.take(left.len() as int) =~= left);
    assert(full.take(left.len() as int) =~= left);
    assert(plain.subrange(left.len() as int, (left.len() + name.len()) as int) =~= name);
    text::lemma_find(plain, name, left.len() as int);
    assert(text::occurs_at(plain, name, left.len() as int));
    assert(called.drop_last() =~= name.push('('));
    assert(name.push('(').last() == '(');
    reveal_with_fuel(text::strip_end, 3);
    assert(text::strip_end(called, ')') == name.push('('));
    assert(full.subrange(left.len() as int, (left.len() + name.len() + 1) as int) =~= name.push('('));
    text::lemma_find(full, name.push('('), left.len() as int);
    assert(text::occurs_at(full, name.push('('), left.len() as int));
    lemma_ends(called, "()"@);
    assert(called.skip(name.len() as int) =~= "()"@);
    text::lemma_utf8_len_add(left, name);
    text::lemma_utf8_len_add(name, "()"@);
    reveal_with_fuel(text::utf8_len, 3);
    assert("()"@.drop_last() =~= seq!['(']);
    assert(seq!['('].drop_last() =~= Seq::<char>::empty());
    assert(text::utf8_len("()"@) == 2);
    text::lemma_utf8_len_add(left + called, behind);
    text::lemma_utf8_len_add(left, called);
    text::lemma_utf8_len_add(left + name, behind);
}

/// How many commas stand in a text.
pub open spec fn comma_count(s: Seq<char>) -> nat {
    s.filter(|c: char| c == ',').len()
}

proof fn lemma_commas(s: Seq<char>)
    ensures
        help::commas(s) == comma_count(s),
    decreases s.len(),
{
    reveal(Seq::filter);
    if s.len() > 0 {
        lemma_commas(s.drop_last());
    }
}

/// Whether a text shows the parameters of a call in their order, each by its name, and marks exactly
/// the one of a number.
pub open spec fn shows_parameters(
    shown: Seq<char>,
    name: Seq<char>,
    parameters: Seq<RuntimeParameterView>,
    active: int,
    parts: Seq<Seq<char>>,
    returned: Seq<char>,
) -> bool {
    &&& parts.len() == parameters.len()
    &&& shown == name + "("@ + text::join(parts, ", "@) + ")"@ + returned
    &&& forall|k: int|
        0 <= k < parts.len() ==> (#[trigger] parts[k]) == (if k == active {
            "▶ "@
        } else {
            Seq::empty()
        }) + (match parameters[k].declared_type {
            Some(declared) => declared,
            None => Seq::empty(),
        }) + " "@ + (if parameters[k].variadic {
            "..."@
        } else {
            Seq::empty()
        }) + "$"@ + text::strip_start(parameters[k].name, '$') + (if parameters[k].optional {
            " = …"@
        } else {
            Seq::empty()
        })
}

/// Within the parentheses of a call of a function of the runtime its signature is shown, with the
/// parameter marked that the cursor is at: one more for each comma before it.
pub proof fn law_calls_show_their_signature<S: SymbolIndex>(
    index: &S,
    left: Seq<char>,
    name: Seq<char>,
    written: Seq<char>,
    behind: Seq<char>,
    symbol: RuntimeSymbolView,
    cursor: usize,
)
    requires
        cursor == text::utf8_len(left + name + "("@ + written),
        name.len() > 0,
        forall|k: int|
            0 <= k < name.len() ==> {
                let c = #[trigger] name[k];
                (text::alphanumeric(c) || c == '_') && c != ':' && !text::whitespace(c)
            },
        left.len() > 0 ==> {
            let c = left.last();
            !text::alphanumeric(c) && c != '_' && c != ':'
        },
        forall|k: int|
            0 <= k < left.len() + name.len() - 1 ==> !(#[trigger] (left + name)[k] == '-' && (left
                + name)[k + 1] == '>'),
        forall|k: int| 0 <= k < written.len() ==> #[trigger] written[k] != '(',
        index.runtime_function_of(name) == Some(symbol),
        symbol.signature is Some,
    ensures
        ({
            let shown = help::signature_help(index, left + name + "("@ + written + behind, cursor);
            &&& shown is Some
            &&& exists|parts: Seq<Seq<char>>, returned: Seq<char>| #[trigger]
                shows_parameters(
                    shown->0,
                    symbol.name,
                    (symbol.signature->0).parameters,
                    comma_count(written) as int,
                    parts,
                    returned,
                )
        }),
{
    let head = left + name;
    let before = head + "("@ + written;
    let source = before + behind;
    let n = before.len() as int;
    text::lemma_char_boundary(source, n);
    assert(source.take(n) =~= before);
    lemma_call_before(left, name, written);
    lemma_commas(written);
    let parameters = (symbol.signature->0).parameters;
    let active = comma_count(written) as int;
    let parts = help::marked_parameters(parameters, active);
    let returned = signature::shown_return(signature::returned(symbol.signature->0));
    let shown = help::signature_help(index, source, cursor);
    assert(help::called_method(index, name, None) is None);
    assert(shown == help::runtime_help(symbol, active));
    assert(shows_parameters(shown->0, symbol.name, parameters, active, parts, returned));
}

proof fn lemma_call_before(left: Seq<char>, name: Seq<char>, written: Seq<char>)
    requires
        name.len() > 0,
        forall|k: int|
            0 <= k < name.len() ==> {
                let c = #[trigger] name[k];
                (text::alphanumeric(c) || c == '_') && c != ':' && !text::whitespace(c)
            },
        left.len() > 0 ==> {
            let c = left.last();
            !text::alphanumeric(c) && c != '_' && c != ':'
        },
        forall|k: int|
            0 <= k < left.len() + name.len() - 1 ==> !(#[trigger] (left + name)[k] == '-' && (left
                + name)[k + 1] == '>'),
        forall|k: int| 0 <= k < written.len() ==> #[trigger] written[k] != '(',
    ensures
        ({
            let head = left + name;
            let before = head + "("@ + written;
            let open = head.len() as int;
            &&& text::char_before(before, '(', before.len() as int) == Some(open)
            &&& before.take(open) == head
            &&& before.skip(open + 1) == written
            &&& help::callable_before(head) == name
            &&& help::called_name(name) == name
            &&& help::called_on(head, name) is None
        }),
{
    reveal_strlit("(");
    reveal_strlit("->");
    reveal_strlit("::");
    let head = left + name;
    let before = head + "("@ + written;
    let open = head.len() as int;
    assert forall|k: int| open < k < before.len() implies #[trigger] before[k] != '(' by {
        assert(before[k] == written[k - open - 1]);
    }
    lemma_open(before, open, before.len() as int);
    assert(before.take(open) =~= head);
    assert(before.skip(open + 1) =~= written);
    assert(!text::whitespace(name[name.len() - 1]));
    assert(head.last() == name[name.len() - 1]);
    assert(text::trim_end(head) == head);
    lemma_callable(left, name, name.len() as int);
    assert(head.skip(left.len() as int) =~= name);
    lemma_none(name, "::"@, name.len() as int + 1);
    lemma_none(head, "->"@, head.len() as int + 1);
}

proof fn lemma_open(before: Seq<char>, open: int, end: int)
    requires
        0 <= open < end <= before.len(),
        before[open] == '(',
        forall|k: int| open < k < before.len() ==> #[trigger] before[k] != '(',
    ensures
        text::char_before(before, '(', end) == Some(open),
    decreases end,
{
    if end - 1 > open {
        assert(before[end - 1] != '(');
        lemma_open(before, open, end - 1);
    }
}

proof fn lemma_callable(left: Seq<char>, name: Seq<char>, k: int)
    requires
        0 <= k <= name.len(),
        forall|i: int|
            0 <= i < name.len() ==> text::alphanumeric(#[trigger] name[i]) || name[i] == '_',
        left.len() > 0 ==> {
            let c = left.last();
            !text::alphanumeric(c) && c != '_' && c != ':'
        },
    ensures
        help::callable_start(left + name, left.len() + k) == left.len(),
    decreases k,
{
    let head = left + name;
    if k > 0 {
        assert(head[left.len() + k - 1] == name[k - 1]);
        lemma_callable(left, name, k - 1);
    } else if left.len() > 0 {
        assert(head[left.len() - 1] == left.last());
    }
}

proof fn lemma_none(s: Seq<char>, pair: Seq<char>, before: int)
    requires
        pair.len() == 2,
        forall|k: int|
            0 <= k < s.len() - 1 ==> !(#[trigger] s[k] == pair[0] && s[k + 1] == pair[1]),
    ensures
        text::rfind_before(s, pair, before) is None,
    decreases before,
{
    if before > 0 {
        if text::occurs_at(s, pair, before - 1) {
            assert(s.subrange(before - 1, before + 1)[0] == s[before - 1]);
            assert(s.subrange(before - 1, before + 1)[1] == s[before]);
        }
        lemma_none(s, pair, before - 1);
    }
}

} // verus!
