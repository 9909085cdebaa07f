//! Completions that the editor finds by itself, from the text before the cursor and the index.

use std::ops::Range;

use vstd::prelude::*;
use vstd::slice::slice_subrange;
use vstd::string::*;

use crate::completion;
use crate::completion::CompletionItem;
use crate::completion::CompletionItemKind;
use crate::completion::CompletionItemView;
use crate::completion::TextEdit;
use crate::completion::TextEditView;
use crate::imports;
use crate::php;
use crate::php::ProjectSymbolKind;
use crate::php::RuntimeKind;
use crate::php::TypeCompletionContext;
use crate::provider;
use crate::receiver;
use crate::signature;
use crate::symbols;
use crate::symbols::BindingView;
use crate::symbols::ProjectSymbol;
use crate::symbols::ProjectSymbolView;
use crate::symbols::RuntimeSymbol;
use crate::symbols::RuntimeSymbolView;
use crate::symbols::SymbolIndex;
use crate::symbols::VendorType;
use crate::symbols::VendorTypeView;
use crate::symbols::Visibility;
use crate::text;

verus! {

/// How many completions are offered at most.
pub open spec fn most() -> nat {
    40
}

/// Whether a name comes before another: a shorter one, or one as long that is lexically before.
pub open spec fn name_before(a: Seq<char>, b: Seq<char>) -> bool {
    text::utf8_len(a) < text::utf8_len(b) || (text::utf8_len(a) == text::utf8_len(b)
        && text::lexically_before(a, b))
}

fn comes_before(a: &str, b: &str) -> (r: bool)
    ensures
        r == name_before(a@, b@),
{
    let n: usize = text::byte_len(a);
    let m: usize = text::byte_len(b);
    n < m || (n == m && text::is_lexically_before(&text::chars_of(a), &text::chars_of(b)))
}

/// How many names, from the first on, come before a name.
pub open spec fn name_position(names: Seq<Seq<char>>, name: Seq<char>) -> nat
    decreases names.len(),
{
    if names.len() > 0 && name_before(names[0], name) {
        1 + name_position(names.skip(1), name)
    } else {
        0
    }
}

/// The names with one more, in order, none twice; only the first of them all.
pub open spec fn with_name(names: Seq<Seq<char>>, name: Seq<char>) -> Seq<Seq<char>> {
    let at = name_position(names, name);
    if names.contains(name) || at >= most() || at > names.len() {
        names
    } else {
        text::first(names.insert(at as int, name), most())
    }
}

/// Whether a variable is offered: where it is declared before the prefix, and starts with it.
pub open spec fn offered(binding: BindingView, limit: int, prefix: Seq<char>) -> bool {
    binding.declaration_end <= limit && text::starts_with(binding.name, prefix)
}

/// The names of the variables that are offered.
pub open spec fn local_names(bindings: Seq<BindingView>, limit: int, prefix: Seq<char>) -> Seq<
    Seq<char>,
>
    decreases bindings.len(),
{
    if bindings.len() == 0 {
        Seq::empty()
    } else {
        let before = local_names(bindings.drop_last(), limit, prefix);
        if offered(bindings.last(), limit, prefix) {
            with_name(before, bindings.last().name)
        } else {
            before
        }
    }
}

/// The completion of a variable.
pub open spec fn variable_item(name: Seq<char>) -> CompletionItemView {
    completion::plain_item(name, None, CompletionItemKind::Variable, None, Seq::empty())
}

/// The completions of the variables that are bound where a text ends, for the prefix at its end.
pub open spec fn local_items<S: SymbolIndex>(
    index: &S,
    context: Seq<char>,
    prefix: Seq<char>,
) -> Seq<CompletionItemView> {
    let size = text::utf8_len(context);
    let at = if size > 0 {
        (size - 1) as usize
    } else {
        0
    };
    let limit = if size >= text::utf8_len(prefix) {
        size - text::utf8_len(prefix)
    } else {
        0
    };
    match index.bound_in(at) {
        Some(bindings) => local_names(bindings, limit, prefix).map_values(
            |name: Seq<char>| variable_item(name),
        ),
        None => Seq::empty(),
    }
}

proof fn lemma_names_bounded(bindings: Seq<BindingView>, limit: int, prefix: Seq<char>)
    ensures
        local_names(bindings, limit, prefix).len() <= most(),
    decreases bindings.len(),
{
    if bindings.len() > 0 {
        lemma_names_bounded(bindings.drop_last(), limit, prefix);
    }
}

fn add_name(names: &mut Vec<String>, name: &str)
    requires
        old(names)@.len() <= most(),
    ensures
        text::texts(final(names)@) == with_name(text::texts(old(names)@), name@),
        final(names)@.len() <= most(),
{
    let ghost all = text::texts(names@);
    let n: usize = names.len();
    let mut i: usize = 0;
    while i < n
        invariant
            i <= n == names@.len(),
            n <= most(),
            all == text::texts(names@),
            forall|k: int| 0 <= k < i ==> all[k] != name@,
        decreases n - i,
    {
        assert(all[i as int] == names@[i as int]@);
        if text::eq(&names[i], name) {
            assert(all.contains(name@));
            return;
        }
        i += 1;
    }
    let mut at: usize = 0;
    assert(all.skip(0) =~= all);
    while at < n && comes_before(&names[at], name)
        invariant
            at <= n == names@.len(),
            all == text::texts(names@),
            name_position(all, name@) == at + name_position(all.skip(at as int), name@),
        decreases n - at,
    {
        assert(all.skip(at as int)[0] == names@[at as int]@);
        assert(all.skip(at as int).skip(1) =~= all.skip(at + 1));
        at += 1;
    }
    proof {
        if at < n {
            assert(all.skip(at as int)[0] == names@[at as int]@);
        }
    }
    if at >= 40 {
        return;
    }
    let ghost held = names@;
    let owned = String::from_str(name);
    names.insert(at, owned);
    proof {
        assert(text::texts(names@) =~= all.insert(at as int, name@));
    }
    if names.len() > 40 {
        names.truncate(40);
        assert(text::texts(names@) =~= all.insert(at as int, name@).take(40));
    }
}

/// The completions of the variables that are bound where a text ends, for the prefix at its end.
pub fn local_variable_completions<S: SymbolIndex>(index: &S, context: &str, prefix: &str) -> (r:
    Vec<CompletionItem>)
    ensures
        completion::item_views(r@) == local_items(index, context@, prefix@),
{
    let size: usize = text::byte_len(context);
    let limit: usize = size.saturating_sub(text::byte_len(prefix));
    let mut out: Vec<CompletionItem> = Vec::new();
    let bindings = match index.bindings(size.saturating_sub(1)) {
        Some(bindings) => bindings,
        None => {
            assert(completion::item_views(out@) =~= Seq::<CompletionItemView>::empty());
            return out;
        },
    };
    let ghost all = symbols::binding_views(bindings@);
    let wanted = text::chars_of(prefix);
    let mut names: Vec<String> = Vec::new();
    let mut i: usize = 0;
    assert(all.take(0) =~= Seq::<BindingView>::empty());
    assert(text::texts(names@) =~= Seq::<Seq<char>>::empty());
    while i < bindings.len()
        invariant
            i <= bindings@.len(),
            all == symbols::binding_views(bindings@),
            wanted@ == prefix@,
            names@.len() <= most(),
            text::texts(names@) == local_names(all.take(i as int), limit as int, prefix@),
        decreases bindings@.len() - i,
    {
        assert(all.take(i + 1).drop_last() =~= all.take(i as int));
        assert(all.take(i + 1).last() == bindings@[i as int]@);
        if bindings[i].declaration_end <= limit && text::is_at(
            &text::chars_of(&bindings[i].name),
            &wanted,
            0,
        ) {
            add_name(&mut names, &bindings[i].name);
        }
        i += 1;
    }
    assert(all.take(i as int) =~= all);
    let mut k: usize = 0;
    while k < names.len()
        invariant
            k <= names@.len(),
            out@.len() == k,
            forall|j: int| 0 <= j < k ==> (#[trigger] out@[j])@ == variable_item(names@[j]@),
        decreases names@.len() - k,
    {
        let item = simple_item(
            names[k].clone(),
            None,
            CompletionItemKind::Variable,
            None,
            Vec::new(),
        );
        assert(item@ =~= variable_item(names@[k as int]@));
        out.push(item);
        k += 1;
    }
    assert(completion::item_views(out@) =~= text::texts(names@).map_values(
        |name: Seq<char>| variable_item(name),
    ));
    out
}

fn simple_item(
    label: String,
    detail: Option<String>,
    kind: CompletionItemKind,
    insert_text: Option<String>,
    additional_text_edits: Vec<TextEdit>,
) -> (r: CompletionItem)
    ensures
        r@ == completion::plain_item(
            label@,
            provider::optional_text(detail),
            kind,
            provider::optional_text(insert_text),
            completion::edit_views(additional_text_edits@),
        ),
{
    CompletionItem {
        label,
        detail,
        kind: Some(kind),
        insert_text,
        snippet: false,
        text_edit: None,
        additional_text_edits,
    }
}

/// The text of a call, or the name with empty parentheses where the signature is not known.
pub open spec fn call_or_name(symbol: RuntimeSymbolView) -> Seq<char> {
    match signature::runtime_call(symbol) {
        Some(call) => call,
        None => symbol.name + "()"@,
    }
}

/// The completion of a static method of the runtime behind the name of its class.
pub open spec fn static_runtime_item(prefix: Seq<char>, symbol: RuntimeSymbolView) -> CompletionItemView {
    completion::plain_item(
        symbol.name,
        Some(signature::runtime_detail(symbol)),
        CompletionItemKind::Method,
        Some(prefix + "::"@ + call_or_name(symbol)),
        Seq::empty(),
    )
}

/// The completions of the static methods of a runtime class behind its name.
pub open spec fn static_runtime_items(prefix: Seq<char>, methods: Seq<RuntimeSymbolView>) -> Seq<
    CompletionItemView,
> {
    methods.filter(|m: RuntimeSymbolView| m.is_static).map_values(
        |m: RuntimeSymbolView| static_runtime_item(prefix, m),
    )
}

fn offer_static_runtime(prefix: &str, methods: &Vec<RuntimeSymbol>) -> (r: Vec<CompletionItem>)
    ensures
        completion::item_views(r@) == static_runtime_items(
            prefix@,
            symbols::runtime_views(methods@),
        ),
{
    let ghost all = symbols::runtime_views(methods@);
    let ghost keep = |m: RuntimeSymbolView| m.is_static;
    let ghost to = |m: RuntimeSymbolView| static_runtime_item(prefix@, m);
    let mut out: Vec<CompletionItem> = Vec::new();
    let mut i: usize = 0;
    proof {
        text::lemma_filter_map_none(all, keep, to);
        assert(completion::item_views(out@) =~= Seq::<CompletionItemView>::empty());
    }
    while i < methods.len()
        invariant
            i <= methods@.len(),
            all == symbols::runtime_views(methods@),
            keep == (|m: RuntimeSymbolView| m.is_static),
            to == (|m: RuntimeSymbolView| static_runtime_item(prefix@, m)),
            completion::item_views(out@) == all.take(i as int).filter(keep).map_values(to),
        decreases methods@.len() - i,
    {
        proof {
            text::lemma_filter_map_step(all, keep, to, i as int);
        }
        let symbol = &methods[i];
        assert(all[i as int] == symbol@);
        if symbol.is_static {
            let mut insert = text::chars_of(prefix);
            text::put(&mut insert, "::");
            match signature::runtime_call_insert_text(symbol) {
                Some(call) => text::put(&mut insert, &call),
                None => {
                    text::put(&mut insert, &symbol.name);
                    text::put(&mut insert, "()");
                },
            }
            assert(insert@ =~= prefix@ + "::"@ + call_or_name(symbol@));
            let item = simple_item(
                symbol.name.clone(),
                Some(signature::runtime_signature_detail(symbol)),
                CompletionItemKind::Method,
                Some(text::to_string(&insert)),
                Vec::new(),
            );
            assert(item@ =~= static_runtime_item(prefix@, symbol@));
            let ghost held = completion::item_views(out@);
            out.push(item);
            assert(completion::item_views(out@) =~= held.push(item@));
        }
        i += 1;
    }
    assert(all.take(i as int) =~= all);
    out
}

/// The part of a shown method from its first opening to its last closing parenthesis.
pub open spec fn shown_arguments(detail: Seq<char>) -> Seq<char> {
    match (
        text::char_from(detail, '(', 0),
        text::char_before(detail, ')', detail.len() as int),
    ) {
        (Some(open), Some(close)) => if open <= close {
            detail.subrange(open, close + 1)
        } else {
            "()"@
        },
        _ => "()"@,
    }
}

fn read_arguments(detail: &str) -> (r: Vec<char>)
    ensures
        r@ == shown_arguments(detail@),
{
    let chars = text::chars_of(detail);
    let n: usize = chars.len();
    match (text::find_char(&chars, '(', 0), text::rfind_char(&chars, ')')) {
        (Some(open), Some(close)) => if open <= close {
            let mut out: Vec<char> = Vec::new();
            out.extend_from_slice(slice_subrange(&chars, open, close + 1));
            assert(out@ =~= shown_arguments(detail@));
            out
        } else {
            text::chars_of("()")
        },
        _ => text::chars_of("()"),
    }
}

/// The completion of a static method of the project behind the name of its class.
pub open spec fn static_project_item(prefix: Seq<char>, symbol: ProjectSymbolView) -> CompletionItemView {
    let detail = signature::method_detail(symbol);
    completion::plain_item(
        symbol.name,
        Some(detail),
        CompletionItemKind::Method,
        Some(prefix + "::"@ + symbol.name + shown_arguments(detail)),
        Seq::empty(),
    )
}

/// The completions of the static methods of a class of the project behind its name.
pub open spec fn static_project_items(prefix: Seq<char>, methods: Seq<ProjectSymbolView>) -> Seq<
    CompletionItemView,
> {
    methods.filter(|m: ProjectSymbolView| symbols::declared_static(m)).map_values(
        |m: ProjectSymbolView| static_project_item(prefix, m),
    )
}

fn offer_static_project(prefix: &str, methods: &Vec<ProjectSymbol>) -> (r: Vec<CompletionItem>)
    ensures
        completion::item_views(r@) == static_project_items(
            prefix@,
            symbols::project_views(methods@),
        ),
{
    let ghost all = symbols::project_views(methods@);
    let ghost keep = |m: ProjectSymbolView| symbols::declared_static(m);
    let ghost to = |m: ProjectSymbolView| static_project_item(prefix@, m);
    let mut out: Vec<CompletionItem> = Vec::new();
    let mut i: usize = 0;
    proof {
        text::lemma_filter_map_none(all, keep, to);
        assert(completion::item_views(out@) =~= Seq::<CompletionItemView>::empty());
    }
    while i < methods.len()
        invariant
            i <= methods@.len(),
            all == symbols::project_views(methods@),
            keep == (|m: ProjectSymbolView| symbols::declared_static(m)),
            to == (|m: ProjectSymbolView| static_project_item(prefix@, m)),
            completion::item_views(out@) == all.take(i as int).filter(keep).map_values(to),
        decreases methods@.len() - i,
    {
        proof {
            text::lemma_filter_map_step(all, keep, to, i as int);
        }
        let symbol = &methods[i];
        assert(all[i as int] == symbol@);
        if symbol.is_static() {
            let detail = signature::project_method_detail(symbol);
            let mut insert = text::chars_of(prefix);
            text::put(&mut insert, "::");
            text::put(&mut insert, &symbol.name);
            insert.extend_from_slice(&read_arguments(&detail));
            assert(insert@ =~= prefix@ + "::"@ + symbol@.name + shown_arguments(detail@));
            let item = simple_item(
                symbol.name.clone(),
                Some(detail),
                CompletionItemKind::Method,
                Some(text::to_string(&insert)),
                Vec::new(),
            );
            assert(item@ =~= static_project_item(prefix@, symbol@));
            let ghost held = completion::item_views(out@);
            out.push(item);
            assert(completion::item_views(out@) =~= held.push(item@));
        }
        i += 1;
    }
    assert(all.take(i as int) =~= all);
    out
}

/// The completion of a method of the project.
pub open spec fn method_item(symbol: ProjectSymbolView) -> CompletionItemView {
    completion::plain_item(
        symbol.name,
        Some(signature::method_detail(symbol)),
        CompletionItemKind::Method,
        None,
        Seq::empty(),
    )
}

/// Whether a method of the project is offered behind a member access.
pub open spec fn member_of_project(m: ProjectSymbolView, prefix: Seq<char>, is_static: bool) -> bool {
    text::starts_with(m.name, prefix) && is_static == symbols::declared_static(m) && (is_static
        || m.visibility != Visibility::Private)
}

/// The completions of the methods of a class of the project.
pub open spec fn project_members(
    methods: Seq<ProjectSymbolView>,
    prefix: Seq<char>,
    is_static: bool,
) -> Seq<CompletionItemView> {
    methods.filter(|m: ProjectSymbolView| member_of_project(m, prefix, is_static)).map_values(
        |m: ProjectSymbolView| method_item(m),
    )
}

fn offer_method(symbol: &ProjectSymbol) -> (r: CompletionItem)
    ensures
        r@ == method_item(symbol@),
{
    let item = simple_item(
        symbol.name.clone(),
        Some(signature::project_method_detail(symbol)),
        CompletionItemKind::Method,
        None,
        Vec::new(),
    );
    assert(item@ =~= method_item(symbol@));
    item
}

fn offer_project_members(methods: &Vec<ProjectSymbol>, prefix: &str, is_static: bool) -> (r: Vec<
    CompletionItem,
>)
    ensures
        completion::item_views(r@) == project_members(
            symbols::project_views(methods@),
            prefix@,
            is_static,
        ),
{
    let ghost all = symbols::project_views(methods@);
    let ghost keep = |m: ProjectSymbolView| member_of_project(m, prefix@, is_static);
    let ghost to = |m: ProjectSymbolView| method_item(m);
    let wanted = text::chars_of(prefix);
    let mut out: Vec<CompletionItem> = Vec::new();
    let mut i: usize = 0;
    proof {
        text::lemma_filter_map_none(all, keep, to);
        assert(completion::item_views(out@) =~= Seq::<CompletionItemView>::empty());
    }
    while i < methods.len()
        invariant
            i <= methods@.len(),
            wanted@ == prefix@,
            all == symbols::project_views(methods@),
            keep == (|m: ProjectSymbolView| member_of_project(m, prefix@, is_static)),
            to == (|m: ProjectSymbolView| method_item(m)),
            completion::item_views(out@) == all.take(i as int).filter(keep).map_values(to),
        decreases methods@.len() - i,
    {
        proof {
            text::lemma_filter_map_step(all, keep, to, i as int);
        }
        let symbol = &methods[i];
        assert(all[i as int] == symbol@);
        if text::is_at(&text::chars_of(&symbol.name), &wanted, 0) && is_static
            == symbol.is_static() && (is_static || symbol.visibility != Visibility::Private) {
            let item = offer_method(symbol);
            let ghost held = completion::item_views(out@);
            out.push(item);
            assert(completion::item_views(out@) =~= held.push(item@));
        }
        i += 1;
    }
    assert(all.take(i as int) =~= all);
    out
}

/// The completions of the methods of a bound variable.
pub open spec fn bound_members(methods: Seq<ProjectSymbolView>) -> Seq<CompletionItemView> {
    text::first(methods.map_values(|m: ProjectSymbolView| method_item(m)), most())
}

fn offer_bound_members(methods: &Vec<ProjectSymbol>) -> (r: Vec<CompletionItem>)
    ensures
        completion::item_views(r@) == bound_members(symbols::project_views(methods@)),
{
    let ghost all = symbols::project_views(methods@).map_values(
        |m: ProjectSymbolView| method_item(m),
    );
    let mut out: Vec<CompletionItem> = Vec::new();
    let mut i: usize = 0;
    assert(completion::item_views(out@) =~= all.take(0));
    while i < methods.len() && i < 40
        invariant
            i <= methods@.len(),
            i <= 40,
            all == symbols::project_views(methods@).map_values(
                |m: ProjectSymbolView| method_item(m),
            ),
            completion::item_views(out@) == all.take(i as int),
        decreases methods@.len() - i,
    {
        let item = offer_method(&methods[i]);
        let ghost held = completion::item_views(out@);
        out.push(item);
        assert(completion::item_views(out@) =~= held.push(item@));
        assert(all.take(i + 1) =~= all.take(i as int).push(all[i as int]));
        i += 1;
    }
    assert(all.take(i as int) =~= text::first(all, most()));
    out
}

/// The completion of a member of a package's class.
pub open spec fn vendor_item(symbol: ProjectSymbolView) -> CompletionItemView {
    completion::plain_item(
        symbol.name,
        symbol.parameters,
        CompletionItemKind::Method,
        None,
        Seq::empty(),
    )
}

/// Whether a member of a package's class is offered behind a member access.
pub open spec fn member_of_vendor(m: ProjectSymbolView, prefix: Seq<char>, is_static: bool) -> bool {
    text::starts_with(m.name, prefix) && is_static == symbols::declared_static(m)
}

/// The completions of the members of a package's class.
pub open spec fn vendor_members(
    members: Seq<ProjectSymbolView>,
    prefix: Seq<char>,
    is_static: bool,
) -> Seq<CompletionItemView> {
    members.filter(|m: ProjectSymbolView| member_of_vendor(m, prefix, is_static)).map_values(
        |m: ProjectSymbolView| vendor_item(m),
    )
}

fn offer_vendor_members(members: &Vec<ProjectSymbol>, prefix: &str, is_static: bool) -> (r: Vec<
    CompletionItem,
>)
    ensures
        completion::item_views(r@) == vendor_members(
            symbols::project_views(members@),
            prefix@,
            is_static,
        ),
{
    let ghost all = symbols::project_views(members@);
    let ghost keep = |m: ProjectSymbolView| member_of_vendor(m, prefix@, is_static);
    let ghost to = |m: ProjectSymbolView| vendor_item(m);
    let wanted = text::chars_of(prefix);
    let mut out: Vec<CompletionItem> = Vec::new();
    let mut i: usize = 0;
    proof {
        text::lemma_filter_map_none(all, keep, to);
        assert(completion::item_views(out@) =~= Seq::<CompletionItemView>::empty());
    }
    while i < members.len()
        invariant
            i <= members@.len(),
            wanted@ == prefix@,
            all == symbols::project_views(members@),
            keep == (|m: ProjectSymbolView| member_of_vendor(m, prefix@, is_static)),
            to == (|m: ProjectSymbolView| vendor_item(m)),
            completion::item_views(out@) == all.take(i as int).filter(keep).map_values(to),
        decreases members@.len() - i,
    {
        proof {
            text::lemma_filter_map_step(all, keep, to, i as int);
        }
        let symbol = &members[i];
        assert(all[i as int] == symbol@);
        if text::is_at(&text::chars_of(&symbol.name), &wanted, 0) && is_static
            == symbol.is_static() {
            let item = simple_item(
                symbol.name.clone(),
                provider::clone_optional(&symbol.parameters),
                CompletionItemKind::Method,
                None,
                Vec::new(),
            );
            assert(item@ =~= vendor_item(symbol@));
            let ghost held = completion::item_views(out@);
            out.push(item);
            assert(completion::item_views(out@) =~= held.push(item@));
        }
        i += 1;
    }
    assert(all.take(i as int) =~= all);
    out
}

/// The completion of a method of the runtime.
pub open spec fn runtime_item(symbol: RuntimeSymbolView) -> CompletionItemView {
    completion::plain_item(
        symbol.name,
        Some(signature::runtime_detail(symbol)),
        CompletionItemKind::Method,
        signature::runtime_call(symbol),
        Seq::empty(),
    )
}

/// Whether a method of the runtime is offered behind a member access.
pub open spec fn member_of_runtime(m: RuntimeSymbolView, prefix: Seq<char>, is_static: bool) -> bool {
    text::starts_with(m.name, prefix) && m.is_static == is_static && (is_static
        || !text::starts_with(m.name, "_"@))
}

/// The completions of the methods of a runtime class.
pub open spec fn runtime_members(
    methods: Seq<RuntimeSymbolView>,
    prefix: Seq<char>,
    is_static: bool,
) -> Seq<CompletionItemView> {
    methods.filter(|m: RuntimeSymbolView| member_of_runtime(m, prefix, is_static)).map_values(
        |m: RuntimeSymbolView| runtime_item(m),
    )
}

fn offer_runtime_members(methods: &Vec<RuntimeSymbol>, prefix: &str, is_static: bool) -> (r: Vec<
    CompletionItem,
>)
    ensures
        completion::item_views(r@) == runtime_members(
            symbols::runtime_views(methods@),
            prefix@,
            is_static,
        ),
{
    let ghost all = symbols::runtime_views(methods@);
    let ghost keep = |m: RuntimeSymbolView| member_of_runtime(m, prefix@, is_static);
    let ghost to = |m: RuntimeSymbolView| runtime_item(m);
    let wanted = text::chars_of(prefix);
    let mut out: Vec<CompletionItem> = Vec::new();
    let mut i: usize = 0;
    proof {
        text::lemma_filter_map_none(all, keep, to);
        assert(completion::item_views(out@) =~= Seq::<CompletionItemView>::empty());
    }
    while i < methods.len()
        invariant
            i <= methods@.len(),
            wanted@ == prefix@,
            all == symbols::runtime_views(methods@),
            keep == (|m: RuntimeSymbolView| member_of_runtime(m, prefix@, is_static)),
            to == (|m: RuntimeSymbolView| runtime_item(m)),
            completion::item_views(out@) == all.take(i as int).filter(keep).map_values(to),
        decreases methods@.len() - i,
    {
        proof {
            text::lemma_filter_map_step(all, keep, to, i as int);
        }
        let symbol = &methods[i];
        assert(all[i as int] == symbol@);
        let name = text::chars_of(&symbol.name);
        if text::is_at(&name, &wanted, 0) && symbol.is_static == is_static && (is_static
            || !text::begins(&name, "_")) {
            let item = simple_item(
                symbol.name.clone(),
                Some(signature::runtime_signature_detail(symbol)),
                CompletionItemKind::Method,
                signature::runtime_call_insert_text(symbol),
                Vec::new(),
            );
            assert(item@ =~= runtime_item(symbol@));
            let ghost held = completion::item_views(out@);
            out.push(item);
            assert(completion::item_views(out@) =~= held.push(item@));
        }
        i += 1;
    }
    assert(all.take(i as int) =~= all);
    out
}

/// Keeps only the first of them all.
fn keep_first(items: &mut Vec<CompletionItem>)
    ensures
        completion::item_views(final(items)@) == text::first(
            completion::item_views(old(items)@),
            most(),
        ),
{
    if items.len() > 40 {
        let ghost held = completion::item_views(items@);
        items.truncate(40);
        assert(completion::item_views(items@) =~= held.take(40));
    }
}

fn append(items: &mut Vec<CompletionItem>, more: Vec<CompletionItem>)
    ensures
        completion::item_views(final(items)@) == completion::item_views(old(items)@)
            + completion::item_views(more@),
{
    let ghost held = completion::item_views(items@);
    let ghost added = completion::item_views(more@);
    let mut more = more;
    items.append(&mut more);
    assert(completion::item_views(items@) =~= held + added);
}

/// Whether a symbol of the runtime is a type.
pub open spec fn runtime_type(kind: RuntimeKind) -> bool {
    kind == RuntimeKind::Class || kind == RuntimeKind::Interface || kind == RuntimeKind::Trait
        || kind == RuntimeKind::Enum
}

/// Whether a symbol of the project is a type.
pub open spec fn project_type(kind: ProjectSymbolKind) -> bool {
    kind == ProjectSymbolKind::Class || kind == ProjectSymbolKind::Interface || kind
        == ProjectSymbolKind::Trait || kind == ProjectSymbolKind::Enum
}

/// How a kind of runtime symbol is written out.
pub open spec fn kind_name(kind: RuntimeKind) -> Seq<char> {
    match kind {
        RuntimeKind::Class => "Class"@,
        RuntimeKind::Interface => "Interface"@,
        RuntimeKind::Trait => "Trait"@,
        RuntimeKind::Enum => "Enum"@,
        RuntimeKind::Function => "Function"@,
        RuntimeKind::Method => "Method"@,
        RuntimeKind::Property => "Property"@,
        RuntimeKind::Constant => "Constant"@,
    }
}

fn name_kind(kind: RuntimeKind) -> (r: &'static str)
    ensures
        r@ == kind_name(kind),
{
    match kind {
        RuntimeKind::Class => "Class",
        RuntimeKind::Interface => "Interface",
        RuntimeKind::Trait => "Trait",
        RuntimeKind::Enum => "Enum",
        RuntimeKind::Function => "Function",
        RuntimeKind::Method => "Method",
        RuntimeKind::Property => "Property",
        RuntimeKind::Constant => "Constant",
    }
}

/// The edits that a completed type needs.
pub open spec fn type_edits(source: Seq<char>, fqn: Seq<char>, cursor: usize) -> Seq<TextEditView> {
    match imports::import_edit(source, fqn, cursor) {
        Some(edit) => seq![edit],
        None => Seq::empty(),
    }
}

fn find_type_edits(source: &str, fqn: &str, cursor: usize) -> (r: Vec<TextEdit>)
    requires
        php::boundary(source@, cursor as nat),
    ensures
        completion::edit_views(r@) == type_edits(source@, fqn@, cursor),
{
    let mut out: Vec<TextEdit> = Vec::new();
    match imports::composer_import_edit(source, fqn, cursor) {
        Some(edit) => {
            out.push(edit);
            assert(completion::edit_views(out@) =~= seq![edit@]);
        },
        None => {
            assert(completion::edit_views(out@) =~= Seq::<TextEditView>::empty());
        },
    }
    out
}

/// What a completed symbol of the runtime is.
pub open spec fn runtime_kind(kind: RuntimeKind) -> CompletionItemKind {
    match kind {
        RuntimeKind::Function => CompletionItemKind::Function,
        RuntimeKind::Class => CompletionItemKind::Class,
        RuntimeKind::Interface => CompletionItemKind::Interface,
        RuntimeKind::Trait => CompletionItemKind::Class,
        RuntimeKind::Enum => CompletionItemKind::Enum,
        _ => CompletionItemKind::Value,
    }
}

/// The completion of a symbol of the runtime by its name.
pub open spec fn runtime_type_item(
    source: Seq<char>,
    cursor: usize,
    symbol: RuntimeSymbolView,
) -> CompletionItemView {
    completion::plain_item(
        symbol.name,
        Some(
            if symbol.kind == RuntimeKind::Function || symbol.kind == RuntimeKind::Method {
                signature::runtime_detail(symbol)
            } else {
                kind_name(symbol.kind) + " • PHP Runtime"@
            },
        ),
        runtime_kind(symbol.kind),
        signature::runtime_call(symbol),
        if runtime_type(symbol.kind) {
            type_edits(source, symbol.fqn, cursor)
        } else {
            Seq::empty()
        },
    )
}

/// The completions of runtime symbols by their names.
pub open spec fn runtime_type_items(
    source: Seq<char>,
    cursor: usize,
    context: TypeCompletionContext,
    found: Seq<RuntimeSymbolView>,
) -> Seq<CompletionItemView> {
    text::first(
        found.filter(|m: RuntimeSymbolView| php::runtime_kind_allowed(context, m.kind)).map_values(
            |m: RuntimeSymbolView| runtime_type_item(source, cursor, m),
        ),
        most(),
    )
}

fn offer_runtime_type(source: &str, cursor: usize, symbol: &RuntimeSymbol) -> (r: CompletionItem)
    requires
        php::boundary(source@, cursor as nat),
    ensures
        r@ == runtime_type_item(source@, cursor, symbol@),
{
    let detail = if symbol.kind == RuntimeKind::Function || symbol.kind == RuntimeKind::Method {
        signature::runtime_signature_detail(symbol)
    } else {
        let mut shown = String::from_str(name_kind(symbol.kind));
        shown.append(" • PHP Runtime");
        shown
    };
    let kind = match symbol.kind {
        RuntimeKind::Function => CompletionItemKind::Function,
        RuntimeKind::Class => CompletionItemKind::Class,
        RuntimeKind::Interface => CompletionItemKind::Interface,
        RuntimeKind::Trait => CompletionItemKind::Class,
        RuntimeKind::Enum => CompletionItemKind::Enum,
        _ => CompletionItemKind::Value,
    };
    let edits: Vec<TextEdit> = match symbol.kind {
        RuntimeKind::Class | RuntimeKind::Interface | RuntimeKind::Trait | RuntimeKind::Enum =>
            find_type_edits(source, &symbol.fqn, cursor),
        _ => Vec::new(),
    };
    let item = simple_item(
        symbol.name.clone(),
        Some(detail),
        kind,
        signature::runtime_call_insert_text(symbol),
        edits,
    );
    assert(item@ =~= runtime_type_item(source@, cursor, symbol@));
    item
}

fn offer_runtime_types(source: &str, cursor: usize, context: TypeCompletionContext, found: &Vec<RuntimeSymbol>) -> (r: Vec<CompletionItem>)
    requires
        php::boundary(source@, cursor as nat),
    ensures
        completion::item_views(r@) == runtime_type_items(
            source@,
            cursor,
            context,
            symbols::runtime_views(found@),
        ),
{
    let ghost all = symbols::runtime_views(found@);
    let ghost keep = |m: RuntimeSymbolView| php::runtime_kind_allowed(context, m.kind);
    let ghost to = |m: RuntimeSymbolView| runtime_type_item(source@, cursor, m);
    let mut out: Vec<CompletionItem> = Vec::new();
    let mut i: usize = 0;
    proof {
        text::lemma_filter_map_none(all, keep, to);
        assert(completion::item_views(out@) =~= Seq::<CompletionItemView>::empty());
    }
    while i < found.len()
        invariant
            i <= found@.len(),
            php::boundary(source@, cursor as nat),
            all == symbols::runtime_views(found@),
            keep == (|m: RuntimeSymbolView| php::runtime_kind_allowed(context, m.kind)),
            to == (|m: RuntimeSymbolView| runtime_type_item(source@, cursor, m)),
            completion::item_views(out@) == all.take(i as int).filter(keep).map_values(to),
        decreases found@.len() - i,
    {
        proof {
            text::lemma_filter_map_step(all, keep, to, i as int);
        }
        let symbol = &found[i];
        assert(all[i as int] == symbol@);
        if php::runtime_type_kind_allowed(context, symbol.kind) {
            let item = offer_runtime_type(source, cursor, symbol);
            let ghost held = completion::item_views(out@);
            out.push(item);
            assert(completion::item_views(out@) =~= held.push(item@));
        }
        i += 1;
    }
    assert(all.take(i as int) =~= all);
    keep_first(&mut out);
    out
}

/// What a completed symbol of the project is.
pub open spec fn project_kind(kind: ProjectSymbolKind) -> CompletionItemKind {
    match kind {
        ProjectSymbolKind::Function => CompletionItemKind::Function,
        ProjectSymbolKind::Method => CompletionItemKind::Method,
        ProjectSymbolKind::Class => CompletionItemKind::Class,
        ProjectSymbolKind::Interface => CompletionItemKind::Interface,
        ProjectSymbolKind::Trait => CompletionItemKind::Class,
        ProjectSymbolKind::Enum => CompletionItemKind::Enum,
        _ => CompletionItemKind::Value,
    }
}

/// The completion of a symbol of the project by its name. Outside of every namespace a type is
/// inserted by its full name.
pub open spec fn project_type_item(
    source: Seq<char>,
    cursor: usize,
    symbol: ProjectSymbolView,
) -> CompletionItemView {
    completion::plain_item(
        symbol.name,
        Some(symbol.fully_qualified_name + " • Project"@),
        project_kind(symbol.kind),
        if php::namespace_in(text::lines(source), 0).len() == 0 && project_type(symbol.kind) {
            Some("\\"@ + symbol.fully_qualified_name)
        } else {
            None
        },
        if project_type(symbol.kind) {
            type_edits(source, symbol.fully_qualified_name, cursor)
        } else {
            Seq::empty()
        },
    )
}

/// The completions of symbols of the project by their names.
pub open spec fn project_type_items(
    source: Seq<char>,
    cursor: usize,
    context: TypeCompletionContext,
    found: Seq<ProjectSymbolView>,
) -> Seq<CompletionItemView> {
    found.filter(|m: ProjectSymbolView| php::project_kind_allowed(context, m.kind)).map_values(
        |m: ProjectSymbolView| project_type_item(source, cursor, m),
    )
}

fn offer_project_type(source: &str, cursor: usize, global: bool, symbol: &ProjectSymbol) -> (r:
    CompletionItem)
    requires
        php::boundary(source@, cursor as nat),
        global == (php::namespace_in(text::lines(source@), 0).len() == 0),
    ensures
        r@ == project_type_item(source@, cursor, symbol@),
{
    let mut detail = symbol.fully_qualified_name.clone();
    detail.append(" • Project");
    let kind = match symbol.kind {
        ProjectSymbolKind::Function => CompletionItemKind::Function,
        ProjectSymbolKind::Method => CompletionItemKind::Method,
        ProjectSymbolKind::Class => CompletionItemKind::Class,
        ProjectSymbolKind::Interface => CompletionItemKind::Interface,
        ProjectSymbolKind::Trait => CompletionItemKind::Class,
        ProjectSymbolKind::Enum => CompletionItemKind::Enum,
        _ => CompletionItemKind::Value,
    };
    let is_type = match symbol.kind {
        ProjectSymbolKind::Class
        | ProjectSymbolKind::Interface
        | ProjectSymbolKind::Trait
        | ProjectSymbolKind::Enum => true,
        _ => false,
    };
    let insert: Option<String> = if global && is_type {
        let mut rooted = String::from_str("\\");
        rooted.append(&symbol.fully_qualified_name);
        Some(rooted)
    } else {
        None
    };
    let edits: Vec<TextEdit> = if is_type {
        find_type_edits(source, &symbol.fully_qualified_name, cursor)
    } else {
        Vec::new()
    };
    let item = simple_item(symbol.name.clone(), Some(detail), kind, insert, edits);
    assert(item@ =~= project_type_item(source@, cursor, symbol@));
    item
}

fn offer_project_types(source: &str, cursor: usize, context: TypeCompletionContext, found: &Vec<ProjectSymbol>) -> (r: Vec<CompletionItem>)
    requires
        php::boundary(source@, cursor as nat),
    ensures
        completion::item_views(r@) == project_type_items(
            source@,
            cursor,
            context,
            symbols::project_views(found@),
        ),
{
    let ghost all = symbols::project_views(found@);
    let ghost keep = |m: ProjectSymbolView| php::project_kind_allowed(context, m.kind);
    let ghost to = |m: ProjectSymbolView| project_type_item(source@, cursor, m);
    let global = text::chars_of(&php::current_namespace(source)).len() == 0;
    let mut out: Vec<CompletionItem> = Vec::new();
    let mut i: usize = 0;
    proof {
        text::lemma_filter_map_none(all, keep, to);
        assert(completion::item_views(out@) =~= Seq::<CompletionItemView>::empty());
    }
    while i < found.len()
        invariant
            i <= found@.len(),
            php::boundary(source@, cursor as nat),
            global == (php::namespace_in(text::lines(source@), 0).len() == 0),
            all == symbols::project_views(found@),
            keep == (|m: ProjectSymbolView| php::project_kind_allowed(context, m.kind)),
            to == (|m: ProjectSymbolView| project_type_item(source@, cursor, m)),
            completion::item_views(out@) == all.take(i as int).filter(keep).map_values(to),
        decreases found@.len() - i,
    {
        proof {
            text::lemma_filter_map_step(all, keep, to, i as int);
        }
        let symbol = &found[i];
        assert(all[i as int] == symbol@);
        if php::type_kind_allowed(context, symbol.kind) {
            let item = offer_project_type(source, cursor, global, symbol);
            let ghost held = completion::item_views(out@);
            out.push(item);
            assert(completion::item_views(out@) =~= held.push(item@));
        }
        i += 1;
    }
    assert(all.take(i as int) =~= all);
    out
}

/// What a completed type of a package is.
pub open spec fn vendor_kind(kind: ProjectSymbolKind) -> CompletionItemKind {
    match kind {
        ProjectSymbolKind::Interface => CompletionItemKind::Interface,
        ProjectSymbolKind::Enum => CompletionItemKind::Enum,
        _ => CompletionItemKind::Class,
    }
}

/// What a completed type of a package is.
pub fn vendor_completion_kind(kind: ProjectSymbolKind) -> (r: CompletionItemKind)
    ensures
        r == vendor_kind(kind),
{
    match kind {
        ProjectSymbolKind::Interface => CompletionItemKind::Interface,
        ProjectSymbolKind::Enum => CompletionItemKind::Enum,
        _ => CompletionItemKind::Class,
    }
}

/// Whether a type of a package is offered in a context.
pub fn vendor_type_kind_allowed(context: TypeCompletionContext, kind: ProjectSymbolKind) -> (r:
    bool)
    ensures
        r == php::project_kind_allowed(context, kind),
{
    php::type_kind_allowed(context, kind)
}

/// The completion of a type of a package.
pub open spec fn vendor_type_item(
    source: Seq<char>,
    cursor: usize,
    found: VendorTypeView,
) -> CompletionItemView {
    completion::plain_item(
        found.short_name,
        Some(found.fqn + " - Vendor"@),
        vendor_kind(found.kind),
        None,
        type_edits(source, found.fqn, cursor),
    )
}

/// The completions of types of packages.
pub open spec fn vendor_type_items(
    source: Seq<char>,
    cursor: usize,
    context: TypeCompletionContext,
    found: Seq<VendorTypeView>,
) -> Seq<CompletionItemView> {
    found.filter(|m: VendorTypeView| php::project_kind_allowed(context, m.kind)).map_values(
        |m: VendorTypeView| vendor_type_item(source, cursor, m),
    )
}

fn offer_vendor_types(source: &str, cursor: usize, context: TypeCompletionContext, found: &Vec<VendorType>) -> (r: Vec<CompletionItem>)
    requires
        php::boundary(source@, cursor as nat),
    ensures
        completion::item_views(r@) == vendor_type_items(
            source@,
            cursor,
            context,
            symbols::vendor_views(found@),
        ),
{
    let ghost all = symbols::vendor_views(found@);
    let ghost keep = |m: VendorTypeView| php::project_kind_allowed(context, m.kind);
    let ghost to = |m: VendorTypeView| vendor_type_item(source@, cursor, m);
    let mut out: Vec<CompletionItem> = Vec::new();
    let mut i: usize = 0;
    proof {
        text::lemma_filter_map_none(all, keep, to);
        assert(completion::item_views(out@) =~= Seq::<CompletionItemView>::empty());
    }
    while i < found.len()
        invariant
            i <= found@.len(),
            php::boundary(source@, cursor as nat),
            all == symbols::vendor_views(found@),
            keep == (|m: VendorTypeView| php::project_kind_allowed(context, m.kind)),
            to == (|m: VendorTypeView| vendor_type_item(source@, cursor, m)),
            completion::item_views(out@) == all.take(i as int).filter(keep).map_values(to),
        decreases found@.len() - i,
    {
        proof {
            text::lemma_filter_map_step(all, keep, to, i as int);
        }
        let symbol = &found[i];
        assert(all[i as int] == symbol@);
        if vendor_type_kind_allowed(context, symbol.kind) {
            let mut detail = symbol.fqn.clone();
            detail.append(" - Vendor");
            let item = simple_item(
                symbol.short_name.clone(),
                Some(detail),
                vendor_completion_kind(symbol.kind),
                None,
                find_type_edits(source, &symbol.fqn, cursor),
            );
            assert(item@ =~= vendor_type_item(source@, cursor, symbol@));
            let ghost held = completion::item_views(out@);
            out.push(item);
            assert(completion::item_views(out@) =~= held.push(item@));
        }
        i += 1;
    }
    assert(all.take(i as int) =~= all);
    out
}

/// The completion of a class of a package.
pub open spec fn vendor_class_item(
    source: Seq<char>,
    cursor: usize,
    fqn: Seq<char>,
) -> CompletionItemView {
    completion::plain_item(
        text::after_last(fqn, '\\'),
        Some(fqn + " • Vendor"@),
        CompletionItemKind::Class,
        None,
        type_edits(source, fqn, cursor),
    )
}

/// The completions of classes of packages.
pub open spec fn vendor_class_items(
    source: Seq<char>,
    cursor: usize,
    found: Seq<Seq<char>>,
) -> Seq<CompletionItemView> {
    found.map_values(|fqn: Seq<char>| vendor_class_item(source, cursor, fqn))
}

fn offer_vendor_classes(source: &str, cursor: usize, found: &Vec<String>) -> (r: Vec<
    CompletionItem,
>)
    requires
        php::boundary(source@, cursor as nat),
    ensures
        completion::item_views(r@) == vendor_class_items(source@, cursor, text::texts(found@)),
{
    let mut out: Vec<CompletionItem> = Vec::new();
    let mut i: usize = 0;
    while i < found.len()
        invariant
            i <= found@.len(),
            php::boundary(source@, cursor as nat),
            out@.len() == i,
            forall|k: int|
                0 <= k < i ==> (#[trigger] out@[k])@ == vendor_class_item(
                    source@,
                    cursor,
                    found@[k]@,
                ),
        decreases found@.len() - i,
    {
        let fqn = text::chars_of(&found[i]);
        let mut detail = found[i].clone();
        detail.append(" • Vendor");
        let item = simple_item(
            text::to_string(text::behind_last(&fqn, '\\')),
            Some(detail),
            CompletionItemKind::Class,
            None,
            find_type_edits(source, &found[i], cursor),
        );
        assert(item@ =~= vendor_class_item(source@, cursor, found@[i as int]@));
        out.push(item);
        i += 1;
    }
    assert(completion::item_views(out@) =~= vendor_class_items(
        source@,
        cursor,
        text::texts(found@),
    ));
    out
}

/// Whether a character may stand in what is being completed.
pub open spec fn completed_char(c: char) -> bool {
    php::identifier_char(c) || c == '$'
}

/// Where what is being completed up to an index begins.
pub open spec fn prefix_start(s: Seq<char>, end: int) -> int
    decreases end,
{
    if 0 < end <= s.len() && completed_char(s[end - 1]) {
        prefix_start(s, end - 1)
    } else {
        end
    }
}

/// The last angle bracket or colon before an index.
pub open spec fn operator_before(s: Seq<char>, end: int) -> Option<int>
    decreases end,
{
    if end <= 0 || end > s.len() {
        None
    } else if s[end - 1] == '>' || s[end - 1] == ':' {
        Some(end - 1)
    } else {
        operator_before(s, end - 1)
    }
}

/// Whether every character may stand in an identifier.
pub open spec fn all_identifier(s: Seq<char>) -> bool {
    forall|i: int| 0 <= i < s.len() ==> php::identifier_char(#[trigger] s[i])
}

/// The member access at the end of a text: where its operator begins, and whether it is static.
/// Only an identifier, or nothing, may stand behind the operator.
pub open spec fn member_access(before: Seq<char>) -> Option<(int, bool)> {
    match operator_before(before, before.len() as int) {
        Some(at) => if at > 0 && all_identifier(before.skip(at + 1)) {
            if before[at] == '>' && before[at - 1] == '-' {
                Some((at - 1, false))
            } else if before[at] == ':' && before[at - 1] == ':' {
                Some((at - 1, true))
            } else {
                None
            }
        } else {
            None
        },
        None => None,
    }
}

fn find_member_access(before: &[char]) -> (r: Option<(usize, bool)>)
    ensures
        match r {
            Some((at, is_static)) => member_access(before@) == Some((at as int, is_static)) && at
                < before@.len(),
            None => member_access(before@) is None,
        },
{
    let n: usize = before.len();
    let mut end: usize = n;
    while end > 0 && before[end - 1] != '>' && before[end - 1] != ':'
        invariant
            end <= n == before@.len(),
            operator_before(before@, n as int) == operator_before(before@, end as int),
        decreases end,
    {
        end -= 1;
    }
    if end < 2 {
        return None;
    }
    let mut i: usize = end;
    let ghost rest = before@.skip(end as int);
    while i < n
        invariant
            end <= i <= n == before@.len(),
            rest == before@.skip(end as int),
            2 <= end,
            operator_before(before@, n as int) == Some(end - 1),
            forall|k: int| 0 <= k < i - end ==> php::identifier_char(#[trigger] rest[k]),
        decreases n - i,
    {
        assert(rest[i - end] == before@[i as int]);
        if !php::is_name_char(before[i], false) {
            return None;
        }
        i += 1;
    }
    assert(all_identifier(rest));
    if before[end - 1] == '>' && before[end - 2] == '-' {
        Some((end - 2, false))
    } else if before[end - 1] == ':' && before[end - 2] == ':' {
        Some((end - 2, true))
    } else {
        None
    }
}

/// Whether a text ends with the keyword that makes an object.
pub open spec fn behind_new(head: Seq<char>) -> bool {
    text::ends_with(text::trim_end(head), "new"@)
}

/// Whether a text ends with a keyword that a type is completed behind even without a prefix.
pub open spec fn behind_keyword(before: Seq<char>) -> bool {
    text::ends_with(before, "new "@) || text::ends_with(before, "extends "@) || text::ends_with(
        before,
        "implements "@,
    ) || text::ends_with(before, "use "@)
}

/// The completion of the name of a class.
pub open spec fn class_keyword(insert_text: Seq<char>) -> CompletionItemView {
    completion::plain_item(
        "class"@,
        Some("Class name • Runtime"@),
        CompletionItemKind::Keyword,
        Some(insert_text),
        Seq::empty(),
    )
}

fn offer_class_keyword(insert_text: String) -> (r: CompletionItem)
    ensures
        r@ == class_keyword(insert_text@),
{
    let item = simple_item(
        String::from_str("class"),
        Some(String::from_str("Class name • Runtime")),
        CompletionItemKind::Keyword,
        Some(insert_text),
        Vec::new(),
    );
    assert(item@ =~= class_keyword(insert_text@));
    item
}

/// The runtime class that stands for a class: the one of its name, else the one that is called as
/// it is written, else the class itself.
pub open spec fn runtime_class_for<S: SymbolIndex>(
    index: &S,
    class: Seq<char>,
    written: Seq<char>,
) -> Seq<char> {
    match index.runtime_class_of(class) {
        Some(fqn) => fqn,
        None => match index.runtime_class_called(written) {
            Some(fqn) => fqn,
            None => class,
        },
    }
}

/// The runtime class that stands for a class.
pub fn find_runtime_class<S: SymbolIndex>(index: &S, class: &str, written: &str) -> (r: String)
    ensures
        r@ == runtime_class_for(index, class@, written@),
{
    match index.runtime_class(class) {
        Some(fqn) => fqn,
        None => match index.runtime_class_by_short_name(written) {
            Some(fqn) => fqn,
            None => String::from_str(class),
        },
    }
}

/// The completions of the static methods of a class behind its name.
pub open spec fn static_methods<S: SymbolIndex>(
    index: &S,
    prefix: Seq<char>,
    class: Option<Seq<char>>,
) -> Seq<CompletionItemView> {
    match class {
        Some(class) => static_runtime_items(
            prefix,
            index.runtime_methods_of(runtime_class_for(index, class, prefix)),
        ) + static_project_items(prefix, index.project_methods_of(class)),
        None => Seq::empty(),
    }
}

/// The completions of a class name by itself: its static methods, else its name.
pub open spec fn static_items<S: SymbolIndex>(
    index: &S,
    prefix: Seq<char>,
    class: Option<Seq<char>>,
) -> Seq<CompletionItemView> {
    let methods = static_methods(index, prefix, class);
    if methods.len() == 0 {
        seq![class_keyword(prefix + "::class"@)]
    } else {
        text::first(methods, most())
    }
}

fn offer_static<S: SymbolIndex>(index: &S, prefix: &str, class: Option<String>) -> (r: Vec<
    CompletionItem,
>)
    ensures
        completion::item_views(r@) == static_items(
            index,
            prefix@,
            provider::optional_text(class),
        ),
{
    let mut items: Vec<CompletionItem> = Vec::new();
    match &class {
        Some(class) => {
            let runtime_class = find_runtime_class(index, class, prefix);
            items = offer_static_runtime(prefix, &index.runtime_methods(&runtime_class));
            append(&mut items, offer_static_project(prefix, &index.project_methods(class)));
        },
        None => {
            assert(completion::item_views(items@) =~= Seq::<CompletionItemView>::empty());
        },
    }
    assert(completion::item_views(items@).len() == items@.len());
    if items.len() == 0 {
        let mut insert = String::from_str(prefix);
        insert.append("::class");
        let item = offer_class_keyword(insert);
        items.push(item);
        assert(completion::item_views(items@) =~= seq![item@]);
    } else {
        keep_first(&mut items);
    }
    items
}

/// The completions of the members of a class: of the project, its packages and the runtime.
pub open spec fn class_members<S: SymbolIndex>(
    index: &S,
    class: Seq<char>,
    owner: Seq<char>,
    prefix: Seq<char>,
    is_static: bool,
) -> Seq<CompletionItemView> {
    project_members(index.project_methods_of(class), prefix, is_static) + vendor_members(
        index.vendor_members_of(class),
        prefix,
        is_static,
    ) + runtime_members(
        index.runtime_methods_of(runtime_class_for(index, class, owner)),
        prefix,
        is_static,
    )
}

/// The completions behind a member access; the name of the class where a static access has no other
/// and nothing is written yet.
pub open spec fn member_items<S: SymbolIndex>(
    index: &S,
    class: Seq<char>,
    owner: Seq<char>,
    prefix: Seq<char>,
    is_static: bool,
) -> Seq<CompletionItemView> {
    let members = class_members(index, class, owner, prefix, is_static);
    text::first(
        completion::distinct(
            if is_static && members.len() == 0 && prefix.len() == 0 {
                seq![class_keyword("class"@)]
            } else {
                members
            },
            false,
        ),
        most(),
    )
}

fn offer_members<S: SymbolIndex>(
    index: &S,
    class: &str,
    owner: &str,
    prefix: &str,
    is_static: bool,
) -> (r: Vec<CompletionItem>)
    ensures
        completion::item_views(r@) == member_items(index, class@, owner@, prefix@, is_static),
{
    let mut items = offer_project_members(&index.project_methods(class), prefix, is_static);
    append(&mut items, offer_vendor_members(&index.vendor_members(class), prefix, is_static));
    let runtime_class = find_runtime_class(index, class, owner);
    append(
        &mut items,
        offer_runtime_members(&index.runtime_methods(&runtime_class), prefix, is_static),
    );
    assert(completion::item_views(items@).len() == items@.len());
    if is_static && items.len() == 0 && text::chars_of(prefix).len() == 0 {
        let item = offer_class_keyword(String::from_str("class"));
        items.push(item);
        assert(completion::item_views(items@) =~= seq![item@]);
    }
    let mut items = completion::keep_distinct(items, false);
    keep_first(&mut items);
    items
}

/// The completions of names: of the runtime, the project and its packages. Where a class or an
/// interface is called for, the packages' types are looked through, else their classes.
pub open spec fn named_items<S: SymbolIndex>(
    index: &S,
    source: Seq<char>,
    cursor: usize,
    prefix: Seq<char>,
    context: TypeCompletionContext,
) -> Seq<CompletionItemView> {
    runtime_type_items(source, cursor, context, index.runtime_found(prefix)) + project_type_items(
        source,
        cursor,
        context,
        index.project_found(prefix),
    ) + match context {
        TypeCompletionContext::ClassExtends
        | TypeCompletionContext::ClassImplements
        | TypeCompletionContext::InterfaceExtends => vendor_type_items(
            source,
            cursor,
            context,
            index.vendor_types_found(prefix),
        ),
        _ => vendor_class_items(source, cursor, index.vendor_classes_found(prefix)),
    }
}

/// The completions of a name, ranked behind `new`, none twice.
pub open spec fn type_items<S: SymbolIndex>(
    index: &S,
    source: Seq<char>,
    cursor: usize,
    prefix: Seq<char>,
    context: TypeCompletionContext,
    preceded_by_new: bool,
) -> Seq<CompletionItemView> {
    let items = named_items(index, source, cursor, prefix, context);
    text::first(
        completion::distinct(
            if preceded_by_new {
                completion::ranked(items, prefix)
            } else {
                items
            },
            true,
        ),
        most(),
    )
}

fn offer_types<S: SymbolIndex>(
    index: &S,
    source: &str,
    cursor: usize,
    prefix: &str,
    context: TypeCompletionContext,
    preceded_by_new: bool,
) -> (r: Vec<CompletionItem>)
    requires
        php::boundary(source@, cursor as nat),
    ensures
        completion::item_views(r@) == type_items(
            index,
            source@,
            cursor,
            prefix@,
            context,
            preceded_by_new,
        ),
{
    let mut items = offer_runtime_types(source, cursor, context, &index.runtime_matches(prefix));
    append(
        &mut items,
        offer_project_types(source, cursor, context, &index.project_matches(prefix)),
    );
    match context {
        TypeCompletionContext::ClassExtends
        | TypeCompletionContext::ClassImplements
        | TypeCompletionContext::InterfaceExtends => {
            append(
                &mut items,
                offer_vendor_types(source, cursor, context, &index.vendor_types(prefix)),
            );
        },
        _ => {
            append(
                &mut items,
                offer_vendor_classes(source, cursor, &index.vendor_classes(prefix)),
            );
        },
    }
    if preceded_by_new {
        completion::rank_new_completion_items(&mut items, prefix);
    }
    let mut items = completion::keep_distinct(items, true);
    keep_first(&mut items);
    items
}

/// The completions that are offered, and the byte range of the prefix behind `new` that they were
/// ranked for.
#[derive(Debug, PartialEq, Eq)]
pub struct NativeCompletionBatch {
    pub items: Vec<CompletionItem>,
    pub new_prefix: Option<Range<usize>>,
}

/// What a batch of completions holds.
#[verifier::ext_equal]
pub struct NativeCompletionBatchView {
    pub items: Seq<CompletionItemView>,
    pub new_prefix: Option<(usize, usize)>,
}

impl View for NativeCompletionBatch {
    type V = NativeCompletionBatchView;

    open spec fn view(&self) -> NativeCompletionBatchView {
        NativeCompletionBatchView {
            items: completion::item_views(self.items@),
            new_prefix: match self.new_prefix {
                Some(range) => Some((range.start, range.end)),
                None => None,
            },
        }
    }
}

/// Some completions that were not ranked.
pub open spec fn unranked(items: Seq<CompletionItemView>) -> NativeCompletionBatchView {
    NativeCompletionBatchView { items, new_prefix: None }
}

/// A byte offset within a text.
pub open spec fn clamped(source: Seq<char>, offset: usize) -> usize {
    if offset <= text::utf8_len(source) {
        offset
    } else {
        text::utf8_len(source) as usize
    }
}

/// Whether a class of the name that is written is known.
pub open spec fn class_written<S: SymbolIndex>(index: &S, prefix: Seq<char>) -> bool {
    index.runtime_class_of(prefix) is Some || index.runtime_class_called(prefix) is Some
        || index.project_class_of(prefix) is Some
}

/// The completions at a cursor. Behind a dollar sign stand variables; a class name by itself stands
/// for its static methods; behind a member access stand the members of a bound variable or of the
/// class that the expression is of; anything else is completed as a name.
pub open spec fn native_batch<S: SymbolIndex>(
    index: &S,
    source: Seq<char>,
    cursor: usize,
) -> NativeCompletionBatchView {
    let end = text::fitting(source, cursor as int) as int;
    let before = source.take(end);
    let start = prefix_start(before, end);
    let prefix = before.skip(start);
    let head = before.take(start);
    let new = behind_new(head);
    let access = member_access(before);
    let named = NativeCompletionBatchView {
        items: type_items(index, source, cursor, prefix, php::type_context(head, new), new),
        new_prefix: if new {
            Some((text::utf8_len(head) as usize, clamped(source, cursor)))
        } else {
            None
        },
    };
    if text::starts_with(prefix, "$"@) {
        if text::ends_with(head, "::"@) || text::ends_with(head, "->"@) {
            unranked(Seq::empty())
        } else {
            unranked(local_items(index, before, prefix))
        }
    } else if prefix.len() == 0 && access is None && !behind_keyword(before) {
        unranked(Seq::empty())
    } else if access is None && prefix.len() > 0 && !behind_keyword(before) && !new
        && class_written(index, prefix) {
        unranked(
            static_items(index, prefix, receiver::native_type(index, prefix, before, source)),
        )
    } else {
        match access {
            Some((at, is_static)) => {
                let expression = text::trim(source.subrange(php::owner_start(source, at), at));
                let bound = index.bound_methods(clamped(source, cursor), expression, prefix);
                if !is_static && bound is Some {
                    unranked(bound_members(bound->0))
                } else {
                    match receiver::receiver_type(index, expression, source.take(at), source) {
                        Some(class) => unranked(
                            member_items(
                                index,
                                class,
                                text::strip_start(expression, '$'),
                                prefix,
                                is_static,
                            ),
                        ),
                        None => named,
                    }
                }
            },
            None => named,
        }
    }
}

/// The completions at a cursor.
#[verifier::rlimit(30)]
pub fn native_completions_impl<S: SymbolIndex>(index: &S, source: &str, cursor: usize) -> (r:
    NativeCompletionBatch)
    requires
        php::boundary(source@, cursor as nat),
    ensures
        r@ == native_batch(index, source@, cursor),
{
    let chars = text::chars_of(source);
    let size: usize = text::byte_len(source);
    let at_cursor: usize = if cursor <= size {
        cursor
    } else {
        size
    };
    let (end, _) = text::fit(&chars, cursor);
    let before = slice_subrange(&chars, 0, end);
    assert(before@ =~= source@.take(end as int));
    let before_text = text::to_string(before);
    let mut start: usize = end;
    while start > 0 && (php::is_name_char(before[start - 1], false) || before[start - 1] == '$')
        invariant
            start <= end == before@.len(),
            prefix_start(before@, end as int) == prefix_start(before@, start as int),
        decreases start,
    {
        start -= 1;
    }
    let prefix = slice_subrange(before, start, end);
    let head = slice_subrange(before, 0, start);
    proof {
        assert(prefix@ =~= before@.skip(start as int));
        assert(head@ =~= before@.take(start as int));
        assert(head@ =~= source@.take(start as int));
        text::lemma_char_boundary(before@, start as int);
    }
    let prefix_text = text::to_string(prefix);
    let start_offset: usize = text::offset_of(&chars, start);
    let new = text::ends(text::trimmed_end(head), "new");
    let context = php::type_completion_context(&before_text, start_offset, new);
    if text::begins(prefix, "$") {
        let items: Vec<CompletionItem> = if text::ends(head, "::") || text::ends(head, "->") {
            Vec::new()
        } else {
            local_variable_completions(index, &before_text, &prefix_text)
        };
        let r = NativeCompletionBatch { items, new_prefix: None };
        assert(r@ =~= native_batch(index, source@, cursor));
        return r;
    }
    let access = find_member_access(before);
    let keyword = text::ends(before, "new ") || text::ends(before, "extends ") || text::ends(
        before,
        "implements ",
    ) || text::ends(before, "use ");
    if prefix.len() == 0 && access.is_none() && !keyword {
        let r = NativeCompletionBatch { items: Vec::new(), new_prefix: None };
        assert(r@ =~= native_batch(index, source@, cursor));
        return r;
    }
    if access.is_none() && prefix.len() > 0 && !keyword && !new && (index.runtime_class(
        &prefix_text,
    ).is_some() || index.runtime_class_by_short_name(&prefix_text).is_some()
        || index.project_class(&prefix_text).is_some()) {
        let class = receiver::resolve_native_type(index, &prefix_text, &before_text, source);
        let r = NativeCompletionBatch {
            items: offer_static(index, &prefix_text, class),
            new_prefix: None,
        };
        assert(r@ =~= native_batch(index, source@, cursor));
        return r;
    }
    if let Some((at, is_static)) = access {
        proof {
            text::lemma_char_boundary(source@, at as int);
        }
        let at_offset: usize = text::offset_of(&chars, at);
        let (_, expression) = php::extract_owner_expression(source, at_offset);
        if !is_static {
            if let Some(methods) = index.binding_methods(at_cursor, &expression, &prefix_text) {
                let r = NativeCompletionBatch {
                    items: offer_bound_members(&methods),
                    new_prefix: None,
                };
                assert(r@ =~= native_batch(index, source@, cursor));
                return r;
            }
        }
        let context_text = text::string_of(&chars, 0, at);
        assert(context_text@ =~= source@.take(at as int));
        if let Some(class) = receiver::resolve_receiver_type(
            index,
            &expression,
            &context_text,
            source,
        ) {
            let expression_chars = text::chars_of(&expression);
            let owner = text::to_string(text::stripped_start(&expression_chars, '$'));
            let r = NativeCompletionBatch {
                items: offer_members(index, &class, &owner, &prefix_text, is_static),
                new_prefix: None,
            };
            assert(r@ =~= native_batch(index, source@, cursor));
            return r;
        }
    }
    let items = offer_types(index, source, cursor, &prefix_text, context, new);
    let new_prefix: Option<Range<usize>> = if new {
        Some(Range { start: start_offset, end: at_cursor })
    } else {
        None
    };
    let r = NativeCompletionBatch { items, new_prefix };
    assert(r@ =~= native_batch(index, source@, cursor));
    r
}

/// No more completions are offered than fit.
pub proof fn law_offers_are_bounded<S: SymbolIndex>(index: &S, source: Seq<char>, cursor: usize)
    ensures
        native_batch(index, source, cursor).items.len() <= most(),
{
    let end = text::fitting(source, cursor as int) as int;
    let before = source.take(end);
    let prefix = before.skip(prefix_start(before, end));
    let size = text::utf8_len(before);
    let at = if size > 0 {
        (size - 1) as usize
    } else {
        0
    };
    let limit = if size >= text::utf8_len(prefix) {
        size - text::utf8_len(prefix)
    } else {
        0
    };
    match index.bound_in(at) {
        Some(bindings) => {
            lemma_names_bounded(bindings, limit, prefix);
        },
        None => {},
    }
}

proof fn lemma_name_order(a: Seq<char>, b: Seq<char>)
    ensures
        !(name_before(a, b) && name_before(b, a)),
        a != b ==> name_before(a, b) || name_before(b, a),
        a == b ==> !name_before(a, b),
{
    text::lemma_lexical(a, b);
}

proof fn lemma_name_chain(a: Seq<char>, b: Seq<char>, c: Seq<char>)
    requires
        name_before(a, b),
        name_before(b, c),
    ensures
        name_before(a, c),
{
    if text::utf8_len(a) == text::utf8_len(b) && text::utf8_len(b) == text::utf8_len(c) {
        text::lemma_lexical_chain(a, b, c);
    }
}

/// Whether each name comes before all those behind it.
pub open spec fn names_ordered(names: Seq<Seq<char>>) -> bool {
    forall|i: int, j: int|
        0 <= i < j < names.len() ==> name_before(#[trigger] names[i], #[trigger] names[j])
}

proof fn lemma_name_position(names: Seq<Seq<char>>, name: Seq<char>)
    requires
        names_ordered(names),
        !names.contains(name),
    ensures
        name_position(names, name) <= names.len(),
        forall|i: int|
            0 <= i < name_position(names, name) ==> name_before(#[trigger] names[i], name),
        forall|i: int|
            name_position(names, name) <= i < names.len() ==> name_before(
                name,
                #[trigger] names[i],
            ),
    decreases names.len(),
{
    if names.len() > 0 {
        assert(names[0] != name);
        lemma_name_order(names[0], name);
        let rest = names.skip(1);
        if name_before(names[0], name) {
            assert forall|i: int, j: int| 0 <= i < j < rest.len() implies name_before(
                #[trigger] rest[i],
                #[trigger] rest[j],
            ) by {
                assert(name_before(names[i + 1], names[j + 1]));
            }
            assert(!rest.contains(name)) by {
                if rest.contains(name) {
                    let k = choose|k: int| 0 <= k < rest.len() && rest[k] == name;
                    assert(names[k + 1] == name);
                }
            }
            lemma_name_position(rest, name);
            assert forall|i: int| 0 <= i < name_position(names, name) implies name_before(
                #[trigger] names[i],
                name,
            ) by {
                if i > 0 {
                    assert(names[i] == rest[i - 1]);
                }
            }
            assert forall|i: int|
                name_position(names, name) <= i < names.len() implies name_before(
                name,
                #[trigger] names[i],
            ) by {
                assert(names[i] == rest[i - 1]);
            }
        } else {
            assert forall|i: int| 0 <= i < names.len() implies name_before(
                name,
                #[trigger] names[i],
            ) by {
                if i > 0 {
                    assert(name_before(names[0], names[i]));
                    lemma_name_chain(name, names[0], names[i]);
                }
            }
        }
    }
}

/// Whether a name is among those that are kept, or comes behind as many as are kept at most.
pub open spec fn settled(names: Seq<Seq<char>>, name: Seq<char>) -> bool {
    names.contains(name) || (names.len() == most() && forall|i: int|
        0 <= i < names.len() ==> name_before(#[trigger] names[i], name))
}

proof fn lemma_with_name(names: Seq<Seq<char>>, name: Seq<char>, other: Seq<char>)
    requires
        names_ordered(names),
        names.len() <= most(),
    ensures
        names_ordered(with_name(names, name)),
        settled(with_name(names, name), name),
        settled(names, other) ==> settled(with_name(names, name), other),
{
    if !names.contains(name) {
        lemma_name_position(names, name);
        let at = name_position(names, name) as int;
        if at < most() {
            let longer = names.insert(at, name);
            let new = with_name(names, name);
            assert forall|i: int| 0 <= i < longer.len() implies #[trigger] longer[i] == (if i < at {
                names[i]
            } else if i == at {
                name
            } else {
                names[i - 1]
            }) by {}
            assert(names_ordered(longer));
            assert(forall|i: int| 0 <= i < new.len() ==> #[trigger] new[i] == longer[i]);
            assert(new[at] == name);
            if settled(names, other) {
                if names.contains(other) {
                    let k = choose|k: int| 0 <= k < names.len() && names[k] == other;
                    if k < at {
                        assert(new[k] == other);
                    } else if k + 1 < new.len() {
                        assert(new[k + 1] == other);
                    } else {
                        assert(longer[k + 1] == other);
                        assert(new.len() == most());
                        assert forall|i: int| 0 <= i < new.len() implies name_before(
                            #[trigger] new[i],
                            other,
                        ) by {
                            assert(name_before(longer[i], longer[k + 1]));
                        }
                    }
                } else {
                    let last = names[names.len() - 1];
                    assert forall|i: int| 0 <= i < new.len() implies name_before(
                        #[trigger] new[i],
                        other,
                    ) by {
                        assert(name_before(longer[i], longer[longer.len() - 1]));
                        lemma_name_chain(new[i], longer[longer.len() - 1], other);
                    }
                }
            }
        }
    }
}

/// The variables that are offered stand in order, the shortest first, none twice.
pub proof fn law_variables_stand_in_order(
    bindings: Seq<BindingView>,
    limit: int,
    prefix: Seq<char>,
)
    ensures
        names_ordered(local_names(bindings, limit, prefix)),
    decreases bindings.len(),
{
    if bindings.len() > 0 {
        law_variables_stand_in_order(bindings.drop_last(), limit, prefix);
        lemma_names_bounded(bindings.drop_last(), limit, prefix);
        lemma_with_name(
            local_names(bindings.drop_last(), limit, prefix),
            bindings.last().name,
            bindings.last().name,
        );
    }
}

/// A variable that fits is offered, unless as many as are offered at most come before it.
pub proof fn law_fitting_variables_are_offered(
    bindings: Seq<BindingView>,
    limit: int,
    prefix: Seq<char>,
    k: int,
)
    requires
        0 <= k < bindings.len(),
        offered(bindings[k], limit, prefix),
    ensures
        settled(local_names(bindings, limit, prefix), bindings[k].name),
    decreases bindings.len(),
{
    let before = bindings.drop_last();
    law_variables_stand_in_order(before, limit, prefix);
    lemma_names_bounded(before, limit, prefix);
    lemma_with_name(local_names(before, limit, prefix), bindings.last().name, bindings[k].name);
    if k < before.len() {
        law_fitting_variables_are_offered(before, limit, prefix, k);
    }
}

/// The prefix behind `new` that completions were ranked for lies in the text, up to the cursor.
pub proof fn lemma_new_prefix<S: SymbolIndex>(index: &S, source: Seq<char>, cursor: usize)
    requires
        php::boundary(source, cursor as nat),
        native_batch(index, source, cursor).new_prefix is Some,
        text::utf8_len(source) <= usize::MAX,
    ensures
        ({
            let (start, end) = native_batch(index, source, cursor).new_prefix->0;
            text::fitting(source, start as int) <= text::fitting(source, end as int)
                <= source.len()
        }),
{
    let at = text::fitting(source, cursor as int) as int;
    text::lemma_fitting(source, cursor as int);
    let before = source.take(at);
    lemma_prefix_start(before, at);
    let start = prefix_start(before, at);
    assert(before.take(start) =~= source.take(start));
    text::lemma_char_boundary(source, start);
    text::lemma_take_len(source, start);
    text::lemma_take_len(source, at);
    text::lemma_fitting(source, clamped(source, cursor) as int);
    if cursor > text::utf8_len(source) {
        assert(source.take(source.len() as int) =~= source);
    }
}

proof fn lemma_prefix_start(s: Seq<char>, end: int)
    requires
        0 <= end <= s.len(),
    ensures
        0 <= prefix_start(s, end) <= end,
    decreases end,
{
    if 0 < end && completed_char(s[end - 1]) {
        lemma_prefix_start(s, end - 1);
    }
}

} // verus!
