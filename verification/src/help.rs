//! The signature that is shown for the call at the cursor.

use vstd::prelude::*;
use vstd::slice::slice_subrange;
use vstd::string::*;

use crate::native;
use crate::php;
use crate::provider;
use crate::receiver;
use crate::signature;
use crate::symbols;
use crate::symbols::ProjectSymbol;
use crate::symbols::ProjectSymbolView;
use crate::symbols::RuntimeParameter;
use crate::symbols::RuntimeParameterView;
use crate::symbols::RuntimeSymbol;
use crate::symbols::RuntimeSymbolView;
use crate::symbols::SymbolIndex;
use crate::text;

verus! {

/// Whether a character may stand in the name of what is called.
pub open spec fn callable_char(c: char) -> bool {
    php::identifier_char(c) || c == ':'
}

/// Where the callable that ends at an index begins.
pub open spec fn callable_start(s: Seq<char>, end: int) -> int
    decreases end,
{
    if 0 < end <= s.len() && callable_char(s[end - 1]) {
        callable_start(s, end - 1)
    } else {
        end
    }
}

/// What is called right before the end of a text.
pub open spec fn callable_before(head: Seq<char>) -> Seq<char> {
    let head = text::trim_end(head);
    head.skip(callable_start(head, head.len() as int))
}

/// The name in what is called: what stands behind its last double colon.
pub open spec fn called_name(callable: Seq<char>) -> Seq<char> {
    match text::rfind(callable, "::"@) {
        Some(at) => callable.skip(at + 2),
        None => callable,
    }
}

/// What the callable is called on: what stands before its last double colon, else the expression
/// before the last arrow.
pub open spec fn called_on(head: Seq<char>, callable: Seq<char>) -> Option<Seq<char>> {
    match text::rfind(callable, "::"@) {
        Some(at) => Some(callable.take(at)),
        None => match text::rfind(head, "->"@) {
            Some(at) => Some(text::trim(head.subrange(php::owner_start(head, at), at))),
            None => None,
        },
    }
}

/// The first method of a name.
pub open spec fn method_named(
    methods: Seq<ProjectSymbolView>,
    name: Seq<char>,
    from: int,
) -> Option<ProjectSymbolView>
    decreases methods.len() - from,
{
    if from >= methods.len() {
        None
    } else if methods[from].name == name {
        Some(methods[from])
    } else {
        method_named(methods, name, from + 1)
    }
}

fn find_method(methods: &Vec<ProjectSymbol>, name: &str) -> (r: Option<usize>)
    ensures
        match r {
            Some(i) => i < methods@.len() && method_named(
                symbols::project_views(methods@),
                name@,
                0,
            ) == Some(methods@[i as int]@),
            None => method_named(symbols::project_views(methods@), name@, 0) is None,
        },
{
    let ghost all = symbols::project_views(methods@);
    let mut i: usize = 0;
    while i < methods.len()
        invariant
            i <= methods@.len(),
            all == symbols::project_views(methods@),
            method_named(all, name@, 0) == method_named(all, name@, i as int),
        decreases methods@.len() - i,
    {
        assert(all[i as int] == methods@[i as int]@);
        if text::eq(&methods[i].name, name) {
            return Some(i);
        }
        i += 1;
    }
    None
}

/// The first method of the runtime of a name.
pub open spec fn runtime_named(
    methods: Seq<RuntimeSymbolView>,
    name: Seq<char>,
    from: int,
) -> Option<RuntimeSymbolView>
    decreases methods.len() - from,
{
    if from >= methods.len() {
        None
    } else if methods[from].name == name {
        Some(methods[from])
    } else {
        runtime_named(methods, name, from + 1)
    }
}

/// The index of the first method of the runtime of a name.
pub fn find_runtime_method(methods: &Vec<RuntimeSymbol>, name: &str) -> (r: Option<usize>)
    ensures
        match r {
            Some(i) => i < methods@.len() && runtime_named(
                symbols::runtime_views(methods@),
                name@,
                0,
            ) == Some(methods@[i as int]@),
            None => runtime_named(symbols::runtime_views(methods@), name@, 0) is None,
        },
{
    let ghost all = symbols::runtime_views(methods@);
    let mut i: usize = 0;
    while i < methods.len()
        invariant
            i <= methods@.len(),
            all == symbols::runtime_views(methods@),
            runtime_named(all, name@, 0) == runtime_named(all, name@, i as int),
        decreases methods@.len() - i,
    {
        assert(all[i as int] == methods@[i as int]@);
        if text::eq(&methods[i].name, name) {
            return Some(i);
        }
        i += 1;
    }
    None
}

/// How a parameter is shown in a call; the one that is being written is marked.
pub open spec fn marked_parameter(parameter: RuntimeParameterView, active: bool) -> Seq<char> {
    (if active {
        "▶ "@
    } else {
        Seq::empty()
    }) + signature::or_empty(parameter.declared_type) + " "@ + (if parameter.variadic {
        "..."@
    } else {
        Seq::empty()
    }) + "$"@ + text::strip_start(parameter.name, '$') + (if parameter.optional {
        " = …"@
    } else {
        Seq::empty()
    })
}

/// How the parameters of a call are shown.
pub open spec fn marked_parameters(parameters: Seq<RuntimeParameterView>, active: int) -> Seq<
    Seq<char>,
> {
    parameters.map(|i: int, p: RuntimeParameterView| marked_parameter(p, i == active))
}

/// How many commas stand in `s`.
pub open spec fn commas(s: Seq<char>) -> nat
    decreases s.len(),
{
    if s.len() == 0 {
        0
    } else {
        commas(s.drop_last()) + if s.last() == ',' {
            1nat
        } else {
            0
        }
    }
}

/// The help for a symbol of the runtime whose parameter of a number is being written.
pub open spec fn runtime_help(symbol: RuntimeSymbolView, active: int) -> Option<Seq<char>> {
    match symbol.signature {
        Some(found) => Some(
            symbol.name + "("@ + text::join(
                marked_parameters(found.parameters, active),
                ", "@,
            ) + ")"@ + signature::shown_return(signature::returned(found)),
        ),
        None => None,
    }
}

fn mark_parameter(parameter: &RuntimeParameter, active: bool) -> (r: Vec<char>)
    ensures
        r@ == marked_parameter(parameter@, active),
{
    let mut out: Vec<char> = Vec::new();
    if active {
        text::put(&mut out, "▶ ");
    }
    if let Some(declared) = &parameter.declared_type {
        text::put(&mut out, declared);
    }
    text::put(&mut out, " ");
    if parameter.variadic {
        text::put(&mut out, "...");
    }
    text::put(&mut out, "$");
    let name = text::chars_of(&parameter.name);
    out.extend_from_slice(text::stripped_start(&name, '$'));
    if parameter.optional {
        text::put(&mut out, " = …");
    }
    assert(out@ =~= marked_parameter(parameter@, active));
    out
}

/// The help for a symbol of the runtime whose parameter of a number is being written.
pub fn show_runtime_help(symbol: &RuntimeSymbol, active: usize) -> (r: Option<String>)
    ensures
        provider::optional_text(r) == runtime_help(symbol@, active as int),
{
    let found = match &symbol.signature {
        Some(found) => found,
        None => {
            return None;
        },
    };
    let mut parts: Vec<Vec<char>> = Vec::new();
    let mut i: usize = 0;
    while i < found.parameters.len()
        invariant
            i <= found.parameters@.len(),
            parts@.len() == i,
            forall|k: int|
                0 <= k < i ==> (#[trigger] parts@[k])@ == marked_parameter(
                    found.parameters@[k]@,
                    k == active as int,
                ),
        decreases found.parameters@.len() - i,
    {
        parts.push(mark_parameter(&found.parameters[i], i == active));
        i += 1;
    }
    assert(text::runs(parts@) =~= marked_parameters(found@.parameters, active as int));
    let mut out = text::chars_of(&symbol.name);
    text::put(&mut out, "(");
    out.extend_from_slice(&text::joined(&parts, ", "));
    text::put(&mut out, ")");
    match &found.declared_return_type {
        Some(written) => {
            text::put(&mut out, ": ");
            text::put(&mut out, written);
        },
        None => match &found.phpdoc_return_type {
            Some(written) => {
                text::put(&mut out, ": ");
                text::put(&mut out, written);
            },
            None => {},
        },
    }
    assert(out@ =~= runtime_help(symbol@, active as int)->0);
    Some(text::to_string(&out))
}

/// The runtime symbol that a call names: a function, else a method of the class that it is called
/// on.
pub open spec fn called_symbol<S: SymbolIndex>(
    index: &S,
    name: Seq<char>,
    class: Option<Seq<char>>,
) -> Option<RuntimeSymbolView> {
    match index.runtime_function_of(name) {
        Some(symbol) => Some(symbol),
        None => match index.runtime_function_of("\\"@ + name) {
            Some(symbol) => Some(symbol),
            None => match class {
                Some(class) => runtime_named(
                    index.runtime_methods_of(native::runtime_class_for(index, class, class)),
                    name,
                    0,
                ),
                None => None,
            },
        },
    }
}

/// The method of the project that a call names.
pub open spec fn called_method<S: SymbolIndex>(
    index: &S,
    name: Seq<char>,
    class: Option<Seq<char>>,
) -> Option<ProjectSymbolView> {
    match class {
        Some(class) => method_named(index.project_methods_of(class), name, 0),
        None => None,
    }
}

/// The class that the call behind a text is called on.
pub open spec fn called_class<S: SymbolIndex>(
    index: &S,
    head: Seq<char>,
    callable: Seq<char>,
    source: Seq<char>,
) -> Option<Seq<char>> {
    match called_on(head, callable) {
        Some(owner) => receiver::receiver_type(index, owner, head, source),
        None => None,
    }
}

/// The signature that is shown for the call at a cursor: that of the method of the project that it
/// names, else that of the runtime symbol, with the parameter marked that is being written.
pub open spec fn signature_help<S: SymbolIndex>(
    index: &S,
    source: Seq<char>,
    cursor: usize,
) -> Option<Seq<char>> {
    let before = source.take(text::fitting(source, cursor as int) as int);
    match text::char_before(before, '(', before.len() as int) {
        None => None,
        Some(open) => {
            let head = before.take(open);
            let callable = callable_before(head);
            let name = called_name(callable);
            let class = called_class(index, head, callable, source);
            match called_method(index, name, class) {
                Some(method) => Some(signature::shown_method(method)),
                None => match called_symbol(index, name, class) {
                    Some(symbol) => runtime_help(symbol, commas(before.skip(open + 1)) as int),
                    None => None,
                },
            }
        },
    }
}

fn count_commas(s: &[char]) -> (r: usize)
    ensures
        r == commas(s@),
{
    let mut n: usize = 0;
    let mut i: usize = 0;
    assert(s@.take(0) =~= Seq::<char>::empty());
    while i < s.len()
        invariant
            i <= s@.len(),
            n <= i,
            n == commas(s@.take(i as int)),
        decreases s@.len() - i,
    {
        assert(s@.take(i + 1).drop_last() =~= s@.take(i as int));
        if s[i] == ',' {
            n += 1;
        }
        i += 1;
    }
    assert(s@.take(i as int) =~= s@);
    n
}

fn read_callable(head: &[char]) -> (r: &[char])
    ensures
        r@ == callable_before(head@),
{
    let head = text::trimmed_end(head);
    let n: usize = head.len();
    let mut start: usize = n;
    while start > 0 && (php::is_name_char(head[start - 1], false) || head[start - 1] == ':')
        invariant
            start <= n == head@.len(),
            callable_start(head@, n as int) == callable_start(head@, start as int),
        decreases start,
    {
        start -= 1;
    }
    assert(head@.subrange(start as int, n as int) =~= head@.skip(start as int));
    slice_subrange(head, start, n)
}

fn find_called_class<S: SymbolIndex>(index: &S, head: &[char], callable: &[char], source: &str) -> (r:
    Option<String>)
    requires
        text::utf8_len(head@) <= usize::MAX,
    ensures
        provider::optional_text(r) == called_class(index, head@, callable@, source@),
{
    proof {
        reveal_strlit("->");
        reveal_strlit("::");
    }
    let head_text = text::to_string(head);
    let owner: String = match text::find_last(callable, &text::chars_of("::")) {
        Some(at) => {
            let owner = text::string_of(callable, 0, at);
            assert(owner@ =~= callable@.take(at as int));
            owner
        },
        None => match text::find_last(head, &text::chars_of("->")) {
            Some(at) => {
                let offset: usize = text::offset_of(head, at);
                proof {
                    text::lemma_char_boundary(head@, at as int);
                }
                let (_, owner) = php::extract_owner_expression(&head_text, offset);
                owner
            },
            None => {
                return None;
            },
        },
    };
    receiver::resolve_receiver_type(index, &owner, &head_text, source)
}

fn find_called_symbol<S: SymbolIndex>(index: &S, name: &str, class: &Option<String>) -> (r: Option<
    RuntimeSymbol,
>)
    ensures
        match r {
            Some(symbol) => called_symbol(index, name@, provider::optional_text(*class)) == Some(
                symbol@,
            ),
            None => called_symbol(index, name@, provider::optional_text(*class)) is None,
        },
{
    if let Some(symbol) = index.runtime_function(name) {
        return Some(symbol);
    }
    let mut rooted = String::from_str("\\");
    rooted.append(name);
    if let Some(symbol) = index.runtime_function(&rooted) {
        return Some(symbol);
    }
    match class {
        Some(class) => {
            let runtime_class = native::find_runtime_class(index, class, class);
            let methods = index.runtime_methods(&runtime_class);
            match find_runtime_method(&methods, name) {
                Some(i) => Some(methods[i].clone()),
                None => None,
            }
        },
        None => None,
    }
}

/// The signature that is shown for the call at a cursor.
pub fn native_signature_help_for_text<S: SymbolIndex>(index: &S, source: &str, cursor: usize) -> (r:
    Option<String>)
    requires
        php::boundary(source@, cursor as nat),
    ensures
        provider::optional_text(r) == signature_help(index, source@, cursor),
{
    let chars = text::chars_of(source);
    let size: usize = text::byte_len(source);
    let (end, _) = text::fit(&chars, cursor);
    let before = slice_subrange(&chars, 0, end);
    assert(before@ =~= source@.take(end as int));
    let open: usize = match text::rfind_char(before, '(') {
        Some(open) => open,
        None => {
            return None;
        },
    };
    let head = slice_subrange(before, 0, open);
    proof {
        assert(head@ =~= before@.take(open as int));
        assert(head@ =~= source@.take(open as int));
        text::lemma_take_len(source@, open as int);
        reveal_strlit("::");
    }
    let callable = read_callable(head);
    let name = match text::find_last(callable, &text::chars_of("::")) {
        Some(at) => {
            let n: usize = callable.len();
            let name = text::string_of(callable, at + 2, n);
            assert(name@ =~= callable@.skip(at + 2));
            name
        },
        None => text::to_string(callable),
    };
    let class = find_called_class(index, head, callable, source);
    if let Some(class) = &class {
        let methods = index.project_methods(class);
        if let Some(i) = find_method(&methods, &name) {
            return Some(text::to_string(&signature::show_method(&methods[i])));
        }
    }
    match find_called_symbol(index, &name, &class) {
        Some(symbol) => {
            let rest = slice_subrange(before, open + 1, end);
            assert(rest@ =~= before@.skip(open + 1));
            show_runtime_help(&symbol, count_commas(rest))
        },
        None => None,
    }
}

} // verus!
