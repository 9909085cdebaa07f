//! Where the definition of what stands at the cursor is looked for.

use std::ops::Range;

use vstd::prelude::*;
use vstd::slice::slice_subrange;
use vstd::string::*;

use crate::native;
use crate::php;
use crate::php::ProjectSymbolKind;
use crate::provider;
use crate::receiver;
use crate::symbols;
use crate::symbols::Place;
use crate::symbols::PlaceView;
use crate::symbols::ProjectSymbol;
use crate::symbols::ProjectSymbolView;
use crate::symbols::RuntimeSymbol;
use crate::symbols::RuntimeSymbolView;
use crate::symbols::SymbolIndex;
use crate::text;

verus! {

/// A token of a document: its text, the bytes that it spans, and whether it is a keyword.
#[derive(Debug, PartialEq, Eq)]
pub struct Token {
    pub text: String,
    pub start: usize,
    pub end: usize,
    pub keyword: bool,
}

impl Token {
    /// Whether the token is one of a text.
    pub open spec fn fits(&self, source: Seq<char>) -> bool {
        text::char_boundary(source, self.start as nat) && text::char_boundary(
            source,
            self.end as nat,
        )
    }
}

/// What the definition of a token is looked for by.
#[derive(Debug, PartialEq, Eq)]
pub enum DefinitionQuery {
    Name { fqn: String },
    Method { owner_fqn: String, name: String, is_static: bool, chain: Vec<String> },
    Function,
}

/// What a query holds.
#[verifier::ext_equal]
pub enum DefinitionQueryView {
    Name { fqn: Seq<char> },
    Method { owner_fqn: Seq<char>, name: Seq<char>, is_static: bool, chain: Seq<Seq<char>> },
    Function,
}

impl View for DefinitionQuery {
    type V = DefinitionQueryView;

    open spec fn view(&self) -> DefinitionQueryView {
        match self {
            DefinitionQuery::Name { fqn } => DefinitionQueryView::Name { fqn: fqn@ },
            DefinitionQuery::Method { owner_fqn, name, is_static, chain } =>
                DefinitionQueryView::Method {
                owner_fqn: owner_fqn@,
                name: name@,
                is_static: *is_static,
                chain: text::texts(chain@),
            },
            DefinitionQuery::Function => DefinitionQueryView::Function,
        }
    }
}

/// What an optional query holds.
pub open spec fn query_view(query: Option<DefinitionQuery>) -> Option<DefinitionQueryView> {
    match query {
        Some(query) => Some(query@),
        None => None,
    }
}

/// The operator that a text ends with: where it begins, and whether it is static.
pub open spec fn ending_operator(before: Seq<char>) -> Option<(int, bool)> {
    let head = text::trim_end(before);
    if text::ends_with(head, "->"@) {
        Some((head.len() - 2, false))
    } else if text::ends_with(head, "::"@) {
        Some((head.len() - 2, true))
    } else {
        None
    }
}

/// The class of what stands before a member operator, and the methods that are called on it first.
pub open spec fn owner_of<S: SymbolIndex>(
    index: &S,
    written: Seq<char>,
    before: Seq<char>,
    source: Seq<char>,
) -> Option<(Seq<char>, Seq<Seq<char>>)> {
    if text::starts_with(written, "$"@) {
        match php::method_chain(written) {
            Some((base, methods)) => match receiver::native_type(index, base, before, source) {
                Some(class) => Some((class, methods)),
                None => None,
            },
            None => match receiver::receiver_type(index, written, before, source) {
                Some(class) => Some((class, Seq::empty())),
                None => None,
            },
        }
    } else {
        Some((php::resolve(written, text::lines(source)), Seq::empty()))
    }
}

/// What the definition of a token is looked for by. A keyword has none. Right behind a member
/// operator stands a method; before a parenthesis a function, but not behind `new`; anything else
/// is the name of a class.
pub open spec fn query_for<S: SymbolIndex>(
    index: &S,
    source: Seq<char>,
    token: Seq<char>,
    start: int,
    end: int,
    keyword: bool,
) -> Option<DefinitionQueryView> {
    let before = source.take(start);
    let name = text::strip_start(token, '$');
    if keyword {
        None
    } else {
        match ending_operator(before) {
            Some((at, is_static)) => {
                let written = text::trim(before.subrange(php::owner_start(before, at), at));
                match owner_of(index, written, before, source) {
                    Some((owner_fqn, chain)) => Some(
                        DefinitionQueryView::Method { owner_fqn, name, is_static, chain },
                    ),
                    None => None,
                }
            },
            None => if !text::ends_with(text::trim_end(before), "new"@) && text::starts_with(
                source.skip(end),
                "("@,
            ) {
                Some(DefinitionQueryView::Function)
            } else {
                Some(
                    DefinitionQueryView::Name { fqn: php::resolve(name, text::lines(source)) },
                )
            },
        }
    }
}

fn find_ending_operator(before: &[char]) -> (r: Option<(usize, bool)>)
    ensures
        match r {
            Some((at, is_static)) => ending_operator(before@) == Some((at as int, is_static)) && at
                + 2 <= before@.len(),
            None => ending_operator(before@) is None,
        },
{
    proof {
        reveal_strlit("->");
        reveal_strlit("::");
        text::lemma_trim_end_len(before@);
    }
    let head = text::trimmed_end(before);
    if text::ends(head, "->") {
        Some((head.len() - 2, false))
    } else if text::ends(head, "::") {
        Some((head.len() - 2, true))
    } else {
        None
    }
}

fn find_owner<S: SymbolIndex>(index: &S, written: &str, before: &str, source: &str) -> (r: Option<
    (String, Vec<String>),
>)
    ensures
        match r {
            Some((class, chain)) => owner_of(index, written@, before@, source@) == Some(
                (class@, text::texts(chain@)),
            ),
            None => owner_of(index, written@, before@, source@) is None,
        },
{
    let none: Vec<String> = Vec::new();
    assert(text::texts(none@) =~= Seq::<Seq<char>>::empty());
    if text::begins(&text::chars_of(written), "$") {
        match php::split_method_chain(written) {
            Some((base, methods)) => match receiver::resolve_native_type(
                index,
                &base,
                before,
                source,
            ) {
                Some(class) => Some((class, methods)),
                None => None,
            },
            None => match receiver::resolve_receiver_type(index, written, before, source) {
                Some(class) => Some((class, none)),
                None => None,
            },
        }
    } else {
        Some((php::resolve_php_class_name(written, source), none))
    }
}

/// What the definition of a token is looked for by.
pub fn definition_query<S: SymbolIndex>(index: &S, source: &str, token: &Token) -> (r: Option<
    DefinitionQuery,
>)
    requires
        token.fits(source@),
    ensures
        query_view(r) == query_for(
            index,
            source@,
            token.text@,
            text::fitting(source@, token.start as int) as int,
            text::fitting(source@, token.end as int) as int,
            token.keyword,
        ),
{
    if token.keyword {
        return None;
    }
    let s = text::chars_of(source);
    let n: usize = s.len();
    let size: usize = text::byte_len(source);
    let (start, _) = text::fit(&s, token.start);
    let (end, _) = text::fit(&s, token.end);
    let before = slice_subrange(&s, 0, start);
    assert(before@ =~= source@.take(start as int));
    let before_text = text::to_string(before);
    let token_chars = text::chars_of(&token.text);
    let name = text::to_string(text::stripped_start(&token_chars, '$'));
    if let Some((at, is_static)) = find_ending_operator(before) {
        proof {
            text::lemma_char_boundary(before@, at as int);
            text::lemma_take_len(source@, start as int);
        }
        let at_offset: usize = text::offset_of(before, at);
        let (_, written) = php::extract_owner_expression(&before_text, at_offset);
        return match find_owner(index, &written, &before_text, source) {
            Some((owner_fqn, chain)) => Some(
                DefinitionQuery::Method { owner_fqn, name, is_static, chain },
            ),
            None => None,
        };
    }
    let behind = slice_subrange(&s, end, n);
    assert(behind@ =~= source@.skip(end as int));
    if !text::ends(text::trimmed_end(before), "new") && text::begins(behind, "(") {
        return Some(DefinitionQuery::Function);
    }
    Some(DefinitionQuery::Name { fqn: php::resolve_php_class_name(&name, source) })
}

/// What is looked for among the packages: a class, and a member of it or of what the methods that
/// are called on it first give.
#[derive(Debug, PartialEq, Eq)]
pub struct VendorDefinitionRequest {
    pub fqn: String,
    pub member: Option<String>,
    pub is_static: bool,
    pub chain: Vec<String>,
}

/// What is looked for among the packages for a query. A function is not looked for there.
pub fn vendor_definition_request(query: DefinitionQuery) -> (r: Option<VendorDefinitionRequest>)
    ensures
        match query@ {
            DefinitionQueryView::Method { owner_fqn, name, is_static, chain } => {
                &&& r is Some
                &&& r->0.fqn@ == owner_fqn
                &&& provider::optional_text(r->0.member) == Some(name)
                &&& r->0.is_static == is_static
                &&& text::texts(r->0.chain@) == chain
            },
            DefinitionQueryView::Name { fqn } => {
                &&& r is Some
                &&& r->0.fqn@ == fqn
                &&& r->0.member is None
                &&& !r->0.is_static
                &&& r->0.chain@.len() == 0
            },
            DefinitionQueryView::Function => r is None,
        },
{
    match query {
        DefinitionQuery::Method { owner_fqn, name, is_static, chain } => Some(
            VendorDefinitionRequest { fqn: owner_fqn, member: Some(name), is_static, chain },
        ),
        DefinitionQuery::Name { fqn } => Some(
            VendorDefinitionRequest { fqn, member: None, is_static: false, chain: Vec::new() },
        ),
        DefinitionQuery::Function => None,
    }
}

/// Where a symbol of the project is declared.
pub open spec fn project_place(symbol: ProjectSymbolView) -> PlaceView {
    PlaceView { file: symbol.file, start: symbol.start }
}

/// Where a symbol of the runtime is declared.
pub open spec fn runtime_place(symbol: RuntimeSymbolView) -> PlaceView {
    PlaceView { file: symbol.file, start: symbol.start }
}

/// The first method of a name, from an index on, that is static or not.
pub open spec fn member_named(
    methods: Seq<ProjectSymbolView>,
    name: Seq<char>,
    is_static: bool,
    from: int,
) -> Option<PlaceView>
    decreases methods.len() - from,
{
    if from >= methods.len() {
        None
    } else if methods[from].name == name && is_static == symbols::declared_static(methods[from]) {
        Some(project_place(methods[from]))
    } else {
        member_named(methods, name, is_static, from + 1)
    }
}

fn find_member(methods: &Vec<ProjectSymbol>, name: &str, is_static: bool) -> (r: Option<Place>)
    ensures
        symbols::place_view(r) == member_named(
            symbols::project_views(methods@),
            name@,
            is_static,
            0,
        ),
{
    let ghost all = symbols::project_views(methods@);
    let mut i: usize = 0;
    while i < methods.len()
        invariant
            i <= methods@.len(),
            all == symbols::project_views(methods@),
            member_named(all, name@, is_static, 0) == member_named(
                all,
                name@,
                is_static,
                i as int,
            ),
        decreases methods@.len() - i,
    {
        let method = &methods[i];
        assert(all[i as int] == method@);
        if text::eq(&method.name, name) && is_static == method.is_static() {
            return Some(Place { file: method.file.clone(), start: method.start });
        }
        i += 1;
    }
    None
}

/// Whether a symbol is a method of a name.
pub open spec fn is_method(symbol: ProjectSymbolView, name: Seq<char>) -> bool {
    symbol.kind == ProjectSymbolKind::Method && symbol.name == name
}

/// The only method of a name in the project; none where there are several.
pub open spec fn only_method(project: Seq<ProjectSymbolView>, name: Seq<char>) -> Option<
    PlaceView,
> {
    let found = project.filter(|s: ProjectSymbolView| is_method(s, name));
    if found.len() == 1 {
        Some(project_place(found[0]))
    } else {
        None
    }
}

fn find_only_method(project: &Vec<ProjectSymbol>, name: &str) -> (r: Option<Place>)
    ensures
        symbols::place_view(r) == only_method(symbols::project_views(project@), name@),
{
    let ghost all = symbols::project_views(project@);
    let ghost keep = |s: ProjectSymbolView| is_method(s, name@);
    let mut found: Vec<usize> = Vec::new();
    let mut i: usize = 0;
    let ghost mut kept = Seq::<ProjectSymbolView>::empty();
    assert(all.take(0).filter(keep) =~= kept) by {
        reveal(Seq::filter);
    }
    while i < project.len()
        invariant
            i <= project@.len(),
            all == symbols::project_views(project@),
            keep == (|s: ProjectSymbolView| is_method(s, name@)),
            kept == all.take(i as int).filter(keep),
            found@.len() == kept.len(),
            forall|k: int|
                0 <= k < found@.len() ==> (#[trigger] found@[k]) < project@.len() && kept[k]
                    == project@[found@[k] as int]@,
        decreases project@.len() - i,
    {
        proof {
            text::lemma_filter_step(all, keep, i as int);
            assert(all[i as int] == project@[i as int]@);
        }
        if project[i].kind == ProjectSymbolKind::Method && text::eq(&project[i].name, name) {
            found.push(i);
            proof {
                kept = kept.push(project@[i as int]@);
            }
        }
        i += 1;
    }
    assert(all.take(i as int) =~= all);
    if found.len() == 1 {
        let symbol = &project[found[0]];
        Some(Place { file: symbol.file.clone(), start: symbol.start })
    } else {
        None
    }
}

/// The first method of the runtime of a name, from an index on, that is static or not.
pub open spec fn runtime_member_named(
    methods: Seq<RuntimeSymbolView>,
    name: Seq<char>,
    is_static: bool,
    from: int,
) -> Option<PlaceView>
    decreases methods.len() - from,
{
    if from >= methods.len() {
        None
    } else if methods[from].name == name && methods[from].is_static == is_static {
        Some(runtime_place(methods[from]))
    } else {
        runtime_member_named(methods, name, is_static, from + 1)
    }
}

fn find_runtime_member(methods: &Vec<RuntimeSymbol>, name: &str, is_static: bool) -> (r: Option<
    Place,
>)
    ensures
        symbols::place_view(r) == runtime_member_named(
            symbols::runtime_views(methods@),
            name@,
            is_static,
            0,
        ),
{
    let ghost all = symbols::runtime_views(methods@);
    let mut i: usize = 0;
    while i < methods.len()
        invariant
            i <= methods@.len(),
            all == symbols::runtime_views(methods@),
            runtime_member_named(all, name@, is_static, 0) == runtime_member_named(
                all,
                name@,
                is_static,
                i as int,
            ),
        decreases methods@.len() - i,
    {
        let method = &methods[i];
        assert(all[i as int] == method@);
        if text::eq(&method.name, name) && method.is_static == is_static {
            return Some(Place { file: method.file.clone(), start: method.start });
        }
        i += 1;
    }
    None
}

/// The first function of the project of a name, from an index on.
pub open spec fn function_named(project: Seq<ProjectSymbolView>, name: Seq<char>, from: int) -> Option<
    PlaceView,
>
    decreases project.len() - from,
{
    if from >= project.len() {
        None
    } else if project[from].kind == ProjectSymbolKind::Function && project[from].name == name {
        Some(project_place(project[from]))
    } else {
        function_named(project, name, from + 1)
    }
}

fn find_function(project: &Vec<ProjectSymbol>, name: &str) -> (r: Option<Place>)
    ensures
        symbols::place_view(r) == function_named(symbols::project_views(project@), name@, 0),
{
    let ghost all = symbols::project_views(project@);
    let mut i: usize = 0;
    while i < project.len()
        invariant
            i <= project@.len(),
            all == symbols::project_views(project@),
            function_named(all, name@, 0) == function_named(all, name@, i as int),
        decreases project@.len() - i,
    {
        let symbol = &project[i];
        assert(all[i as int] == symbol@);
        if symbol.kind == ProjectSymbolKind::Function && text::eq(&symbol.name, name) {
            return Some(Place { file: symbol.file.clone(), start: symbol.start });
        }
        i += 1;
    }
    None
}

/// Where a member of a class is declared: a method of the class in the project, else the only method
/// of the name in the project, else a method of the class in the runtime. While the index of the
/// project is busy, only the last is looked for.
pub open spec fn member_place<S: SymbolIndex>(
    index: &S,
    class: Seq<char>,
    name: Seq<char>,
    is_static: bool,
) -> Option<PlaceView> {
    let in_project = if index.project_busy() {
        None
    } else {
        match member_named(index.project_methods_of(class), name, is_static, 0) {
            Some(place) => Some(place),
            None => only_method(index.project_all(), name),
        }
    };
    match in_project {
        Some(place) => Some(place),
        None => runtime_member_named(
            index.runtime_methods_of(native::runtime_class_for(index, class, class)),
            name,
            is_static,
            0,
        ),
    }
}

fn find_member_place<S: SymbolIndex>(index: &S, class: &str, name: &str, is_static: bool) -> (r:
    Option<Place>)
    ensures
        symbols::place_view(r) == member_place(index, class@, name@, is_static),
{
    if !index.project_is_busy() {
        if let Some(place) = find_member(&index.project_methods(class), name, is_static) {
            return Some(place);
        }
        if let Some(place) = find_only_method(&index.project_symbols(), name) {
            return Some(place);
        }
    }
    let runtime_class = native::find_runtime_class(index, class, class);
    find_runtime_member(&index.runtime_methods(&runtime_class), name, is_static)
}

/// Where what is named by itself is declared: a function of the runtime, of the project, a class of
/// the project, of the runtime. While the index of the project is busy, only a function of the
/// runtime is found.
pub open spec fn named_place<S: SymbolIndex>(index: &S, name: Seq<char>) -> Option<PlaceView> {
    match index.runtime_function_of(name) {
        Some(symbol) => Some(runtime_place(symbol)),
        None if index.project_busy() => None,
        None => match function_named(index.project_all(), name, 0) {
            Some(place) => Some(place),
            None => match index.project_class_at(name) {
                Some(place) => Some(place),
                None => match index.runtime_class_at(name) {
                    Some(place) => Some(place),
                    None => index.runtime_class_called_at(name),
                },
            },
        },
    }
}

fn find_named_place<S: SymbolIndex>(index: &S, name: &str) -> (r: Option<Place>)
    ensures
        symbols::place_view(r) == named_place(index, name@),
{
    if let Some(symbol) = index.runtime_function(name) {
        return Some(Place { file: symbol.file, start: symbol.start });
    }
    if index.project_is_busy() {
        return None;
    }
    if let Some(place) = find_function(&index.project_symbols(), name) {
        return Some(place);
    }
    if let Some(place) = index.project_class_place(name) {
        return Some(place);
    }
    if let Some(place) = index.runtime_class_place(name) {
        return Some(place);
    }
    index.runtime_class_place_by_short_name(name)
}

/// The last member operator in a text: an arrow, else a double colon.
pub open spec fn last_operator(before: Seq<char>) -> Option<int> {
    match text::rfind(before, "->"@) {
        Some(at) => Some(at),
        None => text::rfind(before, "::"@),
    }
}

/// Where the definition of a token that begins at an index is: as a member of the class of what
/// stands before the last member operator, else by its name.
pub open spec fn native_location<S: SymbolIndex>(
    index: &S,
    source: Seq<char>,
    token: Seq<char>,
    start: int,
) -> Option<PlaceView> {
    let before = source.take(start);
    let name = text::strip_start(token, '$');
    let member = match last_operator(before) {
        Some(at) => {
            let owner = text::trim(source.subrange(php::owner_start(source, at), at));
            match receiver::receiver_type(index, owner, source.take(at), source) {
                Some(class) => member_place(
                    index,
                    class,
                    name,
                    text::starts_with(source.skip(at), "::"@),
                ),
                None => None,
            }
        },
        None => None,
    };
    match member {
        Some(place) => Some(place),
        None => named_place(index, name),
    }
}

/// Where the definition of a token is, as far as the index alone tells.
pub fn native_definition_location<S: SymbolIndex>(index: &S, source: &str, token: &Token) -> (r:
    Option<Place>)
    requires
        token.fits(source@),
    ensures
        symbols::place_view(r) == native_location(
            index,
            source@,
            token.text@,
            text::fitting(source@, token.start as int) as int,
        ),
{
    let s = text::chars_of(source);
    let n: usize = s.len();
    let size: usize = text::byte_len(source);
    let (start, _) = text::fit(&s, token.start);
    let before = slice_subrange(&s, 0, start);
    assert(before@ =~= source@.take(start as int));
    let token_chars = text::chars_of(&token.text);
    let name = text::to_string(text::stripped_start(&token_chars, '$'));
    proof {
        reveal_strlit("->");
        reveal_strlit("::");
    }
    let operator = match text::find_last(before, &text::chars_of("->")) {
        Some(at) => Some(at),
        None => text::find_last(before, &text::chars_of("::")),
    };
    if let Some(at) = operator {
        proof {
            text::lemma_char_boundary(source@, at as int);
        }
        let at_offset: usize = text::offset_of(&s, at);
        let (_, owner) = php::extract_owner_expression(source, at_offset);
        let behind = slice_subrange(&s, at, n);
        assert(behind@ =~= source@.skip(at as int));
        let is_static = text::begins(behind, "::");
        let context = text::string_of(&s, 0, at);
        assert(context@ =~= source@.take(at as int));
        if let Some(class) = receiver::resolve_receiver_type(index, &owner, &context, source) {
            if let Some(place) = find_member_place(index, &class, &name, is_static) {
                return Some(place);
            }
        }
    }
    find_named_place(index, &name)
}

/// Whether the packages are looked through: only where the project has nothing.
pub fn vendor_lookup_needed(project_found: bool) -> (r: bool)
    ensures
        r == !project_found,
{
    !project_found
}

/// Whether a kind of symbol is a type.
pub open spec fn type_declaration(symbol: ProjectSymbolView) -> bool {
    native::project_type(symbol.kind)
}

/// The first type, from an index on.
pub open spec fn first_type(found: Seq<ProjectSymbolView>, from: int) -> Option<ProjectSymbolView>
    decreases found.len() - from,
{
    if from >= found.len() {
        None
    } else if type_declaration(found[from]) {
        Some(found[from])
    } else {
        first_type(found, from + 1)
    }
}

/// Where a class of a package is declared: where the first type among its symbols is, else at the
/// start of the file that is known to hold it.
pub fn resolve_vendor_definition_target(
    found: &Vec<ProjectSymbol>,
    class_file: Option<String>,
) -> (r: Option<(String, Range<usize>)>)
    ensures
        match (first_type(symbols::project_views(found@), 0), class_file) {
            (Some(symbol), _) => {
                &&& r is Some
                &&& (r->0).0@ == symbol.file
                &&& (r->0).1.start == symbol.start
                &&& (r->0).1.end == symbol.end
            },
            (None, Some(file)) => {
                &&& r is Some
                &&& (r->0).0@ == file@
                &&& (r->0).1.start == 0
                &&& (r->0).1.end == 0
            },
            (None, None) => r is None,
        },
{
    let ghost all = symbols::project_views(found@);
    let mut i: usize = 0;
    while i < found.len()
        invariant
            i <= found@.len(),
            all == symbols::project_views(found@),
            first_type(all, 0) == first_type(all, i as int),
        decreases found@.len() - i,
    {
        let symbol = &found[i];
        assert(all[i as int] == symbol@);
        let is_type = match symbol.kind {
            ProjectSymbolKind::Class
            | ProjectSymbolKind::Interface
            | ProjectSymbolKind::Trait
            | ProjectSymbolKind::Enum => true,
            _ => false,
        };
        if is_type {
            return Some(
                (symbol.file.clone(), Range { start: symbol.start, end: symbol.end }),
            );
        }
        i += 1;
    }
    match class_file {
        Some(file) => Some((file, Range { start: 0, end: 0 })),
        None => None,
    }
}

/// A keyword has no definition.
pub proof fn law_keywords_have_no_definition<S: SymbolIndex>(
    index: &S,
    source: Seq<char>,
    token: Seq<char>,
    start: int,
    end: int,
)
    ensures
        query_for(index, source, token, start, end, true) is None,
{
}

/// Only what stands right behind a member operator is looked for as a method.
pub proof fn law_methods_stand_behind_operators<S: SymbolIndex>(
    index: &S,
    source: Seq<char>,
    token: Seq<char>,
    start: int,
    end: int,
    keyword: bool,
)
    requires
        ending_operator(source.take(start)) is None,
    ensures
        !(query_for(index, source, token, start, end, keyword) matches Some(
            DefinitionQueryView::Method { .. },
        )),
{
}

} // verus!
