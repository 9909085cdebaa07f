//! An index of symbols, and what is known of a document, as plain lists.

use vstd::prelude::*;
use vstd::string::*;

use crate::php::ProjectSymbolKind;
use crate::php::RuntimeKind;
use crate::provider;
use crate::semantic::DeclaredType;
use crate::semantic::DeclaredTypeView;
use crate::semantic::SemanticModel;
use crate::semantic::SemanticSymbol;
use crate::semantic::SemanticSymbolView;
use crate::symbols;
use crate::symbols::Binding;
use crate::symbols::BindingView;
use crate::symbols::Place;
use crate::symbols::PlaceView;
use crate::symbols::ProjectSymbol;
use crate::symbols::ProjectSymbolView;
use crate::symbols::RuntimeSymbol;
use crate::symbols::RuntimeSymbolView;
use crate::symbols::SymbolIndex;
use crate::symbols::VendorType;
use crate::symbols::VendorTypeView;
use crate::text;

verus! {

/// The first entry of a list that passes a test.
pub open spec fn first_entry<T>(entries: Seq<T>, test: spec_fn(T) -> bool) -> Option<T>
    decreases entries.len(),
{
    if entries.len() == 0 {
        None
    } else if test(entries[0]) {
        Some(entries[0])
    } else {
        first_entry(entries.skip(1), test)
    }
}

fn find_entry<'a, T, F: Fn(&T) -> bool>(
    entries: &'a Vec<T>,
    passes: F,
    Ghost(test): Ghost<spec_fn(T) -> bool>,
) -> (r: Option<&'a T>)
    requires
        forall|entry: &T| call_requires(passes, (entry,)),
        forall|entry: &T, b: bool| call_ensures(passes, (entry,), b) ==> b == test(*entry),
    ensures
        match r {
            Some(entry) => first_entry(entries@, test) == Some(*entry),
            None => first_entry(entries@, test) is None,
        },
{
    let mut i: usize = 0;
    assert(entries@.skip(0) =~= entries@);
    while i < entries.len()
        invariant
            i <= entries@.len(),
            forall|entry: &T| call_requires(passes, (entry,)),
            forall|entry: &T, b: bool| call_ensures(passes, (entry,), b) ==> b == test(*entry),
            first_entry(entries@, test) == first_entry(entries@.skip(i as int), test),
        decreases entries@.len() - i,
    {
        if passes(&entries[i]) {
            return Some(&entries[i]);
        }
        assert(entries@.skip(i as int).skip(1) =~= entries@.skip(i + 1));
        i += 1;
    }
    None
}

fn keep_runtime<F: Fn(&RuntimeSymbol) -> bool>(
    entries: &Vec<RuntimeSymbol>,
    passes: F,
    Ghost(test): Ghost<spec_fn(RuntimeSymbol) -> bool>,
) -> (r: Vec<RuntimeSymbol>)
    requires
        forall|entry: &RuntimeSymbol| call_requires(passes, (entry,)),
        forall|entry: &RuntimeSymbol, b: bool|
            call_ensures(passes, (entry,), b) ==> b == test(*entry),
    ensures
        symbols::runtime_views(r@) == symbols::runtime_views(entries@.filter(test)),
{
    let ghost to = |s: RuntimeSymbol| s@;
    let mut kept: Vec<RuntimeSymbol> = Vec::new();
    let mut i: usize = 0;
    proof {
        text::lemma_filter_map_none(entries@, test, to);
        assert(kept@.map_values(to) =~= Seq::empty());
    }
    while i < entries.len()
        invariant
            i <= entries@.len(),
            to == (|s: RuntimeSymbol| s@),
            forall|entry: &RuntimeSymbol| call_requires(passes, (entry,)),
            forall|entry: &RuntimeSymbol, b: bool|
                call_ensures(passes, (entry,), b) ==> b == test(*entry),
            kept@.map_values(to) == entries@.take(i as int).filter(test).map_values(to),
        decreases entries@.len() - i,
    {
        proof {
            text::lemma_filter_map_step(entries@, test, to, i as int);
        }
        if passes(&entries[i]) {
            let ghost before = kept@.map_values(to);
            kept.push(entries[i].clone());
            assert(kept@.map_values(to) =~= before.push(entries@[i as int]@));
        }
        i += 1;
    }
    assert(entries@.take(i as int) =~= entries@);
    kept
}

fn keep_project<F: Fn(&ProjectSymbol) -> bool>(
    entries: &Vec<ProjectSymbol>,
    passes: F,
    Ghost(test): Ghost<spec_fn(ProjectSymbol) -> bool>,
) -> (r: Vec<ProjectSymbol>)
    requires
        forall|entry: &ProjectSymbol| call_requires(passes, (entry,)),
        forall|entry: &ProjectSymbol, b: bool|
            call_ensures(passes, (entry,), b) ==> b == test(*entry),
    ensures
        symbols::project_views(r@) == symbols::project_views(entries@.filter(test)),
{
    let ghost to = |s: ProjectSymbol| s@;
    let mut kept: Vec<ProjectSymbol> = Vec::new();
    let mut i: usize = 0;
    proof {
        text::lemma_filter_map_none(entries@, test, to);
        assert(kept@.map_values(to) =~= Seq::empty());
    }
    while i < entries.len()
        invariant
            i <= entries@.len(),
            to == (|s: ProjectSymbol| s@),
            forall|entry: &ProjectSymbol| call_requires(passes, (entry,)),
            forall|entry: &ProjectSymbol, b: bool|
                call_ensures(passes, (entry,), b) ==> b == test(*entry),
            kept@.map_values(to) == entries@.take(i as int).filter(test).map_values(to),
        decreases entries@.len() - i,
    {
        proof {
            text::lemma_filter_map_step(entries@, test, to, i as int);
        }
        if passes(&entries[i]) {
            let ghost before = kept@.map_values(to);
            kept.push(entries[i].clone());
            assert(kept@.map_values(to) =~= before.push(entries@[i as int]@));
        }
        i += 1;
    }
    assert(entries@.take(i as int) =~= entries@);
    kept
}

/// Whether a runtime symbol is a type.
pub open spec fn runtime_type(kind: RuntimeKind) -> bool {
    kind is Class || kind is Interface || kind is Trait || kind is Enum
}

fn is_runtime_type(kind: RuntimeKind) -> (r: bool)
    ensures
        r == runtime_type(kind),
{
    match kind {
        RuntimeKind::Class | RuntimeKind::Interface | RuntimeKind::Trait | RuntimeKind::Enum => true,
        _ => false,
    }
}

/// Whether a symbol of the project is a type.
pub open spec fn project_type(kind: ProjectSymbolKind) -> bool {
    kind is Class || kind is Interface || kind is Trait || kind is Enum
}

fn is_project_type(kind: ProjectSymbolKind) -> (r: bool)
    ensures
        r == project_type(kind),
{
    match kind {
        ProjectSymbolKind::Class
        | ProjectSymbolKind::Interface
        | ProjectSymbolKind::Trait
        | ProjectSymbolKind::Enum => true,
        _ => false,
    }
}

/// The full name of a member of a class.
pub open spec fn member_name(class: Seq<char>, name: Seq<char>) -> Seq<char> {
    class + "::"@ + name
}

fn is_member(fqn: &str, class: &str, name: &str) -> (r: bool)
    ensures
        r == (fqn@ == member_name(class@, name@)),
{
    let mut full = String::from_str(class);
    full.append("::");
    full.append(name);
    text::eq(fqn, &full)
}

fn has_prefix(name: &str, prefix: &str) -> (r: bool)
    ensures
        r == text::starts_with(name@, prefix@),
{
    text::begins(&text::chars_of(name), prefix)
}

/// A variable of a scope, and the full name of the class of its values where that is known.
#[derive(Debug, PartialEq, Eq)]
pub struct BoundVariable {
    pub binding: Binding,
    pub class: Option<String>,
}

/// The variables that are bound on a range of bytes.
#[derive(Debug, PartialEq, Eq)]
pub struct BindingScope {
    pub start: usize,
    pub end: usize,
    pub variables: Vec<BoundVariable>,
}

/// The bindings of a list of variables.
pub open spec fn variable_bindings(variables: Seq<BoundVariable>) -> Seq<BindingView> {
    variables.map_values(|v: BoundVariable| v.binding@)
}

/// An index as plain lists: each name stands as it is written, a member as its class, `::` and its
/// name, and an inner scope before those around it. A table of a project whose index is busy holds no
/// symbols of the project.
#[derive(Debug, PartialEq, Eq)]
pub struct SymbolTable {
    pub runtime: Vec<RuntimeSymbol>,
    pub project: Vec<ProjectSymbol>,
    pub project_busy: bool,
    pub vendor: Vec<ProjectSymbol>,
    pub vendor_types: Vec<VendorType>,
    pub scopes: Vec<BindingScope>,
}

/// Whether a symbol is the runtime type of a full name.
pub open spec fn runtime_type_of(name: Seq<char>) -> spec_fn(RuntimeSymbol) -> bool {
    |s: RuntimeSymbol| runtime_type(s.kind) && s.fqn@ == name
}

/// Whether a symbol is a runtime type of a name without its namespace.
pub open spec fn runtime_type_called(name: Seq<char>) -> spec_fn(RuntimeSymbol) -> bool {
    |s: RuntimeSymbol| runtime_type(s.kind) && s.name@ == name
}

/// Whether a symbol is a type of the project of a full name.
pub open spec fn project_type_of(name: Seq<char>) -> spec_fn(ProjectSymbol) -> bool {
    |s: ProjectSymbol| project_type(s.kind) && s.fully_qualified_name@ == name
}

/// Whether a symbol is a method of a class.
pub open spec fn method_of(class: Seq<char>) -> spec_fn(ProjectSymbol) -> bool {
    |s: ProjectSymbol| s.kind is Method && s.fully_qualified_name@ == member_name(class, s.name@)
}

/// Whether a symbol is a method of a class that begins with a prefix.
pub open spec fn method_with_prefix(class: Seq<char>, prefix: Seq<char>) -> spec_fn(
    ProjectSymbol,
) -> bool {
    |s: ProjectSymbol|
        s.kind is Method && s.fully_qualified_name@ == member_name(class, s.name@)
            && text::starts_with(s.name@, prefix)
}

/// Whether a scope holds a byte offset.
pub open spec fn scope_at(offset: usize) -> spec_fn(BindingScope) -> bool {
    |s: BindingScope| s.start <= offset < s.end
}

/// Whether a variable of a name has a class.
pub open spec fn classed(name: Seq<char>) -> spec_fn(BoundVariable) -> bool {
    |v: BoundVariable| v.binding.name@ == name && v.class is Some
}

impl SymbolTable {
    /// A table without symbols.
    pub fn new() -> (r: Self)
        ensures
            r.runtime@ == Seq::<RuntimeSymbol>::empty(),
            r.project@ == Seq::<ProjectSymbol>::empty(),
            !r.project_busy,
            r.vendor@ == Seq::<ProjectSymbol>::empty(),
            r.vendor_types@ == Seq::<VendorType>::empty(),
            r.scopes@ == Seq::<BindingScope>::empty(),
    {
        SymbolTable {
            runtime: Vec::new(),
            project: Vec::new(),
            project_busy: false,
            vendor: Vec::new(),
            vendor_types: Vec::new(),
            scopes: Vec::new(),
        }
    }

    fn runtime_type_named(&self, name: &str) -> (r: Option<&RuntimeSymbol>)
        ensures
            match r {
                Some(symbol) => first_entry(self.runtime@, runtime_type_of(name@)) == Some(
                    *symbol,
                ),
                None => first_entry(self.runtime@, runtime_type_of(name@)) is None,
            },
    {
        find_entry(
            &self.runtime,
            |s: &RuntimeSymbol| -> (b: bool)
                ensures
                    b == runtime_type_of(name@)(*s)
                { is_runtime_type(s.kind) && text::eq(&s.fqn, name) },
            Ghost(runtime_type_of(name@)),
        )
    }

    fn runtime_type_with_short_name(&self, name: &str) -> (r: Option<&RuntimeSymbol>)
        ensures
            match r {
                Some(symbol) => first_entry(self.runtime@, runtime_type_called(name@)) == Some(
                    *symbol,
                ),
                None => first_entry(self.runtime@, runtime_type_called(name@)) is None,
            },
    {
        find_entry(
            &self.runtime,
            |s: &RuntimeSymbol| -> (b: bool)
                ensures
                    b == runtime_type_called(name@)(*s)
                { is_runtime_type(s.kind) && text::eq(&s.name, name) },
            Ghost(runtime_type_called(name@)),
        )
    }

    fn project_type_named(&self, name: &str) -> (r: Option<&ProjectSymbol>)
        ensures
            match r {
                Some(symbol) => first_entry(self.project@, project_type_of(name@)) == Some(
                    *symbol,
                ),
                None => first_entry(self.project@, project_type_of(name@)) is None,
            },
    {
        find_entry(
            &self.project,
            |s: &ProjectSymbol| -> (b: bool)
                ensures
                    b == project_type_of(name@)(*s)
                { is_project_type(s.kind) && text::eq(&s.fully_qualified_name, name) },
            Ghost(project_type_of(name@)),
        )
    }
}

impl SymbolIndex for SymbolTable {
    open spec fn runtime_class_of(&self, name: Seq<char>) -> Option<Seq<char>> {
        match first_entry(self.runtime@, runtime_type_of(name)) {
            Some(symbol) => Some(symbol.fqn@),
            None => None,
        }
    }

    open spec fn runtime_class_called(&self, name: Seq<char>) -> Option<Seq<char>> {
        match first_entry(self.runtime@, runtime_type_called(name)) {
            Some(symbol) => Some(symbol.fqn@),
            None => None,
        }
    }

    open spec fn project_busy(&self) -> bool {
        self.project_busy
    }

    open spec fn runtime_function_of(&self, name: Seq<char>) -> Option<RuntimeSymbolView> {
        match first_entry(
            self.runtime@,
            |s: RuntimeSymbol| s.kind is Function && s.fqn@ == name,
        ) {
            Some(symbol) => Some(symbol@),
            None => None,
        }
    }

    open spec fn runtime_methods_of(&self, class: Seq<char>) -> Seq<RuntimeSymbolView> {
        symbols::runtime_views(
            self.runtime@.filter(
                |s: RuntimeSymbol| s.kind is Method && s.fqn@ == member_name(class, s.name@),
            ),
        )
    }

    open spec fn runtime_found(&self, prefix: Seq<char>) -> Seq<RuntimeSymbolView> {
        symbols::runtime_views(
            self.runtime@.filter(|s: RuntimeSymbol| text::starts_with(s.name@, prefix)),
        )
    }

    open spec fn project_class_of(&self, name: Seq<char>) -> Option<Seq<char>> {
        match first_entry(self.project@, project_type_of(name)) {
            Some(symbol) => Some(symbol.fully_qualified_name@),
            None => None,
        }
    }

    open spec fn runtime_class_at(&self, name: Seq<char>) -> Option<PlaceView> {
        match first_entry(self.runtime@, runtime_type_of(name)) {
            Some(symbol) => Some(PlaceView { file: symbol.file@, start: symbol.start }),
            None => None,
        }
    }

    open spec fn runtime_class_called_at(&self, name: Seq<char>) -> Option<PlaceView> {
        match first_entry(self.runtime@, runtime_type_called(name)) {
            Some(symbol) => Some(PlaceView { file: symbol.file@, start: symbol.start }),
            None => None,
        }
    }

    open spec fn project_class_at(&self, name: Seq<char>) -> Option<PlaceView> {
        match first_entry(self.project@, project_type_of(name)) {
            Some(symbol) => Some(PlaceView { file: symbol.file@, start: symbol.start }),
            None => None,
        }
    }

    open spec fn project_all(&self) -> Seq<ProjectSymbolView> {
        symbols::project_views(self.project@)
    }

    open spec fn project_methods_of(&self, class: Seq<char>) -> Seq<ProjectSymbolView> {
        symbols::project_views(self.project@.filter(method_of(class)))
    }

    open spec fn project_found(&self, prefix: Seq<char>) -> Seq<ProjectSymbolView> {
        symbols::project_views(
            self.project@.filter(|s: ProjectSymbol| text::starts_with(s.name@, prefix)),
        )
    }

    open spec fn vendor_members_of(&self, class: Seq<char>) -> Seq<ProjectSymbolView> {
        symbols::project_views(
            self.vendor@.filter(
                |s: ProjectSymbol| s.fully_qualified_name@ == member_name(class, s.name@),
            ),
        )
    }

    open spec fn vendor_types_found(&self, prefix: Seq<char>) -> Seq<VendorTypeView> {
        symbols::vendor_views(
            self.vendor_types@.filter(|t: VendorType| text::starts_with(t.short_name@, prefix)),
        )
    }

    open spec fn vendor_classes_found(&self, prefix: Seq<char>) -> Seq<Seq<char>> {
        self.vendor_types_found(prefix).map_values(|t: VendorTypeView| t.fqn)
    }

    open spec fn vendor_declares(&self, fqn: Seq<char>) -> bool {
        first_entry(self.vendor_types@, |t: VendorType| t.fqn@ == fqn) is Some
    }

    open spec fn runtime_has_constant(&self, name: Seq<char>) -> bool {
        first_entry(
            self.runtime@,
            |s: RuntimeSymbol| s.kind is Constant && s.fqn@ == name,
        ) is Some
    }

    open spec fn bound_methods(
        &self,
        offset: usize,
        expression: Seq<char>,
        prefix: Seq<char>,
    ) -> Option<Seq<ProjectSymbolView>> {
        match first_entry(self.scopes@, scope_at(offset)) {
            Some(scope) => match first_entry(scope.variables@, classed(expression)) {
                Some(variable) => Some(
                    symbols::project_views(
                        self.project@.filter(method_with_prefix((variable.class->0)@, prefix)),
                    ),
                ),
                None => None,
            },
            None => None,
        }
    }

    open spec fn bound_in(&self, offset: usize) -> Option<Seq<BindingView>> {
        match first_entry(self.scopes@, scope_at(offset)) {
            Some(scope) => Some(variable_bindings(scope.variables@)),
            None => None,
        }
    }

    fn runtime_class(&self, name: &str) -> (r: Option<String>) {
        match self.runtime_type_named(name) {
            Some(symbol) => Some(symbol.fqn.clone()),
            None => None,
        }
    }

    fn runtime_class_by_short_name(&self, name: &str) -> (r: Option<String>) {
        match self.runtime_type_with_short_name(name) {
            Some(symbol) => Some(symbol.fqn.clone()),
            None => None,
        }
    }

    fn project_is_busy(&self) -> (r: bool) {
        self.project_busy
    }

    fn runtime_function(&self, name: &str) -> (r: Option<RuntimeSymbol>) {
        let ghost test = |s: RuntimeSymbol| s.kind is Function && s.fqn@ == name@;
        match find_entry(
            &self.runtime,
            |s: &RuntimeSymbol| -> (b: bool)
                ensures
                    b == (s.kind is Function && s.fqn@ == name@)
                { matches!(s.kind, RuntimeKind::Function) && text::eq(&s.fqn, name) },
            Ghost(test),
        ) {
            Some(symbol) => Some(symbol.clone()),
            None => None,
        }
    }

    fn runtime_methods(&self, class: &str) -> (r: Vec<RuntimeSymbol>) {
        let ghost test = |s: RuntimeSymbol|
            s.kind is Method && s.fqn@ == member_name(class@, s.name@);
        keep_runtime(
            &self.runtime,
            |s: &RuntimeSymbol| -> (b: bool)
                ensures
                    b == (s.kind is Method && s.fqn@ == member_name(class@, s.name@))
                { matches!(s.kind, RuntimeKind::Method) && is_member(&s.fqn, class, &s.name) },
            Ghost(test),
        )
    }

    fn runtime_matches(&self, prefix: &str) -> (r: Vec<RuntimeSymbol>) {
        let ghost test = |s: RuntimeSymbol| text::starts_with(s.name@, prefix@);
        keep_runtime(
            &self.runtime,
            |s: &RuntimeSymbol| -> (b: bool)
                ensures
                    b == text::starts_with(s.name@, prefix@)
                { has_prefix(&s.name, prefix) },
            Ghost(test),
        )
    }

    fn project_class(&self, name: &str) -> (r: Option<String>) {
        match self.project_type_named(name) {
            Some(symbol) => Some(symbol.fully_qualified_name.clone()),
            None => None,
        }
    }

    fn runtime_class_place(&self, name: &str) -> (r: Option<Place>) {
        match self.runtime_type_named(name) {
            Some(symbol) => Some(Place { file: symbol.file.clone(), start: symbol.start }),
            None => None,
        }
    }

    fn runtime_class_place_by_short_name(&self, name: &str) -> (r: Option<Place>) {
        match self.runtime_type_with_short_name(name) {
            Some(symbol) => Some(Place { file: symbol.file.clone(), start: symbol.start }),
            None => None,
        }
    }

    fn project_class_place(&self, name: &str) -> (r: Option<Place>) {
        match self.project_type_named(name) {
            Some(symbol) => Some(Place { file: symbol.file.clone(), start: symbol.start }),
            None => None,
        }
    }

    fn project_symbols(&self) -> (r: Vec<ProjectSymbol>) {
        let ghost test = |s: ProjectSymbol| true;
        let all = keep_project(
            &self.project,
            |s: &ProjectSymbol| -> (b: bool)
                ensures
                    b
                { true },
            Ghost(test),
        );
        proof {
            lemma_filter_all(self.project@, test);
        }
        all
    }

    fn project_methods(&self, class: &str) -> (r: Vec<ProjectSymbol>) {
        keep_project(
            &self.project,
            |s: &ProjectSymbol| -> (b: bool)
                ensures
                    b == method_of(class@)(*s)
                {
                    matches!(s.kind, ProjectSymbolKind::Method) && is_member(
                        &s.fully_qualified_name,
                        class,
                        &s.name,
                    )
                },
            Ghost(method_of(class@)),
        )
    }

    fn project_matches(&self, prefix: &str) -> (r: Vec<ProjectSymbol>) {
        let ghost test = |s: ProjectSymbol| text::starts_with(s.name@, prefix@);
        keep_project(
            &self.project,
            |s: &ProjectSymbol| -> (b: bool)
                ensures
                    b == text::starts_with(s.name@, prefix@)
                { has_prefix(&s.name, prefix) },
            Ghost(test),
        )
    }

    fn vendor_members(&self, class: &str) -> (r: Vec<ProjectSymbol>) {
        let ghost test = |s: ProjectSymbol|
            s.fully_qualified_name@ == member_name(class@, s.name@);
        keep_project(
            &self.vendor,
            |s: &ProjectSymbol| -> (b: bool)
                ensures
                    b == (s.fully_qualified_name@ == member_name(class@, s.name@))
                { is_member(&s.fully_qualified_name, class, &s.name) },
            Ghost(test),
        )
    }

    fn vendor_types(&self, prefix: &str) -> (r: Vec<VendorType>) {
        let ghost test = |t: VendorType| text::starts_with(t.short_name@, prefix@);
        let ghost to = |t: VendorType| t@;
        let mut kept: Vec<VendorType> = Vec::new();
        let mut i: usize = 0;
        proof {
            text::lemma_filter_map_none(self.vendor_types@, test, to);
            assert(kept@.map_values(to) =~= Seq::empty());
        }
        while i < self.vendor_types.len()
            invariant
                i <= self.vendor_types@.len(),
                to == (|t: VendorType| t@),
                test == (|t: VendorType| text::starts_with(t.short_name@, prefix@)),
                kept@.map_values(to) == self.vendor_types@.take(i as int).filter(test).map_values(
                    to,
                ),
            decreases self.vendor_types@.len() - i,
        {
            proof {
                text::lemma_filter_map_step(self.vendor_types@, test, to, i as int);
            }
            if has_prefix(&self.vendor_types[i].short_name, prefix) {
                let ghost before = kept@.map_values(to);
                kept.push(self.vendor_types[i].clone());
                assert(kept@.map_values(to) =~= before.push(self.vendor_types@[i as int]@));
            }
            i += 1;
        }
        assert(self.vendor_types@.take(i as int) =~= self.vendor_types@);
        kept
    }

    fn vendor_classes(&self, prefix: &str) -> (r: Vec<String>) {
        let types = self.vendor_types(prefix);
        let mut names: Vec<String> = Vec::new();
        let mut i: usize = 0;
        while i < types.len()
            invariant
                i <= types@.len(),
                names@.len() == i,
                forall|k: int| 0 <= k < i ==> (#[trigger] names@[k])@ == types@[k].fqn@,
            decreases types@.len() - i,
        {
            names.push(types[i].fqn.clone());
            i += 1;
        }
        assert(text::texts(names@) =~= self.vendor_classes_found(prefix@)) by {
            let found = symbols::vendor_views(types@);
            assert forall|k: int| 0 <= k < names@.len() implies text::texts(names@)[k]
                == self.vendor_classes_found(prefix@)[k] by {
                assert(found[k] == types@[k]@);
            }
        }
        names
    }

    fn has_class_metadata(&self, fqn: &str) -> (r: bool) {
        let ghost test = |t: VendorType| t.fqn@ == fqn@;
        find_entry(
            &self.vendor_types,
            |t: &VendorType| -> (b: bool)
                ensures
                    b == (t.fqn@ == fqn@)
                { text::eq(&t.fqn, fqn) },
            Ghost(test),
        ).is_some()
    }

    fn has_runtime_constant(&self, name: &str) -> (r: bool) {
        let ghost test = |s: RuntimeSymbol| s.kind is Constant && s.fqn@ == name@;
        find_entry(
            &self.runtime,
            |s: &RuntimeSymbol| -> (b: bool)
                ensures
                    b == (s.kind is Constant && s.fqn@ == name@)
                { matches!(s.kind, RuntimeKind::Constant) && text::eq(&s.fqn, name) },
            Ghost(test),
        ).is_some()
    }

    fn binding_methods(&self, offset: usize, expression: &str, prefix: &str) -> (r: Option<
        Vec<ProjectSymbol>,
    >) {
        let scope = match find_entry(
            &self.scopes,
            |s: &BindingScope| -> (b: bool)
                ensures
                    b == scope_at(offset)(*s)
                { s.start <= offset && offset < s.end },
            Ghost(scope_at(offset)),
        ) {
            Some(scope) => scope,
            None => {
                return None;
            },
        };
        let variable = match find_entry(
            &scope.variables,
            |v: &BoundVariable| -> (b: bool)
                ensures
                    b == classed(expression@)(*v)
                { text::eq(&v.binding.name, expression) && v.class.is_some() },
            Ghost(classed(expression@)),
        ) {
            Some(variable) => variable,
            None => {
                return None;
            },
        };
        match &variable.class {
            Some(class) => Some(
                keep_project(
                    &self.project,
                    |s: &ProjectSymbol| -> (b: bool)
                        ensures
                            b == method_with_prefix(class@, prefix@)(*s)
                        {
                            matches!(s.kind, ProjectSymbolKind::Method) && is_member(
                                &s.fully_qualified_name,
                                class,
                                &s.name,
                            ) && has_prefix(&s.name, prefix)
                        },
                    Ghost(method_with_prefix(class@, prefix@)),
                ),
            ),
            None => {
                proof {
                    lemma_first_entry(scope.variables@, classed(expression@));
                }
                None
            },
        }
    }

    fn bindings(&self, offset: usize) -> (r: Option<Vec<Binding>>) {
        match find_entry(
            &self.scopes,
            |s: &BindingScope| -> (b: bool)
                ensures
                    b == scope_at(offset)(*s)
                { s.start <= offset && offset < s.end },
            Ghost(scope_at(offset)),
        ) {
            Some(scope) => {
                let mut bindings: Vec<Binding> = Vec::new();
                let mut i: usize = 0;
                while i < scope.variables.len()
                    invariant
                        i <= scope.variables@.len(),
                        bindings@.len() == i,
                        forall|k: int|
                            0 <= k < i ==> (#[trigger] bindings@[k])@
                                == scope.variables@[k].binding@,
                    decreases scope.variables@.len() - i,
                {
                    bindings.push(scope.variables[i].binding.clone());
                    i += 1;
                }
                assert(symbols::binding_views(bindings@) =~= variable_bindings(scope.variables@));
                Some(bindings)
            },
            None => None,
        }
    }
}

/// A scope by its number, on a range of bytes.
#[derive(Debug, PartialEq, Eq)]
pub struct SemanticScope {
    pub id: usize,
    pub start: usize,
    pub end: usize,
}

/// What a name stands for in a scope.
#[derive(Debug, PartialEq, Eq)]
pub struct ScopedName {
    pub scope: usize,
    pub written: String,
    pub fqn: String,
}

/// The symbol of a full name.
#[derive(Debug, PartialEq, Eq)]
pub struct NamedSymbol {
    pub fqn: String,
    pub symbol: usize,
}

/// A method of a variable in a scope.
#[derive(Debug, PartialEq, Eq)]
pub struct BoundMethod {
    pub scope: usize,
    pub variable: String,
    pub name: String,
    pub symbol: usize,
}

/// A method of the values of a type, which is given as it is shown.
#[derive(Debug, PartialEq, Eq)]
pub struct TypeMethod {
    pub receiver: String,
    pub name: String,
}

/// The type of a node of the syntax tree.
#[derive(Debug, PartialEq, Eq)]
pub struct ExpressionType {
    pub node: usize,
    pub declared: DeclaredType,
}

/// Two types, as they are shown, of which the second may not stand for the first.
#[derive(Debug, PartialEq, Eq)]
pub struct TypeClash {
    pub expected: String,
    pub actual: String,
}

/// What is known of a document as plain lists: a symbol is numbered by its place, and an inner scope
/// stands before those around it.
#[derive(Debug, PartialEq, Eq)]
pub struct SemanticTable {
    pub scopes: Vec<SemanticScope>,
    pub classes: Vec<ScopedName>,
    pub functions: Vec<ScopedName>,
    pub constructors: Vec<NamedSymbol>,
    pub bound_methods: Vec<BoundMethod>,
    pub type_methods: Vec<TypeMethod>,
    pub names: Vec<NamedSymbol>,
    pub symbols: Vec<SemanticSymbol>,
    pub types: Vec<ExpressionType>,
    pub clashes: Vec<TypeClash>,
}

/// Whether an entry says what a name stands for in a scope.
pub open spec fn name_in(scope: usize, written: Seq<char>) -> spec_fn(ScopedName) -> bool {
    |n: ScopedName| n.scope == scope && n.written@ == written
}

/// Whether an entry is of a full name.
pub open spec fn named(fqn: Seq<char>) -> spec_fn(NamedSymbol) -> bool {
    |n: NamedSymbol| n.fqn@ == fqn
}

fn scoped_name(names: &Vec<ScopedName>, scope: usize, written: &str) -> (r: Option<String>)
    ensures
        provider::optional_text(r) == match first_entry(names@, name_in(scope, written@)) {
            Some(entry) => Some(entry.fqn@),
            None => None,
        },
{
    match find_entry(
        names,
        |n: &ScopedName| -> (b: bool)
            ensures
                b == name_in(scope, written@)(*n)
            { n.scope == scope && text::eq(&n.written, written) },
        Ghost(name_in(scope, written@)),
    ) {
        Some(entry) => Some(entry.fqn.clone()),
        None => None,
    }
}

impl SemanticTable {
    /// A table that knows nothing.
    pub fn new() -> (r: Self)
        ensures
            r.scopes@ == Seq::<SemanticScope>::empty(),
            r.classes@ == Seq::<ScopedName>::empty(),
            r.functions@ == Seq::<ScopedName>::empty(),
            r.constructors@ == Seq::<NamedSymbol>::empty(),
            r.bound_methods@ == Seq::<BoundMethod>::empty(),
            r.type_methods@ == Seq::<TypeMethod>::empty(),
            r.names@ == Seq::<NamedSymbol>::empty(),
            r.symbols@ == Seq::<SemanticSymbol>::empty(),
            r.types@ == Seq::<ExpressionType>::empty(),
            r.clashes@ == Seq::<TypeClash>::empty(),
    {
        SemanticTable {
            scopes: Vec::new(),
            classes: Vec::new(),
            functions: Vec::new(),
            constructors: Vec::new(),
            bound_methods: Vec::new(),
            type_methods: Vec::new(),
            names: Vec::new(),
            symbols: Vec::new(),
            types: Vec::new(),
            clashes: Vec::new(),
        }
    }
}

impl SemanticModel for SemanticTable {
    open spec fn scope_of(&self, offset: usize) -> Option<usize> {
        match first_entry(self.scopes@, |s: SemanticScope| s.start <= offset < s.end) {
            Some(scope) => Some(scope.id),
            None => None,
        }
    }

    open spec fn class_in(&self, scope: usize, written: Seq<char>) -> Option<Seq<char>> {
        match first_entry(self.classes@, name_in(scope, written)) {
            Some(entry) => Some(entry.fqn@),
            None => None,
        }
    }

    open spec fn function_in(&self, scope: usize, written: Seq<char>) -> Option<Seq<char>> {
        match first_entry(self.functions@, name_in(scope, written)) {
            Some(entry) => Some(entry.fqn@),
            None => None,
        }
    }

    open spec fn constructor_of(&self, scope: usize, written: Seq<char>, class: Seq<char>) -> Option<
        usize,
    > {
        match first_entry(self.constructors@, named(class)) {
            Some(entry) => Some(entry.symbol),
            None => None,
        }
    }

    open spec fn bound_method_of(
        &self,
        scope: usize,
        variable: Seq<char>,
        name: Seq<char>,
    ) -> Option<usize> {
        match first_entry(
            self.bound_methods@,
            |m: BoundMethod| m.scope == scope && m.variable@ == variable && m.name@ == name,
        ) {
            Some(entry) => Some(entry.symbol),
            None => None,
        }
    }

    open spec fn has_method(
        &self,
        scope: usize,
        receiver: DeclaredTypeView,
        name: Seq<char>,
    ) -> bool {
        first_entry(
            self.type_methods@,
            |m: TypeMethod| m.receiver@ == receiver.label && m.name@ == name,
        ) is Some
    }

    open spec fn symbols_of(&self, fqn: Seq<char>) -> Seq<usize> {
        self.names@.filter(named(fqn)).map_values(|n: NamedSymbol| n.symbol)
    }

    open spec fn symbol_of(&self, id: usize) -> Option<SemanticSymbolView> {
        if id < self.symbols@.len() {
            Some(self.symbols@[id as int]@)
        } else {
            None
        }
    }

    open spec fn expression_type(&self, scope: usize, node: usize) -> Option<DeclaredTypeView> {
        match first_entry(self.types@, |t: ExpressionType| t.node == node) {
            Some(entry) => Some(entry.declared@),
            None => None,
        }
    }

    open spec fn clash(&self, expected: DeclaredTypeView, actual: DeclaredTypeView) -> bool {
        first_entry(
            self.clashes@,
            |c: TypeClash| c.expected@ == expected.label && c.actual@ == actual.label,
        ) is Some
    }

    fn scope_id_at(&self, offset: usize) -> (r: Option<usize>) {
        let ghost test = |s: SemanticScope| s.start <= offset < s.end;
        match find_entry(
            &self.scopes,
            |s: &SemanticScope| -> (b: bool)
                ensures
                    b == (s.start <= offset < s.end)
                { s.start <= offset && offset < s.end },
            Ghost(test),
        ) {
            Some(scope) => Some(scope.id),
            None => None,
        }
    }

    fn resolve_class_name(&self, scope: usize, written: &str) -> (r: Option<String>) {
        scoped_name(&self.classes, scope, written)
    }

    fn resolve_function_name(&self, scope: usize, written: &str) -> (r: Option<String>) {
        scoped_name(&self.functions, scope, written)
    }

    fn resolve_constructor(&self, scope: usize, written: &str, class: &str) -> (r: Option<usize>) {
        match find_entry(
            &self.constructors,
            |n: &NamedSymbol| -> (b: bool)
                ensures
                    b == named(class@)(*n)
                { text::eq(&n.fqn, class) },
            Ghost(named(class@)),
        ) {
            Some(entry) => Some(entry.symbol),
            None => None,
        }
    }

    fn resolve_binding_method(&self, scope: usize, variable: &str, name: &str) -> (r: Option<
        usize,
    >) {
        let ghost test = |m: BoundMethod|
            m.scope == scope && m.variable@ == variable@ && m.name@ == name@;
        match find_entry(
            &self.bound_methods,
            |m: &BoundMethod| -> (b: bool)
                ensures
                    b == (m.scope == scope && m.variable@ == variable@ && m.name@ == name@)
                {
                    m.scope == scope && text::eq(&m.variable, variable) && text::eq(&m.name, name)
                },
            Ghost(test),
        ) {
            Some(entry) => Some(entry.symbol),
            None => None,
        }
    }

    fn resolves_method(&self, scope: usize, receiver: &DeclaredType, name: &str) -> (r: bool) {
        let ghost test = |m: TypeMethod| m.receiver@ == receiver@.label && m.name@ == name@;
        find_entry(
            &self.type_methods,
            |m: &TypeMethod| -> (b: bool)
                ensures
                    b == (m.receiver@ == receiver@.label && m.name@ == name@)
                { text::eq(&m.receiver, &receiver.label) && text::eq(&m.name, name) },
            Ghost(test),
        ).is_some()
    }

    fn symbols_for_fqn(&self, fqn: &str) -> (r: Vec<usize>) {
        let ghost to = |n: NamedSymbol| n.symbol;
        let mut kept: Vec<usize> = Vec::new();
        let mut i: usize = 0;
        proof {
            text::lemma_filter_map_none(self.names@, named(fqn@), to);
        }
        while i < self.names.len()
            invariant
                i <= self.names@.len(),
                to == (|n: NamedSymbol| n.symbol),
                kept@ == self.names@.take(i as int).filter(named(fqn@)).map_values(to),
            decreases self.names@.len() - i,
        {
            proof {
                text::lemma_filter_map_step(self.names@, named(fqn@), to, i as int);
            }
            if text::eq(&self.names[i].fqn, fqn) {
                kept.push(self.names[i].symbol);
            }
            i += 1;
        }
        assert(self.names@.take(i as int) =~= self.names@);
        kept
    }

    fn symbol(&self, id: usize) -> (r: Option<SemanticSymbol>) {
        if id < self.symbols.len() {
            Some(self.symbols[id].clone())
        } else {
            None
        }
    }

    fn infer_ast_expression_type(&self, scope: usize, node: usize) -> (r: Option<DeclaredType>) {
        let ghost test = |t: ExpressionType| t.node == node;
        match find_entry(
            &self.types,
            |t: &ExpressionType| -> (b: bool)
                ensures
                    b == (t.node == node)
                { t.node == node },
            Ghost(test),
        ) {
            Some(entry) => Some(entry.declared.clone()),
            None => None,
        }
    }

    fn incompatible(&self, expected: &DeclaredType, actual: &DeclaredType) -> (r: bool) {
        let ghost test = |c: TypeClash|
            c.expected@ == expected@.label && c.actual@ == actual@.label;
        find_entry(
            &self.clashes,
            |c: &TypeClash| -> (b: bool)
                ensures
                    b == (c.expected@ == expected@.label && c.actual@ == actual@.label)
                { text::eq(&c.expected, &expected.label) && text::eq(&c.actual, &actual.label) },
            Ghost(test),
        ).is_some()
    }
}

proof fn lemma_filter_all<T>(entries: Seq<T>, test: spec_fn(T) -> bool)
    requires
        forall|entry: T| #[trigger] test(entry),
    ensures
        entries.filter(test) == entries,
    decreases entries.len(),
{
    reveal(Seq::filter);
    if entries.len() > 0 {
        lemma_filter_all(entries.drop_last(), test);
        assert(entries.drop_last().push(entries.last()) =~= entries);
    }
}

proof fn lemma_first_entry<T>(entries: Seq<T>, test: spec_fn(T) -> bool)
    ensures
        match first_entry(entries, test) {
            Some(entry) => test(entry) && entries.contains(entry),
            None => true,
        },
    decreases entries.len(),
{
    if entries.len() > 0 && !test(entries[0]) {
        let rest = entries.skip(1);
        lemma_first_entry(rest, test);
        match first_entry(rest, test) {
            Some(entry) => {
                let k = choose|k: int| 0 <= k < rest.len() && rest[k] == entry;
                assert(entries[k + 1] == entry);
            },
            None => {},
        }
    }
}

} // verus!
