//! The symbols that an index of a project, of its packages and of the PHP runtime answers with.

use vstd::prelude::*;
use vstd::string::*;

use crate::php::ProjectSymbolKind;
use crate::php::RuntimeKind;
use crate::provider;
use crate::text;

verus! {

/// A parameter of a callable of the PHP runtime.
#[derive(Debug, PartialEq, Eq)]
pub struct RuntimeParameter {
    pub name: String,
    pub declared_type: Option<String>,
    pub optional: bool,
    pub variadic: bool,
}

/// What a parameter holds.
#[verifier::ext_equal]
pub struct RuntimeParameterView {
    pub name: Seq<char>,
    pub declared_type: Option<Seq<char>>,
    pub optional: bool,
    pub variadic: bool,
}

impl View for RuntimeParameter {
    type V = RuntimeParameterView;

    open spec fn view(&self) -> RuntimeParameterView {
        RuntimeParameterView {
            name: self.name@,
            declared_type: provider::optional_text(self.declared_type),
            optional: self.optional,
            variadic: self.variadic,
        }
    }
}

impl Clone for RuntimeParameter {
    fn clone(&self) -> (r: Self)
        ensures
            r@ == self@,
    {
        RuntimeParameter {
            name: self.name.clone(),
            declared_type: provider::clone_optional(&self.declared_type),
            optional: self.optional,
            variadic: self.variadic,
        }
    }
}

/// What a list of parameters holds.
pub open spec fn parameter_views(parameters: Seq<RuntimeParameter>) -> Seq<RuntimeParameterView> {
    parameters.map_values(|p: RuntimeParameter| p@)
}

fn clone_parameters(parameters: &Vec<RuntimeParameter>) -> (r: Vec<RuntimeParameter>)
    ensures
        parameter_views(r@) == parameter_views(parameters@),
{
    let mut out: Vec<RuntimeParameter> = Vec::new();
    let mut i: usize = 0;
    while i < parameters.len()
        invariant
            i <= parameters@.len(),
            out@.len() == i,
            forall|k: int| 0 <= k < i ==> (#[trigger] out@[k])@ == parameters@[k]@,
        decreases parameters@.len() - i,
    {
        out.push(parameters[i].clone());
        i += 1;
    }
    assert(parameter_views(out@) =~= parameter_views(parameters@));
    out
}

/// What a callable of the PHP runtime takes and gives.
#[derive(Debug, PartialEq, Eq)]
pub struct RuntimeSignature {
    pub parameters: Vec<RuntimeParameter>,
    pub declared_return_type: Option<String>,
    pub phpdoc_return_type: Option<String>,
}

/// What a signature holds.
#[verifier::ext_equal]
pub struct RuntimeSignatureView {
    pub parameters: Seq<RuntimeParameterView>,
    pub declared_return_type: Option<Seq<char>>,
    pub phpdoc_return_type: Option<Seq<char>>,
}

impl View for RuntimeSignature {
    type V = RuntimeSignatureView;

    open spec fn view(&self) -> RuntimeSignatureView {
        RuntimeSignatureView {
            parameters: parameter_views(self.parameters@),
            declared_return_type: provider::optional_text(self.declared_return_type),
            phpdoc_return_type: provider::optional_text(self.phpdoc_return_type),
        }
    }
}

impl Clone for RuntimeSignature {
    fn clone(&self) -> (r: Self)
        ensures
            r@ == self@,
    {
        RuntimeSignature {
            parameters: clone_parameters(&self.parameters),
            declared_return_type: provider::clone_optional(&self.declared_return_type),
            phpdoc_return_type: provider::clone_optional(&self.phpdoc_return_type),
        }
    }
}

/// A symbol of the PHP runtime. Its origin is what is shown of where it comes from; the file and the
/// byte offset in it are where it is declared.
#[derive(Debug, PartialEq, Eq)]
pub struct RuntimeSymbol {
    pub name: String,
    pub fqn: String,
    pub kind: RuntimeKind,
    pub is_static: bool,
    pub signature: Option<RuntimeSignature>,
    pub origin: String,
    pub file: String,
    pub start: usize,
}

/// What a symbol of the runtime holds.
#[verifier::ext_equal]
pub struct RuntimeSymbolView {
    pub name: Seq<char>,
    pub fqn: Seq<char>,
    pub kind: RuntimeKind,
    pub is_static: bool,
    pub signature: Option<RuntimeSignatureView>,
    pub origin: Seq<char>,
    pub file: Seq<char>,
    pub start: usize,
}

impl View for RuntimeSymbol {
    type V = RuntimeSymbolView;

    open spec fn view(&self) -> RuntimeSymbolView {
        RuntimeSymbolView {
            name: self.name@,
            fqn: self.fqn@,
            kind: self.kind,
            is_static: self.is_static,
            signature: match self.signature {
                Some(signature) => Some(signature@),
                None => None,
            },
            origin: self.origin@,
            file: self.file@,
            start: self.start,
        }
    }
}

impl Clone for RuntimeSymbol {
    fn clone(&self) -> (r: Self)
        ensures
            r@ == self@,
    {
        RuntimeSymbol {
            name: self.name.clone(),
            fqn: self.fqn.clone(),
            kind: self.kind,
            is_static: self.is_static,
            signature: match &self.signature {
                Some(signature) => Some(signature.clone()),
                None => None,
            },
            origin: self.origin.clone(),
            file: self.file.clone(),
            start: self.start,
        }
    }
}

/// What a list of runtime symbols holds.
pub open spec fn runtime_views(symbols: Seq<RuntimeSymbol>) -> Seq<RuntimeSymbolView> {
    symbols.map_values(|s: RuntimeSymbol| s@)
}

/// Who may use a member.
#[derive(Clone, Copy, Debug, PartialEq, Eq, Structural)]
pub enum Visibility {
    Public,
    Protected,
    Private,
}

/// A symbol that the project, or one of its packages, declares: in a file, on a range of bytes.
#[derive(Debug, PartialEq, Eq)]
pub struct ProjectSymbol {
    pub name: String,
    pub fully_qualified_name: String,
    pub kind: ProjectSymbolKind,
    pub visibility: Visibility,
    pub modifiers: Vec<String>,
    pub parameters: Option<String>,
    pub return_type: Option<String>,
    pub file: String,
    pub start: usize,
    pub end: usize,
}

/// What a symbol of the project holds.
#[verifier::ext_equal]
pub struct ProjectSymbolView {
    pub name: Seq<char>,
    pub fully_qualified_name: Seq<char>,
    pub kind: ProjectSymbolKind,
    pub visibility: Visibility,
    pub modifiers: Seq<Seq<char>>,
    pub parameters: Option<Seq<char>>,
    pub return_type: Option<Seq<char>>,
    pub file: Seq<char>,
    pub start: usize,
    pub end: usize,
}

impl View for ProjectSymbol {
    type V = ProjectSymbolView;

    open spec fn view(&self) -> ProjectSymbolView {
        ProjectSymbolView {
            name: self.name@,
            fully_qualified_name: self.fully_qualified_name@,
            kind: self.kind,
            visibility: self.visibility,
            modifiers: text::texts(self.modifiers@),
            parameters: provider::optional_text(self.parameters),
            return_type: provider::optional_text(self.return_type),
            file: self.file@,
            start: self.start,
            end: self.end,
        }
    }
}

impl Clone for ProjectSymbol {
    fn clone(&self) -> (r: Self)
        ensures
            r@ == self@,
    {
        ProjectSymbol {
            name: self.name.clone(),
            fully_qualified_name: self.fully_qualified_name.clone(),
            kind: self.kind,
            visibility: self.visibility,
            modifiers: provider::clone_strings(&self.modifiers),
            parameters: provider::clone_optional(&self.parameters),
            return_type: provider::clone_optional(&self.return_type),
            file: self.file.clone(),
            start: self.start,
            end: self.end,
        }
    }
}

/// What a list of project symbols holds.
pub open spec fn project_views(symbols: Seq<ProjectSymbol>) -> Seq<ProjectSymbolView> {
    symbols.map_values(|s: ProjectSymbol| s@)
}

/// Whether a symbol is declared static.
pub open spec fn declared_static(symbol: ProjectSymbolView) -> bool {
    symbol.modifiers.contains("static"@)
}

impl ProjectSymbol {
    /// Whether the symbol is declared static.
    pub fn is_static(&self) -> (r: bool)
        ensures
            r == declared_static(self@),
    {
        let mut i: usize = 0;
        while i < self.modifiers.len()
            invariant
                i <= self.modifiers@.len(),
                forall|k: int| 0 <= k < i ==> (#[trigger] self.modifiers@[k])@ != "static"@,
            decreases self.modifiers@.len() - i,
        {
            if text::eq(&self.modifiers[i], "static") {
                assert(self@.modifiers[i as int] == "static"@);
                return true;
            }
            i += 1;
        }
        proof {
            if self@.modifiers.contains("static"@) {
                let k = choose|k: int|
                    0 <= k < self@.modifiers.len() && self@.modifiers[k] == "static"@;
                assert(self.modifiers@[k]@ == "static"@);
            }
        }
        false
    }
}

/// A type that a package of the project declares.
#[derive(Debug, PartialEq, Eq)]
pub struct VendorType {
    pub short_name: String,
    pub fqn: String,
    pub kind: ProjectSymbolKind,
}

/// What a type of a package holds.
#[verifier::ext_equal]
pub struct VendorTypeView {
    pub short_name: Seq<char>,
    pub fqn: Seq<char>,
    pub kind: ProjectSymbolKind,
}

impl View for VendorType {
    type V = VendorTypeView;

    open spec fn view(&self) -> VendorTypeView {
        VendorTypeView { short_name: self.short_name@, fqn: self.fqn@, kind: self.kind }
    }
}

impl Clone for VendorType {
    fn clone(&self) -> (r: Self)
        ensures
            r@ == self@,
    {
        VendorType {
            short_name: self.short_name.clone(),
            fqn: self.fqn.clone(),
            kind: self.kind,
        }
    }
}

/// What a list of package types holds.
pub open spec fn vendor_views(types: Seq<VendorType>) -> Seq<VendorTypeView> {
    types.map_values(|t: VendorType| t@)
}

/// A variable that is bound in a scope, and the byte offset behind its declaration.
#[derive(Debug, PartialEq, Eq)]
pub struct Binding {
    pub name: String,
    pub declaration_end: usize,
}

/// What a binding holds.
#[verifier::ext_equal]
pub struct BindingView {
    pub name: Seq<char>,
    pub declaration_end: usize,
}

impl View for Binding {
    type V = BindingView;

    open spec fn view(&self) -> BindingView {
        BindingView { name: self.name@, declaration_end: self.declaration_end }
    }
}

impl Clone for Binding {
    fn clone(&self) -> (r: Self)
        ensures
            r@ == self@,
    {
        Binding { name: self.name.clone(), declaration_end: self.declaration_end }
    }
}

/// What a list of bindings holds.
pub open spec fn binding_views(bindings: Seq<Binding>) -> Seq<BindingView> {
    bindings.map_values(|b: Binding| b@)
}

/// Where something is declared: a file and a byte offset in it.
#[derive(Debug, PartialEq, Eq)]
pub struct Place {
    pub file: String,
    pub start: usize,
}

/// What a place holds.
#[verifier::ext_equal]
pub struct PlaceView {
    pub file: Seq<char>,
    pub start: usize,
}

impl View for Place {
    type V = PlaceView;

    open spec fn view(&self) -> PlaceView {
        PlaceView { file: self.file@, start: self.start }
    }
}

impl Clone for Place {
    fn clone(&self) -> (r: Self)
        ensures
            r@ == self@,
    {
        Place { file: self.file.clone(), start: self.start }
    }
}

/// What an optional place holds.
pub open spec fn place_view(place: Option<Place>) -> Option<PlaceView> {
    match place {
        Some(place) => Some(place@),
        None => None,
    }
}

/// An index of symbols. A part of it that is missing or busy answers with nothing.
pub trait SymbolIndex {
    /// The full name of the runtime class of a name.
    spec fn runtime_class_of(&self, name: Seq<char>) -> Option<Seq<char>>;

    /// The full name of the runtime class of a name without its namespace.
    spec fn runtime_class_called(&self, name: Seq<char>) -> Option<Seq<char>>;

    /// The runtime function of a name.
    spec fn runtime_function_of(&self, name: Seq<char>) -> Option<RuntimeSymbolView>;

    /// The methods of a runtime class.
    spec fn runtime_methods_of(&self, class: Seq<char>) -> Seq<RuntimeSymbolView>;

    /// The runtime symbols that a search for a prefix gives.
    spec fn runtime_found(&self, prefix: Seq<char>) -> Seq<RuntimeSymbolView>;

    /// The full name of the class of the project of a name.
    spec fn project_class_of(&self, name: Seq<char>) -> Option<Seq<char>>;

    /// Where the runtime class of a name is declared.
    spec fn runtime_class_at(&self, name: Seq<char>) -> Option<PlaceView>;

    /// Where the runtime class of a name without its namespace is declared.
    spec fn runtime_class_called_at(&self, name: Seq<char>) -> Option<PlaceView>;

    /// Where the class of the project of a name is declared.
    spec fn project_class_at(&self, name: Seq<char>) -> Option<PlaceView>;

    /// Whether the index of the project is there but busy, so that nothing can be told of the
    /// project.
    spec fn project_busy(&self) -> bool;

    /// All symbols of the project.
    spec fn project_all(&self) -> Seq<ProjectSymbolView>;

    /// The methods of a class of the project.
    spec fn project_methods_of(&self, class: Seq<char>) -> Seq<ProjectSymbolView>;

    /// The symbols of the project that a search for a prefix gives.
    spec fn project_found(&self, prefix: Seq<char>) -> Seq<ProjectSymbolView>;

    /// The members of a package's class that are known already.
    spec fn vendor_members_of(&self, class: Seq<char>) -> Seq<ProjectSymbolView>;

    /// The types of packages that a search for a prefix gives.
    spec fn vendor_types_found(&self, prefix: Seq<char>) -> Seq<VendorTypeView>;

    /// The full names of the classes of packages that a search for a prefix gives.
    spec fn vendor_classes_found(&self, prefix: Seq<char>) -> Seq<Seq<char>>;

    /// Whether a package declares a class of a full name.
    spec fn vendor_declares(&self, fqn: Seq<char>) -> bool;

    /// Whether the runtime has a constant of a name.
    spec fn runtime_has_constant(&self, name: Seq<char>) -> bool;

    /// The methods that begin with a prefix, of the variable that an expression names in the scope
    /// at a byte offset; nothing where no such variable is bound.
    spec fn bound_methods(
        &self,
        offset: usize,
        expression: Seq<char>,
        prefix: Seq<char>,
    ) -> Option<Seq<ProjectSymbolView>>;

    /// The variables that are bound in the scope at a byte offset.
    spec fn bound_in(&self, offset: usize) -> Option<Seq<BindingView>>;

    /// The full name of the runtime class of a name.
    fn runtime_class(&self, name: &str) -> (r: Option<String>)
        ensures
            provider::optional_text(r) == self.runtime_class_of(name@),
    ;

    /// The full name of the runtime class of a name without its namespace.
    fn runtime_class_by_short_name(&self, name: &str) -> (r: Option<String>)
        ensures
            provider::optional_text(r) == self.runtime_class_called(name@),
    ;

    /// Whether the index of the project is there but busy.
    fn project_is_busy(&self) -> (r: bool)
        ensures
            r == self.project_busy(),
    ;

    /// The runtime function of a name.
    fn runtime_function(&self, name: &str) -> (r: Option<RuntimeSymbol>)
        ensures
            match r {
                Some(symbol) => self.runtime_function_of(name@) == Some(symbol@),
                None => self.runtime_function_of(name@) is None,
            },
    ;

    /// The methods of a runtime class.
    fn runtime_methods(&self, class: &str) -> (r: Vec<RuntimeSymbol>)
        ensures
            runtime_views(r@) == self.runtime_methods_of(class@),
    ;

    /// The runtime symbols that a search for a prefix gives.
    fn runtime_matches(&self, prefix: &str) -> (r: Vec<RuntimeSymbol>)
        ensures
            runtime_views(r@) == self.runtime_found(prefix@),
    ;

    /// The full name of the class of the project of a name.
    fn project_class(&self, name: &str) -> (r: Option<String>)
        ensures
            provider::optional_text(r) == self.project_class_of(name@),
    ;

    /// Where the runtime class of a name is declared.
    fn runtime_class_place(&self, name: &str) -> (r: Option<Place>)
        ensures
            place_view(r) == self.runtime_class_at(name@),
    ;

    /// Where the runtime class of a name without its namespace is declared.
    fn runtime_class_place_by_short_name(&self, name: &str) -> (r: Option<Place>)
        ensures
            place_view(r) == self.runtime_class_called_at(name@),
    ;

    /// Where the class of the project of a name is declared.
    fn project_class_place(&self, name: &str) -> (r: Option<Place>)
        ensures
            place_view(r) == self.project_class_at(name@),
    ;

    /// All symbols of the project.
    fn project_symbols(&self) -> (r: Vec<ProjectSymbol>)
        ensures
            project_views(r@) == self.project_all(),
    ;

    /// The methods of a class of the project.
    fn project_methods(&self, class: &str) -> (r: Vec<ProjectSymbol>)
        ensures
            project_views(r@) == self.project_methods_of(class@),
    ;

    /// The symbols of the project that a search for a prefix gives.
    fn project_matches(&self, prefix: &str) -> (r: Vec<ProjectSymbol>)
        ensures
            project_views(r@) == self.project_found(prefix@),
    ;

    /// The members of a package's class that are known already.
    fn vendor_members(&self, class: &str) -> (r: Vec<ProjectSymbol>)
        ensures
            project_views(r@) == self.vendor_members_of(class@),
    ;

    /// The types of packages that a search for a prefix gives.
    fn vendor_types(&self, prefix: &str) -> (r: Vec<VendorType>)
        ensures
            vendor_views(r@) == self.vendor_types_found(prefix@),
    ;

    /// The full names of the classes of packages that a search for a prefix gives.
    fn vendor_classes(&self, prefix: &str) -> (r: Vec<String>)
        ensures
            text::texts(r@) == self.vendor_classes_found(prefix@),
    ;

    /// Whether a package declares a class of a full name.
    fn has_class_metadata(&self, fqn: &str) -> (r: bool)
        ensures
            r == self.vendor_declares(fqn@),
    ;

    /// Whether the runtime has a constant of a name.
    fn has_runtime_constant(&self, name: &str) -> (r: bool)
        ensures
            r == self.runtime_has_constant(name@),
    ;

    /// The methods that begin with a prefix, of the variable that an expression names.
    fn binding_methods(&self, offset: usize, expression: &str, prefix: &str) -> (r: Option<
        Vec<ProjectSymbol>,
    >)
        ensures
            match r {
                Some(symbols) => self.bound_methods(offset, expression@, prefix@) == Some(
                    project_views(symbols@),
                ),
                None => self.bound_methods(offset, expression@, prefix@) is None,
            },
    ;

    /// The variables that are bound in the scope at a byte offset.
    fn bindings(&self, offset: usize) -> (r: Option<Vec<Binding>>)
        ensures
            match r {
                Some(bindings) => self.bound_in(offset) == Some(binding_views(bindings@)),
                None => self.bound_in(offset) is None,
            },
    ;
}

} // verus!
