//! What is known of the meaning of a document: scopes, bindings and types.

use vstd::prelude::*;
use vstd::string::*;

use crate::php::ProjectSymbolKind;
use crate::provider;

verus! {

/// What sort of type a declared type is, as far as it matters to an inspection.
#[derive(Clone, Copy, Debug, PartialEq, Eq, Structural)]
pub enum TypeForm {
    Unknown,
    Mixed,
    Nullable,
    Other,
}

/// A declared type, and how it is shown.
#[derive(Debug, PartialEq, Eq)]
pub struct DeclaredType {
    pub form: TypeForm,
    pub label: String,
}

/// What a declared type holds.
#[verifier::ext_equal]
pub struct DeclaredTypeView {
    pub form: TypeForm,
    pub label: Seq<char>,
}

impl View for DeclaredType {
    type V = DeclaredTypeView;

    open spec fn view(&self) -> DeclaredTypeView {
        DeclaredTypeView { form: self.form, label: self.label@ }
    }
}

impl Clone for DeclaredType {
    fn clone(&self) -> (r: Self)
        ensures
            r@ == self@,
    {
        DeclaredType { form: self.form, label: self.label.clone() }
    }
}

/// What an optional type holds.
pub open spec fn type_view(declared: Option<DeclaredType>) -> Option<DeclaredTypeView> {
    match declared {
        Some(declared) => Some(declared@),
        None => None,
    }
}

/// A parameter of a callable, by its type.
#[derive(Debug, PartialEq, Eq)]
pub struct SemanticParameter {
    pub declared_type: Option<DeclaredType>,
    pub variadic: bool,
}

/// What a parameter holds.
#[verifier::ext_equal]
pub struct SemanticParameterView {
    pub declared_type: Option<DeclaredTypeView>,
    pub variadic: bool,
}

impl View for SemanticParameter {
    type V = SemanticParameterView;

    open spec fn view(&self) -> SemanticParameterView {
        SemanticParameterView {
            declared_type: type_view(self.declared_type),
            variadic: self.variadic,
        }
    }
}

impl Clone for SemanticParameter {
    fn clone(&self) -> (r: Self)
        ensures
            r@ == self@,
    {
        SemanticParameter {
            declared_type: match &self.declared_type {
                Some(declared) => Some(declared.clone()),
                None => None,
            },
            variadic: self.variadic,
        }
    }
}

/// What a list of parameters holds.
pub open spec fn semantic_parameter_views(parameters: Seq<SemanticParameter>) -> Seq<
    SemanticParameterView,
> {
    parameters.map_values(|p: SemanticParameter| p@)
}

/// A symbol by its meaning: what it is, its parameters as they are written and as they are typed.
#[derive(Debug, PartialEq, Eq)]
pub struct SemanticSymbol {
    pub kind: ProjectSymbolKind,
    pub parameters: Option<String>,
    pub structured_parameters: Vec<SemanticParameter>,
}

/// What a symbol holds.
#[verifier::ext_equal]
pub struct SemanticSymbolView {
    pub kind: ProjectSymbolKind,
    pub parameters: Option<Seq<char>>,
    pub structured_parameters: Seq<SemanticParameterView>,
}

impl View for SemanticSymbol {
    type V = SemanticSymbolView;

    open spec fn view(&self) -> SemanticSymbolView {
        SemanticSymbolView {
            kind: self.kind,
            parameters: provider::optional_text(self.parameters),
            structured_parameters: semantic_parameter_views(self.structured_parameters@),
        }
    }
}

impl Clone for SemanticSymbol {
    fn clone(&self) -> (r: Self)
        ensures
            r@ == self@,
    {
        let mut parameters: Vec<SemanticParameter> = Vec::new();
        let mut i: usize = 0;
        while i < self.structured_parameters.len()
            invariant
                i <= self.structured_parameters@.len(),
                parameters@.len() == i,
                forall|k: int|
                    0 <= k < i ==> (#[trigger] parameters@[k])@ == self.structured_parameters@[k]@,
            decreases self.structured_parameters@.len() - i,
        {
            parameters.push(self.structured_parameters[i].clone());
            i += 1;
        }
        assert(semantic_parameter_views(parameters@) =~= semantic_parameter_views(
            self.structured_parameters@,
        ));
        SemanticSymbol {
            kind: self.kind,
            parameters: provider::clone_optional(&self.parameters),
            structured_parameters: parameters,
        }
    }
}

/// What an optional symbol holds.
pub open spec fn semantic_view(symbol: Option<SemanticSymbol>) -> Option<SemanticSymbolView> {
    match symbol {
        Some(symbol) => Some(symbol@),
        None => None,
    }
}

/// What is known of the meaning of a document, by numbers of scopes and symbols.
pub trait SemanticModel {
    /// The scope at a byte offset.
    spec fn scope_of(&self, offset: usize) -> Option<usize>;

    /// The full name of the class that a name stands for in a scope.
    spec fn class_in(&self, scope: usize, written: Seq<char>) -> Option<Seq<char>>;

    /// The full name of the function that a name stands for in a scope.
    spec fn function_in(&self, scope: usize, written: Seq<char>) -> Option<Seq<char>>;

    /// The constructor of the class of a full name, written as it is, that may be used in a scope.
    spec fn constructor_of(&self, scope: usize, written: Seq<char>, class: Seq<char>) -> Option<
        usize,
    >;

    /// The method of the variable that is bound in a scope.
    spec fn bound_method_of(&self, scope: usize, variable: Seq<char>, name: Seq<char>) -> Option<
        usize,
    >;

    /// Whether a value of a type has a method that may be used in a scope.
    spec fn has_method(&self, scope: usize, receiver: DeclaredTypeView, name: Seq<char>) -> bool;

    /// The symbols of a full name.
    spec fn symbols_of(&self, fqn: Seq<char>) -> Seq<usize>;

    /// The symbol of a number.
    spec fn symbol_of(&self, id: usize) -> Option<SemanticSymbolView>;

    /// The type of the expression that a node of the syntax tree is, in a scope.
    spec fn expression_type(&self, scope: usize, node: usize) -> Option<DeclaredTypeView>;

    /// Whether no value of a type may stand where another is expected.
    spec fn clash(&self, expected: DeclaredTypeView, actual: DeclaredTypeView) -> bool;

    /// The scope at a byte offset.
    fn scope_id_at(&self, offset: usize) -> (r: Option<usize>)
        ensures
            r == self.scope_of(offset),
    ;

    /// The full name of the class that a name stands for in a scope.
    fn resolve_class_name(&self, scope: usize, written: &str) -> (r: Option<String>)
        ensures
            provider::optional_text(r) == self.class_in(scope, written@),
    ;

    /// The full name of the function that a name stands for in a scope.
    fn resolve_function_name(&self, scope: usize, written: &str) -> (r: Option<String>)
        ensures
            provider::optional_text(r) == self.function_in(scope, written@),
    ;

    /// The constructor of a class.
    fn resolve_constructor(&self, scope: usize, written: &str, class: &str) -> (r: Option<usize>)
        ensures
            r == self.constructor_of(scope, written@, class@),
    ;

    /// The method of a bound variable.
    fn resolve_binding_method(&self, scope: usize, variable: &str, name: &str) -> (r: Option<usize>)
        ensures
            r == self.bound_method_of(scope, variable@, name@),
    ;

    /// Whether a value of a type has a method.
    fn resolves_method(&self, scope: usize, receiver: &DeclaredType, name: &str) -> (r: bool)
        ensures
            r == self.has_method(scope, receiver@, name@),
    ;

    /// The symbols of a full name.
    fn symbols_for_fqn(&self, fqn: &str) -> (r: Vec<usize>)
        ensures
            r@ == self.symbols_of(fqn@),
    ;

    /// The symbol of a number.
    fn symbol(&self, id: usize) -> (r: Option<SemanticSymbol>)
        ensures
            semantic_view(r) == self.symbol_of(id),
    ;

    /// The type of an expression.
    fn infer_ast_expression_type(&self, scope: usize, node: usize) -> (r: Option<DeclaredType>)
        ensures
            type_view(r) == self.expression_type(scope, node),
    ;

    /// Whether no value of a type may stand where another is expected.
    fn incompatible(&self, expected: &DeclaredType, actual: &DeclaredType) -> (r: bool)
        ensures
            r == self.clash(expected@, actual@),
    ;
}

} // verus!
