//! The document model that the flattener walks.
//!
//! A document is a sequence of definitions: query operations and named
//! fragments. A selection is a field, a fragment spread, or an inline
//! fragment. Argument values, directives, and variable definitions are
//! carried as their already-rendered source text: the flattener only
//! ever splices them verbatim into the standalone queries it builds.

use vstd::prelude::*;

verus! {

/// One `name: value` argument of a field, with the value kept as its
/// rendered source text.
pub struct Argument {
    pub name: String,
    pub value: String,
}

/// A field selection. A field with an empty `selection_set` is a leaf.
pub struct Field {
    pub alias: Option<String>,
    pub name: String,
    pub arguments: Vec<Argument>,
    /// Rendered directive strings, e.g. `@skip(if: $flag)`.
    pub directives: Vec<String>,
    pub selection_set: Vec<Selection>,
}

/// A spread of a named fragment, `...Name`.
pub struct FragmentSpread {
    pub fragment_name: String,
}

/// An inline fragment, `... on Type { ... }` or `... { ... }`.
pub struct InlineFragment {
    /// The type name of the `on <Type>` condition, if present.
    pub type_condition: Option<String>,
    pub directives: Vec<String>,
    pub selection_set: Vec<Selection>,
}

/// One item of a selection set.
pub enum Selection {
    Field(Field),
    FragmentSpread(FragmentSpread),
    InlineFragment(InlineFragment),
}

/// A named fragment definition, `fragment Name on Type { ... }`.
pub struct FragmentDefinition {
    pub name: String,
    /// The type name of the mandatory `on <Type>` condition.
    pub type_condition: String,
    pub directives: Vec<String>,
    pub selection_set: Vec<Selection>,
}

/// A query operation definition.
pub struct Query {
    pub name: Option<String>,
    /// Rendered variable definitions, e.g. `$id: ID!`.
    pub variable_definitions: Vec<String>,
    pub directives: Vec<String>,
    pub selection_set: Vec<Selection>,
}

/// A top-level definition of a document.
pub enum Definition {
    Query(Query),
    Fragment(FragmentDefinition),
}

/// A parsed composite query document.
pub struct Document {
    pub definitions: Vec<Definition>,
}

} // verus!
