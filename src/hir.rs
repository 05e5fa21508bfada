//! The high-level specification model consumed by the lowering passes.
use vstd::prelude::*;

verus! {

/// A reference to a type, as the specification states it.
#[derive(Debug, Clone)]
pub enum TypeRef {
    Integer,
    Number,
    Text,
    Boolean,
    DateTime,
    Model(String),
}

/// A property of a declared model.
#[derive(Debug, Clone)]
pub struct Property {
    pub name: String,
    pub ty: TypeRef,
}

/// A declared model: a name and its ordered properties.
#[derive(Debug, Clone)]
pub struct Model {
    pub name: String,
    pub fields: Vec<Property>,
}

/// A declared operation: a name, its ordered parameters and its return type.
#[derive(Debug, Clone)]
pub struct Operation {
    pub name: String,
    pub params: Vec<Property>,
    pub ret: TypeRef,
}

/// The whole specification.
#[derive(Debug, Clone)]
pub struct Specification {
    pub models: Vec<Model>,
    pub operations: Vec<Operation>,
}

/// Run configuration.
#[derive(Debug, Clone)]
pub struct Config {
    pub dest: String,
    pub build_examples: bool,
}

} // verus!
