//! Dense per-kind integer identifiers. Ids are unique within one resolver
//! session, stable for its lifetime, and meaningless outside it: no id
//! survives re-resolving the same text in a new session.

use vstd::prelude::*;

verus! {

/// Id of a model, dense in declaration order across files.
#[derive(Clone, Copy, PartialEq, Eq, Structural, Debug, Hash)]
pub struct ModelId(pub usize);

/// Id of an enum, dense in declaration order across files.
#[derive(Clone, Copy, PartialEq, Eq, Structural, Debug, Hash)]
pub struct EnumId(pub usize);

/// Id of a composite type, dense in declaration order across files.
#[derive(Clone, Copy, PartialEq, Eq, Structural, Debug, Hash)]
pub struct CompositeTypeId(pub usize);

/// Id of a type alias, dense in declaration order across files.
#[derive(Clone, Copy, PartialEq, Eq, Structural, Debug, Hash)]
pub struct AliasId(pub usize);

/// Id of a field resolved to a scalar-shaped type, dense in resolution order.
#[derive(Clone, Copy, PartialEq, Eq, Structural, Debug, Hash)]
pub struct ScalarFieldId(pub usize);

/// Id of a field resolved to a model reference, dense in resolution order.
#[derive(Clone, Copy, PartialEq, Eq, Structural, Debug, Hash)]
pub struct RelationFieldId(pub usize);

} // verus!
