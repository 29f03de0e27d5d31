//! The syntax-tree model the resolver consumes. The concrete grammar and its
//! parser are external collaborators: a caller hands each file over already
//! parsed, as a [`SourceFile`] holding the source text, the tree, and the
//! file-scoped syntax diagnostics the parser produced.

use vstd::prelude::*;
use crate::diagnostics::Span;

verus! {

/// How many values a field holds.
#[derive(Clone, Copy, PartialEq, Eq, Structural, Debug)]
pub enum FieldArity {
    Required,
    Optional,
    List,
}

/// One argument of an attribute: an optional argument name and a raw value.
#[derive(Debug)]
pub struct AttributeArg {
    pub name: Option<String>,
    pub value: String,
}

/// One attribute occurrence, attached to a model, field, enum or enum value.
#[derive(Debug)]
pub struct Attribute {
    pub name: String,
    pub args: Vec<AttributeArg>,
    pub span: Span,
}

/// One field declaration inside a model or composite type.
#[derive(Debug)]
pub struct Field {
    pub name: String,
    pub declared_type: String,
    pub arity: FieldArity,
    pub attributes: Vec<Attribute>,
    pub span: Span,
}

/// One value declaration inside an enum.
#[derive(Debug)]
pub struct EnumValue {
    pub name: String,
    pub attributes: Vec<Attribute>,
    pub span: Span,
}

/// One top-level declaration.
#[derive(Debug)]
pub enum Top {
    Model { name: String, fields: Vec<Field>, attributes: Vec<Attribute>, span: Span },
    Enum { name: String, values: Vec<EnumValue>, attributes: Vec<Attribute>, span: Span },
    CompositeType { name: String, fields: Vec<Field>, span: Span },
    Alias { name: String, target: String, arity: FieldArity, span: Span },
}

/// The syntax tree of one schema file.
#[derive(Debug)]
pub struct SchemaAst {
    pub tops: Vec<Top>,
}

/// One schema file as handed in by the caller: source text, its parsed tree,
/// and the spans of the syntax errors the external parser reported for it.
#[derive(Debug)]
pub struct SourceFile {
    pub text: String,
    pub ast: SchemaAst,
    pub parse_errors: Vec<Span>,
}

/// The declared name of a top-level item.
pub open spec fn top_name(t: Top) -> Seq<char> {
    match t {
        Top::Model { name, .. } => name@,
        Top::Enum { name, .. } => name@,
        Top::CompositeType { name, .. } => name@,
        Top::Alias { name, .. } => name@,
    }
}

/// The source span of a top-level item.
pub open spec fn top_span(t: Top) -> Span {
    match t {
        Top::Model { span, .. } => span,
        Top::Enum { span, .. } => span,
        Top::CompositeType { span, .. } => span,
        Top::Alias { span, .. } => span,
    }
}

/// How many of the first `k` declarations satisfy `p`.
pub open spec fn count_in_tops(tops: Seq<Top>, k: int, p: spec_fn(Top) -> bool) -> int
    decreases k,
{
    if k <= 0 {
        0
    } else {
        count_in_tops(tops, k - 1, p) + if p(tops[k - 1]) {
            1int
        } else {
            0int
        }
    }
}

} // verus!
