//! The diagnostics sink: an append-only collector of structured errors,
//! each attributable to a file and a source span.

use vstd::prelude::*;

verus! {

/// Index of a schema file within one resolver session, dense from zero.
#[derive(Clone, Copy, PartialEq, Eq, Structural, Debug, Hash)]
pub struct FileId(pub usize);

/// A byte range in a source file.
#[derive(Clone, Copy, PartialEq, Eq, Structural, Debug, Hash)]
pub struct Span {
    pub start: usize,
    pub end: usize,
}

/// What went wrong. The location (file and span) lives on the enclosing
/// [`DatamodelError`]; the kind itself carries no text, so that two runs on
/// identical input produce identical diagnostic values.
#[derive(Clone, Copy, PartialEq, Eq, Structural, Debug)]
pub enum DiagnosticKind {
    /// Reported by the external parser and merged in verbatim.
    SyntaxError,
    /// A top-level item uses a reserved built-in type name.
    ReservedTypeName,
    /// A top-level name already declared earlier (in any file).
    DuplicateTopLevelName,
    /// A field name already declared earlier in the same model or composite type.
    DuplicateFieldName,
    /// An enum value name already declared earlier in the same enum.
    DuplicateEnumValueName,
    /// A type reference that matches no declaration visible from its file.
    UnresolvedTypeReference,
    /// A type alias whose expansion revisits an alias.
    AliasCycle,
    /// An attribute name this resolver does not know.
    UnknownAttribute,
    /// An attribute with the wrong number of arguments.
    WrongAttributeArgumentCount,
    /// An attribute on a target it does not apply to.
    InvalidAttributeTarget,
    /// An attribute argument that does not validate.
    InvalidAttributeArgument,
    /// A repeated attribute on one item; the first occurrence stays.
    DuplicateAttribute,
    /// A relation field with no plausible counterpart field.
    MissingRelationCounterpart,
    /// A relation field with more than one plausible counterpart field.
    AmbiguousRelation,
    /// Both sides of one relation declare referential actions.
    ConflictingReferentialActions,
}

/// One recorded error.
#[derive(Clone, Copy, PartialEq, Eq, Structural, Debug)]
pub struct DatamodelError {
    pub file_id: FileId,
    pub span: Span,
    pub kind: DiagnosticKind,
}

/// True of kinds that only pass zero (parsing) and pass one (name
/// resolution) emit.
pub open spec fn is_name_resolution_kind(k: DiagnosticKind) -> bool {
    ||| k is SyntaxError
    ||| k is ReservedTypeName
    ||| k is DuplicateTopLevelName
    ||| k is DuplicateFieldName
    ||| k is DuplicateEnumValueName
}

/// True of kinds that only pass two (type resolution) emits.
pub open spec fn is_type_resolution_kind(k: DiagnosticKind) -> bool {
    ||| k is UnresolvedTypeReference
    ||| k is AliasCycle
}

/// True of kinds that only pass three (attribute validation) emits.
pub open spec fn is_attribute_kind(k: DiagnosticKind) -> bool {
    ||| k is UnknownAttribute
    ||| k is WrongAttributeArgumentCount
    ||| k is InvalidAttributeTarget
    ||| k is InvalidAttributeArgument
    ||| k is DuplicateAttribute
}

/// True of kinds that only pass four (relation inference) emits.
pub open spec fn is_relation_kind(k: DiagnosticKind) -> bool {
    ||| k is MissingRelationCounterpart
    ||| k is AmbiguousRelation
    ||| k is ConflictingReferentialActions
}



/// The kind predicate of pass two, as a value.
pub open spec fn type_kind_pred() -> spec_fn(DiagnosticKind) -> bool {
    |k: DiagnosticKind| is_type_resolution_kind(k)
}

/// The kind predicate of pass three, as a value.
pub open spec fn attribute_kind_pred() -> spec_fn(DiagnosticKind) -> bool {
    |k: DiagnosticKind| is_attribute_kind(k)
}

/// The kind predicate of pass four, as a value.
pub open spec fn relation_kind_pred() -> spec_fn(DiagnosticKind) -> bool {
    |k: DiagnosticKind| is_relation_kind(k)
}

/// `new` extends `old` by appended entries only, every appended entry's kind
/// satisfying `p`.
pub open spec fn appended_only(
    old: Seq<DatamodelError>,
    new: Seq<DatamodelError>,
    p: spec_fn(DiagnosticKind) -> bool,
) -> bool {
    &&& old.len() <= new.len()
    &&& forall|i: int| 0 <= i < old.len() ==> old[i] == #[trigger] new[i]
    &&& forall|i: int| old.len() <= i < new.len() ==> p((#[trigger] new[i]).kind)
}

/// The append-only error collector shared by every pass. A pass records what
/// it meets and carries on; nothing is ever removed.
#[derive(Debug)]
pub struct Diagnostics {
    errors: Vec<DatamodelError>,
}

impl View for Diagnostics {
    type V = Seq<DatamodelError>;

    closed spec fn view(&self) -> Seq<DatamodelError> {
        self.errors@
    }
}

impl Diagnostics {
    /// An empty sink.
    pub fn new() -> (r: Diagnostics)
        ensures
            r@ == Seq::<DatamodelError>::empty(),
    {
        Diagnostics { errors: Vec::new() }
    }

    /// Record one error.
    pub fn push(&mut self, error: DatamodelError)
        ensures
            final(self)@ == old(self)@.push(error),
    {
        self.errors.push(error);
    }

    /// Whether any error has been recorded so far. This query governs the
    /// pipeline's two short-circuit points.
    pub fn has_errors(&self) -> (r: bool)
        ensures
            r == (self@.len() > 0),
    {
        self.errors.len() > 0
    }

    /// How many errors have been recorded.
    pub fn len(&self) -> (r: usize)
        ensures
            r == self@.len(),
    {
        self.errors.len()
    }

    /// The recorded errors, in the order they were recorded.
    pub fn errors(&self) -> (r: &Vec<DatamodelError>)
        ensures
            r@ == self@,
    {
        &self.errors
    }
}

} // verus!
