//! Pass three: attribute validation. Walks attributes attached to models,
//! fields, enums and enum values, validating each in isolation against its
//! declared shape, relying only on the results of the two prior passes.
//! Attribute slots stay in their default state when validation fails, and a
//! failing attribute never aborts its siblings.
//!
//! Every table slot is a sum type: `Resolved` carries validated data, while
//! `Absent` marks data missing because an earlier pass failed, so that
//! downstream code cannot mistake the one for the other.

use vstd::prelude::*;
use crate::ast::{Attribute, AttributeArg, Field, Top};
use crate::diagnostics::{
    appended_only, attribute_kind_pred, DatamodelError, DiagnosticKind, Diagnostics, FileId,
};
use crate::files::{FileEntry, Files};
use crate::interner::{StringId, StringInterner};
use crate::names::{
    interner_extends, lemma_names_entry, lemma_names_inv_extend, names_ok, Names, TopKindId,
};
use crate::relations::ReferentialAction;
use crate::types::{entry_decl, top_fields, types_ok, Types};
use vstd::pervasive::unreached;

verus! {

/// Validated model-level attribute data.
#[derive(Debug)]
pub struct ModelAttributes {
    pub mapped_name: Option<StringId>,
    pub primary_key: Option<Vec<usize>>,
    pub indexes: Vec<IndexAttribute>,
}

/// One validated `@@unique` / `@@index` definition: member field indices.
#[derive(Debug)]
pub struct IndexAttribute {
    pub fields: Vec<usize>,
    pub is_unique: bool,
}

/// Validated enum-level attribute data.
#[derive(Debug)]
pub struct EnumAttributes {
    pub mapped_name: Option<StringId>,
    pub value_mapped_names: Vec<Option<StringId>>,
}

/// Validated attribute data of a scalar field.
#[derive(Clone, Copy, PartialEq, Eq, Structural, Debug)]
pub struct ScalarFieldAttributes {
    pub mapped_name: Option<StringId>,
    pub default_value: Option<StringId>,
    pub is_id: bool,
    pub is_unique: bool,
}

/// Validated attribute data of a relation field.
#[derive(Clone, Copy, PartialEq, Eq, Structural, Debug)]
pub struct RelationFieldAttributes {
    pub relation_name: Option<StringId>,
    pub on_delete: Option<ReferentialAction>,
    pub on_update: Option<ReferentialAction>,
}

#[derive(Debug)]
pub enum ModelAttributesSlot {
    Resolved(ModelAttributes),
    Absent,
}

#[derive(Debug)]
pub enum EnumAttributesSlot {
    Resolved(EnumAttributes),
    Absent,
}

#[derive(Clone, Copy, PartialEq, Eq, Structural, Debug)]
pub enum ScalarFieldAttributesSlot {
    Resolved(ScalarFieldAttributes),
    Absent,
}

#[derive(Clone, Copy, PartialEq, Eq, Structural, Debug)]
pub enum RelationFieldAttributesSlot {
    Resolved(RelationFieldAttributes),
    Absent,
}

/// The attribute tables: one slot per model, enum, scalar field and
/// relation field. Always fully sized after the pipeline completes, even
/// when the pass was skipped.
#[derive(Debug)]
pub struct Attributes {
    pub model_attributes: Vec<ModelAttributesSlot>,
    pub enum_attributes: Vec<EnumAttributesSlot>,
    pub scalar_field_attributes: Vec<ScalarFieldAttributesSlot>,
    pub relation_field_attributes: Vec<RelationFieldAttributesSlot>,
}

/// The attribute tables have one slot per id issued by the prior passes.
pub open spec fn attributes_sized(attrs: Attributes, names: Names, types: Types) -> bool {
    &&& attrs.model_attributes@.len() == names.models@.len()
    &&& attrs.enum_attributes@.len() == names.enums@.len()
    &&& attrs.scalar_field_attributes@.len() == types.scalar_fields@.len()
    &&& attrs.relation_field_attributes@.len() == types.relation_fields@.len()
}

/// Every slot is `Absent`: the shape of the tables when an earlier pass
/// failed and validation was skipped.
pub open spec fn attributes_all_absent(attrs: Attributes) -> bool {
    &&& forall|i: int|
        0 <= i < attrs.model_attributes@.len() ==> (#[trigger] attrs.model_attributes@[i])
            is Absent
    &&& forall|i: int|
        0 <= i < attrs.enum_attributes@.len() ==> (#[trigger] attrs.enum_attributes@[i]) is Absent
    &&& forall|i: int|
        0 <= i < attrs.scalar_field_attributes@.len() ==> (
        #[trigger] attrs.scalar_field_attributes@[i]) is Absent
    &&& forall|i: int|
        0 <= i < attrs.relation_field_attributes@.len() ==> (
        #[trigger] attrs.relation_field_attributes@[i]) is Absent
}

/// Every slot is `Resolved`: the shape after a completed validation pass.
pub open spec fn attributes_all_resolved(attrs: Attributes) -> bool {
    &&& forall|i: int|
        0 <= i < attrs.model_attributes@.len() ==> (#[trigger] attrs.model_attributes@[i])
            is Resolved
    &&& forall|i: int|
        0 <= i < attrs.enum_attributes@.len() ==> (#[trigger] attrs.enum_attributes@[i])
            is Resolved
    &&& forall|i: int|
        0 <= i < attrs.scalar_field_attributes@.len() ==> (
        #[trigger] attrs.scalar_field_attributes@[i]) is Resolved
    &&& forall|i: int|
        0 <= i < attrs.relation_field_attributes@.len() ==> (
        #[trigger] attrs.relation_field_attributes@[i]) is Resolved
}

/// The declared attributes of the scalar field with dense id `si`.
pub open spec fn scalar_field_decl_attrs(
    files: Seq<crate::files::FileEntry>,
    names: Names,
    types: Types,
    si: int,
) -> Seq<Attribute> {
    let sf = types.scalar_fields@[si];
    top_fields(entry_decl(files, names.tops@[sf.top as int]))[sf.field_index as int].attributes@
}

/// Whether the scalar field with dense id `si` sits on a model (rather
/// than on a composite type).
pub open spec fn scalar_field_on_model(names: Names, types: Types, si: int) -> bool {
    names.tops@[types.scalar_fields@[si].top as int].kind is Model
}

/// Build fully sized tables whose every slot is `Absent`. Used at the two
/// short-circuit exits so the returned structure is complete in shape.
pub fn create_default_attributes(names: &Names, types: &Types) -> (attrs: Attributes)
    ensures
        attributes_sized(attrs, *names, *types),
        attributes_all_absent(attrs),
{
    let mut model_attributes: Vec<ModelAttributesSlot> = Vec::new();
    while model_attributes.len() < names.models.len()
        invariant
            model_attributes@.len() <= names.models@.len(),
            forall|i: int|
                0 <= i < model_attributes@.len() ==> (#[trigger] model_attributes@[i]) is Absent,
        decreases names.models@.len() - model_attributes@.len(),
    {
        model_attributes.push(ModelAttributesSlot::Absent);
    }
    let mut enum_attributes: Vec<EnumAttributesSlot> = Vec::new();
    while enum_attributes.len() < names.enums.len()
        invariant
            enum_attributes@.len() <= names.enums@.len(),
            forall|i: int|
                0 <= i < enum_attributes@.len() ==> (#[trigger] enum_attributes@[i]) is Absent,
        decreases names.enums@.len() - enum_attributes@.len(),
    {
        enum_attributes.push(EnumAttributesSlot::Absent);
    }
    let mut scalar_field_attributes: Vec<ScalarFieldAttributesSlot> = Vec::new();
    while scalar_field_attributes.len() < types.scalar_fields.len()
        invariant
            scalar_field_attributes@.len() <= types.scalar_fields@.len(),
            forall|i: int|
                0 <= i < scalar_field_attributes@.len() ==> (
                #[trigger] scalar_field_attributes@[i]) is Absent,
        decreases types.scalar_fields@.len() - scalar_field_attributes@.len(),
    {
        scalar_field_attributes.push(ScalarFieldAttributesSlot::Absent);
    }
    let mut relation_field_attributes: Vec<RelationFieldAttributesSlot> = Vec::new();
    while relation_field_attributes.len() < types.relation_fields.len()
        invariant
            relation_field_attributes@.len() <= types.relation_fields@.len(),
            forall|i: int|
                0 <= i < relation_field_attributes@.len() ==> (
                #[trigger] relation_field_attributes@[i]) is Absent,
        decreases types.relation_fields@.len() - relation_field_attributes@.len(),
    {
        relation_field_attributes.push(RelationFieldAttributesSlot::Absent);
    }
    Attributes { model_attributes, enum_attributes, scalar_field_attributes, relation_field_attributes }
}

/// Whether an argument list is exactly one unnamed argument.
fn single_unnamed_arg<'a>(args: &'a Vec<AttributeArg>) -> (r: Option<&'a String>)
    ensures
        r is Some <==> (args@.len() == 1 && args@[0].name is None),
        r matches Some(v) ==> v@ == args@[0].value@,
{
    if args.len() == 1 {
        match &args[0].name {
            None => Some(&args[0].value),
            Some(_) => None,
        }
    } else {
        None
    }
}

/// Parse a referential action name.
fn parse_action(value: &String) -> (r: Option<ReferentialAction>)
{
    if *value == "Cascade".to_owned() {
        Some(ReferentialAction::Cascade)
    } else if *value == "Restrict".to_owned() {
        Some(ReferentialAction::Restrict)
    } else if *value == "NoAction".to_owned() {
        Some(ReferentialAction::NoAction)
    } else if *value == "SetNull".to_owned() {
        Some(ReferentialAction::SetNull)
    } else if *value == "SetDefault".to_owned() {
        Some(ReferentialAction::SetDefault)
    } else {
        None
    }
}

/// Validate the model-level attributes of one model.
#[verifier::rlimit(50)]
fn resolve_model_attributes(
    fid: FileId,
    attrs_ast: &Vec<Attribute>,
    fields: &Vec<Field>,
    interner: &mut StringInterner,
    diagnostics: &mut Diagnostics,
) -> (r: ModelAttributes)
    requires
        old(interner).wf(),
    ensures
        final(interner).wf(),
        interner_extends(old(interner)@, final(interner)@),
        appended_only(old(diagnostics)@, final(diagnostics)@, attribute_kind_pred()),
        mapped_name_matches(
            r.mapped_name,
            final(interner)@,
            first_mapped_name(attrs_ast@, attrs_ast@.len() as int),
        ),
{
    let mut result = ModelAttributes { mapped_name: None, primary_key: None, indexes: Vec::new() };
    let mut ai: usize = 0;
    while ai < attrs_ast.len()
        invariant
            ai <= attrs_ast@.len(),
            interner.wf(),
            interner_extends(old(interner)@, interner@),
            appended_only(old(diagnostics)@, diagnostics@, attribute_kind_pred()),
            mapped_name_matches(
                result.mapped_name,
                interner@,
                first_mapped_name(attrs_ast@, ai as int),
            ),
        decreases attrs_ast@.len() - ai,
    {
        let attr = &attrs_ast[ai];
        if attr.name == "map".to_owned() {
            match single_unnamed_arg(&attr.args) {
                Some(value) => {
                    if result.mapped_name.is_none() {
                        let sid = interner.intern(value);
                        result.mapped_name = Some(sid);
                    } else {
                        diagnostics.push(
                            DatamodelError {
                                file_id: fid,
                                span: attr.span,
                                kind: DiagnosticKind::DuplicateAttribute,
                            },
                        );
                    }
                },
                None => {
                    diagnostics.push(
                        DatamodelError {
                            file_id: fid,
                            span: attr.span,
                            kind: DiagnosticKind::WrongAttributeArgumentCount,
                        },
                    );
                },
            }
        } else if attr.name == "id".to_owned() || attr.name == "unique".to_owned() || attr.name
            == "index".to_owned() {
            let is_id = attr.name == "id".to_owned();
            let is_unique = attr.name == "unique".to_owned();
            if attr.args.len() == 0 {
                diagnostics.push(
                    DatamodelError {
                        file_id: fid,
                        span: attr.span,
                        kind: DiagnosticKind::WrongAttributeArgumentCount,
                    },
                );
            } else {
                // Each argument must name a field of this model.
                let mut member_indices: Vec<usize> = Vec::new();
                let mut all_found = true;
                let mut gi: usize = 0;
                while gi < attr.args.len()
                    invariant
                        gi <= attr.args@.len(),
                        interner.wf(),
                        interner_extends(old(interner)@, interner@),
                        appended_only(old(diagnostics)@, diagnostics@, attribute_kind_pred()),
                        forall|x: int|
                            0 <= x < member_indices@.len() ==> (#[trigger] member_indices@[x])
                                < fields@.len(),
                    decreases attr.args@.len() - gi,
                {
                    let mut found: Option<usize> = None;
                    let mut fi: usize = 0;
                    while fi < fields.len()
                        invariant
                            fi <= fields@.len(),
                            gi < attr.args@.len(),
                            found matches Some(x) ==> x < fields@.len(),
                        decreases fields@.len() - fi,
                    {
                        if fields[fi].name == attr.args[gi].value {
                            if found.is_none() {
                                found = Some(fi);
                            }
                        }
                        fi += 1;
                    }
                    match found {
                        Some(x) => member_indices.push(x),
                        None => {
                            diagnostics.push(
                                DatamodelError {
                                    file_id: fid,
                                    span: attr.span,
                                    kind: DiagnosticKind::InvalidAttributeArgument,
                                },
                            );
                            all_found = false;
                        },
                    }
                    gi += 1;
                }
                if all_found {
                    if is_id {
                        if result.primary_key.is_none() {
                            result.primary_key = Some(member_indices);
                        } else {
                            // A second `@@id` on the same model.
                            diagnostics.push(
                                DatamodelError {
                                    file_id: fid,
                                    span: attr.span,
                                    kind: DiagnosticKind::DuplicateAttribute,
                                },
                            );
                        }
                    } else {
                        result.indexes.push(
                            IndexAttribute { fields: member_indices, is_unique },
                        );
                    }
                }
            }
        } else {
            diagnostics.push(
                DatamodelError {
                    file_id: fid,
                    span: attr.span,
                    kind: DiagnosticKind::UnknownAttribute,
                },
            );
        }
        ai += 1;
    }
    result
}

/// The value of the first well-formed `map` attribute among the first `k`:
/// one with exactly one unnamed argument. The first occurrence stays
/// authoritative; a repeated `map` is reported, never applied, so the
/// result does not depend on attribute order.
pub open spec fn first_mapped_name(attrs: Seq<Attribute>, k: int) -> Option<Seq<char>>
    decreases k,
{
    if k <= 0 {
        None
    } else if first_mapped_name(attrs, k - 1) is Some {
        first_mapped_name(attrs, k - 1)
    } else if attrs[k - 1].name@ == "map"@ && attrs[k - 1].args@.len() == 1 && attrs[
        k - 1
    ].args@[0].name is None {
        Some(attrs[k - 1].args@[0].value@)
    } else {
        None
    }
}

/// The mapped-name slot `r` holds, under interner state `m`, exactly the
/// text `want` asks for.
pub open spec fn mapped_name_matches(
    r: Option<StringId>,
    m: Seq<Seq<char>>,
    want: Option<Seq<char>>,
) -> bool {
    match want {
        None => r is None,
        Some(v) => r matches Some(sid) && sid.0 < m.len() && m[sid.0 as int] == v,
    }
}

/// Some attribute among the first `k` is the bare attribute `name` and it
/// validates: no arguments, and the field sits on a model.
pub open spec fn has_bare_attribute(
    attrs: Seq<Attribute>,
    k: int,
    name: Seq<char>,
    on_model: bool,
) -> bool
    decreases k,
{
    if k <= 0 {
        false
    } else {
        has_bare_attribute(attrs, k - 1, name, on_model) || (attrs[k - 1].name@ == name
            && attrs[k - 1].args@.len() == 0 && on_model)
    }
}

/// Validate the attributes of one scalar field. `on_model` is false for
/// composite-type fields, which admit no `@id` or `@unique`.
#[verifier::rlimit(50)]
fn resolve_scalar_field_attributes(
    fid: FileId,
    field_attrs: &Vec<Attribute>,
    on_model: bool,
    interner: &mut StringInterner,
    diagnostics: &mut Diagnostics,
) -> (r: ScalarFieldAttributes)
    requires
        old(interner).wf(),
    ensures
        final(interner).wf(),
        interner_extends(old(interner)@, final(interner)@),
        appended_only(old(diagnostics)@, final(diagnostics)@, attribute_kind_pred()),
        r.is_id == has_bare_attribute(field_attrs@, field_attrs@.len() as int, "id"@, on_model),
        r.is_unique == has_bare_attribute(
            field_attrs@,
            field_attrs@.len() as int,
            "unique"@,
            on_model,
        ),
        mapped_name_matches(
            r.mapped_name,
            final(interner)@,
            first_mapped_name(field_attrs@, field_attrs@.len() as int),
        ),
{
    let mut result = ScalarFieldAttributes {
        mapped_name: None,
        default_value: None,
        is_id: false,
        is_unique: false,
    };
    let mut ai: usize = 0;
    while ai < field_attrs.len()
        invariant
            ai <= field_attrs@.len(),
            interner.wf(),
            interner_extends(old(interner)@, interner@),
            appended_only(old(diagnostics)@, diagnostics@, attribute_kind_pred()),
            result.is_id == has_bare_attribute(field_attrs@, ai as int, "id"@, on_model),
            result.is_unique == has_bare_attribute(field_attrs@, ai as int, "unique"@, on_model),
            mapped_name_matches(
                result.mapped_name,
                interner@,
                first_mapped_name(field_attrs@, ai as int),
            ),
        decreases field_attrs@.len() - ai,
    {
        proof {
            reveal_strlit("id");
            reveal_strlit("unique");
            reveal_strlit("map");
            reveal_strlit("default");
            reveal_strlit("relation");
            // The known attribute names differ pairwise in length.
            assert("id"@.len() == 2);
            assert("unique"@.len() == 6);
            assert("map"@.len() == 3);
            assert("default"@.len() == 7);
            assert("relation"@.len() == 8);
        }
        let attr = &field_attrs[ai];
        if attr.name == "map".to_owned() {
            match single_unnamed_arg(&attr.args) {
                Some(value) => {
                    if result.mapped_name.is_none() {
                        let sid = interner.intern(value);
                        result.mapped_name = Some(sid);
                    } else {
                        diagnostics.push(
                            DatamodelError {
                                file_id: fid,
                                span: attr.span,
                                kind: DiagnosticKind::DuplicateAttribute,
                            },
                        );
                    }
                },
                None => {
                    diagnostics.push(
                        DatamodelError {
                            file_id: fid,
                            span: attr.span,
                            kind: DiagnosticKind::WrongAttributeArgumentCount,
                        },
                    );
                },
            }
        } else if attr.name == "default".to_owned() {
            match single_unnamed_arg(&attr.args) {
                Some(value) => {
                    if result.default_value.is_none() {
                        let sid = interner.intern(value);
                        result.default_value = Some(sid);
                    } else {
                        diagnostics.push(
                            DatamodelError {
                                file_id: fid,
                                span: attr.span,
                                kind: DiagnosticKind::DuplicateAttribute,
                            },
                        );
                    }
                },
                None => {
                    diagnostics.push(
                        DatamodelError {
                            file_id: fid,
                            span: attr.span,
                            kind: DiagnosticKind::WrongAttributeArgumentCount,
                        },
                    );
                },
            }
        } else if attr.name == "id".to_owned() || attr.name == "unique".to_owned() {
            if !on_model {
                diagnostics.push(
                    DatamodelError {
                        file_id: fid,
                        span: attr.span,
                        kind: DiagnosticKind::InvalidAttributeTarget,
                    },
                );
            } else if attr.args.len() != 0 {
                diagnostics.push(
                    DatamodelError {
                        file_id: fid,
                        span: attr.span,
                        kind: DiagnosticKind::WrongAttributeArgumentCount,
                    },
                );
            } else if attr.name == "id".to_owned() {
                result.is_id = true;
            } else {
                result.is_unique = true;
            }
        } else if attr.name == "relation".to_owned() {
            // `@relation` applies to relation fields only.
            diagnostics.push(
                DatamodelError {
                    file_id: fid,
                    span: attr.span,
                    kind: DiagnosticKind::InvalidAttributeTarget,
                },
            );
        } else {
            diagnostics.push(
                DatamodelError {
                    file_id: fid,
                    span: attr.span,
                    kind: DiagnosticKind::UnknownAttribute,
                },
            );
        }
        proof {
            assert(has_bare_attribute(field_attrs@, ai as int + 1, "id"@, on_model)
                == (has_bare_attribute(field_attrs@, ai as int, "id"@, on_model) || (
                field_attrs@[ai as int].name@ == "id"@ && field_attrs@[ai as int].args@.len() == 0
                    && on_model)));
            assert(has_bare_attribute(field_attrs@, ai as int + 1, "unique"@, on_model)
                == (has_bare_attribute(field_attrs@, ai as int, "unique"@, on_model) || (
                field_attrs@[ai as int].name@ == "unique"@ && field_attrs@[
                    ai as int
                ].args@.len() == 0 && on_model)));
        }
        ai += 1;
    }
    result
}

/// Validate the attributes of one relation field.
#[verifier::rlimit(50)]
fn resolve_relation_field_attributes(
    fid: FileId,
    field_attrs: &Vec<Attribute>,
    interner: &mut StringInterner,
    diagnostics: &mut Diagnostics,
) -> (r: RelationFieldAttributes)
    requires
        old(interner).wf(),
    ensures
        final(interner).wf(),
        interner_extends(old(interner)@, final(interner)@),
        appended_only(old(diagnostics)@, final(diagnostics)@, attribute_kind_pred()),
{
    let mut result = RelationFieldAttributes {
        relation_name: None,
        on_delete: None,
        on_update: None,
    };
    let mut ai: usize = 0;
    while ai < field_attrs.len()
        invariant
            ai <= field_attrs@.len(),
            interner.wf(),
            interner_extends(old(interner)@, interner@),
            appended_only(old(diagnostics)@, diagnostics@, attribute_kind_pred()),
        decreases field_attrs@.len() - ai,
    {
        let attr = &field_attrs[ai];
        if attr.name == "relation".to_owned() {
            let mut gi: usize = 0;
            while gi < attr.args.len()
                invariant
                    gi <= attr.args@.len(),
                    interner.wf(),
                    interner_extends(old(interner)@, interner@),
                    appended_only(old(diagnostics)@, diagnostics@, attribute_kind_pred()),
                decreases attr.args@.len() - gi,
            {
                let arg = &attr.args[gi];
                match &arg.name {
                    None => {
                        let sid = interner.intern(&arg.value);
                        result.relation_name = Some(sid);
                    },
                    Some(arg_name) => {
                        if *arg_name == "onDelete".to_owned() || *arg_name
                            == "onUpdate".to_owned() {
                            match parse_action(&arg.value) {
                                Some(action) => {
                                    if *arg_name == "onDelete".to_owned() {
                                        result.on_delete = Some(action);
                                    } else {
                                        result.on_update = Some(action);
                                    }
                                },
                                None => {
                                    diagnostics.push(
                                        DatamodelError {
                                            file_id: fid,
                                            span: attr.span,
                                            kind: DiagnosticKind::InvalidAttributeArgument,
                                        },
                                    );
                                },
                            }
                        } else {
                            diagnostics.push(
                                DatamodelError {
                                    file_id: fid,
                                    span: attr.span,
                                    kind: DiagnosticKind::InvalidAttributeArgument,
                                },
                            );
                        }
                    },
                }
                gi += 1;
            }
        } else if attr.name == "map".to_owned() || attr.name == "id".to_owned() || attr.name
            == "unique".to_owned() || attr.name == "default".to_owned() {
            diagnostics.push(
                DatamodelError {
                    file_id: fid,
                    span: attr.span,
                    kind: DiagnosticKind::InvalidAttributeTarget,
                },
            );
        } else {
            diagnostics.push(
                DatamodelError {
                    file_id: fid,
                    span: attr.span,
                    kind: DiagnosticKind::UnknownAttribute,
                },
            );
        }
        ai += 1;
    }
    result
}

/// Validate every attribute occurrence, in declaration order: model-level
/// attributes model by model, enum attributes enum by enum, then field
/// attributes field by field. Each attribute is validated independently;
/// the outcome never depends on another attribute's result.
#[verifier::rlimit(100)]
pub fn resolve_attributes(
    files: &Files,
    names: &Names,
    types: &Types,
    interner: &mut StringInterner,
    diagnostics: &mut Diagnostics,
) -> (attrs: Attributes)
    requires
        old(interner).wf(),
        names_ok(*names, files.entries@, old(interner)@),
        types_ok(files.entries@, *names, old(interner)@, *types),
    ensures
        final(interner).wf(),
        interner_extends(old(interner)@, final(interner)@),
        names_ok(*names, files.entries@, final(interner)@),
        attributes_sized(attrs, *names, *types),
        attributes_all_resolved(attrs),
        appended_only(old(diagnostics)@, final(diagnostics)@, attribute_kind_pred()),
        // Each scalar field's validated `@id` / `@unique` flags are fixed by
        // that field's own attribute list alone: the outcome of one
        // attribute never depends on another field's attributes.
        forall|si: int|
            0 <= si < attrs.scalar_field_attributes@.len()
                ==> ((#[trigger] attrs.scalar_field_attributes@[si]) matches
                ScalarFieldAttributesSlot::Resolved(fa) && fa.is_id == has_bare_attribute(
                scalar_field_decl_attrs(files.entries@, *names, *types, si),
                scalar_field_decl_attrs(files.entries@, *names, *types, si).len() as int,
                "id"@,
                scalar_field_on_model(*names, *types, si),
            ) && fa.is_unique == has_bare_attribute(
                scalar_field_decl_attrs(files.entries@, *names, *types, si),
                scalar_field_decl_attrs(files.entries@, *names, *types, si).len() as int,
                "unique"@,
                scalar_field_on_model(*names, *types, si),
            )),
{
    let ghost fs = files.entries@;
    let mut model_attributes: Vec<ModelAttributesSlot> = Vec::new();
    let mut mi: usize = 0;
    while mi < names.models.len()
        invariant
            fs == files.entries@,
            mi <= names.models@.len(),
            model_attributes@.len() == mi,
            interner.wf(),
            interner_extends(old(interner)@, interner@),
            names_ok(*names, fs, interner@),
            appended_only(old(diagnostics)@, diagnostics@, attribute_kind_pred()),
            forall|i: int|
                0 <= i < model_attributes@.len() ==> (#[trigger] model_attributes@[i])
                    is Resolved,
        decreases names.models@.len() - mi,
    {
        let k = names.models[mi];
        proof {
            lemma_names_entry(*names, fs, interner@, k as int);
        }
        let e = names.tops[k];
        let top = &files.entries[e.file.0].source.ast.tops[e.top_index];
        let ghost m0 = interner@;
        match top {
            Top::Model { fields, attributes, .. } => {
                let ma = resolve_model_attributes(e.file, attributes, fields, interner, diagnostics);
                model_attributes.push(ModelAttributesSlot::Resolved(ma));
            },
            _ => unreached(),
        }
        proof {
            lemma_names_inv_extend(*names, fs, m0, interner@, fs.len() as int, 0);
        }
        mi += 1;
    }
    let mut enum_attributes: Vec<EnumAttributesSlot> = Vec::new();
    let mut ei: usize = 0;
    while ei < names.enums.len()
        invariant
            fs == files.entries@,
            ei <= names.enums@.len(),
            enum_attributes@.len() == ei,
            interner.wf(),
            interner_extends(old(interner)@, interner@),
            names_ok(*names, fs, interner@),
            appended_only(old(diagnostics)@, diagnostics@, attribute_kind_pred()),
            forall|i: int|
                0 <= i < enum_attributes@.len() ==> (#[trigger] enum_attributes@[i]) is Resolved,
        decreases names.enums@.len() - ei,
    {
        let k = names.enums[ei];
        proof {
            lemma_names_entry(*names, fs, interner@, k as int);
        }
        let e = names.tops[k];
        let top = &files.entries[e.file.0].source.ast.tops[e.top_index];
        let ghost m0 = interner@;
        match top {
            Top::Enum { values, attributes, .. } => {
                let mut ea = EnumAttributes { mapped_name: None, value_mapped_names: Vec::new() };
                let mut ai: usize = 0;
                while ai < attributes.len()
                    invariant
                        ai <= attributes@.len(),
                        interner.wf(),
                        interner_extends(m0, interner@),
                        appended_only(old(diagnostics)@, diagnostics@, attribute_kind_pred()),
                    decreases attributes@.len() - ai,
                {
                    let attr = &attributes[ai];
                    if attr.name == "map".to_owned() {
                        match single_unnamed_arg(&attr.args) {
                            Some(value) => {
                                if ea.mapped_name.is_none() {
                                    let sid = interner.intern(value);
                                    ea.mapped_name = Some(sid);
                                } else {
                                    diagnostics.push(
                                        DatamodelError {
                                            file_id: e.file,
                                            span: attr.span,
                                            kind: DiagnosticKind::DuplicateAttribute,
                                        },
                                    );
                                }
                            },
                            None => {
                                diagnostics.push(
                                    DatamodelError {
                                        file_id: e.file,
                                        span: attr.span,
                                        kind: DiagnosticKind::WrongAttributeArgumentCount,
                                    },
                                );
                            },
                        }
                    } else {
                        diagnostics.push(
                            DatamodelError {
                                file_id: e.file,
                                span: attr.span,
                                kind: DiagnosticKind::UnknownAttribute,
                            },
                        );
                    }
                    ai += 1;
                }
                let mut vi: usize = 0;
                while vi < values.len()
                    invariant
                        vi <= values@.len(),
                        interner.wf(),
                        interner_extends(m0, interner@),
                        appended_only(old(diagnostics)@, diagnostics@, attribute_kind_pred()),
                    decreases values@.len() - vi,
                {
                    let mut mapped: Option<StringId> = None;
                    let value_attrs = &values[vi].attributes;
                    let mut ai2: usize = 0;
                    while ai2 < value_attrs.len()
                        invariant
                            ai2 <= value_attrs@.len(),
                            interner.wf(),
                            interner_extends(m0, interner@),
                            appended_only(old(diagnostics)@, diagnostics@, attribute_kind_pred()),
                        decreases value_attrs@.len() - ai2,
                    {
                        let attr = &value_attrs[ai2];
                        if attr.name == "map".to_owned() {
                            match single_unnamed_arg(&attr.args) {
                                Some(value) => {
                                    if mapped.is_none() {
                                        let sid = interner.intern(value);
                                        mapped = Some(sid);
                                    } else {
                                        diagnostics.push(
                                            DatamodelError {
                                                file_id: e.file,
                                                span: attr.span,
                                                kind: DiagnosticKind::DuplicateAttribute,
                                            },
                                        );
                                    }
                                },
                                None => {
                                    diagnostics.push(
                                        DatamodelError {
                                            file_id: e.file,
                                            span: attr.span,
                                            kind: DiagnosticKind::WrongAttributeArgumentCount,
                                        },
                                    );
                                },
                            }
                        } else {
                            diagnostics.push(
                                DatamodelError {
                                    file_id: e.file,
                                    span: attr.span,
                                    kind: DiagnosticKind::UnknownAttribute,
                                },
                            );
                        }
                        ai2 += 1;
                    }
                    ea.value_mapped_names.push(mapped);
                    vi += 1;
                }
                enum_attributes.push(EnumAttributesSlot::Resolved(ea));
            },
            _ => unreached(),
        }
        proof {
            lemma_names_inv_extend(*names, fs, m0, interner@, fs.len() as int, 0);
        }
        ei += 1;
    }
    // Scalar fields, in resolution order.
    let mut scalar_field_attributes: Vec<ScalarFieldAttributesSlot> = Vec::new();
    let mut si: usize = 0;
    while si < types.scalar_fields.len()
        invariant
            fs == files.entries@,
            si <= types.scalar_fields@.len(),
            scalar_field_attributes@.len() == si,
            interner.wf(),
            interner_extends(old(interner)@, interner@),
            names_ok(*names, fs, interner@),
            types_ok(fs, *names, old(interner)@, *types),
            appended_only(old(diagnostics)@, diagnostics@, attribute_kind_pred()),
            forall|i: int|
                0 <= i < scalar_field_attributes@.len() ==> ((
                #[trigger] scalar_field_attributes@[i]) matches
                ScalarFieldAttributesSlot::Resolved(fa) && fa.is_id == has_bare_attribute(
                    scalar_field_decl_attrs(fs, *names, *types, i),
                    scalar_field_decl_attrs(fs, *names, *types, i).len() as int,
                    "id"@,
                    scalar_field_on_model(*names, *types, i),
                ) && fa.is_unique == has_bare_attribute(
                    scalar_field_decl_attrs(fs, *names, *types, i),
                    scalar_field_decl_attrs(fs, *names, *types, i).len() as int,
                    "unique"@,
                    scalar_field_on_model(*names, *types, i),
                )),
        decreases types.scalar_fields@.len() - si,
    {
        let sf = types.scalar_fields[si];
        proof {
            lemma_names_entry(*names, fs, interner@, sf.top as int);
        }
        let e = names.tops[sf.top];
        let top = &files.entries[e.file.0].source.ast.tops[e.top_index];
        let ghost m0 = interner@;
        let (flds, on_model) = match top {
            Top::Model { fields, .. } => (fields, true),
            Top::CompositeType { fields, .. } => (fields, false),
            _ => unreached(),
        };
        let fa = resolve_scalar_field_attributes(
            e.file,
            &flds[sf.field_index].attributes,
            on_model,
            interner,
            diagnostics,
        );
        scalar_field_attributes.push(ScalarFieldAttributesSlot::Resolved(fa));
        proof {
            lemma_names_inv_extend(*names, fs, m0, interner@, fs.len() as int, 0);
            assert(flds@ == top_fields(entry_decl(fs, names.tops@[sf.top as int])));
            assert(flds@[sf.field_index as int].attributes@ == scalar_field_decl_attrs(
                fs,
                *names,
                *types,
                si as int,
            ));
            assert(on_model == scalar_field_on_model(*names, *types, si as int));
        }
        si += 1;
    }
    // Relation fields, in resolution order.
    let mut relation_field_attributes: Vec<RelationFieldAttributesSlot> = Vec::new();
    let mut ri: usize = 0;
    while ri < types.relation_fields.len()
        invariant
            fs == files.entries@,
            ri <= types.relation_fields@.len(),
            relation_field_attributes@.len() == ri,
            interner.wf(),
            interner_extends(old(interner)@, interner@),
            names_ok(*names, fs, interner@),
            types_ok(fs, *names, old(interner)@, *types),
            appended_only(old(diagnostics)@, diagnostics@, attribute_kind_pred()),
            forall|i: int|
                0 <= i < relation_field_attributes@.len() ==> (
                #[trigger] relation_field_attributes@[i]) is Resolved,
        decreases types.relation_fields@.len() - ri,
    {
        let rf = types.relation_fields[ri];
        let k = names.models[rf.model.0];
        proof {
            lemma_names_entry(*names, fs, interner@, k as int);
        }
        let e = names.tops[k];
        let top = &files.entries[e.file.0].source.ast.tops[e.top_index];
        let ghost m0 = interner@;
        let flds = match top {
            Top::Model { fields, .. } => fields,
            _ => unreached(),
        };
        let fa = resolve_relation_field_attributes(
            e.file,
            &flds[rf.field_index].attributes,
            interner,
            diagnostics,
        );
        relation_field_attributes.push(RelationFieldAttributesSlot::Resolved(fa));
        proof {
            lemma_names_inv_extend(*names, fs, m0, interner@, fs.len() as int, 0);
        }
        ri += 1;
    }
    Attributes { model_attributes, enum_attributes, scalar_field_attributes, relation_field_attributes }
}

} // verus!
