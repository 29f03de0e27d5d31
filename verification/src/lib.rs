//! A multi-pass schema resolver.
//!
//! [`ParserDatabase`] gathers information about a declarative schema spread
//! over one or more source files. It is connector agnostic: it performs only
//! generic structural and semantic validation, leaving database-specific
//! rules to later stages.
//!
//! Resolution proceeds in four ordered passes over the syntax trees:
//!
//! - names: every named top-level item and member receives a stable id,
//!   duplicate names are reported;
//! - types: every field and type-alias target is resolved to a closed type
//!   descriptor, alias chains are expanded and cycles reported;
//! - attributes: attributes on models, fields, enums and enum values are
//!   validated in isolation;
//! - relations: relation fields are paired into relation records.
//!
//! Passes record diagnostics instead of aborting; if name or type resolution
//! records an error the remaining passes are skipped and replaced by empty
//! defaults, so the returned structure is always complete in shape.

pub mod diagnostics;
pub mod interner;
pub mod ids;
pub mod ast;
pub mod files;
pub mod names;
pub mod types;
pub mod attributes;
pub mod relations;
pub mod walkers;

use vstd::prelude::*;

use crate::ast::SchemaAst;
use crate::ast::SourceFile;
use crate::attributes::attributes_all_absent;
use crate::attributes::attributes_all_resolved;
use crate::attributes::attributes_sized;
use crate::attributes::create_default_attributes;
use crate::attributes::resolve_attributes;
use crate::attributes::Attributes;
use crate::diagnostics::is_attribute_kind;
use crate::diagnostics::is_relation_kind;
use crate::diagnostics::is_type_resolution_kind;
use crate::diagnostics::DatamodelError;
use crate::diagnostics::Diagnostics;
use crate::diagnostics::FileId;
use crate::files::all_syntax_diags;
use crate::files::FileEntry;
use crate::files::Files;
use crate::interner::interner_injective;
use crate::interner::StringId;
use crate::interner::StringInterner;
use crate::files::file_syntax_diags;
use crate::files::lemma_syntax_diags_kinds;
use crate::names::lemma_name_diags_kinds;
use crate::names::enum_count_total;
use crate::names::model_count_total;
use crate::names::name_diags;
use crate::names::names_ok;
use crate::names::resolve_names;
use crate::names::Names;
use crate::diagnostics::DiagnosticKind;
use crate::relations::candidate_count;
use crate::relations::count_kind_in;
use crate::relations::lemma_count_kind_zero;
use crate::relations::unmatched_candidate_count;
use crate::relations::zero_candidate_count;
use crate::relations::mutual_pair;
use crate::relations::infer_relations;
use crate::relations::relation_names_of;
use crate::relations::relation_ok;
use crate::relations::Relations;
use crate::types::entry_fields_count;
use crate::types::alias_expansion;
use crate::types::lemma_alias_expansion_extend;
use crate::types::lemma_types_ok_extend;
use crate::types::lemma_unknown_alias_count_nonneg;
use crate::types::lemma_unknown_scalar_count_nonneg;
use crate::types::relation_field_ok;
use crate::types::unknown_alias_count;
use crate::types::unknown_scalar_count;
use crate::types::resolve_types;
use crate::types::types_ok;
use crate::types::entry_decl;
use crate::types::top_fields;
use crate::types::ScalarFieldType;
use crate::types::Types;
use crate::ast::Field;
use crate::ast::Top;
use crate::ids::EnumId;
use crate::ids::ModelId;
use crate::ids::RelationFieldId;
use crate::ids::ScalarFieldId;
use crate::names::lemma_names_entry;
use crate::relations::Relation;
use crate::relations::RelationId;
use vstd::pervasive::unreached;
use crate::attributes::has_bare_attribute;
use crate::attributes::scalar_field_decl_attrs;
use crate::attributes::scalar_field_on_model;
use crate::attributes::EnumAttributesSlot;
use crate::attributes::ModelAttributesSlot;
use crate::attributes::RelationFieldAttributesSlot;
use crate::attributes::ScalarFieldAttributesSlot;
use crate::types::RelationField;
use crate::types::ScalarField;

verus! {

/// Which point the pipeline reached. The two error variants mark the two
/// short-circuit exits: later passes were skipped and their tables hold
/// empty defaults.
#[derive(Clone, Copy, PartialEq, Eq, Structural, Debug)]
pub enum PipelineOutcome {
    NamesError,
    TypesError,
    Complete,
}

/// A container for the schema syntax trees together with everything the
/// resolution passes gathered about them. Construction cannot fail: on an
/// invalid schema, diagnostics are recorded and the resolved information is
/// incomplete but complete in shape.
pub struct ParserDatabase {
    asts: Files,
    interner: StringInterner,
    names: Names,
    types: Types,
    attributes: Attributes,
    relations: Relations,
    outcome: PipelineOutcome,
}

/// Type tables that are complete in shape but hold no resolved data: the
/// replacement when type resolution was skipped.
fn default_types(names: &Names) -> (types: Types)
    ensures
        types.scalar_fields@.len() == 0,
        types.relation_fields@.len() == 0,
        types.alias_types@.len() == names.aliases@.len(),
        forall|a: int|
            0 <= a < types.alias_types@.len() ==> (#[trigger] types.alias_types@[a]) is Unknown,
{
    let mut alias_types: Vec<ScalarFieldType> = Vec::new();
    while alias_types.len() < names.aliases.len()
        invariant
            alias_types@.len() <= names.aliases@.len(),
            forall|a: int|
                0 <= a < alias_types@.len() ==> (#[trigger] alias_types@[a]) is Unknown,
        decreases names.aliases@.len() - alias_types@.len(),
    {
        alias_types.push(ScalarFieldType::Unknown);
    }
    Types { scalar_fields: Vec::new(), relation_fields: Vec::new(), alias_types }
}

impl ParserDatabase {
    /// The file table, one entry per input file in input order.
    pub closed spec fn files_view(&self) -> Seq<FileEntry> {
        self.asts.entries@
    }

    pub closed spec fn interner_view(&self) -> Seq<Seq<char>> {
        self.interner@
    }

    pub closed spec fn names_view(&self) -> Names {
        self.names
    }

    pub closed spec fn types_view(&self) -> Types {
        self.types
    }

    pub closed spec fn attributes_view(&self) -> Attributes {
        self.attributes
    }

    pub closed spec fn relations_view(&self) -> Relations {
        self.relations
    }

    pub closed spec fn outcome_spec(&self) -> PipelineOutcome {
        self.outcome
    }

    pub closed spec fn models_count_spec(&self) -> int {
        self.attributes.model_attributes@.len() as int
    }

    pub closed spec fn enums_count_spec(&self) -> int {
        self.attributes.enum_attributes@.len() as int
    }

    /// The internal consistency every constructed database has.
    pub closed spec fn wf(&self) -> bool {
        &&& self.interner.wf()
        &&& names_ok(self.names, self.asts.entries@, self.interner@)
        &&& attributes_sized(self.attributes, self.names, self.types)
        &&& self.types.alias_types@.len() == self.names.aliases@.len()
        &&& (!(self.outcome is NamesError) ==> types_ok(
            self.asts.entries@,
            self.names,
            self.interner@,
            self.types,
        ))
        &&& (self.outcome is Complete ==> self.relations.field_relation@.len()
            == self.types.relation_fields@.len())
        &&& (!(self.outcome is Complete) ==> self.relations.relations@.len() == 0
            && self.relations.field_relation@.len() == 0)
        &&& (self.outcome is NamesError ==> self.types.scalar_fields@.len() == 0
            && self.types.relation_fields@.len() == 0)
    }

    /// Resolve a single-file schema under a fixed synthetic path: the same
    /// pipeline as [`ParserDatabase::new`] over the one pair
    /// `("schema.prisma", file)`.
    #[verifier::rlimit(100)]
    pub fn new_single_file(file: SourceFile, diagnostics: &mut Diagnostics) -> (db: ParserDatabase)
        ensures
            db.wf(),
            db.files_view().len() == 1,
            db.files_view()[0].path@ == "schema.prisma"@,
            db.files_view()[0].source == file,
            db.models_count_spec() == model_count_total(db.files_view()),
            db.enums_count_spec() == enum_count_total(db.files_view()),
            names_ok(db.names_view(), db.files_view(), db.interner_view()),
            interner_injective(db.interner_view()),
            attributes_sized(db.attributes_view(), db.names_view(), db.types_view()),
            !(db.outcome_spec() is NamesError) ==> types_ok(
                db.files_view(),
                db.names_view(),
                db.interner_view(),
                db.types_view(),
            ),
            !(db.outcome_spec() is NamesError) ==> forall|x: int|
                0 <= x < db.types_view().alias_types@.len()
                    ==> #[trigger] db.types_view().alias_types@[x] == alias_expansion(
                    db.files_view(),
                    db.names_view(),
                    db.interner_view(),
                    x,
                ),
            db.outcome_spec() is NamesError <==> old(diagnostics)@.len() + file_syntax_diags(
                FileId(0),
                file.parse_errors@,
                file.parse_errors@.len() as int,
            ).len() + name_diags(db.files_view()).len() > 0,
            db.outcome_spec() is NamesError ==> final(diagnostics)@ == old(diagnostics)@
                + file_syntax_diags(FileId(0), file.parse_errors@, file.parse_errors@.len() as int)
                + name_diags(db.files_view()),
            db.outcome_spec() is TypesError ==> final(diagnostics)@.len() > 0 && forall|q: int|
                0 <= q < final(diagnostics)@.len() ==> is_type_resolution_kind(
                    final(diagnostics)@[q].kind,
                ),
            db.outcome_spec() is Complete ==> forall|q: int|
                0 <= q < final(diagnostics)@.len() ==> is_attribute_kind(
                    final(diagnostics)@[q].kind,
                ) || is_relation_kind(final(diagnostics)@[q].kind),
            !(db.outcome_spec() is Complete) ==> attributes_all_absent(db.attributes_view())
                && db.relations_view().relations@.len() == 0,
            db.outcome_spec() is Complete ==> attributes_all_resolved(db.attributes_view()),
    {
        let mut schemas: Vec<(String, SourceFile)> = Vec::new();
        schemas.push(("schema.prisma".to_owned(), file));
        let ghost schemas_g = schemas@;
        let db = Self::new(schemas, diagnostics);
        proof {
            assert(schemas_g.len() == 1);
            assert(schemas_g[0].1 == file);
            assert(schemas_g[0].1.parse_errors@ == file.parse_errors@);
            assert(all_syntax_diags(schemas_g, 0) =~= Seq::<DatamodelError>::empty());
            assert(all_syntax_diags(schemas_g, 1) == all_syntax_diags(schemas_g, 0)
                + file_syntax_diags(
                FileId(0),
                schemas_g[0].1.parse_errors@,
                schemas_g[0].1.parse_errors@.len() as int,
            ));
            assert(all_syntax_diags(schemas_g, 1) =~= file_syntax_diags(
                FileId(0),
                file.parse_errors@,
                file.parse_errors@.len() as int,
            ));
        }
        db
    }

    /// Run the whole pipeline over an ordered list of `(path, file)` pairs.
    ///
    /// The syntax diagnostics of every file are merged first, then pass one
    /// runs; if any error has been recorded at that point the remaining
    /// passes are skipped and the attribute and relation tables stay in
    /// their default state, with not one attribute or relation diagnostic
    /// recorded. The same gate sits after pass two.
    #[verifier::rlimit(100)]
    pub fn new(schemas: Vec<(String, SourceFile)>, diagnostics: &mut Diagnostics) -> (db:
        ParserDatabase)
        ensures
            db.wf(),
            db.files_view().len() == schemas@.len(),
            forall|i: int|
                0 <= i < schemas@.len() ==> (#[trigger] db.files_view()[i]).path == schemas@[i].0
                    && db.files_view()[i].source == schemas@[i].1,
            // Every model and enum declaration is counted, exactly once.
            db.models_count_spec() == model_count_total(db.files_view()),
            db.enums_count_spec() == enum_count_total(db.files_view()),
            // The first gate: pass one recorded an error, or one was already
            // recorded, exactly when parsing or name resolution went wrong.
            db.outcome_spec() is NamesError <==> old(diagnostics)@.len() + all_syntax_diags(
                schemas@,
                schemas@.len() as int,
            ).len() + name_diags(db.files_view()).len() > 0,
            db.outcome_spec() is NamesError ==> final(diagnostics)@ == old(diagnostics)@
                + all_syntax_diags(schemas@, schemas@.len() as int) + name_diags(db.files_view()),
            // The second gate: only type-resolution diagnostics exist.
            db.outcome_spec() is TypesError ==> final(diagnostics)@.len() > 0 && forall|q: int|
                0 <= q < final(diagnostics)@.len() ==> is_type_resolution_kind(
                    final(diagnostics)@[q].kind,
                ),
            // A completed run: passes one and two recorded nothing, and all
            // that can stand in the sink is attribute and relation findings.
            db.outcome_spec() is Complete ==> forall|q: int|
                0 <= q < final(diagnostics)@.len() ==> is_attribute_kind(
                    final(diagnostics)@[q].kind,
                ) || is_relation_kind(final(diagnostics)@[q].kind),
            // Short-circuit defaulting: the tables are present but empty.
            !(db.outcome_spec() is Complete) ==> attributes_all_absent(db.attributes_view())
                && db.relations_view().relations@.len() == 0
                && db.relations_view().field_relation@.len() == 0,
            db.outcome_spec() is Complete ==> attributes_all_resolved(db.attributes_view()),
            // The name tables, exactly as pass one specifies them: every
            // declaration registered at its flat index, counts right, each
            // name resolving to its first occurrence.
            names_ok(db.names_view(), db.files_view(), db.interner_view()),
            interner_injective(db.interner_view()),
            db.names_view().models@.len() == db.models_count_spec(),
            db.names_view().enums@.len() == db.enums_count_spec(),
            // Every id allocated by the passes has a slot, whatever the
            // outcome: the returned structure is complete in shape.
            attributes_sized(db.attributes_view(), db.names_view(), db.types_view()),
            db.types_view().alias_types@.len() == db.names_view().aliases@.len(),
            // The type tables: sound whenever pass two ran (it always
            // finishes its full sweep, recording error variants instead of
            // aborting), defaulted only when name resolution failed.
            !(db.outcome_spec() is NamesError) ==> types_ok(
                db.files_view(),
                db.names_view(),
                db.interner_view(),
                db.types_view(),
            ),
            db.outcome_spec() is NamesError ==> db.types_view().scalar_fields@.len() == 0
                && db.types_view().relation_fields@.len() == 0 && (forall|a: int|
                0 <= a < db.types_view().alias_types@.len()
                    ==> (#[trigger] db.types_view().alias_types@[a]) is Unknown),
            // Whenever pass two ran, every declared field of every model and
            // composite type received exactly one slot, scalar or relation.
            !(db.outcome_spec() is NamesError) ==> db.types_view().scalar_fields@.len()
                + db.types_view().relation_fields@.len() == entry_fields_count(
                db.files_view(),
                db.names_view().tops@,
                db.names_view().tops@.len() as int,
            ),
            // Whenever pass two ran, every alias slot holds exactly what its
            // declared chain expands to: a cyclic alias the error variant,
            // a scalar-ending chain that scalar.
            !(db.outcome_spec() is NamesError) ==> forall|x: int|
                0 <= x < db.types_view().alias_types@.len()
                    ==> #[trigger] db.types_view().alias_types@[x] == alias_expansion(
                    db.files_view(),
                    db.names_view(),
                    db.interner_view(),
                    x,
                ),
            // Pass two records exactly one diagnostic per item that resolved
            // to the error variant: the sink of a type-failed run holds that
            // many, and a completed run's type tables hold no error variant.
            db.outcome_spec() is TypesError ==> final(diagnostics)@.len() == unknown_alias_count(
                db.types_view().alias_types@,
                db.types_view().alias_types@.len() as int,
            ) + unknown_scalar_count(
                db.types_view().scalar_fields@,
                db.types_view().scalar_fields@.len() as int,
            ),
            db.outcome_spec() is Complete ==> unknown_alias_count(
                db.types_view().alias_types@,
                db.types_view().alias_types@.len() as int,
            ) == 0 && unknown_scalar_count(
                db.types_view().scalar_fields@,
                db.types_view().scalar_fields@.len() as int,
            ) == 0,
            // The relation tables, exactly as pass four specifies them.
            db.outcome_spec() is Complete ==> db.relations_view().field_relation@.len()
                == db.types_view().relation_fields@.len() && (forall|x: int|
                0 <= x < db.relations_view().field_relation@.len()
                    ==> (#[trigger] db.relations_view().field_relation@[x]) is Some
                    && (db.relations_view().field_relation@[x]->0).0
                    < db.relations_view().relations@.len()),
            db.outcome_spec() is Complete ==> forall|x: int|
                0 <= x < db.relations_view().relations@.len()
                    ==> (#[trigger] db.relations_view().relations@[x]).id == RelationId(x as usize)
                    && relation_ok(
                    db.names_view(),
                    db.types_view().relation_fields@,
                    relation_names_of(db.attributes_view().relation_field_attributes@),
                    db.relations_view().relations@[x],
                ),
            // A relation field with no plausible counterpart keeps an
            // error-kind placeholder relation.
            db.outcome_spec() is Complete ==> forall|x: int|
                0 <= x < db.relations_view().field_relation@.len() && candidate_count(
                    db.types_view().relation_fields@,
                    relation_names_of(db.attributes_view().relation_field_attributes@),
                    x,
                    db.types_view().relation_fields@.len() as int,
                ) == 0 ==> db.relations_view().relations@[((
                #[trigger] db.relations_view().field_relation@[x])->0).0 as int].kind is Error,
            // On a completed run the sink holds exactly one missing-counterpart
            // diagnostic per field with no plausible counterpart, and exactly
            // one ambiguity diagnostic per field without a mutually unique one.
            db.outcome_spec() is Complete ==> count_kind_in(
                final(diagnostics)@,
                DiagnosticKind::MissingRelationCounterpart,
                final(diagnostics)@.len() as int,
            ) == zero_candidate_count(
                db.types_view().relation_fields@,
                relation_names_of(db.attributes_view().relation_field_attributes@),
                db.types_view().relation_fields@.len() as int,
            ),
            db.outcome_spec() is Complete ==> count_kind_in(
                final(diagnostics)@,
                DiagnosticKind::AmbiguousRelation,
                final(diagnostics)@.len() as int,
            ) == unmatched_candidate_count(
                db.types_view().relation_fields@,
                relation_names_of(db.attributes_view().relation_field_attributes@),
                db.types_view().relation_fields@.len() as int,
            ),
            // A mutually unique counterpart pair always forms one shared,
            // non-error relation.
            db.outcome_spec() is Complete ==> forall|p: int, q: int|
                #[trigger] mutual_pair(
                    db.types_view().relation_fields@,
                    relation_names_of(db.attributes_view().relation_field_attributes@),
                    p,
                    q,
                ) ==> db.relations_view().field_relation@[p]
                    == db.relations_view().field_relation@[q]
                    && db.relations_view().field_relation@[p] is Some
                    && !(db.relations_view().relations@[(db.relations_view().field_relation@[
                    p
                ]->0).0 as int].kind is Error),
            // Each scalar field's validated flags are fixed by its own
            // attribute list alone (attribute-order independent).
            db.outcome_spec() is Complete ==> forall|si: int|
                0 <= si < db.attributes_view().scalar_field_attributes@.len()
                    ==> ((#[trigger] db.attributes_view().scalar_field_attributes@[si]) matches
                    ScalarFieldAttributesSlot::Resolved(fa) && fa.is_id == has_bare_attribute(
                    scalar_field_decl_attrs(db.files_view(), db.names_view(), db.types_view(), si),
                    scalar_field_decl_attrs(
                        db.files_view(),
                        db.names_view(),
                        db.types_view(),
                        si,
                    ).len() as int,
                    "id"@,
                    scalar_field_on_model(db.names_view(), db.types_view(), si),
                ) && fa.is_unique == has_bare_attribute(
                    scalar_field_decl_attrs(db.files_view(), db.names_view(), db.types_view(), si),
                    scalar_field_decl_attrs(
                        db.files_view(),
                        db.names_view(),
                        db.types_view(),
                        si,
                    ).len() as int,
                    "unique"@,
                    scalar_field_on_model(db.names_view(), db.types_view(), si),
                )),
            // Starting from an empty sink, the outcome can be read off the
            // final diagnostics: a run completed exactly when nothing but
            // attribute and relation findings stand in it.
            old(diagnostics)@.len() == 0 ==> ((db.outcome_spec() is Complete) <==> (forall|q: int|
                0 <= q < final(diagnostics)@.len() ==> is_attribute_kind(
                    final(diagnostics)@[q].kind,
                ) || is_relation_kind(final(diagnostics)@[q].kind))),
    {
        let ghost schemas_g = schemas@;
        let asts = Files::new(schemas, diagnostics);
        let mut interner = StringInterner::new();
        let names = resolve_names(&asts, &mut interner, diagnostics);
        // Return early on name resolution errors.
        if diagnostics.has_errors() {
            proof {
                if old(diagnostics)@.len() == 0 {
                    lemma_syntax_diags_kinds(schemas_g, schemas_g.len() as int);
                    lemma_name_diags_kinds(asts.entries@, asts.entries@.len() as int);
                    let syn = all_syntax_diags(schemas_g, schemas_g.len() as int);
                    let nd = name_diags(asts.entries@);
                    assert(diagnostics@ =~= syn + nd);
                    if syn.len() > 0 {
                        assert(diagnostics@[0] == syn[0]);
                    } else {
                        assert(diagnostics@[0] == nd[0]);
                    }
                    assert(!is_attribute_kind(diagnostics@[0].kind) && !is_relation_kind(
                        diagnostics@[0].kind,
                    ));
                }
            }
            let types = default_types(&names);
            let attributes = create_default_attributes(&names, &types);
            return ParserDatabase {
                asts,
                interner,
                names,
                types,
                attributes,
                relations: Relations::new_empty(),
                outcome: PipelineOutcome::NamesError,
            };
        }
        let types = resolve_types(&asts, &names, &mut interner, diagnostics);
        // Return early on type resolution errors. The type tables keep
        // what pass two resolved: failed items already hold the error
        // variant, so the result stays complete in shape.
        if diagnostics.has_errors() {
            proof {
                assert(!is_attribute_kind(diagnostics@[0].kind) && !is_relation_kind(
                    diagnostics@[0].kind,
                ));
            }
            let attributes = create_default_attributes(&names, &types);
            return ParserDatabase {
                asts,
                interner,
                names,
                types,
                attributes,
                relations: Relations::new_empty(),
                outcome: PipelineOutcome::TypesError,
            };
        }
        proof {
            lemma_unknown_alias_count_nonneg(
                types.alias_types@,
                types.alias_types@.len() as int,
            );
            lemma_unknown_scalar_count_nonneg(
                types.scalar_fields@,
                types.scalar_fields@.len() as int,
            );
        }
        let ghost m_types = interner@;
        // Third pass: validate attributes, each in isolation.
        let attributes = resolve_attributes(&asts, &names, &types, &mut interner, diagnostics);
        proof {
            lemma_types_ok_extend(asts.entries@, names, m_types, interner@, types);
            assert forall|x: int|
                0 <= x < types.alias_types@.len() implies #[trigger] types.alias_types@[x]
                    == alias_expansion(asts.entries@, names, interner@, x) by {
                lemma_alias_expansion_extend(names, asts.entries@, m_types, interner@, x);
            }
        }
        proof {
            assert forall|x: int| 0 <= x < types.relation_fields@.len() implies (
            #[trigger] types.relation_fields@[x]).model.0 < names.models@.len()
                && types.relation_fields@[x].referenced_model.0 < names.models@.len() by {
                assert(relation_field_ok(
                    asts.entries@,
                    names,
                    interner@,
                    types.relation_fields@[x],
                ));
            }
        }
        // Fourth pass: relation inference.
        proof {
            lemma_count_kind_zero(
                diagnostics@,
                DiagnosticKind::MissingRelationCounterpart,
                diagnostics@.len() as int,
            );
            lemma_count_kind_zero(
                diagnostics@,
                DiagnosticKind::AmbiguousRelation,
                diagnostics@.len() as int,
            );
        }
        let relations = infer_relations(&names, &types, &attributes, diagnostics);
        ParserDatabase {
            asts,
            interner,
            names,
            types,
            attributes,
            relations,
            outcome: PipelineOutcome::Complete,
        }
    }

    /// The parsed syntax tree, asserting that exactly one file is present.
    /// Calling this on a multi-file schema is a programming error, excluded
    /// by precondition.
    pub fn ast_assert_single(&self) -> (r: &SchemaAst)
        requires
            self.files_view().len() == 1,
        ensures
            *r == self.files_view()[0].source.ast,
    {
        &self.asts.entries[0].source.ast
    }

    /// All parsed syntax trees, in input order.
    pub fn iter_asts(&self) -> (r: Vec<&SchemaAst>)
        ensures
            r@.len() == self.files_view().len(),
            forall|i: int|
                0 <= i < r@.len() ==> *(#[trigger] r@[i]) == self.files_view()[i].source.ast,
    {
        let mut out: Vec<&SchemaAst> = Vec::new();
        let mut i: usize = 0;
        while i < self.asts.entries.len()
            invariant
                i <= self.files_view().len(),
                out@.len() == i,
                forall|q: int|
                    0 <= q < out@.len() ==> *(#[trigger] out@[q]) == self.files_view()[
                        q
                    ].source.ast,
            decreases self.files_view().len() - i,
        {
            out.push(&self.asts.entries[i].source.ast);
            i += 1;
        }
        out
    }

    /// One parsed syntax tree.
    pub fn ast(&self, file_id: FileId) -> (r: &SchemaAst)
        requires
            file_id.0 < self.files_view().len(),
        ensures
            *r == self.files_view()[file_id.0 as int].source.ast,
    {
        &self.asts.entries[file_id.0].source.ast
    }

    /// The total number of enums in the schema. This is O(1).
    pub fn enums_count(&self) -> (r: usize)
        ensures
            r == self.enums_count_spec(),
    {
        self.attributes.enum_attributes.len()
    }

    /// The total number of models in the schema. This is O(1).
    pub fn models_count(&self) -> (r: usize)
        ensures
            r == self.models_count_spec(),
    {
        self.attributes.model_attributes.len()
    }

    /// The source text, asserting that exactly one file is present. Calling
    /// this on a multi-file schema is a programming error, excluded by
    /// precondition.
    pub fn source_assert_single(&self) -> (r: &str)
        requires
            self.files_view().len() == 1,
        ensures
            r@ == self.files_view()[0].source.text@,
    {
        self.asts.entries[0].source.text.as_str()
    }

    /// The source text of one file.
    pub fn source(&self, file_id: FileId) -> (r: &str)
        requires
            file_id.0 < self.files_view().len(),
        ensures
            r@ == self.files_view()[file_id.0 as int].source.text@,
    {
        self.asts.entries[file_id.0].source.text.as_str()
    }

    /// The path of one file.
    pub fn file_path(&self, file_id: FileId) -> (r: &String)
        requires
            file_id.0 < self.files_view().len(),
        ensures
            r@ == self.files_view()[file_id.0 as int].path@,
    {
        &self.asts.entries[file_id.0].path
    }

    /// How many files the schema spans.
    pub fn files_count(&self) -> (r: usize)
        ensures
            r == self.files_view().len(),
    {
        self.asts.entries.len()
    }

    /// Which point the pipeline reached.
    pub fn outcome(&self) -> (r: PipelineOutcome)
        ensures
            r == self.outcome_spec(),
    {
        self.outcome
    }

    /// The interned text behind an id, or `None` for a foreign id. An
    /// escape hatch for internal consumers of this library only.
    pub fn interned_str(&self, id: StringId) -> (r: Option<&String>)
        ensures
            r is Some <==> id.0 < self.interner_view().len(),
            r matches Some(s) ==> s@ == self.interner_view()[id.0 as int],
    {
        self.interner.get(id)
    }

    /// How many models the name tables hold.
    pub fn names_view_models_len(&self) -> (r: usize)
        ensures
            r == self.names_view().models@.len(),
    {
        self.names.models.len()
    }

    /// The declared name of a model.
    pub fn model_name(&self, id: ModelId) -> (r: &String)
        requires
            self.wf(),
            id.0 < self.names_view().models@.len(),
        ensures
            r@ == self.interner_view()[self.names_view().tops@[self.names_view().models@[
                id.0 as int
            ] as int].name.0 as int],
    {
        let k = self.names.models[id.0];
        proof {
            assert(self.names.models@[id.0 as int] < self.names.tops@.len());
            lemma_names_entry(self.names, self.asts.entries@, self.interner@, k as int);
        }
        let e = self.names.tops[k];
        self.interner.resolve(e.name)
    }

    /// The fields of a model, in declaration order.
    pub fn model_fields(&self, id: ModelId) -> (r: &Vec<Field>)
        requires
            self.wf(),
            id.0 < self.names_view().models@.len(),
        ensures
            r@ == top_fields(
                entry_decl(
                    self.files_view(),
                    self.names_view().tops@[self.names_view().models@[id.0 as int] as int],
                ),
            ),
    {
        let k = self.names.models[id.0];
        proof {
            assert(self.names.models@[id.0 as int] < self.names.tops@.len());
            lemma_names_entry(self.names, self.asts.entries@, self.interner@, k as int);
        }
        let e = self.names.tops[k];
        let top = &self.asts.entries[e.file.0].source.ast.tops[e.top_index];
        match top {
            Top::Model { fields, .. } => fields,
            _ => unreached(),
        }
    }

    /// The declared name of an enum.
    pub fn enum_name(&self, id: EnumId) -> (r: &String)
        requires
            self.wf(),
            id.0 < self.names_view().enums@.len(),
        ensures
            r@ == self.interner_view()[self.names_view().tops@[self.names_view().enums@[
                id.0 as int
            ] as int].name.0 as int],
    {
        let k = self.names.enums[id.0];
        proof {
            assert(self.names.enums@[id.0 as int] < self.names.tops@.len());
            lemma_names_entry(self.names, self.asts.entries@, self.interner@, k as int);
        }
        let e = self.names.tops[k];
        self.interner.resolve(e.name)
    }

    /// How many enums the name tables hold.
    pub fn names_view_enums_len(&self) -> (r: usize)
        ensures
            r == self.names_view().enums@.len(),
    {
        self.names.enums.len()
    }

    /// A fixed, opaque description of the container. Its contents are
    /// reached through the accessors and walkers, never printed.
    pub fn describe(&self) -> (r: String)
        ensures
            r@ == "ParserDatabase { ... }"@,
    {
        "ParserDatabase { ... }".to_owned()
    }

    /// The relation a relation field participates in: `Some` for every
    /// field once inference ran, `None` only when it was skipped.
    pub fn field_relation(&self, id: RelationFieldId) -> (r: Option<RelationId>)
        requires
            id.0 < self.relations_view().field_relation@.len(),
        ensures
            r == self.relations_view().field_relation@[id.0 as int],
    {
        self.relations.field_relation[id.0]
    }

    /// One inferred relation record.
    pub fn relation(&self, id: RelationId) -> (r: &Relation)
        requires
            id.0 < self.relations_view().relations@.len(),
        ensures
            *r == self.relations_view().relations@[id.0 as int],
    {
        &self.relations.relations[id.0]
    }

    /// How many fields resolved to scalar-shaped types.
    pub fn scalar_fields_count(&self) -> (r: usize)
        ensures
            r == self.types_view().scalar_fields@.len(),
    {
        self.types.scalar_fields.len()
    }

    /// How many fields resolved to model references.
    pub fn relation_fields_count(&self) -> (r: usize)
        ensures
            r == self.types_view().relation_fields@.len(),
    {
        self.types.relation_fields.len()
    }

    /// One resolved scalar field, by its dense id.
    pub fn scalar_field(&self, id: ScalarFieldId) -> (r: ScalarField)
        requires
            id.0 < self.types_view().scalar_fields@.len(),
        ensures
            r == self.types_view().scalar_fields@[id.0 as int],
    {
        self.types.scalar_fields[id.0]
    }

    /// One resolved relation field, by its dense id.
    pub fn relation_field(&self, id: RelationFieldId) -> (r: RelationField)
        requires
            id.0 < self.types_view().relation_fields@.len(),
        ensures
            r == self.types_view().relation_fields@[id.0 as int],
    {
        self.types.relation_fields[id.0]
    }

    /// The validated attribute data of a model, or `Absent` after a
    /// short-circuited run.
    pub fn model_attributes(&self, id: ModelId) -> (r: &ModelAttributesSlot)
        requires
            id.0 < self.attributes_view().model_attributes@.len(),
        ensures
            *r == self.attributes_view().model_attributes@[id.0 as int],
    {
        &self.attributes.model_attributes[id.0]
    }

    /// The validated attribute data of an enum, or `Absent` after a
    /// short-circuited run.
    pub fn enum_attributes(&self, id: EnumId) -> (r: &EnumAttributesSlot)
        requires
            id.0 < self.attributes_view().enum_attributes@.len(),
        ensures
            *r == self.attributes_view().enum_attributes@[id.0 as int],
    {
        &self.attributes.enum_attributes[id.0]
    }

    /// The validated attribute data of a scalar field, or `Absent` after a
    /// short-circuited run.
    pub fn scalar_field_attributes(&self, id: ScalarFieldId) -> (r: ScalarFieldAttributesSlot)
        requires
            id.0 < self.attributes_view().scalar_field_attributes@.len(),
        ensures
            r == self.attributes_view().scalar_field_attributes@[id.0 as int],
    {
        self.attributes.scalar_field_attributes[id.0]
    }

    /// The validated attribute data of a relation field, or `Absent` after
    /// a short-circuited run.
    pub fn relation_field_attributes(&self, id: RelationFieldId) -> (r:
        RelationFieldAttributesSlot)
        requires
            id.0 < self.attributes_view().relation_field_attributes@.len(),
        ensures
            r == self.attributes_view().relation_field_attributes@[id.0 as int],
    {
        self.attributes.relation_field_attributes[id.0]
    }
}

} // verus!
