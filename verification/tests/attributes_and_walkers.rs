use parser_database::ast::{
    Attribute, AttributeArg, Field, FieldArity, SchemaAst, SourceFile, Top,
};
use parser_database::diagnostics::{DiagnosticKind, Diagnostics, Span};
use parser_database::ids::ModelId;
use parser_database::{ParserDatabase, PipelineOutcome};

fn sp() -> Span {
    Span { start: 0, end: 0 }
}

fn field_with(name: &str, tpe: &str, arity: FieldArity, attributes: Vec<Attribute>) -> Field {
    Field {
        name: name.to_string(),
        declared_type: tpe.to_string(),
        arity,
        attributes,
        span: sp(),
    }
}

fn model_with(name: &str, fields: Vec<Field>, attributes: Vec<Attribute>) -> Top {
    Top::Model { name: name.to_string(), fields, attributes, span: sp() }
}

fn composite(name: &str, fields: Vec<Field>) -> Top {
    Top::CompositeType { name: name.to_string(), fields, span: sp() }
}

fn attr(name: &str, args: Vec<AttributeArg>) -> Attribute {
    Attribute { name: name.to_string(), args, span: sp() }
}

fn unnamed(value: &str) -> AttributeArg {
    AttributeArg { name: None, value: value.to_string() }
}

fn named(name: &str, value: &str) -> AttributeArg {
    AttributeArg { name: Some(name.to_string()), value: value.to_string() }
}

fn source(tops: Vec<Top>) -> SourceFile {
    SourceFile { text: String::new(), ast: SchemaAst { tops }, parse_errors: vec![] }
}

fn run(tops: Vec<Top>) -> (ParserDatabase, Diagnostics) {
    let mut diagnostics = Diagnostics::new();
    let db = ParserDatabase::new(
        vec![("schema.prisma".to_string(), source(tops))],
        &mut diagnostics,
    );
    (db, diagnostics)
}

fn count_kind(diagnostics: &Diagnostics, kind: DiagnosticKind) -> usize {
    diagnostics.errors().iter().filter(|e| e.kind == kind).count()
}

#[test]
fn unknown_attribute_is_reported_without_aborting_siblings() {
    let (db, diagnostics) = run(vec![model_with(
        "User",
        vec![field_with(
            "id",
            "Int",
            FieldArity::Required,
            vec![attr("sparkle", vec![]), attr("id", vec![])],
        )],
        vec![],
    )]);
    assert_eq!(db.outcome(), PipelineOutcome::Complete);
    assert_eq!(count_kind(&diagnostics, DiagnosticKind::UnknownAttribute), 1);
}

#[test]
fn map_with_wrong_argument_count_is_reported() {
    let (_, diagnostics) = run(vec![model_with(
        "User",
        vec![field_with("id", "Int", FieldArity::Required, vec![])],
        vec![attr("map", vec![])],
    )]);
    assert_eq!(count_kind(&diagnostics, DiagnosticKind::WrongAttributeArgumentCount), 1);
}

#[test]
fn id_attribute_on_composite_field_is_a_target_error() {
    let (db, diagnostics) = run(vec![composite(
        "Address",
        vec![field_with("street", "String", FieldArity::Required, vec![attr("id", vec![])])],
    )]);
    assert_eq!(db.outcome(), PipelineOutcome::Complete);
    assert_eq!(count_kind(&diagnostics, DiagnosticKind::InvalidAttributeTarget), 1);
}

#[test]
fn model_id_over_unknown_field_is_an_argument_error() {
    let (_, diagnostics) = run(vec![model_with(
        "User",
        vec![field_with("id", "Int", FieldArity::Required, vec![])],
        vec![attr("id", vec![unnamed("missing")])],
    )]);
    assert_eq!(count_kind(&diagnostics, DiagnosticKind::InvalidAttributeArgument), 1);
}

#[test]
fn bad_referential_action_is_an_argument_error() {
    let (_, diagnostics) = run(vec![
        model_with(
            "Post",
            vec![field_with(
                "author",
                "User",
                FieldArity::Required,
                vec![attr("relation", vec![named("onDelete", "Explode")])],
            )],
            vec![],
        ),
        model_with(
            "User",
            vec![field_with("posts", "Post", FieldArity::List, vec![])],
            vec![],
        ),
    ]);
    assert_eq!(count_kind(&diagnostics, DiagnosticKind::InvalidAttributeArgument), 1);
}

#[test]
fn conflicting_referential_actions_are_reported() {
    let (db, diagnostics) = run(vec![
        model_with(
            "Post",
            vec![field_with(
                "author",
                "User",
                FieldArity::Required,
                vec![attr("relation", vec![named("onDelete", "Cascade")])],
            )],
            vec![],
        ),
        model_with(
            "User",
            vec![field_with(
                "posts",
                "Post",
                FieldArity::List,
                vec![attr("relation", vec![named("onDelete", "Restrict")])],
            )],
            vec![],
        ),
    ]);
    assert_eq!(db.outcome(), PipelineOutcome::Complete);
    assert_eq!(count_kind(&diagnostics, DiagnosticKind::ConflictingReferentialActions), 1);
    assert_eq!(db.relations_count(), 1);
}

#[test]
fn walkers_navigate_models_and_fields() {
    let (db, diagnostics) = run(vec![
        model_with(
            "User",
            vec![
                field_with("id", "Int", FieldArity::Required, vec![]),
                field_with("name", "String", FieldArity::Optional, vec![]),
            ],
            vec![],
        ),
        model_with("Post", vec![], vec![]),
    ]);
    assert!(!diagnostics.has_errors());
    let walkers = db.walk_models();
    assert_eq!(walkers.len(), 2);
    assert_eq!(walkers[0].name().as_str(), "User");
    assert_eq!(walkers[1].name().as_str(), "Post");
    let user = db.walk_model(ModelId(0));
    assert_eq!(user.fields().len(), 2);
    assert_eq!(user.fields()[0].name, "id");
    assert_eq!(user.fields()[1].name, "name");
}

#[test]
fn enum_walker_returns_declared_name() {
    let mut diagnostics = Diagnostics::new();
    let file = source(vec![Top::Enum {
        name: "Role".to_string(),
        values: vec![],
        attributes: vec![],
        span: sp(),
    }]);
    let db = ParserDatabase::new(
        vec![("schema.prisma".to_string(), file)],
        &mut diagnostics,
    );
    let w = db.walk_enum(parser_database::ids::EnumId(0));
    assert_eq!(w.name().as_str(), "Role");
}

#[test]
fn description_is_opaque_and_fixed() {
    let (db, _) = run(vec![model_with("User", vec![], vec![])]);
    assert_eq!(db.describe(), "ParserDatabase { ... }");
    assert_eq!(db.names_view_models_len(), 1);
    assert_eq!(db.names_view_enums_len(), 0);
}

#[test]
fn interned_strings_are_reachable_by_id() {
    let (db, _) = run(vec![model_with("User", vec![], vec![])]);
    let found = (0..1)
        .filter_map(|i| db.interned_str(parser_database::interner::StringId(i)))
        .any(|s| s.as_str() == "User");
    assert!(found);
}

#[test]
fn map_and_default_attributes_are_recorded() {
    let (db, diagnostics) = run(vec![model_with(
        "User",
        vec![field_with(
            "id",
            "Int",
            FieldArity::Required,
            vec![
                attr("id", vec![]),
                attr("map", vec![unnamed("user_id")]),
                attr("default", vec![unnamed("0")]),
            ],
        )],
        vec![attr("map", vec![unnamed("users")])],
    )]);
    assert!(!diagnostics.has_errors());
    assert_eq!(db.scalar_fields_count(), 1);
    match db.scalar_field_attributes(parser_database::ids::ScalarFieldId(0)) {
        parser_database::attributes::ScalarFieldAttributesSlot::Resolved(fa) => {
            assert!(fa.is_id);
            assert!(!fa.is_unique);
            let mapped = fa.mapped_name.expect("the field has a mapped name");
            assert_eq!(db.interned_str(mapped).unwrap().as_str(), "user_id");
            let default = fa.default_value.expect("the field has a default");
            assert_eq!(db.interned_str(default).unwrap().as_str(), "0");
        }
        _ => panic!("a completed run resolves every slot"),
    }
    match db.model_attributes(parser_database::ids::ModelId(0)) {
        parser_database::attributes::ModelAttributesSlot::Resolved(ma) => {
            let mapped = ma.mapped_name.expect("the model has a mapped name");
            assert_eq!(db.interned_str(mapped).unwrap().as_str(), "users");
        }
        _ => panic!("a completed run resolves every slot"),
    }
}

#[test]
fn attribute_tables_stay_absent_after_a_name_error() {
    let mut diagnostics = Diagnostics::new();
    let file = source(vec![
        model_with("User", vec![], vec![attr("map", vec![unnamed("users")])]),
        model_with("User", vec![], vec![]),
    ]);
    let db = ParserDatabase::new(
        vec![("schema.prisma".to_string(), file)],
        &mut diagnostics,
    );
    assert_eq!(db.outcome(), PipelineOutcome::NamesError);
    assert!(matches!(
        db.model_attributes(parser_database::ids::ModelId(0)),
        parser_database::attributes::ModelAttributesSlot::Absent
    ));
    assert_eq!(db.relations_count(), 0);
}

#[test]
fn field_typed_by_an_enum_resolves_to_that_enum() {
    let (db, diagnostics) = run(vec![
        Top::Enum {
            name: "Role".to_string(),
            values: vec![],
            attributes: vec![],
            span: sp(),
        },
        model_with(
            "User",
            vec![field_with("role", "Role", FieldArity::Required, vec![])],
            vec![],
        ),
    ]);
    assert!(!diagnostics.has_errors());
    assert_eq!(db.scalar_fields_count(), 1);
    let sf = db.scalar_field(parser_database::ids::ScalarFieldId(0));
    assert_eq!(
        sf.tpe,
        parser_database::types::ScalarFieldType::Enum(parser_database::ids::EnumId(0))
    );
}

#[test]
fn model_index_attribute_collects_field_indices() {
    let (db, diagnostics) = run(vec![model_with(
        "User",
        vec![
            field_with("a", "Int", FieldArity::Required, vec![]),
            field_with("b", "Int", FieldArity::Required, vec![]),
        ],
        vec![attr("unique", vec![unnamed("b"), unnamed("a")])],
    )]);
    assert!(!diagnostics.has_errors());
    match db.model_attributes(parser_database::ids::ModelId(0)) {
        parser_database::attributes::ModelAttributesSlot::Resolved(ma) => {
            assert_eq!(ma.indexes.len(), 1);
            assert!(ma.indexes[0].is_unique);
            assert_eq!(ma.indexes[0].fields, vec![1, 0]);
        }
        _ => panic!("a completed run resolves every slot"),
    }
}

#[test]
fn repeated_map_keeps_the_first_and_reports_the_second() {
    let (db, diagnostics) = run(vec![model_with(
        "User",
        vec![field_with(
            "id",
            "Int",
            FieldArity::Required,
            vec![
                attr("map", vec![unnamed("first_name")]),
                attr("map", vec![unnamed("second_name")]),
            ],
        )],
        vec![],
    )]);
    assert_eq!(count_kind(&diagnostics, DiagnosticKind::DuplicateAttribute), 1);
    match db.scalar_field_attributes(parser_database::ids::ScalarFieldId(0)) {
        parser_database::attributes::ScalarFieldAttributesSlot::Resolved(fa) => {
            let mapped = fa.mapped_name.expect("the first map applies");
            assert_eq!(db.interned_str(mapped).unwrap().as_str(), "first_name");
        }
        _ => panic!("a completed run resolves every slot"),
    }
}
