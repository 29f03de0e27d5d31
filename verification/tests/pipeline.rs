use parser_database::ast::{
    Attribute, AttributeArg, EnumValue, Field, FieldArity, SchemaAst, SourceFile, Top,
};
use parser_database::diagnostics::{DiagnosticKind, Diagnostics, FileId, Span};
use parser_database::relations::RelationKind;
use parser_database::{ParserDatabase, PipelineOutcome};

fn sp(start: usize, end: usize) -> Span {
    Span { start, end }
}

fn field(name: &str, tpe: &str, arity: FieldArity) -> Field {
    Field {
        name: name.to_string(),
        declared_type: tpe.to_string(),
        arity,
        attributes: vec![],
        span: sp(0, 0),
    }
}

fn model(name: &str, fields: Vec<Field>) -> Top {
    Top::Model { name: name.to_string(), fields, attributes: vec![], span: sp(0, 0) }
}

fn enum_top(name: &str, values: Vec<&str>) -> Top {
    Top::Enum {
        name: name.to_string(),
        values: values
            .into_iter()
            .map(|v| EnumValue { name: v.to_string(), attributes: vec![], span: sp(0, 0) })
            .collect(),
        attributes: vec![],
        span: sp(0, 0),
    }
}

fn alias(name: &str, target: &str) -> Top {
    Top::Alias {
        name: name.to_string(),
        target: target.to_string(),
        arity: FieldArity::Required,
        span: sp(0, 0),
    }
}

fn source(tops: Vec<Top>) -> SourceFile {
    SourceFile { text: String::new(), ast: SchemaAst { tops }, parse_errors: vec![] }
}

fn unnamed_arg(value: &str) -> AttributeArg {
    AttributeArg { name: None, value: value.to_string() }
}


fn attr(name: &str, args: Vec<AttributeArg>) -> Attribute {
    Attribute { name: name.to_string(), args, span: sp(0, 0) }
}

fn count_kind(diagnostics: &Diagnostics, kind: DiagnosticKind) -> usize {
    diagnostics.errors().iter().filter(|e| e.kind == kind).count()
}

#[test]
fn counts_models_and_enums_across_files() {
    let mut diagnostics = Diagnostics::new();
    let file_a = source(vec![
        model("User", vec![field("id", "Int", FieldArity::Required)]),
        enum_top("Role", vec!["Admin", "Member"]),
    ]);
    let file_b = source(vec![model("Post", vec![field("id", "Int", FieldArity::Required)])]);
    let db = ParserDatabase::new(
        vec![("a.prisma".to_string(), file_a), ("b.prisma".to_string(), file_b)],
        &mut diagnostics,
    );
    assert!(!diagnostics.has_errors());
    assert_eq!(db.outcome(), PipelineOutcome::Complete);
    assert_eq!(db.models_count(), 2);
    assert_eq!(db.enums_count(), 1);
    assert_eq!(db.models_count() + db.enums_count(), 3);
}

#[test]
fn duplicate_top_level_name_across_files() {
    let mut diagnostics = Diagnostics::new();
    let file_a = source(vec![model("User", vec![])]);
    let file_b = source(vec![model("User", vec![])]);
    let db = ParserDatabase::new(
        vec![("a.prisma".to_string(), file_a), ("b.prisma".to_string(), file_b)],
        &mut diagnostics,
    );
    assert_eq!(db.outcome(), PipelineOutcome::NamesError);
    let dups: Vec<_> = diagnostics
        .errors()
        .iter()
        .filter(|e| e.kind == DiagnosticKind::DuplicateTopLevelName)
        .collect();
    assert_eq!(dups.len(), 1);
    // The diagnostic references the second occurrence's location.
    assert_eq!(dups[0].file_id, FileId(1));
    // Both declarations still received a model id.
    assert_eq!(db.models_count(), 2);
}

#[test]
fn alias_cycle_resolves_to_error_and_terminates() {
    let mut diagnostics = Diagnostics::new();
    let file = source(vec![alias("A", "B"), alias("B", "A")]);
    let db = ParserDatabase::new(vec![("a.prisma".to_string(), file)], &mut diagnostics);
    assert_eq!(db.outcome(), PipelineOutcome::TypesError);
    assert!(count_kind(&diagnostics, DiagnosticKind::AliasCycle) >= 1);
}

#[test]
fn alias_chain_resolves_through_targets() {
    let mut diagnostics = Diagnostics::new();
    let file = source(vec![
        alias("Name", "Label"),
        alias("Label", "String"),
        model("User", vec![field("name", "Name", FieldArity::Required)]),
    ]);
    let db = ParserDatabase::new(vec![("a.prisma".to_string(), file)], &mut diagnostics);
    assert!(!diagnostics.has_errors());
    assert_eq!(db.outcome(), PipelineOutcome::Complete);
}

#[test]
fn one_to_many_relation_is_inferred() {
    let mut diagnostics = Diagnostics::new();
    let file = source(vec![
        model(
            "Post",
            vec![
                field("id", "Int", FieldArity::Required),
                field("author", "User", FieldArity::Required),
            ],
        ),
        model(
            "User",
            vec![
                field("id", "Int", FieldArity::Required),
                field("posts", "Post", FieldArity::List),
            ],
        ),
    ]);
    let db = ParserDatabase::new(vec![("a.prisma".to_string(), file)], &mut diagnostics);
    assert!(!diagnostics.has_errors());
    assert_eq!(db.relations_count(), 1);
    let rel = *db.relation(parser_database::relations::RelationId(0));
    assert_eq!(rel.kind, RelationKind::OneToMany);
    assert!(rel.field_b.is_some());
}

#[test]
fn relation_ids_are_reproducible_across_runs() {
    let build = || {
        source(vec![
            model("Post", vec![field("author", "User", FieldArity::Required)]),
            model("User", vec![field("posts", "Post", FieldArity::List)]),
        ])
    };
    let mut d1 = Diagnostics::new();
    let db1 = ParserDatabase::new(vec![("a.prisma".to_string(), build())], &mut d1);
    let mut d2 = Diagnostics::new();
    let db2 = ParserDatabase::new(vec![("a.prisma".to_string(), build())], &mut d2);
    assert_eq!(db1.relations_count(), 1);
    assert_eq!(db2.relations_count(), 1);
    let r1 = *db1.relation(parser_database::relations::RelationId(0));
    let r2 = *db2.relation(parser_database::relations::RelationId(0));
    assert_eq!(r1, r2);
}

#[test]
fn many_to_many_relation_gets_sorted_join_identity() {
    let mut diagnostics = Diagnostics::new();
    let file = source(vec![
        model("Post", vec![field("tags", "Tag", FieldArity::List)]),
        model("Tag", vec![field("posts", "Post", FieldArity::List)]),
    ]);
    let db = ParserDatabase::new(vec![("a.prisma".to_string(), file)], &mut diagnostics);
    assert!(!diagnostics.has_errors());
    assert_eq!(db.relations_count(), 1);
    let rel = *db.relation(parser_database::relations::RelationId(0));
    assert!(matches!(rel.kind, RelationKind::ManyToMany(_)));
    let join = rel.join.expect("a many-to-many relation carries a join identity");
    assert!(join.model_a.0 <= join.model_b.0);
}

#[test]
fn missing_counterpart_is_one_diagnostic_not_an_abort() {
    let mut diagnostics = Diagnostics::new();
    let file = source(vec![
        model("Post", vec![field("author", "User", FieldArity::Required)]),
        model("User", vec![field("id", "Int", FieldArity::Required)]),
    ]);
    let db = ParserDatabase::new(vec![("a.prisma".to_string(), file)], &mut diagnostics);
    assert_eq!(db.outcome(), PipelineOutcome::Complete);
    assert_eq!(count_kind(&diagnostics, DiagnosticKind::MissingRelationCounterpart), 1);
    assert_eq!(db.relations_count(), 1);
    let rel = *db.relation(parser_database::relations::RelationId(0));
    assert_eq!(rel.kind, RelationKind::Error);
}

#[test]
fn ambiguous_counterpart_is_reported() {
    let mut diagnostics = Diagnostics::new();
    let file = source(vec![
        model("Post", vec![field("author", "User", FieldArity::Required)]),
        model(
            "User",
            vec![
                field("posts", "Post", FieldArity::List),
                field("drafts", "Post", FieldArity::List),
            ],
        ),
    ]);
    let db = ParserDatabase::new(vec![("a.prisma".to_string(), file)], &mut diagnostics);
    assert_eq!(db.outcome(), PipelineOutcome::Complete);
    assert!(count_kind(&diagnostics, DiagnosticKind::AmbiguousRelation) >= 1);
}

#[test]
fn relation_names_disambiguate_counterparts() {
    let mut diagnostics = Diagnostics::new();
    let mut author = field("author", "User", FieldArity::Required);
    author.attributes.push(attr("relation", vec![unnamed_arg("written")]));
    let mut posts = field("posts", "Post", FieldArity::List);
    posts.attributes.push(attr("relation", vec![unnamed_arg("written")]));
    let mut editor = field("editor", "User", FieldArity::Required);
    editor.attributes.push(attr("relation", vec![unnamed_arg("edited")]));
    let mut edited = field("edited", "Post", FieldArity::List);
    edited.attributes.push(attr("relation", vec![unnamed_arg("edited")]));
    let file = source(vec![
        model("Post", vec![author, editor]),
        model("User", vec![posts, edited]),
    ]);
    let db = ParserDatabase::new(vec![("a.prisma".to_string(), file)], &mut diagnostics);
    assert!(!diagnostics.has_errors());
    assert_eq!(db.relations_count(), 2);
}

#[test]
fn short_circuit_after_name_errors_skips_later_passes() {
    let mut diagnostics = Diagnostics::new();
    // A duplicate model name plus a relation field that would otherwise
    // produce a relation diagnostic.
    let file = source(vec![
        model("User", vec![field("author", "Missing", FieldArity::Required)]),
        model("User", vec![]),
    ]);
    let db = ParserDatabase::new(vec![("a.prisma".to_string(), file)], &mut diagnostics);
    assert_eq!(db.outcome(), PipelineOutcome::NamesError);
    assert_eq!(db.relations_count(), 0);
    // Pass one recorded its error; nothing from later passes is present.
    assert!(diagnostics.has_errors());
    for e in diagnostics.errors() {
        assert!(matches!(
            e.kind,
            DiagnosticKind::SyntaxError
                | DiagnosticKind::ReservedTypeName
                | DiagnosticKind::DuplicateTopLevelName
                | DiagnosticKind::DuplicateFieldName
                | DiagnosticKind::DuplicateEnumValueName
        ));
    }
    // The counts still cover every declaration.
    assert_eq!(db.models_count(), 2);
}

#[test]
fn rerunning_the_pipeline_reproduces_diagnostics_exactly() {
    let build = || {
        vec![
            (
                "a.prisma".to_string(),
                source(vec![
                    model("Int", vec![]),
                    model("User", vec![field("x", "Unknown", FieldArity::Required)]),
                    model("User", vec![]),
                ]),
            ),
            (
                "b.prisma".to_string(),
                source(vec![enum_top("Role", vec!["A", "A"])]),
            ),
        ]
    };
    let mut d1 = Diagnostics::new();
    let db1 = ParserDatabase::new(build(), &mut d1);
    let mut d2 = Diagnostics::new();
    let db2 = ParserDatabase::new(build(), &mut d2);
    assert_eq!(d1.errors().len(), d2.errors().len());
    for (e1, e2) in d1.errors().iter().zip(d2.errors().iter()) {
        assert_eq!(e1, e2);
    }
    assert_eq!(db1.models_count(), db2.models_count());
    assert_eq!(db1.enums_count(), db2.enums_count());
    assert_eq!(db1.outcome(), db2.outcome());
}

#[test]
fn parser_diagnostics_are_merged_in_order() {
    let mut diagnostics = Diagnostics::new();
    let mut bad = source(vec![]);
    bad.parse_errors.push(sp(3, 7));
    let db = ParserDatabase::new(vec![("a.prisma".to_string(), bad)], &mut diagnostics);
    assert_eq!(db.outcome(), PipelineOutcome::NamesError);
    assert_eq!(diagnostics.len(), 1);
    let e = diagnostics.errors()[0];
    assert_eq!(e.kind, DiagnosticKind::SyntaxError);
    assert_eq!(e.file_id, FileId(0));
    assert_eq!(e.span, sp(3, 7));
}

#[test]
fn reserved_type_name_is_reported() {
    let mut diagnostics = Diagnostics::new();
    let file = source(vec![model("Int", vec![])]);
    let db = ParserDatabase::new(vec![("a.prisma".to_string(), file)], &mut diagnostics);
    assert_eq!(db.outcome(), PipelineOutcome::NamesError);
    assert_eq!(count_kind(&diagnostics, DiagnosticKind::ReservedTypeName), 1);
}

#[test]
fn duplicate_member_names_are_reported() {
    let mut diagnostics = Diagnostics::new();
    let file = source(vec![
        model(
            "User",
            vec![
                field("name", "String", FieldArity::Required),
                field("name", "String", FieldArity::Optional),
            ],
        ),
        enum_top("Role", vec!["A", "B", "A"]),
    ]);
    ParserDatabase::new(vec![("a.prisma".to_string(), file)], &mut diagnostics);
    assert_eq!(count_kind(&diagnostics, DiagnosticKind::DuplicateFieldName), 1);
    assert_eq!(count_kind(&diagnostics, DiagnosticKind::DuplicateEnumValueName), 1);
}

#[test]
fn unresolved_type_reference_is_reported() {
    let mut diagnostics = Diagnostics::new();
    let file = source(vec![model("User", vec![field("pet", "Animal", FieldArity::Required)])]);
    let db = ParserDatabase::new(vec![("a.prisma".to_string(), file)], &mut diagnostics);
    assert_eq!(db.outcome(), PipelineOutcome::TypesError);
    assert_eq!(count_kind(&diagnostics, DiagnosticKind::UnresolvedTypeReference), 1);
}

#[test]
fn single_file_accessors() {
    let mut diagnostics = Diagnostics::new();
    let mut file = source(vec![model("User", vec![])]);
    file.text = "model User {}".to_string();
    let db = ParserDatabase::new_single_file(file, &mut diagnostics);
    assert_eq!(db.files_count(), 1);
    assert_eq!(db.ast_assert_single().tops.len(), 1);
    assert_eq!(db.source_assert_single(), "model User {}");
    assert_eq!(db.file_path(FileId(0)).as_str(), "schema.prisma");
    assert_eq!(db.iter_asts().len(), 1);
    assert_eq!(db.ast(FileId(0)).tops.len(), 1);
}

#[test]
fn every_relation_field_gets_a_relation_slot() {
    let mut diagnostics = Diagnostics::new();
    let file = source(vec![
        model("Post", vec![field("author", "User", FieldArity::Required)]),
        model("User", vec![field("posts", "Post", FieldArity::List)]),
    ]);
    let db = ParserDatabase::new(vec![("a.prisma".to_string(), file)], &mut diagnostics);
    assert_eq!(db.relation_fields_count(), 2);
    let r0 = db
        .field_relation(parser_database::ids::RelationFieldId(0))
        .expect("inference assigns every field a relation");
    let r1 = db
        .field_relation(parser_database::ids::RelationFieldId(1))
        .expect("inference assigns every field a relation");
    assert_eq!(r0, r1);
    assert_eq!(db.relation(r0).kind, RelationKind::OneToMany);
}

#[test]
fn cycle_alias_consumer_gets_a_cycle_diagnostic() {
    let mut diagnostics = Diagnostics::new();
    let file = source(vec![
        alias("A", "B"),
        alias("B", "A"),
        model("M", vec![field("x", "A", FieldArity::Required)]),
    ]);
    let db = ParserDatabase::new(vec![("a.prisma".to_string(), file)], &mut diagnostics);
    assert_eq!(db.outcome(), PipelineOutcome::TypesError);
    // One per alias on the cycle, plus one for the consuming field.
    assert_eq!(count_kind(&diagnostics, DiagnosticKind::AliasCycle), 3);
}
