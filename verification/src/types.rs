//! Pass two: type resolution. Walks fields and type-alias targets once name
//! resolution is complete for all files, resolving each type reference into
//! a closed descriptor. Alias chains are expanded to their ultimate target;
//! a cycle is detected with a visited set and resolves to the error variant.

use vstd::prelude::*;
use crate::ast::{Field, FieldArity, Top};
use crate::diagnostics::{
    appended_only, type_kind_pred, DatamodelError, DiagnosticKind, Diagnostics, FileId, Span,
};
use crate::files::{FileEntry, Files};
use crate::ids::{CompositeTypeId, EnumId, ModelId};
use crate::interner::StringInterner;
use crate::names::{
    file_tops, first_entry_with_name, interner_extends, lemma_first_entry_extend,
    lemma_names_entry, lemma_names_inv_extend, lemma_table_lookup_is_first, names_ok, Names,
    TopEntry, TopKindId,
};
use vstd::pervasive::unreached;

verus! {

/// A built-in scalar type. `Text` is the textual scalar, declared in a
/// schema by the keyword `String`.
#[derive(Clone, Copy, PartialEq, Eq, Structural, Debug)]
pub enum ScalarType {
    Int,
    BigInt,
    Float,
    Decimal,
    Boolean,
    Text,
    DateTime,
    Json,
    Bytes,
}

/// The closed descriptor a scalar-shaped type reference resolves to.
/// `Unknown` is the error variant: an unresolvable reference or a cyclic
/// alias.
#[derive(Clone, Copy, PartialEq, Eq, Structural, Debug)]
pub enum ScalarFieldType {
    BuiltInScalar(ScalarType),
    Enum(EnumId),
    CompositeType(CompositeTypeId),
    Unknown,
}

/// A field resolved to a scalar-shaped type. `top` is the flat index of the
/// owning model or composite type in the name tables.
#[derive(Clone, Copy, PartialEq, Eq, Structural, Debug)]
pub struct ScalarField {
    pub top: usize,
    pub field_index: usize,
    pub tpe: ScalarFieldType,
    pub arity: FieldArity,
}

/// A field resolved to a reference to another model.
#[derive(Clone, Copy, PartialEq, Eq, Structural, Debug)]
pub struct RelationField {
    pub model: ModelId,
    pub field_index: usize,
    pub referenced_model: ModelId,
    pub arity: FieldArity,
    pub file: FileId,
    pub span: Span,
}

/// The type tables built by pass two.
#[derive(Debug)]
pub struct Types {
    pub scalar_fields: Vec<ScalarField>,
    pub relation_fields: Vec<RelationField>,
    pub alias_types: Vec<ScalarFieldType>,
}

/// The field list of a top-level declaration.
pub open spec fn top_fields(tp: Top) -> Seq<Field> {
    match tp {
        Top::Model { fields, .. } => fields@,
        Top::CompositeType { fields, .. } => fields@,
        _ => Seq::empty(),
    }
}

/// The declaration an entry stands for.
pub open spec fn entry_decl(files: Seq<FileEntry>, e: TopEntry) -> Top {
    file_tops(files, e.file.0 as int)[e.top_index as int]
}

/// A scalar field entry points at an actual field of its owner and carries
/// that field's arity.
pub open spec fn scalar_field_ok(files: Seq<FileEntry>, names: Names, sf: ScalarField) -> bool {
    &&& sf.top < names.tops@.len()
    &&& sf.field_index < top_fields(entry_decl(files, names.tops@[sf.top as int])).len()
    &&& sf.arity == top_fields(entry_decl(files, names.tops@[sf.top as int]))[
        sf.field_index as int
    ].arity
}

/// A relation field entry points at an actual field of an actual model, and
/// the model it references is the one whose name is the field's declared
/// type text.
pub open spec fn relation_field_ok(
    files: Seq<FileEntry>,
    names: Names,
    m: Seq<Seq<char>>,
    rf: RelationField,
) -> bool {
    &&& rf.model.0 < names.models@.len()
    &&& rf.referenced_model.0 < names.models@.len()
    &&& {
        let e = names.tops@[names.models@[rf.model.0 as int] as int];
        let flds = top_fields(entry_decl(files, e));
        &&& rf.field_index < flds.len()
        &&& rf.arity == flds[rf.field_index as int].arity
        &&& rf.span == flds[rf.field_index as int].span
        &&& rf.file == e.file
        &&& names.tops@[names.models@[rf.referenced_model.0 as int] as int].name.0 < m.len()
        &&& m[names.tops@[names.models@[rf.referenced_model.0 as int] as int].name.0 as int]
            == flds[rf.field_index as int].declared_type@
    }
}

/// What pass two guarantees of its output tables.
pub open spec fn types_ok(
    files: Seq<FileEntry>,
    names: Names,
    m: Seq<Seq<char>>,
    types: Types,
) -> bool {
    &&& types.alias_types@.len() == names.aliases@.len()
    &&& forall|i: int|
        0 <= i < types.scalar_fields@.len() ==> scalar_field_ok(
            files,
            names,
            #[trigger] types.scalar_fields@[i],
        )
    &&& forall|i: int|
        0 <= i < types.relation_fields@.len() ==> relation_field_ok(
            files,
            names,
            m,
            #[trigger] types.relation_fields@[i],
        )
    // Each slot's value is exactly what its field's declared text resolves
    // to under the name tables and the expanded alias table.
    &&& forall|i: int|
        0 <= i < types.scalar_fields@.len() ==> {
            let sf = #[trigger] types.scalar_fields@[i];
            let e = names.tops@[sf.top as int];
            FieldResolution::Scalar(sf.tpe) == field_resolution_spec(
                names,
                m,
                types.alias_types@,
                e.file.0 as int,
                e.kind is Model,
                top_fields(entry_decl(files, e))[sf.field_index as int].declared_type@,
            )
        }
    &&& forall|i: int|
        0 <= i < types.relation_fields@.len() ==> {
            let rf = #[trigger] types.relation_fields@[i];
            let e = names.tops@[names.models@[rf.model.0 as int] as int];
            FieldResolution::Relation(rf.referenced_model) == field_resolution_spec(
                names,
                m,
                types.alias_types@,
                e.file.0 as int,
                true,
                top_fields(entry_decl(files, e))[rf.field_index as int].declared_type@,
            )
        }
}

/// Growing the interner invalidates nothing pass two established.
pub proof fn lemma_types_ok_extend(
    files: Seq<FileEntry>,
    names: Names,
    m: Seq<Seq<char>>,
    m2: Seq<Seq<char>>,
    types: Types,
)
    requires
        names_ok(names, files, m),
        types_ok(files, names, m, types),
        interner_extends(m, m2),
    ensures
        types_ok(files, names, m2, types),
{
    assert forall|i: int| 0 <= i < types.relation_fields@.len() implies relation_field_ok(
        files,
        names,
        m2,
        #[trigger] types.relation_fields@[i],
    ) by {
        assert(relation_field_ok(files, names, m, types.relation_fields@[i]));
    }
    assert forall|i: int|
        0 <= i < types.scalar_fields@.len() implies {
            let sf = #[trigger] types.scalar_fields@[i];
            let e = names.tops@[sf.top as int];
            FieldResolution::Scalar(sf.tpe) == field_resolution_spec(
                names,
                m2,
                types.alias_types@,
                e.file.0 as int,
                e.kind is Model,
                top_fields(entry_decl(files, e))[sf.field_index as int].declared_type@,
            )
        } by {
        let sf = types.scalar_fields@[i];
        let e = names.tops@[sf.top as int];
        lemma_field_resolution_spec_extend(
            names,
            files,
            m,
            m2,
            types.alias_types@,
            e.file.0 as int,
            e.kind is Model,
            top_fields(entry_decl(files, e))[sf.field_index as int].declared_type@,
        );
    }
    assert forall|i: int|
        0 <= i < types.relation_fields@.len() implies {
            let rf = #[trigger] types.relation_fields@[i];
            let e = names.tops@[names.models@[rf.model.0 as int] as int];
            FieldResolution::Relation(rf.referenced_model) == field_resolution_spec(
                names,
                m2,
                types.alias_types@,
                e.file.0 as int,
                true,
                top_fields(entry_decl(files, e))[rf.field_index as int].declared_type@,
            )
        } by {
        let rf = types.relation_fields@[i];
        let e = names.tops@[names.models@[rf.model.0 as int] as int];
        lemma_field_resolution_spec_extend(
            names,
            files,
            m,
            m2,
            types.alias_types@,
            e.file.0 as int,
            true,
            top_fields(entry_decl(files, e))[rf.field_index as int].declared_type@,
        );
    }
}

/// Total number of declared fields over the first `k` registered
/// top-level items (enums and aliases contribute none).
pub open spec fn entry_fields_count(files: Seq<FileEntry>, tops: Seq<TopEntry>, k: int) -> int
    decreases k,
{
    if k <= 0 {
        0
    } else {
        entry_fields_count(files, tops, k - 1) + top_fields(
            entry_decl(files, tops[k - 1]),
        ).len()
    }
}

/// How many of the first `k` alias slots hold the error variant.
pub open spec fn unknown_alias_count(ts: Seq<ScalarFieldType>, k: int) -> int
    decreases k,
{
    if k <= 0 {
        0
    } else {
        unknown_alias_count(ts, k - 1) + if ts[k - 1] is Unknown {
            1int
        } else {
            0int
        }
    }
}

/// How many of the first `k` scalar fields hold the error variant.
pub open spec fn unknown_scalar_count(sfs: Seq<ScalarField>, k: int) -> int
    decreases k,
{
    if k <= 0 {
        0
    } else {
        unknown_scalar_count(sfs, k - 1) + if sfs[k - 1].tpe is Unknown {
            1int
        } else {
            0int
        }
    }
}

/// Appending a slot leaves the count over the existing prefix unchanged.
pub proof fn lemma_unknown_alias_count_push(ts: Seq<ScalarFieldType>, t: ScalarFieldType, k: int)
    requires
        0 <= k <= ts.len(),
    ensures
        unknown_alias_count(ts.push(t), k) == unknown_alias_count(ts, k),
    decreases k,
{
    if k > 0 {
        lemma_unknown_alias_count_push(ts, t, k - 1);
        assert(ts.push(t)[k - 1] == ts[k - 1]);
    }
}

/// Appending a field leaves the count over the existing prefix unchanged.
pub proof fn lemma_unknown_scalar_count_push(sfs: Seq<ScalarField>, sf: ScalarField, k: int)
    requires
        0 <= k <= sfs.len(),
    ensures
        unknown_scalar_count(sfs.push(sf), k) == unknown_scalar_count(sfs, k),
    decreases k,
{
    if k > 0 {
        lemma_unknown_scalar_count_push(sfs, sf, k - 1);
        assert(sfs.push(sf)[k - 1] == sfs[k - 1]);
    }
}

pub proof fn lemma_unknown_alias_count_nonneg(ts: Seq<ScalarFieldType>, k: int)
    ensures
        unknown_alias_count(ts, k) >= 0,
    decreases k,
{
    if k > 0 {
        lemma_unknown_alias_count_nonneg(ts, k - 1);
    }
}

pub proof fn lemma_unknown_scalar_count_nonneg(sfs: Seq<ScalarField>, k: int)
    ensures
        unknown_scalar_count(sfs, k) >= 0,
    decreases k,
{
    if k > 0 {
        lemma_unknown_scalar_count_nonneg(sfs, k - 1);
    }
}

/// The scalar type a built-in keyword denotes, if the text is one.
pub open spec fn scalar_keyword(s: Seq<char>) -> Option<ScalarType> {
    if s == "Int"@ {
        Some(ScalarType::Int)
    } else if s == "BigInt"@ {
        Some(ScalarType::BigInt)
    } else if s == "Float"@ {
        Some(ScalarType::Float)
    } else if s == "Decimal"@ {
        Some(ScalarType::Decimal)
    } else if s == "Boolean"@ {
        Some(ScalarType::Boolean)
    } else if s == "String"@ {
        Some(ScalarType::Text)
    } else if s == "DateTime"@ {
        Some(ScalarType::DateTime)
    } else if s == "Json"@ {
        Some(ScalarType::Json)
    } else if s == "Bytes"@ {
        Some(ScalarType::Bytes)
    } else {
        None
    }
}

/// Recognize a built-in scalar keyword.
pub fn parse_scalar(name: &String) -> (r: Option<ScalarType>)
    ensures
        r == scalar_keyword(name@),
{
    if *name == "Int".to_owned() {
        Some(ScalarType::Int)
    } else if *name == "BigInt".to_owned() {
        Some(ScalarType::BigInt)
    } else if *name == "Float".to_owned() {
        Some(ScalarType::Float)
    } else if *name == "Decimal".to_owned() {
        Some(ScalarType::Decimal)
    } else if *name == "Boolean".to_owned() {
        Some(ScalarType::Boolean)
    } else if *name == "String".to_owned() {
        Some(ScalarType::Text)
    } else if *name == "DateTime".to_owned() {
        Some(ScalarType::DateTime)
    } else if *name == "Json".to_owned() {
        Some(ScalarType::Json)
    } else if *name == "Bytes".to_owned() {
        Some(ScalarType::Bytes)
    } else {
        None
    }
}

/// The target text of a type alias.
pub open spec fn alias_target(tp: Top) -> Seq<char> {
    match tp {
        Top::Alias { target, .. } => target@,
        _ => Seq::empty(),
    }
}

fn alias_target_of<'a>(tp: &'a Top) -> (r: &'a String)
    requires
        tp is Alias,
    ensures
        r@ == alias_target(*tp),
{
    match tp {
        Top::Alias { target, .. } => target,
        _ => unreached(),
    }
}

/// How one scalar-shaped type reference resolved.
#[derive(Clone, Copy, PartialEq, Eq, Structural, Debug)]
pub enum FieldResolution {
    Scalar(ScalarFieldType),
    Relation(ModelId),
}

/// The first registered top-level item whose name is the text `s`.
pub open spec fn lookup_top_spec(names: Names, m: Seq<Seq<char>>, s: Seq<char>) -> Option<int> {
    first_entry_with_name(names.tops@, m, s, 0)
}

/// What one declared type text resolves to, as a pure function of the text,
/// the name tables, the expanded alias table, the referencing file and the
/// owner kind: a built-in keyword maps to its scalar; any other text is the
/// first item bearing it, an enum or composite type directly, a model as a
/// relation where models are admitted, a same-file alias through its
/// expansion; everything else is the error variant.
pub open spec fn field_resolution_spec(
    names: Names,
    m: Seq<Seq<char>>,
    aliases: Seq<ScalarFieldType>,
    owner_file: int,
    allow_model: bool,
    declared: Seq<char>,
) -> FieldResolution {
    match scalar_keyword(declared) {
        Some(st) => FieldResolution::Scalar(ScalarFieldType::BuiltInScalar(st)),
        None => match lookup_top_spec(names, m, declared) {
            None => FieldResolution::Scalar(ScalarFieldType::Unknown),
            Some(k) => match names.tops@[k].kind {
                TopKindId::Model(mid) => if allow_model {
                    FieldResolution::Relation(mid)
                } else {
                    FieldResolution::Scalar(ScalarFieldType::Unknown)
                },
                TopKindId::Enum(id) => FieldResolution::Scalar(ScalarFieldType::Enum(id)),
                TopKindId::CompositeType(id) => FieldResolution::Scalar(
                    ScalarFieldType::CompositeType(id),
                ),
                TopKindId::Alias(aid) => if names.tops@[k].file.0 != owner_file {
                    FieldResolution::Scalar(ScalarFieldType::Unknown)
                } else {
                    FieldResolution::Scalar(aliases[aid.0 as int])
                },
            },
        },
    }
}

/// Growing the interner does not change what any text resolves to: the
/// lookup only reads the already-interned names of the registered entries.
pub proof fn lemma_field_resolution_spec_extend(
    names: Names,
    files: Seq<FileEntry>,
    m: Seq<Seq<char>>,
    m2: Seq<Seq<char>>,
    aliases: Seq<ScalarFieldType>,
    owner_file: int,
    allow_model: bool,
    declared: Seq<char>,
)
    requires
        names_ok(names, files, m),
        interner_extends(m, m2),
    ensures
        field_resolution_spec(names, m, aliases, owner_file, allow_model, declared)
            == field_resolution_spec(names, m2, aliases, owner_file, allow_model, declared),
{
    assert forall|j: int|
        0 <= j < names.tops@.len() implies (#[trigger] names.tops@[j]).name.0 < m.len() by {
        lemma_names_entry(names, files, m, j);
    }
    lemma_first_entry_extend(names.tops@, m, m2, declared, 0);
}

/// The alias ids a visited vector marks.
pub open spec fn visited_set(v: Seq<bool>) -> Set<int> {
    Set::new(|j: int| 0 <= j < v.len() && v[j])
}

/// Every registered entry's name id lies below the interner's length.
pub proof fn lemma_entry_ids_bounded(names: Names, files: Seq<FileEntry>, m: Seq<Seq<char>>)
    requires
        names_ok(names, files, m),
    ensures
        forall|j: int| 0 <= j < names.tops@.len() ==> (#[trigger] names.tops@[j]).name.0 < m.len(),
{
    assert forall|j: int|
        0 <= j < names.tops@.len() implies (#[trigger] names.tops@[j]).name.0 < m.len() by {
        lemma_names_entry(names, files, m, j);
    }
}

/// One bounded walk of an alias target chain: a built-in keyword ends it, a
/// same-file, unvisited alias continues it, and everything else — a miss, a
/// model, a cross-file alias, a revisit, or an exhausted budget — is the
/// error variant.
pub open spec fn alias_expansion_step(
    files: Seq<FileEntry>,
    names: Names,
    m: Seq<Seq<char>>,
    home: int,
    target: Seq<char>,
    visited: Set<int>,
    fuel: nat,
) -> ScalarFieldType
    decreases fuel,
{
    match scalar_keyword(target) {
        Some(st) => ScalarFieldType::BuiltInScalar(st),
        None => match lookup_top_spec(names, m, target) {
            None => ScalarFieldType::Unknown,
            Some(k) => match names.tops@[k].kind {
                TopKindId::Model(_) => ScalarFieldType::Unknown,
                TopKindId::Enum(id) => ScalarFieldType::Enum(id),
                TopKindId::CompositeType(id) => ScalarFieldType::CompositeType(id),
                TopKindId::Alias(aid) => if names.tops@[k].file.0 != home {
                    ScalarFieldType::Unknown
                } else if visited.contains(aid.0 as int) {
                    ScalarFieldType::Unknown
                } else if fuel == 0 {
                    ScalarFieldType::Unknown
                } else {
                    alias_expansion_step(
                        files,
                        names,
                        m,
                        home,
                        alias_target(entry_decl(files, names.tops@[k])),
                        visited.insert(aid.0 as int),
                        (fuel - 1) as nat,
                    )
                },
            },
        },
    }
}

/// What alias `a` expands to: its chain walked from its own file with the
/// alias count as budget, itself already marked visited.
pub open spec fn alias_expansion(
    files: Seq<FileEntry>,
    names: Names,
    m: Seq<Seq<char>>,
    a: int,
) -> ScalarFieldType {
    let e0 = names.tops@[names.aliases@[a] as int];
    alias_expansion_step(
        files,
        names,
        m,
        e0.file.0 as int,
        alias_target(entry_decl(files, e0)),
        Set::empty().insert(a),
        names.aliases@.len() as nat,
    )
}

/// Growing the interner does not change what an alias chain expands to.
pub proof fn lemma_alias_expansion_step_extend(
    files: Seq<FileEntry>,
    names: Names,
    m: Seq<Seq<char>>,
    m2: Seq<Seq<char>>,
    home: int,
    target: Seq<char>,
    visited: Set<int>,
    fuel: nat,
)
    requires
        interner_extends(m, m2),
        forall|j: int| 0 <= j < names.tops@.len() ==> (#[trigger] names.tops@[j]).name.0 < m.len(),
    ensures
        alias_expansion_step(files, names, m, home, target, visited, fuel)
            == alias_expansion_step(files, names, m2, home, target, visited, fuel),
    decreases fuel,
{
    lemma_first_entry_extend(names.tops@, m, m2, target, 0);
    if scalar_keyword(target) is None {
        match lookup_top_spec(names, m, target) {
            None => {},
            Some(k) => match names.tops@[k].kind {
                TopKindId::Alias(aid) => {
                    if names.tops@[k].file.0 == home && !visited.contains(aid.0 as int) && fuel
                        > 0 {
                        lemma_alias_expansion_step_extend(
                            files,
                            names,
                            m,
                            m2,
                            home,
                            alias_target(entry_decl(files, names.tops@[k])),
                            visited.insert(aid.0 as int),
                            (fuel - 1) as nat,
                        );
                    }
                },
                _ => {},
            },
        }
    }
}

/// Growing the interner does not change what any alias expands to.
pub proof fn lemma_alias_expansion_extend(
    names: Names,
    files: Seq<FileEntry>,
    m: Seq<Seq<char>>,
    m2: Seq<Seq<char>>,
    a: int,
)
    requires
        names_ok(names, files, m),
        interner_extends(m, m2),
    ensures
        alias_expansion(files, names, m, a) == alias_expansion(files, names, m2, a),
{
    lemma_entry_ids_bounded(names, files, m);
    let e0 = names.tops@[names.aliases@[a] as int];
    lemma_alias_expansion_step_extend(
        files,
        names,
        m,
        m2,
        e0.file.0 as int,
        alias_target(entry_decl(files, e0)),
        Set::empty().insert(a),
        names.aliases@.len() as nat,
    );
}

/// Expand one type alias to its ultimate target, following the chain only
/// through aliases of the same file, with a visited set bounding the walk.
/// Every alias on a cycle receives the error variant with one cycle
/// diagnostic when its own expansion runs.
#[verifier::rlimit(50)]
fn resolve_alias(
    files: &Files,
    names: &Names,
    interner: &mut StringInterner,
    diagnostics: &mut Diagnostics,
    a: usize,
) -> (r: (ScalarFieldType, bool))
    requires
        a < names.aliases@.len(),
        old(interner).wf(),
        names_ok(*names, files.entries@, old(interner)@),
    ensures
        final(interner).wf(),
        interner_extends(old(interner)@, final(interner)@),
        names_ok(*names, files.entries@, final(interner)@),
        appended_only(old(diagnostics)@, final(diagnostics)@, type_kind_pred()),
        // Exactly one diagnostic per failed expansion, none otherwise. The
        // second component reports whether the failure was a cycle.
        r.0 is Unknown <==> final(diagnostics)@.len() == old(diagnostics)@.len() + 1,
        !(r.0 is Unknown) ==> final(diagnostics)@ == old(diagnostics)@,
        // The slot's value is exactly what the alias chain expands to.
        r.0 == alias_expansion(files.entries@, *names, final(interner)@, a as int),
{
    let ghost fs = files.entries@;
    let ghost m_in = old(interner)@;
    let ghost d_in = old(diagnostics)@;
    let k0 = names.aliases[a];
    proof {
        lemma_names_entry(*names, fs, interner@, k0 as int);
    }
    let e0 = names.tops[k0];
    let top0 = &files.entries[e0.file.0].source.ast.tops[e0.top_index];
    let span0 = match top0 {
        Top::Alias { span, .. } => *span,
        _ => unreached(),
    };
    let mut visited: Vec<bool> = Vec::new();
    while visited.len() < names.aliases.len()
        invariant
            visited@.len() <= names.aliases@.len(),
            forall|j: int| 0 <= j < visited@.len() ==> !(#[trigger] visited@[j]),
        decreases names.aliases@.len() - visited@.len(),
    {
        visited.push(false);
    }
    visited[a] = true;
    let mut cur_target: &String = alias_target_of(top0);
    let mut fuel: usize = names.aliases.len();
    let mut done = false;
    let mut result = ScalarFieldType::Unknown;
    let mut was_cycle = false;
    proof {
        assert(visited_set(visited@) =~= Set::empty().insert(a as int));
        assert(alias_expansion(fs, *names, interner@, a as int) == alias_expansion_step(
            fs,
            *names,
            interner@,
            e0.file.0 as int,
            cur_target@,
            visited_set(visited@),
            fuel as nat,
        ));
    }
    while !done
        invariant
            fs == files.entries@,
            visited@.len() == names.aliases@.len(),
            e0.file.0 < fs.len(),
            interner.wf(),
            interner_extends(m_in, interner@),
            names_ok(*names, fs, interner@),
            appended_only(d_in, diagnostics@, type_kind_pred()),
            !done ==> diagnostics@ == d_in && result is Unknown,
            done ==> (result is Unknown ==> diagnostics@.len() == d_in.len() + 1),
            done ==> (!(result is Unknown) ==> diagnostics@ == d_in),
            !done ==> alias_expansion(fs, *names, interner@, a as int) == alias_expansion_step(
                fs,
                *names,
                interner@,
                e0.file.0 as int,
                cur_target@,
                visited_set(visited@),
                fuel as nat,
            ),
            done ==> result == alias_expansion(fs, *names, interner@, a as int),
        decreases fuel + (if done {
            0int
        } else {
            1int
        }),
    {
        match parse_scalar(cur_target) {
            Some(st) => {
                result = ScalarFieldType::BuiltInScalar(st);
                done = true;
            },
            None => {
                let ghost m0 = interner@;
                let sid = interner.intern(cur_target);
                proof {
                    lemma_names_inv_extend(*names, fs, m0, interner@, fs.len() as int, 0);
                    lemma_entry_ids_bounded(*names, fs, m0);
                    lemma_alias_expansion_step_extend(
                        fs,
                        *names,
                        m0,
                        interner@,
                        e0.file.0 as int,
                        cur_target@,
                        visited_set(visited@),
                        fuel as nat,
                    );
                    lemma_alias_expansion_step_extend(
                        fs,
                        *names,
                        m0,
                        interner@,
                        names.tops@[names.aliases@[a as int] as int].file.0 as int,
                        alias_target(entry_decl(fs, names.tops@[names.aliases@[a as int] as int])),
                        Set::empty().insert(a as int),
                        names.aliases@.len() as nat,
                    );
                    lemma_table_lookup_is_first(*names, fs, interner@, sid);
                    assert(interner@[sid.0 as int] == cur_target@);
                }
                match names.lookup_top(sid) {
                    None => {
                        diagnostics.push(
                            DatamodelError {
                                file_id: e0.file,
                                span: span0,
                                kind: DiagnosticKind::UnresolvedTypeReference,
                            },
                        );
                        result = ScalarFieldType::Unknown;
                        done = true;
                    },
                    Some(k2) => {
                        proof {
                            lemma_names_entry(*names, fs, interner@, k2 as int);
                        }
                        let e2 = names.tops[k2];
                        match e2.kind {
                            TopKindId::Model(_) => {
                                // An alias may not name a model.
                                diagnostics.push(
                                    DatamodelError {
                                        file_id: e0.file,
                                        span: span0,
                                        kind: DiagnosticKind::UnresolvedTypeReference,
                                    },
                                );
                                result = ScalarFieldType::Unknown;
                                done = true;
                            },
                            TopKindId::Enum(id) => {
                                result = ScalarFieldType::Enum(id);
                                done = true;
                            },
                            TopKindId::CompositeType(id) => {
                                result = ScalarFieldType::CompositeType(id);
                                done = true;
                            },
                            TopKindId::Alias(aid2) => {
                                if e2.file.0 != e0.file.0 {
                                    // Aliases are file-local: cross-file
                                    // alias references do not resolve.
                                    diagnostics.push(
                                        DatamodelError {
                                            file_id: e0.file,
                                            span: span0,
                                            kind: DiagnosticKind::UnresolvedTypeReference,
                                        },
                                    );
                                    result = ScalarFieldType::Unknown;
                                    done = true;
                                } else if visited[aid2.0] {
                                    diagnostics.push(
                                        DatamodelError {
                                            file_id: e0.file,
                                            span: span0,
                                            kind: DiagnosticKind::AliasCycle,
                                        },
                                    );
                                    result = ScalarFieldType::Unknown;
                                    was_cycle = true;
                                    done = true;
                                } else if fuel == 0 {
                                    // Defensive bound: the budget covers
                                    // every distinct alias, so a spent
                                    // budget means the chain revisited one.
                                    diagnostics.push(
                                        DatamodelError {
                                            file_id: e0.file,
                                            span: span0,
                                            kind: DiagnosticKind::AliasCycle,
                                        },
                                    );
                                    result = ScalarFieldType::Unknown;
                                    was_cycle = true;
                                    done = true;
                                } else {
                                    fuel -= 1;
                                    let ghost vis0 = visited@;
                                    visited[aid2.0] = true;
                                    let top2 = &files.entries[e2.file.0].source.ast.tops[
                                        e2.top_index
                                    ];
                                    cur_target = alias_target_of(top2);
                                    proof {
                                        assert(visited_set(visited@) =~= visited_set(
                                            vis0,
                                        ).insert(aid2.0 as int));
                                    }
                                }
                            },
                        }
                    },
                }
            },
        }
    }
    (result, was_cycle)
}

/// Resolve one declared field type: a built-in keyword, or a named item
/// looked up in the tables. `allow_model` is false inside composite types,
/// whose fields may not reference models. Aliases resolve through their
/// pre-expanded result and must live in the referencing file.
#[verifier::rlimit(50)]
fn resolve_field_type(
    files: &Files,
    names: &Names,
    alias_types: &Vec<ScalarFieldType>,
    alias_cycles: &Vec<bool>,
    interner: &mut StringInterner,
    diagnostics: &mut Diagnostics,
    owner_file: FileId,
    span: Span,
    declared: &String,
    allow_model: bool,
) -> (r: FieldResolution)
    requires
        old(interner).wf(),
        names_ok(*names, files.entries@, old(interner)@),
        alias_types@.len() == names.aliases@.len(),
        alias_cycles@.len() == names.aliases@.len(),
    ensures
        final(interner).wf(),
        interner_extends(old(interner)@, final(interner)@),
        names_ok(*names, files.entries@, final(interner)@),
        appended_only(old(diagnostics)@, final(diagnostics)@, type_kind_pred()),
        r is Relation ==> allow_model,
        // Exactly one diagnostic per failed resolution, none otherwise.
        r matches FieldResolution::Scalar(t) ==> ((t is Unknown ==> final(diagnostics)@.len()
            == old(diagnostics)@.len() + 1) && (!(t is Unknown) ==> final(diagnostics)@ == old(
            diagnostics,
        )@)),
        r is Relation ==> final(diagnostics)@ == old(diagnostics)@,
        r matches FieldResolution::Relation(mid) ==> mid.0 < names.models@.len()
            && names.tops@[names.models@[mid.0 as int] as int].name.0 < final(interner)@.len()
            && final(interner)@[names.tops@[names.models@[mid.0 as int] as int].name.0 as int]
            == declared@,
        // The result is exactly what the declared text resolves to.
        r == field_resolution_spec(
            *names,
            final(interner)@,
            alias_types@,
            owner_file.0 as int,
            allow_model,
            declared@,
        ),
{
    let ghost fs = files.entries@;
    match parse_scalar(declared) {
        Some(st) => FieldResolution::Scalar(ScalarFieldType::BuiltInScalar(st)),
        None => {
            let ghost m0 = interner@;
            let sid = interner.intern(declared);
            proof {
                lemma_names_inv_extend(*names, fs, m0, interner@, fs.len() as int, 0);
                lemma_table_lookup_is_first(*names, fs, interner@, sid);
                assert(interner@[sid.0 as int] == declared@);
            }
            match names.lookup_top(sid) {
                None => {
                    diagnostics.push(
                        DatamodelError {
                            file_id: owner_file,
                            span,
                            kind: DiagnosticKind::UnresolvedTypeReference,
                        },
                    );
                    FieldResolution::Scalar(ScalarFieldType::Unknown)
                },
                Some(k2) => {
                    proof {
                        lemma_names_entry(*names, fs, interner@, k2 as int);
                    }
                    let e2 = names.tops[k2];
                    match e2.kind {
                        TopKindId::Model(mid) => {
                            if allow_model {
                                FieldResolution::Relation(mid)
                            } else {
                                diagnostics.push(
                                    DatamodelError {
                                        file_id: owner_file,
                                        span,
                                        kind: DiagnosticKind::UnresolvedTypeReference,
                                    },
                                );
                                FieldResolution::Scalar(ScalarFieldType::Unknown)
                            }
                        },
                        TopKindId::Enum(id) => FieldResolution::Scalar(ScalarFieldType::Enum(id)),
                        TopKindId::CompositeType(id) => FieldResolution::Scalar(
                            ScalarFieldType::CompositeType(id),
                        ),
                        TopKindId::Alias(aid) => {
                            if e2.file.0 != owner_file.0 {
                                diagnostics.push(
                                    DatamodelError {
                                        file_id: owner_file,
                                        span,
                                        kind: DiagnosticKind::UnresolvedTypeReference,
                                    },
                                );
                                FieldResolution::Scalar(ScalarFieldType::Unknown)
                            } else {
                                let expanded = alias_types[aid.0];
                                if let ScalarFieldType::Unknown = expanded {
                                    // The consumer of a failed alias gets
                                    // its own diagnostic, naming the cycle
                                    // when a cycle was the cause.
                                    let kind = if alias_cycles[aid.0] {
                                        DiagnosticKind::AliasCycle
                                    } else {
                                        DiagnosticKind::UnresolvedTypeReference
                                    };
                                    diagnostics.push(
                                        DatamodelError { file_id: owner_file, span, kind },
                                    );
                                }
                                FieldResolution::Scalar(expanded)
                            }
                        },
                    }
                },
            }
        },
    }
}

/// Resolve every alias target and every field of every model and composite
/// type, in declaration order.
#[verifier::rlimit(100)]
pub fn resolve_types(
    files: &Files,
    names: &Names,
    interner: &mut StringInterner,
    diagnostics: &mut Diagnostics,
) -> (types: Types)
    requires
        old(interner).wf(),
        names_ok(*names, files.entries@, old(interner)@),
    ensures
        final(interner).wf(),
        interner_extends(old(interner)@, final(interner)@),
        names_ok(*names, files.entries@, final(interner)@),
        types_ok(files.entries@, *names, final(interner)@, types),
        appended_only(old(diagnostics)@, final(diagnostics)@, type_kind_pred()),
        // Every alias slot holds exactly what its chain expands to.
        forall|x: int|
            0 <= x < types.alias_types@.len() ==> #[trigger] types.alias_types@[x]
                == alias_expansion(files.entries@, *names, final(interner)@, x),
        // Every declared field of every model and composite type received
        // exactly one slot, scalar or relation.
        types.scalar_fields@.len() + types.relation_fields@.len() == entry_fields_count(
            files.entries@,
            names.tops@,
            names.tops@.len() as int,
        ),
        // One diagnostic per item that resolved to the error variant.
        final(diagnostics)@.len() == old(diagnostics)@.len() + unknown_alias_count(
            types.alias_types@,
            types.alias_types@.len() as int,
        ) + unknown_scalar_count(types.scalar_fields@, types.scalar_fields@.len() as int),
{
    let ghost fs = files.entries@;
    let mut types = Types {
        scalar_fields: Vec::new(),
        relation_fields: Vec::new(),
        alias_types: Vec::new(),
    };
    // Expand every alias first: fields then resolve through the results.
    let mut alias_cycles: Vec<bool> = Vec::new();
    let mut a: usize = 0;
    while a < names.aliases.len()
        invariant
            fs == files.entries@,
            a <= names.aliases@.len(),
            alias_cycles@.len() == a,
            types.alias_types@.len() == a,
            forall|x: int|
                0 <= x < a ==> #[trigger] types.alias_types@[x] == alias_expansion(
                    fs,
                    *names,
                    interner@,
                    x,
                ),
            types.scalar_fields@.len() == 0,
            types.relation_fields@.len() == 0,
            interner.wf(),
            interner_extends(old(interner)@, interner@),
            names_ok(*names, fs, interner@),
            appended_only(old(diagnostics)@, diagnostics@, type_kind_pred()),
            diagnostics@.len() == old(diagnostics)@.len() + unknown_alias_count(
                types.alias_types@,
                a as int,
            ),
        decreases names.aliases@.len() - a,
    {
        let ghost m_pre = interner@;
        let (t, cyc) = resolve_alias(files, names, interner, diagnostics, a);
        proof {
            assert forall|x: int|
                0 <= x < types.alias_types@.len() implies #[trigger] types.alias_types@[x]
                    == alias_expansion(fs, *names, interner@, x) by {
                lemma_alias_expansion_extend(*names, fs, m_pre, interner@, x);
            }
        }
        let ghost aliases0 = types.alias_types@;
        types.alias_types.push(t);
        alias_cycles.push(cyc);
        proof {
            lemma_unknown_alias_count_push(aliases0, t, a as int);
            assert(unknown_alias_count(types.alias_types@, a as int + 1) == unknown_alias_count(
                types.alias_types@,
                a as int,
            ) + if t is Unknown {
                1int
            } else {
                0int
            });
        }
        a += 1;
    }
    // Resolve the fields of every model and composite type.
    let mut k: usize = 0;
    while k < names.tops.len()
        invariant
            fs == files.entries@,
            k <= names.tops@.len(),
            types.alias_types@.len() == names.aliases@.len(),
            alias_cycles@.len() == names.aliases@.len(),
            forall|x: int|
                0 <= x < types.alias_types@.len() ==> #[trigger] types.alias_types@[x]
                    == alias_expansion(fs, *names, interner@, x),
            interner.wf(),
            interner_extends(old(interner)@, interner@),
            names_ok(*names, fs, interner@),
            types_ok(fs, *names, interner@, types),
            appended_only(old(diagnostics)@, diagnostics@, type_kind_pred()),
            diagnostics@.len() == old(diagnostics)@.len() + unknown_alias_count(
                types.alias_types@,
                types.alias_types@.len() as int,
            ) + unknown_scalar_count(types.scalar_fields@, types.scalar_fields@.len() as int),
            types.scalar_fields@.len() + types.relation_fields@.len() == entry_fields_count(
                fs,
                names.tops@,
                k as int,
            ),
        decreases names.tops@.len() - k,
    {
        let e = names.tops[k];
        proof {
            lemma_names_entry(*names, fs, interner@, k as int);
        }
        let process: Option<bool> = match e.kind {
            TopKindId::Model(_) => Some(true),
            TopKindId::CompositeType(_) => Some(false),
            TopKindId::Enum(_) => None,
            TopKindId::Alias(_) => None,
        };
        if let Some(is_model) = process {
        let top = &files.entries[e.file.0].source.ast.tops[e.top_index];
        let flds = match top {
            Top::Model { fields, .. } => fields,
            Top::CompositeType { fields, .. } => fields,
            _ => unreached(),
        };
        let mut fi: usize = 0;
        while fi < flds.len()
            invariant
                fs == files.entries@,
                fi <= flds@.len(),
                k < names.tops@.len(),
                e == names.tops@[k as int],
                flds@ == top_fields(entry_decl(fs, e)),
                e.file.0 < fs.len(),
                is_model <==> e.kind is Model,
                types.alias_types@.len() == names.aliases@.len(),
                alias_cycles@.len() == names.aliases@.len(),
                forall|x: int|
                    0 <= x < types.alias_types@.len() ==> #[trigger] types.alias_types@[x]
                        == alias_expansion(fs, *names, interner@, x),
                interner.wf(),
                interner_extends(old(interner)@, interner@),
                names_ok(*names, fs, interner@),
                types_ok(fs, *names, interner@, types),
                appended_only(old(diagnostics)@, diagnostics@, type_kind_pred()),
                diagnostics@.len() == old(diagnostics)@.len() + unknown_alias_count(
                    types.alias_types@,
                    types.alias_types@.len() as int,
                ) + unknown_scalar_count(
                    types.scalar_fields@,
                    types.scalar_fields@.len() as int,
                ),
                types.scalar_fields@.len() + types.relation_fields@.len() == entry_fields_count(
                    fs,
                    names.tops@,
                    k as int,
                ) + fi,
            decreases flds@.len() - fi,
        {
            let fld = &flds[fi];
            let ghost m_before = interner@;
            let ghost types_before = types;
            let r = resolve_field_type(
                files,
                names,
                &types.alias_types,
                &alias_cycles,
                interner,
                diagnostics,
                e.file,
                fld.span,
                &fld.declared_type,
                is_model,
            );
            proof {
                lemma_types_ok_extend(fs, *names, m_before, interner@, types);
                assert forall|x: int|
                    0 <= x < types.alias_types@.len() implies #[trigger] types.alias_types@[x]
                        == alias_expansion(fs, *names, interner@, x) by {
                    lemma_alias_expansion_extend(*names, fs, m_before, interner@, x);
                }
            }
            let ghost scalars0 = types.scalar_fields@;
            match r {
                FieldResolution::Scalar(tpe) => {
                    types.scalar_fields.push(
                        ScalarField { top: k, field_index: fi, tpe, arity: fld.arity },
                    );
                    proof {
                        lemma_unknown_scalar_count_push(
                            scalars0,
                            ScalarField { top: k, field_index: fi, tpe, arity: fld.arity },
                            scalars0.len() as int,
                        );
                        assert(unknown_scalar_count(
                            types.scalar_fields@,
                            types.scalar_fields@.len() as int,
                        ) == unknown_scalar_count(scalars0, scalars0.len() as int) + if tpe
                            is Unknown {
                            1int
                        } else {
                            0int
                        });
                    }
                },
                FieldResolution::Relation(mid2) => {
                    let mid = match e.kind {
                        TopKindId::Model(mid) => mid,
                        _ => unreached(),
                    };
                    types.relation_fields.push(
                        RelationField {
                            model: mid,
                            field_index: fi,
                            referenced_model: mid2,
                            arity: fld.arity,
                            file: e.file,
                            span: fld.span,
                        },
                    );
                },
            }
            proof {
                if r is Relation {
                    let owner = e.kind->Model_0;
                    assert(e.kind is Model);
                    assert(names.tops@[k as int].kind == TopKindId::Model(owner));
                    assert(owner.0 < names.models@.len() && names.models@[owner.0 as int]
                        == k as int);
                }
                assert forall|i: int| 0 <= i < types.scalar_fields@.len() implies scalar_field_ok(
                    fs,
                    *names,
                    #[trigger] types.scalar_fields@[i],
                ) by {
                    if i < types_before.scalar_fields@.len() {
                        assert(scalar_field_ok(fs, *names, types_before.scalar_fields@[i]));
                    }
                }
                assert forall|i: int| 0 <= i < types.relation_fields@.len()
                    implies relation_field_ok(
                    fs,
                    *names,
                    interner@,
                    #[trigger] types.relation_fields@[i],
                ) by {
                    if i < types_before.relation_fields@.len() {
                        assert(relation_field_ok(
                            fs,
                            *names,
                            interner@,
                            types_before.relation_fields@[i],
                        ));
                    }
                }
            }
            fi += 1;
        }
        }
        k += 1;
    }
    types
}

} // verus!
