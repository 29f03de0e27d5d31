//! Pass one: name resolution. Walks every syntax tree once, assigns a stable
//! id to every named top-level item, and builds the name lookup tables,
//! detecting duplicate and reserved names. The pass never aborts: it records
//! every error it meets and finishes its full sweep.

use vstd::prelude::*;
use crate::ast::{count_in_tops, top_name, top_span, EnumValue, Field, Top};
use crate::diagnostics::{DatamodelError, DiagnosticKind, Diagnostics, FileId, Span};
use crate::files::{FileEntry, Files};
use crate::ids::{AliasId, CompositeTypeId, EnumId, ModelId};
use crate::interner::{
    interner_injective, lemma_distinct_ids_distinct_text, StringId, StringInterner,
};

verus! {

/// The tops of one file.
pub open spec fn file_tops(files: Seq<FileEntry>, f: int) -> Seq<Top> {
    files[f].source.ast.tops@
}

/// Number of top-level declarations in the files before file `f`.
pub open spec fn tops_before(files: Seq<FileEntry>, f: int) -> int
    decreases f,
{
    if f <= 0 {
        0
    } else {
        tops_before(files, f - 1) + file_tops(files, f - 1).len()
    }
}

/// Number of declarations satisfying `p` strictly before position `(f, t)`.
pub open spec fn count_upto(files: Seq<FileEntry>, f: int, t: int, p: spec_fn(Top) -> bool) -> int {
    count_in_files(files, f, p) + count_in_tops(file_tops(files, f), t, p)
}

/// Number of declarations satisfying `p` in the files before file `f`.
pub open spec fn count_in_files(files: Seq<FileEntry>, f: int, p: spec_fn(Top) -> bool) -> int
    decreases f,
{
    if f <= 0 {
        0
    } else {
        count_in_files(files, f - 1, p) + count_in_tops(
            file_tops(files, f - 1),
            file_tops(files, f - 1).len() as int,
            p,
        )
    }
}

pub open spec fn model_count_upto(files: Seq<FileEntry>, f: int, t: int) -> int {
    count_upto(files, f, t, |tp: Top| tp is Model)
}

pub open spec fn enum_count_upto(files: Seq<FileEntry>, f: int, t: int) -> int {
    count_upto(files, f, t, |tp: Top| tp is Enum)
}

pub open spec fn composite_count_upto(files: Seq<FileEntry>, f: int, t: int) -> int {
    count_upto(files, f, t, |tp: Top| tp is CompositeType)
}

pub open spec fn alias_count_upto(files: Seq<FileEntry>, f: int, t: int) -> int {
    count_upto(files, f, t, |tp: Top| tp is Alias)
}

pub open spec fn model_count_total(files: Seq<FileEntry>) -> int {
    model_count_upto(files, files.len() as int, 0)
}

pub open spec fn enum_count_total(files: Seq<FileEntry>) -> int {
    enum_count_upto(files, files.len() as int, 0)
}

pub open spec fn composite_count_total(files: Seq<FileEntry>) -> int {
    composite_count_upto(files, files.len() as int, 0)
}

pub open spec fn alias_count_total(files: Seq<FileEntry>) -> int {
    alias_count_upto(files, files.len() as int, 0)
}

/// Declaration `(f2, t2)` comes strictly before `(f, t)` in input order.
pub open spec fn decl_earlier(f2: int, t2: int, f: int, t: int) -> bool {
    f2 < f || (f2 == f && t2 < t)
}

/// `(f, t)` addresses an actual declaration.
pub open spec fn valid_decl(files: Seq<FileEntry>, f: int, t: int) -> bool {
    0 <= f < files.len() && 0 <= t < file_tops(files, f).len()
}

/// Some declaration before `(f, t)` bears the same name as `(f, t)`.
pub open spec fn dup_before(files: Seq<FileEntry>, f: int, t: int) -> bool {
    exists|f2: int, t2: int|
        valid_decl(files, f2, t2) && decl_earlier(f2, t2, f, t) && top_name(
            file_tops(files, f2)[t2],
        ) == top_name(file_tops(files, f)[t])
}

/// The per-kind id carried by a top-level entry.
#[derive(Clone, Copy, PartialEq, Eq, Structural, Debug)]
pub enum TopKindId {
    Model(ModelId),
    Enum(EnumId),
    CompositeType(CompositeTypeId),
    Alias(AliasId),
}

/// One registered top-level item.
#[derive(Clone, Copy, PartialEq, Eq, Structural, Debug)]
pub struct TopEntry {
    pub file: FileId,
    pub top_index: usize,
    pub name: StringId,
    pub kind: TopKindId,
}

/// The name tables built by pass one. `tops` holds one entry per top-level
/// declaration, in input order; `top_by_name` maps an interned name to the
/// first entry bearing it; the per-kind vectors map each dense per-kind id
/// back to its entry.
#[derive(Debug)]
pub struct Names {
    pub tops: Vec<TopEntry>,
    pub top_by_name: Vec<Option<usize>>,
    pub models: Vec<usize>,
    pub enums: Vec<usize>,
    pub composites: Vec<usize>,
    pub aliases: Vec<usize>,
}

/// Entry `e` correctly describes declaration `(f, t)` under interner state `m`.
pub open spec fn entry_matches(
    files: Seq<FileEntry>,
    m: Seq<Seq<char>>,
    e: TopEntry,
    f: int,
    t: int,
) -> bool {
    &&& e.file.0 == f
    &&& e.top_index == t
    &&& e.name.0 < m.len()
    &&& m[e.name.0 as int] == top_name(file_tops(files, f)[t])
    &&& kind_matches(e.kind, file_tops(files, f)[t])
}

pub open spec fn kind_matches(k: TopKindId, tp: Top) -> bool {
    match tp {
        Top::Model { .. } => k is Model,
        Top::Enum { .. } => k is Enum,
        Top::CompositeType { .. } => k is CompositeType,
        Top::Alias { .. } => k is Alias,
    }
}

/// The per-kind id vectors and the entries' kind ids agree both ways.
pub open spec fn kind_vecs_ok(names: Names) -> bool {
    &&& forall|k: int|
        0 <= k < names.models@.len() ==> #[trigger] names.models@[k] < names.tops@.len()
            && names.tops@[names.models@[k] as int].kind == TopKindId::Model(ModelId(k as usize))
    &&& forall|k: int|
        0 <= k < names.enums@.len() ==> #[trigger] names.enums@[k] < names.tops@.len()
            && names.tops@[names.enums@[k] as int].kind == TopKindId::Enum(EnumId(k as usize))
    &&& forall|k: int|
        0 <= k < names.composites@.len() ==> #[trigger] names.composites@[k] < names.tops@.len()
            && names.tops@[names.composites@[k] as int].kind == TopKindId::CompositeType(
            CompositeTypeId(k as usize),
        )
    &&& forall|k: int|
        0 <= k < names.aliases@.len() ==> #[trigger] names.aliases@[k] < names.tops@.len()
            && names.tops@[names.aliases@[k] as int].kind == TopKindId::Alias(AliasId(k as usize))
    &&& forall|k: int|
        0 <= k < names.tops@.len() ==> match #[trigger] names.tops@[k].kind {
            TopKindId::Model(id) => id.0 < names.models@.len() && names.models@[id.0 as int] == k,
            TopKindId::Enum(id) => id.0 < names.enums@.len() && names.enums@[id.0 as int] == k,
            TopKindId::CompositeType(id) => id.0 < names.composites@.len()
                && names.composites@[id.0 as int] == k,
            TopKindId::Alias(id) => id.0 < names.aliases@.len() && names.aliases@[id.0 as int]
                == k,
        }
}

/// The name table is sound (every hit is the first entry bearing the name)
/// and complete (every registered entry's name can be looked up).
pub open spec fn table_ok(names: Names, m: Seq<Seq<char>>) -> bool {
    &&& names.top_by_name@.len() <= m.len()
    &&& forall|sid: int|
        0 <= sid < names.top_by_name@.len() && #[trigger] names.top_by_name@[sid] is Some ==> {
            let k = names.top_by_name@[sid]->0 as int;
            &&& 0 <= k < names.tops@.len()
            &&& names.tops@[k].name.0 == sid
            &&& forall|j: int| 0 <= j < k ==> (#[trigger] names.tops@[j]).name.0 != sid
        }
    &&& forall|k: int|
        0 <= k < names.tops@.len() ==> (#[trigger] names.tops@[k]).name.0
            < names.top_by_name@.len() && names.top_by_name@[names.tops@[k].name.0 as int] is Some
}

/// The whole invariant of pass one at position `(f, t)`: all declarations
/// strictly before `(f, t)` are registered, counted and indexed.
pub open spec fn names_inv(
    names: Names,
    files: Seq<FileEntry>,
    m: Seq<Seq<char>>,
    f: int,
    t: int,
) -> bool {
    &&& names.tops@.len() == tops_before(files, f) + t
    &&& forall|f2: int, t2: int|
        valid_decl(files, f2, t2) && decl_earlier(f2, t2, f, t) ==> entry_matches(
            files,
            m,
            #[trigger] names.tops@[tops_before(files, f2) + t2],
            f2,
            t2,
        )
    &&& names.models@.len() == model_count_upto(files, f, t)
    &&& names.enums@.len() == enum_count_upto(files, f, t)
    &&& names.composites@.len() == composite_count_upto(files, f, t)
    &&& names.aliases@.len() == alias_count_upto(files, f, t)
    &&& kind_vecs_ok(names)
    &&& table_ok(names, m)
}

/// What pass one guarantees of its output tables.
pub open spec fn names_ok(names: Names, files: Seq<FileEntry>, m: Seq<Seq<char>>) -> bool {
    names_inv(names, files, m, files.len() as int, 0)
}

/// `m2` extends `m`: everything `m` holds, `m2` holds at the same ids.
pub open spec fn interner_extends(m: Seq<Seq<char>>, m2: Seq<Seq<char>>) -> bool {
    m.len() <= m2.len() && forall|k: int| 0 <= k < m.len() ==> m[k] == m2[k]
}

/// Growing the interner invalidates nothing pass one established.
pub proof fn lemma_names_inv_extend(
    names: Names,
    files: Seq<FileEntry>,
    m: Seq<Seq<char>>,
    m2: Seq<Seq<char>>,
    f: int,
    t: int,
)
    requires
        names_inv(names, files, m, f, t),
        interner_extends(m, m2),
    ensures
        names_inv(names, files, m2, f, t),
{
    assert forall|f2: int, t2: int|
        valid_decl(files, f2, t2) && decl_earlier(f2, t2, f, t) implies entry_matches(
        files,
        m2,
        #[trigger] names.tops@[tops_before(files, f2) + t2],
        f2,
        t2,
    ) by {
        assert(entry_matches(files, m, names.tops@[tops_before(files, f2) + t2], f2, t2));
    }
}

pub proof fn lemma_tops_before_mono(files: Seq<FileEntry>, a: int, b: int)
    requires
        0 <= a <= b,
    ensures
        tops_before(files, a) <= tops_before(files, b),
    decreases b,
{
    if a < b {
        lemma_tops_before_mono(files, a, b - 1);
    }
}

/// An earlier declaration has a smaller flat index.
pub proof fn lemma_flat_lt(files: Seq<FileEntry>, f2: int, t2: int, f: int, t: int)
    requires
        valid_decl(files, f2, t2),
        decl_earlier(f2, t2, f, t),
        0 <= f <= files.len(),
        0 <= t,
    ensures
        tops_before(files, f2) + t2 < tops_before(files, f) + t,
{
    if f2 < f {
        assert(tops_before(files, f2 + 1) == tops_before(files, f2) + file_tops(
            files,
            f2,
        ).len());
        lemma_tops_before_mono(files, f2 + 1, f);
    }
}

/// Every flat index below the current position addresses some earlier
/// declaration.
pub proof fn lemma_flat_surjective(files: Seq<FileEntry>, f: int, t: int, k: int)
    requires
        0 <= f <= files.len(),
        0 <= t,
        f < files.len() ==> t <= file_tops(files, f).len(),
        f == files.len() ==> t == 0,
        0 <= k < tops_before(files, f) + t,
    ensures
        exists|f2: int, t2: int|
            valid_decl(files, f2, t2) && decl_earlier(f2, t2, f, t) && tops_before(files, f2) + t2
                == k,
    decreases f, t,
{
    if t > 0 {
        if k == tops_before(files, f) + t - 1 {
            assert(valid_decl(files, f, t - 1) && decl_earlier(f, t - 1, f, t) && tops_before(
                files,
                f,
            ) + (t - 1) == k);
        } else {
            lemma_flat_surjective(files, f, t - 1, k);
            let (f2, t2): (int, int) = choose|f2: int, t2: int|
                valid_decl(files, f2, t2) && decl_earlier(f2, t2, f, t - 1) && tops_before(
                    files,
                    f2,
                ) + t2 == k;
            assert(valid_decl(files, f2, t2) && decl_earlier(f2, t2, f, t) && tops_before(
                files,
                f2,
            ) + t2 == k);
        }
    } else {
        lemma_flat_surjective(files, f - 1, file_tops(files, f - 1).len() as int, k);
        let (f2, t2): (int, int) = choose|f2: int, t2: int|
            valid_decl(files, f2, t2) && decl_earlier(
                f2,
                t2,
                f - 1,
                file_tops(files, f - 1).len() as int,
            ) && tops_before(files, f2) + t2 == k;
        assert(valid_decl(files, f2, t2) && decl_earlier(f2, t2, f, t) && tops_before(files, f2)
            + t2 == k);
    }
}

/// Built-in scalar type names; no top-level item may bear one.
pub open spec fn is_reserved_type_name_spec(s: Seq<char>) -> bool {
    ||| s == "Int"@
    ||| s == "BigInt"@
    ||| s == "Float"@
    ||| s == "Decimal"@
    ||| s == "Boolean"@
    ||| s == "String"@
    ||| s == "DateTime"@
    ||| s == "Json"@
    ||| s == "Bytes"@
}

/// Whether `name` is a reserved built-in type name.
pub fn is_reserved_type_name(name: &String) -> (r: bool)
    ensures
        r == is_reserved_type_name_spec(name@),
{
    *name == "Int".to_owned() || *name == "BigInt".to_owned() || *name == "Float".to_owned()
        || *name == "Decimal".to_owned() || *name == "Boolean".to_owned() || *name
        == "String".to_owned() || *name == "DateTime".to_owned() || *name == "Json".to_owned()
        || *name == "Bytes".to_owned()
}

/// The `(name, span)` pairs of a field list.
pub open spec fn fields_members(fields: Seq<Field>) -> Seq<(Seq<char>, Span)> {
    fields.map(|i: int, fl: Field| (fl.name@, fl.span))
}

/// The `(name, span)` pairs of an enum value list.
pub open spec fn values_members(values: Seq<EnumValue>) -> Seq<(Seq<char>, Span)> {
    values.map(|i: int, v: EnumValue| (v.name@, v.span))
}

/// The `(name, span)` list of the members (fields or enum values) of a top.
pub open spec fn member_list(tp: Top) -> Seq<(Seq<char>, Span)> {
    match tp {
        Top::Model { fields, .. } => fields_members(fields@),
        Top::CompositeType { fields, .. } => fields_members(fields@),
        Top::Enum { values, .. } => values_members(values@),
        Top::Alias { .. } => Seq::empty(),
    }
}

/// The duplicate-member kind a top produces.
pub open spec fn member_dup_kind(tp: Top) -> DiagnosticKind {
    if tp is Enum {
        DiagnosticKind::DuplicateEnumValueName
    } else {
        DiagnosticKind::DuplicateFieldName
    }
}

/// Duplicate-member diagnostics among the first `j` members, in member order:
/// one per member whose name already occurred before it.
pub open spec fn member_dup_diags(
    fid: FileId,
    kind: DiagnosticKind,
    ms: Seq<(Seq<char>, Span)>,
    j: int,
) -> Seq<DatamodelError>
    decreases j,
{
    if j <= 0 {
        Seq::empty()
    } else {
        member_dup_diags(fid, kind, ms, j - 1) + if exists|p: int|
            0 <= p < j - 1 && (#[trigger] ms[p]).0 == ms[j - 1].0 {
            seq![DatamodelError { file_id: fid, span: ms[j - 1].1, kind }]
        } else {
            Seq::empty()
        }
    }
}

/// The diagnostics pass one emits for declaration `(f, t)`: a reserved-name
/// error, then a duplicate-name error, then the duplicate-member errors.
pub open spec fn top_head_diags(files: Seq<FileEntry>, f: int, t: int) -> Seq<DatamodelError> {
    let tp = file_tops(files, f)[t];
    let fid = FileId(f as usize);
    (if is_reserved_type_name_spec(top_name(tp)) {
        seq![DatamodelError { file_id: fid, span: top_span(tp), kind: DiagnosticKind::ReservedTypeName }]
    } else {
        Seq::empty()
    }) + (if dup_before(files, f, t) {
        seq![DatamodelError { file_id: fid, span: top_span(tp), kind: DiagnosticKind::DuplicateTopLevelName }]
    } else {
        Seq::empty()
    })
}

pub open spec fn top_diags(files: Seq<FileEntry>, f: int, t: int) -> Seq<DatamodelError> {
    let tp = file_tops(files, f)[t];
    let fid = FileId(f as usize);
    top_head_diags(files, f, t) + member_dup_diags(
        fid,
        member_dup_kind(tp),
        member_list(tp),
        member_list(tp).len() as int,
    )
}

/// The diagnostics for the first `t` declarations of file `f`.
pub open spec fn file_name_diags(files: Seq<FileEntry>, f: int, t: int) -> Seq<DatamodelError>
    decreases t,
{
    if t <= 0 {
        Seq::empty()
    } else {
        file_name_diags(files, f, t - 1) + top_diags(files, f, t - 1)
    }
}

/// The diagnostics for the first `f` whole files.
pub open spec fn name_diags_upto(files: Seq<FileEntry>, f: int) -> Seq<DatamodelError>
    decreases f,
{
    if f <= 0 {
        Seq::empty()
    } else {
        name_diags_upto(files, f - 1) + file_name_diags(
            files,
            f - 1,
            file_tops(files, f - 1).len() as int,
        )
    }
}

/// Everything pass one records, in emission order.
pub open spec fn name_diags(files: Seq<FileEntry>) -> Seq<DatamodelError> {
    name_diags_upto(files, files.len() as int)
}

pub proof fn lemma_member_dup_diags_kinds(
    fid: FileId,
    kind: DiagnosticKind,
    ms: Seq<(Seq<char>, Span)>,
    j: int,
)
    requires
        kind is DuplicateFieldName || kind is DuplicateEnumValueName,
    ensures
        forall|q: int|
            0 <= q < member_dup_diags(fid, kind, ms, j).len()
                ==> crate::diagnostics::is_name_resolution_kind(
                (#[trigger] member_dup_diags(fid, kind, ms, j)[q]).kind,
            ),
    decreases j,
{
    if j > 0 {
        lemma_member_dup_diags_kinds(fid, kind, ms, j - 1);
        assert forall|q: int|
            0 <= q < member_dup_diags(fid, kind, ms, j).len()
                implies crate::diagnostics::is_name_resolution_kind(
            (#[trigger] member_dup_diags(fid, kind, ms, j)[q]).kind,
        ) by {
            if q < member_dup_diags(fid, kind, ms, j - 1).len() {
                assert(member_dup_diags(fid, kind, ms, j)[q] == member_dup_diags(
                    fid,
                    kind,
                    ms,
                    j - 1,
                )[q]);
            }
        }
    }
}

pub proof fn lemma_top_diags_kinds(files: Seq<FileEntry>, f: int, t: int)
    ensures
        forall|q: int|
            0 <= q < top_diags(files, f, t).len() ==> crate::diagnostics::is_name_resolution_kind(
                (#[trigger] top_diags(files, f, t)[q]).kind,
            ),
{
    let tp = file_tops(files, f)[t];
    let fid = FileId(f as usize);
    lemma_member_dup_diags_kinds(fid, member_dup_kind(tp), member_list(tp), member_list(tp).len() as int);
    assert forall|q: int|
        0 <= q < top_diags(files, f, t).len() implies crate::diagnostics::is_name_resolution_kind(
        (#[trigger] top_diags(files, f, t)[q]).kind,
    ) by {
        let head = top_head_diags(files, f, t);
        let members = member_dup_diags(
            fid,
            member_dup_kind(tp),
            member_list(tp),
            member_list(tp).len() as int,
        );
        if q < head.len() {
            assert(top_diags(files, f, t)[q] == head[q]);
        } else {
            assert(top_diags(files, f, t)[q] == members[q - head.len()]);
        }
    }
}

pub proof fn lemma_file_name_diags_kinds(files: Seq<FileEntry>, f: int, t: int)
    ensures
        forall|q: int|
            0 <= q < file_name_diags(files, f, t).len()
                ==> crate::diagnostics::is_name_resolution_kind(
                (#[trigger] file_name_diags(files, f, t)[q]).kind,
            ),
    decreases t,
{
    if t > 0 {
        lemma_file_name_diags_kinds(files, f, t - 1);
        lemma_top_diags_kinds(files, f, t - 1);
        assert forall|q: int|
            0 <= q < file_name_diags(files, f, t).len()
                implies crate::diagnostics::is_name_resolution_kind(
            (#[trigger] file_name_diags(files, f, t)[q]).kind,
        ) by {
            if q < file_name_diags(files, f, t - 1).len() {
                assert(file_name_diags(files, f, t)[q] == file_name_diags(files, f, t - 1)[q]);
            } else {
                assert(file_name_diags(files, f, t)[q] == top_diags(files, f, t - 1)[
                    q - file_name_diags(files, f, t - 1).len()
                ]);
            }
        }
    }
}

/// Every diagnostic pass one emits is of a name-resolution kind.
pub proof fn lemma_name_diags_kinds(files: Seq<FileEntry>, f: int)
    ensures
        forall|q: int|
            0 <= q < name_diags_upto(files, f).len()
                ==> crate::diagnostics::is_name_resolution_kind(
                (#[trigger] name_diags_upto(files, f)[q]).kind,
            ),
    decreases f,
{
    if f > 0 {
        lemma_name_diags_kinds(files, f - 1);
        lemma_file_name_diags_kinds(files, f - 1, file_tops(files, f - 1).len() as int);
        assert forall|q: int|
            0 <= q < name_diags_upto(files, f).len()
                implies crate::diagnostics::is_name_resolution_kind(
            (#[trigger] name_diags_upto(files, f)[q]).kind,
        ) by {
            if q < name_diags_upto(files, f - 1).len() {
                assert(name_diags_upto(files, f)[q] == name_diags_upto(files, f - 1)[q]);
            } else {
                assert(name_diags_upto(files, f)[q] == file_name_diags(
                    files,
                    f - 1,
                    file_tops(files, f - 1).len() as int,
                )[q - name_diags_upto(files, f - 1).len()]);
            }
        }
    }
}

/// The span of a top-level declaration.
fn top_span_of(tp: &Top) -> (s: Span)
    ensures
        s == top_span(*tp),
{
    match tp {
        Top::Model { span, .. } => *span,
        Top::Enum { span, .. } => *span,
        Top::CompositeType { span, .. } => *span,
        Top::Alias { span, .. } => *span,
    }
}

/// The declared name of a top-level declaration.
fn top_name_of<'a>(tp: &'a Top) -> (s: &'a String)
    ensures
        s@ == top_name(*tp),
{
    match tp {
        Top::Model { name, .. } => name,
        Top::Enum { name, .. } => name,
        Top::CompositeType { name, .. } => name,
        Top::Alias { name, .. } => name,
    }
}

/// Report a duplicate for every field whose name already occurred among the
/// fields before it.
fn detect_field_dups(fid: FileId, fields: &Vec<Field>, diagnostics: &mut Diagnostics)
    ensures
        final(diagnostics)@ == old(diagnostics)@ + member_dup_diags(
            fid,
            DiagnosticKind::DuplicateFieldName,
            fields_members(fields@),
            fields@.len() as int,
        ),
{
    let ghost ms = fields_members(fields@);
    let mut j: usize = 0;
    while j < fields.len()
        invariant
            j <= fields@.len(),
            ms == fields_members(fields@),
            diagnostics@ == old(diagnostics)@ + member_dup_diags(
                fid,
                DiagnosticKind::DuplicateFieldName,
                ms,
                j as int,
            ),
        decreases fields@.len() - j,
    {
        let mut found = false;
        let mut p: usize = 0;
        while p < j
            invariant
                p <= j < fields@.len(),
                ms == fields_members(fields@),
                found == exists|q: int| 0 <= q < p && (#[trigger] ms[q]).0 == ms[j as int].0,
            decreases j - p,
        {
            let eq = fields[p].name == fields[j].name;
            proof {
                assert(ms[p as int] == (fields@[p as int].name@, fields@[p as int].span));
                assert(ms[j as int] == (fields@[j as int].name@, fields@[j as int].span));
            }
            if eq {
                found = true;
            }
            p += 1;
        }
        if found {
            diagnostics.push(
                DatamodelError {
                    file_id: fid,
                    span: fields[j].span,
                    kind: DiagnosticKind::DuplicateFieldName,
                },
            );
        }
        proof {
            assert(ms[j as int] == (fields@[j as int].name@, fields@[j as int].span));
            assert(diagnostics@ =~= old(diagnostics)@ + member_dup_diags(
                fid,
                DiagnosticKind::DuplicateFieldName,
                ms,
                j as int + 1,
            ));
        }
        j += 1;
    }
}

/// Report a duplicate for every enum value whose name already occurred among
/// the values before it.
fn detect_value_dups(fid: FileId, values: &Vec<EnumValue>, diagnostics: &mut Diagnostics)
    ensures
        final(diagnostics)@ == old(diagnostics)@ + member_dup_diags(
            fid,
            DiagnosticKind::DuplicateEnumValueName,
            values_members(values@),
            values@.len() as int,
        ),
{
    let ghost ms = values_members(values@);
    let mut j: usize = 0;
    while j < values.len()
        invariant
            j <= values@.len(),
            ms == values_members(values@),
            diagnostics@ == old(diagnostics)@ + member_dup_diags(
                fid,
                DiagnosticKind::DuplicateEnumValueName,
                ms,
                j as int,
            ),
        decreases values@.len() - j,
    {
        let mut found = false;
        let mut p: usize = 0;
        while p < j
            invariant
                p <= j < values@.len(),
                ms == values_members(values@),
                found == exists|q: int| 0 <= q < p && (#[trigger] ms[q]).0 == ms[j as int].0,
            decreases j - p,
        {
            let eq = values[p].name == values[j].name;
            proof {
                assert(ms[p as int] == (values@[p as int].name@, values@[p as int].span));
                assert(ms[j as int] == (values@[j as int].name@, values@[j as int].span));
            }
            if eq {
                found = true;
            }
            p += 1;
        }
        if found {
            diagnostics.push(
                DatamodelError {
                    file_id: fid,
                    span: values[j].span,
                    kind: DiagnosticKind::DuplicateEnumValueName,
                },
            );
        }
        proof {
            assert(ms[j as int] == (values@[j as int].name@, values@[j as int].span));
            assert(diagnostics@ =~= old(diagnostics)@ + member_dup_diags(
                fid,
                DiagnosticKind::DuplicateEnumValueName,
                ms,
                j as int + 1,
            ));
        }
        j += 1;
    }
}

/// Appending the entry for declaration `(f, t)` extends the registered
/// prefix by exactly that declaration.
proof fn lemma_entries_step(
    fs: Seq<FileEntry>,
    m: Seq<Seq<char>>,
    f: int,
    t: int,
    tops1: Seq<TopEntry>,
    e_new: TopEntry,
)
    requires
        valid_decl(fs, f, t),
        tops1.len() == tops_before(fs, f) + t,
        forall|f2: int, t2: int|
            valid_decl(fs, f2, t2) && decl_earlier(f2, t2, f, t) ==> entry_matches(
                fs,
                m,
                #[trigger] tops1[tops_before(fs, f2) + t2],
                f2,
                t2,
            ),
        entry_matches(fs, m, e_new, f, t),
    ensures
        forall|f2: int, t2: int|
            valid_decl(fs, f2, t2) && decl_earlier(f2, t2, f, t + 1) ==> entry_matches(
                fs,
                m,
                #[trigger] tops1.push(e_new)[tops_before(fs, f2) + t2],
                f2,
                t2,
            ),
{
    assert forall|f2: int, t2: int|
        valid_decl(fs, f2, t2) && decl_earlier(f2, t2, f, t + 1) implies entry_matches(
        fs,
        m,
        #[trigger] tops1.push(e_new)[tops_before(fs, f2) + t2],
        f2,
        t2,
    ) by {
        if decl_earlier(f2, t2, f, t) {
            lemma_flat_lt(fs, f2, t2, f, t);
            lemma_tops_before_mono(fs, 0, f2);
            assert(entry_matches(fs, m, tops1[tops_before(fs, f2) + t2], f2, t2));
            assert(tops1.push(e_new)[tops_before(fs, f2) + t2] == tops1[tops_before(fs, f2)
                + t2]);
        } else {
            assert(f2 == f && t2 == t);
            assert(tops_before(fs, f2) + t2 == tops1.len());
        }
    }
}

/// Registering the entry for declaration `(f, t)` — the table updated on a
/// first occurrence, the per-kind vector and the entry list extended —
/// carries the pass-one invariant from `(f, t)` to `(f, t + 1)`.
#[verifier::rlimit(100)]
proof fn lemma_register_finish(
    fs: Seq<FileEntry>,
    m: Seq<Seq<char>>,
    f: int,
    t: int,
    names0: Names,
    names2: Names,
    sid: StringId,
    k_new: usize,
    was_new: bool,
    e_new: TopEntry,
)
    requires
        valid_decl(fs, f, t),
        names_inv(names0, fs, m, f, t),
        k_new as int == names0.tops@.len(),
        sid.0 < names0.top_by_name@.len(),
        was_new <==> names0.top_by_name@[sid.0 as int] is None,
        e_new.name == sid,
        entry_matches(fs, m, e_new, f, t),
        names2.tops@ == names0.tops@.push(e_new),
        names2.top_by_name@ == (if was_new {
            names0.top_by_name@.update(sid.0 as int, Some(k_new))
        } else {
            names0.top_by_name@
        }),
        match e_new.kind {
            TopKindId::Model(id) => id.0 == names0.models@.len() && names2.models@
                == names0.models@.push(k_new) && names2.enums@ == names0.enums@
                && names2.composites@ == names0.composites@ && names2.aliases@
                == names0.aliases@,
            TopKindId::Enum(id) => id.0 == names0.enums@.len() && names2.enums@
                == names0.enums@.push(k_new) && names2.models@ == names0.models@
                && names2.composites@ == names0.composites@ && names2.aliases@
                == names0.aliases@,
            TopKindId::CompositeType(id) => id.0 == names0.composites@.len()
                && names2.composites@ == names0.composites@.push(k_new) && names2.models@
                == names0.models@ && names2.enums@ == names0.enums@ && names2.aliases@
                == names0.aliases@,
            TopKindId::Alias(id) => id.0 == names0.aliases@.len() && names2.aliases@
                == names0.aliases@.push(k_new) && names2.models@ == names0.models@
                && names2.enums@ == names0.enums@ && names2.composites@
                == names0.composites@,
        },
    ensures
        names_inv(names2, fs, m, f, t + 1),
{
    let tp = file_tops(fs, f)[t];
    assert(model_count_upto(fs, f, t + 1) == model_count_upto(fs, f, t) + if tp is Model {
        1int
    } else {
        0int
    });
    assert(enum_count_upto(fs, f, t + 1) == enum_count_upto(fs, f, t) + if tp is Enum {
        1int
    } else {
        0int
    });
    assert(composite_count_upto(fs, f, t + 1) == composite_count_upto(fs, f, t)
        + if tp is CompositeType {
        1int
    } else {
        0int
    });
    assert(alias_count_upto(fs, f, t + 1) == alias_count_upto(fs, f, t) + if tp is Alias {
        1int
    } else {
        0int
    });
    assert(kind_vecs_ok(names2));
    if was_new {
        assert forall|j: int| 0 <= j < k_new implies (#[trigger] names2.tops@[j]).name.0
            != sid.0 by {
            assert(names2.tops@[j] == names0.tops@[j]);
            if names0.tops@[j].name.0 == sid.0 {
                assert(names0.top_by_name@[names0.tops@[j].name.0 as int] is Some);
                assert(false);
            }
        }
    }
    assert(table_ok(names2, m));
    lemma_entries_step(fs, m, f, t, names0.tops@, e_new);
    assert(names_inv(names2, fs, m, f, t + 1));
}

/// Register one declaration: intern its name, record reserved-name and
/// duplicate-name errors, allocate its per-kind id and register the entry.
#[verifier::rlimit(100)]
fn register_entry(
    files: &Files,
    f: usize,
    t: usize,
    names: &mut Names,
    interner: &mut StringInterner,
    diagnostics: &mut Diagnostics,
)
    requires
        f < files.entries@.len(),
        t < file_tops(files.entries@, f as int).len(),
        old(interner).wf(),
        names_inv(*old(names), files.entries@, old(interner)@, f as int, t as int),
    ensures
        final(interner).wf(),
        interner_extends(old(interner)@, final(interner)@),
        names_inv(*final(names), files.entries@, final(interner)@, f as int, t as int + 1),
        final(diagnostics)@ == old(diagnostics)@ + top_head_diags(
            files.entries@,
            f as int,
            t as int,
        ),
{
    let ghost fs = files.entries@;
    let ghost ftops = file_tops(fs, f as int);
    let fid = FileId(f);

    let ghost diag0 = diagnostics@;
    let top = &files.entries[f].source.ast.tops[t];
    proof {
        assert(*top == ftops[t as int]);
    }
    let name = top_name_of(top);
    let sp = top_span_of(top);
    let ghost m0 = interner@;
    let sid = interner.intern(name);
    let ghost m = interner@;
    proof {
        lemma_names_inv_extend(*names, fs, m0, m, f as int, t as int);
    }
    // Keep the name table wide enough for every interned id.
    let ghost nsnap = *names;
    while names.top_by_name.len() < interner.len()
        invariant
            interner@ == m,
            names.tops@ == nsnap.tops@,
            names.models@ == nsnap.models@,
            names.enums@ == nsnap.enums@,
            names.composites@ == nsnap.composites@,
            names.aliases@ == nsnap.aliases@,
            names.top_by_name@.len() <= m.len(),
            forall|sid2: int|
                0 <= sid2 < names.top_by_name@.len()
                    && #[trigger] names.top_by_name@[sid2] is Some ==> {
                    let k = names.top_by_name@[sid2]->0 as int;
                    &&& 0 <= k < names.tops@.len()
                    &&& names.tops@[k].name.0 == sid2
                    &&& forall|j: int|
                        0 <= j < k ==> (#[trigger] names.tops@[j]).name.0 != sid2
                },
            forall|k: int|
                0 <= k < names.tops@.len() ==> (#[trigger] names.tops@[k]).name.0
                    < names.top_by_name@.len()
                    && names.top_by_name@[names.tops@[k].name.0 as int] is Some,
        decreases interner@.len() - names.top_by_name@.len(),
    {
        names.top_by_name.push(None);
    }
    proof {
        assert(names_inv(*names, fs, m, f as int, t as int)) by {
            assert forall|f2: int, t2: int|
                valid_decl(fs, f2, t2) && decl_earlier(f2, t2, f as int, t as int)
                    implies entry_matches(
                fs,
                m,
                #[trigger] names.tops@[tops_before(fs, f2) + t2],
                f2,
                t2,
            ) by {
                assert(entry_matches(
                    fs,
                    m,
                    nsnap.tops@[tops_before(fs, f2) + t2],
                    f2,
                    t2,
                ));
            }
        }
    }
    let ghost names0 = *names;
    // Reserved built-in names may not be redeclared.
    if is_reserved_type_name(name) {
        diagnostics.push(
            DatamodelError { file_id: fid, span: sp, kind: DiagnosticKind::ReservedTypeName },
        );
    }
    // Duplicate detection: the first occurrence stays authoritative.
    let k_new = names.tops.len();
    let ghost table0 = names.top_by_name@;
    let looked = names.top_by_name[sid.0];
    match looked {
        Some(k_prev) => {
            proof {
                assert(names.top_by_name@[sid.0 as int] is Some);
                assert(k_prev < names.tops@.len() && names.tops@[
                    k_prev as int
                ].name.0 == sid.0);
                lemma_flat_surjective(fs, f as int, t as int, k_prev as int);
                let (f2, t2): (int, int) = choose|f2: int, t2: int|
                    valid_decl(fs, f2, t2) && decl_earlier(f2, t2, f as int, t as int)
                        && tops_before(fs, f2) + t2 == k_prev as int;
                assert(entry_matches(
                    fs,
                    m,
                    names.tops@[tops_before(fs, f2) + t2],
                    f2,
                    t2,
                ));
                assert(m[sid.0 as int] == top_name(ftops[t as int]));
                assert(top_name(file_tops(fs, f2)[t2]) == top_name(
                    file_tops(fs, f as int)[t as int],
                ));
                assert(dup_before(fs, f as int, t as int));
            }
            diagnostics.push(
                DatamodelError {
                    file_id: fid,
                    span: sp,
                    kind: DiagnosticKind::DuplicateTopLevelName,
                },
            );
        },
        None => {
            proof {
                if dup_before(fs, f as int, t as int) {
                    let (f2, t2): (int, int) = choose|f2: int, t2: int|
                        valid_decl(fs, f2, t2) && decl_earlier(f2, t2, f as int, t as int)
                            && top_name(file_tops(fs, f2)[t2]) == top_name(
                            file_tops(fs, f as int)[t as int],
                        );
                    lemma_flat_lt(fs, f2, t2, f as int, t as int);
                    lemma_tops_before_mono(fs, 0, f2);
                    let k2 = tops_before(fs, f2) + t2;
                    assert(entry_matches(fs, m, names.tops@[k2], f2, t2));
                    let e = names.tops@[k2];
                    if e.name.0 != sid.0 {
                        lemma_distinct_ids_distinct_text(m, e.name.0 as int, sid.0 as int);
                    }
                    assert(e.name.0 == sid.0);
                    assert(names.top_by_name@[e.name.0 as int] is Some);
                    assert(false);
                }
            }
            names.top_by_name[sid.0] = Some(k_new);
            proof {
                assert(names.top_by_name@ =~= table0.update(sid.0 as int, Some(k_new)));
            }
        },
    }
    let ghost diag1 = diagnostics@;
    let ghost tp = ftops[t as int];
    proof {
        assert(diag1 =~= diag0 + (if is_reserved_type_name_spec(top_name(tp)) {
            seq![DatamodelError { file_id: fid, span: top_span(tp), kind: DiagnosticKind::ReservedTypeName }]
        } else {
            Seq::<DatamodelError>::empty()
        }) + (if dup_before(fs, f as int, t as int) {
            seq![DatamodelError { file_id: fid, span: top_span(tp), kind: DiagnosticKind::DuplicateTopLevelName }]
        } else {
            Seq::<DatamodelError>::empty()
        }));
        assert(diag1 =~= diag0 + top_head_diags(fs, f as int, t as int));
    }
    // Allocate the per-kind id and register the entry; a declaration
    // gets an id even when its name was a duplicate.
    let kind = match top {
        Top::Model { .. } => {
            let id = ModelId(names.models.len());
            names.models.push(k_new);
            TopKindId::Model(id)
        },
        Top::Enum { .. } => {
            let id = EnumId(names.enums.len());
            names.enums.push(k_new);
            TopKindId::Enum(id)
        },
        Top::CompositeType { .. } => {
            let id = CompositeTypeId(names.composites.len());
            names.composites.push(k_new);
            TopKindId::CompositeType(id)
        },
        Top::Alias { .. } => {
            let id = AliasId(names.aliases.len());
            names.aliases.push(k_new);
            TopKindId::Alias(id)
        },
    };
    names.tops.push(TopEntry { file: fid, top_index: t, name: sid, kind });
    proof {
        let e_new = TopEntry { file: fid, top_index: t, name: sid, kind };
        assert(names.tops@ == names0.tops@.push(e_new));
        if looked is None {
            assert(names.top_by_name@ =~= names0.top_by_name@.update(sid.0 as int, Some(k_new)));
        } else {
            assert(names.top_by_name@ == names0.top_by_name@);
        }
        assert(entry_matches(fs, m, e_new, f as int, t as int));
        lemma_register_finish(
            fs,
            m,
            f as int,
            t as int,
            names0,
            *names,
            sid,
            k_new,
            looked is None,
            e_new,
        );
    }
}

/// Register one declaration and record its duplicate-member errors.
fn register_top(
    files: &Files,
    f: usize,
    t: usize,
    names: &mut Names,
    interner: &mut StringInterner,
    diagnostics: &mut Diagnostics,
)
    requires
        f < files.entries@.len(),
        t < file_tops(files.entries@, f as int).len(),
        old(interner).wf(),
        names_inv(*old(names), files.entries@, old(interner)@, f as int, t as int),
    ensures
        final(interner).wf(),
        interner_extends(old(interner)@, final(interner)@),
        names_inv(*final(names), files.entries@, final(interner)@, f as int, t as int + 1),
        final(diagnostics)@ == old(diagnostics)@ + top_diags(files.entries@, f as int, t as int),
{
    let ghost fs = files.entries@;
    let ghost diag0 = diagnostics@;
    let ghost tp = file_tops(fs, f as int)[t as int];
    register_entry(files, f, t, names, interner, diagnostics);
    let fid = FileId(f);
    let top = &files.entries[f].source.ast.tops[t];
    proof {
        assert(*top == tp);
    }
    match top {
        Top::Model { fields, .. } => detect_field_dups(fid, fields, diagnostics),
        Top::CompositeType { fields, .. } => detect_field_dups(fid, fields, diagnostics),
        Top::Enum { values, .. } => detect_value_dups(fid, values, diagnostics),
        Top::Alias { .. } => {},
    }
    proof {
        assert(diagnostics@ =~= diag0 + top_head_diags(fs, f as int, t as int)
            + member_dup_diags(
            fid,
            member_dup_kind(tp),
            member_list(tp),
            member_list(tp).len() as int,
        ));
        assert(diagnostics@ =~= diag0 + top_diags(fs, f as int, t as int));
    }
}

pub fn resolve_names(
    files: &Files,
    interner: &mut StringInterner,
    diagnostics: &mut Diagnostics,
) -> (names: Names)
    requires
        old(interner).wf(),
    ensures
        final(interner).wf(),
        interner_extends(old(interner)@, final(interner)@),
        names_ok(names, files.entries@, final(interner)@),
        final(diagnostics)@ == old(diagnostics)@ + name_diags(files.entries@),
{
    let ghost fs = files.entries@;
    let mut names = Names {
        tops: Vec::new(),
        top_by_name: Vec::new(),
        models: Vec::new(),
        enums: Vec::new(),
        composites: Vec::new(),
        aliases: Vec::new(),
    };
    let mut f: usize = 0;
    while f < files.entries.len()
        invariant
            fs == files.entries@,
            f <= fs.len(),
            interner.wf(),
            interner_extends(old(interner)@, interner@),
            names_inv(names, fs, interner@, f as int, 0),
            diagnostics@ == old(diagnostics)@ + name_diags_upto(fs, f as int),
        decreases fs.len() - f,
    {
        let ghost ftops = file_tops(fs, f as int);
        let fid = FileId(f);
        let mut t: usize = 0;
        while t < files.entries[f].source.ast.tops.len()
            invariant
                fs == files.entries@,
                f < fs.len(),
                fid == FileId(f as usize),
                ftops == file_tops(fs, f as int),
                t <= ftops.len(),
                interner.wf(),
                interner_extends(old(interner)@, interner@),
                names_inv(names, fs, interner@, f as int, t as int),
                diagnostics@ == old(diagnostics)@ + name_diags_upto(fs, f as int)
                    + file_name_diags(fs, f as int, t as int),
            decreases ftops.len() - t,
        {
            register_top(files, f, t, &mut names, interner, diagnostics);
            proof {
                assert(diagnostics@ =~= old(diagnostics)@ + name_diags_upto(fs, f as int)
                    + file_name_diags(fs, f as int, t as int + 1));
            }
            t += 1;
        }
        proof {
            assert(tops_before(fs, f as int + 1) == tops_before(fs, f as int) + ftops.len());
            assert(name_diags_upto(fs, f as int + 1) == name_diags_upto(fs, f as int)
                + file_name_diags(fs, f as int, ftops.len() as int));
            assert(model_count_upto(fs, f as int + 1, 0) == model_count_upto(
                fs,
                f as int,
                ftops.len() as int,
            ));
            assert(enum_count_upto(fs, f as int + 1, 0) == enum_count_upto(
                fs,
                f as int,
                ftops.len() as int,
            ));
            assert(composite_count_upto(fs, f as int + 1, 0) == composite_count_upto(
                fs,
                f as int,
                ftops.len() as int,
            ));
            assert(alias_count_upto(fs, f as int + 1, 0) == alias_count_upto(
                fs,
                f as int,
                ftops.len() as int,
            ));
        }
        f += 1;
    }
    names
}


/// Every registered entry describes some declaration, at its flat index.
pub proof fn lemma_names_entry(names: Names, files: Seq<FileEntry>, m: Seq<Seq<char>>, k: int)
    requires
        names_ok(names, files, m),
        0 <= k < names.tops@.len(),
    ensures
        exists|f: int, t: int|
            valid_decl(files, f, t) && tops_before(files, f) + t == k && entry_matches(
                files,
                m,
                names.tops@[k],
                f,
                t,
            ),
{
    lemma_flat_surjective(files, files.len() as int, 0, k);
    let (f, t): (int, int) = choose|f: int, t: int|
        valid_decl(files, f, t) && decl_earlier(f, t, files.len() as int, 0) && tops_before(
            files,
            f,
        ) + t == k;
    assert(entry_matches(files, m, names.tops@[tops_before(files, f) + t], f, t));
}


/// The first registered entry (scanning from `from`) whose name resolves to
/// the text `s` under interner state `m`.
pub open spec fn first_entry_with_name(
    tops: Seq<TopEntry>,
    m: Seq<Seq<char>>,
    s: Seq<char>,
    from: int,
) -> Option<int>
    decreases tops.len() - from,
{
    if from < 0 || from >= tops.len() {
        None
    } else if tops[from].name.0 < m.len() && m[tops[from].name.0 as int] == s {
        Some(from)
    } else {
        first_entry_with_name(tops, m, s, from + 1)
    }
}

proof fn lemma_first_entry_at(tops: Seq<TopEntry>, m: Seq<Seq<char>>, s: Seq<char>, from: int, k: int)
    requires
        0 <= from <= k < tops.len(),
        tops[k].name.0 < m.len() && m[tops[k].name.0 as int] == s,
        forall|j: int|
            from <= j < k ==> !((#[trigger] tops[j]).name.0 < m.len() && m[
                tops[j].name.0 as int
            ] == s),
    ensures
        first_entry_with_name(tops, m, s, from) == Some(k),
    decreases k - from,
{
    if from < k {
        lemma_first_entry_at(tops, m, s, from + 1, k);
    }
}

proof fn lemma_first_entry_none(tops: Seq<TopEntry>, m: Seq<Seq<char>>, s: Seq<char>, from: int)
    requires
        0 <= from,
        forall|j: int|
            from <= j < tops.len() ==> !((#[trigger] tops[j]).name.0 < m.len() && m[
                tops[j].name.0 as int
            ] == s),
    ensures
        first_entry_with_name(tops, m, s, from) is None,
    decreases tops.len() - from,
{
    if from < tops.len() {
        lemma_first_entry_none(tops, m, s, from + 1);
    }
}

/// Scanning for a text that every entry resolves below `m`'s length gives
/// the same result under any extension of `m`.
pub proof fn lemma_first_entry_extend(
    tops: Seq<TopEntry>,
    m: Seq<Seq<char>>,
    m2: Seq<Seq<char>>,
    s: Seq<char>,
    from: int,
)
    requires
        interner_extends(m, m2),
        forall|j: int| 0 <= j < tops.len() ==> (#[trigger] tops[j]).name.0 < m.len(),
        0 <= from,
    ensures
        first_entry_with_name(tops, m, s, from) == first_entry_with_name(tops, m2, s, from),
    decreases tops.len() - from,
{
    if from < tops.len() {
        lemma_first_entry_extend(tops, m, m2, s, from + 1);
    }
}

/// The name table agrees with the first-occurrence scan: looking up the
/// interned id of a text yields exactly the first registered entry bearing
/// that text, and a miss means no entry bears it.
pub proof fn lemma_table_lookup_is_first(
    names: Names,
    files: Seq<FileEntry>,
    m: Seq<Seq<char>>,
    sid: StringId,
)
    requires
        names_ok(names, files, m),
        interner_injective(m),
        sid.0 < m.len(),
    ensures
        sid.0 < names.top_by_name@.len() && names.top_by_name@[sid.0 as int] is Some
            ==> first_entry_with_name(names.tops@, m, m[sid.0 as int], 0) == Some(
                names.top_by_name@[sid.0 as int]->0 as int,
            ),
        (sid.0 >= names.top_by_name@.len() || names.top_by_name@[sid.0 as int] is None)
            ==> first_entry_with_name(names.tops@, m, m[sid.0 as int], 0) is None,
{
    let tops = names.tops@;
    let s = m[sid.0 as int];
    assert forall|j: int| 0 <= j < tops.len() implies (#[trigger] tops[j]).name.0 < m.len() by {
        lemma_names_entry(names, files, m, j);
    }
    if sid.0 < names.top_by_name@.len() && names.top_by_name@[sid.0 as int] is Some {
        let k = names.top_by_name@[sid.0 as int]->0 as int;
        assert(tops[k].name.0 == sid.0);
        assert forall|j: int|
            0 <= j < k implies !((#[trigger] tops[j]).name.0 < m.len() && m[
            tops[j].name.0 as int
        ] == s) by {
            if m[tops[j].name.0 as int] == s && tops[j].name.0 != sid.0 {
                lemma_distinct_ids_distinct_text(m, tops[j].name.0 as int, sid.0 as int);
            }
        }
        lemma_first_entry_at(tops, m, s, 0, k);
    } else {
        assert forall|j: int|
            0 <= j < tops.len() implies !((#[trigger] tops[j]).name.0 < m.len() && m[
            tops[j].name.0 as int
        ] == s) by {
            if tops[j].name.0 == sid.0 {
                assert(names.top_by_name@[tops[j].name.0 as int] is Some);
                assert(false);
            } else if m[tops[j].name.0 as int] == s {
                lemma_distinct_ids_distinct_text(m, tops[j].name.0 as int, sid.0 as int);
            }
        }
        lemma_first_entry_none(tops, m, s, 0);
    }
}

impl Names {
    /// The first registered top-level item bearing an interned name, if any.
    pub fn lookup_top(&self, sid: StringId) -> (r: Option<usize>)
        ensures
            r == if sid.0 < self.top_by_name@.len() {
                self.top_by_name@[sid.0 as int]
            } else {
                None
            },
    {
        if sid.0 < self.top_by_name.len() {
            self.top_by_name[sid.0]
        } else {
            None
        }
    }
}

} // verus!
