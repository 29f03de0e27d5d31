//! Pass four: relation inference. Runs only when passes one and two
//! produced no error. For every relation field it collects the structurally
//! plausible counterpart fields, pairs a mutually unique candidate into one
//! relation record, and reports fields with no counterpart or with several.
//! The tie-break rule is deterministic and auditable: a pair forms exactly
//! when each side is the single plausible counterpart of the other; in
//! every other case the field keeps a placeholder relation whose kind is
//! the error variant.

use vstd::prelude::*;
use crate::attributes::{Attributes, RelationFieldAttributes, RelationFieldAttributesSlot};
use crate::ast::FieldArity;
use crate::diagnostics::{
    appended_only, relation_kind_pred, DatamodelError, DiagnosticKind, Diagnostics,
};
use crate::ids::{ModelId, RelationFieldId};
use crate::interner::StringId;
use crate::names::Names;
use crate::types::{RelationField, Types};

verus! {

/// Id of an inferred relation, dense in inference order.
#[derive(Clone, Copy, PartialEq, Eq, Structural, Debug, Hash)]
pub struct RelationId(pub usize);

/// Id of the implicit join identity behind a many-to-many relation,
/// distinct from ordinary relation ids.
#[derive(Clone, Copy, PartialEq, Eq, Structural, Debug, Hash)]
pub struct ManyToManyRelationId(pub usize);

/// A referential action declared on a relation.
#[derive(Clone, Copy, PartialEq, Eq, Structural, Debug)]
pub enum ReferentialAction {
    Cascade,
    Restrict,
    NoAction,
    SetNull,
    SetDefault,
}

/// The implicit join identity of a many-to-many relation: the two model
/// name ids in sorted order plus the declared relation name. Derived purely
/// from names, so re-running inference on unchanged input reproduces it.
#[derive(Clone, Copy, PartialEq, Eq, Structural, Debug)]
pub struct JoinIdentity {
    pub model_a: StringId,
    pub model_b: StringId,
    pub relation_name: Option<StringId>,
}

/// How the two sides of a relation relate.
#[derive(Clone, Copy, PartialEq, Eq, Structural, Debug)]
pub enum RelationKind {
    OneToOne,
    OneToMany,
    ManyToMany(ManyToManyRelationId),
    Error,
}

/// One inferred relation record. Created only by inference, never mutated
/// afterward.
#[derive(Clone, Copy, PartialEq, Eq, Structural, Debug)]
pub struct Relation {
    pub id: RelationId,
    pub kind: RelationKind,
    pub field_a: RelationFieldId,
    pub field_b: Option<RelationFieldId>,
    pub join: Option<JoinIdentity>,
    pub on_delete: Option<ReferentialAction>,
    pub on_update: Option<ReferentialAction>,
}

/// The relation tables built by pass four.
#[derive(Debug)]
pub struct Relations {
    pub relations: Vec<Relation>,
    pub field_relation: Vec<Option<RelationId>>,
}

impl Relations {
    /// Empty tables: the shape when inference was skipped.
    pub fn new_empty() -> (r: Relations)
        ensures
            r.relations@.len() == 0,
            r.field_relation@.len() == 0,
    {
        Relations { relations: Vec::new(), field_relation: Vec::new() }
    }
}

/// The join identity of the unordered model pair `{a, b}` with a relation
/// name: the ids in sorted order.
pub open spec fn join_identity_spec(a: StringId, b: StringId, rel: Option<StringId>) -> JoinIdentity {
    if a.0 <= b.0 {
        JoinIdentity { model_a: a, model_b: b, relation_name: rel }
    } else {
        JoinIdentity { model_a: b, model_b: a, relation_name: rel }
    }
}

/// The join identity does not depend on which side of the relation is
/// considered first.
pub proof fn lemma_join_identity_symmetric(a: StringId, b: StringId, rel: Option<StringId>)
    ensures
        join_identity_spec(a, b, rel) == join_identity_spec(b, a, rel),
{
}

/// Compute the join identity of a model pair.
pub fn join_identity(a: StringId, b: StringId, rel: Option<StringId>) -> (r: JoinIdentity)
    ensures
        r == join_identity_spec(a, b, rel),
{
    if a.0 <= b.0 {
        JoinIdentity { model_a: a, model_b: b, relation_name: rel }
    } else {
        JoinIdentity { model_a: b, model_b: a, relation_name: rel }
    }
}

/// The relation name a validated slot carries.
pub open spec fn slot_relation_name(s: RelationFieldAttributesSlot) -> Option<StringId> {
    match s {
        RelationFieldAttributesSlot::Resolved(ra) => ra.relation_name,
        RelationFieldAttributesSlot::Absent => None,
    }
}

/// The relation names of all relation fields, slot by slot.
pub open spec fn relation_names_of(slots: Seq<RelationFieldAttributesSlot>) -> Seq<
    Option<StringId>,
> {
    slots.map(|i: int, s: RelationFieldAttributesSlot| slot_relation_name(s))
}

/// Field `j` is a structurally plausible counterpart of field `i`: it sits
/// on the referenced model, points back, and bears the same relation name.
pub open spec fn is_counterpart(
    rfs: Seq<RelationField>,
    rnames: Seq<Option<StringId>>,
    i: int,
    j: int,
) -> bool {
    &&& 0 <= j < rfs.len()
    &&& j != i
    &&& rfs[j].model == rfs[i].referenced_model
    &&& rfs[j].referenced_model == rfs[i].model
    &&& rnames[j] == rnames[i]
}

/// How many of the fields below `upto` are plausible counterparts of `i`.
pub open spec fn candidate_count(
    rfs: Seq<RelationField>,
    rnames: Seq<Option<StringId>>,
    i: int,
    upto: int,
) -> int
    decreases upto,
{
    if upto <= 0 {
        0
    } else {
        candidate_count(rfs, rnames, i, upto - 1) + if is_counterpart(rfs, rnames, i, upto - 1) {
            1int
        } else {
            0int
        }
    }
}

/// Fields `i` and `j` are each other's single plausible counterpart: the
/// condition under which inference pairs them into one relation.
pub open spec fn mutual_pair(
    rfs: Seq<RelationField>,
    rnames: Seq<Option<StringId>>,
    i: int,
    j: int,
) -> bool {
    &&& is_counterpart(rfs, rnames, i, j)
    &&& is_counterpart(rfs, rnames, j, i)
    &&& candidate_count(rfs, rnames, i, rfs.len() as int) == 1
    &&& candidate_count(rfs, rnames, j, rfs.len() as int) == 1
}

/// The relation kind the two sides' arities dictate: both list-typed makes
/// a many-to-many, one list-typed a one-to-many, neither a one-to-one.
pub open spec fn kind_matches_arities(kind: RelationKind, a: FieldArity, b: FieldArity) -> bool {
    if a is List && b is List {
        kind is ManyToMany
    } else if a is List || b is List {
        kind is OneToMany
    } else {
        kind is OneToOne
    }
}

pub proof fn lemma_candidate_count_nonneg(
    rfs: Seq<RelationField>,
    rnames: Seq<Option<StringId>>,
    i: int,
    upto: int,
)
    ensures
        candidate_count(rfs, rnames, i, upto) >= 0,
    decreases upto,
{
    if upto > 0 {
        lemma_candidate_count_nonneg(rfs, rnames, i, upto - 1);
    }
}

/// A plausible counterpart below `upto` makes the count at least one.
pub proof fn lemma_candidate_witness(
    rfs: Seq<RelationField>,
    rnames: Seq<Option<StringId>>,
    i: int,
    a: int,
    upto: int,
)
    requires
        a < upto,
        is_counterpart(rfs, rnames, i, a),
    ensures
        candidate_count(rfs, rnames, i, upto) >= 1,
    decreases upto,
{
    if upto - 1 == a {
        lemma_candidate_count_nonneg(rfs, rnames, i, upto - 1);
    } else {
        lemma_candidate_witness(rfs, rnames, i, a, upto - 1);
    }
}

/// Two distinct plausible counterparts make the count at least two.
pub proof fn lemma_candidate_two(
    rfs: Seq<RelationField>,
    rnames: Seq<Option<StringId>>,
    i: int,
    a: int,
    b: int,
    upto: int,
)
    requires
        a < b < upto,
        is_counterpart(rfs, rnames, i, a),
        is_counterpart(rfs, rnames, i, b),
    ensures
        candidate_count(rfs, rnames, i, upto) >= 2,
    decreases upto,
{
    if upto - 1 == b {
        lemma_candidate_witness(rfs, rnames, i, a, upto - 1);
    } else {
        lemma_candidate_two(rfs, rnames, i, a, b, upto - 1);
    }
}

/// With a candidate count of one, the plausible counterpart is unique.
pub proof fn lemma_counterpart_unique(
    rfs: Seq<RelationField>,
    rnames: Seq<Option<StringId>>,
    i: int,
    a: int,
    b: int,
)
    requires
        candidate_count(rfs, rnames, i, rfs.len() as int) == 1,
        is_counterpart(rfs, rnames, i, a),
        is_counterpart(rfs, rnames, i, b),
    ensures
        a == b,
{
    if a < b {
        lemma_candidate_two(rfs, rnames, i, a, b, rfs.len() as int);
    } else if b < a {
        lemma_candidate_two(rfs, rnames, i, b, a, rfs.len() as int);
    }
}

/// The name id of a model.
pub open spec fn model_name_id(names: Names, mid: ModelId) -> StringId {
    names.tops@[names.models@[mid.0 as int] as int].name
}

/// What holds of every inferred relation record.
pub open spec fn relation_ok(
    names: Names,
    rfs: Seq<RelationField>,
    rnames: Seq<Option<StringId>>,
    rel: Relation,
) -> bool {
    &&& rel.field_a.0 < rfs.len()
    &&& rel.field_b matches Some(fb) ==> fb.0 < rfs.len()
    &&& rel.kind is Error ==> rel.field_b is None
    &&& rel.kind is ManyToMany ==> rel.field_b is Some && rel.join == Some(
        join_identity_spec(
            model_name_id(names, rfs[rel.field_a.0 as int].model),
            model_name_id(names, rfs[rel.field_a.0 as int].referenced_model),
            rnames[rel.field_a.0 as int],
        ),
    )
    &&& !(rel.kind is Error) ==> rel.field_b is Some && mutual_pair(
        rfs,
        rnames,
        rel.field_a.0 as int,
        (rel.field_b->0).0 as int,
    ) && kind_matches_arities(
        rel.kind,
        rfs[rel.field_a.0 as int].arity,
        rfs[(rel.field_b->0).0 as int].arity,
    )
}

/// Count the plausible counterparts of field `i` and report the first one.
fn count_candidates(
    rfs: &Vec<RelationField>,
    rnames: &Vec<Option<StringId>>,
    i: usize,
) -> (r: (usize, usize))
    requires
        i < rfs@.len(),
        rnames@.len() == rfs@.len(),
    ensures
        r.0 as int == candidate_count(rfs@, rnames@, i as int, rfs@.len() as int),
        r.0 > 0 ==> r.1 < rfs@.len() && is_counterpart(rfs@, rnames@, i as int, r.1 as int),
{
    let mut count: usize = 0;
    let mut first: usize = 0;
    let mut j: usize = 0;
    while j < rfs.len()
        invariant
            j <= rfs@.len(),
            i < rfs@.len(),
            rnames@.len() == rfs@.len(),
            count as int == candidate_count(rfs@, rnames@, i as int, j as int),
            count <= j,
            count > 0 ==> first < rfs@.len() && is_counterpart(rfs@, rnames@, i as int, first as int),
        decreases rfs@.len() - j,
    {
        let is_cand = j != i && rfs[j].model == rfs[i].referenced_model && rfs[j].referenced_model
            == rfs[i].model && option_sid_eq(&rnames[j], &rnames[i]);
        if is_cand {
            if count == 0 {
                first = j;
            }
            count += 1;
        }
        j += 1;
    }
    (count, first)
}

/// Compare two optional interned-string ids.
fn option_sid_eq(a: &Option<StringId>, b: &Option<StringId>) -> (r: bool)
    ensures
        r == (a == b),
{
    match (a, b) {
        (None, None) => true,
        (Some(x), Some(y)) => x.0 == y.0,
        _ => false,
    }
}

/// The validated relation attributes of one field, or defaults when absent.
fn relation_attrs_of(slots: &Vec<RelationFieldAttributesSlot>, i: usize) -> (r: RelationFieldAttributes)
    requires
        i < slots@.len(),
    ensures
        r.relation_name == slot_relation_name(slots@[i as int]),
{
    match &slots[i] {
        RelationFieldAttributesSlot::Resolved(ra) => *ra,
        RelationFieldAttributesSlot::Absent => RelationFieldAttributes {
            relation_name: None,
            on_delete: None,
            on_update: None,
        },
    }
}


/// How many of the first `upto` diagnostics are of one kind.
pub open spec fn count_kind_in(d: Seq<DatamodelError>, kind: DiagnosticKind, upto: int) -> int
    decreases upto,
{
    if upto <= 0 {
        0
    } else {
        count_kind_in(d, kind, upto - 1) + if d[upto - 1].kind == kind {
            1int
        } else {
            0int
        }
    }
}

/// How many of the first `upto` relation fields have no plausible
/// counterpart at all.
pub open spec fn zero_candidate_count(
    rfs: Seq<RelationField>,
    rn: Seq<Option<StringId>>,
    upto: int,
) -> int
    decreases upto,
{
    if upto <= 0 {
        0
    } else {
        zero_candidate_count(rfs, rn, upto - 1) + if candidate_count(
            rfs,
            rn,
            upto - 1,
            rfs.len() as int,
        ) == 0 {
            1int
        } else {
            0int
        }
    }
}

/// How many of the first `upto` relation fields have plausible
/// counterparts but no mutually unique one.
pub open spec fn unmatched_candidate_count(
    rfs: Seq<RelationField>,
    rn: Seq<Option<StringId>>,
    upto: int,
) -> int
    decreases upto,
{
    if upto <= 0 {
        0
    } else {
        unmatched_candidate_count(rfs, rn, upto - 1) + if candidate_count(
            rfs,
            rn,
            upto - 1,
            rfs.len() as int,
        ) != 0 && (forall|q: int| !(#[trigger] mutual_pair(rfs, rn, upto - 1, q))) {
            1int
        } else {
            0int
        }
    }
}

/// Appending a diagnostic leaves the count over the existing prefix
/// unchanged.
proof fn lemma_count_kind_push(d: Seq<DatamodelError>, e: DatamodelError, kind: DiagnosticKind, k: int)
    requires
        0 <= k <= d.len(),
    ensures
        count_kind_in(d.push(e), kind, k) == count_kind_in(d, kind, k),
    decreases k,
{
    if k > 0 {
        lemma_count_kind_push(d, e, kind, k - 1);
        assert(d.push(e)[k - 1] == d[k - 1]);
    }
}

/// A sequence with no diagnostic of one kind counts zero of it.
pub proof fn lemma_count_kind_zero(d: Seq<DatamodelError>, kind: DiagnosticKind, k: int)
    requires
        forall|j: int| 0 <= j < k ==> (#[trigger] d[j]).kind != kind,
    ensures
        count_kind_in(d, kind, k) == 0,
    decreases k,
{
    if k > 0 {
        lemma_count_kind_zero(d, kind, k - 1);
    }
}

/// Maintenance of the pairing invariants across one error placeholder:
/// nothing changes for other fields when no mutual pair involves `i`.
proof fn lemma_error_step(
    rfs: Seq<RelationField>,
    rn: Seq<Option<StringId>>,
    slots0: Seq<Option<RelationId>>,
    rels0: Seq<Relation>,
    slots1: Seq<Option<RelationId>>,
    rels1: Seq<Relation>,
    i: int,
    rid: RelationId,
)
    requires
        0 <= i < rfs.len(),
        slots0.len() == rfs.len(),
        slots0[i] is None,
        rid.0 as int == rels0.len() as int,
        rels1.len() == rels0.len() + 1,
        forall|x: int| 0 <= x < rels0.len() ==> #[trigger] rels1[x] == rels0[x],
        slots1 == slots0.update(i, Some(rid)),
        forall|q: int| 0 <= q < rfs.len() ==> !(#[trigger] mutual_pair(rfs, rn, i, q)),
        forall|x: int|
            i <= x < rfs.len() && (#[trigger] slots0[x]) is Some ==> exists|j: int|
                0 <= j < i && mutual_pair(rfs, rn, j, x),
        forall|p: int, q: int|
            #[trigger] mutual_pair(rfs, rn, p, q) && (p < i || q < i) ==> slots0[p] == slots0[q]
                && slots0[p] is Some && !(rels0[(slots0[p]->0).0 as int].kind is Error),
        forall|x: int|
            0 <= x < slots0.len() && (#[trigger] slots0[x]) is Some ==> (slots0[x]->0).0
                < rels0.len(),
    ensures
        forall|x: int|
            i + 1 <= x < rfs.len() && (#[trigger] slots1[x]) is Some ==> exists|j: int|
                0 <= j < i + 1 && mutual_pair(rfs, rn, j, x),
        forall|p: int, q: int|
            #[trigger] mutual_pair(rfs, rn, p, q) && (p < i + 1 || q < i + 1) ==> slots1[p]
                == slots1[q] && slots1[p] is Some && !(rels1[(slots1[p]->0).0 as int].kind
                is Error),
{
    assert forall|x: int|
        i + 1 <= x < rfs.len() && (#[trigger] slots1[x]) is Some implies exists|j: int|
            0 <= j < i + 1 && mutual_pair(rfs, rn, j, x) by {
        assert(slots1[x] == slots0[x]);
        let j = choose|j: int| 0 <= j < i && mutual_pair(rfs, rn, j, x);
        assert(0 <= j < i + 1 && mutual_pair(rfs, rn, j, x));
    }
    assert forall|p: int, q: int|
        #[trigger] mutual_pair(rfs, rn, p, q) && (p < i + 1 || q < i + 1) implies slots1[p]
            == slots1[q] && slots1[p] is Some && !(rels1[(slots1[p]->0).0 as int].kind
            is Error) by {
        if p == i || q == i {
            if q == i {
                assert(mutual_pair(rfs, rn, i, p));
            }
            assert(false);
        } else {
            assert(p < i || q < i);
            assert(slots0[p] == slots0[q] && slots0[p] is Some);
            assert(slots1[p] == slots0[p] && slots1[q] == slots0[q]);
            assert(rels1[(slots0[p]->0).0 as int] == rels0[(slots0[p]->0).0 as int]);
        }
    }
}

/// Maintenance of the pairing invariants across a skipped field: the field
/// was already paired by its (unique) earlier counterpart.
proof fn lemma_skip_step(
    rfs: Seq<RelationField>,
    rn: Seq<Option<StringId>>,
    slots0: Seq<Option<RelationId>>,
    rels0: Seq<Relation>,
    i: int,
)
    requires
        0 <= i < rfs.len(),
        slots0.len() == rfs.len(),
        slots0[i] is Some,
        forall|x: int|
            i <= x < rfs.len() && (#[trigger] slots0[x]) is Some ==> exists|j: int|
                0 <= j < i && mutual_pair(rfs, rn, j, x),
        forall|p: int, q: int|
            #[trigger] mutual_pair(rfs, rn, p, q) && (p < i || q < i) ==> slots0[p] == slots0[q]
                && slots0[p] is Some && !(rels0[(slots0[p]->0).0 as int].kind is Error),
    ensures
        forall|x: int|
            i + 1 <= x < rfs.len() && (#[trigger] slots0[x]) is Some ==> exists|j: int|
                0 <= j < i + 1 && mutual_pair(rfs, rn, j, x),
        forall|p: int, q: int|
            #[trigger] mutual_pair(rfs, rn, p, q) && (p < i + 1 || q < i + 1) ==> slots0[p]
                == slots0[q] && slots0[p] is Some && !(rels0[(slots0[p]->0).0 as int].kind
                is Error),
{
    let j = choose|j: int| 0 <= j < i && mutual_pair(rfs, rn, j, i);
    assert forall|x: int|
        i + 1 <= x < rfs.len() && (#[trigger] slots0[x]) is Some implies exists|j2: int|
            0 <= j2 < i + 1 && mutual_pair(rfs, rn, j2, x) by {
        let j2 = choose|j2: int| 0 <= j2 < i && mutual_pair(rfs, rn, j2, x);
        assert(0 <= j2 < i + 1 && mutual_pair(rfs, rn, j2, x));
    }
    assert forall|p: int, q: int|
        #[trigger] mutual_pair(rfs, rn, p, q) && (p < i + 1 || q < i + 1) implies slots0[p]
            == slots0[q] && slots0[p] is Some && !(rels0[(slots0[p]->0).0 as int].kind
            is Error) by {
        if !(p < i || q < i) {
            if p == i {
                lemma_counterpart_unique(rfs, rn, i, q, j);
                assert(false);
            } else {
                assert(q == i);
                assert(mutual_pair(rfs, rn, i, p));
                lemma_counterpart_unique(rfs, rn, i, p, j);
                assert(false);
            }
        }
    }
}

/// Maintenance of the pairing invariants across one pairing: `i` and its
/// mutually unique counterpart `j0` now share the freshly pushed record.
proof fn lemma_pair_step(
    rfs: Seq<RelationField>,
    rn: Seq<Option<StringId>>,
    slots0: Seq<Option<RelationId>>,
    rels0: Seq<Relation>,
    slots1: Seq<Option<RelationId>>,
    rels1: Seq<Relation>,
    i: int,
    j0: int,
    rid: RelationId,
)
    requires
        0 <= i < rfs.len(),
        0 <= j0 < rfs.len(),
        slots0.len() == rfs.len(),
        slots0[i] is None,
        mutual_pair(rfs, rn, i, j0),
        rid.0 as int == rels0.len() as int,
        rels1.len() == rels0.len() + 1,
        forall|x: int| 0 <= x < rels0.len() ==> #[trigger] rels1[x] == rels0[x],
        !(rels1[rels0.len() as int].kind is Error),
        slots1 == slots0.update(i, Some(rid)).update(j0, Some(rid)),
        forall|x: int|
            i <= x < rfs.len() && (#[trigger] slots0[x]) is Some ==> exists|j: int|
                0 <= j < i && mutual_pair(rfs, rn, j, x),
        forall|p: int, q: int|
            #[trigger] mutual_pair(rfs, rn, p, q) && (p < i || q < i) ==> slots0[p] == slots0[q]
                && slots0[p] is Some && !(rels0[(slots0[p]->0).0 as int].kind is Error),
        forall|x: int|
            0 <= x < slots0.len() && (#[trigger] slots0[x]) is Some ==> (slots0[x]->0).0
                < rels0.len(),
    ensures
        j0 > i,
        forall|x: int|
            i + 1 <= x < rfs.len() && (#[trigger] slots1[x]) is Some ==> exists|j: int|
                0 <= j < i + 1 && mutual_pair(rfs, rn, j, x),
        forall|p: int, q: int|
            #[trigger] mutual_pair(rfs, rn, p, q) && (p < i + 1 || q < i + 1) ==> slots1[p]
                == slots1[q] && slots1[p] is Some && !(rels1[(slots1[p]->0).0 as int].kind
                is Error),
{
    if j0 < i {
        assert(mutual_pair(rfs, rn, j0, i));
        assert(slots0[i] is Some);
        assert(false);
    }
    assert forall|x: int|
        i + 1 <= x < rfs.len() && (#[trigger] slots1[x]) is Some implies exists|j: int|
            0 <= j < i + 1 && mutual_pair(rfs, rn, j, x) by {
        if x == j0 {
            assert(mutual_pair(rfs, rn, i, j0));
        } else {
            assert(slots1[x] == slots0[x]);
            let j = choose|j: int| 0 <= j < i && mutual_pair(rfs, rn, j, x);
            assert(0 <= j < i + 1 && mutual_pair(rfs, rn, j, x));
        }
    }
    assert forall|p: int, q: int|
        #[trigger] mutual_pair(rfs, rn, p, q) && (p < i + 1 || q < i + 1) implies slots1[p]
            == slots1[q] && slots1[p] is Some && !(rels1[(slots1[p]->0).0 as int].kind
            is Error) by {
        if p == i || q == i {
            if q == i {
                assert(mutual_pair(rfs, rn, i, p));
                lemma_counterpart_unique(rfs, rn, i, p, j0);
            } else {
                lemma_counterpart_unique(rfs, rn, i, q, j0);
            }
            assert(slots1[i] == Some(rid));
            assert(slots1[j0] == Some(rid));
        } else {
            assert(p < i || q < i);
            assert(slots0[p] == slots0[q] && slots0[p] is Some);
            // Neither endpoint of an earlier pair can be j0, whose single
            // plausible counterpart is i.
            if p == j0 {
                lemma_counterpart_unique(rfs, rn, j0, q, i);
                assert(false);
            }
            if q == j0 {
                assert(mutual_pair(rfs, rn, j0, p));
                lemma_counterpart_unique(rfs, rn, j0, p, i);
                assert(false);
            }
            assert(slots1[p] == slots0[p] && slots1[q] == slots0[q]);
            assert(rels1[(slots0[p]->0).0 as int] == rels0[(slots0[p]->0).0 as int]);
        }
    }
}

/// Pair every relation field with its counterpart, in field order. A field
/// with no plausible counterpart, or without a mutually unique one, keeps a
/// placeholder relation of the error kind and one diagnostic.
#[verifier::rlimit(100)]
pub fn infer_relations(
    names: &Names,
    types: &Types,
    attrs: &Attributes,
    diagnostics: &mut Diagnostics,
) -> (rels: Relations)
    requires
        attrs.relation_field_attributes@.len() == types.relation_fields@.len(),
        forall|x: int|
            0 <= x < types.relation_fields@.len() ==> (
            #[trigger] types.relation_fields@[x]).model.0 < names.models@.len()
                && types.relation_fields@[x].referenced_model.0 < names.models@.len(),
        forall|k: int|
            0 <= k < names.models@.len() ==> (#[trigger] names.models@[k])
                < names.tops@.len(),
    ensures
        rels.field_relation@.len() == types.relation_fields@.len(),
        forall|i: int|
            0 <= i < rels.field_relation@.len() ==> (#[trigger] rels.field_relation@[i]) is Some
                && (rels.field_relation@[i]->0).0 < rels.relations@.len(),
        forall|i: int|
            0 <= i < rels.relations@.len() ==> (#[trigger] rels.relations@[i]).id == RelationId(
                i as usize,
            ) && relation_ok(
                *names,
                types.relation_fields@,
                relation_names_of(attrs.relation_field_attributes@),
                rels.relations@[i],
            ),
        forall|i: int|
            0 <= i < rels.field_relation@.len() && candidate_count(
                types.relation_fields@,
                relation_names_of(attrs.relation_field_attributes@),
                i,
                types.relation_fields@.len() as int,
            ) == 0 ==> rels.relations@[((#[trigger] rels.field_relation@[i])->0).0 as int].kind
                is Error,
        // The relation a field's slot names has that field as one endpoint.
        forall|x: int|
            0 <= x < rels.field_relation@.len() ==> {
                let rel = rels.relations@[((#[trigger] rels.field_relation@[x])->0).0 as int];
                rel.field_a.0 == x || (rel.field_b is Some && (rel.field_b->0).0 == x)
            },
        // Exactly one missing-counterpart diagnostic per field with no
        // plausible counterpart, and exactly one ambiguity diagnostic per
        // field whose counterparts admit no mutually unique pairing.
        count_kind_in(
            final(diagnostics)@,
            DiagnosticKind::MissingRelationCounterpart,
            final(diagnostics)@.len() as int,
        ) == count_kind_in(
            old(diagnostics)@,
            DiagnosticKind::MissingRelationCounterpart,
            old(diagnostics)@.len() as int,
        ) + zero_candidate_count(
            types.relation_fields@,
            relation_names_of(attrs.relation_field_attributes@),
            types.relation_fields@.len() as int,
        ),
        count_kind_in(
            final(diagnostics)@,
            DiagnosticKind::AmbiguousRelation,
            final(diagnostics)@.len() as int,
        ) == count_kind_in(
            old(diagnostics)@,
            DiagnosticKind::AmbiguousRelation,
            old(diagnostics)@.len() as int,
        ) + unmatched_candidate_count(
            types.relation_fields@,
            relation_names_of(attrs.relation_field_attributes@),
            types.relation_fields@.len() as int,
        ),
        // A mutually unique pair always forms one shared, non-error relation.
        forall|p: int, q: int|
            #[trigger] mutual_pair(
                types.relation_fields@,
                relation_names_of(attrs.relation_field_attributes@),
                p,
                q,
            ) ==> rels.field_relation@[p] == rels.field_relation@[q] && rels.field_relation@[p]
                is Some && !(rels.relations@[(rels.field_relation@[p]->0).0 as int].kind
                is Error),
        appended_only(old(diagnostics)@, final(diagnostics)@, relation_kind_pred()),
{
    let ghost rfs_g = types.relation_fields@;
    let ghost rn_g = relation_names_of(attrs.relation_field_attributes@);
    let rfs = &types.relation_fields;
    // Materialize the relation names so candidate tests are uniform.
    let mut rnames: Vec<Option<StringId>> = Vec::new();
    while rnames.len() < attrs.relation_field_attributes.len()
        invariant
            rnames@.len() <= attrs.relation_field_attributes@.len(),
            forall|x: int|
                0 <= x < rnames@.len() ==> #[trigger] rnames@[x] == slot_relation_name(
                    attrs.relation_field_attributes@[x],
                ),
        decreases attrs.relation_field_attributes@.len() - rnames@.len(),
    {
        let ra = relation_attrs_of(&attrs.relation_field_attributes, rnames.len());
        rnames.push(ra.relation_name);
    }
    proof {
        assert(rnames@ =~= rn_g);
    }
    let mut relations: Vec<Relation> = Vec::new();
    let mut field_relation: Vec<Option<RelationId>> = Vec::new();
    while field_relation.len() < rfs.len()
        invariant
            field_relation@.len() <= rfs@.len(),
            forall|x: int|
                0 <= x < field_relation@.len() ==> (#[trigger] field_relation@[x]) is None,
        decreases rfs@.len() - field_relation@.len(),
    {
        field_relation.push(None);
    }
    let mut m2m_count: usize = 0;
    let mut i: usize = 0;
    while i < rfs.len()
        invariant
            m2m_count <= i,
            forall|x: int|
                0 <= x < rfs@.len() ==> (#[trigger] rfs@[x]).model.0 < names.models@.len()
                    && rfs@[x].referenced_model.0 < names.models@.len(),
            forall|k: int|
                0 <= k < names.models@.len() ==> (#[trigger] names.models@[k])
                    < names.tops@.len(),
            rfs_g == types.relation_fields@,
            rnames@ == rn_g,
            rnames@.len() == rfs@.len(),
            forall|x: int|
                0 <= x < rnames@.len() ==> #[trigger] rnames@[x] == slot_relation_name(
                    attrs.relation_field_attributes@[x],
                ),
            rfs@ == rfs_g,
            i <= rfs@.len(),
            field_relation@.len() == rfs@.len(),
            attrs.relation_field_attributes@.len() == rfs@.len(),
            forall|x: int| 0 <= x < i ==> (#[trigger] field_relation@[x]) is Some,
            forall|x: int|
                0 <= x < field_relation@.len() && (#[trigger] field_relation@[x]) is Some ==> {
                    &&& (field_relation@[x]->0).0 < relations@.len()
                    &&& (candidate_count(rfs_g, rn_g, x, rfs_g.len() as int) == 0
                        ==> relations@[(field_relation@[x]->0).0 as int].kind is Error)
                },
            forall|x: int|
                0 <= x < relations@.len() ==> (#[trigger] relations@[x]).id == RelationId(
                    x as usize,
                ) && relation_ok(*names, rfs_g, rn_g, relations@[x]),
            forall|x: int|
                0 <= x < field_relation@.len() && (#[trigger] field_relation@[x]) is Some ==> {
                    let rel = relations@[(field_relation@[x]->0).0 as int];
                    rel.field_a.0 == x || (rel.field_b is Some && (rel.field_b->0).0 == x)
                },
            forall|x: int|
                i <= x < rfs_g.len() && (#[trigger] field_relation@[x]) is Some ==> exists|j: int|
                    0 <= j < i && mutual_pair(rfs_g, rn_g, j, x),
            forall|p: int, q: int|
                #[trigger] mutual_pair(rfs_g, rn_g, p, q) && (p < i || q < i)
                    ==> field_relation@[p] == field_relation@[q] && field_relation@[p] is Some
                    && !(relations@[(field_relation@[p]->0).0 as int].kind is Error),
            count_kind_in(
                diagnostics@,
                DiagnosticKind::MissingRelationCounterpart,
                diagnostics@.len() as int,
            ) == count_kind_in(
                old(diagnostics)@,
                DiagnosticKind::MissingRelationCounterpart,
                old(diagnostics)@.len() as int,
            ) + zero_candidate_count(rfs_g, rn_g, i as int),
            count_kind_in(
                diagnostics@,
                DiagnosticKind::AmbiguousRelation,
                diagnostics@.len() as int,
            ) == count_kind_in(
                old(diagnostics)@,
                DiagnosticKind::AmbiguousRelation,
                old(diagnostics)@.len() as int,
            ) + unmatched_candidate_count(rfs_g, rn_g, i as int),
            appended_only(old(diagnostics)@, diagnostics@, relation_kind_pred()),
        decreases rfs@.len() - i,
    {
        let ghost slots0 = field_relation@;
        let ghost rels0 = relations@;
        if field_relation[i].is_none() {
            let (count_i, j0) = count_candidates(rfs, &rnames, i);
            let rid = RelationId(relations.len());
            if count_i == 0 {
                relations.push(
                    Relation {
                        id: rid,
                        kind: RelationKind::Error,
                        field_a: RelationFieldId(i),
                        field_b: None,
                        join: None,
                        on_delete: None,
                        on_update: None,
                    },
                );
                field_relation[i] = Some(rid);
                let ghost d0 = diagnostics@;
                let err = DatamodelError {
                    file_id: rfs[i].file,
                    span: rfs[i].span,
                    kind: DiagnosticKind::MissingRelationCounterpart,
                };
                diagnostics.push(err);
                proof {
                    assert forall|q: int| !(#[trigger] mutual_pair(
                        rfs_g,
                        rn_g,
                        i as int,
                        q,
                    )) by {
                        if mutual_pair(rfs_g, rn_g, i as int, q) {
                            lemma_candidate_witness(rfs_g, rn_g, i as int, q, rfs_g.len() as int);
                            assert(false);
                        }
                    }
                    lemma_count_kind_push(
                        d0,
                        err,
                        DiagnosticKind::MissingRelationCounterpart,
                        d0.len() as int,
                    );
                    lemma_count_kind_push(
                        d0,
                        err,
                        DiagnosticKind::AmbiguousRelation,
                        d0.len() as int,
                    );
                    assert(zero_candidate_count(rfs_g, rn_g, i as int + 1)
                        == zero_candidate_count(rfs_g, rn_g, i as int) + 1);
                    assert(unmatched_candidate_count(rfs_g, rn_g, i as int + 1)
                        == unmatched_candidate_count(rfs_g, rn_g, i as int));
                    lemma_error_step(
                        rfs_g,
                        rn_g,
                        slots0,
                        rels0,
                        field_relation@,
                        relations@,
                        i as int,
                        rid,
                    );
                }
            } else if count_i > 1 {
                relations.push(
                    Relation {
                        id: rid,
                        kind: RelationKind::Error,
                        field_a: RelationFieldId(i),
                        field_b: None,
                        join: None,
                        on_delete: None,
                        on_update: None,
                    },
                );
                field_relation[i] = Some(rid);
                let ghost d0 = diagnostics@;
                let err = DatamodelError {
                    file_id: rfs[i].file,
                    span: rfs[i].span,
                    kind: DiagnosticKind::AmbiguousRelation,
                };
                diagnostics.push(err);
                proof {
                    assert forall|q: int| !(#[trigger] mutual_pair(
                        rfs_g,
                        rn_g,
                        i as int,
                        q,
                    )) by {}
                    lemma_count_kind_push(
                        d0,
                        err,
                        DiagnosticKind::MissingRelationCounterpart,
                        d0.len() as int,
                    );
                    lemma_count_kind_push(
                        d0,
                        err,
                        DiagnosticKind::AmbiguousRelation,
                        d0.len() as int,
                    );
                    assert(zero_candidate_count(rfs_g, rn_g, i as int + 1)
                        == zero_candidate_count(rfs_g, rn_g, i as int));
                    assert(unmatched_candidate_count(rfs_g, rn_g, i as int + 1)
                        == unmatched_candidate_count(rfs_g, rn_g, i as int) + 1);
                    lemma_error_step(
                        rfs_g,
                        rn_g,
                        slots0,
                        rels0,
                        field_relation@,
                        relations@,
                        i as int,
                        rid,
                    );
                }
            } else {
                let (count_j, back) = count_candidates(rfs, &rnames, j0);
                if count_j != 1 || back != i {
                    // The counterpart is plausible for more than one field:
                    // not a mutually unique pair.
                    relations.push(
                        Relation {
                            id: rid,
                            kind: RelationKind::Error,
                            field_a: RelationFieldId(i),
                            field_b: None,
                            join: None,
                            on_delete: None,
                            on_update: None,
                        },
                    );
                    field_relation[i] = Some(rid);
                    let ghost d0 = diagnostics@;
                    let err = DatamodelError {
                        file_id: rfs[i].file,
                        span: rfs[i].span,
                        kind: DiagnosticKind::AmbiguousRelation,
                    };
                    diagnostics.push(err);
                    proof {
                        assert forall|q: int| !(
                        #[trigger] mutual_pair(rfs_g, rn_g, i as int, q)) by {
                            if mutual_pair(rfs_g, rn_g, i as int, q) {
                                lemma_counterpart_unique(rfs_g, rn_g, i as int, q, j0 as int);
                                if count_j as int == 1 {
                                    lemma_counterpart_unique(
                                        rfs_g,
                                        rn_g,
                                        j0 as int,
                                        i as int,
                                        back as int,
                                    );
                                }
                                assert(false);
                            }
                        }
                        lemma_count_kind_push(
                            d0,
                            err,
                            DiagnosticKind::MissingRelationCounterpart,
                            d0.len() as int,
                        );
                        lemma_count_kind_push(
                            d0,
                            err,
                            DiagnosticKind::AmbiguousRelation,
                            d0.len() as int,
                        );
                        assert(zero_candidate_count(rfs_g, rn_g, i as int + 1)
                            == zero_candidate_count(rfs_g, rn_g, i as int));
                        assert(unmatched_candidate_count(rfs_g, rn_g, i as int + 1)
                            == unmatched_candidate_count(rfs_g, rn_g, i as int) + 1);
                        lemma_error_step(
                            rfs_g,
                            rn_g,
                            slots0,
                            rels0,
                            field_relation@,
                            relations@,
                            i as int,
                            rid,
                        );
                    }
                } else {
                    let a_list = matches!(rfs[i].arity, FieldArity::List);
                    let b_list = matches!(rfs[j0].arity, FieldArity::List);
                    let attrs_i = relation_attrs_of(&attrs.relation_field_attributes, i);
                    let attrs_j = relation_attrs_of(&attrs.relation_field_attributes, j0);
                    let i_has_actions = attrs_i.on_delete.is_some() || attrs_i.on_update.is_some();
                    let j_has_actions = attrs_j.on_delete.is_some() || attrs_j.on_update.is_some();
                    if i_has_actions && j_has_actions {
                        let ghost d0 = diagnostics@;
                        let err = DatamodelError {
                            file_id: rfs[i].file,
                            span: rfs[i].span,
                            kind: DiagnosticKind::ConflictingReferentialActions,
                        };
                        diagnostics.push(err);
                        proof {
                            lemma_count_kind_push(
                                d0,
                                err,
                                DiagnosticKind::MissingRelationCounterpart,
                                d0.len() as int,
                            );
                            lemma_count_kind_push(
                                d0,
                                err,
                                DiagnosticKind::AmbiguousRelation,
                                d0.len() as int,
                            );
                        }
                    }
                    let (on_delete, on_update) = if i_has_actions {
                        (attrs_i.on_delete, attrs_i.on_update)
                    } else {
                        (attrs_j.on_delete, attrs_j.on_update)
                    };
                    let (kind, join) = if a_list && b_list {
                        let m2m = ManyToManyRelationId(m2m_count);
                        m2m_count += 1;
                        let name_a = names.tops[names.models[rfs[i].model.0]].name;
                        let name_b = names.tops[names.models[rfs[i].referenced_model.0]].name;
                        let ji = join_identity(name_a, name_b, attrs_i.relation_name);
                        (RelationKind::ManyToMany(m2m), Some(ji))
                    } else if a_list || b_list {
                        (RelationKind::OneToMany, None)
                    } else {
                        (RelationKind::OneToOne, None)
                    };
                    relations.push(
                        Relation {
                            id: rid,
                            kind,
                            field_a: RelationFieldId(i),
                            field_b: Some(RelationFieldId(j0)),
                            join,
                            on_delete,
                            on_update,
                        },
                    );
                    field_relation[i] = Some(rid);
                    field_relation[j0] = Some(rid);
                    proof {
                        assert(rn_g[i as int] == slot_relation_name(
                            attrs.relation_field_attributes@[i as int],
                        ));
                        assert(candidate_count(rfs_g, rn_g, i as int, rfs_g.len() as int) == 1);
                        assert(candidate_count(rfs_g, rn_g, j0 as int, rfs_g.len() as int) == 1);
                        assert(mutual_pair(rfs_g, rn_g, i as int, j0 as int));
                        assert(kind_matches_arities(
                            relations@[rid.0 as int].kind,
                            rfs_g[i as int].arity,
                            rfs_g[j0 as int].arity,
                        ));
                        assert(relation_ok(*names, rfs_g, rn_g, relations@[rid.0 as int]));
                        lemma_pair_step(
                            rfs_g,
                            rn_g,
                            slots0,
                            rels0,
                            field_relation@,
                            relations@,
                            i as int,
                            j0 as int,
                            rid,
                        );
                        assert(zero_candidate_count(rfs_g, rn_g, i as int + 1)
                            == zero_candidate_count(rfs_g, rn_g, i as int));
                        assert(unmatched_candidate_count(rfs_g, rn_g, i as int + 1)
                            == unmatched_candidate_count(rfs_g, rn_g, i as int));
                    }
                }
            }
        } else {
            proof {
                lemma_skip_step(rfs_g, rn_g, slots0, rels0, i as int);
                assert(field_relation@[i as int] is Some);
                let j = choose|j: int| 0 <= j < i as int && mutual_pair(rfs_g, rn_g, j, i as int);
                assert(mutual_pair(rfs_g, rn_g, i as int, j));
                assert(candidate_count(rfs_g, rn_g, i as int, rfs_g.len() as int) == 1);
                assert(zero_candidate_count(rfs_g, rn_g, i as int + 1) == zero_candidate_count(
                    rfs_g,
                    rn_g,
                    i as int,
                ));
                assert(unmatched_candidate_count(rfs_g, rn_g, i as int + 1)
                    == unmatched_candidate_count(rfs_g, rn_g, i as int));
            }
        }
        i += 1;
    }
    Relations { relations, field_relation }
}

} // verus!
