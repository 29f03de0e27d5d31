//! Read-only walkers over the finished structure. A walker pairs a borrow
//! of the database with one id and exposes navigation without revealing the
//! id and interner indirection. Walkers never mutate and are cheap to
//! construct.

use vstd::prelude::*;
use crate::ast::Field;
use crate::ids::{EnumId, ModelId};
use crate::relations::{Relation, RelationId};
use crate::types::{entry_decl, top_fields};
use crate::ParserDatabase;

verus! {

/// A read-only view of one model.
pub struct ModelWalker<'a> {
    pub db: &'a ParserDatabase,
    pub id: ModelId,
}

/// A read-only view of one enum.
pub struct EnumWalker<'a> {
    pub db: &'a ParserDatabase,
    pub id: EnumId,
}

/// A read-only view of one inferred relation.
pub struct RelationWalker<'a> {
    pub db: &'a ParserDatabase,
    pub id: RelationId,
}

impl ParserDatabase {
    /// Walk one model.
    pub fn walk_model(&self, id: ModelId) -> (w: ModelWalker)
        requires
            self.wf(),
            id.0 < self.names_view().models@.len(),
        ensures
            w.wf(),
            w.id == id,
            w.db_is(self),
    {
        ModelWalker { db: self, id }
    }

    /// Walk every model, in declaration order.
    pub fn walk_models(&self) -> (ws: Vec<ModelWalker>)
        requires
            self.wf(),
        ensures
            ws@.len() == self.names_view().models@.len(),
            forall|i: int|
                0 <= i < ws@.len() ==> (#[trigger] ws@[i]).wf() && ws@[i].id == ModelId(i as usize)
                    && ws@[i].db_is(self),
    {
        let mut out: Vec<ModelWalker> = Vec::new();
        let mut i: usize = 0;
        while i < self.names_view_models_len()
            invariant
                self.wf(),
                i <= self.names_view().models@.len(),
                out@.len() == i,
                forall|q: int|
                    0 <= q < out@.len() ==> (#[trigger] out@[q]).wf() && out@[q].id == ModelId(
                        q as usize,
                    ) && out@[q].db_is(self),
            decreases self.names_view().models@.len() - i,
        {
            out.push(ModelWalker { db: self, id: ModelId(i) });
            i += 1;
        }
        out
    }

    /// Walk one enum.
    pub fn walk_enum(&self, id: EnumId) -> (w: EnumWalker)
        requires
            self.wf(),
            id.0 < self.names_view().enums@.len(),
        ensures
            w.wf(),
            w.id == id,
    {
        EnumWalker { db: self, id }
    }

    /// Walk one relation.
    pub fn walk_relation(&self, id: RelationId) -> (w: RelationWalker)
        requires
            self.wf(),
            id.0 < self.relations_view().relations@.len(),
        ensures
            w.wf(),
            w.id == id,
    {
        RelationWalker { db: self, id }
    }

    /// How many relations inference produced.
    pub fn relations_count(&self) -> (r: usize)
        ensures
            r == self.relations_view().relations@.len(),
    {
        self.relations.relations.len()
    }
}

impl<'a> ModelWalker<'a> {
    pub open spec fn wf(&self) -> bool {
        &&& self.db.wf()
        &&& self.id.0 < self.db.names_view().models@.len()
    }

    pub open spec fn db_is(&self, db: &ParserDatabase) -> bool {
        self.db == db
    }

    /// The model's declared name.
    pub fn name(&self) -> (r: &String)
        requires
            self.wf(),
        ensures
            r@ == self.db.interner_view()[self.db.names_view().tops@[self.db.names_view().models@[
                self.id.0 as int
            ] as int].name.0 as int],
    {
        self.db.model_name(self.id)
    }

    /// The model's fields, in declaration order.
    pub fn fields(&self) -> (r: &Vec<Field>)
        requires
            self.wf(),
        ensures
            r@ == top_fields(
                entry_decl(
                    self.db.files_view(),
                    self.db.names_view().tops@[self.db.names_view().models@[
                        self.id.0 as int
                    ] as int],
                ),
            ),
    {
        self.db.model_fields(self.id)
    }
}

impl<'a> EnumWalker<'a> {
    pub open spec fn wf(&self) -> bool {
        &&& self.db.wf()
        &&& self.id.0 < self.db.names_view().enums@.len()
    }

    /// The enum's declared name.
    pub fn name(&self) -> (r: &String)
        requires
            self.wf(),
        ensures
            r@ == self.db.interner_view()[self.db.names_view().tops@[self.db.names_view().enums@[
                self.id.0 as int
            ] as int].name.0 as int],
    {
        self.db.enum_name(self.id)
    }
}

impl<'a> RelationWalker<'a> {
    pub open spec fn wf(&self) -> bool {
        &&& self.db.wf()
        &&& self.id.0 < self.db.relations_view().relations@.len()
    }

    /// The underlying relation record.
    pub fn get(&self) -> (r: &Relation)
        requires
            self.wf(),
        ensures
            *r == self.db.relations_view().relations@[self.id.0 as int],
    {
        self.db.relation(self.id)
    }
}

} // verus!
