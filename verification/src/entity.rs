//! The in-memory entity graph: a primary key, the non-key column values in
//! schema order, and one child list per relation.

use vstd::prelude::*;
use crate::schema::SchemaView;
use crate::values::{DbValue, DbValueView};

verus! {

/// One entity instance. `pk` is `Some` when the row already exists in
/// storage and `None` when it is new; `values` holds one cell per non-key
/// column of the schema; `children` holds one list per relation.
#[derive(Debug)]
pub struct Entity {
    pub pk: Option<u64>,
    pub values: Vec<DbValue>,
    pub children: Vec<Vec<Entity>>,
}

/// Mathematical model of an [`Entity`].
#[verifier::ext_equal]
pub struct EntityView {
    pub pk: Option<u64>,
    pub values: Seq<DbValueView>,
    pub children: Seq<Seq<EntityView>>,
}

/// The views of an entity list, in order.
pub open spec fn spec_entity_views(es: Seq<Entity>) -> Seq<EntityView>
    decreases es,
{
    if es.len() == 0 {
        Seq::empty()
    } else {
        spec_entity_views(es.drop_last()).push(spec_entity_view(es.last()))
    }
}

/// The views of a list of entity lists, in order.
pub open spec fn spec_entity_lists_views(ls: Seq<Vec<Entity>>) -> Seq<Seq<EntityView>>
    decreases ls,
{
    if ls.len() == 0 {
        Seq::empty()
    } else {
        spec_entity_lists_views(ls.drop_last()).push(spec_entity_views(ls.last()@))
    }
}

/// The view of an entity tree.
pub open spec fn spec_entity_view(e: Entity) -> EntityView
    decreases e,
{
    EntityView {
        pk: e.pk,
        values: Seq::new(e.values@.len(), |i: int| e.values@[i]@),
        children: spec_entity_lists_views(e.children@),
    }
}

impl View for Entity {
    type V = EntityView;

    open spec fn view(&self) -> EntityView {
        spec_entity_view(*self)
    }
}

/// The views of an entity list agree index-wise with the list.
pub proof fn lemma_entity_views(es: Seq<Entity>)
    ensures
        spec_entity_views(es).len() == es.len(),
        forall|i: int| 0 <= i < es.len() ==> #[trigger] spec_entity_views(es)[i]
            == spec_entity_view(es[i]),
    decreases es,
{
    if es.len() > 0 {
        lemma_entity_views(es.drop_last());
        assert forall|i: int| 0 <= i < es.len() implies #[trigger] spec_entity_views(es)[i]
            == spec_entity_view(es[i]) by {
            if i < es.len() - 1 {
                assert(es.drop_last()[i] == es[i]);
            }
        }
    }
}

/// The views of a list of entity lists agree index-wise with the list.
pub proof fn lemma_entity_lists_views(ls: Seq<Vec<Entity>>)
    ensures
        spec_entity_lists_views(ls).len() == ls.len(),
        forall|i: int| 0 <= i < ls.len() ==> #[trigger] spec_entity_lists_views(ls)[i]
            == spec_entity_views(ls[i]@),
    decreases ls,
{
    if ls.len() > 0 {
        lemma_entity_lists_views(ls.drop_last());
        assert forall|i: int| 0 <= i < ls.len() implies #[trigger] spec_entity_lists_views(ls)[i]
            == spec_entity_views(ls[i]@) by {
            if i < ls.len() - 1 {
                assert(ls.drop_last()[i] == ls[i]);
            }
        }
    }
}

/// An entity graph fits a schema: one cell per non-key column, one child
/// list per relation, recursively.
pub open spec fn spec_conforms(e: EntityView, s: SchemaView) -> bool
    decreases e,
{
    &&& e.values.len() == s.columns.len()
    &&& e.children.len() == s.relations.len()
    &&& spec_conforms_lists(e.children, s.relations)
}

/// Every child list fits its relation's schema, pairing the lists and the
/// relations in order.
pub open spec fn spec_conforms_lists(
    lists: Seq<Seq<EntityView>>,
    rels: Seq<crate::schema::RelationView>,
) -> bool
    decreases lists,
{
    if lists.len() == 0 || rels.len() == 0 {
        true
    } else {
        spec_conforms_list(lists[0], rels[0].schema) && spec_conforms_lists(
            lists.drop_first(),
            rels.drop_first(),
        )
    }
}

/// Every entity of the list fits the schema.
pub open spec fn spec_conforms_list(es: Seq<EntityView>, cs: SchemaView) -> bool
    decreases es,
{
    if es.len() == 0 {
        true
    } else {
        spec_conforms(es[0], cs) && spec_conforms_list(es.drop_first(), cs)
    }
}

/// Every entity of a conforming list fits the schema.
pub proof fn lemma_conforms_list_index(es: Seq<EntityView>, cs: SchemaView, k: int)
    requires
        spec_conforms_list(es, cs),
        0 <= k < es.len(),
    ensures
        spec_conforms(es[k], cs),
    decreases es,
{
    if k > 0 {
        lemma_conforms_list_index(es.drop_first(), cs, k - 1);
    }
}

/// Each child list of a conforming family fits its relation's schema.
pub proof fn lemma_conforms_lists_index(
    lists: Seq<Seq<EntityView>>,
    rels: Seq<crate::schema::RelationView>,
    j: int,
)
    requires
        spec_conforms_lists(lists, rels),
        0 <= j < lists.len(),
        lists.len() <= rels.len(),
    ensures
        spec_conforms_list(lists[j], rels[j].schema),
    decreases lists,
{
    if j > 0 {
        lemma_conforms_lists_index(lists.drop_first(), rels.drop_first(), j - 1);
    }
}

/// An entity graph as previously loaded from storage: every node carries a
/// primary key, and within each sibling list the keys are distinct.
pub open spec fn spec_persisted(e: EntityView) -> bool
    decreases e,
{
    &&& e.pk is Some
    &&& spec_persisted_lists(e.children)
}

/// Every list of a family is persisted and has distinct keys.
pub open spec fn spec_persisted_lists(lists: Seq<Seq<EntityView>>) -> bool
    decreases lists,
{
    if lists.len() == 0 {
        true
    } else {
        spec_pks_distinct(lists[0]) && spec_persisted_list(lists[0]) && spec_persisted_lists(
            lists.drop_first(),
        )
    }
}

/// Every entity of the list is persisted.
pub open spec fn spec_persisted_list(es: Seq<EntityView>) -> bool
    decreases es,
{
    if es.len() == 0 {
        true
    } else {
        spec_persisted(es[0]) && spec_persisted_list(es.drop_first())
    }
}

/// No two entities of the list share a primary key.
pub open spec fn spec_pks_distinct(es: Seq<EntityView>) -> bool {
    forall|a: int, b: int| 0 <= a < b < es.len() ==> #[trigger] es[a].pk != #[trigger] es[b].pk
}

impl Entity {
    /// The entity's primary key, `None` when it is not yet persisted.
    pub fn get_pk(&self) -> (r: Option<u64>)
        ensures
            r == self@.pk,
    {
        self.pk
    }
}

} // verus!
