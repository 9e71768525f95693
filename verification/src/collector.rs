//! The row materializer: a streaming reducer that folds the ordered rows of
//! the UNION-ALL query back into nested entity trees, grouping contiguous
//! rows by primary-key equality and dispatching embedded columns to nested
//! collectors by recorded offset.

use vstd::prelude::*;
use crate::entity::{Entity, EntityView, spec_entity_view, spec_entity_views};
use crate::schema::{Schema, SchemaView, RelationView, spec_width};
use crate::values::{DbValue, DbValueView, spec_cell_pk};

verus! {

/// An entity under assembly: its key, its own column cells, and one nested
/// collector per relation.
#[derive(Debug)]
pub struct PartialData {
    pub pk: u64,
    pub values: Vec<DbValue>,
    pub subs: Vec<DataCollector>,
}

/// A streaming collector for one level of the tree: the row offset its block
/// starts at, the entity under assembly, and the finished entities.
#[derive(Debug)]
pub struct DataCollector {
    pub offset: usize,
    pub current: Option<PartialData>,
    pub partial_result: Vec<Entity>,
}

/// Mathematical model of a [`PartialData`].
#[verifier::ext_equal]
pub struct PartialView {
    pub pk: u64,
    pub values: Seq<DbValueView>,
    pub subs: Seq<CollectorView>,
}

/// Mathematical model of a [`DataCollector`].
#[verifier::ext_equal]
pub struct CollectorView {
    pub offset: int,
    pub current: Option<PartialView>,
    pub results: Seq<EntityView>,
}

/// The views of a nested collector list, in order.
pub open spec fn spec_sub_views(subs: Seq<DataCollector>) -> Seq<CollectorView>
    decreases subs,
{
    if subs.len() == 0 {
        Seq::empty()
    } else {
        spec_sub_views(subs.drop_last()).push(spec_collector_view(subs.last()))
    }
}

/// The view of a partial entity.
pub open spec fn spec_partial_view(p: PartialData) -> PartialView
    decreases p,
{
    PartialView {
        pk: p.pk,
        values: Seq::new(p.values@.len(), |i: int| p.values@[i]@),
        subs: spec_sub_views(p.subs@),
    }
}

/// The view of a collector.
pub open spec fn spec_collector_view(c: DataCollector) -> CollectorView
    decreases c,
{
    CollectorView {
        offset: c.offset as int,
        current: match c.current {
            Some(p) => Some(spec_partial_view(p)),
            None => None,
        },
        results: spec_entity_views(c.partial_result@),
    }
}

impl View for DataCollector {
    type V = CollectorView;

    open spec fn view(&self) -> CollectorView {
        spec_collector_view(*self)
    }
}

impl View for PartialData {
    type V = PartialView;

    open spec fn view(&self) -> PartialView {
        spec_partial_view(*self)
    }
}

/// The views of a nested collector list agree index-wise with the list.
pub proof fn lemma_sub_views(subs: Seq<DataCollector>)
    ensures
        spec_sub_views(subs).len() == subs.len(),
        forall|i: int| 0 <= i < subs.len() ==> #[trigger] spec_sub_views(subs)[i]
            == spec_collector_view(subs[i]),
    decreases subs,
{
    if subs.len() > 0 {
        lemma_sub_views(subs.drop_last());
        assert forall|i: int| 0 <= i < subs.len() implies #[trigger] spec_sub_views(subs)[i]
            == spec_collector_view(subs[i]) by {
            if i < subs.len() - 1 {
                assert(subs.drop_last()[i] == subs[i]);
            }
        }
    }
}

/// The primary key a row shows at an offset, if the cell is a key.
pub open spec fn spec_row_pk(row: Seq<DbValueView>, offset: int) -> Option<u64> {
    if 0 <= offset < row.len() {
        spec_cell_pk(row[offset])
    } else {
        None
    }
}

/// A collector that has consumed nothing, owning the block at `offset`.
pub open spec fn spec_init_collector(offset: int) -> CollectorView {
    CollectorView { offset, current: None, results: Seq::empty() }
}

/// The partial entity one row starts: the key, the entity's own cells right
/// after the key, and one nested collector per relation, each seeded with
/// the row.
pub open spec fn spec_new_partial(
    s: SchemaView,
    offset: int,
    pk: u64,
    row: Seq<DbValueView>,
) -> PartialView
    decreases s, 0nat,
{
    PartialView {
        pk,
        values: row.subrange(offset + 1, offset + 1 + s.columns.len() as int),
        subs: spec_new_subs(s.relations, offset + 1 + s.columns.len() as int, row),
    }
}

/// The seeded nested collectors of a fresh partial entity, block by block.
pub open spec fn spec_new_subs(
    rs: Seq<RelationView>,
    base: int,
    row: Seq<DbValueView>,
) -> Seq<CollectorView>
    decreases rs, 1nat,
{
    if rs.len() == 0 {
        Seq::empty()
    } else {
        seq![spec_push(rs[0].schema, spec_init_collector(base), row)] + spec_new_subs(
            rs.drop_first(),
            base + spec_width(rs[0].schema),
            row,
        )
    }
}

/// How one row changes a collector: a row whose key cell at the collector's
/// offset is NULL contributes nothing to this level; a row starting a new
/// key finalizes the entity under assembly and starts the next one; a row
/// repeating the key feeds the nested collectors.
pub open spec fn spec_push(s: SchemaView, c: CollectorView, row: Seq<DbValueView>) -> CollectorView
    decreases s, 3nat,
{
    match spec_row_pk(row, c.offset) {
        None => c,
        Some(pk) => match c.current {
            None => CollectorView {
                current: Some(spec_new_partial(s, c.offset, pk, row)),
                ..c
            },
            Some(p) => {
                if p.pk == pk {
                    CollectorView {
                        current: Some(
                            PartialView { subs: spec_push_subs(s.relations, p.subs, row), ..p },
                        ),
                        ..c
                    }
                } else {
                    CollectorView {
                        current: Some(spec_new_partial(s, c.offset, pk, row)),
                        results: c.results.push(spec_finish(p)),
                        ..c
                    }
                }
            },
        },
    }
}

/// One row fed to each nested collector, in relation order.
pub open spec fn spec_push_subs(
    rs: Seq<RelationView>,
    subs: Seq<CollectorView>,
    row: Seq<DbValueView>,
) -> Seq<CollectorView>
    decreases rs, 2nat,
{
    if rs.len() == 0 || subs.len() == 0 {
        subs
    } else {
        seq![spec_push(rs[0].schema, subs[0], row)] + spec_push_subs(
            rs.drop_first(),
            subs.drop_first(),
            row,
        )
    }
}

/// The entity a finished partial assembles: its key, its cells, and each
/// nested collector's built children.
pub open spec fn spec_finish(p: PartialView) -> EntityView
    decreases p, 1nat,
{
    EntityView { pk: Some(p.pk), values: p.values, children: spec_finish_subs(p.subs) }
}

/// The child lists of the nested collectors.
pub open spec fn spec_finish_subs(subs: Seq<CollectorView>) -> Seq<Seq<EntityView>>
    decreases subs, 2nat,
{
    if subs.len() == 0 {
        Seq::empty()
    } else {
        seq![spec_build(subs[0])] + spec_finish_subs(subs.drop_first())
    }
}

/// What a collector has built once the stream ends: the finished entities,
/// and the one still under assembly, completed.
pub open spec fn spec_build(c: CollectorView) -> Seq<EntityView>
    decreases c, 0nat,
{
    match c.current {
        None => c.results,
        Some(p) => c.results.push(spec_finish(p)),
    }
}

/// A collector whose nested collectors sit at the offsets the schema's
/// blocks dictate, recursively.
pub open spec fn spec_collector_wf(s: SchemaView, c: CollectorView) -> bool
    decreases s, 0nat,
{
    match c.current {
        None => true,
        Some(p) => spec_subs_wf(
            s.relations,
            c.offset + 1 + s.columns.len() as int,
            p.subs,
        ),
    }
}

/// Nested collectors paired with their relations, block after block.
pub open spec fn spec_subs_wf(rs: Seq<RelationView>, base: int, subs: Seq<CollectorView>) -> bool
    decreases rs, 1nat,
{
    if rs.len() == 0 {
        subs.len() == 0
    } else {
        &&& subs.len() == rs.len()
        &&& subs[0].offset == base
        &&& spec_collector_wf(rs[0].schema, subs[0])
        &&& spec_subs_wf(rs.drop_first(), base + spec_width(rs[0].schema), subs.drop_first())
    }
}

} // verus!

verus! {

/// The pushed nested collectors are the pointwise push of the originals.
pub proof fn lemma_push_subs_index(
    rs: Seq<RelationView>,
    subs: Seq<CollectorView>,
    row: Seq<DbValueView>,
)
    requires
        subs.len() <= rs.len(),
    ensures
        spec_push_subs(rs, subs, row).len() == subs.len(),
        forall|i: int|
            0 <= i < subs.len() ==> #[trigger] spec_push_subs(rs, subs, row)[i] == spec_push(
                rs[i].schema,
                subs[i],
                row,
            ),
    decreases rs,
{
    if rs.len() > 0 && subs.len() > 0 {
        lemma_push_subs_index(rs.drop_first(), subs.drop_first(), row);
        assert forall|i: int| 0 <= i < subs.len() implies #[trigger] spec_push_subs(
            rs,
            subs,
            row,
        )[i] == spec_push(rs[i].schema, subs[i], row) by {
            if i > 0 {
                assert(spec_push_subs(rs, subs, row)[i] == spec_push_subs(
                    rs.drop_first(),
                    subs.drop_first(),
                    row,
                )[i - 1]);
                assert(rs.drop_first()[i - 1] == rs[i]);
                assert(subs.drop_first()[i - 1] == subs[i]);
            }
        }
    }
}

/// Each nested collector of a well-formed family is well-formed and sits at
/// its block's start.
pub proof fn lemma_subs_wf_index(
    rs: Seq<RelationView>,
    base: int,
    subs: Seq<CollectorView>,
    i: int,
)
    requires
        spec_subs_wf(rs, base, subs),
        0 <= i < subs.len(),
    ensures
        subs.len() == rs.len(),
        spec_collector_wf(rs[i].schema, subs[i]),
        subs[i].offset == base + crate::schema::spec_width_rels(rs.subrange(0, i)),
        subs[i].offset + spec_width(rs[i].schema) <= base + crate::schema::spec_width_rels(rs),
    decreases rs,
{
    crate::query::lemma_width_rels_nonneg(rs.subrange(0, i));
    if i == 0 {
        assert(rs.subrange(0, 0) =~= Seq::<RelationView>::empty());
        crate::query::lemma_width_rels_split(rs);
        crate::query::lemma_width_rels_nonneg(rs.drop_first());
    } else {
        lemma_subs_wf_index(
            rs.drop_first(),
            base + spec_width(rs[0].schema),
            subs.drop_first(),
            i - 1,
        );
        assert(rs.drop_first()[i - 1] == rs[i]);
        assert(subs.drop_first()[i - 1] == subs[i]);
        assert(rs.drop_first().subrange(0, i - 1) =~= rs.subrange(1, i));
        assert(seq![rs[0]] + rs.subrange(1, i) =~= rs.subrange(0, i));
        crate::schema::lemma_width_rels_concat(seq![rs[0]], rs.subrange(1, i));
        assert(seq![rs[0]].drop_last() =~= Seq::<RelationView>::empty());
        assert(seq![rs[0]].last() == rs[0]);
        assert(crate::schema::spec_width_rels(Seq::<RelationView>::empty()) == 0);
        crate::query::lemma_width_rels_split(rs);
    }
}

/// Pushing a row keeps a collector well-formed.
pub proof fn lemma_push_wf(s: SchemaView, c: CollectorView, row: Seq<DbValueView>)
    requires
        spec_collector_wf(s, c),
    ensures
        spec_collector_wf(s, spec_push(s, c, row)),
    decreases s, 3nat,
{
    match spec_row_pk(row, c.offset) {
        None => {},
        Some(pk) => match c.current {
            None => {
                lemma_new_partial_wf(s, c.offset, pk, row);
            },
            Some(p) => {
                if p.pk == pk {
                    lemma_push_subs_wf(
                        s.relations,
                        c.offset + 1 + s.columns.len() as int,
                        p.subs,
                        row,
                    );
                } else {
                    lemma_new_partial_wf(s, c.offset, pk, row);
                }
            },
        },
    }
}

/// Pushing a row keeps a nested collector family well-formed.
pub proof fn lemma_push_subs_wf(
    rs: Seq<RelationView>,
    base: int,
    subs: Seq<CollectorView>,
    row: Seq<DbValueView>,
)
    requires
        spec_subs_wf(rs, base, subs),
    ensures
        spec_subs_wf(rs, base, spec_push_subs(rs, subs, row)),
    decreases rs, 2nat,
{
    if rs.len() > 0 && subs.len() > 0 {
        lemma_push_wf(rs[0].schema, subs[0], row);
        lemma_push_subs_wf(
            rs.drop_first(),
            base + spec_width(rs[0].schema),
            subs.drop_first(),
            row,
        );
        let r = spec_push_subs(rs, subs, row);
        assert(r[0] == spec_push(rs[0].schema, subs[0], row));
        assert(r.drop_first() =~= spec_push_subs(rs.drop_first(), subs.drop_first(), row));
        assert(spec_push(rs[0].schema, subs[0], row).offset == subs[0].offset);
    }
}

/// A fresh partial entity's nested collectors are well-formed.
pub proof fn lemma_new_partial_wf(s: SchemaView, offset: int, pk: u64, row: Seq<DbValueView>)
    ensures
        spec_collector_wf(
            s,
            CollectorView {
                offset,
                current: Some(spec_new_partial(s, offset, pk, row)),
                results: Seq::empty(),
            },
        ),
        spec_subs_wf(
            s.relations,
            offset + 1 + s.columns.len() as int,
            spec_new_partial(s, offset, pk, row).subs,
        ),
    decreases s, 0nat,
{
    lemma_new_subs_wf(s.relations, offset + 1 + s.columns.len() as int, row);
}

/// Freshly seeded nested collectors are well-formed.
pub proof fn lemma_new_subs_wf(rs: Seq<RelationView>, base: int, row: Seq<DbValueView>)
    ensures
        spec_subs_wf(rs, base, spec_new_subs(rs, base, row)),
    decreases rs, 1nat,
{
    if rs.len() > 0 {
        let seeded = spec_push(rs[0].schema, spec_init_collector(base), row);
        assert(spec_collector_wf(rs[0].schema, spec_init_collector(base)));
        lemma_push_wf(rs[0].schema, spec_init_collector(base), row);
        lemma_new_subs_wf(rs.drop_first(), base + spec_width(rs[0].schema), row);
        let r = spec_new_subs(rs, base, row);
        assert(r[0] == seeded);
        assert(r.drop_first() =~= spec_new_subs(rs.drop_first(), base + spec_width(rs[0].schema), row));
        assert(seeded.offset == base);
    }
}

/// Building one more nested collector extends the child lists at the end.
pub proof fn lemma_finish_subs_snoc(subs: Seq<CollectorView>, x: CollectorView)
    ensures
        spec_finish_subs(subs.push(x)) == spec_finish_subs(subs) + seq![spec_build(x)],
    decreases subs,
{
    if subs.len() == 0 {
        assert(subs.push(x)[0] == x);
        assert(subs.push(x).drop_first() =~= Seq::<CollectorView>::empty());
        assert(spec_finish_subs(Seq::<CollectorView>::empty()) =~= Seq::<Seq<EntityView>>::empty());
        assert(spec_finish_subs(subs.push(x)) =~= Seq::<Seq<EntityView>>::empty() + seq![
            spec_build(x),
        ]);
        assert(subs =~= Seq::<CollectorView>::empty());
    } else {
        assert(subs.push(x)[0] == subs[0]);
        assert(subs.push(x).drop_first() =~= subs.drop_first().push(x));
        lemma_finish_subs_snoc(subs.drop_first(), x);
        assert(spec_finish_subs(subs.push(x)) =~= spec_finish_subs(subs) + seq![spec_build(x)]);
    }
}

} // verus!

verus! {

impl DataCollector {
    /// A collector that has consumed nothing, owning the block at `offset`.
    pub fn new(offset: usize) -> (r: DataCollector)
        ensures
            r@ == spec_init_collector(offset as int),
    {
        let r = DataCollector { offset, current: None, partial_result: Vec::new() };
        proof {
            assert(spec_entity_views(r.partial_result@) =~= Seq::<EntityView>::empty());
            assert(r@ =~~= spec_init_collector(offset as int));
        }
        r
    }
}

#[verifier::loop_isolation(false)]
#[verifier::rlimit(100)]
fn new_partial(schema: &Schema, offset: usize, pk: u64, row: &Vec<DbValue>) -> (r: PartialData)
    requires
        offset + spec_width(schema@) <= row@.len(),
    ensures
        r@ == spec_new_partial(schema@, offset as int, pk, row.deep_view()),
    decreases *schema, 0nat,
{
    let ghost rowv = row.deep_view();
    let ghost rels = schema@.relations;
    proof {
        crate::schema::lemma_rel_views(schema.relations@);
        crate::query::lemma_width_rels_nonneg(rels);
    }
    let row_len = row.len();
    let ncols = schema.columns.len();
    let mut values: Vec<DbValue> = Vec::new();
    let mut k: usize = 0;
    while k < ncols
        invariant
            k <= ncols,
            values.deep_view() == rowv.subrange(offset + 1, offset + 1 + k as int),
        decreases ncols - k,
    {
        values.push(row[offset + 1 + k].clone());
        proof {
            assert(values.deep_view() =~= rowv.subrange(offset + 1, offset + 1 + (k + 1) as int));
        }
        k = k + 1;
    }
    let first = offset + 1 + ncols;
    let mut subs: Vec<DataCollector> = Vec::new();
    let mut cur: usize = first;
    proof {
        assert(rels.subrange(0, 0) =~= Seq::<RelationView>::empty());
        assert(spec_sub_views(subs@) =~= spec_new_subs(rels.subrange(0, 0), first as int, rowv));
        assert(crate::schema::spec_width_rels(Seq::<RelationView>::empty()) == 0);
        assert(rels.subrange(0, rels.len() as int) =~= rels);
    }
    let mut i: usize = 0;
    while i < schema.relations.len()
        invariant
            i <= schema.relations.len(),
            cur as int == first + crate::schema::spec_width_rels(rels.subrange(0, i as int)),
            cur as int + crate::schema::spec_width_rels(
                rels.subrange(i as int, rels.len() as int),
            ) == offset + spec_width(schema@),
            spec_sub_views(subs@) == spec_new_subs_prefix(rels, i as int, first as int, rowv),
        decreases schema.relations.len() - i,
    {
        let ghost pre = rels.subrange(0, i as int);
        let ghost suf = rels.subrange(i as int, rels.len() as int);
        let ghost suf2 = rels.subrange(i + 1 as int, rels.len() as int);
        proof {
            assert(suf[0] == rels[i as int]);
            assert(suf.drop_first() =~= suf2);
            crate::query::lemma_width_rels_split(suf);
            crate::query::lemma_width_rels_nonneg(suf2);
            crate::query::lemma_width_rels_nonneg(pre);
        }
        let mut sub = DataCollector::new(cur);
        proof {
            assert(spec_collector_wf(rels[i as int].schema, sub@));
        }
        sub.push_next(&schema.relations[i].schema, row);
        let ghost old_subs = subs@;
        subs.push(sub);
        let w = crate::schema::width(&schema.relations[i].schema);
        cur = cur + w;
        proof {
            assert(subs@.drop_last() =~= old_subs);
            assert(spec_sub_views(subs@) =~= spec_sub_views(old_subs).push(
                spec_push(rels[i as int].schema, spec_init_collector(cur as int - w), rowv),
            ));
            assert(rels.subrange(0, i + 1 as int).drop_last() =~= pre);
            crate::schema::lemma_width_rels_concat(pre, seq![rels[i as int]]);
            assert(pre + seq![rels[i as int]] =~= rels.subrange(0, i + 1 as int));
            assert(seq![rels[i as int]].drop_last() =~= Seq::<RelationView>::empty());
            assert(seq![rels[i as int]].last() == rels[i as int]);
            assert(crate::schema::spec_width_rels(seq![rels[i as int]]) == spec_width(
                rels[i as int].schema,
            ));
            assert(spec_sub_views(subs@) =~= spec_new_subs_prefix(
                rels,
                i + 1 as int,
                first as int,
                rowv,
            ));
        }
        i = i + 1;
    }
    let r = PartialData { pk, values, subs };
    proof {
        lemma_new_subs_prefix_full(rels, first as int, rowv);
        assert(r@ =~~= spec_new_partial(schema@, offset as int, pk, rowv));
    }
    r
}

/// The first `upto` seeded nested collectors of a fresh partial entity.
pub open spec fn spec_new_subs_prefix(
    rs: Seq<RelationView>,
    upto: int,
    base: int,
    row: Seq<DbValueView>,
) -> Seq<CollectorView>
    decreases upto,
{
    if upto <= 0 || upto > rs.len() {
        Seq::empty()
    } else {
        spec_new_subs_prefix(rs, upto - 1, base, row).push(
            spec_push(
                rs[upto - 1].schema,
                spec_init_collector(
                    base + crate::schema::spec_width_rels(rs.subrange(0, upto - 1)),
                ),
                row,
            ),
        )
    }
}

/// The full prefix of seeded nested collectors is the whole seeded family.
pub proof fn lemma_new_subs_prefix_full(rs: Seq<RelationView>, base: int, row: Seq<DbValueView>)
    ensures
        spec_new_subs_prefix(rs, rs.len() as int, base, row) == spec_new_subs(rs, base, row),
{
    lemma_new_subs_prefix_suffix(rs, rs.len() as int, base, row);
    assert(spec_new_subs_prefix(rs, rs.len() as int, base, row) + spec_new_subs(
        rs.subrange(rs.len() as int, rs.len() as int),
        base + crate::schema::spec_width_rels(rs.subrange(0, rs.len() as int)),
        row,
    ) =~= spec_new_subs_prefix(rs, rs.len() as int, base, row));
}

/// A prefix of the seeded family, joined with the remaining suffix, is the
/// whole family.
pub proof fn lemma_new_subs_prefix_suffix(
    rs: Seq<RelationView>,
    upto: int,
    base: int,
    row: Seq<DbValueView>,
)
    requires
        0 <= upto <= rs.len(),
    ensures
        spec_new_subs_prefix(rs, upto, base, row) + spec_new_subs(
            rs.subrange(upto, rs.len() as int),
            base + crate::schema::spec_width_rels(rs.subrange(0, upto)),
            row,
        ) == spec_new_subs(rs, base, row),
    decreases upto,
{
    if upto == 0 {
        assert(rs.subrange(0, 0) =~= Seq::<RelationView>::empty());
        assert(crate::schema::spec_width_rels(Seq::<RelationView>::empty()) == 0);
        assert(rs.subrange(0, rs.len() as int) =~= rs);
        assert(spec_new_subs_prefix(rs, 0, base, row) + spec_new_subs(rs, base, row)
            =~= spec_new_subs(rs, base, row));
    } else {
        lemma_new_subs_prefix_suffix(rs, upto - 1, base, row);
        let pre1 = rs.subrange(0, upto - 1);
        let suf1 = rs.subrange(upto - 1, rs.len() as int);
        let suf2 = rs.subrange(upto, rs.len() as int);
        assert(suf1[0] == rs[upto - 1]);
        assert(suf1.drop_first() =~= suf2);
        crate::schema::lemma_width_rels_concat(pre1, seq![rs[upto - 1]]);
        assert(pre1 + seq![rs[upto - 1]] =~= rs.subrange(0, upto));
        assert(seq![rs[upto - 1]].drop_last() =~= Seq::<RelationView>::empty());
        assert(seq![rs[upto - 1]].last() == rs[upto - 1]);
        assert(crate::schema::spec_width_rels(Seq::<RelationView>::empty()) == 0);
        assert(crate::schema::spec_width_rels(seq![rs[upto - 1]]) == spec_width(
            rs[upto - 1].schema,
        ));
        assert(spec_new_subs_prefix(rs, upto, base, row) + spec_new_subs(
            suf2,
            base + crate::schema::spec_width_rels(rs.subrange(0, upto)),
            row,
        ) =~= spec_new_subs_prefix(rs, upto - 1, base, row) + spec_new_subs(
            suf1,
            base + crate::schema::spec_width_rels(pre1),
            row,
        ));
    }
}

impl DataCollector {
    /// Feeds one physical row to the collector, per the streaming rules.
    #[verifier::loop_isolation(false)]
    pub fn push_next(&mut self, schema: &Schema, row: &Vec<DbValue>)
        requires
            spec_collector_wf(schema@, old(self)@),
            old(self).offset + spec_width(schema@) <= row@.len(),
        ensures
            final(self)@ == spec_push(schema@, old(self)@, row.deep_view()),
            spec_collector_wf(schema@, final(self)@),
            final(self).offset == old(self).offset,
        decreases *schema, 1nat,
    {
        let ghost rowv = row.deep_view();
        let ghost rels = schema@.relations;
        proof {
            crate::schema::lemma_rel_views(schema.relations@);
            crate::query::lemma_width_rels_nonneg(rels);
            lemma_push_wf(schema@, old(self)@, rowv);
            assert(rowv[self.offset as int] == row@[self.offset as int]@);
        }
        let pk = match row[self.offset].as_pk() {
            Some(pk) => pk,
            None => {
                return ;
            },
        };
        let present = self.current.is_some();
        let same = match &self.current {
            Some(p) => p.pk == pk,
            None => false,
        };
        if !present {
            let p = new_partial(schema, self.offset, pk, row);
            self.current = Some(p);
            proof {
                assert(self@ =~~= spec_push(schema@, old(self)@, rowv));
            }
        } else if same {
            let row_len = row.len();
            let base = self.offset + 1 + schema.columns.len();
            match &mut self.current {
                Some(p) => {
                    let ghost old_subs = spec_sub_views(p.subs@);
                    let ghost pk0 = p.pk;
                    let ghost vals0 = p.values@;
                    proof {
                        lemma_sub_views(p.subs@);
                        lemma_push_subs_index(rels, old_subs, rowv);
                    }
                    let mut k: usize = 0;
                    while k < p.subs.len()
                        invariant
                            k <= p.subs.len(),
                            p.subs@.len() == old_subs.len(),
                            old_subs.len() == rels.len(),
                            spec_subs_wf(rels, base as int, old_subs),
                            forall|t: int|
                                0 <= t < old_subs.len() ==> #[trigger] spec_sub_views(p.subs@)[t]
                                    == (if t < k {
                                    spec_push(rels[t].schema, old_subs[t], rowv)
                                } else {
                                    old_subs[t]
                                }),
                            p.pk == pk0,
                            p.values@ == vals0,
                        decreases p.subs.len() - k,
                    {
                        let ghost pre_list = p.subs@;
                        proof {
                            lemma_sub_views(pre_list);
                            lemma_subs_wf_index(rels, base as int, old_subs, k as int);
                            crate::query::lemma_width_rels_nonneg(
                                rels.subrange(0, k as int),
                            );
                            assert(spec_sub_views(pre_list)[k as int] == old_subs[k as int]);
                        }
                        let mut sub = p.subs.remove(k);
                        proof {
                            assert(sub == pre_list[k as int]);
                            assert(spec_collector_view(sub) == old_subs[k as int]);
                        }
                        sub.push_next(&schema.relations[k].schema, row);
                        p.subs.insert(k, sub);
                        proof {
                            assert(p.subs@ =~= pre_list.update(k as int, sub));
                            lemma_sub_views(p.subs@);
                            assert forall|t: int| 0 <= t < old_subs.len() implies
                                #[trigger] spec_sub_views(p.subs@)[t] == (if t < k + 1 {
                                spec_push(rels[t].schema, old_subs[t], rowv)
                            } else {
                                old_subs[t]
                            }) by {
                                if t == k as int {
                                    assert(p.subs@[t] == sub);
                                } else {
                                    assert(p.subs@[t] == pre_list[t]);
                                    assert(spec_sub_views(pre_list)[t] == spec_collector_view(
                                        pre_list[t],
                                    ));
                                }
                            }
                        }
                        k = k + 1;
                    }
                    proof {
                        lemma_sub_views(p.subs@);
                        assert(spec_sub_views(p.subs@) =~= spec_push_subs(rels, old_subs, rowv));
                    }
                },
                None => {},
            }
            proof {
                assert(self@ =~~= spec_push(schema@, old(self)@, rowv));
            }
        } else {
            let finished = self.current.take();
            match finished {
                Some(p) => {
                    let e = finish_partial(p);
                    let ghost old_results = self.partial_result@;
                    self.partial_result.push(e);
                    proof {
                        assert(self.partial_result@.drop_last() =~= old_results);
                        assert(spec_entity_views(self.partial_result@)
                            =~= spec_entity_views(old_results).push(spec_entity_view(e)));
                    }
                },
                None => {},
            }
            let np = new_partial(schema, self.offset, pk, row);
            self.current = Some(np);
            proof {
                assert(self@ =~~= spec_push(schema@, old(self)@, rowv));
            }
        }
    }

    /// Ends the stream: finalizes the entity under assembly and returns the
    /// built entities.
    pub fn build(self) -> (r: Vec<Entity>)
        ensures
            spec_entity_views(r@) == spec_build(self@),
        decreases self, 0nat,
    {
        let DataCollector { offset: _, current, partial_result } = self;
        let mut result = partial_result;
        match current {
            Some(p) => {
                let ghost old_results = result@;
                let e = finish_partial(p);
                result.push(e);
                proof {
                    assert(result@.drop_last() =~= old_results);
                    assert(spec_entity_views(result@) =~= spec_entity_views(old_results).push(
                        spec_entity_view(e),
                    ));
                }
            },
            None => {},
        }
        result
    }
}

fn finish_partial(p: PartialData) -> (r: Entity)
    ensures
        spec_entity_view(r) == spec_finish(p@),
    decreases p, 1nat,
{
    let PartialData { pk, values, subs } = p;
    let ghost all_subs = spec_sub_views(subs@);
    proof {
        lemma_sub_views(subs@);
    }
    let mut subs = subs;
    let ghost orig_subs = subs@;
    let mut children: Vec<Vec<Entity>> = Vec::new();
    proof {
        assert(crate::entity::spec_entity_lists_views(children@) =~= Seq::<
            Seq<EntityView>,
        >::empty());
        assert(all_subs.subrange(0, 0) =~= Seq::<CollectorView>::empty());
        assert(spec_finish_subs(all_subs.subrange(0, 0)) =~= Seq::<Seq<EntityView>>::empty());
        assert(crate::entity::spec_entity_lists_views(children@) =~= spec_finish_subs(
            all_subs.subrange(0, 0),
        ));
    }
    let ghost done: int = 0;
    while subs.len() > 0
        invariant
            0 <= done <= all_subs.len(),
            orig_subs == p.subs@,
            subs@ == orig_subs.subrange(done, orig_subs.len() as int),
            orig_subs.len() == all_subs.len(),
            spec_sub_views(subs@) == all_subs.subrange(done, all_subs.len() as int),
            crate::entity::spec_entity_lists_views(children@) == spec_finish_subs(
                all_subs.subrange(0, done),
            ),
        decreases subs.len(),
    {
        let ghost pre_subs = subs@;
        proof {
            lemma_sub_views(pre_subs);
            assert(all_subs.subrange(done, all_subs.len() as int).len() == subs@.len());
        }
        let sub = subs.remove(0);
        proof {
            assert(sub == pre_subs[0]);
            assert(sub == orig_subs[done]);
            assert(sub == p.subs@[done]);
            assert(spec_sub_views(pre_subs)[0] == spec_collector_view(sub));
            assert(spec_collector_view(sub) == all_subs[done]);
            assert(subs@ =~= pre_subs.drop_first());
            assert(subs@ =~= orig_subs.subrange(done + 1, orig_subs.len() as int));
            lemma_sub_views(subs@);
            assert forall|t: int| 0 <= t < subs@.len() implies #[trigger] spec_sub_views(subs@)[t]
                == all_subs.subrange(done + 1, all_subs.len() as int)[t] by {
                assert(subs@[t] == pre_subs[t + 1]);
                assert(spec_sub_views(pre_subs)[t + 1] == spec_collector_view(pre_subs[t + 1]));
            }
            assert(spec_sub_views(subs@) =~= all_subs.subrange(done + 1, all_subs.len() as int));
        }
        let built = sub.build();
        let ghost old_children = children@;
        children.push(built);
        proof {
            assert(children@.drop_last() =~= old_children);
            assert(crate::entity::spec_entity_lists_views(children@)
                =~= crate::entity::spec_entity_lists_views(old_children).push(
                spec_entity_views(built@),
            ));
            assert(all_subs.subrange(0, done).push(all_subs[done]) =~= all_subs.subrange(
                0,
                done + 1,
            ));
            lemma_finish_subs_snoc_alt(all_subs, done);
        }
        proof {
            done = done + 1;
        }
    }
    proof {
        assert(all_subs.subrange(0, all_subs.len() as int) =~= all_subs);
        assert(spec_sub_views(subs@).len() == 0);
    }
    let r = Entity { pk: Some(pk), values, children };
    proof {
        assert(spec_entity_view(r) =~~= spec_finish(p@));
    }
    r
}

/// Extending a built prefix by one collector extends the child lists.
pub proof fn lemma_finish_subs_snoc_alt(subs: Seq<CollectorView>, k: int)
    requires
        0 <= k < subs.len(),
    ensures
        spec_finish_subs(subs.subrange(0, k + 1)) == spec_finish_subs(subs.subrange(0, k)) + seq![
            spec_build(subs[k]),
        ],
{
    assert(subs.subrange(0, k).push(subs[k]) =~= subs.subrange(0, k + 1));
    lemma_finish_subs_snoc(subs.subrange(0, k), subs[k]);
}

/// The collector state after a whole row stream.
pub open spec fn spec_push_all(
    s: SchemaView,
    c: CollectorView,
    rows: Seq<Seq<DbValueView>>,
) -> CollectorView
    decreases rows,
{
    if rows.len() == 0 {
        c
    } else {
        spec_push_all(s, spec_push(s, c, rows[0]), rows.drop_first())
    }
}

/// What the materializer yields for a row stream: the fold of the rows over
/// a fresh collector, finalized.
pub open spec fn spec_collect(s: SchemaView, rows: Seq<Seq<DbValueView>>) -> Seq<EntityView> {
    spec_build(spec_push_all(s, spec_init_collector(0), rows))
}

/// Folds an ordered row stream into the entity trees it represents. Rows
/// must arrive in the order the generated query's ORDER BY produces, and
/// each row must span the schema's flattened width.
#[verifier::loop_isolation(false)]
pub fn vec_from_rows(schema: &Schema, rows: &Vec<Vec<DbValue>>) -> (r: Vec<Entity>)
    requires
        forall|i: int| 0 <= i < rows@.len() ==> #[trigger] rows@[i]@.len() >= spec_width(schema@),
    ensures
        spec_entity_views(r@) == spec_collect(schema@, rows.deep_view()),
{
    let ghost rowvs = rows.deep_view();
    let mut c = DataCollector::new(0);
    proof {
        assert(rowvs.subrange(0, rowvs.len() as int) =~= rowvs);
    }
    let mut i: usize = 0;
    while i < rows.len()
        invariant
            i <= rows.len(),
            c.offset == 0,
            spec_collector_wf(schema@, c@),
            spec_push_all(schema@, c@, rowvs.subrange(i as int, rowvs.len() as int))
                == spec_push_all(schema@, spec_init_collector(0), rowvs),
        decreases rows.len() - i,
    {
        let ghost suf = rowvs.subrange(i as int, rowvs.len() as int);
        proof {
            assert(suf[0] == rowvs[i as int]);
            assert(suf.drop_first() =~= rowvs.subrange(i + 1 as int, rowvs.len() as int));
            assert(rowvs[i as int] =~= rows@[i as int].deep_view());
        }
        c.push_next(schema, &rows[i]);
        i = i + 1;
    }
    proof {
        assert(rowvs.subrange(rowvs.len() as int, rowvs.len() as int) =~= Seq::<
            Seq<DbValueView>,
        >::empty());
    }
    c.build()
}

} // verus!
